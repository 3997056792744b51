//! Text helpers of the terminal: splitting a command into words, joining
//! them again, cutting file text into lines and zero-padded numbers.
use vstd::prelude::*;
use crate::text::{decimal_digits, decimal_string, is_whitespace, spec_is_whitespace};
use crate::notepad::join_lines;
use crate::text_layout::{split_lines, split_lines_of};

verus! {

/// The characters of each line.
pub open spec fn lines_view(v: Seq<Vec<char>>) -> Seq<Seq<char>> {
    v.map_values(|l: Vec<char>| l@)
}

/// The words of `s[..i]` read so far and the word being read.
pub open spec fn words_prefix(s: Seq<char>, i: nat) -> (Seq<Seq<char>>, Seq<char>)
    decreases i,
{
    if i == 0 {
        (Seq::empty(), Seq::empty())
    } else {
        let (ws, cur) = words_prefix(s, (i - 1) as nat);
        if spec_is_whitespace(s[i - 1]) {
            if cur.len() > 0 { (ws.push(cur), Seq::empty()) } else { (ws, Seq::empty()) }
        } else {
            (ws, cur.push(s[i - 1]))
        }
    }
}

/// The whitespace-separated words of `s`, as `str::split_whitespace` yields them.
pub open spec fn words(s: Seq<char>) -> Seq<Seq<char>> {
    let (ws, cur) = words_prefix(s, s.len());
    if cur.len() > 0 { ws.push(cur) } else { ws }
}

/// The words of `ws` joined by single spaces.
pub open spec fn join_words(ws: Seq<Seq<char>>) -> Seq<char>
    decreases ws.len(),
{
    if ws.len() == 0 {
        Seq::empty()
    } else if ws.len() == 1 {
        ws[0]
    } else {
        join_words(ws.drop_last()) + seq![' '] + ws.last()
    }
}

/// A line without the carriage return that ends it, if any.
pub open spec fn strip_cr(l: Seq<char>) -> Seq<char> {
    if l.len() > 0 && l.last() == '\r' { l.drop_last() } else { l }
}

/// The lines of a text as `str::lines` yields them: cut at each `\n`, a `\r`
/// before the `\n` dropped, no empty line after a final `\n`.
pub open spec fn text_lines(t: Seq<char>) -> Seq<Seq<char>> {
    let ls = split_lines(t);
    let body = ls.drop_last().map_values(|l: Seq<char>| strip_cr(l));
    if ls.last().len() == 0 { body } else { body.push(ls.last()) }
}

/// The decimal digits of `n`, with zeros in front up to `width` characters
/// (as `format!("{:0width$}", n)` writes them).
pub open spec fn padded(n: nat, width: nat) -> Seq<char> {
    let d = decimal_digits(n);
    if d.len() >= width { d } else { Seq::new((width - d.len()) as nat, |i: int| '0') + d }
}

/// The words of `s`.
pub fn words_of(s: &[char]) -> (r: Vec<Vec<char>>)
    ensures
        lines_view(r@) == words(s@),
{
    let mut ws: Vec<Vec<char>> = Vec::new();
    let mut cur: Vec<char> = Vec::new();
    let mut i: usize = 0;
    while i < s.len()
        invariant
            i <= s@.len(),
            (lines_view(ws@), cur@) == words_prefix(s@, i as nat),
        decreases s@.len() - i,
    {
        let c = s[i];
        let ghost old_ws = ws@;
        if is_whitespace(c) {
            if cur.len() > 0 {
                let w = cur;
                ws.push(w);
                cur = Vec::new();
                assert(lines_view(ws@) =~= old_ws.map_values(|l: Vec<char>| l@).push(w@));
            }
        } else {
            cur.push(c);
        }
        i = i + 1;
    }
    if cur.len() > 0 {
        let ghost old_ws = ws@;
        ws.push(cur);
        assert(lines_view(ws@) =~= old_ws.map_values(|l: Vec<char>| l@).push(ws@.last()@));
    }
    ws
}

/// The words `ws[1..]` joined by single spaces.
pub fn join_rest(ws: &Vec<Vec<char>>) -> (r: Vec<char>)
    ensures
        ws@.len() > 0 ==> r@ == join_words(lines_view(ws@).drop_first()),
        ws@.len() == 0 ==> r@.len() == 0,
{
    let ghost all = lines_view(ws@);
    let mut out: Vec<char> = Vec::new();
    if ws.len() <= 1 {
        proof {
            if ws@.len() == 1 {
                assert(all.drop_first().len() == 0);
            }
        }
        return out;
    }
    let mut k: usize = 1;
    while k < ws.len()
        invariant
            1 <= k <= ws@.len(),
            all == lines_view(ws@),
            out@ == join_words(all.subrange(1, k as int)),
        decreases ws@.len() - k,
    {
        let ghost before = out@;
        if k > 1 {
            out.push(' ');
        }
        let w = &ws[k];
        let ghost mid = out@;
        let mut j: usize = 0;
        while j < w.len()
            invariant
                j <= w@.len(),
                out@ == mid + w@.subrange(0, j as int),
            decreases w@.len() - j,
        {
            out.push(w[j]);
            j = j + 1;
        }
        proof {
            assert(w@.subrange(0, w@.len() as int) =~= w@);
            let sub = all.subrange(1, k + 1);
            assert(sub.drop_last() =~= all.subrange(1, k as int));
            assert(sub.last() == w@);
            if k == 1 {
                assert(sub.len() == 1);
                assert(out@ =~= sub[0]);
            } else {
                assert(out@ =~= join_words(sub.drop_last()) + seq![' '] + sub.last());
            }
        }
        k = k + 1;
    }
    assert(all.subrange(1, ws@.len() as int) =~= all.drop_first());
    out
}

fn strip_cr_of(l: Vec<char>) -> (r: Vec<char>)
    ensures
        r@ == strip_cr(l@),
{
    let mut l = l;
    if l.len() > 0 && l[l.len() - 1] == '\r' {
        l.pop();
    }
    l
}

/// The lines of a text, as `str::lines` yields them.
pub fn text_lines_of(t: &[char]) -> (r: Vec<Vec<char>>)
    ensures
        lines_view(r@) == text_lines(t@),
{
    let ls = split_lines_of(t);
    let ghost all = lines_view(ls@);
    assert(all.len() == split_lines(t@).len());
    let n = ls.len();
    let mut out: Vec<Vec<char>> = Vec::new();
    let mut k: usize = 0;
    while k + 1 < n
        invariant
            n == ls@.len(),
            n >= 1,
            k + 1 <= n,
            all == lines_view(ls@),
            lines_view(out@) == all.subrange(0, k as int).map_values(|l: Seq<char>| strip_cr(l)),
        decreases n - k,
    {
        let ghost before = out@;
        let line = strip_cr_of(ls[k].clone());
        out.push(line);
        proof {
            assert(all.subrange(0, k + 1) =~= all.subrange(0, k as int).push(all[k as int]));
            assert(lines_view(out@) =~= before.map_values(|l: Vec<char>| l@).push(strip_cr(all[k as int])));
            assert(all.subrange(0, k + 1).map_values(|l: Seq<char>| strip_cr(l)) =~= all.subrange(0, k as int).map_values(|l: Seq<char>| strip_cr(l)).push(strip_cr(all[k as int])));
        }
        k = k + 1;
    }
    assert(all.subrange(0, k as int) =~= all.drop_last());
    let last = &ls[n - 1];
    if last.len() > 0 {
        let ghost before = out@;
        out.push(last.clone());
        assert(lines_view(out@) =~= before.map_values(|l: Vec<char>| l@).push(all.last()));
    }
    out
}

/// `n` in decimal, with zeros in front up to `width` characters.
pub fn padded_decimal(n: u64, width: usize) -> (r: Vec<char>)
    ensures
        r@ == padded(n as nat, width as nat),
{
    let d = decimal_string(n);
    if d.len() >= width {
        return d;
    }
    let fill = width - d.len();
    let mut out: Vec<char> = Vec::new();
    let mut i: usize = 0;
    while i < fill
        invariant
            i <= fill,
            out@ == Seq::new(i as nat, |j: int| '0'),
        decreases fill - i,
    {
        out.push('0');
        i = i + 1;
        assert(out@ =~= Seq::new(i as nat, |j: int| '0'));
    }
    let ghost zeros = out@;
    let mut j: usize = 0;
    while j < d.len()
        invariant
            j <= d@.len(),
            out@ == zeros + d@.subrange(0, j as int),
        decreases d@.len() - j,
    {
        out.push(d[j]);
        j = j + 1;
    }
    assert(d@.subrange(0, d@.len() as int) =~= d@);
    out
}

/// Appends the characters of `s` to `out`.
pub fn append_chars(out: &mut Vec<char>, s: &[char])
    ensures
        final(out)@ == old(out)@ + s@,
{
    let ghost head = out@;
    let mut j: usize = 0;
    while j < s.len()
        invariant
            j <= s@.len(),
            out@ == head + s@.subrange(0, j as int),
        decreases s@.len() - j,
    {
        out.push(s[j]);
        j = j + 1;
    }
    assert(s@.subrange(0, s@.len() as int) =~= s@);
}

/// The lines `ls[start..end]` joined by newlines.
pub fn join_range(ls: &Vec<Vec<char>>, start: usize, end: usize) -> (r: Vec<char>)
    requires
        start <= end <= ls@.len(),
    ensures
        r@ == join_lines(lines_view(ls@).subrange(start as int, end as int)),
{
    let ghost vis = lines_view(ls@).subrange(start as int, end as int);
    let mut out: Vec<char> = Vec::new();
    let mut i = start;
    while i < end
        invariant
            start <= i <= end <= ls@.len(),
            vis == lines_view(ls@).subrange(start as int, end as int),
            out@ == join_lines(vis.subrange(0, i - start)),
        decreases end - i,
    {
        let ghost k = i - start;
        if i > start {
            out.push('\n');
        }
        let line = &ls[i];
        assert(line@ == vis[k]);
        append_chars(&mut out, line.as_slice());
        proof {
            let sub = vis.subrange(0, k + 1);
            assert(sub.drop_last() =~= vis.subrange(0, k));
            assert(sub.last() == vis[k]);
            if k == 0 {
                assert(out@ =~= sub[0]);
            } else {
                assert(out@ =~= join_lines(sub.drop_last()) + seq!['\n'] + sub.last());
            }
        }
        i = i + 1;
    }
    assert(vis.subrange(0, end - start) =~= vis);
    out
}

} // verus!
