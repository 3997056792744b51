//! Laying text out in lines of bounded width, as the editor and the terminal
//! show it.
use vstd::prelude::*;

verus! {

/// The lines of `text` read so far (up to index `i`) and the line being read.
pub open spec fn split_prefix(text: Seq<char>, i: nat) -> (Seq<Seq<char>>, Seq<char>)
    decreases i,
{
    if i == 0 {
        (Seq::empty(), Seq::empty())
    } else {
        let (ls, cur) = split_prefix(text, (i - 1) as nat);
        if text[i - 1] == '\n' {
            (ls.push(cur), Seq::empty())
        } else {
            (ls, cur.push(text[i - 1]))
        }
    }
}

/// The `\n`-separated lines of `text` (empty ones included; at least one).
pub open spec fn split_lines(text: Seq<char>) -> Seq<Seq<char>> {
    let (ls, cur) = split_prefix(text, text.len());
    ls.push(cur)
}

/// The pieces after the first of a line cut every `max` characters (an empty
/// last piece dropped).
pub open spec fn wrap_rest(rest: Seq<char>, max: nat) -> Seq<Seq<char>>
    decreases rest.len(),
{
    if max == 0 || rest.len() == 0 {
        Seq::empty()
    } else if rest.len() > max {
        seq![rest.subrange(0, max as int)] + wrap_rest(rest.subrange(max as int, rest.len() as int), max)
    } else {
        seq![rest]
    }
}

/// A line as the editor shows it: whole when it fits in `max` characters,
/// else cut every `max` characters.
pub open spec fn hard_wrap(line: Seq<char>, max: nat) -> Seq<Seq<char>> {
    if line.len() <= max { seq![line] } else { wrap_rest(line, max) }
}

/// The lines of `ls`, each wrapped, one after the other.
pub open spec fn wrap_all(ls: Seq<Seq<char>>, max: nat) -> Seq<Seq<char>>
    decreases ls.len(),
{
    if ls.len() == 0 {
        Seq::empty()
    } else {
        wrap_all(ls.drop_last(), max) + hard_wrap(ls.last(), max)
    }
}

/// Index of the last space in `s`.
pub open spec fn last_space(s: Seq<char>) -> Option<int>
    decreases s.len(),
{
    if s.len() == 0 {
        None
    } else if s.last() == ' ' {
        Some(s.len() - 1)
    } else {
        last_space(s.drop_last())
    }
}

/// Where the terminal cuts a line that is too long: after the last space in
/// its first `max` characters when that space lies past the middle, else at
/// `max`.
pub open spec fn safe_split(text: Seq<char>, max: nat) -> int {
    if text.len() <= max {
        text.len() as int
    } else {
        match last_space(text.subrange(0, max as int)) {
            Some(i) => if i > max / 2 { i + 1 } else { max as int },
            None => max as int,
        }
    }
}

/// `s` without its leading spaces.
pub open spec fn trim_leading_spaces(s: Seq<char>) -> Seq<char>
    decreases s.len(),
{
    if s.len() > 0 && s[0] == ' ' {
        trim_leading_spaces(s.drop_first())
    } else {
        s
    }
}

/// A line as the terminal shows it: cut at safe points, the spaces after each
/// cut dropped, an empty remainder dropped.
pub open spec fn break_spec(text: Seq<char>, max: nat) -> Seq<Seq<char>>
    decreases text.len(),
{
    if max == 0 {
        Seq::empty()
    } else if text.len() > max {
        let p = safe_split(text, max);
        if 0 < p <= text.len() {
            proof {
                lemma_trim_len(text.subrange(p, text.len() as int));
            }
            seq![text.subrange(0, p)] + break_spec(trim_leading_spaces(text.subrange(p, text.len() as int)), max)
        } else {
            Seq::empty()
        }
    } else if text.len() > 0 {
        seq![text]
    } else {
        Seq::empty()
    }
}

proof fn lemma_last_space_range(s: Seq<char>)
    ensures
        last_space(s) matches Some(i) ==> 0 <= i < s.len() && s[i] == ' ',
    decreases s.len(),
{
    if s.len() > 0 {
        lemma_last_space_range(s.drop_last());
    }
}

proof fn lemma_safe_split_range(text: Seq<char>, max: nat)
    requires
        max > 0,
        text.len() > max,
    ensures
        0 < safe_split(text, max) <= max,
{
    lemma_last_space_range(text.subrange(0, max as int));
}

/// Dropping leading spaces never lengthens a line.
pub proof fn lemma_trim_len(s: Seq<char>)
    ensures
        trim_leading_spaces(s).len() <= s.len(),
    decreases s.len(),
{
    if s.len() > 0 && s[0] == ' ' {
        lemma_trim_len(s.drop_first());
    }
}

/// The `\n`-separated lines of `text`.
pub fn split_lines_of(text: &[char]) -> (r: Vec<Vec<char>>)
    ensures
        r@.map_values(|v: Vec<char>| v@) == split_lines(text@),
{
    let mut ls: Vec<Vec<char>> = Vec::new();
    let mut cur: Vec<char> = Vec::new();
    let mut i: usize = 0;
    while i < text.len()
        invariant
            i <= text@.len(),
            split_prefix(text@, i as nat) == (ls@.map_values(|v: Vec<char>| v@), cur@),
        decreases text@.len() - i,
    {
        if text[i] == '\n' {
            let ghost before = ls@;
            let done = cur;
            ls.push(done);
            assert(ls@.map_values(|v: Vec<char>| v@) =~= before.map_values(|v: Vec<char>| v@).push(done@));
            cur = Vec::new();
        } else {
            cur.push(text[i]);
        }
        i = i + 1;
    }
    let ghost before = ls@;
    let done = cur;
    ls.push(done);
    assert(ls@.map_values(|v: Vec<char>| v@) =~= before.map_values(|v: Vec<char>| v@).push(done@));
    ls
}

fn slice_to_vec(s: &[char], lo: usize, hi: usize) -> (r: Vec<char>)
    requires
        lo <= hi <= s@.len(),
    ensures
        r@ == s@.subrange(lo as int, hi as int),
{
    let mut r: Vec<char> = Vec::new();
    let mut i = lo;
    while i < hi
        invariant
            lo <= i <= hi <= s@.len(),
            r@ == s@.subrange(lo as int, i as int),
        decreases hi - i,
    {
        r.push(s[i]);
        i = i + 1;
    }
    r
}

/// Appends the editor's pieces of `line` (see `hard_wrap`) to `out`.
pub fn push_hard_wrap(out: &mut Vec<Vec<char>>, line: &[char], max: usize)
    requires
        max > 0,
    ensures
        final(out)@.map_values(|v: Vec<char>| v@) == old(out)@.map_values(|v: Vec<char>| v@) + hard_wrap(line@, max as nat),
{
    if line.len() <= max {
        let ghost before = out@;
        let whole = slice_to_vec(line, 0, line.len());
        assert(line@.subrange(0, line@.len() as int) =~= line@);
        out.push(whole);
        assert(out@.map_values(|v: Vec<char>| v@) =~= before.map_values(|v: Vec<char>| v@) + hard_wrap(line@, max as nat));
        return;
    }
    let mut start: usize = 0;
    assert(line@.subrange(0, line@.len() as int) =~= line@);
    while line.len() - start > max
        invariant
            start <= line@.len(),
            max > 0,
            old(out)@.map_values(|v: Vec<char>| v@) + wrap_rest(line@, max as nat)
                == out@.map_values(|v: Vec<char>| v@) + wrap_rest(line@.subrange(start as int, line@.len() as int), max as nat),
        decreases line@.len() - start,
    {
        let ghost rest = line@.subrange(start as int, line@.len() as int);
        let ghost before = out@;
        let chunk = slice_to_vec(line, start, start + max);
        out.push(chunk);
        assert(rest.subrange(0, max as int) =~= chunk@);
        assert(rest.subrange(max as int, rest.len() as int) =~= line@.subrange(start + max, line@.len() as int));
        assert(out@.map_values(|v: Vec<char>| v@) =~= before.map_values(|v: Vec<char>| v@).push(chunk@));
        assert(wrap_rest(rest, max as nat) == seq![chunk@] + wrap_rest(line@.subrange(start + max, line@.len() as int), max as nat));
        assert(before.map_values(|v: Vec<char>| v@) + (seq![chunk@] + wrap_rest(line@.subrange(start + max, line@.len() as int), max as nat))
            =~= before.map_values(|v: Vec<char>| v@).push(chunk@) + wrap_rest(line@.subrange(start + max, line@.len() as int), max as nat));
        start = start + max;
    }
    let ghost rest = line@.subrange(start as int, line@.len() as int);
    let ghost before = out@;
    if start < line.len() {
        let tail = slice_to_vec(line, start, line.len());
        out.push(tail);
        assert(out@.map_values(|v: Vec<char>| v@) =~= before.map_values(|v: Vec<char>| v@) + wrap_rest(rest, max as nat));
    } else {
        assert(wrap_rest(rest, max as nat) =~= Seq::<Seq<char>>::empty());
        assert(before.map_values(|v: Vec<char>| v@) + wrap_rest(rest, max as nat) =~= before.map_values(|v: Vec<char>| v@));
    }
}

/// Where the terminal cuts `text` (see `safe_split`).
pub fn find_safe_split_point(text: &[char], max_len: usize) -> (r: usize)
    ensures
        r == safe_split(text@, max_len as nat),
{
    if text.len() <= max_len {
        return text.len();
    }
    let ghost head = text@.subrange(0, max_len as int);
    let mut k = max_len;
    assert(head.subrange(0, k as int) =~= head);
    while k > 0 && text[k - 1] != ' '
        invariant
            k <= max_len < text@.len(),
            head == text@.subrange(0, max_len as int),
            last_space(head) == last_space(head.subrange(0, k as int)),
        decreases k,
    {
        assert(head.subrange(0, k as int).drop_last() =~= head.subrange(0, k - 1));
        k = k - 1;
    }
    if k == 0 {
        assert(last_space(head.subrange(0, 0)) is None);
        return max_len;
    }
    assert(head.subrange(0, k as int).last() == ' ');
    assert(last_space(head) == Some(k - 1));
    if k - 1 > max_len / 2 {
        k
    } else {
        max_len
    }
}

/// The terminal's lines for `text` (see `break_spec`).
pub fn break_line(text: &[char], max_len: usize) -> (r: Vec<Vec<char>>)
    requires
        max_len > 0,
    ensures
        r@.map_values(|v: Vec<char>| v@) == break_spec(text@, max_len as nat),
{
    let mut result: Vec<Vec<char>> = Vec::new();
    let mut start: usize = 0;
    assert(text@.subrange(0, text@.len() as int) =~= text@);
    while text.len() - start > max_len
        invariant
            start <= text@.len(),
            max_len > 0,
            break_spec(text@, max_len as nat)
                == result@.map_values(|v: Vec<char>| v@) + break_spec(text@.subrange(start as int, text@.len() as int), max_len as nat),
        decreases text@.len() - start,
    {
        let ghost rem = text@.subrange(start as int, text@.len() as int);
        let rest = vstd::slice::slice_subrange(text, start, text.len());
        assert(rest@ == rem);
        let split_point = find_safe_split_point(rest, max_len);
        proof {
            lemma_safe_split_range(rem, max_len as nat);
        }
        let ghost before = result@;
        let chunk = slice_to_vec(text, start, start + split_point);
        result.push(chunk);
        assert(chunk@ =~= rem.subrange(0, split_point as int));
        let mut next = start + split_point;
        let ghost after_cut = text@.subrange(next as int, text@.len() as int);
        assert(rem.subrange(split_point as int, rem.len() as int) =~= after_cut);
        assert(after_cut =~= text@.subrange(next as int, text@.len() as int));
        while next < text.len() && text[next] == ' '
            invariant
                start + split_point <= next <= text@.len(),
                trim_leading_spaces(after_cut) == trim_leading_spaces(text@.subrange(next as int, text@.len() as int)),
            decreases text@.len() - next,
        {
            let ghost cur = text@.subrange(next as int, text@.len() as int);
            assert(cur.drop_first() =~= text@.subrange(next + 1, text@.len() as int));
            next = next + 1;
        }
        assert(trim_leading_spaces(text@.subrange(next as int, text@.len() as int)) == text@.subrange(next as int, text@.len() as int));
        assert(result@.map_values(|v: Vec<char>| v@) =~= before.map_values(|v: Vec<char>| v@).push(chunk@));
        assert(break_spec(rem, max_len as nat) == seq![chunk@] + break_spec(trim_leading_spaces(after_cut), max_len as nat));
        assert(before.map_values(|v: Vec<char>| v@) + (seq![chunk@] + break_spec(text@.subrange(next as int, text@.len() as int), max_len as nat))
            =~= before.map_values(|v: Vec<char>| v@).push(chunk@) + break_spec(text@.subrange(next as int, text@.len() as int), max_len as nat));
        start = next;
    }
    let ghost rem = text@.subrange(start as int, text@.len() as int);
    let ghost before = result@;
    if start < text.len() {
        let tail = slice_to_vec(text, start, text.len());
        result.push(tail);
        assert(result@.map_values(|v: Vec<char>| v@) =~= before.map_values(|v: Vec<char>| v@) + break_spec(rem, max_len as nat));
    } else {
        assert(break_spec(rem, max_len as nat) =~= Seq::<Seq<char>>::empty());
        assert(before.map_values(|v: Vec<char>| v@) + break_spec(rem, max_len as nat) =~= before.map_values(|v: Vec<char>| v@));
    }
    result
}

} // verus!
