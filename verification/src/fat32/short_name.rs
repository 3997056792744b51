//! Generated 8.3 aliases (`NAME~N.EXT`) for long file names.
use vstd::prelude::*;
use crate::text::{decimal_digits, decimal_string, spec_is_ascii_alphanumeric, spec_to_ascii_uppercase, to_ascii_uppercase};

verus! {

/// The characters of `s` that may appear in a short name (ASCII letters and
/// digits and `_`), upper-cased.
pub open spec fn clean_name(s: Seq<char>) -> Seq<char>
    decreases s.len(),
{
    if s.len() == 0 {
        Seq::empty()
    } else {
        let r = clean_name(s.drop_last());
        let c = s.last();
        if spec_is_ascii_alphanumeric(c) || c == '_' {
            r.push(spec_to_ascii_uppercase(c))
        } else {
            r
        }
    }
}

/// Index of the last `.` in `s`.
pub open spec fn last_dot(s: Seq<char>) -> Option<int>
    decreases s.len(),
{
    if s.len() == 0 {
        None
    } else if s.last() == '.' {
        Some(s.len() - 1)
    } else {
        last_dot(s.drop_last())
    }
}

/// The base of a long name for its alias: everything before the last dot.
pub open spec fn alias_base(s: Seq<char>) -> Seq<char> {
    match last_dot(s) {
        Some(i) => clean_name(s.subrange(0, i)),
        None => clean_name(s),
    }
}

/// The extension of a long name for its alias: at most three characters after the last dot.
pub open spec fn alias_ext(s: Seq<char>) -> Option<Seq<char>> {
    match last_dot(s) {
        Some(i) => {
            let e = clean_name(s.subrange(i + 1, s.len() as int));
            Some(e.subrange(0, if e.len() < 3 { e.len() as int } else { 3 }))
        },
        None => None,
    }
}

/// The numeric tail `~N`.
pub open spec fn tail(n: nat) -> Seq<char> {
    seq!['~'] + decimal_digits(n)
}

/// The base of the alias with tail `n`: the cleaned base cut so that base and
/// tail fit in 8 characters, then the tail.
pub open spec fn short_base(base: Seq<char>, n: nat) -> Seq<char> {
    let t = tail(n);
    let keep = if base.len() + t.len() > 8 { 8 - t.len() } else { base.len() as int };
    base.subrange(0, keep) + t
}

/// The 11 bytes of alias number `n`: base and tail padded to 8 with spaces, then
/// the extension padded to 3.
pub open spec fn alias_bytes(base: Seq<char>, ext: Option<Seq<char>>, n: nat) -> Seq<u8> {
    let b = short_base(base, n);
    Seq::new(
        11,
        |k: int|
            if k < 8 {
                if k < b.len() { b[k] as u8 } else { 32u8 }
            } else {
                match ext {
                    Some(e) => if k - 8 < e.len() { e[k - 8] as u8 } else { 32u8 },
                    None => 32u8,
                }
            },
    )
}

pub fn clean_chars(s: &[char]) -> (r: Vec<char>)
    ensures
        r@ == clean_name(s@),
{
    let mut out: Vec<char> = Vec::new();
    let mut i: usize = 0;
    while i < s.len()
        invariant
            i <= s@.len(),
            out@ == clean_name(s@.subrange(0, i as int)),
        decreases s@.len() - i,
    {
        let c = s[i];
        assert(s@.subrange(0, i + 1).drop_last() =~= s@.subrange(0, i as int));
        if ('0' <= c && c <= '9') || ('a' <= c && c <= 'z') || ('A' <= c && c <= 'Z') || c == '_' {
            out.push(to_ascii_uppercase(c));
        }
        i = i + 1;
    }
    assert(s@.subrange(0, s@.len() as int) =~= s@);
    out
}

pub fn find_last_dot(s: &[char]) -> (r: Option<usize>)
    ensures
        match r {
            Some(i) => last_dot(s@) == Some(i as int) && i < s@.len(),
            None => last_dot(s@) is None,
        },
{
    let mut i = s.len();
    assert(s@.subrange(0, s@.len() as int) =~= s@);
    while i > 0
        invariant
            i <= s@.len(),
            last_dot(s@) == last_dot(s@.subrange(0, i as int)),
        decreases i,
    {
        let ghost p = s@.subrange(0, i as int);
        assert(p.drop_last() =~= s@.subrange(0, i - 1));
        if s[i - 1] == '.' {
            return Some(i - 1);
        }
        i = i - 1;
    }
    None
}

/// The cleaned base and extension of a long name.
pub fn alias_parts(long_name: &[char]) -> (r: (Vec<char>, Option<Vec<char>>))
    ensures
        r.0@ == alias_base(long_name@),
        match r.1 {
            Some(e) => alias_ext(long_name@) == Some(e@),
            None => alias_ext(long_name@) is None,
        },
        forall|i: int| 0 <= i < r.0@.len() ==> (#[trigger] r.0@[i] as u32) < 128,
        r.1 matches Some(e) ==> e@.len() <= 3 && forall|i: int| 0 <= i < e@.len() ==> (#[trigger] e@[i] as u32) < 128,
{
    let _len = long_name.len();
    match find_last_dot(long_name) {
        Some(dot) => {
            proof {
                lemma_clean_ascii(long_name@.subrange(0, dot as int));
                lemma_clean_ascii(long_name@.subrange(dot + 1, long_name@.len() as int));
            }
            let base = clean_chars(vstd::slice::slice_subrange(long_name, 0, dot));
            let e = clean_chars(vstd::slice::slice_subrange(long_name, dot + 1, long_name.len()));
            let mut ext: Vec<char> = Vec::new();
            let mut i: usize = 0;
            while i < e.len() && i < 3
                invariant
                    i <= e@.len(),
                    i <= 3,
                    ext@ == e@.subrange(0, i as int),
                decreases e@.len() - i,
            {
                ext.push(e[i]);
                i = i + 1;
            }
            assert(i == if e@.len() < 3 { e@.len() as int } else { 3 });
            assert(ext@ =~= e@.subrange(0, if e@.len() < 3 { e@.len() as int } else { 3 }));
            (base, Some(ext))
        },
        None => {
            proof {
                lemma_clean_ascii(long_name@);
            }
            (clean_chars(long_name), None)
        },
    }
}

pub open spec fn pow10(k: nat) -> nat
    decreases k,
{
    if k == 0 { 1 } else { 10 * pow10((k - 1) as nat) }
}

proof fn lemma_digits_le(n: nat, k: nat)
    requires
        k >= 1,
        n < pow10(k),
    ensures
        decimal_digits(n).len() <= k,
        decimal_digits(n).len() >= 1,
    decreases n,
{
    if n >= 10 {
        assert(k >= 2) by {
            if k == 1 {
                assert(pow10(1) == 10) by {
                    reveal_with_fuel(pow10, 2);
                }
            }
        }
        lemma_digits_le(n / 10, (k - 1) as nat);
    }
}

proof fn lemma_digits_len(n: nat)
    ensures
        n <= 999999 ==> decimal_digits(n).len() <= 6,
        decimal_digits(n).len() >= 1,
{
    assert(pow10(6) == 1000000) by {
        reveal_with_fuel(pow10, 7);
    }
    if n <= 999999 {
        lemma_digits_le(n, 6);
    } else {
        lemma_pow10_gt(n + 1);
        lemma_digits_le(n, n + 1);
    }
}

proof fn lemma_pow10_gt(k: nat)
    ensures
        pow10(k) > k,
    decreases k,
{
    if k > 0 {
        lemma_pow10_gt((k - 1) as nat);
    }
}

/// The 8.3 bytes of alias number `n` (1 to 999999).
pub fn alias_candidate(base: &[char], ext: &Option<Vec<char>>, n: u32) -> (r: [u8; 11])
    requires
        1 <= n <= 999999,
        forall|i: int| 0 <= i < base@.len() ==> (#[trigger] base@[i] as u32) < 128,
        ext matches Some(e) ==> e@.len() <= 3 && forall|i: int| 0 <= i < e@.len() ==> (#[trigger] e@[i] as u32) < 128,
    ensures
        r@ == alias_bytes(base@, opt_chars(*ext), n as nat),
{
    proof {
        lemma_digits_len(n as nat);
    }
    let digits = decimal_string(n as u64);
    let mut t: Vec<char> = Vec::new();
    t.push('~');
    let mut j: usize = 0;
    while j < digits.len()
        invariant
            j <= digits@.len(),
            t@ == seq!['~'] + digits@.subrange(0, j as int),
        decreases digits@.len() - j,
    {
        t.push(digits[j]);
        j = j + 1;
    }
    assert(t@ =~= tail(n as nat));
    let keep = if base.len() > 8 - t.len() { 8 - t.len() } else { base.len() };
    let mut sb: Vec<char> = Vec::new();
    let mut i: usize = 0;
    while i < keep
        invariant
            keep <= base@.len(),
            i <= keep,
            sb@ == base@.subrange(0, i as int),
        decreases keep - i,
    {
        sb.push(base[i]);
        i = i + 1;
    }
    i = 0;
    while i < t.len()
        invariant
            i <= t@.len(),
            sb@ == base@.subrange(0, keep as int) + t@.subrange(0, i as int),
        decreases t@.len() - i,
    {
        sb.push(t[i]);
        i = i + 1;
    }
    assert(sb@ =~= short_base(base@, n as nat));
    let mut out = [32u8; 11];
    i = 0;
    while i < 8
        invariant
            i <= 8,
            sb@ == short_base(base@, n as nat),
            sb@.len() <= 8,
            forall|k: int| 0 <= k < i ==> out@[k] == (if k < sb@.len() { sb@[k] as u8 } else { 32u8 }),
            forall|k: int| i <= k < 11 ==> out@[k] == 32u8,
        decreases 8 - i,
    {
        if i < sb.len() {
            out[i] = sb[i] as u8;
        }
        i = i + 1;
    }
    if let Some(e) = ext {
        i = 0;
        while i < e.len()
            invariant
                e@.len() <= 3,
                i <= e@.len(),
                forall|k: int| 0 <= k < 8 ==> out@[k] == (if k < sb@.len() { sb@[k] as u8 } else { 32u8 }),
                forall|k: int| 8 <= k < 8 + i ==> out@[k] == e@[k - 8] as u8,
                forall|k: int| 8 + i <= k < 11 ==> out@[k] == 32u8,
            decreases e@.len() - i,
        {
            out[8 + i] = e[i] as u8;
            i = i + 1;
        }
    }
    assert(out@ =~= alias_bytes(base@, opt_chars(*ext), n as nat));
    out
}

pub open spec fn opt_chars(o: Option<Vec<char>>) -> Option<Seq<char>> {
    match o {
        Some(v) => Some(v@),
        None => None,
    }
}

/// Every character of a cleaned name is ASCII.
pub proof fn lemma_clean_ascii(s: Seq<char>)
    ensures
        forall|i: int| 0 <= i < clean_name(s).len() ==> (#[trigger] clean_name(s)[i] as u32) < 128,
    decreases s.len(),
{
    if s.len() > 0 {
        lemma_clean_ascii(s.drop_last());
        let c = s.last();
        if 'a' <= c && c <= 'z' {
            assert((spec_to_ascii_uppercase(c) as u32) < 128);
        } else if spec_is_ascii_alphanumeric(c) || c == '_' {
            assert(spec_to_ascii_uppercase(c) == c);
            assert((c as u32) <= ('z' as u32));
        }
        assert forall|i: int| 0 <= i < clean_name(s).len() implies (#[trigger] clean_name(s)[i] as u32) < 128 by {
            if i < clean_name(s.drop_last()).len() {
                assert(clean_name(s)[i] == clean_name(s.drop_last())[i]);
            }
        }
    }
}

} // verus!
