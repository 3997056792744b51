//! File names: 8.3 short names, their checksum, and long names stored as
//! UTF-16 in long-filename entries.
use vstd::prelude::*;
use crate::text::{push_char, spec_is_ascii, spec_to_ascii_uppercase, to_ascii_uppercase};


verus! {

// ---------------------------------------------------------------- checksum

pub open spec fn checksum_step(sum: u8, b: u8) -> u8 {
    (((sum % 2) * 128 + sum / 2 + b) % 256) as u8
}

/// The rotate-and-add checksum of a short name that long-filename entries carry.
pub open spec fn spec_checksum(s: Seq<u8>) -> u8
    decreases s.len(),
{
    if s.len() == 0 {
        0
    } else {
        checksum_step(spec_checksum(s.drop_last()), s.last())
    }
}

pub fn calculate_checksum(name_8_3: &[u8; 11]) -> (sum: u8)
    ensures
        sum == spec_checksum(name_8_3@),
{
    let mut sum: u8 = 0;
    let mut i: usize = 0;
    while i < 11
        invariant
            i <= 11,
            sum == spec_checksum(name_8_3@.subrange(0, i as int)),
        decreases 11 - i,
    {
        assert(name_8_3@.subrange(0, i + 1).drop_last() =~= name_8_3@.subrange(0, i as int));
        let rot: u16 = (sum % 2) as u16 * 128 + (sum / 2) as u16 + name_8_3[i] as u16;
        sum = (rot % 256) as u8;
        i = i + 1;
    }
    assert(name_8_3@.subrange(0, 11) =~= name_8_3@);
    sum
}

// ---------------------------------------------------------------- 8.3 names

/// The bytes of `s` up to (not including) the first space.
pub open spec fn until_space(s: Seq<u8>) -> Seq<u8>
    decreases s.len(),
{
    if s.len() == 0 || s[0] == 32 {
        Seq::empty()
    } else {
        seq![s[0]] + until_space(s.drop_first())
    }
}

pub open spec fn bytes_as_chars(s: Seq<u8>) -> Seq<char> {
    s.map_values(|b: u8| b as char)
}

/// The display form of an 8.3 name: the base up to its first space, then a dot
/// and the extension up to its first space when the extension is not blank.
pub open spec fn spec_name_8_3(n: Seq<u8>) -> Seq<char> {
    let base = bytes_as_chars(until_space(n.subrange(0, 8)));
    if n[8] != 32 {
        base + seq!['.'] + bytes_as_chars(until_space(n.subrange(8, 11)))
    } else {
        base
    }
}

/// `until_space(s)` is the longest space-free prefix of `s`.
proof fn lemma_until_space_prefix(s: Seq<u8>, i: int)
    requires
        0 <= i <= s.len(),
        forall|j: int| 0 <= j < i ==> s[j] != 32,
        i == s.len() || s[i] == 32,
    ensures
        until_space(s) == s.subrange(0, i),
    decreases s.len(),
{
    if s.len() == 0 || s[0] == 32 {
        assert(s.subrange(0, i) =~= Seq::<u8>::empty());
    } else {
        lemma_until_space_prefix(s.drop_first(), i - 1);
        assert(s.subrange(0, i) =~= seq![s[0]] + s.drop_first().subrange(0, i - 1));
    }
}

/// Appends the bytes of `name[from..to]` up to the first space; returns how many were appended.
fn push_until_space(out: &mut String, name: &[u8; 11], from: usize, to: usize) -> (k: usize)
    requires
        from <= to <= 11,
    ensures
        final(out)@ == old(out)@ + bytes_as_chars(until_space(name@.subrange(from as int, to as int))),
{
    let ghost s = name@.subrange(from as int, to as int);
    let mut i = from;
    while i < to && name[i] != 32
        invariant
            from <= i <= to,
            to <= 11,
            s == name@.subrange(from as int, to as int),
            forall|j: int| from <= j < i ==> name@[j] != 32,
            out@ == old(out)@ + bytes_as_chars(s.subrange(0, i - from)),
        decreases to - i,
    {
        push_char(out, name[i] as char);
        assert(s.subrange(0, i + 1 - from) =~= s.subrange(0, i - from).push(name@[i as int]));
        assert(bytes_as_chars(s.subrange(0, i + 1 - from)) =~= bytes_as_chars(
            s.subrange(0, i - from),
        ).push(name@[i as int] as char));
        i = i + 1;
    }
    proof {
        lemma_until_space_prefix(s, i - from);
    }
    i - from
}

/// The display form of an 8.3 name (`NAME.EXT`).
pub fn name_8_3_to_string(name_8_3: &[u8; 11]) -> (r: String)
    ensures
        r@ == spec_name_8_3(name_8_3@),
{
    let mut result = String::new();
    push_until_space(&mut result, name_8_3, 0, 8);
    if name_8_3[8] != 32 {
        push_char(&mut result, '.');
        push_until_space(&mut result, name_8_3, 8, 11);
    }
    result
}

// ---------------------------------------------------------------- short names from user names

pub open spec fn is_ascii_lower(c: char) -> bool {
    'a' <= c && c <= 'z'
}

/// Number of occurrences of `c` in `s`.
pub open spec fn count_char(s: Seq<char>, c: char) -> nat
    decreases s.len(),
{
    if s.len() == 0 {
        0
    } else {
        count_char(s.drop_last(), c) + if s.last() == c { 1nat } else { 0nat }
    }
}

/// A name fits the 8.3 form directly: at most 12 characters, no space, only
/// ASCII characters that are not lowercase, and at most one dot. Other names get
/// long-filename entries and a generated short alias. (On non-ASCII names the
/// byte length differs from the character count, but such names never fit.)
pub open spec fn fits_8_3(s: Seq<char>) -> bool {
    &&& s.len() <= 12
    &&& !s.contains(' ')
    &&& forall|i: int| 0 <= i < s.len() ==> spec_is_ascii(#[trigger] s[i]) && !is_ascii_lower(s[i])
    &&& count_char(s, '.') <= 1
}

/// Whether a name fits the 8.3 form (see `fits_8_3`).
pub fn fits_8_3_form(name: &[char]) -> (b: bool)
    ensures
        b == fits_8_3(name@),
{
    if name.len() > 12 {
        return false;
    }
    let mut dots: usize = 0;
    let mut i: usize = 0;
    while i < name.len()
        invariant
            i <= name@.len() <= 12,
            dots <= i,
            dots == count_char(name@.subrange(0, i as int), '.'),
            !name@.subrange(0, i as int).contains(' '),
            forall|j: int| 0 <= j < i ==> spec_is_ascii(#[trigger] name@[j]) && !is_ascii_lower(name@[j]),
        decreases name@.len() - i,
    {
        let c = name[i];
        assert(name@.subrange(0, i + 1).drop_last() =~= name@.subrange(0, i as int));
        if c == ' ' {
            assert(name@[i as int] == ' ');
            return false;
        }
        if !((c as u32) < 0x80) || ('a' <= c && c <= 'z') {
            return false;
        }
        if c == '.' {
            dots = dots + 1;
        }
        assert(!name@.subrange(0, i + 1).contains(' ')) by {
            if name@.subrange(0, i + 1).contains(' ') {
                let k = choose|k: int| 0 <= k < i + 1 && #[trigger] name@.subrange(0, i + 1)[k] == ' ';
                if k < i {
                    assert(name@.subrange(0, i as int)[k] == ' ');
                }
            }
        }
        i = i + 1;
    }
    assert(name@.subrange(0, name@.len() as int) =~= name@);
    dots <= 1
}

/// Index of the first `.` in `s` at or after `from`, or `s.len()` if there is none.
pub open spec fn next_dot(s: Seq<char>, from: int) -> int
    decreases s.len() - from,
{
    if from >= s.len() {
        s.len() as int
    } else if s[from] == '.' {
        from
    } else {
        next_dot(s, from + 1)
    }
}

pub open spec fn min(a: int, b: int) -> int {
    if a <= b { a } else { b }
}

/// Byte `k` of a field of `width` bytes holding the upper-cased characters
/// `s[from..to]`, cut to the width and padded with spaces.
pub open spec fn field_byte(s: Seq<char>, from: int, to: int, width: int, k: int) -> u8 {
    if k < min(to - from, width) {
        spec_to_ascii_uppercase(s[from + k]) as u8
    } else {
        32u8
    }
}

/// The 8.3 form of a name that fits it directly: the part before the first dot
/// (at most 8 characters) and the part after it up to the next dot (at most 3),
/// upper-cased and padded with spaces.
pub open spec fn spec_format_8_3(s: Seq<char>) -> Seq<u8> {
    let d = next_dot(s, 0);
    let e = if d < s.len() { next_dot(s, d + 1) } else { d };
    Seq::new(
        11,
        |k: int|
            if k < 8 {
                field_byte(s, 0, d, 8, k)
            } else if d < s.len() {
                field_byte(s, d + 1, e, 3, k - 8)
            } else {
                32u8
            },
    )
}

/// Writes the upper-cased characters of `name[from..]` up to the next dot
/// (at most `width` of them) into `out[at..at + width]`; returns the index where
/// the part ends.
fn copy_part_upper(out: &mut [u8; 11], name: &[char], from: usize, at: usize, width: usize) -> (end: usize)
    requires
        from <= name@.len(),
        at + width <= 11,
        forall|k: int| at <= k < at + width ==> old(out)@[k] == 32u8,
    ensures
        from <= end <= name@.len(),
        end == next_dot(name@, from as int),
        forall|k: int| 0 <= k < 11 && !(at <= k < at + width) ==> final(out)@[k] == old(out)@[k],
        forall|k: int| at <= k < at + width ==> final(out)@[k] == field_byte(name@, from as int, end as int, width as int, k - at),
{
    let mut i = from;
    while i < name.len() && name[i] != '.'
        invariant
            from <= i <= name@.len(),
            at + width <= 11,
            next_dot(name@, from as int) == next_dot(name@, i as int),
            forall|k: int| 0 <= k < 11 && !(at <= k < at + width) ==> out@[k] == old(out)@[k],
            forall|k: int| at <= k < at + width ==> out@[k] == (if k - at < i - from {
                spec_to_ascii_uppercase(name@[from + k - at]) as u8
            } else {
                32u8
            }),
        decreases name@.len() - i,
    {
        if i - from < width {
            let c = to_ascii_uppercase(name[i]);
            out[at + (i - from)] = c as u8;
        }
        i = i + 1;
    }
    i
}

/// The 8.3 form of a name that fits it (see `spec_format_8_3`).
pub fn format_filename_8_3(filename: &[char]) -> (r: [u8; 11])
    requires
        fits_8_3(filename@),
    ensures
        r@ == spec_format_8_3(filename@),
{
    let mut name_8_3 = [32u8; 11];
    let end = copy_part_upper(&mut name_8_3, filename, 0, 0, 8);
    if end < filename.len() {
        let _ = copy_part_upper(&mut name_8_3, filename, end + 1, 8, 3);
    }
    assert(name_8_3@ =~= spec_format_8_3(filename@));
    name_8_3
}

} // verus!
