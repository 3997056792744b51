//! Character-level helpers shared by the filesystem and the editors.
use vstd::prelude::*;
use vstd::string::*;

verus! {

/// Appends one character to a `String` (std `String::push`).
#[verifier::external_body]
pub(crate) fn push_char(s: &mut String, c: char)
    ensures
        final(s)@ == old(s)@.push(c),
{
    s.push(c);
}

/// Unicode upper-casing of a string, as `str::to_uppercase` computes it.
pub uninterp spec fn spec_to_uppercase(s: Seq<char>) -> Seq<char>;

/// Upper-cases a string (std `str::to_uppercase`, full Unicode case mapping).
#[verifier::external_body]
pub(crate) fn to_uppercase(s: &str) -> (r: String)
    ensures
        r@ == spec_to_uppercase(s@),
{
    s.to_uppercase()
}

/// Unicode lower-casing of a string, as `str::to_lowercase` computes it.
pub uninterp spec fn spec_to_lowercase(s: Seq<char>) -> Seq<char>;

/// Lower-cases a string (std `str::to_lowercase`, full Unicode case mapping).
#[verifier::external_body]
pub(crate) fn to_lowercase(s: &str) -> (r: String)
    ensures
        r@ == spec_to_lowercase(s@),
{
    s.to_lowercase()
}

/// Whether a character is a control character (`char::is_control`, Unicode category Cc).
pub open spec fn spec_is_control(c: char) -> bool {
    (c as u32) < 0x20 || (0x7f <= (c as u32) && (c as u32) < 0xa0)
}

pub fn is_control(c: char) -> (r: bool)
    ensures
        r == spec_is_control(c),
{
    let v = c as u32;
    v < 0x20 || (0x7f <= v && v < 0xa0)
}

pub open spec fn spec_is_ascii(c: char) -> bool {
    (c as u32) < 0x80
}

pub open spec fn spec_is_ascii_alphanumeric(c: char) -> bool {
    ('0' <= c && c <= '9') || ('a' <= c && c <= 'z') || ('A' <= c && c <= 'Z')
}

pub open spec fn spec_to_ascii_uppercase(c: char) -> char {
    if 'a' <= c && c <= 'z' {
        ((c as u32) - 32) as char
    } else {
        c
    }
}

pub fn to_ascii_uppercase(c: char) -> (r: char)
    ensures
        r == spec_to_ascii_uppercase(c),
{
    if 'a' <= c && c <= 'z' {
        let b = (c as u32 - 32) as u8;
        b as char
    } else {
        c
    }
}

/// The characters of a string slice, in order.
pub fn chars_of(s: &str) -> (r: Vec<char>)
    ensures
        r@ == s@,
{
    let n = s.unicode_len();
    let mut out: Vec<char> = Vec::new();
    let mut i: usize = 0;
    while i < n
        invariant
            n == s@.len(),
            i <= n,
            out@ == s@.subrange(0, i as int),
        decreases n - i,
    {
        let c = s.get_char(i);
        out.push(c);
        i = i + 1;
    }
    out
}

/// Builds a `String` holding the given characters.
pub fn string_from_chars(cs: &[char]) -> (r: String)
    ensures
        r@ == cs@,
{
    let mut s = String::new();
    let mut i: usize = 0;
    while i < cs.len()
        invariant
            i <= cs@.len(),
            s@ == cs@.subrange(0, i as int),
        decreases cs@.len() - i,
    {
        push_char(&mut s, cs[i]);
        i = i + 1;
    }
    s
}

/// Decimal digits of a number, most significant first (as `format!("{}", n)` writes them).
pub open spec fn decimal_digits(n: nat) -> Seq<char>
    decreases n,
{
    if n < 10 {
        seq![digit_char(n)]
    } else {
        decimal_digits(n / 10).push(digit_char(n % 10))
    }
}

pub open spec fn digit_char(d: nat) -> char {
    (('0' as u32) + d) as char
}

pub fn decimal_string(n: u64) -> (r: Vec<char>)
    ensures
        r@ == decimal_digits(n as nat),
    decreases n,
{
    if n < 10 {
        let c = ((n as u8) + 48) as char;
        let mut v = Vec::new();
        v.push(c);
        v
    } else {
        let mut v = decimal_string(n / 10);
        let d = ((n % 10) as u8 + 48) as char;
        v.push(d);
        v
    }
}

/// A Unicode scalar value may be any code point but the UTF-16 surrogates.
pub open spec fn spec_char_from_u32(x: u32) -> Option<char> {
    if x < 0xD800 || (0xDFFF < x && x <= 0x10FFFF) {
        Some(x as char)
    } else {
        None
    }
}

/// Converts a code point to a `char` (std `char::from_u32`): `None` for
/// surrogates and values past U+10FFFF.
#[verifier::external_body]
pub(crate) fn char_from_u32(x: u32) -> (r: Option<char>)
    ensures
        r == spec_char_from_u32(x),
{
    char::from_u32(x)
}

/// Unicode `White_Space` characters (as `char::is_whitespace` tests them).
pub open spec fn spec_is_whitespace(c: char) -> bool {
    ||| ('\u{9}' <= c && c <= '\u{d}')
    ||| c == ' '
    ||| c == '\u{85}'
    ||| c == '\u{a0}'
    ||| c == '\u{1680}'
    ||| ('\u{2000}' <= c && c <= '\u{200a}')
    ||| c == '\u{2028}'
    ||| c == '\u{2029}'
    ||| c == '\u{202f}'
    ||| c == '\u{205f}'
    ||| c == '\u{3000}'
}

pub fn is_whitespace(c: char) -> (r: bool)
    ensures
        r == spec_is_whitespace(c),
{
    ('\u{9}' <= c && c <= '\u{d}') || c == ' ' || c == '\u{85}' || c == '\u{a0}' || c == '\u{1680}'
        || ('\u{2000}' <= c && c <= '\u{200a}') || c == '\u{2028}' || c == '\u{2029}' || c == '\u{202f}'
        || c == '\u{205f}' || c == '\u{3000}'
}

/// A copy of a character vector.
pub fn copy_chars(s: &Vec<char>) -> (r: Vec<char>)
    ensures
        r@ == s@,
{
    let mut r: Vec<char> = Vec::new();
    let mut i: usize = 0;
    while i < s.len()
        invariant
            i <= s@.len(),
            r@ == s@.subrange(0, i as int),
        decreases s@.len() - i,
    {
        r.push(s[i]);
        i = i + 1;
    }
    assert(s@.subrange(0, s@.len() as int) =~= s@);
    r
}

/// Whether two character vectors hold the same characters.
pub fn same_chars(a: &Vec<char>, b: &Vec<char>) -> (r: bool)
    ensures
        r == (a@ == b@),
{
    if a.len() != b.len() {
        return false;
    }
    let mut i: usize = 0;
    while i < a.len()
        invariant
            i <= a@.len(),
            a@.len() == b@.len(),
            forall|j: int| 0 <= j < i ==> a@[j] == b@[j],
        decreases a@.len() - i,
    {
        if a[i] != b[i] {
            return false;
        }
        i = i + 1;
    }
    assert(a@ =~= b@);
    true
}

/// Whether a name is `.`.
pub(crate) fn is_dot(name: &String) -> (r: bool)
    ensures
        r == (name@ == seq!['.']),
{
    let cs = chars_of(name.as_str());
    if cs.len() == 1 && cs[0] == '.' {
        assert(cs@ =~= seq!['.']);
        true
    } else {
        false
    }
}

} // verus!
