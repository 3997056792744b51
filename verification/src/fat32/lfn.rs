//! Long file names: encoding a name into long-filename entries and
//! reassembling it from them.
use vstd::prelude::*;
use crate::text::{char_from_u32, push_char, spec_char_from_u32};
use crate::fat32::entry::{LongFilenameEntry, ATTR_LONG_NAME};
use crate::fat32::names::{min, spec_checksum};

verus! {

/// Number of name characters one long-filename entry holds.
pub const CHARS_PER_ENTRY: usize = 13;

/// The UTF-16 code units of one character: the code point itself below
/// U+10000, a surrogate pair above.
pub open spec fn char_units(c: char) -> Seq<u16> {
    let cp = c as u32;
    if cp < 0x10000 {
        seq![cp as u16]
    } else {
        let v = cp - 0x10000;
        seq![(0xD800 + v / 0x400) as u16, (0xDC00 + v % 0x400) as u16]
    }
}

/// The UTF-16 code units of a name.
pub open spec fn spec_utf16_units(s: Seq<char>) -> Seq<u16>
    decreases s.len(),
{
    if s.len() == 0 {
        Seq::empty()
    } else {
        char_units(s[0]) + spec_utf16_units(s.drop_first())
    }
}

pub open spec fn is_high_surrogate(u: u16) -> bool {
    0xD800 <= u < 0xDC00
}

pub open spec fn is_low_surrogate(u: u16) -> bool {
    0xDC00 <= u < 0xE000
}

/// The code point a surrogate pair stands for.
pub open spec fn pair_code(hi: u16, lo: u16) -> u32 {
    (0x10000 + (hi - 0xD800) * 0x400 + (lo - 0xDC00)) as u32
}

/// The characters spelled by UTF-16 units up to the first 0 or 0xFFFF unit:
/// surrogate pairs give one character each, lone surrogates are dropped.
pub open spec fn spec_utf16_decode(u: Seq<u16>) -> Seq<char>
    decreases u.len(),
{
    if u.len() == 0 || u[0] == 0 || u[0] == 0xFFFF {
        Seq::empty()
    } else if u.len() >= 2 && is_high_surrogate(u[0]) && is_low_surrogate(u[1]) {
        match spec_char_from_u32(pair_code(u[0], u[1])) {
            Some(c) => seq![c] + spec_utf16_decode(u.subrange(2, u.len() as int)),
            None => spec_utf16_decode(u.subrange(2, u.len() as int)),
        }
    } else {
        match spec_char_from_u32(u[0] as u32) {
            Some(c) => seq![c] + spec_utf16_decode(u.drop_first()),
            None => spec_utf16_decode(u.drop_first()),
        }
    }
}

pub fn utf8_to_utf16(input: &[char]) -> (r: Vec<u16>)
    ensures
        r@ == spec_utf16_units(input@),
{
    let mut out: Vec<u16> = Vec::new();
    let mut i: usize = 0;
    assert(input@.subrange(0, input@.len() as int) =~= input@);
    assert(out@ + spec_utf16_units(input@) =~= spec_utf16_units(input@));
    while i < input.len()
        invariant
            i <= input@.len(),
            out@ + spec_utf16_units(input@.subrange(i as int, input@.len() as int)) == spec_utf16_units(input@),
        decreases input@.len() - i,
    {
        let ghost rest = input@.subrange(i as int, input@.len() as int);
        assert(rest.drop_first() =~= input@.subrange(i + 1, input@.len() as int));
        let ghost before = out@;
        let c = input[i];
        let cp = c as u32;
        proof {
            vstd::utf8::char_is_scalar(c);
        }
        if cp < 0x10000 {
            out.push(cp as u16);
        } else {
            let v = cp - 0x10000;
            out.push((0xD800 + v / 0x400) as u16);
            out.push((0xDC00 + v % 0x400) as u16);
        }
        assert(out@ =~= before + char_units(rest[0]));
        assert(before + spec_utf16_units(rest) =~= out@ + spec_utf16_units(rest.drop_first()));
        i = i + 1;
    }
    assert(input@.subrange(i as int, input@.len() as int) =~= Seq::<char>::empty());
    assert(out@ + Seq::<u16>::empty() =~= out@);
    out
}

pub fn utf16_to_utf8(input: &[u16]) -> (r: String)
    ensures
        r@ == spec_utf16_decode(input@),
{
    let mut result = String::new();
    let mut i: usize = 0;
    assert(input@.subrange(0, input@.len() as int) =~= input@);
    while i < input.len()
        invariant
            i <= input@.len(),
            result@ + spec_utf16_decode(input@.subrange(i as int, input@.len() as int))
                == spec_utf16_decode(input@),
        decreases input@.len() - i,
    {
        let unit = input[i];
        let ghost rest = input@.subrange(i as int, input@.len() as int);
        assert(rest.drop_first() =~= input@.subrange(i + 1, input@.len() as int));
        if unit == 0 || unit == 0xFFFF {
            return result;
        }
        let ghost before = result@;
        if i + 1 < input.len() && 0xD800 <= unit && unit < 0xDC00 && 0xDC00 <= input[i + 1] && input[i + 1] < 0xE000 {
            let lo = input[i + 1];
            assert(rest.subrange(2, rest.len() as int) =~= input@.subrange(i + 2, input@.len() as int));
            let code = 0x10000 + (unit as u32 - 0xD800) * 0x400 + (lo as u32 - 0xDC00);
            assert(code == pair_code(unit, lo));
            if let Some(ch) = char_from_u32(code) {
                push_char(&mut result, ch);
                assert(result@ + spec_utf16_decode(rest.subrange(2, rest.len() as int)) =~= before + spec_utf16_decode(rest));
            }
            i = i + 2;
        } else {
            if let Some(ch) = char_from_u32(unit as u32) {
                push_char(&mut result, ch);
                assert(result@ + spec_utf16_decode(rest.drop_first()) =~= before + spec_utf16_decode(rest));
            }
            i = i + 1;
        }
    }
    assert(input@.subrange(input@.len() as int, input@.len() as int) =~= Seq::<u16>::empty());
    assert(result@ =~= result@ + Seq::<char>::empty());
    result
}

// ---------------------------------------------------------------- encoding

/// Number of long-filename entries a name of `len` characters needs.
pub open spec fn lfn_count(len: nat) -> nat {
    (len + 12) / 13
}

/// The 13 units entry `i` holds: its slice of the name, a 0 terminator if
/// there is room, then 0xFFFF padding.
pub open spec fn lfn_chunk(units: Seq<u16>, i: int) -> Seq<u16> {
    let start = 13 * i;
    let end = min(start + 13, units.len() as int);
    let c = units.subrange(start, end);
    Seq::new(
        13,
        |j: int|
            if j < c.len() {
                c[j]
            } else if j == c.len() {
                0u16
            } else {
                0xFFFFu16
            },
    )
}

pub open spec fn set_bit6(x: int) -> u8 {
    if (x / 64) % 2 == 1 { x as u8 } else { (x + 64) as u8 }
}

/// Sequence number of entry `i` of `n`: `i + 1` (mod 256), with bit 6 set on the last one.
pub open spec fn lfn_sequence(i: int, n: int) -> u8 {
    if i == n - 1 {
        set_bit6((i + 1) % 256)
    } else {
        ((i + 1) % 256) as u8
    }
}

pub open spec fn lfn_units_of(e: LongFilenameEntry) -> Seq<u16> {
    e.name1@ + e.name2@ + e.name3@
}

/// `e` is entry `i` (of `n`) of the long-filename encoding of `units`.
pub open spec fn is_lfn_slot(e: LongFilenameEntry, units: Seq<u16>, i: int, n: int, checksum: u8) -> bool {
    &&& e.sequence == lfn_sequence(i, n)
    &&& lfn_units_of(e) == lfn_chunk(units, i)
    &&& e.attributes == ATTR_LONG_NAME
    &&& e.reserved == 0
    &&& e.checksum == checksum
    &&& e.first_cluster == 0
}

/// The long-filename entries for a name, in on-disk order (highest sequence first).
pub open spec fn lfn_entries_ok(r: Seq<LongFilenameEntry>, name: Seq<char>, checksum: u8) -> bool {
    let units = spec_utf16_units(name);
    let n = lfn_count(units.len());
    &&& r.len() == n
    &&& forall|j: int| 0 <= j < n ==> is_lfn_slot(#[trigger] r[j], units, n - 1 - j, n as int, checksum)
}

fn lfn_entry(units: &Vec<u16>, i: usize, n: usize, checksum: u8) -> (e: LongFilenameEntry)
    requires
        n == lfn_count(units@.len()),
        i < n,
    ensures
        is_lfn_slot(e, units@, i as int, n as int, checksum),
{
    let ulen = units.len();
    assert(13 * i < ulen) by (nonlinear_arith)
        requires
            i < n,
            n == (ulen + 12) / 13,
    ;
    let start = 13 * i;
    let end = if units.len() - start >= 13 { start + 13 } else { units.len() };
    let clen = end - start;
    let mut all = [0xFFFFu16; 13];
    let mut j: usize = 0;
    while j < 13
        invariant
            j <= 13,
            start <= end <= units@.len(),
            clen == end - start,
            end == min(start + 13, units@.len() as int),
            start == 13 * i,
            forall|k: int| 0 <= k < j ==> all@[k] == lfn_chunk(units@, i as int)[k],
            forall|k: int| j <= k < 13 ==> all@[k] == 0xFFFFu16,
        decreases 13 - j,
    {
        if j < clen {
            all[j] = units[start + j];
        } else if j == clen {
            all[j] = 0;
        }
        j = j + 1;
    }
    let name1 = [all[0], all[1], all[2], all[3], all[4]];
    let name2 = [all[5], all[6], all[7], all[8], all[9], all[10]];
    let name3 = [all[11], all[12]];
    let seq_no = ((i + 1) % 256) as u8;
    let sequence = if i == n - 1 {
        if (seq_no / 64) % 2 == 1 { seq_no } else { seq_no + 64 }
    } else {
        seq_no
    };
    let e = LongFilenameEntry {
        sequence,
        name1,
        attributes: ATTR_LONG_NAME,
        reserved: 0,
        checksum,
        name2,
        first_cluster: 0,
        name3,
    };
    assert(lfn_units_of(e) =~= all@);
    assert(all@ =~= lfn_chunk(units@, i as int));
    e
}

/// Builds the long-filename entries for `long_name`, highest sequence first.
pub fn create_lfn_entries(long_name: &[char], checksum: u8) -> (r: Vec<LongFilenameEntry>)
    ensures
        lfn_entries_ok(r@, long_name@, checksum),
{
    let units = utf8_to_utf16(long_name);
    let num_entries = units.len() / 13 + if units.len() % 13 != 0 { 1 } else { 0 };
    assert(num_entries == (units@.len() + 12) / 13);
    let mut out: Vec<LongFilenameEntry> = Vec::new();
    let mut k: usize = 0;
    while k < num_entries
        invariant
            k <= num_entries,
            num_entries == lfn_count(units@.len()),
            units@ == spec_utf16_units(long_name@),
            out@.len() == k,
            forall|j: int| 0 <= j < k ==> is_lfn_slot(#[trigger] out@[j], units@, num_entries - 1 - j, num_entries as int, checksum),
        decreases num_entries - k,
    {
        let e = lfn_entry(&units, num_entries - 1 - k, num_entries, checksum);
        out.push(e);
        k = k + 1;
    }
    out
}

// ---------------------------------------------------------------- decoding

/// The units of a name field up to the first 0 or 0xFFFF.
pub open spec fn field_prefix(u: Seq<u16>) -> Seq<u16>
    decreases u.len(),
{
    if u.len() == 0 || u[0] == 0 || u[0] == 0xFFFF {
        Seq::empty()
    } else {
        seq![u[0]] + field_prefix(u.drop_first())
    }
}

/// A name field ends the whole name: its first 0 or 0xFFFF unit is a 0.
pub open spec fn field_ends_name(u: Seq<u16>) -> bool
    decreases u.len(),
{
    if u.len() == 0 {
        false
    } else if u[0] == 0 {
        true
    } else if u[0] == 0xFFFF {
        false
    } else {
        field_ends_name(u.drop_first())
    }
}

/// The name units carried by entries taken in order: each of the three fields
/// up to its first 0 or 0xFFFF, stopping for good at the first 0.
pub open spec fn gather_units(es: Seq<LongFilenameEntry>) -> Seq<u16>
    decreases es.len(),
{
    if es.len() == 0 {
        Seq::empty()
    } else {
        let e = es[0];
        let a = field_prefix(e.name1@);
        let b = field_prefix(e.name2@);
        let c = field_prefix(e.name3@);
        if field_ends_name(e.name1@) {
            a
        } else if field_ends_name(e.name2@) {
            a + b
        } else if field_ends_name(e.name3@) {
            a + b + c
        } else {
            a + b + c + gather_units(es.drop_first())
        }
    }
}

pub open spec fn seq_key(e: LongFilenameEntry) -> u8 {
    e.sequence % 64
}

/// Inserts `e` after every element whose key is not greater than its own.
pub open spec fn sort_insert(sorted: Seq<LongFilenameEntry>, e: LongFilenameEntry) -> Seq<LongFilenameEntry>
    decreases sorted.len(),
{
    if sorted.len() == 0 {
        seq![e]
    } else if seq_key(sorted.last()) <= seq_key(e) {
        sorted.push(e)
    } else {
        sort_insert(sorted.drop_last(), e).push(sorted.last())
    }
}

/// The entries ordered by sequence number (`sequence & 0x3F`), stably.
pub open spec fn sort_by_seq(s: Seq<LongFilenameEntry>) -> Seq<LongFilenameEntry>
    decreases s.len(),
{
    if s.len() == 0 {
        Seq::empty()
    } else {
        sort_insert(sort_by_seq(s.drop_last()), s.last())
    }
}

/// The long name spelled by the entries that precede a short entry whose name
/// is `short_name`: none when there are no entries or one carries another
/// checksum; otherwise the units gathered in sequence order, decoded.
pub open spec fn spec_reconstruct(lfns: Seq<LongFilenameEntry>, short_name: Seq<u8>) -> Option<Seq<char>> {
    if lfns.len() == 0 {
        None
    } else if exists|i: int| 0 <= i < lfns.len() && (#[trigger] lfns[i]).checksum != spec_checksum(short_name) {
        None
    } else {
        Some(spec_utf16_decode(gather_units(sort_by_seq(lfns))))
    }
}

proof fn lemma_sort_insert_at(v: Seq<LongFilenameEntry>, e: LongFilenameEntry, p: int)
    requires
        0 <= p <= v.len(),
        p == 0 || seq_key(v[p - 1]) <= seq_key(e),
        forall|j: int| p <= j < v.len() ==> seq_key(#[trigger] v[j]) > seq_key(e),
    ensures
        sort_insert(v, e) == v.subrange(0, p).push(e) + v.subrange(p, v.len() as int),
    decreases v.len(),
{
    if v.len() == 0 {
        assert(v.subrange(0, p).push(e) + v.subrange(p, v.len() as int) =~= seq![e]);
    } else if p == v.len() {
        assert(v.subrange(0, p).push(e) + v.subrange(p, v.len() as int) =~= v.push(e));
    } else {
        lemma_sort_insert_at(v.drop_last(), e, p);
        assert(v.subrange(0, p).push(e) + v.subrange(p, v.len() as int) =~= (v.drop_last().subrange(0, p).push(e) + v.drop_last().subrange(p, v.drop_last().len() as int)).push(v.last()));
    }
}

fn insert_by_seq(v: &mut Vec<LongFilenameEntry>, e: LongFilenameEntry)
    ensures
        final(v)@ == sort_insert(old(v)@, e),
{
    let mut p = v.len();
    while p > 0 && v[p - 1].sequence % 64 > e.sequence % 64
        invariant
            p <= v@.len(),
            forall|j: int| p <= j < v@.len() ==> seq_key(#[trigger] v@[j]) > seq_key(e),
        decreases p,
    {
        p = p - 1;
    }
    proof {
        lemma_sort_insert_at(v@, e, p as int);
    }
    let ghost before = v@;
    v.insert(p, e);
    assert(v@ =~= before.subrange(0, p as int).push(e) + before.subrange(p as int, before.len() as int));
}

fn sort_lfn_entries(s: &[LongFilenameEntry]) -> (r: Vec<LongFilenameEntry>)
    ensures
        r@ == sort_by_seq(s@),
{
    let mut out: Vec<LongFilenameEntry> = Vec::new();
    let mut i: usize = 0;
    while i < s.len()
        invariant
            i <= s@.len(),
            out@ == sort_by_seq(s@.subrange(0, i as int)),
        decreases s@.len() - i,
    {
        assert(s@.subrange(0, i + 1).drop_last() =~= s@.subrange(0, i as int));
        insert_by_seq(&mut out, s[i]);
        i = i + 1;
    }
    assert(s@.subrange(0, s@.len() as int) =~= s@);
    out
}

/// Appends the units of one name field; returns whether the field ended the name.
fn gather_field(out: &mut Vec<u16>, field: &[u16]) -> (ended: bool)
    ensures
        final(out)@ == old(out)@ + field_prefix(field@),
        ended == field_ends_name(field@),
{
    let mut i: usize = 0;
    assert(field@.subrange(0, field@.len() as int) =~= field@);
    while i < field.len()
        invariant
            i <= field@.len(),
            out@ + field_prefix(field@.subrange(i as int, field@.len() as int)) == old(out)@ + field_prefix(field@),
            field_ends_name(field@.subrange(i as int, field@.len() as int)) == field_ends_name(field@),
        decreases field@.len() - i,
    {
        let ghost rest = field@.subrange(i as int, field@.len() as int);
        assert(rest.drop_first() =~= field@.subrange(i + 1, field@.len() as int));
        let ch = field[i];
        if ch == 0 {
            assert(out@ + field_prefix(rest) =~= out@);
            return true;
        }
        if ch == 0xFFFF {
            assert(out@ + field_prefix(rest) =~= out@);
            return false;
        }
        let ghost before = out@;
        out.push(ch);
        assert(before + field_prefix(rest) =~= out@ + field_prefix(rest.drop_first()));
        i = i + 1;
    }
    assert(field@.subrange(i as int, field@.len() as int) =~= Seq::<u16>::empty());
    assert(out@ + field_prefix(Seq::<u16>::empty()) =~= out@);
    false
}

fn gather_all(es: &[LongFilenameEntry]) -> (r: Vec<u16>)
    ensures
        r@ == gather_units(es@),
{
    let mut out: Vec<u16> = Vec::new();
    let mut i: usize = 0;
    assert(es@.subrange(0, es@.len() as int) =~= es@);
    assert(Seq::<u16>::empty() + gather_units(es@) =~= gather_units(es@));
    while i < es.len()
        invariant
            i <= es@.len(),
            out@ + gather_units(es@.subrange(i as int, es@.len() as int)) == gather_units(es@),
        decreases es@.len() - i,
    {
        let ghost rest = es@.subrange(i as int, es@.len() as int);
        assert(rest.drop_first() =~= es@.subrange(i + 1, es@.len() as int));
        let ghost before = out@;
        let e = es[i];
        if gather_field(&mut out, &e.name1) {
            assert(out@ =~= before + gather_units(rest));
            return out;
        }
        if gather_field(&mut out, &e.name2) {
            assert(out@ =~= before + gather_units(rest));
            return out;
        }
        if gather_field(&mut out, &e.name3) {
            assert(out@ =~= before + gather_units(rest));
            return out;
        }
        assert(before + gather_units(rest) =~= out@ + gather_units(rest.drop_first()));
        i = i + 1;
    }
    assert(es@.subrange(i as int, es@.len() as int) =~= Seq::<LongFilenameEntry>::empty());
    assert(out@ + Seq::<u16>::empty() =~= out@);
    out
}

/// Reassembles the long name from the entries that precede the short entry
/// named `short_name` (see `spec_reconstruct`).
pub fn reconstruct_long_filename(lfn_entries: &[LongFilenameEntry], short_name: &[u8; 11]) -> (r: Result<Option<String>, &'static str>)
    ensures
        r is Ok,
        r matches Ok(o) && (match o {
            Some(s) => spec_reconstruct(lfn_entries@, short_name@) == Some(s@),
            None => spec_reconstruct(lfn_entries@, short_name@) is None,
        }),
{
    if lfn_entries.len() == 0 {
        return Ok(None);
    }
    let expected = crate::fat32::names::calculate_checksum(short_name);
    let mut i: usize = 0;
    while i < lfn_entries.len()
        invariant
            i <= lfn_entries@.len(),
            expected == spec_checksum(short_name@),
            forall|j: int| 0 <= j < i ==> (#[trigger] lfn_entries@[j]).checksum == expected,
        decreases lfn_entries@.len() - i,
    {
        if lfn_entries[i].checksum != expected {
            assert(lfn_entries@[i as int].checksum != spec_checksum(short_name@));
            return Ok(None);
        }
        i = i + 1;
    }
    let sorted = sort_lfn_entries(lfn_entries);
    let units = gather_all(&sorted);
    let name = utf16_to_utf8(&units);
    Ok(Some(name))
}


// ---------------------------------------------------------------- round trip

/// Keys strictly decreasing along `s`.
pub open spec fn keys_decreasing(s: Seq<LongFilenameEntry>) -> bool {
    forall|i: int, j: int| 0 <= i < j < s.len() ==> seq_key(s[i]) > seq_key(s[j])
}

proof fn lemma_sort_decreasing(s: Seq<LongFilenameEntry>)
    requires
        keys_decreasing(s),
    ensures
        sort_by_seq(s) == s.reverse(),
    decreases s.len(),
{
    if s.len() > 0 {
        let init = s.drop_last();
        assert(keys_decreasing(init));
        lemma_sort_decreasing(init);
        let v = init.reverse();
        assert forall|j: int| 0 <= j < v.len() implies seq_key(#[trigger] v[j]) > seq_key(s.last()) by {
            assert(v[j] == init[init.len() - 1 - j]);
            assert(init[init.len() - 1 - j] == s[init.len() - 1 - j]);
        }
        lemma_sort_insert_at(v, s.last(), 0);
        assert(v.subrange(0, 0).push(s.last()) + v.subrange(0, v.len() as int) =~= s.reverse());
    }
}

/// A name field whose first `k` units carry characters and, when it is longer,
/// has a 0 after them.
proof fn lemma_field(f: Seq<u16>, k: int)
    requires
        0 <= k,
        forall|i: int| 0 <= i < k && i < f.len() ==> f[i] != 0 && f[i] != 0xFFFF,
        k < f.len() ==> f[k] == 0,
    ensures
        field_prefix(f) == f.subrange(0, if k < f.len() { k } else { f.len() as int }),
        field_ends_name(f) == (k < f.len()),
    decreases f.len(),
{
    if f.len() > 0 && k > 0 {
        lemma_field(f.drop_first(), k - 1);
        assert(f.drop_first().subrange(0, if k - 1 < f.len() - 1 { k - 1 } else { f.len() - 1 }) =~= f.subrange(1, if k < f.len() { k } else { f.len() as int }));
        assert(seq![f[0]] + f.subrange(1, if k < f.len() { k } else { f.len() as int }) =~= f.subrange(0, if k < f.len() { k } else { f.len() as int }));
    } else if f.len() > 0 {
        assert(f.subrange(0, 0) =~= Seq::<u16>::empty());
    } else {
        assert(f.subrange(0, 0) =~= Seq::<u16>::empty());
    }
}

/// The units an entry carries when its 13 units are `w`: the first `m`
/// characters, then the end of the name when `m` < 13.
proof fn lemma_entry_units(e: LongFilenameEntry, m: int)
    requires
        0 <= m <= 13,
        forall|i: int| 0 <= i < m ==> lfn_units_of(e)[i] != 0 && lfn_units_of(e)[i] != 0xFFFF,
        m < 13 ==> lfn_units_of(e)[m] == 0,
    ensures
        m < 13 ==> gather_units(seq![e]) == lfn_units_of(e).subrange(0, m),
        m == 13 ==> forall|rest: Seq<LongFilenameEntry>| #[trigger] gather_units(seq![e] + rest) == lfn_units_of(e) + gather_units(rest),
{
    let w = lfn_units_of(e);
    assert(e.name1@ =~= w.subrange(0, 5));
    assert(e.name2@ =~= w.subrange(5, 11));
    assert(e.name3@ =~= w.subrange(11, 13));
    lemma_field(e.name1@, m);
    if m >= 5 {
        lemma_field(e.name2@, m - 5);
    }
    if m >= 11 {
        lemma_field(e.name3@, m - 11);
    }
    if m < 5 {
        assert(gather_units(seq![e]) == field_prefix(e.name1@));
    } else if m < 11 {
        lemma_field(e.name1@, m);
        assert(e.name1@.subrange(0, 5) + e.name2@.subrange(0, m - 5) =~= w.subrange(0, m));
    } else if m < 13 {
        assert(e.name1@.subrange(0, 5) + e.name2@.subrange(0, 6) + e.name3@.subrange(0, m - 11) =~= w.subrange(0, m));
    } else {
        assert forall|rest: Seq<LongFilenameEntry>| #[trigger] gather_units(seq![e] + rest) == lfn_units_of(e) + gather_units(rest) by {
            let es = seq![e] + rest;
            assert(es[0] == e);
            assert(es.drop_first() =~= rest);
            assert(e.name1@.subrange(0, 5) =~= e.name1@);
            assert(e.name2@.subrange(0, 6) =~= e.name2@);
            assert(e.name3@.subrange(0, 2) =~= e.name3@);
        }
    }
}

/// The entries for slots `i`.. of a name, in slot order, gather the name's
/// units from `13 * i` on.
proof fn lemma_gather_slots(es: Seq<LongFilenameEntry>, units: Seq<u16>, i: int, n: int, checksum: u8)
    requires
        n == lfn_count(units.len()),
        0 <= i <= n,
        es.len() == n - i,
        forall|j: int| 0 <= j < es.len() ==> is_lfn_slot(#[trigger] es[j], units, i + j, n, checksum),
        forall|j: int| 0 <= j < units.len() ==> units[j] != 0 && units[j] != 0xFFFF,
    ensures
        gather_units(es) == units.subrange(min(13 * i, units.len() as int), units.len() as int),
    decreases es.len(),
{
    if es.len() == 0 {
        assert(13 * i >= units.len());
        assert(units.subrange(units.len() as int, units.len() as int) =~= Seq::<u16>::empty());
    } else {
        let e = es[0];
        assert(is_lfn_slot(es[0], units, i, n, checksum));
        let start = 13 * i;
        let end = min(start + 13, units.len() as int);
        assert(start < units.len());
        let m = end - start;
        let w = lfn_units_of(e);
        assert(w == lfn_chunk(units, i));
        assert forall|k: int| 0 <= k < m implies w[k] != 0 && w[k] != 0xFFFF by {
            assert(w[k] == units[start + k]);
        }
        lemma_entry_units(e, m);
        if m < 13 {
            assert(es.len() == 1) by {
                assert(units.len() < start + 13);
            }
            assert(es =~= seq![e]);
            assert(w.subrange(0, m) =~= units.subrange(start, units.len() as int));
        } else {
            let rest = es.drop_first();
            assert(es =~= seq![e] + rest);
            assert forall|j: int| 0 <= j < rest.len() implies is_lfn_slot(#[trigger] rest[j], units, i + 1 + j, n, checksum) by {
                assert(rest[j] == es[j + 1]);
            }
            lemma_gather_slots(rest, units, i + 1, n, checksum);
            assert(w =~= units.subrange(start, start + 13));
            assert(units.subrange(start, start + 13) + units.subrange(start + 13, units.len() as int) =~= units.subrange(start, units.len() as int));
        }
    }
}

/// A character other than U+0000 and U+FFFF.
pub open spec fn name_char(c: char) -> bool {
    c as u32 != 0 && c as u32 != 0xFFFF
}

proof fn lemma_char_units(c: char)
    requires
        name_char(c),
    ensures
        1 <= char_units(c).len() <= 2,
        forall|j: int| 0 <= j < char_units(c).len() ==> #[trigger] char_units(c)[j] != 0 && char_units(c)[j] != 0xFFFF,
        forall|x: Seq<u16>| #[trigger] spec_utf16_decode(char_units(c) + x) == seq![c] + spec_utf16_decode(x),
{
    let cp = c as u32;
    vstd::utf8::char_is_scalar(c);
    vstd::utf8::char_u32_cast(c, cp);
    if cp < 0x10000 {
        assert forall|x: Seq<u16>| #[trigger] spec_utf16_decode(char_units(c) + x) == seq![c] + spec_utf16_decode(x) by {
            let u = char_units(c) + x;
            assert(u[0] == cp as u16);
            assert(u.drop_first() =~= x);
            assert(spec_char_from_u32(u[0] as u32) == Some(c));
        }
    } else {
        let v = cp - 0x10000;
        vstd::arithmetic::div_mod::lemma_fundamental_div_mod(v as int, 0x400);
        let hi = (0xD800 + v / 0x400) as u16;
        let lo = (0xDC00 + v % 0x400) as u16;
        assert(v / 0x400 < 0x400);
        assert(pair_code(hi, lo) == cp);
        assert forall|x: Seq<u16>| #[trigger] spec_utf16_decode(char_units(c) + x) == seq![c] + spec_utf16_decode(x) by {
            let u = char_units(c) + x;
            assert(u[0] == hi && u[1] == lo);
            assert(u.subrange(2, u.len() as int) =~= x);
            assert(spec_char_from_u32(pair_code(u[0], u[1])) == Some(c));
        }
    }
}

/// A name has at most two UTF-16 units per character.
pub proof fn lemma_units_len(name: Seq<char>)
    ensures
        spec_utf16_units(name).len() <= 2 * name.len(),
    decreases name.len(),
{
    if name.len() > 0 {
        lemma_units_len(name.drop_first());
    }
}

proof fn lemma_units_facts(name: Seq<char>)
    requires
        forall|i: int| 0 <= i < name.len() ==> name_char(#[trigger] name[i]),
    ensures
        name.len() <= spec_utf16_units(name).len() <= 2 * name.len(),
        forall|j: int| 0 <= j < spec_utf16_units(name).len() ==> #[trigger] spec_utf16_units(name)[j] != 0 && spec_utf16_units(name)[j] != 0xFFFF,
        spec_utf16_decode(spec_utf16_units(name)) == name,
    decreases name.len(),
{
    if name.len() > 0 {
        let rest = name.drop_first();
        assert forall|i: int| 0 <= i < rest.len() implies name_char(#[trigger] rest[i]) by {
            assert(rest[i] == name[i + 1]);
        }
        lemma_units_facts(rest);
        assert(name_char(name[0]));
        lemma_char_units(name[0]);
        let cu = char_units(name[0]);
        let ru = spec_utf16_units(rest);
        assert forall|j: int| 0 <= j < spec_utf16_units(name).len() implies #[trigger] spec_utf16_units(name)[j] != 0 && spec_utf16_units(name)[j] != 0xFFFF by {
            if j < cu.len() {
                assert(spec_utf16_units(name)[j] == cu[j]);
            } else {
                assert(spec_utf16_units(name)[j] == ru[j - cu.len()]);
            }
        }
        assert(spec_utf16_decode(cu + ru) == seq![name[0]] + spec_utf16_decode(ru));
        assert(seq![name[0]] + rest =~= name);
    }
}

/// The long-filename entries made for a name spell that name again: for a
/// name of 1 to 409 characters other than U+0000 and U+FFFF (characters past
/// U+FFFF take a surrogate pair each), with the checksum of the short name
/// they go with.
pub proof fn lemma_lfn_roundtrip(name: Seq<char>, short_name: Seq<u8>, r: Seq<LongFilenameEntry>)
    requires
        lfn_entries_ok(r, name, spec_checksum(short_name)),
        1 <= name.len() <= 409,
        forall|i: int| 0 <= i < name.len() ==> name_char(#[trigger] name[i]),
    ensures
        spec_reconstruct(r, short_name) == Some(name),
{
    lemma_units_facts(name);
    let units = spec_utf16_units(name);
    let n = lfn_count(units.len()) as int;
    let checksum = spec_checksum(short_name);
    assert(1 <= n <= 63);
    assert forall|j: int| 0 <= j < r.len() implies (#[trigger] r[j]).checksum == checksum by {
        assert(is_lfn_slot(r[j], units, n - 1 - j, n, checksum));
    }
    assert forall|j: int| 0 <= j < r.len() implies seq_key(#[trigger] r[j]) == n - j by {
        assert(is_lfn_slot(r[j], units, n - 1 - j, n, checksum));
        let i = n - 1 - j;
        if i == n - 1 {
            let x = (i + 1) % 256;
            assert(x == i + 1);
            assert((x / 64) % 2 == 0);
            assert(set_bit6(x) == (x + 64) as u8);
        }
    }
    assert(keys_decreasing(r));
    lemma_sort_decreasing(r);
    let sorted = r.reverse();
    assert forall|j: int| 0 <= j < sorted.len() implies is_lfn_slot(#[trigger] sorted[j], units, 0 + j, n, checksum) by {
        assert(sorted[j] == r[r.len() - 1 - j]);
        assert(is_lfn_slot(r[r.len() - 1 - j], units, n - 1 - (r.len() - 1 - j), n, checksum));
    }
    assert forall|j: int| 0 <= j < units.len() implies units[j] != 0 && units[j] != 0xFFFF by {
        assert(spec_utf16_units(name)[j] != 0);
    }
    lemma_gather_slots(sorted, units, 0, n, checksum);
    assert(units.subrange(0, units.len() as int) =~= units);
    assert(!(exists|i: int| 0 <= i < r.len() && (#[trigger] r[i]).checksum != spec_checksum(short_name)));
}

} // verus!
