//! On-disk directory entries (8.3 and long-filename slots) and their byte layout.
use vstd::prelude::*;

verus! {

/// Size in bytes of one directory slot.
pub const ENTRY_SIZE: usize = 32;

/// File attribute bits.
pub const ATTR_READ_ONLY: u8 = 0x01;
pub const ATTR_HIDDEN: u8 = 0x02;
pub const ATTR_SYSTEM: u8 = 0x04;
pub const ATTR_VOLUME_ID: u8 = 0x08;
pub const ATTR_DIRECTORY: u8 = 0x10;
pub const ATTR_ARCHIVE: u8 = 0x20;
pub const ATTR_LONG_NAME: u8 = 0x0F;

/// Marker in the first name byte of a deleted slot.
pub const DELETED_MARK: u8 = 0xE5;

/// A short (8.3) directory entry.
#[derive(Debug, Clone, Copy)]
pub struct DirectoryEntry {
    pub name: [u8; 11],
    pub attributes: u8,
    pub reserved: u8,
    pub creation_time_tenths: u8,
    pub creation_time: u16,
    pub creation_date: u16,
    pub last_access_date: u16,
    pub first_cluster_high: u16,
    pub last_write_time: u16,
    pub last_write_date: u16,
    pub first_cluster_low: u16,
    pub file_size: u32,
}

/// A long-filename directory entry, holding 13 UTF-16 code units of the name.
#[derive(Debug, Clone, Copy)]
pub struct LongFilenameEntry {
    pub sequence: u8,
    pub name1: [u16; 5],
    pub attributes: u8,
    pub reserved: u8,
    pub checksum: u8,
    pub name2: [u16; 6],
    pub first_cluster: u16,
    pub name3: [u16; 2],
}

pub open spec fn le16(b: Seq<u8>, off: int) -> u16 {
    (b[off] + 256 * b[off + 1]) as u16
}

pub open spec fn le32(b: Seq<u8>, off: int) -> u32 {
    (b[off] + 256 * b[off + 1] + 65536 * b[off + 2] + 16777216 * b[off + 3]) as u32
}

pub open spec fn le16_bytes(x: u16) -> Seq<u8> {
    seq![(x % 256) as u8, (x / 256) as u8]
}

pub open spec fn le32_bytes(x: u32) -> Seq<u8> {
    seq![
        (x % 256) as u8,
        ((x / 256) % 256) as u8,
        ((x / 65536) % 256) as u8,
        (x / 16777216) as u8,
    ]
}

/// `e` is the short entry stored in the 32 bytes of `b` starting at `off`.
pub open spec fn entry_at(b: Seq<u8>, off: int, e: DirectoryEntry) -> bool {
    &&& 0 <= off && off + 32 <= b.len()
    &&& e.name@ == b.subrange(off, off + 11)
    &&& e.attributes == b[off + 11]
    &&& e.reserved == b[off + 12]
    &&& e.creation_time_tenths == b[off + 13]
    &&& e.creation_time == le16(b, off + 14)
    &&& e.creation_date == le16(b, off + 16)
    &&& e.last_access_date == le16(b, off + 18)
    &&& e.first_cluster_high == le16(b, off + 20)
    &&& e.last_write_time == le16(b, off + 22)
    &&& e.last_write_date == le16(b, off + 24)
    &&& e.first_cluster_low == le16(b, off + 26)
    &&& e.file_size == le32(b, off + 28)
}

/// The 32 bytes that store a short entry.
pub open spec fn entry_bytes(e: DirectoryEntry) -> Seq<u8> {
    e.name@ + seq![e.attributes, e.reserved, e.creation_time_tenths] + le16_bytes(e.creation_time)
        + le16_bytes(e.creation_date) + le16_bytes(e.last_access_date) + le16_bytes(
        e.first_cluster_high,
    ) + le16_bytes(e.last_write_time) + le16_bytes(e.last_write_date) + le16_bytes(
        e.first_cluster_low,
    ) + le32_bytes(e.file_size)
}

pub open spec fn units_at(b: Seq<u8>, off: int, n: int) -> Seq<u16> {
    Seq::new(n as nat, |i: int| le16(b, off + 2 * i))
}

pub open spec fn units_bytes(u: Seq<u16>) -> Seq<u8>
    decreases u.len(),
{
    if u.len() == 0 {
        Seq::empty()
    } else {
        le16_bytes(u[0]) + units_bytes(u.drop_first())
    }
}

/// `e` is the long-filename entry stored in the 32 bytes of `b` starting at `off`.
pub open spec fn lfn_at(b: Seq<u8>, off: int, e: LongFilenameEntry) -> bool {
    &&& 0 <= off && off + 32 <= b.len()
    &&& e.sequence == b[off]
    &&& e.name1@ == units_at(b, off + 1, 5)
    &&& e.attributes == b[off + 11]
    &&& e.reserved == b[off + 12]
    &&& e.checksum == b[off + 13]
    &&& e.name2@ == units_at(b, off + 14, 6)
    &&& e.first_cluster == le16(b, off + 26)
    &&& e.name3@ == units_at(b, off + 28, 2)
}

/// The 32 bytes that store a long-filename entry.
pub open spec fn lfn_bytes(e: LongFilenameEntry) -> Seq<u8> {
    seq![e.sequence] + units_bytes(e.name1@) + seq![e.attributes, e.reserved, e.checksum]
        + units_bytes(e.name2@) + le16_bytes(e.first_cluster) + units_bytes(e.name3@)
}

proof fn lemma_le16_bytes(x: u16)
    ensures
        le16_bytes(x).len() == 2,
        le16(le16_bytes(x), 0) == x,
{
}

proof fn lemma_le32_bytes(x: u32)
    ensures
        le32_bytes(x).len() == 4,
        le32(le32_bytes(x), 0) == x,
{
}

fn read_le16(b: &[u8], off: usize) -> (r: u16)
    requires
        off + 2 <= b@.len(),
    ensures
        r == le16(b@, off as int),
{
    let lo = b[off] as u32;
    let hi = b[off + 1] as u32;
    (lo + 256 * hi) as u16
}

fn read_le32(b: &[u8], off: usize) -> (r: u32)
    requires
        off + 4 <= b@.len(),
    ensures
        r == le32(b@, off as int),
{
    let b0 = b[off] as u64;
    let b1 = b[off + 1] as u64;
    let b2 = b[off + 2] as u64;
    let b3 = b[off + 3] as u64;
    (b0 + 256 * b1 + 65536 * b2 + 16777216 * b3) as u32
}

fn push_le16(v: &mut Vec<u8>, x: u16)
    ensures
        final(v)@ == old(v)@ + le16_bytes(x),
{
    v.push((x % 256) as u8);
    v.push((x / 256) as u8);
    assert(final(v)@ =~= old(v)@ + le16_bytes(x));
}

fn push_le32(v: &mut Vec<u8>, x: u32)
    ensures
        final(v)@ == old(v)@ + le32_bytes(x),
{
    v.push((x % 256) as u8);
    v.push(((x / 256) % 256) as u8);
    v.push(((x / 65536) % 256) as u8);
    v.push((x / 16777216) as u8);
    assert(final(v)@ =~= old(v)@ + le32_bytes(x));
}

impl DirectoryEntry {
    /// Reads the short entry stored at `off`.
    pub fn from_bytes(b: &[u8], off: usize) -> (e: Self)
        requires
            off + 32 <= b@.len(),
        ensures
            entry_at(b@, off as int, e),
    {
        let _n = b.len();
        let mut name = [0u8; 11];
        let mut i: usize = 0;
        while i < 11
            invariant
                i <= 11,
                off + 32 <= b@.len(),
                b@.len() <= usize::MAX,
                forall|j: int| 0 <= j < i ==> name@[j] == b@[off + j],
            decreases 11 - i,
        {
            name[i] = b[off + i];
            i = i + 1;
        }
        assert(name@ =~= b@.subrange(off as int, off + 11));
        DirectoryEntry {
            name,
            attributes: b[off + 11],
            reserved: b[off + 12],
            creation_time_tenths: b[off + 13],
            creation_time: read_le16(b, off + 14),
            creation_date: read_le16(b, off + 16),
            last_access_date: read_le16(b, off + 18),
            first_cluster_high: read_le16(b, off + 20),
            last_write_time: read_le16(b, off + 22),
            last_write_date: read_le16(b, off + 24),
            first_cluster_low: read_le16(b, off + 26),
            file_size: read_le32(b, off + 28),
        }
    }

    /// The 32 bytes that store this entry.
    pub fn to_bytes(&self) -> (v: Vec<u8>)
        ensures
            v@ == entry_bytes(*self),
    {
        let mut v: Vec<u8> = Vec::new();
        let mut i: usize = 0;
        while i < 11
            invariant
                i <= 11,
                v@ == self.name@.subrange(0, i as int),
            decreases 11 - i,
        {
            v.push(self.name[i]);
            i = i + 1;
        }
        v.push(self.attributes);
        v.push(self.reserved);
        v.push(self.creation_time_tenths);
        push_le16(&mut v, self.creation_time);
        push_le16(&mut v, self.creation_date);
        push_le16(&mut v, self.last_access_date);
        push_le16(&mut v, self.first_cluster_high);
        push_le16(&mut v, self.last_write_time);
        push_le16(&mut v, self.last_write_date);
        push_le16(&mut v, self.first_cluster_low);
        push_le32(&mut v, self.file_size);
        assert(v@ =~= entry_bytes(*self));
        v
    }
}

/// Writing a short entry and reading it back gives the same entry.
pub proof fn lemma_entry_roundtrip(e: DirectoryEntry)
    ensures
        entry_bytes(e).len() == 32,
        entry_at(entry_bytes(e), 0, e),
{
    let b = entry_bytes(e);
    lemma_le16_bytes(e.creation_time);
    lemma_le16_bytes(e.creation_date);
    lemma_le16_bytes(e.last_access_date);
    lemma_le16_bytes(e.first_cluster_high);
    lemma_le16_bytes(e.last_write_time);
    lemma_le16_bytes(e.last_write_date);
    lemma_le16_bytes(e.first_cluster_low);
    lemma_le32_bytes(e.file_size);
    assert(b.subrange(0, 11) =~= e.name@);
}

proof fn lemma_low_digit(lo: int, hi: int)
    by (nonlinear_arith)
    requires
        0 <= lo < 256,
        0 <= hi,
    ensures
        (lo + 256 * hi) % 256 == lo,
        (lo + 256 * hi) / 256 == hi,
{
}

/// The two bytes at `p` are the little-endian bytes of the value they hold.
proof fn lemma_le16_of(b: Seq<u8>, p: int)
    requires
        0 <= p,
        p + 2 <= b.len(),
    ensures
        le16_bytes(le16(b, p)) == b.subrange(p, p + 2),
{
    lemma_low_digit(b[p] as int, b[p + 1] as int);
    assert(le16_bytes(le16(b, p)) =~= b.subrange(p, p + 2));
}

/// The four bytes at `p` are the little-endian bytes of the value they hold.
proof fn lemma_le32_of(b: Seq<u8>, p: int)
    requires
        0 <= p,
        p + 4 <= b.len(),
    ensures
        le32_bytes(le32(b, p)) == b.subrange(p, p + 4),
{
    let b0 = b[p] as int;
    let b1 = b[p + 1] as int;
    let b2 = b[p + 2] as int;
    let b3 = b[p + 3] as int;
    let x = b0 + 256 * b1 + 65536 * b2 + 16777216 * b3;
    let h1 = b1 + 256 * b2 + 65536 * b3;
    let h2 = b2 + 256 * b3;
    assert(x == b0 + 256 * h1);
    assert(h1 == b1 + 256 * h2);
    lemma_low_digit(b0, h1);
    lemma_low_digit(b1, h2);
    lemma_low_digit(b2, b3);
    assert(x / 65536 == h2) by (nonlinear_arith)
        requires
            x / 256 == h1,
            h1 / 256 == h2,
            x >= 0,
    {
        vstd::arithmetic::div_mod::lemma_div_denominator(x, 256, 256);
    }
    assert(x / 16777216 == b3) by (nonlinear_arith)
        requires
            x / 65536 == h2,
            h2 / 256 == b3,
            x >= 0,
    {
        vstd::arithmetic::div_mod::lemma_div_denominator(x, 65536, 256);
    }
    assert(le32_bytes(le32(b, p)) =~= b.subrange(p, p + 4));
}

/// The 32 bytes at `off` that hold the entry `e` are the bytes that store `e`.
pub proof fn lemma_entry_bytes_of(b: Seq<u8>, off: int, e: DirectoryEntry)
    requires
        entry_at(b, off, e),
    ensures
        b.subrange(off, off + 32) == entry_bytes(e),
{
    lemma_le16_of(b, off + 14);
    lemma_le16_of(b, off + 16);
    lemma_le16_of(b, off + 18);
    lemma_le16_of(b, off + 20);
    lemma_le16_of(b, off + 22);
    lemma_le16_of(b, off + 24);
    lemma_le16_of(b, off + 26);
    lemma_le32_of(b, off + 28);
    lemma_entry_roundtrip(e);
    let eb = entry_bytes(e);
    assert forall|j: int| 0 <= j < 32 implies #[trigger] b.subrange(off, off + 32)[j] == eb[j] by {
        if j < 11 {
            assert(e.name@[j] == b[off + j]);
        } else if j >= 14 && j < 28 {
            let p = off + 14 + 2 * ((j - 14) / 2);
            assert(b.subrange(p, p + 2)[j - (p - off)] == b[off + j]);
        } else if j >= 28 {
            assert(b.subrange(off + 28, off + 32)[j - 28] == b[off + j]);
        }
    }
    assert(b.subrange(off, off + 32) =~= eb);
}

fn push_units(v: &mut Vec<u8>, u: &[u16])
    ensures
        final(v)@ == old(v)@ + units_bytes(u@),
{
    let ghost v0 = v@;
    let mut i: usize = 0;
    assert(u@.subrange(0, u@.len() as int) =~= u@);
    while i < u.len()
        invariant
            i <= u@.len(),
            v@ + units_bytes(u@.subrange(i as int, u@.len() as int)) == v0 + units_bytes(u@),
        decreases u@.len() - i,
    {
        let ghost before = v@;
        let ghost rest = u@.subrange(i as int, u@.len() as int);
        assert(rest.drop_first() =~= u@.subrange(i + 1, u@.len() as int));
        assert(units_bytes(rest) == le16_bytes(rest[0]) + units_bytes(rest.drop_first()));
        push_le16(v, u[i]);
        assert(v@ + units_bytes(u@.subrange(i + 1, u@.len() as int)) =~= before + units_bytes(
            rest,
        ));
        i = i + 1;
    }
    assert(u@.subrange(u@.len() as int, u@.len() as int) =~= Seq::<u16>::empty());
    assert(units_bytes(Seq::<u16>::empty()) =~= Seq::<u8>::empty());
    assert(v@ =~= v0 + units_bytes(u@));
}

proof fn lemma_units_bytes_len(u: Seq<u16>)
    ensures
        units_bytes(u).len() == 2 * u.len(),
    decreases u.len(),
{
    if u.len() > 0 {
        lemma_units_bytes_len(u.drop_first());
    }
}

proof fn lemma_units_roundtrip(u: Seq<u16>, b: Seq<u8>, off: int)
    requires
        0 <= off,
        off + 2 * u.len() <= b.len(),
        b.subrange(off, off + 2 * u.len()) == units_bytes(u),
    ensures
        units_at(b, off, u.len() as int) == u,
    decreases u.len(),
{
    if u.len() > 0 {
        lemma_units_bytes_len(u.drop_first());
        let rest = u.drop_first();
        assert(units_bytes(u) == le16_bytes(u[0]) + units_bytes(rest));
        assert(units_bytes(u).subrange(2, 2 * u.len() as int) =~= units_bytes(rest));
        assert(b.subrange(off + 2, off + 2 + 2 * rest.len()) =~= b.subrange(off, off + 2
            * u.len()).subrange(2, 2 * u.len() as int));
        lemma_units_roundtrip(rest, b, off + 2);
        assert(b[off] == b.subrange(off, off + 2 * u.len())[0]);
        assert(b[off + 1] == b.subrange(off, off + 2 * u.len())[1]);
        assert(b[off] == le16_bytes(u[0])[0]);
        assert(b[off + 1] == le16_bytes(u[0])[1]);
        lemma_le16_bytes(u[0]);
        assert(units_at(b, off, u.len() as int) =~= u) by {
            assert forall|i: int| 0 <= i < u.len() implies units_at(b, off, u.len() as int)[i]
                == u[i] by {
                if i > 0 {
                    assert(units_at(b, off + 2, rest.len() as int)[i - 1] == rest[i - 1]);
                }
            }
        }
    }
}

impl LongFilenameEntry {
    /// Reads the long-filename entry stored at `off`.
    pub fn from_bytes(b: &[u8], off: usize) -> (e: Self)
        requires
            off + 32 <= b@.len(),
        ensures
            lfn_at(b@, off as int, e),
    {
        let _n = b.len();
        let mut name1 = [0u16; 5];
        let mut name2 = [0u16; 6];
        let mut name3 = [0u16; 2];
        let mut i: usize = 0;
        while i < 5
            invariant
                i <= 5,
                off + 32 <= b@.len(),
                b@.len() <= usize::MAX,
                forall|j: int| 0 <= j < i ==> name1@[j] == le16(b@, off + 1 + 2 * j),
            decreases 5 - i,
        {
            name1[i] = read_le16(b, off + 1 + 2 * i);
            i = i + 1;
        }
        i = 0;
        while i < 6
            invariant
                i <= 6,
                off + 32 <= b@.len(),
                b@.len() <= usize::MAX,
                forall|j: int| 0 <= j < i ==> name2@[j] == le16(b@, off + 14 + 2 * j),
            decreases 6 - i,
        {
            name2[i] = read_le16(b, off + 14 + 2 * i);
            i = i + 1;
        }
        i = 0;
        while i < 2
            invariant
                i <= 2,
                off + 32 <= b@.len(),
                b@.len() <= usize::MAX,
                forall|j: int| 0 <= j < i ==> name3@[j] == le16(b@, off + 28 + 2 * j),
            decreases 2 - i,
        {
            name3[i] = read_le16(b, off + 28 + 2 * i);
            i = i + 1;
        }
        assert(name1@ =~= units_at(b@, off + 1, 5));
        assert(name2@ =~= units_at(b@, off + 14, 6));
        assert(name3@ =~= units_at(b@, off + 28, 2));
        LongFilenameEntry {
            sequence: b[off],
            name1,
            attributes: b[off + 11],
            reserved: b[off + 12],
            checksum: b[off + 13],
            name2,
            first_cluster: read_le16(b, off + 26),
            name3,
        }
    }

    /// The 32 bytes that store this entry.
    pub fn to_bytes(&self) -> (v: Vec<u8>)
        ensures
            v@ == lfn_bytes(*self),
    {
        let mut v: Vec<u8> = Vec::new();
        v.push(self.sequence);
        push_units(&mut v, &self.name1);
        v.push(self.attributes);
        v.push(self.reserved);
        v.push(self.checksum);
        push_units(&mut v, &self.name2);
        push_le16(&mut v, self.first_cluster);
        push_units(&mut v, &self.name3);
        assert(v@ =~= lfn_bytes(*self));
        v
    }
}

/// Writing a long-filename entry and reading it back gives the same entry.
pub proof fn lemma_lfn_roundtrip(e: LongFilenameEntry)
    ensures
        lfn_bytes(e).len() == 32,
        lfn_at(lfn_bytes(e), 0, e),
{
    let b = lfn_bytes(e);
    lemma_units_bytes_len(e.name1@);
    lemma_units_bytes_len(e.name2@);
    lemma_units_bytes_len(e.name3@);
    lemma_le16_bytes(e.first_cluster);
    assert(b.subrange(1, 11) =~= units_bytes(e.name1@));
    assert(b.subrange(14, 26) =~= units_bytes(e.name2@));
    assert(b.subrange(28, 32) =~= units_bytes(e.name3@));
    lemma_units_roundtrip(e.name1@, b, 1);
    lemma_units_roundtrip(e.name2@, b, 14);
    lemma_units_roundtrip(e.name3@, b, 28);
}

// ---------------------------------------------------------------- functional parsing

/// The array holding the first `k` elements of `s` (the rest filled with `fill`).
pub open spec fn array_prefix<T: Copy, const N: usize>(s: Seq<T>, fill: T, k: int) -> [T; N]
    decreases k,
{
    if k <= 0 {
        vstd::array::spec_array_fill_for_copy_type::<T, N>(fill)
    } else {
        vstd::array::spec_array_update(array_prefix::<T, N>(s, fill, k - 1), k - 1, s[k - 1])
    }
}

proof fn lemma_array_prefix<T: Copy, const N: usize>(s: Seq<T>, fill: T, k: int)
    requires
        0 <= k <= N,
        k <= s.len(),
    ensures
        forall|j: int| 0 <= j < N ==> (#[trigger] array_prefix::<T, N>(s, fill, k)@[j]) == if j < k { s[j] } else { fill },
        array_prefix::<T, N>(s, fill, k)@.len() == N,
    decreases k,
{
    broadcast use vstd::array::group_array_axioms;
    broadcast use vstd::array::axiom_spec_array_update;
    if k > 0 {
        lemma_array_prefix::<T, N>(s, fill, k - 1);
    }
}

/// The array whose elements are `s` (of length `N`).
pub open spec fn array_of<T: Copy, const N: usize>(s: Seq<T>, fill: T) -> [T; N] {
    array_prefix::<T, N>(s, fill, N as int)
}

pub proof fn lemma_array_of<T: Copy, const N: usize>(s: Seq<T>, fill: T)
    requires
        s.len() == N,
    ensures
        array_of::<T, N>(s, fill)@ == s,
{
    lemma_array_prefix::<T, N>(s, fill, N as int);
    assert(array_of::<T, N>(s, fill)@ =~= s);
}

/// The short entry stored in the 32 bytes of `b` starting at `off`.
pub open spec fn parse_entry(b: Seq<u8>, off: int) -> DirectoryEntry {
    DirectoryEntry {
        name: array_of::<u8, 11>(b.subrange(off, off + 11), 0),
        attributes: b[off + 11],
        reserved: b[off + 12],
        creation_time_tenths: b[off + 13],
        creation_time: le16(b, off + 14),
        creation_date: le16(b, off + 16),
        last_access_date: le16(b, off + 18),
        first_cluster_high: le16(b, off + 20),
        last_write_time: le16(b, off + 22),
        last_write_date: le16(b, off + 24),
        first_cluster_low: le16(b, off + 26),
        file_size: le32(b, off + 28),
    }
}

/// The long-filename entry stored in the 32 bytes of `b` starting at `off`.
pub open spec fn parse_lfn(b: Seq<u8>, off: int) -> LongFilenameEntry {
    LongFilenameEntry {
        sequence: b[off],
        name1: array_of::<u16, 5>(units_at(b, off + 1, 5), 0),
        attributes: b[off + 11],
        reserved: b[off + 12],
        checksum: b[off + 13],
        name2: array_of::<u16, 6>(units_at(b, off + 14, 6), 0),
        first_cluster: le16(b, off + 26),
        name3: array_of::<u16, 2>(units_at(b, off + 28, 2), 0),
    }
}

/// The entry read from bytes is the one `parse_entry` describes.
pub proof fn lemma_entry_at_parse(b: Seq<u8>, off: int, e: DirectoryEntry)
    requires
        entry_at(b, off, e),
    ensures
        e == parse_entry(b, off),
{
    broadcast use vstd::array::axiom_array_ext_equal;
    lemma_array_of::<u8, 11>(b.subrange(off, off + 11), 0);
    assert(e.name =~= parse_entry(b, off).name);
}

/// The entry read from bytes is the one `parse_lfn` describes.
pub proof fn lemma_lfn_at_parse(b: Seq<u8>, off: int, e: LongFilenameEntry)
    requires
        lfn_at(b, off, e),
    ensures
        e == parse_lfn(b, off),
{
    broadcast use vstd::array::axiom_array_ext_equal;
    lemma_array_of::<u16, 5>(units_at(b, off + 1, 5), 0);
    lemma_array_of::<u16, 6>(units_at(b, off + 14, 6), 0);
    lemma_array_of::<u16, 2>(units_at(b, off + 28, 2), 0);
    assert(e.name1 =~= parse_lfn(b, off).name1);
    assert(e.name2 =~= parse_lfn(b, off).name2);
    assert(e.name3 =~= parse_lfn(b, off).name3);
}

} // verus!
