//! Changing directories: finding free slots, writing entries, and the file and
//! directory operations built on them.
use vstd::prelude::*;
use crate::fat32::disk::DiskOperations;
use crate::fat32::entry::{DirectoryEntry, LongFilenameEntry, entry_at, entry_bytes, lemma_entry_at_parse, lemma_entry_bytes_of, parse_entry, lemma_entry_roundtrip, lemma_lfn_at_parse, parse_lfn, lemma_lfn_roundtrip, DELETED_MARK};
use crate::fat32::fs::{
    cluster_bytes, cluster_size, fat_entry, fat_sector_with, slots_per_cluster, write_cluster_spec, Fat32FileSystem, Geometry,
    CLUSTER_FREE, END_OF_CHAIN, MAX_CHAIN,
};
use crate::fat32::dir_chain::{
    cluster_frame, dir_frame, dir_volume_ok, in_dir_chain, lemma_cluster_write_frame, lemma_dir_frame_step,
    lemma_fat_update_frame, lemma_reaches_step, outside_dir, reaches,
};
use crate::fat32::fat_laws::fat_fits;
use crate::fat32::entry::{le16_bytes, le32_bytes, ATTR_ARCHIVE, ATTR_DIRECTORY, ATTR_LONG_NAME};
use crate::fat32::datetime::{date_to_raw_date, spec_date_to_raw, spec_time_to_raw, time_to_raw_time, DateTime};
use crate::fat32::dir::{lookup, match_entry};
use crate::fat32::file_entry::{spec_file_entry, FileEntryView};
use crate::fat32::lfn::{create_lfn_entries, reconstruct_long_filename, spec_reconstruct};
use crate::fat32::names::{calculate_checksum, fits_8_3, fits_8_3_form, format_filename_8_3, name_8_3_to_string, spec_format_8_3, spec_name_8_3};
use crate::fat32::short_name::{alias_base, alias_bytes, alias_candidate, alias_ext, alias_parts, opt_chars};
use crate::text::{spec_to_uppercase, to_uppercase};

verus! {

/// `b` with the 32 bytes of slot `slot` replaced by `entry`.
pub open spec fn with_slot(b: Seq<u8>, slot: int, entry: Seq<u8>) -> Seq<u8> {
    b.subrange(0, 32 * slot) + entry + b.subrange(32 * slot + 32, b.len() as int)
}

/// The 32 bytes of directory slot `slot` in the cluster bytes `b`.
pub open spec fn slot_of(b: Seq<u8>, slot: int) -> Seq<u8> {
    b.subrange(32 * slot, 32 * slot + 32)
}

/// Slot `i` of cluster `c` of the disk `d` may take a new entry: the
/// cluster is free in the FAT, or the slot is marked deleted, or it lies at
/// or after the end-of-directory mark of its cluster.
pub open spec fn slot_available(g: Geometry, d: Seq<Seq<u8>>, c: u32, i: usize) -> bool {
    ||| fat_entry(g, d, c as int) == CLUSTER_FREE
    ||| cluster_bytes(g, d, c as int)[32 * i] == DELETED_MARK
    ||| exists|j: int| 0 <= j <= i && #[trigger] cluster_bytes(g, d, c as int)[32 * j] == 0
}

/// Every slot in `v` may take a new entry.
pub open spec fn slots_available(g: Geometry, d: Seq<Seq<u8>>, v: Seq<(u32, usize)>) -> bool {
    forall|k: int| 0 <= k < v.len() ==> slot_available(g, d, (#[trigger] v[k]).0, v[k].1)
}

proof fn lemma_slots_pushed(g: Geometry, d: Seq<Seq<u8>>, v: Seq<(u32, usize)>, c: u32, i: usize)
    requires
        slots_available(g, d, v),
        slot_available(g, d, c, i),
    ensures
        slots_available(g, d, v.push((c, i))),
{
    assert forall|k: int| 0 <= k < v.push((c, i)).len() implies slot_available(g, d, (#[trigger] v.push((c, i))[k]).0, v.push((c, i))[k].1) by {
        if k < v.len() {
            assert(v.push((c, i))[k] == v[k]);
        }
    }
}

/// Cluster `x` may hold a new entry of the directory at `c`: it belongs to
/// the directory's chain or is free on `d`.
pub open spec fn slot_cluster_ok(g: Geometry, d: Seq<Seq<u8>>, c: int, x: u32) -> bool {
    2 <= x && (in_dir_chain(g, d, c, x as int) || fat_entry(g, d, x as int) == CLUSTER_FREE)
}

/// Every slot of `v` lies in a cluster that may hold a new entry of the
/// directory at `c`.
pub open spec fn slots_in_dir(g: Geometry, d: Seq<Seq<u8>>, c: int, v: Seq<(u32, usize)>) -> bool {
    forall|k: int| 0 <= k < v.len() ==> slot_cluster_ok(g, d, c, (#[trigger] v[k]).0)
}

proof fn lemma_slots_in_dir_pushed(g: Geometry, d: Seq<Seq<u8>>, c: int, v: Seq<(u32, usize)>, x: u32, i: usize)
    requires
        slots_in_dir(g, d, c, v),
        slot_cluster_ok(g, d, c, x),
    ensures
        slots_in_dir(g, d, c, v.push((x, i))),
{
    assert forall|k: int| 0 <= k < v.push((x, i)).len() implies slot_cluster_ok(g, d, c, (#[trigger] v.push((x, i))[k]).0) by {
        if k < v.len() {
            assert(v.push((x, i))[k] == v[k]);
        }
    }
}

/// Every slot index is inside a cluster./// Every slot index is inside a cluster./// Every slot index is inside a cluster.
pub open spec fn slots_ok(g: Geometry, v: Seq<(u32, usize)>) -> bool {
    forall|k: int| 0 <= k < v.len() ==> (#[trigger] v[k]).1 < slots_per_cluster(g)
}

impl<D: DiskOperations> Fat32FileSystem<D> {
    /// Stores the 32 bytes `entry` in slot `slot_index` of cluster `cluster`,
    /// leaving the rest of the cluster as it was.
    pub fn write_directory_entry_at_slot(&mut self, cluster: u32, slot_index: usize, entry: &[u8]) -> (r: Result<(), &'static str>)
        requires
            old(self).wf(),
            entry@.len() == 32,
            slot_index < slots_per_cluster(old(self).geometry()),
        ensures
            final(self).wf(),
            final(self).geometry() == old(self).geometry(),
            final(self).disk_view().len() == old(self).disk_view().len(),
            r is Ok ==> final(self).disk_view() == write_cluster_spec(
                old(self).geometry(),
                old(self).disk_view(),
                cluster as int,
                with_slot(cluster_bytes(old(self).geometry(), old(self).disk_view(), cluster as int), slot_index as int, entry@),
            ),
            r is Ok ==> slot_of(cluster_bytes(old(self).geometry(), final(self).disk_view(), cluster as int), slot_index as int) == entry@,
            r is Ok && 2 <= cluster && fat_fits(old(self).geometry()) && old(self).geometry().total_sectors <= old(self).disk_view().len()
                ==> cluster_frame(old(self).geometry(), old(self).disk_view(), final(self).disk_view(), cluster as int),
    {
        let ghost g = self.geometry();
        let ghost d = self.disk_view();
        let csize = self.cluster_size_bytes();
        let mut buf: Vec<u8> = vec![0u8; csize];
        let rr = self.read_cluster(cluster, buf.as_mut_slice());
        if rr.is_err() {
            return rr;
        }
        assert(buf@ =~= buf@.subrange(0, csize as int));
        let ghost cb = buf@;
        let off = slot_index * 32;
        let mut j: usize = 0;
        while j < 32
            invariant
                j <= 32,
                entry@.len() == 32,
                off == 32 * slot_index,
                off + 32 <= csize,
                buf@.len() == csize,
                cb.len() == csize,
                forall|k: int| 0 <= k < csize && !(off <= k < off + j) ==> buf@[k] == cb[k],
                forall|k: int| off <= k < off + j ==> buf@[k] == entry@[k - off],
            decreases 32 - j,
        {
            buf.set(off + j, entry[j]);
            j = j + 1;
        }
        assert(buf@ =~= with_slot(cb, slot_index as int, entry@));
        assert(buf@.subrange(0, csize as int) =~= buf@);
        assert(slot_of(buf@, slot_index as int) =~= entry@);
        let rr = self.write_cluster(cluster, buf.as_slice());
        proof {
            if rr is Ok && 2 <= cluster && fat_fits(g) && g.total_sectors <= d.len() {
                self.lemma_wf_geometry();
                lemma_cluster_write_frame(g, d, cluster as int, buf@);
            }
        }
        rr
    }

    /// Finds `num_slots` free directory slots (first byte 0 or 0xE5) along the
    /// chain of the directory at `dir_cluster`, in chain order; once a cluster
    /// shows the end-of-directory mark, all its later slots count as free. When
    /// the chain runs out first, one free cluster is linked to its end and its
    /// slots are used.
    pub fn find_directory_entry_slots(&mut self, dir_cluster: u32, num_slots: usize) -> (r: Result<Vec<(u32, usize)>, &'static str>)
        requires
            old(self).wf(),
        ensures
            final(self).wf(),
            final(self).geometry() == old(self).geometry(),
            final(self).disk_view().len() == old(self).disk_view().len(),
            r matches Ok(v) ==> slots_ok(old(self).geometry(), v@) && (num_slots >= 1 ==> v@.len() == num_slots),
            r matches Ok(v) ==> slots_available(old(self).geometry(), old(self).disk_view(), v@),
            r matches Ok(v) ==> (dir_volume_ok(old(self).geometry(), old(self).disk_view(), dir_cluster as int) ==> {
                &&& dir_frame(old(self).geometry(), old(self).disk_view(), final(self).disk_view(), dir_cluster as int)
                &&& forall|k: int| 0 <= k < v@.len()
                    ==> slot_cluster_ok(old(self).geometry(), old(self).disk_view(), dir_cluster as int, (#[trigger] v@[k]).0)
            }),
    {
        let ghost g = self.geometry();
        let ghost d0 = self.disk_view();
        let ghost ok = dir_volume_ok(g, d0, dir_cluster as int);
        let ghost dc = dir_cluster as int;
        let csize = self.cluster_size_bytes();
        let n = csize / 32;
        let mut current_cluster = dir_cluster;
        let mut slots: Vec<(u32, usize)> = Vec::new();
        let mut fuel: u32 = MAX_CHAIN;
        let mut buf: Vec<u8> = vec![0u8; csize];
        loop
            invariant
                self.wf(),
                self.geometry() == g,
                g == old(self).geometry(),
                d0 == old(self).disk_view(),
                self.disk_view() == d0,
                csize == cluster_size(g),
                n == slots_per_cluster(g),
                buf@.len() == csize,
                slots_ok(g, slots@),
                slots_available(g, d0, slots@),
                ok == dir_volume_ok(g, d0, dc),
                dc == dir_cluster as int,
                fuel <= MAX_CHAIN,
                ok ==> reaches(g, d0, dc, current_cluster as int, (MAX_CHAIN - fuel) as nat),
                ok ==> slots_in_dir(g, d0, dc, slots@),
                num_slots == 0 ==> slots@.len() == 0,
                num_slots > 0 ==> slots@.len() < num_slots,
            decreases fuel,
        {
            if fuel == 0 {
                return Err("Cluster chain too long");
            }
            proof {
                if ok {
                    assert(in_dir_chain(g, d0, dc, current_cluster as int));
                }
            }
            let rr = self.read_cluster(current_cluster, buf.as_mut_slice());
            if rr.is_err() {
                return Err(rr.unwrap_err());
            }
            assert(buf@ =~= buf@.subrange(0, csize as int));
            let ghost cb = buf@;
            let mut i: usize = 0;
            while i < n
                invariant
                    self.wf(),
                    self.geometry() == g,
                    g == old(self).geometry(),
                    d0 == old(self).disk_view(),
                    self.disk_view() == d0,
                    i <= n,
                    n == slots_per_cluster(g),
                    buf@.len() == csize,
                    buf@ == cb,
                    cb == cluster_bytes(g, d0, current_cluster as int),
                    csize == cluster_size(g),
                    slots_ok(g, slots@),
                    slots_available(g, d0, slots@),
                    ok == dir_volume_ok(g, d0, dc),
                    dc == dir_cluster as int,
                    ok ==> in_dir_chain(g, d0, dc, current_cluster as int),
                    ok ==> slots_in_dir(g, d0, dc, slots@),
                    num_slots == 0 ==> slots@.len() == 0,
                    num_slots > 0 ==> slots@.len() < num_slots,
                decreases n - i,
            {
                let b0 = buf[i * 32];
                if b0 == 0 || b0 == DELETED_MARK {
                    let ghost before = slots@;
                    slots.push((current_cluster, i));
                    proof {
                        lemma_slots_pushed(g, d0, before, current_cluster, i);
                        if ok {
                            lemma_slots_in_dir_pushed(g, d0, dc, before, current_cluster, i);
                        }
                    }
                    if slots.len() >= num_slots {
                        return Ok(slots);
                    }
                }
                if b0 == 0 {
                    let mut j: usize = i + 1;
                    while j < n
                        invariant
                            self.wf(),
                            self.geometry() == g,
                            g == old(self).geometry(),
                            d0 == old(self).disk_view(),
                            self.disk_view() == d0,
                            i < j <= n,
                            n == slots_per_cluster(g),
                            cb == cluster_bytes(g, d0, current_cluster as int),
                            cb[32 * i] == 0,
                            slots_ok(g, slots@),
                            slots_available(g, d0, slots@),
                            ok == dir_volume_ok(g, d0, dc),
                            dc == dir_cluster as int,
                            ok ==> in_dir_chain(g, d0, dc, current_cluster as int),
                            ok ==> slots_in_dir(g, d0, dc, slots@),
                            num_slots > 0,
                            slots@.len() < num_slots,
                        decreases n - j,
                    {
                        let ghost before = slots@;
                        slots.push((current_cluster, j));
                        proof {
                            assert(0 <= i <= j && cluster_bytes(g, d0, current_cluster as int)[32 * i] == 0);
                            lemma_slots_pushed(g, d0, before, current_cluster, j);
                            if ok {
                                lemma_slots_in_dir_pushed(g, d0, dc, before, current_cluster, j);
                            }
                        }
                        if slots.len() >= num_slots {
                            return Ok(slots);
                        }
                        j = j + 1;
                    }
                    i = n;
                } else {
                    i = i + 1;
                }
            }
            let next_cluster = match self.get_next_cluster(current_cluster) {
                Ok(c) => c,
                Err(e) => { return Err(e); },
            };
            if next_cluster >= END_OF_CHAIN {
                if slots.len() < num_slots {
                    let new_cluster = match self.find_free_cluster() {
                        Ok(c) => c,
                        Err(e) => { return Err(e); },
                    };
                    let rr = self.update_fat_entry(current_cluster, new_cluster);
                    if rr.is_err() {
                        return Err(rr.unwrap_err());
                    }
                    let ghost d1 = self.disk_view();
                    proof {
                        self.lemma_wf_geometry();
                        if ok {
                            lemma_fat_update_frame(g, d0, current_cluster as int, fat_sector_with(g, d0, current_cluster as int, new_cluster), new_cluster);
                        }
                    }
                    let rr = self.update_fat_entry(new_cluster, END_OF_CHAIN);
                    if rr.is_err() {
                        return Err(rr.unwrap_err());
                    }
                    proof {
                        if ok {
                            lemma_fat_update_frame(g, d1, new_cluster as int, fat_sector_with(g, d1, new_cluster as int, END_OF_CHAIN), END_OF_CHAIN);
                            assert forall|x: int| #[trigger] outside_dir(g, d0, dc, x)
                                implies fat_entry(g, self.disk_view(), x) == fat_entry(g, d0, x)
                                    && cluster_bytes(g, self.disk_view(), x) == cluster_bytes(g, d0, x) by {
                                assert(x != current_cluster as int);
                                assert(x != new_cluster as int);
                            }
                        }
                    }
                    let mut k: usize = 0;
                    while k < n
                        invariant
                            self.wf(),
                            self.geometry() == g,
                            g == old(self).geometry(),
                            d0 == old(self).disk_view(),
                            self.disk_view().len() == d0.len(),
                            k <= n,
                            n == slots_per_cluster(g),
                            fat_entry(g, d0, new_cluster as int) == CLUSTER_FREE,
                            2 <= new_cluster,
                            slots_ok(g, slots@),
                            slots_available(g, d0, slots@),
                            ok == dir_volume_ok(g, d0, dc),
                            dc == dir_cluster as int,
                            ok ==> slots_in_dir(g, d0, dc, slots@),
                            ok ==> dir_frame(g, d0, self.disk_view(), dc),
                            num_slots > 0,
                            slots@.len() < num_slots,
                        decreases n - k,
                    {
                        let ghost before = slots@;
                        slots.push((new_cluster, k));
                        proof {
                            lemma_slots_pushed(g, d0, before, new_cluster, k);
                            if ok {
                                lemma_slots_in_dir_pushed(g, d0, dc, before, new_cluster, k);
                            }
                        }
                        if slots.len() >= num_slots {
                            return Ok(slots);
                        }
                        k = k + 1;
                    }
                }
                if slots.len() >= num_slots {
                    return Ok(slots);
                }
                return Err("Could not find enough directory entry slots");
            }
            proof {
                if ok {
                    lemma_reaches_step(g, d0, dc, current_cluster as int, (MAX_CHAIN - fuel) as nat);
                }
            }
            current_cluster = next_cluster;
            fuel = fuel - 1;
        }
    }
}

/// The 8.3 alias number `n` of a long name.
pub open spec fn alias_of(long_name: Seq<char>, n: nat) -> Seq<u8> {
    alias_bytes(alias_base(long_name), alias_ext(long_name), n)
}

/// Whether a name is taken in the directory at `c` (`false` when the directory cannot be read).
pub open spec fn name_taken(g: Geometry, d: Seq<Seq<u8>>, c: int, name: Seq<char>) -> bool {
    lookup(g, d, c, name) matches Some(Some(_))
}

/// `nm` is the short name given to a new entry called `filename`: its 8.3
/// form when it fits, else one of its numbered aliases.
pub open spec fn short_name_for(filename: Seq<char>, nm: [u8; 11]) -> bool {
    if fits_8_3(filename) {
        nm@ == spec_format_8_3(filename)
    } else {
        exists|n: nat| 1 <= n <= 999999 && nm@ == #[trigger] alias_of(filename, n)
    }
}

/// Some directory slot of the disk `d` holds the short entry of a new file
/// or directory called `name`, with the given first cluster, size and kind,
/// created at time `now`.
#[verifier::opaque]
pub open spec fn entry_written(g: Geometry, d: Seq<Seq<u8>>, name: Seq<char>, first_cluster: u32, file_size: u32, is_directory: bool, now: DateTime) -> bool {
    exists|c: int, i: int, nm: [u8; 11]|
        #![trigger slot_of(cluster_bytes(g, d, c), i), short_name_for(name, nm)]
        0 <= i < slots_per_cluster(g) && short_name_for(name, nm)
        && slot_of(cluster_bytes(g, d, c), i) == entry_bytes(new_entry(nm, first_cluster, file_size, is_directory, now))
}

/// The entry `e` pointed to `first_cluster` with size `file_size`, its write
/// and access dates stamped with `now`.
pub open spec fn refreshed(e: DirectoryEntry, first_cluster: u32, file_size: u32, now: DateTime) -> DirectoryEntry {
    let date = spec_date_to_raw(now.to_date_spec());
    let time = spec_time_to_raw(now.to_time_spec());
    DirectoryEntry {
        name: e.name,
        attributes: e.attributes,
        reserved: e.reserved,
        creation_time_tenths: e.creation_time_tenths,
        creation_time: e.creation_time,
        creation_date: e.creation_date,
        last_access_date: date,
        first_cluster_high: (first_cluster / 65536) as u16,
        last_write_time: time,
        last_write_date: date,
        first_cluster_low: (first_cluster % 65536) as u16,
        file_size,
    }
}

/// Some directory slot of the disk `d` holds an entry pointed to
/// `first_cluster`, sized `file_size` and stamped with `now`.
#[verifier::opaque]
pub open spec fn entry_refreshed(g: Geometry, d: Seq<Seq<u8>>, first_cluster: u32, file_size: u32, now: DateTime) -> bool {
    exists|c: int, i: int, e: DirectoryEntry|
        #![trigger slot_of(cluster_bytes(g, d, c), i), refreshed(e, first_cluster, file_size, now)]
        0 <= i < slots_per_cluster(g) && slot_of(cluster_bytes(g, d, c), i) == entry_bytes(refreshed(e, first_cluster, file_size, now))
}

/// The short entry written for a new file or directory created at time `now`.
pub open spec fn new_entry(name: [u8; 11], first_cluster: u32, file_size: u32, is_directory: bool, now: DateTime) -> DirectoryEntry {
    let date = spec_date_to_raw(now.to_date_spec());
    let time = spec_time_to_raw(now.to_time_spec());
    DirectoryEntry {
        name,
        attributes: if is_directory { ATTR_DIRECTORY } else { ATTR_ARCHIVE },
        reserved: 0,
        creation_time_tenths: ((now.seconds % 2) * 100) as u8,
        creation_time: time,
        creation_date: date,
        last_access_date: date,
        first_cluster_high: (first_cluster / 65536) as u16,
        last_write_time: time,
        last_write_date: date,
        first_cluster_low: (first_cluster % 65536) as u16,
        file_size,
    }
}

/// The bytes of a `.` or `..` entry named `name` that points to `cluster`.
pub open spec fn dot_entry_bytes(name: Seq<u8>, cluster: u32) -> Seq<u8> {
    name + seq![ATTR_DIRECTORY, 0u8, 0u8] + le16_bytes(0) + le16_bytes(0) + le16_bytes(0)
        + le16_bytes((cluster / 65536) as u16) + le16_bytes(0) + le16_bytes(0)
        + le16_bytes((cluster % 65536) as u16) + le32_bytes(0)
}

pub open spec fn dot_name() -> Seq<u8> {
    seq![46u8, 32u8, 32u8, 32u8, 32u8, 32u8, 32u8, 32u8, 32u8, 32u8, 32u8]
}

pub open spec fn dotdot_name() -> Seq<u8> {
    seq![46u8, 46u8, 32u8, 32u8, 32u8, 32u8, 32u8, 32u8, 32u8, 32u8, 32u8]
}

/// The first cluster of a new directory: `.` pointing to itself, `..` pointing
/// to its parent, and zeros.
pub open spec fn new_directory_cluster(g: Geometry, dir_cluster: u32, parent_cluster: u32) -> Seq<u8> {
    dot_entry_bytes(dot_name(), dir_cluster) + dot_entry_bytes(dotdot_name(), parent_cluster)
        + Seq::new((cluster_size(g) - 64) as nat, |i: int| 0u8)
}

fn dot_entry(name: [u8; 11], cluster: u32) -> (e: DirectoryEntry)
    ensures
        entry_bytes(e) == dot_entry_bytes(name@, cluster),
{
    DirectoryEntry {
        name,
        attributes: ATTR_DIRECTORY,
        reserved: 0,
        creation_time_tenths: 0,
        creation_time: 0,
        creation_date: 0,
        last_access_date: 0,
        first_cluster_high: (cluster / 65536) as u16,
        last_write_time: 0,
        last_write_date: 0,
        first_cluster_low: (cluster % 65536) as u16,
        file_size: 0,
    }
}

impl<D: DiskOperations> Fat32FileSystem<D> {
    /// Picks the first alias `NAME~N.EXT` (N from 1 to 999999) of `long_name`
    /// that names nothing in the directory at `dir_cluster`.
    pub fn generate_short_name(&mut self, dir_cluster: u32, long_name: &[char]) -> (r: Result<[u8; 11], &'static str>)
        requires
            old(self).wf(),
        ensures
            final(self).wf(),
            final(self).geometry() == old(self).geometry(),
            final(self).disk_view() == old(self).disk_view(),
            r matches Ok(a) ==> exists|n: nat| 1 <= n <= 999999 && a@ == #[trigger] alias_of(long_name@, n)
                && lookup(old(self).geometry(), old(self).disk_view(), dir_cluster as int, spec_name_8_3(a@)) == Some(None::<FileEntryView>)
                && forall|m: nat| 1 <= m < n ==> name_taken(old(self).geometry(), old(self).disk_view(), dir_cluster as int, #[trigger] spec_name_8_3(alias_of(long_name@, m))),
    {
        let ghost g = self.geometry();
        let ghost d = self.disk_view();
        let (base, ext) = alias_parts(long_name);
        assert(opt_chars(ext) == alias_ext(long_name@));
        let mut n: u32 = 1;
        while n <= 999999
            invariant
                self.wf(),
                self.geometry() == g,
                self.disk_view() == d,
                g == old(self).geometry(),
                d == old(self).disk_view(),
                1 <= n <= 1000000,
                base@ == alias_base(long_name@),
                opt_chars(ext) == alias_ext(long_name@),
                forall|i: int| 0 <= i < base@.len() ==> (#[trigger] base@[i] as u32) < 128,
                ext matches Some(e) ==> e@.len() <= 3 && forall|i: int| 0 <= i < e@.len() ==> (#[trigger] e@[i] as u32) < 128,
                forall|m: nat| 1 <= m < n ==> name_taken(g, d, dir_cluster as int, #[trigger] spec_name_8_3(alias_of(long_name@, m))),
            decreases 1000000 - n,
        {
            let candidate = alias_candidate(base.as_slice(), &ext, n);
            let short_name = name_8_3_to_string(&candidate);
            match self.find_file_in_directory(dir_cluster, short_name.as_str()) {
                Err(e) => { return Err(e); },
                Ok(None) => {
                    assert(candidate@ == alias_of(long_name@, n as nat));
                    return Ok(candidate);
                },
                Ok(Some(_)) => {
                    assert(candidate@ == alias_of(long_name@, n as nat));
                },
            }
            n = n + 1;
        }
        Err("Could not generate unique short filename")
    }
}


impl<D: DiskOperations> Fat32FileSystem<D> {
    /// Adds `dir_entry` to the directory at `dir_cluster`. A name that does not
    /// fit the 8.3 form is preceded by its long-filename entries; the entries
    /// go to the first free slots in chain order.
    pub fn add_lfn_directory_entry(&mut self, dir_cluster: u32, filename: &[char], dir_entry: &DirectoryEntry) -> (r: Result<(), &'static str>)
        requires
            old(self).wf(),
        ensures
            final(self).wf(),
            final(self).geometry() == old(self).geometry(),
            final(self).disk_view().len() == old(self).disk_view().len(),
            r is Ok ==> exists|c: u32, i: usize| #![trigger slot_of(cluster_bytes(old(self).geometry(), final(self).disk_view(), c as int), i as int)]
                i < slots_per_cluster(old(self).geometry())
                && slot_available(old(self).geometry(), old(self).disk_view(), c, i)
                && slot_of(cluster_bytes(old(self).geometry(), final(self).disk_view(), c as int), i as int) == entry_bytes(*dir_entry),
            r is Ok && dir_volume_ok(old(self).geometry(), old(self).disk_view(), dir_cluster as int)
                ==> dir_frame(old(self).geometry(), old(self).disk_view(), final(self).disk_view(), dir_cluster as int),
    {
        let ghost g = self.geometry();
        let ghost d0 = self.disk_view();
        proof {
            lemma_entry_roundtrip(*dir_entry);
        }
        let entry_data = dir_entry.to_bytes();
        if fits_8_3_form(filename) {
            let slots = match self.find_directory_entry_slots(dir_cluster, 1) {
                Ok(v) => v,
                Err(e) => { return Err(e); },
            };
            let (cluster, slot_index) = slots[0];
            let ghost d1 = self.disk_view();
            let rr = self.write_directory_entry_at_slot(cluster, slot_index, entry_data.as_slice());
            proof {
                if rr is Ok && dir_volume_ok(g, d0, dir_cluster as int) {
                    assert(slot_cluster_ok(g, d0, dir_cluster as int, slots@[0].0));
                    lemma_dir_frame_step(g, d0, d1, self.disk_view(), dir_cluster as int, cluster as int);
                }
                if rr is Ok {
                    assert(slot_available(g, d0, slots@[0].0, slots@[0].1));
                    assert(slot_of(cluster_bytes(g, self.disk_view(), cluster as int), slot_index as int) == entry_bytes(*dir_entry));
                }
            }
            return rr;
        }
        let checksum = calculate_checksum(&dir_entry.name);
        let lfn_entries = create_lfn_entries(filename, checksum);
        let count = lfn_entries.len();
        let flen = filename.len();
        proof {
            crate::fat32::lfn::lemma_units_len(filename@);
        }
        assert(count < usize::MAX) by (nonlinear_arith)
            requires
                count == (crate::fat32::lfn::spec_utf16_units(filename@).len() + 12) / 13,
                crate::fat32::lfn::spec_utf16_units(filename@).len() <= 2 * flen,
                flen <= usize::MAX,
        ;
        let total_entries_needed = count + 1;
        let entry_slots = match self.find_directory_entry_slots(dir_cluster, total_entries_needed) {
            Ok(v) => v,
            Err(e) => { return Err(e); },
        };
        let ghost ok = dir_volume_ok(g, d0, dir_cluster as int);
        let mut i: usize = 0;
        while i < count
            invariant
                self.wf(),
                self.geometry() == g,
                g == old(self).geometry(),
                d0 == old(self).disk_view(),
                self.disk_view().len() == old(self).disk_view().len(),
                i <= count,
                count == lfn_entries@.len(),
                entry_slots@.len() == count + 1,
                slots_ok(g, entry_slots@),
                ok == dir_volume_ok(g, d0, dir_cluster as int),
                ok ==> slots_in_dir(g, d0, dir_cluster as int, entry_slots@),
                ok ==> dir_frame(g, d0, self.disk_view(), dir_cluster as int),
            decreases count - i,
        {
            let (slot_cluster, slot_index) = entry_slots[i];
            assert(entry_slots@[i as int].1 < slots_per_cluster(g));
            let lfn = lfn_entries[i];
            proof {
                lemma_lfn_roundtrip(lfn);
            }
            let bytes = lfn.to_bytes();
            let ghost d1 = self.disk_view();
            let rr = self.write_directory_entry_at_slot(slot_cluster, slot_index, bytes.as_slice());
            if rr.is_err() {
                return rr;
            }
            proof {
                if ok {
                    assert(slot_cluster_ok(g, d0, dir_cluster as int, entry_slots@[i as int].0));
                    lemma_dir_frame_step(g, d0, d1, self.disk_view(), dir_cluster as int, slot_cluster as int);
                }
            }
            i = i + 1;
        }
        let (final_cluster, final_index) = entry_slots[count];
        assert(entry_slots@[count as int].1 < slots_per_cluster(g));
        let ghost d1 = self.disk_view();
        let rr = self.write_directory_entry_at_slot(final_cluster, final_index, entry_data.as_slice());
        proof {
            if rr is Ok && ok {
                assert(slot_cluster_ok(g, d0, dir_cluster as int, entry_slots@[count as int].0));
                lemma_dir_frame_step(g, d0, d1, self.disk_view(), dir_cluster as int, final_cluster as int);
            }
            if rr is Ok {
                assert(slot_available(g, d0, entry_slots@[count as int].0, entry_slots@[count as int].1));
                assert(slot_of(cluster_bytes(g, self.disk_view(), final_cluster as int), final_index as int) == entry_bytes(*dir_entry));
            }
        }
        rr
    }

    /// Creates the directory entry for `filename` in the directory at
    /// `dir_cluster`: the name's 8.3 form when it fits, else its first free
    /// alias (with long-filename entries), stamped with `now`.
    pub fn create_directory_entry(
        &mut self,
        dir_cluster: u32,
        filename: &[char],
        first_cluster: u32,
        file_size: u32,
        is_directory: bool,
        now: DateTime,
    ) -> (r: Result<(), &'static str>)
        requires
            old(self).wf(),
            now.year >= 1980,
        ensures
            final(self).wf(),
            final(self).geometry() == old(self).geometry(),
            final(self).disk_view().len() == old(self).disk_view().len(),
            r is Ok ==> entry_written(old(self).geometry(), final(self).disk_view(), filename@, first_cluster, file_size, is_directory, now),
            r is Ok && dir_volume_ok(old(self).geometry(), old(self).disk_view(), dir_cluster as int)
                ==> dir_frame(old(self).geometry(), old(self).disk_view(), final(self).disk_view(), dir_cluster as int),
    {
        let ghost g = self.geometry();
        let ghost d0 = self.disk_view();
        let name_8_3 = if fits_8_3_form(filename) {
            format_filename_8_3(filename)
        } else {
            match self.generate_short_name(dir_cluster, filename) {
                Ok(a) => a,
                Err(e) => { return Err(e); },
            }
        };
        let date = date_to_raw_date(now.to_date());
        let time = time_to_raw_time(now.to_time());
        let entry = DirectoryEntry {
            name: name_8_3,
            attributes: if is_directory { ATTR_DIRECTORY } else { ATTR_ARCHIVE },
            reserved: 0,
            creation_time_tenths: (now.seconds % 2) * 100,
            creation_time: time,
            creation_date: date,
            last_access_date: date,
            first_cluster_high: (first_cluster / 65536) as u16,
            last_write_time: time,
            last_write_date: date,
            first_cluster_low: (first_cluster % 65536) as u16,
            file_size,
        };
        assert(entry == new_entry(name_8_3, first_cluster, file_size, is_directory, now));
        assert(short_name_for(filename@, name_8_3));
        let rr = self.add_lfn_directory_entry(dir_cluster, filename, &entry);
        proof {
            reveal(entry_written);
            if rr is Ok {
                let (c, i) = choose|c: u32, i: usize| #![trigger slot_of(cluster_bytes(g, self.disk_view(), c as int), i as int)]
                    i < slots_per_cluster(g) && slot_available(g, d0, c, i)
                    && slot_of(cluster_bytes(g, self.disk_view(), c as int), i as int) == entry_bytes(entry);
                assert(0 <= i < slots_per_cluster(g) && short_name_for(filename@, name_8_3)
                    && slot_of(cluster_bytes(g, self.disk_view(), c as int), i as int) == entry_bytes(new_entry(name_8_3, first_cluster, file_size, is_directory, now)));
            }
        }
        rr
    }

    /// Fills the first cluster of a new directory: `.` for itself, `..` for its
    /// parent, zeros after them.
    #[verifier::rlimit(40)]
    pub fn initialize_directory_cluster(&mut self, dir_cluster: u32, parent_cluster: u32) -> (r: Result<(), &'static str>)
        requires
            old(self).wf(),
        ensures
            final(self).wf(),
            final(self).geometry() == old(self).geometry(),
            final(self).disk_view().len() == old(self).disk_view().len(),
            r is Ok ==> final(self).disk_view() == write_cluster_spec(
                old(self).geometry(),
                old(self).disk_view(),
                dir_cluster as int,
                new_directory_cluster(old(self).geometry(), dir_cluster, parent_cluster),
            ),
            r is Ok ==> cluster_bytes(old(self).geometry(), final(self).disk_view(), dir_cluster as int)
                == new_directory_cluster(old(self).geometry(), dir_cluster, parent_cluster),
            r is Ok && 2 <= dir_cluster && fat_fits(old(self).geometry()) && old(self).geometry().total_sectors <= old(self).disk_view().len()
                ==> cluster_frame(old(self).geometry(), old(self).disk_view(), final(self).disk_view(), dir_cluster as int),
    {
        let ghost g = self.geometry();
        let ghost d = self.disk_view();
        proof {
            self.lemma_wf_geometry();
        }
        let csize = self.cluster_size_bytes();
        let dot = dot_entry([46u8, 32, 32, 32, 32, 32, 32, 32, 32, 32, 32], dir_cluster);
        let dotdot = dot_entry([46u8, 46, 32, 32, 32, 32, 32, 32, 32, 32, 32], parent_cluster);
        proof {
            lemma_entry_roundtrip(dot);
            lemma_entry_roundtrip(dotdot);
        }
        let mut buf = dot.to_bytes();
        let second = dotdot.to_bytes();
        let mut j: usize = 0;
        while j < 32
            invariant
                j <= 32,
                second@.len() == 32,
                buf@ == entry_bytes(dot) + second@.subrange(0, j as int),
            decreases 32 - j,
        {
            buf.push(second[j]);
            assert(second@.subrange(0, j + 1) =~= second@.subrange(0, j as int).push(second@[j as int]));
            j = j + 1;
        }
        let ghost head = buf@;
        assert(second@.subrange(0, 32) =~= second@);
        while buf.len() < csize
            invariant
                csize == cluster_size(g),
                64 <= buf@.len() <= csize,
                buf@.subrange(0, 64) == head,
                forall|k: int| 64 <= k < buf@.len() ==> buf@[k] == 0u8,
            decreases csize - buf@.len(),
        {
            buf.push(0);
        }
        assert(buf@ =~= new_directory_cluster(g, dir_cluster, parent_cluster)) by {
            assert(dot.name@ =~= dot_name());
            assert(dotdot.name@ =~= dotdot_name());
        }
        let rr = self.write_cluster(dir_cluster, buf.as_slice());
        proof {
            if rr is Ok {
                assert(buf@.subrange(0, cluster_size(g)) =~= buf@);
                if 2 <= dir_cluster && fat_fits(g) && g.total_sectors <= d.len() {
                    lemma_cluster_write_frame(g, d, dir_cluster as int, buf@);
                }
            }
        }
        rr
    }
}


/// The long-filename entries in the slots from `start` up to slot `i` of the
/// cluster bytes `b` (none when `start` is `None`).
pub open spec fn pending_lfns(b: Seq<u8>, start: Option<usize>, i: int) -> Seq<LongFilenameEntry> {
    match start {
        Some(s) => Seq::new((i - s) as nat, |k: int| parse_lfn(b, 32 * (s + k))),
        None => Seq::empty(),
    }
}

/// The short entry `e` in slot `i` of the cluster bytes `b`, named with the
/// long-filename entries from slot `start` on, has the upper-cased name `upper`.
#[verifier::opaque]
pub open spec fn upper_name_is(b: Seq<u8>, start: Option<usize>, i: int, e: DirectoryEntry, upper: Seq<char>) -> bool {
    spec_to_uppercase(spec_file_entry(spec_reconstruct(pending_lfns(b, start, i), e.name@), e).name) == upper
}

/// The short entry `e` in slot `i` of the cluster bytes `b`, named with the
/// long-filename entries from slot `start` on, is called `name` ignoring case.
pub open spec fn named_at(b: Seq<u8>, start: Option<usize>, i: int, e: DirectoryEntry, name: Seq<char>) -> bool {
    &&& entry_at(b, 32 * i, e)
    &&& start matches Some(s) ==> s < i
    &&& upper_name_is(b, start, i, e, spec_to_uppercase(name))
}

/// What searching one directory cluster for a name found.
enum SlotSearch {
    /// The entry in slot `.0` matches; its long-filename entries start at slot `.1`.
    Found(usize, Option<usize>, DirectoryEntry),
    /// The end-of-directory mark came first.
    EndOfDirectory,
    /// Neither: the search goes on in the next cluster.
    NotInCluster,
}

/// Going from disk `d` to `d2`, the short entry named `name` (ignoring case)
/// in some directory cluster, and the long-filename entries before it, were
/// marked deleted (first byte 0xE5).
#[verifier::opaque]
pub open spec fn entry_deleted(g: Geometry, d: Seq<Seq<u8>>, d2: Seq<Seq<u8>>, name: Seq<char>) -> bool {
    exists|c: int, i: int, s: Option<usize>, e: DirectoryEntry|
        #![trigger slot_of(cluster_bytes(g, d2, c), i), named_at(cluster_bytes(g, d, c), s, i, e, name)]
        0 <= i < slots_per_cluster(g)
        && named_at(cluster_bytes(g, d, c), s, i, e, name)
        && slot_of(cluster_bytes(g, d2, c), i) == entry_bytes(e).update(0, DELETED_MARK)
        && (s matches Some(s0) ==> forall|k: int| s0 <= k < i
            ==> #[trigger] slot_of(cluster_bytes(g, d2, c), k) == slot_of(cluster_bytes(g, d, c), k).update(0, DELETED_MARK))
}

/// What searching slots `i..n` of the cluster bytes `b` for the upper-cased
/// name `target` finds, the pending long-filename entries starting at slot
/// `start`: the first short entry so named, unless the end-of-directory mark
/// comes first. Deleted slots and unmatched short entries drop the pending
/// long-filename entries.
spec fn search_from(b: Seq<u8>, i: int, n: int, target: Seq<char>, start: Option<usize>) -> SlotSearch
    decreases n - i,
{
    if i >= n {
        SlotSearch::NotInCluster
    } else if b[32 * i] == 0 {
        SlotSearch::EndOfDirectory
    } else if b[32 * i] == DELETED_MARK {
        search_from(b, i + 1, n, target, None)
    } else if b[32 * i + 11] == ATTR_LONG_NAME {
        search_from(b, i + 1, n, target, if start is Some { start } else { Some(i as usize) })
    } else if upper_name_is(b, start, i, parse_entry(b, 32 * i), target) {
        SlotSearch::Found(i as usize, start, parse_entry(b, 32 * i))
    } else {
        search_from(b, i + 1, n, target, None)
    }
}

/// Searches the `n` slots of a directory cluster for the entry whose name,
/// upper-cased, is `target`. Long-filename entries are collected as in a
/// listing and dropped at deleted slots.
fn search_cluster(buf: &Vec<u8>, n: usize, target: &String) -> (r: SlotSearch)
    requires
        32 * n <= buf@.len(),
    ensures
        r matches SlotSearch::Found(i, start, e) ==> i < n && (start matches Some(s) ==> s < i)
            && entry_at(buf@, 32 * i, e) && buf@[32 * i] != 0 && buf@[32 * i] != DELETED_MARK
            && buf@[32 * i + 11] != ATTR_LONG_NAME
            && upper_name_is(buf@, start, i as int, e, target@),
        r == search_from(buf@, 0, n as int, target@, None),
{
    let _l = buf.len();
    let mut lfn_entries: Vec<LongFilenameEntry> = Vec::new();
    let mut lfn_start: Option<usize> = None;
    let mut i: usize = 0;
    while i < n
        invariant
            i <= n,
            32 * n <= buf@.len(),
            buf@.len() <= usize::MAX,
            lfn_start matches Some(s) ==> s < i,
            lfn_entries@ == pending_lfns(buf@, lfn_start, i as int),
            search_from(buf@, 0, n as int, target@, None) == search_from(buf@, i as int, n as int, target@, lfn_start),
        decreases n - i,
    {
        let off = i * 32;
        if buf[off] == 0 {
            return SlotSearch::EndOfDirectory;
        }
        if buf[off] == DELETED_MARK {
            lfn_start = None;
            lfn_entries = Vec::new();
            i = i + 1;
            continue;
        }
        if buf[off + 11] == ATTR_LONG_NAME {
            let l = LongFilenameEntry::from_bytes(buf.as_slice(), off);
            proof {
                lemma_lfn_at_parse(buf@, off as int, l);
            }
            let ghost before = lfn_entries@;
            if lfn_start.is_none() {
                lfn_start = Some(i);
            }
            lfn_entries.push(l);
            assert(lfn_entries@ =~= pending_lfns(buf@, lfn_start, i + 1));
            i = i + 1;
            continue;
        }
        let entry = DirectoryEntry::from_bytes(buf.as_slice(), off);
        proof {
            lemma_entry_at_parse(buf@, off as int, entry);
        }
        let long_filename = match reconstruct_long_filename(lfn_entries.as_slice(), &entry.name) {
            Ok(o) => o,
            Err(_) => None,
        };
        let (_file_entry, same) = match_entry(long_filename, &entry, target);
        proof {
            reveal(upper_name_is);
        }
        if same {
            return SlotSearch::Found(i, lfn_start, entry);
        }
        lfn_start = None;
        lfn_entries = Vec::new();
        i = i + 1;
    }
    SlotSearch::NotInCluster
}

/// Replaces slot `slot` of a cluster buffer with the 32 bytes `entry`.
fn put_slot(buf: &mut Vec<u8>, slot: usize, entry: &[u8])
    requires
        entry@.len() == 32,
        32 * slot + 32 <= old(buf)@.len(),
    ensures
        final(buf)@ == with_slot(old(buf)@, slot as int, entry@),
{
    let ghost cb = buf@;
    let _l = buf.len();
    let off = slot * 32;
    let mut j: usize = 0;
    while j < 32
        invariant
            j <= 32,
            entry@.len() == 32,
            off == 32 * slot,
            off + 32 <= cb.len(),
            buf@.len() == cb.len(),
            forall|k: int| 0 <= k < cb.len() && !(off <= k < off + j) ==> buf@[k] == cb[k],
            forall|k: int| off <= k < off + j ==> buf@[k] == entry@[k - off],
        decreases 32 - j,
    {
        buf.set(off + j, entry[j]);
        j = j + 1;
    }
    assert(buf@ =~= with_slot(cb, slot as int, entry@));
}

impl<D: DiskOperations> Fat32FileSystem<D> {
    /// Writes back cluster `cluster` from its bytes `buf` with the entry
    /// `entry` of slot `i` pointed to `new_first_cluster`, sized
    /// `new_file_size` and stamped with `now`.
    fn store_refreshed_entry(
        &mut self,
        cluster: u32,
        buf: &mut Vec<u8>,
        i: usize,
        entry: DirectoryEntry,
        new_first_cluster: u32,
        new_file_size: u32,
        now: DateTime,
    ) -> (r: Result<(), &'static str>)
        requires
            old(self).wf(),
            now.year >= 1980,
            old(buf)@.len() == cluster_size(old(self).geometry()),
            i < slots_per_cluster(old(self).geometry()),
        ensures
            final(self).wf(),
            final(self).geometry() == old(self).geometry(),
            final(self).disk_view().len() == old(self).disk_view().len(),
            r is Ok ==> slot_of(cluster_bytes(old(self).geometry(), final(self).disk_view(), cluster as int), i as int)
                == entry_bytes(refreshed(entry, new_first_cluster, new_file_size, now)),
            r is Ok && 2 <= cluster && fat_fits(old(self).geometry()) && old(self).geometry().total_sectors <= old(self).disk_view().len()
                ==> cluster_frame(old(self).geometry(), old(self).disk_view(), final(self).disk_view(), cluster as int),
    {
        let ghost g = self.geometry();
        let ghost d = self.disk_view();
        let date = date_to_raw_date(now.to_date());
        let time = time_to_raw_time(now.to_time());
        let mut updated = entry;
        updated.first_cluster_high = (new_first_cluster / 65536) as u16;
        updated.first_cluster_low = (new_first_cluster % 65536) as u16;
        updated.file_size = new_file_size;
        updated.last_write_date = date;
        updated.last_write_time = time;
        updated.last_access_date = date;
        proof {
            lemma_entry_roundtrip(updated);
        }
        assert(updated == refreshed(entry, new_first_cluster, new_file_size, now));
        let bytes = updated.to_bytes();
        put_slot(buf, i, bytes.as_slice());
        assert(buf@.subrange(0, buf@.len() as int) =~= buf@);
        assert(slot_of(buf@, i as int) =~= bytes@);
        let rr = self.write_cluster(cluster, buf.as_slice());
        proof {
            if rr is Ok && 2 <= cluster && fat_fits(g) && g.total_sectors <= d.len() {
                self.lemma_wf_geometry();
                lemma_cluster_write_frame(g, d, cluster as int, buf@);
            }
        }
        rr
    }

    /// Writes back cluster `cluster` from its bytes `buf` with slot `i`, and
    /// the slots from `start` up to it, marked deleted.
    fn store_deleted_entry(&mut self, cluster: u32, buf: &mut Vec<u8>, i: usize, start: Option<usize>) -> (r: Result<(), &'static str>)
        requires
            old(self).wf(),
            old(buf)@.len() == cluster_size(old(self).geometry()),
            i < slots_per_cluster(old(self).geometry()),
            start matches Some(s) ==> s < i,
        ensures
            final(self).wf(),
            final(self).geometry() == old(self).geometry(),
            final(self).disk_view().len() == old(self).disk_view().len(),
            r is Ok ==> slot_of(cluster_bytes(old(self).geometry(), final(self).disk_view(), cluster as int), i as int)
                == slot_of(old(buf)@, i as int).update(0, DELETED_MARK),
            r is Ok ==> (start matches Some(s0) ==> forall|k: int| s0 <= k < i
                ==> #[trigger] slot_of(cluster_bytes(old(self).geometry(), final(self).disk_view(), cluster as int), k)
                    == slot_of(old(buf)@, k).update(0, DELETED_MARK)),
            r is Ok && 2 <= cluster && fat_fits(old(self).geometry()) && old(self).geometry().total_sectors <= old(self).disk_view().len()
                ==> cluster_frame(old(self).geometry(), old(self).disk_view(), final(self).disk_view(), cluster as int),
    {
        let ghost g = self.geometry();
        let ghost d = self.disk_view();
        let ghost cb = buf@;
        let _l = buf.len();
        if let Some(s) = start {
            let mut k: usize = s;
            while k < i
                invariant
                    s <= k <= i,
                    32 * i + 32 <= cb.len(),
                    cb.len() <= usize::MAX,
                    buf@.len() == cb.len(),
                    forall|j: int| 0 <= j < cb.len() && (j < 32 * s || j >= 32 * k) ==> buf@[j] == cb[j],
                    forall|m: int| s <= m < k ==> #[trigger] slot_of(buf@, m) == slot_of(cb, m).update(0, DELETED_MARK),
                decreases i - k,
            {
                let ghost prev = buf@;
                buf.set(k * 32, DELETED_MARK);
                assert forall|m: int| s <= m < k + 1 implies #[trigger] slot_of(buf@, m) == slot_of(cb, m).update(0, DELETED_MARK) by {
                    if m < k {
                        assert(slot_of(buf@, m) =~= slot_of(prev, m));
                    } else {
                        assert(slot_of(buf@, m) =~= slot_of(cb, m).update(0, DELETED_MARK));
                    }
                }
                k = k + 1;
            }
        }
        let ghost before_last = buf@;
        assert(slot_of(before_last, i as int) =~= slot_of(cb, i as int));
        buf.set(i * 32, DELETED_MARK);
        assert(slot_of(buf@, i as int) =~= slot_of(cb, i as int).update(0, DELETED_MARK));
        if let Some(s0) = start {
            assert forall|m: int| s0 <= m < i implies #[trigger] slot_of(buf@, m) == slot_of(cb, m).update(0, DELETED_MARK) by {
                assert(slot_of(buf@, m) =~= slot_of(before_last, m));
            }
        }
        assert(buf@.subrange(0, buf@.len() as int) =~= buf@);
        let rr = self.write_cluster(cluster, buf.as_slice());
        proof {
            if rr is Ok && 2 <= cluster && fat_fits(g) && g.total_sectors <= d.len() {
                self.lemma_wf_geometry();
                lemma_cluster_write_frame(g, d, cluster as int, buf@);
            }
        }
        rr
    }

    /// Points the entry named `filename` in the directory at `dir_cluster` to
    /// `new_first_cluster`, sets its size, and stamps its write and access
    /// dates with `now`.
    pub fn update_directory_entry(
        &mut self,
        dir_cluster: u32,
        filename: &str,
        new_first_cluster: u32,
        new_file_size: u32,
        now: DateTime,
    ) -> (r: Result<(), &'static str>)
        requires
            old(self).wf(),
            now.year >= 1980,
        ensures
            final(self).wf(),
            final(self).geometry() == old(self).geometry(),
            final(self).disk_view().len() == old(self).disk_view().len(),
            r is Ok ==> exists|c: int, i: int, s: Option<usize>, e: DirectoryEntry|
                #![trigger slot_of(cluster_bytes(old(self).geometry(), final(self).disk_view(), c), i), named_at(cluster_bytes(old(self).geometry(), old(self).disk_view(), c), s, i, e, filename@)]
                0 <= i < slots_per_cluster(old(self).geometry())
                && named_at(cluster_bytes(old(self).geometry(), old(self).disk_view(), c), s, i, e, filename@)
                && slot_of(cluster_bytes(old(self).geometry(), final(self).disk_view(), c), i)
                    == entry_bytes(refreshed(e, new_first_cluster, new_file_size, now)),
            r is Ok && dir_volume_ok(old(self).geometry(), old(self).disk_view(), dir_cluster as int)
                ==> dir_frame(old(self).geometry(), old(self).disk_view(), final(self).disk_view(), dir_cluster as int),
    {
        let ghost g = self.geometry();
        let ghost d = self.disk_view();
        let ghost ok = dir_volume_ok(g, d, dir_cluster as int);
        let ghost dc = dir_cluster as int;
        let csize = self.cluster_size_bytes();
        let n = csize / 32;
        let target = to_uppercase(filename);
        let mut current_cluster = dir_cluster;
        let mut fuel: u32 = MAX_CHAIN;
        let mut buf: Vec<u8> = vec![0u8; csize];
        loop
            invariant
                self.wf(),
                self.geometry() == g,
                g == old(self).geometry(),
                d == old(self).disk_view(),
                self.disk_view() == d,
                target@ == spec_to_uppercase(filename@),
                ok == dir_volume_ok(g, d, dc),
                dc == dir_cluster as int,
                fuel <= MAX_CHAIN,
                ok ==> reaches(g, d, dc, current_cluster as int, (MAX_CHAIN - fuel) as nat),
                csize == cluster_size(g),
                n == slots_per_cluster(g),
                buf@.len() == csize,
                now.year >= 1980,
            decreases fuel,
        {
            if fuel == 0 {
                return Err("Cluster chain too long");
            }
            proof {
                if ok {
                    assert(in_dir_chain(g, d, dc, current_cluster as int));
                }
            }
            let rr = self.read_cluster(current_cluster, buf.as_mut_slice());
            if rr.is_err() {
                return rr;
            }
            match search_cluster(&buf, n, &target) {
                SlotSearch::EndOfDirectory => {
                    return Err("File not found in directory");
                },
                SlotSearch::Found(i, start, entry) => {
                    let ghost cb = buf@;
                    assert(cb.subrange(0, csize as int) =~= cb);
                    let rr = self.store_refreshed_entry(current_cluster, &mut buf, i, entry, new_first_cluster, new_file_size, now);
                    proof {
                        if rr is Ok && ok {
                            self.lemma_wf_geometry();
                            assert(dir_frame(g, d, d, dc));
                            lemma_dir_frame_step(g, d, d, self.disk_view(), dc, current_cluster as int);
                        }
                        if rr is Ok {
                            assert(named_at(cluster_bytes(g, d, current_cluster as int), start, i as int, entry, filename@));
                        }
                    }
                    return rr;
                },
                SlotSearch::NotInCluster => {},
            }
            let next_cluster = match self.get_next_cluster(current_cluster) {
                Ok(c) => c,
                Err(e) => { return Err(e); },
            };
            if next_cluster >= END_OF_CHAIN {
                return Err("File not found in directory");
            }
            proof {
                if ok {
                    lemma_reaches_step(g, d, dc, current_cluster as int, (MAX_CHAIN - fuel) as nat);
                }
            }
            current_cluster = next_cluster;
            fuel = fuel - 1;
        }
    }

    /// Marks the entry named `filename` in the directory at `dir_cluster`, and
    /// the long-filename entries just before it, as deleted (first byte 0xE5).
    pub fn mark_directory_entry_deleted(&mut self, dir_cluster: u32, filename: &str) -> (r: Result<(), &'static str>)
        requires
            old(self).wf(),
        ensures
            final(self).wf(),
            final(self).geometry() == old(self).geometry(),
            final(self).disk_view().len() == old(self).disk_view().len(),
            r is Ok ==> entry_deleted(old(self).geometry(), old(self).disk_view(), final(self).disk_view(), filename@),
            r is Ok && dir_volume_ok(old(self).geometry(), old(self).disk_view(), dir_cluster as int)
                ==> dir_frame(old(self).geometry(), old(self).disk_view(), final(self).disk_view(), dir_cluster as int),
    {
        let ghost g = self.geometry();
        let ghost d = self.disk_view();
        let ghost ok = dir_volume_ok(g, d, dir_cluster as int);
        let ghost dc = dir_cluster as int;
        let csize = self.cluster_size_bytes();
        let n = csize / 32;
        let target = to_uppercase(filename);
        let mut current_cluster = dir_cluster;
        let mut fuel: u32 = MAX_CHAIN;
        let mut buf: Vec<u8> = vec![0u8; csize];
        loop
            invariant
                self.wf(),
                self.geometry() == g,
                g == old(self).geometry(),
                d == old(self).disk_view(),
                self.disk_view() == d,
                target@ == spec_to_uppercase(filename@),
                ok == dir_volume_ok(g, d, dc),
                dc == dir_cluster as int,
                fuel <= MAX_CHAIN,
                ok ==> reaches(g, d, dc, current_cluster as int, (MAX_CHAIN - fuel) as nat),
                csize == cluster_size(g),
                n == slots_per_cluster(g),
                buf@.len() == csize,
            decreases fuel,
        {
            if fuel == 0 {
                return Err("Cluster chain too long");
            }
            proof {
                if ok {
                    assert(in_dir_chain(g, d, dc, current_cluster as int));
                }
            }
            let rr = self.read_cluster(current_cluster, buf.as_mut_slice());
            if rr.is_err() {
                return rr;
            }
            match search_cluster(&buf, n, &target) {
                SlotSearch::EndOfDirectory => {
                    return Err("File not found in directory");
                },
                SlotSearch::Found(i, start, entry) => {
                    let ghost cb = buf@;
                    assert(cb.subrange(0, csize as int) =~= cb);
                    proof {
                        lemma_entry_bytes_of(cb, 32 * i as int, entry);
                    }
                    let rr = self.store_deleted_entry(current_cluster, &mut buf, i, start);
                    proof {
                        if rr is Ok && ok {
                            self.lemma_wf_geometry();
                            assert(dir_frame(g, d, d, dc));
                            lemma_dir_frame_step(g, d, d, self.disk_view(), dc, current_cluster as int);
                        }
                        if rr is Ok {
                            assert(named_at(cluster_bytes(g, d, current_cluster as int), start, i as int, entry, filename@));
                            reveal(entry_deleted);
                            assert(slot_of(cluster_bytes(g, self.disk_view(), current_cluster as int), i as int)
                                == entry_bytes(entry).update(0, DELETED_MARK));
                        }
                    }
                    return rr;
                },
                SlotSearch::NotInCluster => {},
            }
            let next_cluster = match self.get_next_cluster(current_cluster) {
                Ok(c) => c,
                Err(e) => { return Err(e); },
            };
            if next_cluster >= END_OF_CHAIN {
                return Err("File not found in directory");
            }
            proof {
                if ok {
                    lemma_reaches_step(g, d, dc, current_cluster as int, (MAX_CHAIN - fuel) as nat);
                }
            }
            current_cluster = next_cluster;
            fuel = fuel - 1;
        }
    }
}

} // verus!
