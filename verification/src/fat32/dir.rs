//! Reading directories: the entries of a directory chain, listing, and lookup by name.
use vstd::prelude::*;
use crate::fat32::disk::DiskOperations;
use crate::fat32::entry::{
    DirectoryEntry, LongFilenameEntry, parse_entry, parse_lfn, lemma_entry_at_parse,
    lemma_lfn_at_parse, ATTR_LONG_NAME, ATTR_VOLUME_ID, DELETED_MARK,
};
use crate::fat32::file_entry::{
    FileEntry, FileEntryView, entry_to_file_entry_with_lfn, opt_string_view, spec_file_entry,
    attr_bit,
};
use crate::fat32::fs::{
    cluster_bytes, cluster_size, fat_entry, slots_per_cluster, Fat32FileSystem, Geometry,
    CLUSTER_LIMIT, END_OF_CHAIN, MAX_CHAIN,
};
use crate::fat32::lfn::{reconstruct_long_filename, spec_reconstruct};
use crate::text::{spec_to_uppercase, to_uppercase};

verus! {

/// A directory entry paired with the long name read before it.
pub type NamedEntry = (Option<Seq<char>>, DirectoryEntry);

pub open spec fn entries_view(v: Seq<(Option<String>, DirectoryEntry)>) -> Seq<NamedEntry> {
    v.map_values(|p: (Option<String>, DirectoryEntry)| (opt_string_view(p.0), p.1))
}

/// Scans the slots `i..n` of a directory cluster `b`, with `lfns` the
/// long-filename entries seen since the last short entry and `acc` the entries
/// found so far. Returns the entries and whether the end-of-directory mark
/// (first byte 0) was met. Deleted slots (first byte 0xE5) drop pending
/// long-filename entries; every other short entry is recorded with the long
/// name its pending entries spell.
pub open spec fn scan_from(b: Seq<u8>, i: int, n: int, lfns: Seq<LongFilenameEntry>, acc: Seq<NamedEntry>) -> (Seq<NamedEntry>, bool)
    decreases n - i,
{
    if i >= n {
        (acc, false)
    } else if b[32 * i] == 0 {
        (acc, true)
    } else if b[32 * i] == DELETED_MARK {
        scan_from(b, i + 1, n, Seq::empty(), acc)
    } else if b[32 * i + 11] == ATTR_LONG_NAME {
        scan_from(b, i + 1, n, lfns.push(parse_lfn(b, 32 * i)), acc)
    } else {
        let e = parse_entry(b, 32 * i);
        scan_from(b, i + 1, n, Seq::empty(), acc.push((spec_reconstruct(lfns, e.name@), e)))
    }
}

/// The entries of the directory chain from cluster `c`, appended to `acc`;
/// long-filename sequences do not carry over from one cluster to the next.
/// `None` when the chain runs longer than `fuel` clusters.
pub open spec fn scan_chain(g: Geometry, d: Seq<Seq<u8>>, c: int, fuel: nat, acc: Seq<NamedEntry>) -> Option<Seq<NamedEntry>>
    decreases fuel,
{
    if fuel == 0 {
        None
    } else {
        let r = scan_from(cluster_bytes(g, d, c), 0, slots_per_cluster(g), Seq::empty(), acc);
        if r.1 {
            Some(r.0)
        } else {
            let nx = fat_entry(g, d, c);
            if nx >= END_OF_CHAIN {
                Some(r.0)
            } else {
                scan_chain(g, d, nx as int, (fuel - 1) as nat, r.0)
            }
        }
    }
}

/// The entries of the directory that starts at cluster `c`.
pub open spec fn dir_entries(g: Geometry, d: Seq<Seq<u8>>, c: int) -> Option<Seq<NamedEntry>> {
    scan_chain(g, d, c, MAX_CHAIN as nat, Seq::empty())
}

/// Same scan without long-filename processing: the short entries only.
pub open spec fn scan_plain_from(b: Seq<u8>, i: int, n: int, acc: Seq<DirectoryEntry>) -> (Seq<DirectoryEntry>, bool)
    decreases n - i,
{
    if i >= n {
        (acc, false)
    } else if b[32 * i] == 0 {
        (acc, true)
    } else if b[32 * i] == DELETED_MARK || b[32 * i + 11] == ATTR_LONG_NAME {
        scan_plain_from(b, i + 1, n, acc)
    } else {
        scan_plain_from(b, i + 1, n, acc.push(parse_entry(b, 32 * i)))
    }
}

pub open spec fn scan_plain_chain(g: Geometry, d: Seq<Seq<u8>>, c: int, fuel: nat, acc: Seq<DirectoryEntry>) -> Option<Seq<DirectoryEntry>>
    decreases fuel,
{
    if fuel == 0 {
        None
    } else {
        let r = scan_plain_from(cluster_bytes(g, d, c), 0, slots_per_cluster(g), acc);
        if r.1 {
            Some(r.0)
        } else {
            let nx = fat_entry(g, d, c);
            if nx >= END_OF_CHAIN {
                Some(r.0)
            } else {
                scan_plain_chain(g, d, nx as int, (fuel - 1) as nat, r.0)
            }
        }
    }
}

/// The short entries of the directory that starts at cluster `c`.
pub open spec fn dir_short_entries(g: Geometry, d: Seq<Seq<u8>>, c: int) -> Option<Seq<DirectoryEntry>> {
    scan_plain_chain(g, d, c, MAX_CHAIN as nat, Seq::empty())
}

/// The listing of a directory: its entries but volume labels, as file entries.
pub open spec fn listing(es: Seq<NamedEntry>) -> Seq<FileEntryView>
    decreases es.len(),
{
    if es.len() == 0 {
        Seq::empty()
    } else {
        let rest = listing(es.drop_last());
        let p = es.last();
        if attr_bit(p.1.attributes, ATTR_VOLUME_ID) {
            rest
        } else {
            rest.push(spec_file_entry(p.0, p.1))
        }
    }
}

/// The first entry whose name equals `name` ignoring case (both upper-cased).
pub open spec fn find_named(es: Seq<NamedEntry>, name: Seq<char>) -> Option<FileEntryView>
    decreases es.len(),
{
    if es.len() == 0 {
        None
    } else {
        let fe = spec_file_entry(es[0].0, es[0].1);
        if spec_to_uppercase(fe.name) == spec_to_uppercase(name) {
            Some(fe)
        } else {
            find_named(es.drop_first(), name)
        }
    }
}

/// What looking `name` up in the directory at `c` gives: `None` when the
/// directory cannot be read to its end, else whether and what was found.
pub open spec fn lookup(g: Geometry, d: Seq<Seq<u8>>, c: int, name: Seq<char>) -> Option<Option<FileEntryView>> {
    match dir_entries(g, d, c) {
        Some(es) => Some(find_named(es, name)),
        None => None,
    }
}

pub open spec fn fev_opt(o: Option<FileEntry>) -> Option<FileEntryView> {
    match o {
        Some(f) => Some(f@),
        None => None,
    }
}

proof fn lemma_view_push(v: Seq<(Option<String>, DirectoryEntry)>, p: (Option<String>, DirectoryEntry))
    ensures
        entries_view(v.push(p)) == entries_view(v).push((opt_string_view(p.0), p.1)),
{
    assert(entries_view(v.push(p)) =~= entries_view(v).push((opt_string_view(p.0), p.1)));
}

impl<D: DiskOperations> Fat32FileSystem<D> {
    /// Scans one cluster's slots, appending its entries to `entries`; returns
    /// whether the end-of-directory mark was met.
    fn scan_cluster_with_lfn(buf: &Vec<u8>, n: usize, entries: &mut Vec<(Option<String>, DirectoryEntry)>) -> (ended: bool)
        requires
            32 * n <= buf@.len(),
        ensures
            scan_from(buf@, 0, n as int, Seq::empty(), entries_view(old(entries)@))
                == (entries_view(final(entries)@), ended),
    {
        let _l = buf.len();
        let mut lfn_entries: Vec<LongFilenameEntry> = Vec::new();
        let mut i: usize = 0;
        while i < n
            invariant
                i <= n,
                32 * n <= buf@.len(),
                buf@.len() <= usize::MAX,
                scan_from(buf@, 0, n as int, Seq::empty(), entries_view(old(entries)@))
                    == scan_from(buf@, i as int, n as int, lfn_entries@, entries_view(entries@)),
            decreases n - i,
        {
            let off = i * 32;
            if buf[off] == 0 {
                return true;
            }
            if buf[off] == DELETED_MARK {
                lfn_entries = Vec::new();
                i = i + 1;
                continue;
            }
            if buf[off + 11] == ATTR_LONG_NAME {
                let l = LongFilenameEntry::from_bytes(buf.as_slice(), off);
                proof {
                    lemma_lfn_at_parse(buf@, off as int, l);
                }
                lfn_entries.push(l);
                i = i + 1;
                continue;
            }
            let entry = DirectoryEntry::from_bytes(buf.as_slice(), off);
            proof {
                lemma_entry_at_parse(buf@, off as int, entry);
            }
            let long_filename = match reconstruct_long_filename(lfn_entries.as_slice(), &entry.name) {
                Ok(o) => o,
                Err(_) => None,
            };
            let ghost before = entries@;
            entries.push((long_filename, entry));
            proof {
                lemma_view_push(before, (long_filename, entry));
            }
            lfn_entries = Vec::new();
            i = i + 1;
        }
        false
    }

    /// The entries of the directory that starts at `cluster`, each with the long
    /// name that precedes it.
    pub fn read_directory_entries_with_lfn(&mut self, cluster: u32) -> (r: Result<Vec<(Option<String>, DirectoryEntry)>, &'static str>)
        requires
            old(self).wf(),
        ensures
            final(self).wf(),
            final(self).geometry() == old(self).geometry(),
            final(self).disk_view() == old(self).disk_view(),
            r matches Ok(v) ==> dir_entries(old(self).geometry(), old(self).disk_view(), cluster as int) == Some(entries_view(v@)),
            dir_entries(old(self).geometry(), old(self).disk_view(), cluster as int) is Some && cluster < CLUSTER_LIMIT
                ==> (r matches Err(e) ==> D::device_error(e)),
    {
        let ghost g = self.geometry();
        let ghost d = self.disk_view();
        let csize = self.cluster_size_bytes();
        let n = csize / 32;
        let mut cluster_buffer: Vec<u8> = vec![0u8; csize];
        let mut entries: Vec<(Option<String>, DirectoryEntry)> = Vec::new();
        let mut current_cluster = cluster;
        let mut fuel: u32 = MAX_CHAIN;
        assert(entries_view(entries@) =~= Seq::<NamedEntry>::empty());
        loop
            invariant
                self.wf(),
                self.geometry() == g,
                self.disk_view() == d,
                g == old(self).geometry(),
                d == old(self).disk_view(),
                csize == cluster_size(g),
                n == slots_per_cluster(g),
                cluster_buffer@.len() == csize,
                dir_entries(g, d, cluster as int) == scan_chain(g, d, current_cluster as int, fuel as nat, entries_view(entries@)),
                current_cluster == cluster || current_cluster < END_OF_CHAIN,
            decreases fuel,
        {
            if fuel == 0 {
                return Err("Cluster chain too long");
            }
            let rr = self.read_cluster(current_cluster, cluster_buffer.as_mut_slice());
            if rr.is_err() {
                return Err(rr.unwrap_err());
            }
            let ghost acc = entries_view(entries@);
            let ghost cb = cluster_bytes(g, d, current_cluster as int);
            assert(cluster_buffer@ =~= cluster_buffer@.subrange(0, csize as int));
            let ended = Self::scan_cluster_with_lfn(&cluster_buffer, n, &mut entries);
            assert(cb == cluster_buffer@);
            if ended {
                return Ok(entries);
            }
            let next_cluster = match self.get_next_cluster(current_cluster) {
                Ok(c) => c,
                Err(e) => { return Err(e); },
            };
            if next_cluster >= END_OF_CHAIN {
                return Ok(entries);
            }
            current_cluster = next_cluster;
            fuel = fuel - 1;
        }
    }
}

/// A short name is `.` or `..`.
pub open spec fn is_dot_name(e: DirectoryEntry) -> bool {
    (e.name@[0] == 46 && e.name@[1] == 32) || is_dotdot_name(e)
}

pub open spec fn is_dotdot_name(e: DirectoryEntry) -> bool {
    e.name@[0] == 46 && e.name@[1] == 46 && e.name@[2] == 32
}

/// A directory is empty when every entry other than volume labels and
/// long-filename slots is `.` or `..`.
pub open spec fn only_dot_entries(es: Seq<DirectoryEntry>) -> bool {
    forall|i: int| 0 <= i < es.len() ==> (attr_bit(#[trigger] es[i].attributes, ATTR_VOLUME_ID) || es[i].attributes == ATTR_LONG_NAME || is_dot_name(es[i]))
}

/// The cluster the first `..` entry points to.
pub open spec fn find_dotdot(es: Seq<DirectoryEntry>) -> Option<u32>
    decreases es.len(),
{
    if es.len() == 0 {
        None
    } else if is_dotdot_name(es[0]) {
        Some(crate::fat32::file_entry::entry_first_cluster(es[0]))
    } else {
        find_dotdot(es.drop_first())
    }
}

proof fn lemma_find_named_step(es: Seq<NamedEntry>, i: int, name: Seq<char>)
    requires
        0 <= i < es.len(),
    ensures
        find_named(es.subrange(i, es.len() as int), name) == if spec_to_uppercase(spec_file_entry(es[i].0, es[i].1).name) == spec_to_uppercase(name) {
            Some(spec_file_entry(es[i].0, es[i].1))
        } else {
            find_named(es.subrange(i + 1, es.len() as int), name)
        },
{
    let rest = es.subrange(i, es.len() as int);
    assert(rest.drop_first() =~= es.subrange(i + 1, es.len() as int));
    assert(rest[0] == es[i]);
}

pub(crate) fn match_entry(long_filename: Option<String>, entry: &DirectoryEntry, target: &String) -> (r: (FileEntry, bool))
    ensures
        r.0@ == spec_file_entry(opt_string_view(long_filename), *entry),
        r.1 == (spec_to_uppercase(r.0@.name) == target@),
{
    let file_entry = entry_to_file_entry_with_lfn(long_filename, entry);
    let upper = to_uppercase(file_entry.name.as_str());
    let same = upper == *target;
    (file_entry, same)
}

fn clone_name(o: &Option<String>) -> (r: Option<String>)
    ensures
        opt_string_view(r) == opt_string_view(*o),
{
    match o {
        Some(s) => Some(s.clone()),
        None => None,
    }
}

impl<D: DiskOperations> Fat32FileSystem<D> {
    fn scan_cluster_plain(buf: &Vec<u8>, n: usize, entries: &mut Vec<DirectoryEntry>) -> (ended: bool)
        requires
            32 * n <= buf@.len(),
        ensures
            scan_plain_from(buf@, 0, n as int, old(entries)@) == (final(entries)@, ended),
    {
        let _l = buf.len();
        let mut i: usize = 0;
        while i < n
            invariant
                i <= n,
                32 * n <= buf@.len(),
                buf@.len() <= usize::MAX,
                scan_plain_from(buf@, 0, n as int, old(entries)@) == scan_plain_from(buf@, i as int, n as int, entries@),
            decreases n - i,
        {
            let off = i * 32;
            if buf[off] == 0 {
                return true;
            }
            if buf[off] == DELETED_MARK || buf[off + 11] == ATTR_LONG_NAME {
                i = i + 1;
                continue;
            }
            let entry = DirectoryEntry::from_bytes(buf.as_slice(), off);
            proof {
                lemma_entry_at_parse(buf@, off as int, entry);
            }
            entries.push(entry);
            i = i + 1;
        }
        false
    }

    /// The short entries of the directory that starts at `cluster` (deleted and
    /// long-filename slots skipped).
    pub fn read_directory_entries(&mut self, cluster: u32) -> (r: Result<Vec<DirectoryEntry>, &'static str>)
        requires
            old(self).wf(),
        ensures
            final(self).wf(),
            final(self).geometry() == old(self).geometry(),
            final(self).disk_view() == old(self).disk_view(),
            r matches Ok(v) ==> dir_short_entries(old(self).geometry(), old(self).disk_view(), cluster as int) == Some(v@),
            dir_short_entries(old(self).geometry(), old(self).disk_view(), cluster as int) is Some && cluster < CLUSTER_LIMIT
                ==> (r matches Err(e) ==> D::device_error(e)),
    {
        let ghost g = self.geometry();
        let ghost d = self.disk_view();
        let csize = self.cluster_size_bytes();
        let n = csize / 32;
        let mut cluster_buffer: Vec<u8> = vec![0u8; csize];
        let mut entries: Vec<DirectoryEntry> = Vec::new();
        let mut current_cluster = cluster;
        let mut fuel: u32 = MAX_CHAIN;
        loop
            invariant
                self.wf(),
                self.geometry() == g,
                self.disk_view() == d,
                g == old(self).geometry(),
                d == old(self).disk_view(),
                csize == cluster_size(g),
                n == slots_per_cluster(g),
                cluster_buffer@.len() == csize,
                dir_short_entries(g, d, cluster as int) == scan_plain_chain(g, d, current_cluster as int, fuel as nat, entries@),
                current_cluster == cluster || current_cluster < END_OF_CHAIN,
            decreases fuel,
        {
            if fuel == 0 {
                return Err("Cluster chain too long");
            }
            let rr = self.read_cluster(current_cluster, cluster_buffer.as_mut_slice());
            if rr.is_err() {
                return Err(rr.unwrap_err());
            }
            assert(cluster_buffer@ =~= cluster_buffer@.subrange(0, csize as int));
            let ended = Self::scan_cluster_plain(&cluster_buffer, n, &mut entries);
            if ended {
                return Ok(entries);
            }
            let next_cluster = match self.get_next_cluster(current_cluster) {
                Ok(c) => c,
                Err(e) => { return Err(e); },
            };
            if next_cluster >= END_OF_CHAIN {
                return Ok(entries);
            }
            current_cluster = next_cluster;
            fuel = fuel - 1;
        }
    }

    /// The files and subdirectories of the directory at `dir_cluster` (volume
    /// labels left out).
    pub fn list_directory(&mut self, dir_cluster: u32) -> (r: Result<Vec<FileEntry>, &'static str>)
        requires
            old(self).wf(),
        ensures
            final(self).wf(),
            final(self).geometry() == old(self).geometry(),
            final(self).disk_view() == old(self).disk_view(),
            r matches Ok(v) ==> exists|es: Seq<NamedEntry>| dir_entries(old(self).geometry(), old(self).disk_view(), dir_cluster as int) == Some(es)
                && v@.map_values(|f: FileEntry| f@) == listing(es),
    {
        let entries_with_lfn = match self.read_directory_entries_with_lfn(dir_cluster) {
            Ok(v) => v,
            Err(e) => { return Err(e); },
        };
        let ghost es = entries_view(entries_with_lfn@);
        let mut files: Vec<FileEntry> = Vec::new();
        let mut i: usize = 0;
        while i < entries_with_lfn.len()
            invariant
                self.wf(),
                self.geometry() == old(self).geometry(),
                self.disk_view() == old(self).disk_view(),
                i <= entries_with_lfn@.len(),
                es == entries_view(entries_with_lfn@),
                files@.map_values(|f: FileEntry| f@) == listing(es.subrange(0, i as int)),
            decreases entries_with_lfn@.len() - i,
        {
            let long_filename = clone_name(&entries_with_lfn[i].0);
            let entry = entries_with_lfn[i].1;
            assert(es.subrange(0, i + 1).drop_last() =~= es.subrange(0, i as int));
            let ghost before = files@;
            if (entry.attributes / ATTR_VOLUME_ID) % 2 == 1 {
                i = i + 1;
                continue;
            }
            let fe = entry_to_file_entry_with_lfn(long_filename, &entry);
            files.push(fe);
            assert(files@.map_values(|f: FileEntry| f@) =~= before.map_values(|f: FileEntry| f@).push(fe@));
            i = i + 1;
        }
        assert(es.subrange(0, es.len() as int) =~= es);
        Ok(files)
    }

    /// The files and subdirectories of the root directory.
    pub fn list_root_directory(&mut self) -> (r: Result<Vec<FileEntry>, &'static str>)
        requires
            old(self).wf(),
        ensures
            final(self).wf(),
            final(self).geometry() == old(self).geometry(),
            final(self).disk_view() == old(self).disk_view(),
            r matches Ok(v) ==> exists|es: Seq<NamedEntry>| dir_entries(old(self).geometry(), old(self).disk_view(), old(self).geometry().root_cluster as int) == Some(es)
                && v@.map_values(|f: FileEntry| f@) == listing(es),
    {
        let root = self.get_root_cluster();
        self.list_directory(root)
    }

    /// Looks a name up in the directory at `dir_cluster`, ignoring case; long and
    /// short names both match.
    #[verifier::rlimit(40)]
    pub fn find_file_in_directory(&mut self, dir_cluster: u32, filename: &str) -> (r: Result<Option<FileEntry>, &'static str>)
        requires
            old(self).wf(),
        ensures
            final(self).wf(),
            final(self).geometry() == old(self).geometry(),
            final(self).disk_view() == old(self).disk_view(),
            r matches Ok(o) ==> lookup(old(self).geometry(), old(self).disk_view(), dir_cluster as int, filename@) == Some(fev_opt(o)),
            lookup(old(self).geometry(), old(self).disk_view(), dir_cluster as int, filename@) is Some && dir_cluster < CLUSTER_LIMIT
                ==> (r matches Err(e) ==> D::device_error(e)),
    {
        let entries_with_lfn = match self.read_directory_entries_with_lfn(dir_cluster) {
            Ok(v) => v,
            Err(e) => { return Err(e); },
        };
        let ghost es = entries_view(entries_with_lfn@);
        let target = to_uppercase(filename);
        let mut i: usize = 0;
        assert(es.subrange(0, es.len() as int) =~= es);
        while i < entries_with_lfn.len()
            invariant
                self.wf(),
                self.geometry() == old(self).geometry(),
                self.disk_view() == old(self).disk_view(),
                i <= entries_with_lfn@.len(),
                es == entries_view(entries_with_lfn@),
                dir_entries(old(self).geometry(), old(self).disk_view(), dir_cluster as int) == Some(es),
                target@ == spec_to_uppercase(filename@),
                find_named(es, filename@) == find_named(es.subrange(i as int, es.len() as int), filename@),
            decreases entries_with_lfn@.len() - i,
        {
            let long_filename = clone_name(&entries_with_lfn[i].0);
            let entry = entries_with_lfn[i].1;
            assert(es[i as int] == (opt_string_view(long_filename), entry));
            let (file_entry, same) = match_entry(long_filename, &entry, &target);
            proof {
                lemma_find_named_step(es, i as int, filename@);
            }
            if same {
                return Ok(Some(file_entry));
            }
            i = i + 1;
        }
        Ok(None)
    }

    /// Looks a name up in the root directory.
    pub fn find_file_in_root(&mut self, filename: &str) -> (r: Result<Option<FileEntry>, &'static str>)
        requires
            old(self).wf(),
        ensures
            final(self).wf(),
            final(self).geometry() == old(self).geometry(),
            final(self).disk_view() == old(self).disk_view(),
            r matches Ok(o) ==> lookup(old(self).geometry(), old(self).disk_view(), old(self).geometry().root_cluster as int, filename@) == Some(fev_opt(o)),
    {
        let root = self.get_root_cluster();
        self.find_file_in_directory(root, filename)
    }

    /// Whether `filename` names a file (not a directory) in the directory.
    pub fn is_file(&mut self, current_cluster: u32, filename: &str) -> (r: Result<bool, &'static str>)
        requires
            old(self).wf(),
        ensures
            final(self).wf(),
            final(self).geometry() == old(self).geometry(),
            final(self).disk_view() == old(self).disk_view(),
            r matches Ok(b) ==> exists|o: Option<FileEntryView>| lookup(old(self).geometry(), old(self).disk_view(), current_cluster as int, filename@) == Some(o)
                && b == (o matches Some(f) && !f.is_directory),
    {
        match self.find_file_in_directory(current_cluster, filename) {
            Err(e) => Err(e),
            Ok(Some(entry)) => Ok(!entry.is_directory),
            Ok(None) => Ok(false),
        }
    }

    /// Whether `dirname` names a directory in the directory.
    pub fn is_directory(&mut self, current_cluster: u32, dirname: &str) -> (r: Result<bool, &'static str>)
        requires
            old(self).wf(),
        ensures
            final(self).wf(),
            final(self).geometry() == old(self).geometry(),
            final(self).disk_view() == old(self).disk_view(),
            r matches Ok(b) ==> exists|o: Option<FileEntryView>| lookup(old(self).geometry(), old(self).disk_view(), current_cluster as int, dirname@) == Some(o)
                && b == (o matches Some(f) && f.is_directory),
            lookup(old(self).geometry(), old(self).disk_view(), current_cluster as int, dirname@) is Some && current_cluster < CLUSTER_LIMIT
                ==> (r matches Err(e) ==> D::device_error(e)),
    {
        match self.find_file_in_directory(current_cluster, dirname) {
            Err(e) => Err(e),
            Ok(Some(entry)) => Ok(entry.is_directory),
            Ok(None) => Ok(false),
        }
    }

    /// Whether the directory at `dir_cluster` holds nothing but `.` and `..`.
    pub fn is_directory_empty(&mut self, dir_cluster: u32) -> (r: Result<bool, &'static str>)
        requires
            old(self).wf(),
        ensures
            final(self).wf(),
            final(self).geometry() == old(self).geometry(),
            final(self).disk_view() == old(self).disk_view(),
            r matches Ok(b) ==> exists|es: Seq<DirectoryEntry>| dir_short_entries(old(self).geometry(), old(self).disk_view(), dir_cluster as int) == Some(es)
                && b == only_dot_entries(es),
            dir_short_entries(old(self).geometry(), old(self).disk_view(), dir_cluster as int) is Some && dir_cluster < CLUSTER_LIMIT
                ==> (r matches Err(e) ==> D::device_error(e)),
    {
        let entries = match self.read_directory_entries(dir_cluster) {
            Ok(v) => v,
            Err(e) => { return Err(e); },
        };
        let mut i: usize = 0;
        while i < entries.len()
            invariant
                self.wf(),
                self.geometry() == old(self).geometry(),
                self.disk_view() == old(self).disk_view(),
                i <= entries@.len(),
                dir_short_entries(old(self).geometry(), old(self).disk_view(), dir_cluster as int) == Some(entries@),
                only_dot_entries(entries@.subrange(0, i as int)),
            decreases entries@.len() - i,
        {
            let entry = entries[i];
            if (entry.attributes / ATTR_VOLUME_ID) % 2 == 1 || entry.attributes == ATTR_LONG_NAME {
                assert(only_dot_entries(entries@.subrange(0, i + 1))) by {
                    assert forall|k: int| 0 <= k < i + 1 implies (attr_bit(#[trigger] entries@.subrange(0, i + 1)[k].attributes, ATTR_VOLUME_ID) || entries@.subrange(0, i + 1)[k].attributes == ATTR_LONG_NAME || is_dot_name(entries@.subrange(0, i + 1)[k])) by {
                        if k < i {
                            assert(entries@.subrange(0, i + 1)[k] == entries@.subrange(0, i as int)[k]);
                        }
                    }
                }
                i = i + 1;
                continue;
            }
            let is_dot = entry.name[0] == 46 && entry.name[1] == 32;
            let is_dotdot = entry.name[0] == 46 && entry.name[1] == 46 && entry.name[2] == 32;
            if !is_dot && !is_dotdot {
                assert(!only_dot_entries(entries@)) by {
                    assert(entries@[i as int] == entry);
                }
                return Ok(false);
            }
            assert(only_dot_entries(entries@.subrange(0, i + 1))) by {
                assert forall|k: int| 0 <= k < i + 1 implies (attr_bit(#[trigger] entries@.subrange(0, i + 1)[k].attributes, ATTR_VOLUME_ID) || entries@.subrange(0, i + 1)[k].attributes == ATTR_LONG_NAME || is_dot_name(entries@.subrange(0, i + 1)[k])) by {
                    if k < i {
                        assert(entries@.subrange(0, i + 1)[k] == entries@.subrange(0, i as int)[k]);
                    }
                }
            }
            i = i + 1;
        }
        assert(entries@.subrange(0, entries@.len() as int) =~= entries@);
        Ok(true)
    }

    /// The cluster of the subdirectory `dirname` of the directory at
    /// `current_cluster`; `.` is the directory itself and `..` its parent.
    pub fn navigate_to_directory(&mut self, current_cluster: u32, dirname: &str) -> (r: Result<u32, &'static str>)
        requires
            old(self).wf(),
        ensures
            final(self).wf(),
            final(self).geometry() == old(self).geometry(),
            final(self).disk_view() == old(self).disk_view(),
            dirname@ == "."@ ==> r == Ok::<u32, &'static str>(current_cluster),
            r matches Ok(c) ==> dirname@ == ".."@ ==> (dir_short_entries(old(self).geometry(), old(self).disk_view(), current_cluster as int) matches Some(es)
                && find_dotdot(es) == Some(c)),
            r matches Ok(c) ==> dirname@ != "."@ && dirname@ != ".."@ ==> (lookup(old(self).geometry(), old(self).disk_view(), current_cluster as int, dirname@) matches Some(Some(f))
                && f.is_directory && c == f.first_cluster),
            dirname@ == ".."@ && current_cluster < CLUSTER_LIMIT
                && (dir_short_entries(old(self).geometry(), old(self).disk_view(), current_cluster as int) matches Some(es) && find_dotdot(es) is Some)
                ==> (r matches Err(e) ==> D::device_error(e)),
            dirname@ != "."@ && dirname@ != ".."@ && current_cluster < CLUSTER_LIMIT
                && (lookup(old(self).geometry(), old(self).disk_view(), current_cluster as int, dirname@) matches Some(Some(f)) && f.is_directory)
                ==> (r matches Err(e) ==> D::device_error(e)),
    {
        proof {
            reveal_strlit(".");
            reveal_strlit("..");
        }
        let name = crate::text::chars_of(dirname);
        if name.len() == 1 && name[0] == '.' {
            assert(dirname@ =~= "."@);
            return Ok(current_cluster);
        }
        if name.len() == 2 && name[0] == '.' && name[1] == '.' {
            assert(dirname@ =~= ".."@);
            let entries = match self.read_directory_entries(current_cluster) {
                Ok(v) => v,
                Err(e) => { return Err(e); },
            };
            let mut i: usize = 0;
            assert(entries@.subrange(0, entries@.len() as int) =~= entries@);
            while i < entries.len()
                invariant
                    self.wf(),
                    self.geometry() == old(self).geometry(),
                    self.disk_view() == old(self).disk_view(),
                    i <= entries@.len(),
                    dirname@ == ".."@,
                    dirname@ != "."@,
                    dir_short_entries(old(self).geometry(), old(self).disk_view(), current_cluster as int) == Some(entries@),
                    find_dotdot(entries@) == find_dotdot(entries@.subrange(i as int, entries@.len() as int)),
                decreases entries@.len() - i,
            {
                let entry = entries[i];
                let ghost rest = entries@.subrange(i as int, entries@.len() as int);
                assert(rest.drop_first() =~= entries@.subrange(i + 1, entries@.len() as int));
                if entry.name[0] == 46 && entry.name[1] == 46 && entry.name[2] == 32 {
                    let parent_cluster = entry.first_cluster_high as u32 * 65536 + entry.first_cluster_low as u32;
                    return Ok(parent_cluster);
                }
                i = i + 1;
            }
            return Err("Parent directory not found");
        }
        assert(dirname@ != "."@ && dirname@ != ".."@);
        let dir_entry = match self.find_file_in_directory(current_cluster, dirname) {
            Err(e) => { return Err(e); },
            Ok(None) => { return Err("Directory not found"); },
            Ok(Some(entry)) => entry,
        };
        if !dir_entry.is_directory {
            return Err("Not a directory");
        }
        assert(lookup(old(self).geometry(), old(self).disk_view(), current_cluster as int, dirname@) == Some(Some(dir_entry@)));
        Ok(dir_entry.first_cluster)
    }
}

/// A directory is empty only when every entry other than volume labels and
/// long-name slots is named `.` or `..`: an entry (file or subdirectory)
/// whose name does not start with a dot makes it non-empty, so
/// `delete_directory` refuses it; a directory holding only `.` and `..` is
/// empty.
pub proof fn lemma_named_entry_not_empty(es: Seq<DirectoryEntry>, i: int)
    requires
        0 <= i < es.len(),
        !attr_bit(es[i].attributes, ATTR_VOLUME_ID),
        es[i].attributes != ATTR_LONG_NAME,
        es[i].name[0] != 46u8,
    ensures
        !only_dot_entries(es),
{
    assert(es[i].name@[0] == es[i].name[0]);
    assert(!is_dot_name(es[i]));
}

/// Entries that are all `.` or `..` leave a directory empty.
pub proof fn lemma_dot_entries_empty(es: Seq<DirectoryEntry>)
    requires
        forall|i: int| 0 <= i < es.len() ==> (#[trigger] es[i]).name@[0] == 46 && (es[i].name@[1] == 32
            || (es[i].name@[1] == 46 && es[i].name@[2] == 32)),
    ensures
        only_dot_entries(es),
{
    assert forall|i: int| 0 <= i < es.len() implies (attr_bit(#[trigger] es[i].attributes, ATTR_VOLUME_ID) || es[i].attributes == ATTR_LONG_NAME || is_dot_name(es[i])) by {
        assert(es[i].name@[0] == 46);
    }
}

} // verus!
