//! Creating, updating and deleting files and directories.
use vstd::prelude::*;
use crate::fat32::datetime::DateTime;
use crate::fat32::dir::{dir_short_entries, lookup, only_dot_entries};
use crate::fat32::dir_write::{entry_deleted, entry_refreshed, entry_written, name_taken, new_directory_cluster};
use crate::fat32::disk::DiskOperations;
use crate::fat32::file_entry::FileEntryView;
use crate::fat32::fs::{
    cluster_bytes, cluster_size, fat_entry, fat_sector_with, CLUSTER_LIMIT, max_clusters, read_chain, Fat32FileSystem, Geometry, CLUSTER_FREE, END_OF_CHAIN,
};
use crate::fat32::dir_chain::{
    dir_volume_ok, file_chain_ok, lemma_allocated_data_kept, lemma_fat_update_frame, lemma_rewrite_keeps_fat, lemma_rewrite_kept,
    lemma_new_cluster_kept, lemma_shrink_kept, stored_chain,
};
use crate::fat32::fat_laws::{allocated, chain_freed, chain_from, fat_fits, linked_chain};
use crate::text::chars_of;

verus! {

/// Number of clusters of `cluster_size` bytes that `len` bytes occupy.
pub open spec fn clusters_for(len: int, cluster_size: int) -> int {
    if len % cluster_size == 0 { len / cluster_size } else { len / cluster_size + 1 }
}

fn clusters_needed(len: usize, cluster_size: usize) -> (n: usize)
    requires
        cluster_size > 0,
    ensures
        n == clusters_for(len as int, cluster_size as int),
        n <= len,
        len > 0 ==> n > 0,
{
    assert(len / cluster_size <= len) by (nonlinear_arith)
        requires
            cluster_size > 0,
    ;
    if len % cluster_size != 0 {
        assert(len / cluster_size < len) by (nonlinear_arith)
            requires
                cluster_size > 0,
                len % cluster_size != 0,
        ;
        len / cluster_size + 1
    } else {
        if len > 0 {
            assert(len / cluster_size > 0) by (nonlinear_arith)
                requires
                    cluster_size > 0,
                    len > 0,
                    len % cluster_size == 0,
            ;
        }
        len / cluster_size
    }
}

/// The rewrites of a file that read back: emptying it, filling an empty
/// file, or rewriting a stored chain with at most as many clusters as before.
pub open spec fn rewrite_covered(g: Geometry, d: Seq<Seq<u8>>, dir: int, o: Option<Option<FileEntryView>>, new_len: int) -> bool {
    match o {
        Some(Some(f)) => new_len == 0 || f.first_cluster == 0
            || (file_chain_ok(g, d, dir, f.first_cluster as int, f.size as int)
                && clusters_for(new_len, cluster_size(g)) <= clusters_for(f.size as int, cluster_size(g))),
        _ => false,
    }
}

/// Walking a stored chain `cl`, rewritten from `d0` to `d1` without a change
/// to the FAT, to cut it after `m` clusters: the walk is at cluster `k - 1`.
pub open spec fn shrink_walk(g: Geometry, d0: Seq<Seq<u8>>, d1: Seq<Seq<u8>>, cl: Seq<int>, m: int, k: int, cur: int) -> bool {
    &&& fat_fits(g)
    &&& linked_chain(g, d0, cl)
    &&& 1 <= k <= m < cl.len()
    &&& cur == cl[k - 1]
    &&& forall|z: int| 0 <= z < max_clusters(g) ==> #[trigger] fat_entry(g, d1, z) == fat_entry(g, d0, z)
}

proof fn lemma_shrink_walk_step(g: Geometry, d0: Seq<Seq<u8>>, d1: Seq<Seq<u8>>, cl: Seq<int>, m: int, k: int, cur: int, next: u32)
    requires
        shrink_walk(g, d0, d1, cl, m, k, cur),
        k < m,
        next == fat_entry(g, d1, cur),
    ensures
        shrink_walk(g, d0, d1, cl, m, k + 1, next as int),
{
    assert(fat_entry(g, d0, cl[k - 1]) == cl[k]);
}

proof fn lemma_shrink_walk_end(g: Geometry, d0: Seq<Seq<u8>>, d1: Seq<Seq<u8>>, cl: Seq<int>, m: int, k: int, cur: int, next: u32)
    requires
        shrink_walk(g, d0, d1, cl, m, k, cur),
        k >= m,
        next == fat_entry(g, d1, cur),
    ensures
        cur == cl[m - 1],
        next == cl[m],
        next < END_OF_CHAIN,
        2 <= cur < max_clusters(g),
{
    assert(fat_entry(g, d0, cl[m - 1]) == cl[m]);
}

proof fn lemma_clusters_cover(len: int, cs: int)
    requires
        0 < cs,
        0 <= len,
    ensures
        len <= clusters_for(len, cs) * cs,
{
    assert(len <= clusters_for(len, cs) * cs) by (nonlinear_arith)
        requires
            0 < cs,
            0 <= len,
            clusters_for(len, cs) == if len % cs == 0 { len / cs } else { len / cs + 1 },
    {
        vstd::arithmetic::div_mod::lemma_fundamental_div_mod(len, cs);
    }
}

/// Going from disk `d0` to `d1`, the cluster chain starting at `first` was
/// released: nothing changed for a file without clusters (`first` 0), and on
/// a volume whose FAT fits on the disk every cluster of the chain is free.
#[verifier::opaque]
pub open spec fn chain_released(g: Geometry, d0: Seq<Seq<u8>>, d1: Seq<Seq<u8>>, first: u32) -> bool {
    &&& first == 0 ==> d1 == d0
    &&& first != 0 && fat_fits(g) && g.total_sectors <= d0.len()
        ==> forall|cl: Seq<int>| #[trigger] chain_from(g, d0, first as int, cl) ==> chain_freed(g, d0, d1, cl)
}

impl<D: DiskOperations> Fat32FileSystem<D> {
    /// Creates the file `filename` holding `data` in the directory at
    /// `dir_cluster`, stamped with `now`. An empty file gets no cluster.
    ///
    /// Fails with "File already exists" when the name (ignoring case) is taken.
    pub fn create_file(&mut self, dir_cluster: u32, filename: &str, data: &[u8], now: DateTime) -> (r: Result<(), &'static str>)
        requires
            old(self).wf(),
            now.year >= 1980,
        ensures
            final(self).wf(),
            final(self).geometry() == old(self).geometry(),
            final(self).disk_view().len() == old(self).disk_view().len(),
            name_taken(old(self).geometry(), old(self).disk_view(), dir_cluster as int, filename@)
                ==> r is Err && final(self).disk_view() == old(self).disk_view(),
            r is Ok ==> lookup(old(self).geometry(), old(self).disk_view(), dir_cluster as int, filename@) == Some(None::<FileEntryView>),
            r is Ok ==> exists|first: u32|
                #[trigger] entry_written(old(self).geometry(), final(self).disk_view(), filename@, first, data@.len() as u32, false, now)
                && (data@.len() == 0 ==> first == 0)
                && (data@.len() > 0 ==> 2 <= first < max_clusters(old(self).geometry())
                    && fat_entry(old(self).geometry(), old(self).disk_view(), first as int) == CLUSTER_FREE)
                && (dir_volume_ok(old(self).geometry(), old(self).disk_view(), dir_cluster as int) && data@.len() <= u32::MAX
                    ==> read_chain(old(self).geometry(), final(self).disk_view(), first as int, data@.len()) == data@),
            name_taken(old(self).geometry(), old(self).disk_view(), dir_cluster as int, filename@) && dir_cluster < CLUSTER_LIMIT
                ==> r == Err::<(), &'static str>("File already exists") || (r matches Err(e) && D::device_error(e)),
    {
        match self.find_file_in_directory(dir_cluster, filename) {
            Err(e) => { return Err(e); },
            Ok(Some(_)) => { return Err("File already exists"); },
            Ok(None) => {},
        }
        let ghost g = self.geometry();
        let ghost d0 = self.disk_view();
        let ghost ok = dir_volume_ok(g, d0, dir_cluster as int);
        let ghost mut d1 = d0;
        let ghost mut d2 = d0;
        let ghost mut cl: Seq<int> = Seq::empty();
        let ghost mut nc: nat = 0;
        let first_cluster = if data.len() == 0 {
            0
        } else {
            let cluster_size = self.cluster_size_bytes();
            proof {
                self.lemma_wf_geometry();
            }
            let num_clusters = clusters_needed(data.len(), cluster_size);
            if num_clusters == 0 {
                return Err("Cannot create empty file");
            }
            let first = match self.allocate_cluster_chain(num_clusters as u32) {
                Ok(c) => c,
                Err(e) => { return Err(e); },
            };
            proof {
                d1 = self.disk_view();
                nc = (num_clusters as u32) as nat;
                if ok && data@.len() <= u32::MAX {
                    cl = choose|cl: Seq<int>| allocated(g, d0, d1, first as int, nc, cl);
                    lemma_clusters_cover(data@.len() as int, cluster_size as int);
                }
            }
            let rr = self.write_file(first, data);
            if rr.is_err() {
                return rr;
            }
            proof {
                d2 = self.disk_view();
            }
            first
        };
        let name = chars_of(filename);
        let rr = self.create_directory_entry(dir_cluster, name.as_slice(), first_cluster, data.len() as u32, false, now);
        proof {
            if rr is Ok {
                self.lemma_wf_geometry();
                assert(entry_written(g, self.disk_view(), filename@, first_cluster, data@.len() as u32, false, now));
                if ok && data@.len() <= u32::MAX {
                    if data@.len() == 0 {
                        assert(read_chain(g, self.disk_view(), first_cluster as int, 0) =~= data@);
                    } else {
                        lemma_allocated_data_kept(g, d0, d1, d2, self.disk_view(), dir_cluster as int, first_cluster as int, nc, cl, data@);
                    }
                }
            }
        }
        rr
    }

    /// Replaces the contents of the file `filename` in the directory at
    /// `dir_cluster` with `new_data`, reusing its clusters, freeing those no
    /// longer needed or linking new ones to its chain, and updates its entry.
    ///
    /// Fails with "File not found in directory" when there is no such entry
    /// and with "Cannot update directory as file" when it is a directory.
    #[verifier::rlimit(60)]
    pub fn update_file(&mut self, dir_cluster: u32, filename: &str, new_data: &[u8], now: DateTime) -> (r: Result<(), &'static str>)
        requires
            old(self).wf(),
            now.year >= 1980,
        ensures
            final(self).wf(),
            final(self).geometry() == old(self).geometry(),
            final(self).disk_view().len() == old(self).disk_view().len(),
            lookup(old(self).geometry(), old(self).disk_view(), dir_cluster as int, filename@) == Some(None::<FileEntryView>)
                ==> r is Err && final(self).disk_view() == old(self).disk_view(),
            (lookup(old(self).geometry(), old(self).disk_view(), dir_cluster as int, filename@) matches Some(Some(f)) && f.is_directory)
                ==> r is Err && final(self).disk_view() == old(self).disk_view(),
            r is Ok ==> (lookup(old(self).geometry(), old(self).disk_view(), dir_cluster as int, filename@) matches Some(Some(f)) && !f.is_directory),
            r is Ok ==> exists|first: u32|
                #[trigger] entry_refreshed(old(self).geometry(), final(self).disk_view(), first, new_data@.len() as u32, now)
                && (new_data@.len() == 0 ==> first == 0)
                && (new_data@.len() > 0 ==> match lookup(old(self).geometry(), old(self).disk_view(), dir_cluster as int, filename@) {
                    Some(Some(f)) => if f.first_cluster == 0 {
                        2 <= first < max_clusters(old(self).geometry())
                            && fat_entry(old(self).geometry(), old(self).disk_view(), first as int) == CLUSTER_FREE
                    } else {
                        first == f.first_cluster
                    },
                    _ => true,
                })
                && (dir_volume_ok(old(self).geometry(), old(self).disk_view(), dir_cluster as int) && new_data@.len() <= u32::MAX
                    && rewrite_covered(old(self).geometry(), old(self).disk_view(), dir_cluster as int,
                        lookup(old(self).geometry(), old(self).disk_view(), dir_cluster as int, filename@), new_data@.len() as int)
                    ==> read_chain(old(self).geometry(), final(self).disk_view(), first as int, new_data@.len()) == new_data@),
            lookup(old(self).geometry(), old(self).disk_view(), dir_cluster as int, filename@) == Some(None::<FileEntryView>) && dir_cluster < CLUSTER_LIMIT
                ==> r == Err::<(), &'static str>("File not found in directory") || (r matches Err(e) && D::device_error(e)),
            (lookup(old(self).geometry(), old(self).disk_view(), dir_cluster as int, filename@) matches Some(Some(f)) && f.is_directory) && dir_cluster < CLUSTER_LIMIT
                ==> r == Err::<(), &'static str>("Cannot update directory as file") || (r matches Err(e) && D::device_error(e)),
    {
        let file_entry = match self.find_file_in_directory(dir_cluster, filename) {
            Err(e) => { return Err(e); },
            Ok(None) => { return Err("File not found in directory"); },
            Ok(Some(entry)) => entry,
        };
        if file_entry.is_directory {
            return Err("Cannot update directory as file");
        }
        let ghost g = self.geometry();
        let ghost d0 = self.disk_view();
        let ghost covered = dir_volume_ok(g, d0, dir_cluster as int) && new_data@.len() <= u32::MAX
            && rewrite_covered(g, d0, dir_cluster as int, Some(Some(file_entry@)), new_data@.len() as int);
        let ghost mut path: int = 0;
        let ghost mut d1 = d0;
        let ghost mut pre = d0;
        let ghost mut cl: Seq<int> = Seq::empty();
        let ghost mut nc: nat = 0;
        let ghost mut d2 = d0;
        proof {
            self.lemma_wf_geometry();
        }
        let cluster_size = self.cluster_size_bytes();
        assert(cluster_size <= 130560);
        let old_clusters_needed: u32 = if file_entry.size == 0 {
            0
        } else {
            clusters_needed(file_entry.size as usize, cluster_size) as u32
        };
        let new_clusters_needed: u32 = if new_data.len() == 0 {
            0
        } else {
            clusters_needed(new_data.len(), cluster_size) as u32
        };
        let new_first_cluster: u32 = if new_data.len() == 0 {
            if file_entry.first_cluster >= 2 {
                let rr = self.free_cluster_chain(file_entry.first_cluster);
                if rr.is_err() {
                    return rr;
                }
            }
            0
        } else if file_entry.first_cluster == 0 {
            let first = match self.allocate_cluster_chain(new_clusters_needed) {
                Ok(c) => c,
                Err(e) => { return Err(e); },
            };
            proof {
                d1 = self.disk_view();
                nc = new_clusters_needed as nat;
                if covered {
                    cl = choose|cl: Seq<int>| allocated(g, d0, d1, first as int, nc, cl);
                    lemma_clusters_cover(new_data@.len() as int, cluster_size as int);
                }
            }
            let rr = self.write_file(first, new_data);
            if rr.is_err() {
                return rr;
            }
            proof {
                path = 2;
                pre = self.disk_view();
            }
            first
        } else if new_clusters_needed == old_clusters_needed {
            let rr = self.write_file(file_entry.first_cluster, new_data);
            if rr.is_err() {
                return rr;
            }
            proof {
                path = 3;
                pre = self.disk_view();
                if covered {
                    cl = choose|cl: Seq<int>| #[trigger] stored_chain(g, d0, dir_cluster as int, file_entry@.first_cluster as int, file_entry@.size as int, cl);
                    lemma_clusters_cover(new_data@.len() as int, cluster_size as int);
                }
            }
            file_entry.first_cluster
        } else if new_clusters_needed < old_clusters_needed {
            proof {
                if covered {
                    cl = choose|cl: Seq<int>| #[trigger] stored_chain(g, d0, dir_cluster as int, file_entry@.first_cluster as int, file_entry@.size as int, cl);
                    lemma_clusters_cover(new_data@.len() as int, cluster_size as int);
                    assert(new_clusters_needed * cluster_size <= cl.len() * cluster_size) by (nonlinear_arith)
                        requires
                            new_clusters_needed < cl.len(),
                            cluster_size > 0,
                    ;
                }
            }
            let rr = self.write_file(file_entry.first_cluster, new_data);
            if rr.is_err() {
                return rr;
            }
            proof {
                d1 = self.disk_view();
                if covered {
                    lemma_rewrite_keeps_fat(g, d0, d1, cl, new_data@);
                }
            }
            let mut current_cluster = file_entry.first_cluster;
            let mut k: u32 = 1;
            while k < new_clusters_needed
                invariant
                    self.wf(),
                    self.geometry() == g,
                    g == old(self).geometry(),
                    self.disk_view().len() == old(self).disk_view().len(),
                    lookup(old(self).geometry(), old(self).disk_view(), dir_cluster as int, filename@) == Some(Some(file_entry@)),
                    !file_entry.is_directory,
                    1 <= k,
                    self.disk_view() == d1,
                    covered ==> shrink_walk(g, d0, d1, cl, new_clusters_needed as int, k as int, current_cluster as int),
                decreases new_clusters_needed - k,
            {
                let ghost prev = current_cluster;
                current_cluster = match self.get_next_cluster(current_cluster) {
                    Ok(c) => c,
                    Err(e) => { return Err(e); },
                };
                proof {
                    if covered {
                        lemma_shrink_walk_step(g, d0, d1, cl, new_clusters_needed as int, k as int, prev as int, current_cluster);
                    }
                }
                k = k + 1;
            }
            let first_cluster_to_free = match self.get_next_cluster(current_cluster) {
                Ok(c) => c,
                Err(e) => { return Err(e); },
            };
            let rr = self.update_fat_entry(current_cluster, END_OF_CHAIN);
            if rr.is_err() {
                return rr;
            }
            proof {
                d2 = self.disk_view();
                if covered {
                    lemma_shrink_walk_end(g, d0, d1, cl, new_clusters_needed as int, k as int, current_cluster as int, first_cluster_to_free);
                    lemma_fat_update_frame(g, d1, current_cluster as int, fat_sector_with(g, d1, current_cluster as int, END_OF_CHAIN), END_OF_CHAIN);
                }
            }
            if first_cluster_to_free < END_OF_CHAIN {
                let rr = self.free_cluster_chain(first_cluster_to_free);
                if rr.is_err() {
                    return rr;
                }
            }
            proof {
                path = 4;
                pre = self.disk_view();
            }
            file_entry.first_cluster
        } else {
            assert(old_clusters_needed as u64 * cluster_size as u64 <= 0xFFFF_FFFF * 130560) by (nonlinear_arith)
                requires
                    old_clusters_needed <= 0xFFFF_FFFF,
                    cluster_size <= 130560,
            ;
            let bytes_in_existing_clusters: u64 = old_clusters_needed as u64 * cluster_size as u64;
            let bytes_to_write_existing: usize = if (new_data.len() as u64) < bytes_in_existing_clusters {
                new_data.len()
            } else {
                bytes_in_existing_clusters as usize
            };
            if bytes_to_write_existing > 0 {
                let rr = self.write_file(file_entry.first_cluster, vstd::slice::slice_subrange(new_data, 0, bytes_to_write_existing));
                if rr.is_err() {
                    return rr;
                }
            }
            if new_data.len() as u64 > bytes_in_existing_clusters {
                let additional_clusters = new_clusters_needed - old_clusters_needed;
                let new_clusters_start = match self.allocate_cluster_chain(additional_clusters) {
                    Ok(c) => c,
                    Err(e) => { return Err(e); },
                };
                let mut last_existing_cluster = file_entry.first_cluster;
                let mut k: u32 = 1;
                while k < old_clusters_needed
                    invariant
                        self.wf(),
                        self.geometry() == g,
                        g == old(self).geometry(),
                        self.disk_view().len() == old(self).disk_view().len(),
                        lookup(old(self).geometry(), old(self).disk_view(), dir_cluster as int, filename@) == Some(Some(file_entry@)),
                        !file_entry.is_directory,
                        1 <= k,
                    decreases old_clusters_needed - k,
                {
                    last_existing_cluster = match self.get_next_cluster(last_existing_cluster) {
                        Ok(c) => c,
                        Err(e) => { return Err(e); },
                    };
                    k = k + 1;
                }
                let rr = self.update_fat_entry(last_existing_cluster, new_clusters_start);
                if rr.is_err() {
                    return rr;
                }
                let start = bytes_in_existing_clusters as usize;
                let rr = self.write_file(new_clusters_start, vstd::slice::slice_subrange(new_data, start, new_data.len()));
                if rr.is_err() {
                    return rr;
                }
            }
            file_entry.first_cluster
        };
        let rr = self.update_directory_entry(dir_cluster, filename, new_first_cluster, new_data.len() as u32, now);
        proof {
            if rr is Ok && covered {
                if new_data@.len() == 0 {
                    assert(read_chain(g, self.disk_view(), new_first_cluster as int, 0) =~= new_data@);
                } else if path == 2 {
                    lemma_allocated_data_kept(g, d0, d1, pre, self.disk_view(), dir_cluster as int, new_first_cluster as int, nc, cl, new_data@);
                } else if path == 3 {
                    lemma_rewrite_kept(g, d0, pre, self.disk_view(), dir_cluster as int, cl, new_data@);
                } else if path == 4 {
                    lemma_shrink_kept(g, d0, d1, d2, pre, self.disk_view(), dir_cluster as int, cl, new_clusters_needed as int, new_data@);
                }
            }
            reveal(entry_refreshed);
            if rr is Ok {
                assert(entry_refreshed(g, self.disk_view(), new_first_cluster, new_data@.len() as u32, now));
            }
        }
        rr
    }

    /// Deletes the file `filename` from the directory at `dir_cluster`: frees
    /// its clusters and marks its entries deleted.
    ///
    /// Fails with "File not found" when there is no such entry and with "Cannot
    /// delete directory using delete_file" when it is a directory.
    pub fn delete_file(&mut self, dir_cluster: u32, filename: &str) -> (r: Result<(), &'static str>)
        requires
            old(self).wf(),
        ensures
            final(self).wf(),
            final(self).geometry() == old(self).geometry(),
            final(self).disk_view().len() == old(self).disk_view().len(),
            lookup(old(self).geometry(), old(self).disk_view(), dir_cluster as int, filename@) == Some(None::<FileEntryView>)
                ==> r is Err && final(self).disk_view() == old(self).disk_view(),
            (lookup(old(self).geometry(), old(self).disk_view(), dir_cluster as int, filename@) matches Some(Some(f)) && f.is_directory)
                ==> r is Err && final(self).disk_view() == old(self).disk_view(),
            r is Ok ==> (lookup(old(self).geometry(), old(self).disk_view(), dir_cluster as int, filename@) matches Some(Some(f)) && !f.is_directory),
            r is Ok ==> (lookup(old(self).geometry(), old(self).disk_view(), dir_cluster as int, filename@) matches Some(Some(f))
                && exists|d1: Seq<Seq<u8>>| #[trigger] chain_released(old(self).geometry(), old(self).disk_view(), d1, f.first_cluster)
                    && entry_deleted(old(self).geometry(), d1, final(self).disk_view(), filename@)),
            lookup(old(self).geometry(), old(self).disk_view(), dir_cluster as int, filename@) == Some(None::<FileEntryView>) && dir_cluster < CLUSTER_LIMIT
                ==> r == Err::<(), &'static str>("File not found") || (r matches Err(e) && D::device_error(e)),
            (lookup(old(self).geometry(), old(self).disk_view(), dir_cluster as int, filename@) matches Some(Some(f)) && f.is_directory) && dir_cluster < CLUSTER_LIMIT
                ==> r == Err::<(), &'static str>("Cannot delete directory using delete_file") || (r matches Err(e) && D::device_error(e)),
    {
        let ghost g = self.geometry();
        let ghost d0 = self.disk_view();
        let file_entry = match self.find_file_in_directory(dir_cluster, filename) {
            Err(e) => { return Err(e); },
            Ok(None) => { return Err("File not found"); },
            Ok(Some(entry)) => entry,
        };
        if file_entry.is_directory {
            return Err("Cannot delete directory using delete_file");
        }
        if file_entry.first_cluster > 0 {
            let rr = self.free_cluster_chain(file_entry.first_cluster);
            if rr.is_err() {
                return rr;
            }
        }
        let ghost d1 = self.disk_view();
        assert(chain_released(g, d0, d1, file_entry.first_cluster)) by {
            reveal(chain_released);
        }
        let rr = self.mark_directory_entry_deleted(dir_cluster, filename);
        proof {
            if rr is Ok {
                assert(file_entry@.first_cluster == file_entry.first_cluster);
                assert(entry_deleted(g, d1, self.disk_view(), filename@));
            }
        }
        rr
    }

    /// Creates the file `filename` in the root directory (see `create_file`).
    pub fn create_file_in_root(&mut self, filename: &str, data: &[u8], now: DateTime) -> (r: Result<(), &'static str>)
        requires
            old(self).wf(),
            now.year >= 1980,
        ensures
            final(self).wf(),
            final(self).geometry() == old(self).geometry(),
            final(self).disk_view().len() == old(self).disk_view().len(),
            name_taken(old(self).geometry(), old(self).disk_view(), old(self).geometry().root_cluster as int, filename@)
                ==> r is Err && final(self).disk_view() == old(self).disk_view(),
            r is Ok ==> lookup(old(self).geometry(), old(self).disk_view(), old(self).geometry().root_cluster as int, filename@) == Some(None::<FileEntryView>),
            r is Ok ==> exists|first: u32|
                #[trigger] entry_written(old(self).geometry(), final(self).disk_view(), filename@, first, data@.len() as u32, false, now)
                && (data@.len() == 0 ==> first == 0)
                && (data@.len() > 0 ==> 2 <= first < max_clusters(old(self).geometry())
                    && fat_entry(old(self).geometry(), old(self).disk_view(), first as int) == CLUSTER_FREE)
                && (dir_volume_ok(old(self).geometry(), old(self).disk_view(), old(self).geometry().root_cluster as int) && data@.len() <= u32::MAX
                    ==> read_chain(old(self).geometry(), final(self).disk_view(), first as int, data@.len()) == data@),
    {
        let root = self.get_root_cluster();
        self.create_file(root, filename, data, now)
    }

    /// Deletes the file `filename` from the root directory (see `delete_file`).
    pub fn delete_file_from_root(&mut self, filename: &str) -> (r: Result<(), &'static str>)
        requires
            old(self).wf(),
        ensures
            final(self).wf(),
            final(self).geometry() == old(self).geometry(),
            final(self).disk_view().len() == old(self).disk_view().len(),
            lookup(old(self).geometry(), old(self).disk_view(), old(self).geometry().root_cluster as int, filename@) == Some(None::<FileEntryView>)
                ==> r is Err && final(self).disk_view() == old(self).disk_view(),
            (lookup(old(self).geometry(), old(self).disk_view(), old(self).geometry().root_cluster as int, filename@) matches Some(Some(f)) && f.is_directory)
                ==> r is Err && final(self).disk_view() == old(self).disk_view(),
            r is Ok ==> (lookup(old(self).geometry(), old(self).disk_view(), old(self).geometry().root_cluster as int, filename@) matches Some(Some(f)) && !f.is_directory),
            r is Ok ==> (lookup(old(self).geometry(), old(self).disk_view(), old(self).geometry().root_cluster as int, filename@) matches Some(Some(f))
                && exists|d1: Seq<Seq<u8>>| #[trigger] chain_released(old(self).geometry(), old(self).disk_view(), d1, f.first_cluster)
                    && entry_deleted(old(self).geometry(), d1, final(self).disk_view(), filename@)),
    {
        let root = self.get_root_cluster();
        self.delete_file(root, filename)
    }

    /// Replaces the contents of the file `filename` in the root directory (see `update_file`).
    pub fn update_file_in_root(&mut self, filename: &str, data: &[u8], now: DateTime) -> (r: Result<(), &'static str>)
        requires
            old(self).wf(),
            now.year >= 1980,
        ensures
            final(self).wf(),
            final(self).geometry() == old(self).geometry(),
            final(self).disk_view().len() == old(self).disk_view().len(),
            lookup(old(self).geometry(), old(self).disk_view(), old(self).geometry().root_cluster as int, filename@) == Some(None::<FileEntryView>)
                ==> r is Err && final(self).disk_view() == old(self).disk_view(),
            (lookup(old(self).geometry(), old(self).disk_view(), old(self).geometry().root_cluster as int, filename@) matches Some(Some(f)) && f.is_directory)
                ==> r is Err && final(self).disk_view() == old(self).disk_view(),
            r is Ok ==> (lookup(old(self).geometry(), old(self).disk_view(), old(self).geometry().root_cluster as int, filename@) matches Some(Some(f)) && !f.is_directory),
            r is Ok ==> exists|first: u32|
                #[trigger] entry_refreshed(old(self).geometry(), final(self).disk_view(), first, data@.len() as u32, now)
                && (data@.len() == 0 ==> first == 0)
                && (data@.len() > 0 ==> match lookup(old(self).geometry(), old(self).disk_view(), old(self).geometry().root_cluster as int, filename@) {
                    Some(Some(f)) => if f.first_cluster == 0 {
                        2 <= first < max_clusters(old(self).geometry())
                            && fat_entry(old(self).geometry(), old(self).disk_view(), first as int) == CLUSTER_FREE
                    } else {
                        first == f.first_cluster
                    },
                    _ => true,
                }),
    {
        let root = self.get_root_cluster();
        self.update_file(root, filename, data, now)
    }

    /// Creates the empty directory `dirname` (holding `.` and `..`) in the
    /// directory at `parent_cluster`, stamped with `now`.
    ///
    /// Fails with "Directory already exists" when the name is taken.
    pub fn create_directory(&mut self, parent_cluster: u32, dirname: &str, now: DateTime) -> (r: Result<(), &'static str>)
        requires
            old(self).wf(),
            now.year >= 1980,
        ensures
            final(self).wf(),
            final(self).geometry() == old(self).geometry(),
            final(self).disk_view().len() == old(self).disk_view().len(),
            name_taken(old(self).geometry(), old(self).disk_view(), parent_cluster as int, dirname@)
                ==> r is Err && final(self).disk_view() == old(self).disk_view(),
            r is Ok ==> lookup(old(self).geometry(), old(self).disk_view(), parent_cluster as int, dirname@) == Some(None::<FileEntryView>),
            r is Ok ==> exists|first: u32|
                #[trigger] entry_written(old(self).geometry(), final(self).disk_view(), dirname@, first, 0, true, now)
                && 2 <= first < max_clusters(old(self).geometry())
                && fat_entry(old(self).geometry(), old(self).disk_view(), first as int) == CLUSTER_FREE
                && (dir_volume_ok(old(self).geometry(), old(self).disk_view(), parent_cluster as int)
                    ==> cluster_bytes(old(self).geometry(), final(self).disk_view(), first as int)
                        == new_directory_cluster(old(self).geometry(), first, parent_cluster)),
            name_taken(old(self).geometry(), old(self).disk_view(), parent_cluster as int, dirname@) && parent_cluster < CLUSTER_LIMIT
                ==> r == Err::<(), &'static str>("Directory already exists") || (r matches Err(e) && D::device_error(e)),
    {
        match self.find_file_in_directory(parent_cluster, dirname) {
            Err(e) => { return Err(e); },
            Ok(Some(_)) => { return Err("Directory already exists"); },
            Ok(None) => {},
        }
        let ghost g = self.geometry();
        let ghost d0 = self.disk_view();
        let ghost ok = dir_volume_ok(g, d0, parent_cluster as int);
        let dir_cluster = match self.allocate_cluster_chain(1) {
            Ok(c) => c,
            Err(e) => { return Err(e); },
        };
        let ghost d1 = self.disk_view();
        let rr = self.initialize_directory_cluster(dir_cluster, parent_cluster);
        if rr.is_err() {
            return rr;
        }
        let ghost d2 = self.disk_view();
        let name = chars_of(dirname);
        let rr = self.create_directory_entry(parent_cluster, name.as_slice(), dir_cluster, 0, true, now);
        proof {
            if rr is Ok {
                assert(entry_written(g, self.disk_view(), dirname@, dir_cluster, 0, true, now));
                if ok {
                    let cl = choose|cl: Seq<int>| allocated(g, d0, d1, dir_cluster as int, 1, cl);
                    lemma_new_cluster_kept(g, d0, d1, d2, self.disk_view(), parent_cluster as int, dir_cluster as int, cl,
                        new_directory_cluster(g, dir_cluster, parent_cluster));
                }
            }
        }
        rr
    }

    /// Creates the directory `dirname` in the root directory (see `create_directory`).
    pub fn create_directory_in_root(&mut self, dirname: &str, now: DateTime) -> (r: Result<(), &'static str>)
        requires
            old(self).wf(),
            now.year >= 1980,
        ensures
            final(self).wf(),
            final(self).geometry() == old(self).geometry(),
            final(self).disk_view().len() == old(self).disk_view().len(),
            name_taken(old(self).geometry(), old(self).disk_view(), old(self).geometry().root_cluster as int, dirname@)
                ==> r is Err && final(self).disk_view() == old(self).disk_view(),
            r is Ok ==> lookup(old(self).geometry(), old(self).disk_view(), old(self).geometry().root_cluster as int, dirname@) == Some(None::<FileEntryView>),
            r is Ok ==> exists|first: u32|
                #[trigger] entry_written(old(self).geometry(), final(self).disk_view(), dirname@, first, 0, true, now)
                && 2 <= first < max_clusters(old(self).geometry())
                && fat_entry(old(self).geometry(), old(self).disk_view(), first as int) == CLUSTER_FREE,
    {
        let root = self.get_root_cluster();
        self.create_directory(root, dirname, now)
    }

    /// Deletes the empty directory `dirname` from the directory at
    /// `parent_cluster`: frees its clusters and marks its entries deleted.
    ///
    /// Fails with "Directory not found", "Not a directory", or "Directory not
    /// empty" (it holds more than `.` and `..`).
    pub fn delete_directory(&mut self, parent_cluster: u32, dirname: &str) -> (r: Result<(), &'static str>)
        requires
            old(self).wf(),
        ensures
            final(self).wf(),
            final(self).geometry() == old(self).geometry(),
            final(self).disk_view().len() == old(self).disk_view().len(),
            lookup(old(self).geometry(), old(self).disk_view(), parent_cluster as int, dirname@) == Some(None::<FileEntryView>)
                ==> r is Err && final(self).disk_view() == old(self).disk_view(),
            (lookup(old(self).geometry(), old(self).disk_view(), parent_cluster as int, dirname@) matches Some(Some(f)) && !f.is_directory)
                ==> r is Err && final(self).disk_view() == old(self).disk_view(),
            (lookup(old(self).geometry(), old(self).disk_view(), parent_cluster as int, dirname@) matches Some(Some(f))
                && (dir_short_entries(old(self).geometry(), old(self).disk_view(), f.first_cluster as int) matches Some(es) && !only_dot_entries(es)))
                ==> r is Err && final(self).disk_view() == old(self).disk_view(),
            r is Ok ==> (lookup(old(self).geometry(), old(self).disk_view(), parent_cluster as int, dirname@) matches Some(Some(f))
                && f.is_directory
                && (dir_short_entries(old(self).geometry(), old(self).disk_view(), f.first_cluster as int) matches Some(es) && only_dot_entries(es))),
            r is Ok ==> (lookup(old(self).geometry(), old(self).disk_view(), parent_cluster as int, dirname@) matches Some(Some(f))
                && exists|d1: Seq<Seq<u8>>| #[trigger] chain_released(old(self).geometry(), old(self).disk_view(), d1, f.first_cluster)
                    && entry_deleted(old(self).geometry(), d1, final(self).disk_view(), dirname@)),
            lookup(old(self).geometry(), old(self).disk_view(), parent_cluster as int, dirname@) == Some(None::<FileEntryView>) && parent_cluster < CLUSTER_LIMIT
                ==> r == Err::<(), &'static str>("Directory not found") || (r matches Err(e) && D::device_error(e)),
            (lookup(old(self).geometry(), old(self).disk_view(), parent_cluster as int, dirname@) matches Some(Some(f)) && !f.is_directory) && parent_cluster < CLUSTER_LIMIT
                ==> r == Err::<(), &'static str>("Not a directory") || (r matches Err(e) && D::device_error(e)),
    {
        let ghost g = self.geometry();
        let ghost d0 = self.disk_view();
        let dir_entry = match self.find_file_in_directory(parent_cluster, dirname) {
            Err(e) => { return Err(e); },
            Ok(None) => { return Err("Directory not found"); },
            Ok(Some(entry)) => entry,
        };
        if !dir_entry.is_directory {
            return Err("Not a directory");
        }
        match self.is_directory_empty(dir_entry.first_cluster) {
            Err(e) => { return Err(e); },
            Ok(false) => { return Err("Directory not empty"); },
            Ok(true) => {},
        }
        let rr = self.free_cluster_chain(dir_entry.first_cluster);
        if rr.is_err() {
            return rr;
        }
        let ghost d1 = self.disk_view();
        assert(chain_released(g, d0, d1, dir_entry.first_cluster)) by {
            reveal(chain_released);
        }
        let rr = self.mark_directory_entry_deleted(parent_cluster, dirname);
        proof {
            if rr is Ok {
                assert(dir_entry@.first_cluster == dir_entry.first_cluster);
                assert(entry_deleted(g, d1, self.disk_view(), dirname@));
            }
        }
        rr
    }

    /// Deletes the empty directory `dirname` from the root directory (see `delete_directory`).
    pub fn delete_directory_from_root(&mut self, dirname: &str) -> (r: Result<(), &'static str>)
        requires
            old(self).wf(),
        ensures
            final(self).wf(),
            final(self).geometry() == old(self).geometry(),
            final(self).disk_view().len() == old(self).disk_view().len(),
            lookup(old(self).geometry(), old(self).disk_view(), old(self).geometry().root_cluster as int, dirname@) == Some(None::<FileEntryView>)
                ==> r is Err && final(self).disk_view() == old(self).disk_view(),
            (lookup(old(self).geometry(), old(self).disk_view(), old(self).geometry().root_cluster as int, dirname@) matches Some(Some(f)) && !f.is_directory)
                ==> r is Err && final(self).disk_view() == old(self).disk_view(),
            r is Ok ==> (lookup(old(self).geometry(), old(self).disk_view(), old(self).geometry().root_cluster as int, dirname@) matches Some(Some(f))
                && f.is_directory
                && (dir_short_entries(old(self).geometry(), old(self).disk_view(), f.first_cluster as int) matches Some(es) && only_dot_entries(es))),
            r is Ok ==> (lookup(old(self).geometry(), old(self).disk_view(), old(self).geometry().root_cluster as int, dirname@) matches Some(Some(f))
                && exists|d1: Seq<Seq<u8>>| #[trigger] chain_released(old(self).geometry(), old(self).disk_view(), d1, f.first_cluster)
                    && entry_deleted(old(self).geometry(), d1, final(self).disk_view(), dirname@)),
    {
        let root = self.get_root_cluster();
        self.delete_directory(root, dirname)
    }
}

} // verus!
