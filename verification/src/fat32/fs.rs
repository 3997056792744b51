//! The FAT32 filesystem: cluster chains, directories and files on a disk.
use vstd::prelude::*;
use crate::fat32::boot::{boot_at, boot_check, check_boot_sector, Fat32BootSector};
use crate::fat32::disk::DiskOperations;
use crate::fat32::entry::{le16, le32};
use crate::fat32::chain_laws::{lemma_concat_written, lemma_write_run};
use crate::fat32::fat_laws::{allocated, chain_freed, chain_from, chain_in_progress, fat_fits, freeing_at, lemma_alloc_done, lemma_free_next, lemma_free_step, lemma_free_stop, lemma_alloc_extend, lemma_alloc_mark_last, lemma_alloc_start};

verus! {

/// FAT value of a free cluster.
pub const CLUSTER_FREE: u32 = 0x00000000;
/// FAT value of a bad cluster.
pub const CLUSTER_BAD: u32 = 0x0FFFFFF7;
/// FAT values at or above this end a cluster chain.
pub const END_OF_CHAIN: u32 = 0x0FFFFFFF;
/// The bits of a FAT entry that hold the cluster number.
pub const CLUSTER_MASK: u32 = 0x0FFFFFFF;
/// Cluster numbers from here on cannot be turned into a FAT offset.
pub const CLUSTER_LIMIT: u32 = 0x40000000;
/// Upper bound on the length of a cluster chain that is not a cycle.
pub const MAX_CHAIN: u32 = 0x10000000;

/// The layout of a mounted volume.
pub struct Geometry {
    pub fat_start: int,
    pub data_start: int,
    pub sectors_per_cluster: int,
    pub fat_count: int,
    pub sectors_per_fat: int,
    pub total_sectors: int,
    pub root_cluster: u32,
}

/// The layout a boot sector describes.
pub open spec fn geometry_of(bs: Fat32BootSector) -> Geometry {
    Geometry {
        fat_start: bs.reserved_sectors as int,
        data_start: bs.reserved_sectors + bs.fat_count * bs.sectors_per_fat_32,
        sectors_per_cluster: bs.sectors_per_cluster as int,
        fat_count: bs.fat_count as int,
        sectors_per_fat: bs.sectors_per_fat_32 as int,
        total_sectors: bs.total_sectors_32 as int,
        root_cluster: bs.root_cluster,
    }
}

/// A layout the filesystem can work with.
pub open spec fn geometry_ok(g: Geometry) -> bool {
    &&& 1 <= g.sectors_per_cluster <= 255
    &&& 0 <= g.fat_start <= 0xFFFF
    &&& 0 <= g.fat_count <= 255
    &&& 1 <= g.sectors_per_fat <= 0xFFFF_FFFF
    &&& g.data_start == g.fat_start + g.fat_count * g.sectors_per_fat
    &&& g.data_start <= g.total_sectors <= 0xFFFF_FFFF
}

pub open spec fn cluster_size(g: Geometry) -> int {
    g.sectors_per_cluster * 512
}

/// Number of directory slots in a cluster.
pub open spec fn slots_per_cluster(g: Geometry) -> int {
    g.sectors_per_cluster * 16
}

/// First sector of a cluster (sector 0 for the reserved cluster numbers 0 and 1).
pub open spec fn cluster_sector(g: Geometry, c: int) -> int {
    if c < 2 {
        0
    } else {
        g.data_start + (c - 2) * g.sectors_per_cluster
    }
}

/// The bytes of `n` consecutive sectors starting at `start`.
pub open spec fn concat_sectors(d: Seq<Seq<u8>>, start: int, n: nat) -> Seq<u8>
    decreases n,
{
    if n == 0 {
        Seq::empty()
    } else {
        concat_sectors(d, start, (n - 1) as nat) + d[start + n - 1]
    }
}

/// The bytes of a cluster.
pub open spec fn cluster_bytes(g: Geometry, d: Seq<Seq<u8>>, c: int) -> Seq<u8> {
    concat_sectors(d, cluster_sector(g, c), g.sectors_per_cluster as nat)
}

/// Sector of the first FAT copy that holds the entry of cluster `c`.
pub open spec fn fat_sector(g: Geometry, c: int) -> int {
    g.fat_start + (4 * c) / 512
}

/// Sector of FAT copy `k` that holds the entry of cluster `c`.
pub open spec fn fat_copy_sector(g: Geometry, c: int, k: int) -> int {
    g.fat_start + k * g.sectors_per_fat + (4 * c) / 512
}

/// The FAT entry of cluster `c` in the first FAT copy (cluster number bits only).
pub open spec fn fat_entry(g: Geometry, d: Seq<Seq<u8>>, c: int) -> u32 {
    (le32(d[fat_sector(g, c)], (4 * c) % 512) % 0x10000000) as u32
}

/// The FAT sector holding `c`'s entry with that entry set to `value`, keeping
/// the entry's upper four bits.
pub open spec fn fat_sector_with(g: Geometry, d: Seq<Seq<u8>>, c: int, value: u32) -> Seq<u8> {
    let s = d[fat_sector(g, c)];
    let off = (4 * c) % 512;
    let nv = (le32(s, off) / 0x10000000) * 0x10000000 + value % 0x10000000;
    s.update(off, (nv % 256) as u8).update(off + 1, ((nv / 256) % 256) as u8).update(
        off + 2,
        ((nv / 65536) % 256) as u8,
    ).update(off + 3, (nv / 16777216) as u8)
}

/// `d` with the first `k` FAT copies of `c`'s entry sector replaced by `ns`.
pub open spec fn write_fat_copies(g: Geometry, d: Seq<Seq<u8>>, c: int, ns: Seq<u8>, k: nat) -> Seq<Seq<u8>>
    decreases k,
{
    if k == 0 {
        d
    } else {
        write_fat_copies(g, d, c, ns, (k - 1) as nat).update(fat_copy_sector(g, c, k - 1), ns)
    }
}

/// `d` with the `n` sectors from `start` replaced by consecutive 512-byte pieces of `data`.
pub open spec fn write_run(d: Seq<Seq<u8>>, start: int, data: Seq<u8>, n: nat) -> Seq<Seq<u8>>
    decreases n,
{
    if n == 0 {
        d
    } else {
        write_run(d, start, data, (n - 1) as nat).update(
            start + n - 1,
            data.subrange(512 * (n - 1), 512 * (n as int)),
        )
    }
}

/// `d` with cluster `c` overwritten by the first cluster-size bytes of `data`.
pub open spec fn write_cluster_spec(g: Geometry, d: Seq<Seq<u8>>, c: int, data: Seq<u8>) -> Seq<Seq<u8>> {
    write_run(d, cluster_sector(g, c), data, g.sectors_per_cluster as nat)
}

/// Sector 0 of `d` holds a boot sector of a FAT32 volume the filesystem can use:
/// the 0xAA55 signature, no FAT12/16 FAT size, a FAT32 FAT size, 512-byte
/// sectors, non-empty clusters and a data region inside the volume.
pub open spec fn mountable(d: Seq<Seq<u8>>) -> bool {
    d.len() > 0 && d[0].len() == 512 && {
        let b = d[0];
        &&& le16(b, 510) == 0xAA55
        &&& le16(b, 22) == 0
        &&& le32(b, 36) != 0
        &&& le16(b, 11) == 512
        &&& b[13] != 0
        &&& le16(b, 14) + b[16] * le32(b, 36) <= le32(b, 32)
    }
}

/// A FAT32 volume on a disk.
pub struct Fat32FileSystem<D: DiskOperations> {
    disk: D,
    boot_sector: Fat32BootSector,
    fat_start_sector: u64,
    data_start_sector: u64,
    sectors_per_cluster: u64,
    bytes_per_sector: u64,
}

impl<D: DiskOperations> Fat32FileSystem<D> {
    /// The layout of the volume.
    pub closed spec fn geometry(&self) -> Geometry {
        geometry_of(self.boot_sector)
    }

    /// The boot sector the volume was mounted with.
    pub closed spec fn boot(&self) -> Fat32BootSector {
        self.boot_sector
    }

    /// The contents of the underlying disk.
    pub closed spec fn disk_view(&self) -> Seq<Seq<u8>> {
        self.disk.sectors()
    }

    /// The cached layout agrees with the boot sector.
    pub closed spec fn wf(&self) -> bool {
        &&& geometry_ok(self.geometry())
        &&& self.fat_start_sector == self.geometry().fat_start
        &&& self.data_start_sector == self.geometry().data_start
        &&& self.sectors_per_cluster == self.geometry().sectors_per_cluster
        &&& self.bytes_per_sector == 512
        &&& self.boot_sector.bytes_per_sector == 512
    }

    /// A well-formed volume has a usable layout.
    pub proof fn lemma_wf_geometry(&self)
        requires
            self.wf(),
        ensures
            geometry_ok(self.geometry()),
    {
    }

    /// Mounts the FAT32 volume on `disk`.
    ///
    /// Fails when sector 0 cannot be read, lacks the 0xAA55 signature, describes
    /// a FAT12/16 volume, or describes a layout other than 512-byte sectors with
    /// clusters of at least one sector and a data region inside the volume.
    pub fn new(mut disk: D) -> (r: Result<Self, &'static str>)
        ensures
            match r {
                Ok(fs) => {
                    &&& fs.wf()
                    &&& fs.disk_view() == disk.sectors()
                    &&& mountable(disk.sectors())
                    &&& boot_at(disk.sectors()[0], fs.boot())
                    &&& fs.geometry() == geometry_of(fs.boot())
                    &&& boot_check(fs.boot()) is Ok
                    &&& exists|bs: Fat32BootSector| #[trigger] boot_at(disk.sectors()[0], bs) && fs.geometry() == geometry_of(bs)
                },
                Err(e) => D::device_error(e) || exists|bs: Fat32BootSector| #[trigger] boot_at(disk.sectors()[0], bs)
                    && boot_check(bs) == Err::<u64, &'static str>(e),
            },
            !mountable(disk.sectors()) ==> r is Err,
    {
        let ghost d0 = disk.sectors();
        let mut boot_sector_data: Vec<u8> = vec![0u8; 512];
        let rr = disk.read_sector(0, boot_sector_data.as_mut_slice());
        if rr.is_err() {
            return Err(rr.unwrap_err());
        }
        let boot_sector = Fat32BootSector::from_bytes(boot_sector_data.as_slice());
        let data_start_sector = match check_boot_sector(&boot_sector) {
            Ok(s) => s,
            Err(e) => { return Err(e); },
        };
        let fat_start_sector = boot_sector.reserved_sectors as u64;
        let fs = Fat32FileSystem {
            disk,
            boot_sector,
            fat_start_sector,
            data_start_sector,
            sectors_per_cluster: boot_sector.sectors_per_cluster as u64,
            bytes_per_sector: boot_sector.bytes_per_sector as u64,
        };
        assert(boot_at(d0[0], boot_sector));
        Ok(fs)
    }
}

proof fn lemma_concat_sectors_len(d: Seq<Seq<u8>>, start: int, n: nat)
    requires
        forall|k: int| 0 <= k < n ==> (#[trigger] d[start + k]).len() == 512,
    ensures
        concat_sectors(d, start, n).len() == 512 * n,
    decreases n,
{
    if n > 0 {
        lemma_concat_sectors_len(d, start, (n - 1) as nat);
        assert(d[start + (n - 1)].len() == 512);
    }
}

proof fn lemma_write_fat_copies_len(g: Geometry, d: Seq<Seq<u8>>, c: int, ns: Seq<u8>, k: nat)
    requires
        forall|j: int| 0 <= j < k ==> 0 <= #[trigger] fat_copy_sector(g, c, j) < d.len(),
    ensures
        write_fat_copies(g, d, c, ns, k).len() == d.len(),
    decreases k,
{
    if k > 0 {
        lemma_write_fat_copies_len(g, d, c, ns, (k - 1) as nat);
        assert(0 <= fat_copy_sector(g, c, k - 1) < d.len());
    }
}

/// After the FAT copies are written, the first copy holds the new sector.
pub proof fn lemma_fat_copies_first(g: Geometry, d: Seq<Seq<u8>>, c: int, ns: Seq<u8>, k: nat)
    requires
        geometry_ok(g),
        1 <= k,
        0 <= fat_sector(g, c) < d.len(),
        forall|j: int| 0 <= j < k ==> 0 <= #[trigger] fat_copy_sector(g, c, j) < d.len(),
    ensures
        write_fat_copies(g, d, c, ns, k)[fat_sector(g, c)] == ns,
    decreases k,
{
    lemma_write_fat_copies_len(g, d, c, ns, (k - 1) as nat);
    assert(0 <= fat_copy_sector(g, c, k - 1) < d.len());
    if k > 1 {
        lemma_fat_copies_first(g, d, c, ns, (k - 1) as nat);
        assert(fat_copy_sector(g, c, k - 1) != fat_sector(g, c)) by (nonlinear_arith)
            requires
                k >= 2,
                g.sectors_per_fat >= 1,
                fat_copy_sector(g, c, k - 1) == g.fat_start + (k - 1) * g.sectors_per_fat + (4 * c) / 512,
                fat_sector(g, c) == g.fat_start + (4 * c) / 512,
        ;
    } else {
        assert(fat_copy_sector(g, c, 0) == fat_sector(g, c)) by (nonlinear_arith)
            requires
                fat_copy_sector(g, c, 0) == g.fat_start + 0 * g.sectors_per_fat + (4 * c) / 512,
                fat_sector(g, c) == g.fat_start + (4 * c) / 512,
        ;
    }
}

impl<D: DiskOperations> Fat32FileSystem<D> {
    proof fn lemma_sector_bound(&self, cluster: u32)
        requires
            self.wf(),
        ensures
            cluster_sector(self.geometry(), cluster as int) + self.geometry().sectors_per_cluster <= 0xFFFF_FFFF + 0xFFFF_FFFF * 256,
    {
        let g = self.geometry();
        if cluster >= 2 {
            assert((cluster - 2) * g.sectors_per_cluster + g.sectors_per_cluster <= 0xFFFF_FFFF * 256) by (nonlinear_arith)
                requires
                    cluster <= 0xFFFF_FFFF,
                    1 <= g.sectors_per_cluster <= 255,
            ;
        }
    }

    /// The first sector of a cluster (0 for the reserved cluster numbers).
    pub fn cluster_to_sector(&self, cluster: u32) -> (s: u64)
        requires
            self.wf(),
        ensures
            s == cluster_sector(self.geometry(), cluster as int),
    {
        if cluster < 2 {
            return 0;
        }
        assert((cluster - 2) * self.sectors_per_cluster <= 0xFFFF_FFFF * 255) by (nonlinear_arith)
            requires
                cluster <= 0xFFFF_FFFF,
                self.sectors_per_cluster <= 255,
        ;
        self.data_start_sector + (cluster as u64 - 2) * self.sectors_per_cluster
    }

    /// Reads cluster `cluster` into the start of `buffer`.
    pub fn read_cluster(&mut self, cluster: u32, buffer: &mut [u8]) -> (r: Result<(), &'static str>)
        requires
            old(self).wf(),
        ensures
            final(self).wf(),
            final(self).geometry() == old(self).geometry(),
            final(self).disk_view() == old(self).disk_view(),
            final(buffer)@.len() == old(buffer)@.len(),
            r is Ok ==> old(buffer)@.len() >= cluster_size(old(self).geometry())
                && final(buffer)@.subrange(0, cluster_size(old(self).geometry()))
                == cluster_bytes(old(self).geometry(), old(self).disk_view(), cluster as int),
            old(buffer)@.len() < cluster_size(old(self).geometry()) ==> r == Err::<(), &'static str>("Buffer too small for cluster"),
            old(buffer)@.len() >= cluster_size(old(self).geometry()) ==> (r matches Err(e) ==> D::device_error(e)),
    {
        let sector = self.cluster_to_sector(cluster);
        let csize = self.sectors_per_cluster * self.bytes_per_sector;
        if buffer.len() < csize as usize {
            return Err("Buffer too small for cluster");
        }
        let ghost g = self.geometry();
        let ghost d = self.disk_view();
        proof { self.lemma_sector_bound(cluster); }
        let mut tmp: Vec<u8> = vec![0u8; 512];
        let mut i: u64 = 0;
        while i < self.sectors_per_cluster
            invariant
                self.wf(),
                self.geometry() == g,
                self.disk_view() == d,
                g == old(self).geometry(),
                d == old(self).disk_view(),
                i <= self.sectors_per_cluster,
                sector == cluster_sector(g, cluster as int),
                buffer@.len() == old(buffer)@.len(),
                buffer@.len() >= csize,
                csize == 512 * self.sectors_per_cluster,
                tmp@.len() == 512,
                sector + self.sectors_per_cluster <= 0xFFFF_FFFF + 0xFFFF_FFFF * 256,
                forall|k: int| 0 <= k < i ==> (#[trigger] d[sector + k]).len() == 512,
                buffer@.subrange(0, 512 * i) == concat_sectors(d, sector as int, i as nat),
            decreases self.sectors_per_cluster - i,
        {
            let rr = self.disk.read_sector(sector + i, tmp.as_mut_slice());
            if rr.is_err() {
                return rr;
            }
            let base = (i * 512) as usize;
            let ghost before = buffer@;
            let mut j: usize = 0;
            while j < 512
                invariant
                    j <= 512,
                    tmp@.len() == 512,
                    base == 512 * i,
                    base + 512 <= buffer@.len(),
                    buffer@.len() == before.len(),
                    forall|k: int| 0 <= k < base ==> buffer@[k] == before[k],
                    forall|k: int| 0 <= k < j ==> buffer@[base + k] == tmp@[k],
                decreases 512 - j,
            {
                buffer[base + j] = tmp[j];
                j = j + 1;
            }
            assert(buffer@.subrange(0, 512 * (i + 1)) =~= buffer@.subrange(0, 512 * i) + d[sector + i]) by {
                assert(buffer@.subrange(0, 512 * i) =~= before.subrange(0, 512 * i));
            }
            i = i + 1;
        }
        proof {
            assert(csize == cluster_size(g));
        }
        Ok(())
    }

    /// Writes the first cluster-size bytes of `buffer` to cluster `cluster`.
    pub fn write_cluster(&mut self, cluster: u32, buffer: &[u8]) -> (r: Result<(), &'static str>)
        requires
            old(self).wf(),
        ensures
            final(self).wf(),
            final(self).geometry() == old(self).geometry(),
            r is Ok ==> buffer@.len() >= cluster_size(old(self).geometry())
                && final(self).disk_view() == write_cluster_spec(old(self).geometry(), old(self).disk_view(), cluster as int, buffer@)
                && cluster_bytes(old(self).geometry(), final(self).disk_view(), cluster as int) == buffer@.subrange(0, cluster_size(old(self).geometry()))
                && cluster_sector(old(self).geometry(), cluster as int) + old(self).geometry().sectors_per_cluster <= old(self).disk_view().len(),
            buffer@.len() < cluster_size(old(self).geometry()) ==> r == Err::<(), &'static str>("Buffer too small for cluster")
                && final(self).disk_view() == old(self).disk_view(),
            buffer@.len() >= cluster_size(old(self).geometry()) ==> (r matches Err(e) ==> D::device_error(e)),
            final(self).disk_view().len() == old(self).disk_view().len(),
    {
        let sector = self.cluster_to_sector(cluster);
        let csize = self.sectors_per_cluster * self.bytes_per_sector;
        if buffer.len() < csize as usize {
            return Err("Buffer too small for cluster");
        }
        let ghost g = self.geometry();
        let ghost d = self.disk_view();
        proof { self.lemma_sector_bound(cluster); }
        let mut i: u64 = 0;
        while i < self.sectors_per_cluster
            invariant
                self.wf(),
                self.geometry() == g,
                g == old(self).geometry(),
                d == old(self).disk_view(),
                i <= self.sectors_per_cluster,
                sector == cluster_sector(g, cluster as int),
                buffer@.len() >= csize,
                csize == 512 * self.sectors_per_cluster,
                sector + self.sectors_per_cluster <= 0xFFFF_FFFF + 0xFFFF_FFFF * 256,
                self.disk_view() == write_run(d, sector as int, buffer@, i as nat),
                self.disk_view().len() == d.len(),
                i == 0 || sector + i <= d.len(),
            decreases self.sectors_per_cluster - i,
        {
            let lo = (i * 512) as usize;
            let piece = vstd::slice::slice_subrange(buffer, lo, lo + 512);
            let rr = self.disk.write_sector(sector + i, piece);
            if rr.is_err() {
                return rr;
            }
            i = i + 1;
        }
        proof {
            let spc = g.sectors_per_cluster as nat;
            lemma_write_run(d, sector as int, buffer@, spc);
            lemma_concat_written(self.disk_view(), sector as int, buffer@, spc);
        }
        Ok(())
    }

    /// The FAT entry of `cluster` (its cluster-number bits).
    ///
    /// Cluster numbers from `CLUSTER_LIMIT` on have no FAT offset and are refused.
    pub fn get_next_cluster(&mut self, cluster: u32) -> (r: Result<u32, &'static str>)
        requires
            old(self).wf(),
        ensures
            final(self).wf(),
            final(self).geometry() == old(self).geometry(),
            final(self).disk_view() == old(self).disk_view(),
            r matches Ok(v) ==> cluster < CLUSTER_LIMIT && fat_sector(old(self).geometry(), cluster as int) < old(self).disk_view().len()
                && old(self).disk_view()[fat_sector(old(self).geometry(), cluster as int)].len() == 512
                && v == fat_entry(old(self).geometry(), old(self).disk_view(), cluster as int),
            cluster >= CLUSTER_LIMIT ==> r == Err::<u32, &'static str>("Invalid cluster number"),
            cluster < CLUSTER_LIMIT ==> (r matches Err(e) ==> D::device_error(e)),
            r matches Ok(v) ==> v < 0x10000000,
    {
        if cluster >= CLUSTER_LIMIT {
            return Err("Invalid cluster number");
        }
        let fat_offset = cluster * 4;
        let fsec = self.fat_start_sector + (fat_offset as u64 / self.bytes_per_sector);
        let sector_offset = (fat_offset as u64 % self.bytes_per_sector) as usize;
        let mut sector_buffer: Vec<u8> = vec![0u8; 512];
        let rr = self.disk.read_sector(fsec, sector_buffer.as_mut_slice());
        if rr.is_err() {
            return Err(rr.unwrap_err());
        }
        let b0 = sector_buffer[sector_offset] as u64;
        let b1 = sector_buffer[sector_offset + 1] as u64;
        let b2 = sector_buffer[sector_offset + 2] as u64;
        let b3 = sector_buffer[sector_offset + 3] as u64;
        let raw = b0 + 256 * b1 + 65536 * b2 + 16777216 * b3;
        Ok((raw % 0x10000000) as u32)
    }

    /// Sets the FAT entry of `cluster` to `value` (cluster-number bits only,
    /// keeping the entry's upper four bits) in every FAT copy.
    pub fn update_fat_entry(&mut self, cluster: u32, value: u32) -> (r: Result<(), &'static str>)
        requires
            old(self).wf(),
        ensures
            final(self).wf(),
            final(self).geometry() == old(self).geometry(),
            final(self).disk_view().len() == old(self).disk_view().len(),
            r is Ok ==> cluster < CLUSTER_LIMIT && fat_sector(old(self).geometry(), cluster as int) < old(self).disk_view().len()
                && old(self).disk_view()[fat_sector(old(self).geometry(), cluster as int)].len() == 512
                && (forall|k: int| 0 <= k < old(self).geometry().fat_count ==> 0 <= #[trigger] fat_copy_sector(old(self).geometry(), cluster as int, k) < old(self).disk_view().len())
                && final(self).disk_view() == write_fat_copies(
                    old(self).geometry(),
                    old(self).disk_view(),
                    cluster as int,
                    fat_sector_with(old(self).geometry(), old(self).disk_view(), cluster as int, value),
                    old(self).geometry().fat_count as nat,
                ),
            cluster >= CLUSTER_LIMIT ==> r == Err::<(), &'static str>("Invalid cluster number")
                && final(self).disk_view() == old(self).disk_view(),
    {
        if cluster >= CLUSTER_LIMIT {
            return Err("Invalid cluster number");
        }
        let ghost g = self.geometry();
        let ghost d = self.disk_view();
        let fat_offset = cluster * 4;
        let fsec = self.fat_start_sector + (fat_offset as u64 / self.bytes_per_sector);
        let sector_offset = (fat_offset as u64 % self.bytes_per_sector) as usize;
        let mut sector_buffer: Vec<u8> = vec![0u8; 512];
        let rr = self.disk.read_sector(fsec, sector_buffer.as_mut_slice());
        if rr.is_err() {
            return rr;
        }
        let b0 = sector_buffer[sector_offset] as u64;
        let b1 = sector_buffer[sector_offset + 1] as u64;
        let b2 = sector_buffer[sector_offset + 2] as u64;
        let b3 = sector_buffer[sector_offset + 3] as u64;
        let existing = b0 + 256 * b1 + 65536 * b2 + 16777216 * b3;
        let new_value = (existing / 0x10000000) * 0x10000000 + (value as u64) % 0x10000000;
        sector_buffer.set(sector_offset, (new_value % 256) as u8);
        sector_buffer.set(sector_offset + 1, ((new_value / 256) % 256) as u8);
        sector_buffer.set(sector_offset + 2, ((new_value / 65536) % 256) as u8);
        sector_buffer.set(sector_offset + 3, (new_value / 16777216) as u8);
        assert(sector_buffer@ =~= fat_sector_with(g, d, cluster as int, value));
        let fat_count = self.boot_sector.fat_count;
        let spf = self.boot_sector.sectors_per_fat_32 as u64;
        let mut fat_copy: u8 = 0;
        while fat_copy < fat_count
            invariant
                self.wf(),
                self.geometry() == g,
                g == old(self).geometry(),
                d == old(self).disk_view(),
                fat_count == g.fat_count,
                spf == g.sectors_per_fat,
                fat_copy <= fat_count,
                cluster < CLUSTER_LIMIT,
                fat_offset == cluster * 4,
                fsec == fat_sector(g, cluster as int),
                fsec < d.len(),
                d[fsec as int].len() == 512,
                sector_buffer@ == fat_sector_with(g, d, cluster as int, value),
                forall|k: int| 0 <= k < fat_copy ==> 0 <= #[trigger] fat_copy_sector(g, cluster as int, k) < d.len(),
                self.disk_view() == write_fat_copies(g, d, cluster as int, sector_buffer@, fat_copy as nat),
                self.disk_view().len() == d.len(),
            decreases fat_count - fat_copy,
        {
            assert(fat_copy as u64 * spf <= 255 * 0xFFFF_FFFF) by (nonlinear_arith)
                requires
                    fat_copy <= 255,
                    spf <= 0xFFFF_FFFF,
            ;
            let fat_sector_copy = self.fat_start_sector + (fat_copy as u64 * spf) + (fat_offset as u64 / self.bytes_per_sector);
            assert(fat_sector_copy == fat_copy_sector(g, cluster as int, fat_copy as int));
            let rr = self.disk.write_sector(fat_sector_copy, sector_buffer.as_slice());
            if rr.is_err() {
                return rr;
            }
            fat_copy = fat_copy + 1;
        }
        Ok(())
    }
}

/// Number of data clusters the volume has room for.
pub open spec fn max_clusters(g: Geometry) -> int {
    (g.total_sectors - g.data_start) / g.sectors_per_cluster
}

pub open spec fn min_int(a: int, b: int) -> int {
    if a <= b { a } else { b }
}

pub open spec fn prepend(a: Seq<u8>, o: Option<Seq<u8>>) -> Option<Seq<u8>> {
    match o {
        Some(r) => Some(a + r),
        None => None,
    }
}

/// The first `remaining` bytes of the chain that starts at cluster `c`: one
/// cluster after another, stopping early when the chain ends.
pub open spec fn read_chain(g: Geometry, d: Seq<Seq<u8>>, c: int, remaining: nat) -> Seq<u8>
    decreases remaining,
    when g.sectors_per_cluster >= 1
{
    if remaining == 0 {
        Seq::empty()
    } else {
        let cs = cluster_size(g);
        let chunk = cluster_bytes(g, d, c).subrange(0, min_int(cs, remaining as int));
        if remaining <= cs {
            chunk
        } else {
            let nx = fat_entry(g, d, c);
            if nx >= END_OF_CHAIN {
                chunk
            } else {
                chunk + read_chain(g, d, nx as int, (remaining - cs) as nat)
            }
        }
    }
}

/// The disk after writing `data` along the chain that starts at cluster `c`,
/// each cluster receiving its slice of `data` padded with zeros; `None` when the
/// chain ends before the data does.
pub open spec fn write_chain(g: Geometry, d: Seq<Seq<u8>>, c: int, data: Seq<u8>) -> Option<Seq<Seq<u8>>>
    decreases data.len(),
    when g.sectors_per_cluster >= 1
{
    if data.len() == 0 {
        Some(d)
    } else {
        let cs = cluster_size(g);
        let n = min_int(cs, data.len() as int);
        let buf = data.subrange(0, n) + Seq::new((cs - n) as nat, |i: int| 0u8);
        let d1 = write_cluster_spec(g, d, c, buf);
        if data.len() <= cs {
            Some(d1)
        } else {
            let nx = fat_entry(g, d1, c);
            if nx >= END_OF_CHAIN {
                None
            } else {
                write_chain(g, d1, nx as int, data.subrange(cs, data.len() as int))
            }
        }
    }
}

impl<D: DiskOperations> Fat32FileSystem<D> {
    /// The lowest free cluster of the volume.
    pub fn find_free_cluster(&mut self) -> (r: Result<u32, &'static str>)
        requires
            old(self).wf(),
        ensures
            final(self).wf(),
            final(self).geometry() == old(self).geometry(),
            final(self).disk_view() == old(self).disk_view(),
            r matches Ok(c) ==> {
                let g = old(self).geometry();
                let d = old(self).disk_view();
                &&& 2 <= c < max_clusters(g)
                &&& fat_entry(g, d, c as int) == CLUSTER_FREE
                &&& forall|k: int| 2 <= k < c ==> fat_entry(g, d, k) != CLUSTER_FREE
            },
            (forall|k: int| 2 <= k < max_clusters(old(self).geometry()) ==> fat_entry(old(self).geometry(), old(self).disk_view(), k) != CLUSTER_FREE) ==> r is Err,
    {
        let ghost g = self.geometry();
        let ghost d = self.disk_view();
        let mut cluster: u32 = 2;
        let maxc = (self.boot_sector.total_sectors_32 - self.data_start_sector as u32)
            / self.boot_sector.sectors_per_cluster as u32;
        while cluster < maxc
            invariant
                self.wf(),
                self.geometry() == g,
                self.disk_view() == d,
                g == old(self).geometry(),
                d == old(self).disk_view(),
                maxc == max_clusters(g),
                2 <= cluster,
                forall|k: int| 2 <= k < cluster ==> fat_entry(g, d, k) != CLUSTER_FREE,
            decreases maxc - cluster,
        {
            let fe = self.get_next_cluster(cluster);
            match fe {
                Err(e) => { return Err(e); },
                Ok(v) => {
                    if v == CLUSTER_FREE {
                        return Ok(cluster);
                    }
                },
            }
            cluster = cluster + 1;
        }
        Err("No free clusters available")
    }

    /// Sets the FAT entry of `cluster` to `value`; on a volume whose FAT fits
    /// on the disk, no other entry and no cluster's bytes change.
    fn set_fat_entry(&mut self, cluster: u32, value: u32) -> (r: Result<(), &'static str>)
        requires
            old(self).wf(),
        ensures
            final(self).wf(),
            final(self).geometry() == old(self).geometry(),
            final(self).disk_view().len() == old(self).disk_view().len(),
            r is Ok && fat_fits(old(self).geometry()) && old(self).geometry().total_sectors <= old(self).disk_view().len()
                && cluster < max_clusters(old(self).geometry()) ==> {
                let g = old(self).geometry();
                let d0 = old(self).disk_view();
                let d1 = final(self).disk_view();
                &&& fat_entry(g, d1, cluster as int) == value % 0x10000000
                &&& forall|x: int| 0 <= x < max_clusters(g) && x != cluster ==> #[trigger] fat_entry(g, d1, x) == fat_entry(g, d0, x)
                &&& forall|x: int| 2 <= x < max_clusters(g) ==> #[trigger] cluster_bytes(g, d1, x) == cluster_bytes(g, d0, x)
            },
    {
        let ghost g = self.geometry();
        let ghost d = self.disk_view();
        let rr = self.update_fat_entry(cluster, value);
        proof {
            if rr is Ok && fat_fits(g) && g.total_sectors <= d.len() && cluster < max_clusters(g) {
                self.lemma_wf_geometry();
                crate::fat32::dir_chain::lemma_fat_update_frame(g, d, cluster as int, fat_sector_with(g, d, cluster as int, value), value);
            }
        }
        rr
    }

    /// Marks `num_clusters` free clusters as a new chain and returns its first cluster.
    ///
    /// Each cluster is marked as the end of the chain before the next one is
    /// searched for, so that the search does not hand out the same cluster twice.
    pub fn allocate_cluster_chain(&mut self, num_clusters: u32) -> (r: Result<u32, &'static str>)
        requires
            old(self).wf(),
        ensures
            final(self).wf(),
            final(self).geometry() == old(self).geometry(),
            final(self).disk_view().len() == old(self).disk_view().len(),
            num_clusters == 0 ==> r == Err::<u32, &'static str>("Cannot allocate zero clusters")
                && final(self).disk_view() == old(self).disk_view(),
            r matches Ok(first) ==> {
                let g = old(self).geometry();
                &&& num_clusters > 0
                &&& 2 <= first < max_clusters(g)
                &&& fat_entry(g, old(self).disk_view(), first as int) == CLUSTER_FREE
            },
            r matches Ok(first) ==> (fat_fits(old(self).geometry()) && old(self).geometry().total_sectors <= old(self).disk_view().len()
                ==> exists|cl: Seq<int>| allocated(old(self).geometry(), old(self).disk_view(), final(self).disk_view(), first as int, num_clusters as nat, cl)),
            r is Ok && fat_fits(old(self).geometry()) && old(self).geometry().total_sectors <= old(self).disk_view().len()
                ==> forall|x: int| 2 <= x < max_clusters(old(self).geometry())
                    ==> #[trigger] cluster_bytes(old(self).geometry(), final(self).disk_view(), x) == cluster_bytes(old(self).geometry(), old(self).disk_view(), x),
    {
        if num_clusters == 0 {
            return Err("Cannot allocate zero clusters");
        }
        let first_cluster = match self.find_free_cluster() {
            Ok(c) => c,
            Err(e) => { return Err(e); },
        };
        let ghost g = self.geometry();
        let ghost d0 = self.disk_view();
        let ghost ok = fat_fits(g) && g.total_sectors <= d0.len();
        let ghost mut cl: Seq<int> = seq![first_cluster as int];
        proof {
            lemma_alloc_start(g, d0, first_cluster as int);
        }
        let mut current_cluster = first_cluster;
        let mut i: u32 = 0;
        while i < num_clusters
            invariant
                self.wf(),
                self.geometry() == g,
                g == old(self).geometry(),
                d0 == old(self).disk_view(),
                self.disk_view().len() == d0.len(),
                i <= num_clusters,
                ok == (fat_fits(g) && g.total_sectors <= d0.len()),
                ok ==> chain_in_progress(g, d0, self.disk_view(), cl),
                ok ==> cl[0] == first_cluster && current_cluster == cl.last(),
                ok ==> 2 <= current_cluster < max_clusters(g),
                ok ==> (i < num_clusters ==> cl.len() == i + 1 && fat_entry(g, self.disk_view(), cl.last()) == CLUSTER_FREE),
                ok ==> (i == num_clusters ==> cl.len() == num_clusters && fat_entry(g, self.disk_view(), cl.last()) == END_OF_CHAIN),
                ok ==> forall|x: int| 2 <= x < max_clusters(g) ==> #[trigger] cluster_bytes(g, self.disk_view(), x) == cluster_bytes(g, d0, x),
            decreases num_clusters - i,
        {
            let ghost d1 = self.disk_view();
            let rr = self.set_fat_entry(current_cluster, END_OF_CHAIN);
            if rr.is_err() {
                return Err(rr.unwrap_err());
            }
            proof {
                if ok {
                    lemma_alloc_mark_last(g, d0, d1, self.disk_view(), cl, END_OF_CHAIN);
                }
            }
            if i < num_clusters - 1 {
                let ghost d2 = self.disk_view();
                let next_cluster = match self.find_free_cluster() {
                    Ok(c) => c,
                    Err(e) => { return Err(e); },
                };
                let rr = self.set_fat_entry(current_cluster, next_cluster);
                if rr.is_err() {
                    return Err(rr.unwrap_err());
                }
                proof {
                    if ok {
                        lemma_alloc_extend(g, d0, d2, self.disk_view(), cl, next_cluster as int);
                        cl = cl.push(next_cluster as int);
                    }
                }
                current_cluster = next_cluster;
            }
            i = i + 1;
        }
        proof {
            if ok {
                lemma_alloc_done(g, d0, self.disk_view(), cl, first_cluster as int, num_clusters as nat);
            }
        }
        Ok(first_cluster)
    }

    /// Marks every cluster of the chain starting at `first_cluster` as free.
    ///
    /// Gives up with an error after 10000 clusters (a chain that long is taken
    /// to be a loop).
    pub fn free_cluster_chain(&mut self, first_cluster: u32) -> (r: Result<(), &'static str>)
        requires
            old(self).wf(),
        ensures
            final(self).wf(),
            final(self).geometry() == old(self).geometry(),
            final(self).disk_view().len() == old(self).disk_view().len(),
            first_cluster < 2 ==> r == Err::<(), &'static str>("Invalid cluster number for freeing")
                && final(self).disk_view() == old(self).disk_view(),
            r is Ok && fat_fits(old(self).geometry()) && old(self).geometry().total_sectors <= old(self).disk_view().len()
                ==> forall|cl: Seq<int>| #[trigger] chain_from(old(self).geometry(), old(self).disk_view(), first_cluster as int, cl)
                    ==> chain_freed(old(self).geometry(), old(self).disk_view(), final(self).disk_view(), cl),
    {
        if first_cluster < 2 {
            return Err("Invalid cluster number for freeing");
        }
        let ghost g = self.geometry();
        let ghost d0 = self.disk_view();
        let ghost ok = fat_fits(g) && g.total_sectors <= d0.len();
        let ghost mut w: Seq<int> = Seq::empty();
        proof {
            assert forall|cl: Seq<int>| #[trigger] chain_from(g, d0, first_cluster as int, cl)
                implies w.len() < cl.len() && first_cluster == cl[w.len() as int] && w == cl.subrange(0, w.len() as int)
                    && chain_freed(g, d0, d0, w) by {
                assert(w =~= cl.subrange(0, 0));
            }
        }
        let mut current_cluster = first_cluster;
        let mut iteration_count: u32 = 0;
        while current_cluster >= 2 && current_cluster < END_OF_CHAIN
            invariant_except_break
                ok ==> freeing_at(g, d0, self.disk_view(), first_cluster as int, w, current_cluster as int),
            invariant
                self.wf(),
                self.geometry() == g,
                g == old(self).geometry(),
                d0 == old(self).disk_view(),
                self.disk_view().len() == d0.len(),
                ok == (fat_fits(g) && g.total_sectors <= d0.len()),
                iteration_count <= 10000,
                first_cluster >= 2,
            ensures
                ok ==> forall|cl: Seq<int>| #[trigger] chain_from(g, d0, first_cluster as int, cl)
                    ==> chain_freed(g, d0, self.disk_view(), cl),
            decreases 10001 - iteration_count,
        {
            iteration_count = iteration_count + 1;
            if iteration_count > 10000 {
                return Err("Infinite loop detected in cluster chain");
            }
            let ghost d1 = self.disk_view();
            let next_cluster = match self.get_next_cluster(current_cluster) {
                Ok(c) => c,
                Err(e) => { return Err(e); },
            };
            let rr = self.update_fat_entry(current_cluster, CLUSTER_FREE);
            if rr.is_err() {
                return rr;
            }
            proof {
                self.lemma_wf_geometry();
                if ok {
                    lemma_free_step(g, d0, d1, self.disk_view(), first_cluster as int, w, current_cluster as int, next_cluster);
                }
                w = w.push(current_cluster as int);
            }
            if next_cluster >= END_OF_CHAIN {
                proof {
                    if ok {
                        lemma_free_stop(g, d0, self.disk_view(), first_cluster as int, w, next_cluster);
                    }
                }
                break;
            }
            if next_cluster < 2 {
                proof {
                    if ok {
                        lemma_free_stop(g, d0, self.disk_view(), first_cluster as int, w, next_cluster);
                    }
                }
                break;
            }
            proof {
                if ok {
                    lemma_free_next(g, d0, self.disk_view(), first_cluster as int, w, next_cluster);
                }
            }
            current_cluster = next_cluster;
        }
        Ok(())
    }

    /// Reads `file_size` bytes of the file whose chain starts at `first_cluster`
    /// (fewer when the chain ends first).
    pub fn read_file(&mut self, first_cluster: u32, file_size: u32) -> (r: Result<Vec<u8>, &'static str>)
        requires
            old(self).wf(),
        ensures
            final(self).wf(),
            final(self).geometry() == old(self).geometry(),
            final(self).disk_view() == old(self).disk_view(),
            r matches Ok(data) ==> data@ == read_chain(old(self).geometry(), old(self).disk_view(), first_cluster as int, file_size as nat),
            file_size == 0 ==> (r matches Ok(data) && data@.len() == 0),
            first_cluster < CLUSTER_LIMIT ==> (r matches Err(e) ==> D::device_error(e)),
    {
        let ghost g = self.geometry();
        let ghost d = self.disk_view();
        let mut file_data: Vec<u8> = Vec::new();
        let mut current_cluster = first_cluster;
        let csize = (self.sectors_per_cluster * self.bytes_per_sector) as usize;
        let mut bytes_read: u32 = 0;
        while bytes_read < file_size
            invariant
                self.wf(),
                self.geometry() == g,
                self.disk_view() == d,
                g == old(self).geometry(),
                d == old(self).disk_view(),
                csize == cluster_size(g),
                bytes_read <= file_size,
                file_data@.len() == bytes_read,
                file_data@ + read_chain(g, d, current_cluster as int, (file_size - bytes_read) as nat)
                    == read_chain(g, d, first_cluster as int, file_size as nat),
                current_cluster == first_cluster || current_cluster < END_OF_CHAIN,
            decreases file_size - bytes_read,
        {
            let mut cluster_buffer: Vec<u8> = vec![0u8; csize];
            let rr = self.read_cluster(current_cluster, cluster_buffer.as_mut_slice());
            if rr.is_err() {
                return Err(rr.unwrap_err());
            }
            let remaining = file_size - bytes_read;
            let bytes_to_read: usize = if (csize as u64) < remaining as u64 { csize } else { remaining as usize };
            let ghost before = file_data@;
            let ghost chunk = cluster_bytes(g, d, current_cluster as int).subrange(0, bytes_to_read as int);
            let mut j: usize = 0;
            assert(file_data@ =~= before + chunk.subrange(0, 0));
            while j < bytes_to_read
                invariant
                    j <= bytes_to_read <= csize,
                    cluster_buffer@.len() == csize,
                    cluster_buffer@.subrange(0, csize as int) == cluster_bytes(g, d, current_cluster as int),
                    file_data@ == before + chunk.subrange(0, j as int),
                    chunk == cluster_bytes(g, d, current_cluster as int).subrange(0, bytes_to_read as int),
                decreases bytes_to_read - j,
            {
                file_data.push(cluster_buffer[j]);
                assert(cluster_buffer@[j as int] == cluster_buffer@.subrange(0, csize as int)[j as int]);
                assert(chunk.subrange(0, j + 1) =~= chunk.subrange(0, j as int).push(chunk[j as int]));
                j = j + 1;
            }
            assert(chunk.subrange(0, bytes_to_read as int) =~= chunk);
            bytes_read = bytes_read + bytes_to_read as u32;
            if bytes_read >= file_size {
                assert(file_data@ =~= read_chain(g, d, first_cluster as int, file_size as nat)) by {
                    assert(read_chain(g, d, first_cluster as int, file_size as nat) == before + read_chain(g, d, current_cluster as int, remaining as nat));
                }
                return Ok(file_data);
            }
            let next_cluster = match self.get_next_cluster(current_cluster) {
                Ok(c) => c,
                Err(e) => { return Err(e); },
            };
            if next_cluster >= END_OF_CHAIN {
                assert(file_data@ =~= read_chain(g, d, first_cluster as int, file_size as nat)) by {
                    assert(read_chain(g, d, first_cluster as int, file_size as nat) == before + read_chain(g, d, current_cluster as int, remaining as nat));
                }
                return Ok(file_data);
            }
            assert(read_chain(g, d, current_cluster as int, remaining as nat) == chunk + read_chain(g, d, next_cluster as int, (file_size - bytes_read) as nat));
            assert(file_data@ + read_chain(g, d, next_cluster as int, (file_size - bytes_read) as nat) =~= before + read_chain(g, d, current_cluster as int, remaining as nat));
            current_cluster = next_cluster;
        }
        proof {
            if bytes_read == file_size {
                assert(file_data@ + Seq::<u8>::empty() =~= file_data@);
            }
        }
        Ok(file_data)
    }
}

impl<D: DiskOperations> Fat32FileSystem<D> {
    /// Writes `data` along the chain that starts at `first_cluster`.
    pub fn write_file(&mut self, first_cluster: u32, data: &[u8]) -> (r: Result<(), &'static str>)
        requires
            old(self).wf(),
        ensures
            final(self).wf(),
            final(self).geometry() == old(self).geometry(),
            final(self).disk_view().len() == old(self).disk_view().len(),
            r is Ok ==> first_cluster >= 2 && write_chain(old(self).geometry(), old(self).disk_view(), first_cluster as int, data@)
                == Some(final(self).disk_view()),
            first_cluster < 2 ==> r == Err::<(), &'static str>("Invalid cluster number for writing (cannot write to boot sector or FAT)")
                && final(self).disk_view() == old(self).disk_view(),
            2 <= first_cluster < CLUSTER_LIMIT && write_chain(old(self).geometry(), old(self).disk_view(), first_cluster as int, data@) is None
                ==> r == Err::<(), &'static str>("Unexpected end of cluster chain while writing") || (r matches Err(e) && D::device_error(e)),
    {
        if first_cluster < 2 {
            return Err("Invalid cluster number for writing (cannot write to boot sector or FAT)");
        }
        let ghost g = self.geometry();
        let csize = (self.sectors_per_cluster * self.bytes_per_sector) as usize;
        let mut current_cluster = first_cluster;
        let mut bytes_written: usize = 0;
        assert(data@.subrange(0, data@.len() as int) =~= data@);
        while bytes_written < data.len()
            invariant
                self.wf(),
                self.geometry() == g,
                g == old(self).geometry(),
                self.disk_view().len() == old(self).disk_view().len(),
                csize == cluster_size(g),
                first_cluster >= 2,
                bytes_written <= data@.len(),
                write_chain(g, old(self).disk_view(), first_cluster as int, data@)
                    == write_chain(g, self.disk_view(), current_cluster as int, data@.subrange(bytes_written as int, data@.len() as int)),
                current_cluster == first_cluster || current_cluster < END_OF_CHAIN,
            decreases data@.len() - bytes_written,
        {
            let ghost d = self.disk_view();
            let ghost rest = data@.subrange(bytes_written as int, data@.len() as int);
            let remaining = data.len() - bytes_written;
            let bytes_to_write = if csize < remaining { csize } else { remaining };
            let mut cluster_buffer: Vec<u8> = vec![0u8; csize];
            let mut j: usize = 0;
            while j < bytes_to_write
                invariant
                    j <= bytes_to_write <= csize,
                    bytes_written + bytes_to_write <= data@.len(),
                    data@.len() <= usize::MAX,
                    cluster_buffer@.len() == csize,
                    forall|k: int| 0 <= k < j ==> cluster_buffer@[k] == data@[bytes_written + k],
                    forall|k: int| j <= k < csize ==> cluster_buffer@[k] == 0u8,
                decreases bytes_to_write - j,
            {
                cluster_buffer.set(j, data[bytes_written + j]);
                j = j + 1;
            }
            let ghost buf = rest.subrange(0, bytes_to_write as int) + Seq::new((csize - bytes_to_write) as nat, |i: int| 0u8);
            assert(cluster_buffer@ =~= buf);
            let rr = self.write_cluster(current_cluster, cluster_buffer.as_slice());
            if rr.is_err() {
                return rr;
            }
            let ghost d1 = self.disk_view();
            assert(d1 == write_cluster_spec(g, d, current_cluster as int, buf));
            bytes_written = bytes_written + bytes_to_write;
            if bytes_written >= data.len() {
                assert(write_chain(g, d, current_cluster as int, rest) == Some(d1));
                return Ok(());
            }
            let next_cluster = match self.get_next_cluster(current_cluster) {
                Ok(c) => c,
                Err(e) => { return Err(e); },
            };
            if next_cluster >= END_OF_CHAIN {
                return Err("Unexpected end of cluster chain while writing");
            }
            assert(rest.subrange(csize as int, rest.len() as int) =~= data@.subrange(bytes_written as int, data@.len() as int));
            assert(write_chain(g, d, current_cluster as int, rest) == write_chain(g, d1, next_cluster as int, data@.subrange(bytes_written as int, data@.len() as int)));
            current_cluster = next_cluster;
        }
        proof {
            assert(data@.subrange(bytes_written as int, data@.len() as int) =~= Seq::<u8>::empty());
        }
        Ok(())
    }
}

impl<D: DiskOperations> Fat32FileSystem<D> {
    /// Size in bytes of a cluster.
    pub fn cluster_size_bytes(&self) -> (n: usize)
        requires
            self.wf(),
        ensures
            n == cluster_size(self.geometry()),
    {
        (self.sectors_per_cluster * self.bytes_per_sector) as usize
    }

    /// The first cluster of the root directory.
    pub fn get_root_cluster(&self) -> (c: u32)
        ensures
            c == self.geometry().root_cluster,
    {
        self.boot_sector.root_cluster
    }

    /// Whether `cluster` is the first cluster of the root directory.
    pub fn is_root_directory(&self, cluster: u32) -> (b: bool)
        ensures
            b == (cluster == self.geometry().root_cluster),
    {
        cluster == self.boot_sector.root_cluster
    }

    /// The boot sector the volume was mounted with.
    pub fn boot_sector(&self) -> (bs: Fat32BootSector)
        ensures
            bs == self.boot(),
            geometry_of(bs) == self.geometry(),
    {
        self.boot_sector
    }
}

} // verus!
