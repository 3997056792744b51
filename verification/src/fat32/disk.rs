//! Sector-addressed storage that the filesystem runs on.
use vstd::prelude::*;

verus! {

/// Size in bytes of the sectors the filesystem reads and writes.
pub const SECTOR_SIZE: usize = 512;

/// A device holding numbered sectors.
///
/// Implementations promise: a successful read fills the buffer with the
/// sector's bytes (so the buffer has the sector's length) and changes nothing;
/// a successful write replaces the sector with the buffer; a failed write
/// leaves the disk as it was; a failure reports one of the device's own
/// error messages. Whether an access succeeds is up to the device.
pub trait DiskOperations {
    /// The contents of the device, one byte sequence per sector.
    spec fn sectors(&self) -> Seq<Seq<u8>>;

    /// The messages with which the device reports a failed access.
    spec fn device_error(e: &'static str) -> bool;

    fn read_sector(&mut self, sector: u64, buffer: &mut [u8]) -> (r: Result<(), &'static str>)
        ensures
            final(self).sectors() == old(self).sectors(),
            final(buffer)@.len() == old(buffer)@.len(),
            r is Ok ==> sector < old(self).sectors().len() && final(buffer)@ == old(
                self,
            ).sectors()[sector as int],
            r matches Err(e) ==> Self::device_error(e),
    ;

    fn write_sector(&mut self, sector: u64, buffer: &[u8]) -> (r: Result<(), &'static str>)
        ensures
            r is Ok ==> sector < old(self).sectors().len() && buffer@.len() == old(
                self,
            ).sectors()[sector as int].len() && final(self).sectors() == old(self).sectors().update(
                sector as int,
                buffer@,
            ),
            r is Err ==> final(self).sectors() == old(self).sectors(),
            r matches Err(e) ==> Self::device_error(e),
    ;
}

/// A disk image held in memory.
pub struct RamDisk {
    data: Vec<Vec<u8>>,
}

impl RamDisk {
    /// A disk of `count` zeroed sectors of `SECTOR_SIZE` bytes.
    pub fn new(count: usize) -> (r: RamDisk)
        ensures
            r.sectors().len() == count,
            forall|i: int| 0 <= i < count ==> (#[trigger] r.sectors()[i]) == Seq::new(
                SECTOR_SIZE as nat,
                |j: int| 0u8,
            ),
    {
        let mut data: Vec<Vec<u8>> = Vec::new();
        let mut i: usize = 0;
        while i < count
            invariant
                i <= count,
                data@.len() == i,
                forall|k: int| 0 <= k < i ==> (#[trigger] data@[k])@ == Seq::new(
                    SECTOR_SIZE as nat,
                    |j: int| 0u8,
                ),
            decreases count - i,
        {
            let mut s: Vec<u8> = Vec::new();
            let mut j: usize = 0;
            while j < SECTOR_SIZE
                invariant
                    j <= SECTOR_SIZE,
                    s@ == Seq::new(j as nat, |k: int| 0u8),
                decreases SECTOR_SIZE - j,
            {
                s.push(0);
                j = j + 1;
                assert(s@ =~= Seq::new(j as nat, |k: int| 0u8));
            }
            data.push(s);
            i = i + 1;
        }
        RamDisk { data }
    }

    /// Number of sectors.
    pub fn sector_count(&self) -> (n: usize)
        ensures
            n == self.sectors().len(),
    {
        self.data.len()
    }
}

impl DiskOperations for RamDisk {
    closed spec fn sectors(&self) -> Seq<Seq<u8>> {
        self.data@.map_values(|s: Vec<u8>| s@)
    }

    open spec fn device_error(e: &'static str) -> bool {
        e == "Sector out of range" || e == "Buffer size must match the sector size"
    }

    fn read_sector(&mut self, sector: u64, buffer: &mut [u8]) -> (r: Result<(), &'static str>)
        ensures
            r is Ok <==> sector < old(self).sectors().len() && old(buffer)@.len() == old(
                self,
            ).sectors()[sector as int].len(),
            sector >= old(self).sectors().len() ==> r == Err::<(), &'static str>(
                "Sector out of range",
            ),
            sector < old(self).sectors().len() && old(buffer)@.len() != old(
                self,
            ).sectors()[sector as int].len() ==> r == Err::<(), &'static str>(
                "Buffer size must match the sector size",
            ),
            r is Err ==> final(buffer)@ == old(buffer)@,
    {
        if sector >= self.data.len() as u64 {
            return Err("Sector out of range");
        }
        let s = sector as usize;
        if buffer.len() != self.data[s].len() {
            return Err("Buffer size must match the sector size");
        }
        let mut i: usize = 0;
        while i < buffer.len()
            invariant
                s < self.data@.len(),
                s == sector,
                buffer@.len() == self.data@[s as int]@.len(),
                i <= buffer@.len(),
                forall|k: int| 0 <= k < i ==> buffer@[k] == self.data@[s as int]@[k],
            decreases buffer@.len() - i,
        {
            buffer[i] = self.data[s][i];
            i = i + 1;
        }
        assert(buffer@ =~= self.sectors()[sector as int]);
        Ok(())
    }

    fn write_sector(&mut self, sector: u64, buffer: &[u8]) -> (r: Result<(), &'static str>)
        ensures
            r is Ok <==> sector < old(self).sectors().len() && buffer@.len() == old(
                self,
            ).sectors()[sector as int].len(),
            sector >= old(self).sectors().len() ==> r == Err::<(), &'static str>(
                "Sector out of range",
            ),
            sector < old(self).sectors().len() && buffer@.len() != old(
                self,
            ).sectors()[sector as int].len() ==> r == Err::<(), &'static str>(
                "Buffer size must match the sector size",
            ),
    {
        if sector >= self.data.len() as u64 {
            return Err("Sector out of range");
        }
        let s = sector as usize;
        if buffer.len() != self.data[s].len() {
            return Err("Buffer size must match the sector size");
        }
        let mut copy: Vec<u8> = Vec::new();
        let mut i: usize = 0;
        while i < buffer.len()
            invariant
                i <= buffer@.len(),
                copy@ == buffer@.subrange(0, i as int),
            decreases buffer@.len() - i,
        {
            copy.push(buffer[i]);
            i = i + 1;
        }
        assert(copy@ =~= buffer@);
        let ghost before = self.data@;
        self.data.set(s, copy);
        assert(self.sectors() =~= before.map_values(|v: Vec<u8>| v@).update(sector as int, buffer@));
        Ok(())
    }
}

} // verus!
