//! A RAM-backed block device of fixed-size sectors.
use vstd::prelude::*;

verus! {

/// Bytes per sector.
pub const SECTOR_SIZE: usize = 512;
/// Sectors on the virtual disk.
pub const DISK_SECTORS: usize = 4096;
/// Bytes on the virtual disk.
pub const DISK_SIZE: usize = 2097152;

/// The bytes of sector `s` of the disk image `d`.
pub open spec fn sector_bytes(d: Seq<u8>, s: int) -> Seq<u8> {
    d.subrange(s * 512, s * 512 + 512)
}

/// The disk image `d` with sector `s` replaced by the first sector's worth of `buf`.
pub open spec fn with_sector(d: Seq<u8>, s: int, buf: Seq<u8>) -> Seq<u8> {
    d.subrange(0, s * 512) + buf.subrange(0, 512) + d.subrange(s * 512 + 512, d.len() as int)
}

/// Sector `s` starts inside the disk and ends on or before its end.
pub proof fn lemma_sector_bounds(s: int)
    requires
        0 <= s < DISK_SECTORS,
    ensures
        0 <= s * 512,
        s * 512 + 512 <= DISK_SIZE,
{
    assert(s * 512 + 512 <= 4096 * 512) by (nonlinear_arith)
        requires s < 4096;
}

/// The virtual disk: a flat byte image of `DISK_SECTORS` sectors.
pub struct DiskDevice {
    pub storage: Vec<u8>,
}

impl DiskDevice {
    /// The image always has the full size.
    pub open spec fn wf(&self) -> bool {
        self.storage@.len() == DISK_SIZE
    }

    /// The bytes of the disk.
    pub open spec fn view(&self) -> Seq<u8> {
        self.storage@
    }

    /// A zero-filled disk.
    pub fn new() -> (d: DiskDevice)
        ensures
            d.wf(),
            d.view() == Seq::new(DISK_SIZE as nat, |i: int| 0u8),
    {
        let storage = vec![0u8; DISK_SIZE];
        let d = DiskDevice { storage };
        assert(d.view() =~= Seq::new(DISK_SIZE as nat, |i: int| 0u8));
        d
    }

    /// Copies sector `sector` into the first `SECTOR_SIZE` bytes of `buf`.
    pub fn read_sector(&self, sector: usize, buf: &mut Vec<u8>) -> (r: Result<(), String>)
        requires
            self.wf(),
        ensures
            sector >= DISK_SECTORS ==> (r matches Err(e) && e@ == "Sector out of bounds"@) && final(buf)@ == old(buf)@,
            sector < DISK_SECTORS && old(buf)@.len() < SECTOR_SIZE ==> (r matches Err(e) && e@ == "Buffer too small"@)
                && final(buf)@ == old(buf)@,
            sector < DISK_SECTORS && old(buf)@.len() >= SECTOR_SIZE ==> r is Ok
                && final(buf)@ == sector_bytes(self.view(), sector as int) + old(buf)@.subrange(512, old(buf)@.len() as int),
    {
        if sector >= DISK_SECTORS {
            return Err(String::from_str("Sector out of bounds"));
        }
        if buf.len() < SECTOR_SIZE {
            return Err(String::from_str("Buffer too small"));
        }
        proof { lemma_sector_bounds(sector as int); }
        let start = sector * SECTOR_SIZE;
        let ghost b0 = buf@;
        let mut i: usize = 0;
        while i < SECTOR_SIZE
            invariant
                self.wf(),
                start == sector * 512,
                start + 512 <= DISK_SIZE,
                i <= SECTOR_SIZE,
                buf@.len() == b0.len(),
                b0.len() >= 512,
                forall|k: int| 0 <= k < i ==> buf@[k] == self.storage@[start + k],
                forall|k: int| i <= k < b0.len() ==> buf@[k] == b0[k],
            decreases SECTOR_SIZE - i,
        {
            buf.set(i, self.storage[start + i]);
            i = i + 1;
        }
        assert(buf@ =~= sector_bytes(self.view(), sector as int) + b0.subrange(512, b0.len() as int));
        Ok(())
    }

    /// Overwrites sector `sector` with the first `SECTOR_SIZE` bytes of `buf`.
    pub fn write_sector(&mut self, sector: usize, buf: &[u8]) -> (r: Result<(), String>)
        requires
            old(self).wf(),
        ensures
            final(self).wf(),
            sector >= DISK_SECTORS ==> (r matches Err(e) && e@ == "Sector out of bounds"@) && final(self).view() == old(self).view(),
            sector < DISK_SECTORS && buf@.len() < SECTOR_SIZE ==> (r matches Err(e) && e@ == "Buffer too small"@)
                && final(self).view() == old(self).view(),
            sector < DISK_SECTORS && buf@.len() >= SECTOR_SIZE ==> r is Ok
                && final(self).view() == with_sector(old(self).view(), sector as int, buf@),
    {
        if sector >= DISK_SECTORS {
            return Err(String::from_str("Sector out of bounds"));
        }
        if buf.len() < SECTOR_SIZE {
            return Err(String::from_str("Buffer too small"));
        }
        proof { lemma_sector_bounds(sector as int); }
        let start = sector * SECTOR_SIZE;
        let ghost d0 = self.storage@;
        let mut i: usize = 0;
        while i < SECTOR_SIZE
            invariant
                start == sector * 512,
                start + 512 <= DISK_SIZE,
                i <= SECTOR_SIZE,
                buf@.len() >= 512,
                self.storage@.len() == d0.len(),
                d0.len() == DISK_SIZE,
                forall|k: int| 0 <= k < start ==> self.storage@[k] == d0[k],
                forall|k: int| start <= k < start + i ==> self.storage@[k] == buf@[k - start],
                forall|k: int| start + i <= k < d0.len() ==> self.storage@[k] == d0[k],
            decreases SECTOR_SIZE - i,
        {
            self.storage.set(start + i, buf[i]);
            i = i + 1;
        }
        assert(self.storage@ =~= with_sector(d0, sector as int, buf@));
        Ok(())
    }

    /// Number of sectors.
    pub fn size_sectors(&self) -> (r: usize)
        ensures
            r == DISK_SECTORS,
    {
        DISK_SECTORS
    }
}

/// A freshly attached, zero-filled disk.
pub fn init_disk() -> (d: DiskDevice)
    ensures
        d.wf(),
        d.view() == Seq::new(DISK_SIZE as nat, |i: int| 0u8),
{
    DiskDevice::new()
}

/// Reads a sector of `disk` into `buf` (see [`DiskDevice::read_sector`]).
pub fn read_block(disk: &DiskDevice, sector: usize, buf: &mut Vec<u8>) -> (r: Result<(), String>)
    requires
        disk.wf(),
    ensures
        sector >= DISK_SECTORS ==> (r matches Err(e) && e@ == "Sector out of bounds"@) && final(buf)@ == old(buf)@,
        sector < DISK_SECTORS && old(buf)@.len() < SECTOR_SIZE ==> (r matches Err(e) && e@ == "Buffer too small"@)
            && final(buf)@ == old(buf)@,
        sector < DISK_SECTORS && old(buf)@.len() >= SECTOR_SIZE ==> r is Ok
            && final(buf)@ == sector_bytes(disk.view(), sector as int) + old(buf)@.subrange(512, old(buf)@.len() as int),
{
    disk.read_sector(sector, buf)
}

/// Writes `buf` to a sector of `disk` (see [`DiskDevice::write_sector`]).
pub fn write_block(disk: &mut DiskDevice, sector: usize, buf: &[u8]) -> (r: Result<(), String>)
    requires
        old(disk).wf(),
    ensures
        final(disk).wf(),
        sector >= DISK_SECTORS ==> (r matches Err(e) && e@ == "Sector out of bounds"@) && final(disk).view() == old(disk).view(),
        sector < DISK_SECTORS && buf@.len() < SECTOR_SIZE ==> (r matches Err(e) && e@ == "Buffer too small"@)
            && final(disk).view() == old(disk).view(),
        sector < DISK_SECTORS && buf@.len() >= SECTOR_SIZE ==> r is Ok
            && final(disk).view() == with_sector(old(disk).view(), sector as int, buf@),
{
    disk.write_sector(sector, buf)
}

/// A write followed by a read of the same sector gives back what was written; other sectors
/// are untouched by the write.
pub proof fn lemma_disk_read_after_write(d: Seq<u8>, s: int, t: int, buf: Seq<u8>)
    requires
        d.len() == DISK_SIZE,
        0 <= s < DISK_SECTORS,
        0 <= t < DISK_SECTORS,
        buf.len() >= SECTOR_SIZE,
    ensures
        with_sector(d, s, buf).len() == DISK_SIZE,
        sector_bytes(with_sector(d, s, buf), s) == buf.subrange(0, 512),
        s != t ==> sector_bytes(with_sector(d, s, buf), t) == sector_bytes(d, t),
{
    lemma_sector_bounds(s);
    lemma_sector_bounds(t);
    let w = with_sector(d, s, buf);
    assert(sector_bytes(w, s) =~= buf.subrange(0, 512));
    if s != t {
        if t < s {
            assert(t * 512 + 512 <= s * 512) by (nonlinear_arith) requires t < s;
        } else {
            assert(s * 512 + 512 <= t * 512) by (nonlinear_arith) requires s < t;
        }
        assert(sector_bytes(w, t) =~= sector_bytes(d, t));
    }
}

} // verus!
