//! The sector-granular block device the filesystem runs on, modelled as a
//! byte array addressed in 512-byte sectors. Requests are limited to 65,535
//! sectors each; longer transfers go through the chunked range operations,
//! which issue full-size requests followed by a final short one. Transfers
//! are synchronous: a read returns with its data, and the queued-request
//! path a driver may offer is not modelled.

use vstd::prelude::*;
use crate::extent::Extent;

verus! {

/// A block device holding `data.len()` bytes, sector-addressed.
pub struct Disk {
    data: Vec<u8>,
}

impl View for Disk {
    type V = Seq<u8>;

    closed spec fn view(&self) -> Seq<u8> {
        self.data@
    }
}

impl Disk {
    /// A device over the given bytes.
    pub fn new(data: Vec<u8>) -> (r: Disk)
        ensures
            r@ == data@,
    {
        Disk { data }
    }

    /// Give the backing bytes up, ending the device.
    pub fn into_bytes(self) -> (r: Vec<u8>)
        ensures
            r@ == self@,
    {
        self.data
    }

    pub fn size(&self) -> (r: usize)
        ensures
            r == self@.len(),
    {
        self.data.len()
    }

    /// Whether a device answers at all: it must expose at least the boot
    /// sector and the header sector.
    pub open spec fn spec_identify(&self) -> bool {
        self@.len() >= 1024
    }

    #[verifier::when_used_as_spec(spec_identify)]
    pub fn identify(&self) -> (r: bool)
        ensures
            r == self.spec_identify(),
    {
        self.data.len() >= 1024
    }

    /// One read request: at most `u16::MAX` sectors.
    pub fn read(&self, block: u64, count: u16) -> (r: Vec<u8>)
        requires
            block * 512 + count * 512 <= self@.len(),
        ensures
            r@ == self@.subrange(block * 512, block * 512 + count * 512),
    {
        let n = self.data.len();
        assert(block * 512 + count * 512 <= n);
        let base: usize = (block * 512) as usize;
        let len: usize = (count as usize) * 512;
        let mut out: Vec<u8> = Vec::new();
        let mut i: usize = 0;
        while i < len
            invariant
                i <= len,
                out@ == self@.subrange(base as int, base + i),
            decreases len - i,
        {
            out.push(self.data[base + i]);
            assert(out@ =~= self@.subrange(base as int, base + i + 1));
            i += 1;
        }
        out
    }

    /// One write request: at most `u16::MAX` sectors, whole sectors only.
    pub fn write(&mut self, block: u64, count: u16, data: &Vec<u8>)
        requires
            block * 512 + count * 512 <= old(self)@.len(),
            data@.len() == count * 512,
        ensures
            final(self)@ == old(self)@.subrange(0, block * 512) + data@ + old(self)@.subrange(
                block * 512 + count * 512,
                old(self)@.len() as int,
            ),
    {
        let n = self.data.len();
        assert(block * 512 + count * 512 <= n);
        let base: usize = (block * 512) as usize;
        let len: usize = (count as usize) * 512;
        let mut i: usize = 0;
        while i < len
            invariant
                i <= len,
                self@.len() == old(self)@.len(),
                forall|j: int| 0 <= j < self@.len() && !(base <= j < base + i) ==> self@[j] == old(self)@[j],
                forall|j: int| base <= j < base + i ==> self@[j] == data@[j - base],
            decreases len - i,
        {
            self.data.set(base + i, data[i]);
            i += 1;
        }
        proof {
            assert(final(self)@ =~= old(self)@.subrange(0, block * 512) + data@ + old(self)@
                .subrange(block * 512 + count * 512, old(self)@.len() as int));
        }
    }

    /// Read a run of sectors of any length, chunked into requests of at most
    /// `MAX_REQUEST_SECTORS` sectors each.
    pub fn read_range(&self, block: u64, sectors: u64) -> (r: Vec<u8>)
        requires
            block * 512 + sectors * 512 <= self@.len(),
        ensures
            r@ == self@.subrange(block * 512, block * 512 + sectors * 512),
    {
        let n = self.data.len();
        assert(block * 512 + sectors * 512 <= n);
        let mut out: Vec<u8> = Vec::new();
        let mut done: u64 = 0;
        while done < sectors
            invariant
                done <= sectors,
                out@ == self@.subrange(block * 512, block * 512 + done * 512),
            decreases sectors - done,
        {
            let chunk: u16 = if sectors - done >= 65535 {
                65535
            } else {
                (sectors - done) as u16
            };
            let mut part = self.read(block + done, chunk);
            out.append(&mut part);
            assert(out@ =~= self@.subrange(block * 512, block * 512 + (done + chunk) * 512));
            done = done + chunk as u64;
        }
        out
    }

    /// Write a run of sectors of any length, chunked into requests of at most
    /// `MAX_REQUEST_SECTORS` sectors each.
    pub fn write_range(&mut self, block: u64, data: &Vec<u8>)
        requires
            data@.len() % 512 == 0,
            block * 512 + data@.len() <= old(self)@.len(),
        ensures
            final(self)@ == old(self)@.subrange(0, block * 512) + data@ + old(self)@.subrange(
                block * 512 + data@.len(),
                old(self)@.len() as int,
            ),
    {
        let n = self.data.len();
        let sectors: u64 = (data.len() / 512) as u64;
        assert(block * 512 + sectors * 512 <= n);
        let mut done: u64 = 0;
        let ghost start = block * 512;
        while done < sectors
            invariant
                done <= sectors,
                self@.len() == old(self)@.len(),
                forall|j: int|
                    0 <= j < self@.len() && !(start <= j < start + done * 512) ==> self@[j] == old(
                        self,
                    )@[j],
                forall|j: int| start <= j < start + done * 512 ==> self@[j] == data@[j - start],
            decreases sectors - done,
        {
            let chunk: u16 = if sectors - done >= 65535 {
                65535
            } else {
                (sectors - done) as u16
            };
            let mut part: Vec<u8> = Vec::new();
            let base: usize = (done * 512) as usize;
            let len: usize = (chunk as usize) * 512;
            let mut i: usize = 0;
            while i < len
                invariant
                    i <= len,
                    part@ == data@.subrange(base as int, base + i),
                decreases len - i,
            {
                part.push(data[base + i]);
                assert(part@ =~= data@.subrange(base as int, base + i + 1));
                i += 1;
            }
            self.write(block + done, chunk, &part);
            done = done + chunk as u64;
        }
        proof {
            assert(final(self)@ =~= old(self)@.subrange(0, block * 512) + data@ + old(self)@
                .subrange(block * 512 + data@.len(), old(self)@.len() as int));
        }
    }

    /// The bytes of an extent as the spec sees them: its byte length taken
    /// from the start of its first sector.
    pub open spec fn extent_bytes(disk: Seq<u8>, e: Extent) -> Seq<u8> {
        disk.subrange(e.block * 512, e.block * 512 + e.length)
    }

    /// Read an extent: its sectors, truncated to its byte length.
    pub fn read_extent(&self, e: &Extent) -> (r: Vec<u8>)
        requires
            e.in_range(self@.len() as int),
        ensures
            r@ == Disk::extent_bytes(self@, *e),
    {
        let n = self.data.len();
        assert(e.block * 512 + e.spec_sectors() * 512 <= n);
        let sectors = e.sectors();
        let mut out = self.read_range(e.block, sectors);
        out.truncate(e.length as usize);
        proof {
            assert(out@ =~= Disk::extent_bytes(self@, *e));
        }
        out
    }
}

} // verus!
