//! An extent: a contiguous run of 512-byte sectors, identified by its first
//! sector and a byte length.

use vstd::prelude::*;

verus! {

/// Bytes in one disk sector.
pub const BLOCK_SIZE: u64 = 512;

/// The largest number of sectors a single disk request may carry; longer
/// transfers are chunked into several requests.
pub const MAX_REQUEST_SECTORS: u64 = 65535;

/// Whole sectors needed for `len` bytes, rounding up.
pub open spec fn sectors_for(len: int) -> int {
    len / 512 + if len % 512 == 0 {
        0int
    } else {
        1int
    }
}

/// A contiguous run of sectors on disk. `block == 0 || length == 0` marks an
/// unused slot.
#[derive(Clone, Copy, Debug, PartialEq, Eq, Structural)]
pub struct Extent {
    /// First sector of the run.
    pub block: u64,
    /// Length of the run in bytes.
    pub length: u64,
}

impl Extent {
    /// An extent slot that actually locates data.
    pub open spec fn spec_used(&self) -> bool {
        self.block > 0 && self.length > 0
    }

    #[verifier::when_used_as_spec(spec_used)]
    pub fn used(&self) -> (r: bool)
        ensures
            r == self.spec_used(),
    {
        self.block > 0 && self.length > 0
    }

    /// Whole sectors covered by the extent, rounding the byte length up.
    pub open spec fn spec_sectors(&self) -> int {
        sectors_for(self.length as int)
    }

    pub fn sectors(&self) -> (r: u64)
        ensures
            r == self.spec_sectors(),
    {
        self.length / 512 + if self.length % 512 == 0 {
            0
        } else {
            1
        }
    }

    /// Byte capacity of the extent: every byte of every sector it covers.
    pub open spec fn spec_capacity(self) -> int {
        self.spec_sectors() * 512
    }

    /// The extent lies wholly inside a disk of `disk_len` bytes.
    pub open spec fn in_range(self, disk_len: int) -> bool {
        self.block * 512 + self.spec_capacity() <= disk_len
    }

    /// Runtime check of `in_range`, immune to overflow.
    pub fn check_in_range(&self, disk_len: usize) -> (r: bool)
        ensures
            r == self.in_range(disk_len as int),
    {
        let sectors = self.sectors();
        (self.block as u128) * 512 + (sectors as u128) * 512 <= disk_len as u128
    }
}

} // verus!
