//! Error numbers shared by every provider, and the error value that
//! operations hand back through the transport.

use vstd::prelude::*;

verus! {

/// No entry with the requested name.
pub const ENOENT: u32 = 2;

/// The handle id names no open resource of the provider.
pub const EBADF: u32 = 9;

/// A malformed argument, such as an unknown `whence` value.
pub const EINVAL: u32 = 22;

/// A failed operation: a positive error number. The transport encodes it as
/// the negative result word `-errno`.
#[derive(Clone, Copy, Debug, PartialEq, Eq, Structural)]
pub struct Error {
    pub errno: u32,
}

impl Error {
    /// Well-formed errors carry a strictly positive number, so that the
    /// negative encoding cannot collide with a zero success value.
    pub open spec fn wf(self) -> bool {
        self.errno >= 1
    }

    pub fn new(errno: u32) -> (r: Error)
        requires
            errno >= 1,
        ensures
            r.errno == errno,
            r.wf(),
    {
        Error { errno }
    }
}

/// What a provider operation returns: a count or position on success,
/// an error number otherwise.
pub type SysResult = Result<usize, Error>;

} // verus!
