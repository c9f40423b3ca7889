//! The uniform provider contract: a fixed operation set over opaque handle
//! ids, and the dispatcher that serves one packet by calling the provider
//! and writing the result word back into the frame.

use vstd::prelude::*;
use crate::error::{Error, SysResult, EBADF, EINVAL};
use crate::packet::{Packet, OP_CLOSE, OP_MKDIR, OP_OPEN, OP_READ, OP_SEEK, OP_SYNC, OP_TRUNCATE,
    OP_UNLINK, OP_WRITE};

verus! {

/// Seek from the start of the resource.
pub const SEEK_SET: usize = 0;

/// Seek from the current offset.
pub const SEEK_CUR: usize = 1;

/// Seek from the end of the resource.
pub const SEEK_END: usize = 2;

/// A provider in the scheme namespace: a fixed operation set over opaque,
/// non-zero handle ids, each provider owning its own handle table.
pub trait Scheme {
    /// The provider's internal soundness condition, preserved by every
    /// operation.
    spec fn inv(&self) -> bool;

    /// Whether `id` names a handle the provider holds open.
    spec fn has_handle(&self, id: usize) -> bool;

    /// Open `path` and return a fresh handle id.
    fn open(&mut self, path: &Vec<u8>, flags: usize, mode: usize) -> (r: SysResult)
        requires
            old(self).inv(),
        ensures
            final(self).inv(),
            r matches Ok(id) ==> id >= 1 && final(self).has_handle(id),
    ;

    /// Remove `path`.
    fn unlink(&mut self, path: &Vec<u8>) -> (r: SysResult)
        requires
            old(self).inv(),
        ensures
            final(self).inv(),
    ;

    /// Create the directory `path`.
    fn mkdir(&mut self, path: &Vec<u8>, mode: usize) -> (r: SysResult)
        requires
            old(self).inv(),
        ensures
            final(self).inv(),
    ;

    /// Read from the handle into the front of `buf`; 0 means end of file.
    /// An id naming no open handle answers the bad-handle error.
    fn read(&mut self, id: usize, buf: &mut Vec<u8>) -> (r: SysResult)
        requires
            old(self).inv(),
        ensures
            final(self).inv(),
            final(buf)@.len() == old(buf)@.len(),
            r matches Ok(n) ==> n <= old(buf)@.len(),
            !old(self).has_handle(id) ==> r == Err::<usize, Error>(Error { errno: EBADF }),
    ;

    /// Write `buf` at the handle's offset.
    fn write(&mut self, id: usize, buf: &Vec<u8>) -> (r: SysResult)
        requires
            old(self).inv(),
        ensures
            final(self).inv(),
            !old(self).has_handle(id) ==> r == Err::<usize, Error>(Error { errno: EBADF }),
    ;

    /// Move the handle's offset; `whence` is one of `SEEK_SET`, `SEEK_CUR`,
    /// `SEEK_END`.
    fn seek(&mut self, id: usize, pos: isize, whence: usize) -> (r: SysResult)
        requires
            old(self).inv(),
        ensures
            final(self).inv(),
            !old(self).has_handle(id) ==> r == Err::<usize, Error>(Error { errno: EBADF }),
    ;

    /// Flush the handle's buffer.
    fn sync(&mut self, id: usize) -> (r: SysResult)
        requires
            old(self).inv(),
        ensures
            final(self).inv(),
            !old(self).has_handle(id) ==> r == Err::<usize, Error>(Error { errno: EBADF }),
    ;

    /// Cut the handle's resource to `len` bytes.
    fn truncate(&mut self, id: usize, len: usize) -> (r: SysResult)
        requires
            old(self).inv(),
        ensures
            final(self).inv(),
            !old(self).has_handle(id) ==> r == Err::<usize, Error>(Error { errno: EBADF }),
    ;

    /// Flush and release the handle.
    fn close(&mut self, id: usize) -> (r: SysResult)
        requires
            old(self).inv(),
        ensures
            final(self).inv(),
            !old(self).has_handle(id) ==> r == Err::<usize, Error>(Error { errno: EBADF }),
    ;
}

/// How an operation's outcome is written into the packet's result word:
/// a value as itself (held to the word's range), an error as `-errno`.
pub open spec fn spec_result_word(r: SysResult) -> i64 {
    match r {
        Ok(v) => if v <= i64::MAX {
            v as i64
        } else {
            i64::MAX as i64
        },
        Err(e) => (-(e.errno as int)) as i64,
    }
}

/// Encode an operation's outcome as a result word.
pub fn result_word(r: &SysResult) -> (w: i64)
    ensures
        w == spec_result_word(*r),
{
    match r {
        Ok(v) => {
            if (*v as u64) <= i64::MAX as u64 {
                *v as i64
            } else {
                i64::MAX
            }
        },
        Err(e) => -(e.errno as i64),
    }
}

/// Serve one packet: dispatch on its op to the provider, then write the
/// outcome into the packet's result word, leaving every other field as the
/// client sent it. `payload` stands for the memory the packet's buffer
/// pointer names: the path for openers, the data for writes, the out-buffer
/// for reads. The reply carries the dispatched operation's outcome under
/// the provider contract: a fresh live handle for an open, the bad-handle
/// error whenever the addressed handle is not open, the out-buffer filled
/// in place for a read. An unknown op answers `-EINVAL` and touches
/// nothing.
pub fn handle<S: Scheme>(scheme: &mut S, packet: &mut Packet, payload: &mut Vec<u8>) -> (r:
    SysResult)
    requires
        old(scheme).inv(),
    ensures
        final(scheme).inv(),
        final(packet).op == old(packet).op,
        final(packet).handle == old(packet).handle,
        final(packet).a == old(packet).a,
        final(packet).b == old(packet).b,
        final(packet).c == old(packet).c,
        final(packet).result == spec_result_word(r),
        !(1 <= old(packet).op <= 9) ==> r == Err::<usize, Error>(Error { errno: EINVAL })
            && *final(payload) == *old(payload) && *final(scheme) == *old(scheme),
        old(packet).op != OP_READ ==> *final(payload) == *old(payload),
        old(packet).op == OP_OPEN ==> (r matches Ok(id) ==> id >= 1 && final(scheme).has_handle(
            id,
        )),
        old(packet).op == OP_READ ==> final(payload)@.len() == old(payload)@.len() && (r matches
            Ok(n) ==> n <= old(payload)@.len()) && (!old(scheme).has_handle(
            old(packet).handle as usize,
        ) ==> r == Err::<usize, Error>(Error { errno: EBADF })),
        (old(packet).op == OP_WRITE || old(packet).op == OP_SEEK || old(packet).op == OP_SYNC
            || old(packet).op == OP_TRUNCATE || old(packet).op == OP_CLOSE) && !old(
            scheme,
        ).has_handle(old(packet).handle as usize) ==> r == Err::<usize, Error>(
            Error { errno: EBADF },
        ),
{
    let id = packet.handle as usize;
    let r: SysResult = if packet.op == OP_OPEN {
        scheme.open(payload, packet.b as usize, packet.c as usize)
    } else if packet.op == OP_UNLINK {
        scheme.unlink(payload)
    } else if packet.op == OP_MKDIR {
        scheme.mkdir(payload, packet.c as usize)
    } else if packet.op == OP_READ {
        scheme.read(id, payload)
    } else if packet.op == OP_WRITE {
        scheme.write(id, payload)
    } else if packet.op == OP_SEEK {
        scheme.seek(id, packet.b as isize, packet.c as usize)
    } else if packet.op == OP_SYNC {
        scheme.sync(id)
    } else if packet.op == OP_TRUNCATE {
        scheme.truncate(id, packet.b as usize)
    } else if packet.op == OP_CLOSE {
        scheme.close(id)
    } else {
        Err(Error::new(EINVAL))
    };
    packet.result = result_word(&r);
    r
}

} // verus!
