//! A small demonstration provider: every open yields a fresh in-memory
//! file holding the text `Example`, read and written in place without
//! growing, with the offset clamped to the file.

use vstd::prelude::*;
use vstd::math::{max, min};
use crate::error::{Error, SysResult, EBADF, EINVAL, ENOENT};
use crate::handle_table::{has_id, HandleTable};
use crate::scheme::{Scheme, SEEK_CUR, SEEK_END, SEEK_SET};

verus! {

/// The ghost state of a demonstration file.
pub struct ExampleFileView {
    pub data: Seq<u8>,
    pub seek: int,
}

/// The bytes `Example`.
pub open spec fn spec_example_data() -> Seq<u8> {
    seq![69u8, 120u8, 97u8, 109u8, 112u8, 108u8, 101u8]
}

/// What a read of capacity `cap` leaves and returns.
pub open spec fn ex_read_model(m: ExampleFileView, cap: int) -> (ExampleFileView, int) {
    let n = min(cap, m.data.len() - m.seek);
    (ExampleFileView { data: m.data, seek: m.seek + n }, n)
}

/// What a write of `b` leaves and returns: bytes are overwritten in place
/// up to the end of the file, never appended.
pub open spec fn ex_write_model(m: ExampleFileView, b: Seq<u8>) -> (ExampleFileView, int) {
    let n = min(b.len() as int, m.data.len() - m.seek);
    (
        ExampleFileView {
            data: m.data.take(m.seek) + b.take(n) + m.data.skip(m.seek + n),
            seek: m.seek + n,
        },
        n,
    )
}

/// Where a seek lands: the requested target, held within the file.
pub open spec fn ex_seek_model(m: ExampleFileView, pos: isize, whence: usize) -> Option<int> {
    let t = if whence == 0 {
        pos as int
    } else if whence == 1 {
        m.seek + pos
    } else {
        m.data.len() + pos
    };
    if whence <= 2 {
        Some(min(max(0, t), m.data.len() as int))
    } else {
        None
    }
}

/// A demonstration file: a fixed-size buffer and an offset.
pub struct ExampleFile {
    pub data: Vec<u8>,
    pub seek: usize,
}

impl View for ExampleFile {
    type V = ExampleFileView;

    open spec fn view(&self) -> ExampleFileView {
        ExampleFileView { data: self.data@, seek: self.seek as int }
    }
}

impl ExampleFile {
    pub open spec fn wf(&self) -> bool {
        self.seek <= self.data@.len()
    }

    /// A fresh file holding `Example`, offset at the start.
    pub fn new() -> (r: ExampleFile)
        ensures
            r@.data == spec_example_data(),
            r@.seek == 0,
            r.wf(),
    {
        let mut data: Vec<u8> = Vec::new();
        data.push(69);
        data.push(120);
        data.push(97);
        data.push(109);
        data.push(112);
        data.push(108);
        data.push(101);
        proof {
            assert(data@ =~= spec_example_data());
        }
        ExampleFile { data, seek: 0 }
    }

    /// Copy bytes from the offset into the front of `buf` and advance.
    pub fn read(&mut self, buf: &mut Vec<u8>) -> (r: SysResult)
        requires
            old(self).wf(),
        ensures
            final(self).wf(),
            final(self)@ == ex_read_model(old(self)@, old(buf)@.len() as int).0,
            r == Ok::<usize, Error>(ex_read_model(old(self)@, old(buf)@.len() as int).1 as usize),
            final(buf)@ == old(self)@.data.subrange(
                old(self)@.seek,
                old(self)@.seek + ex_read_model(old(self)@, old(buf)@.len() as int).1,
            ) + old(buf)@.skip(ex_read_model(old(self)@, old(buf)@.len() as int).1),
    {
        let cap = buf.len();
        let n = self.data.len();
        let mut i: usize = 0;
        while i < cap && self.seek < n
            invariant
                i <= cap,
                self.data@ == old(self).data@,
                self.seek == old(self).seek + i,
                self.seek <= n,
                n == self.data@.len(),
                cap == old(buf)@.len(),
                buf@.len() == cap,
                buf@ =~= old(self).data@.subrange(old(self).seek as int, self.seek as int) + old(
                    buf,
                )@.skip(i as int),
            decreases cap - i,
        {
            buf.set(i, self.data[self.seek]);
            self.seek += 1;
            i += 1;
            proof {
                assert(buf@ =~= old(self).data@.subrange(old(self).seek as int, self.seek as int)
                    + old(buf)@.skip(i as int));
            }
        }
        Ok(i)
    }

    /// Overwrite bytes at the offset, stopping at the end of the file, and
    /// advance by what was taken.
    pub fn write(&mut self, buf: &Vec<u8>) -> (r: SysResult)
        requires
            old(self).wf(),
        ensures
            final(self).wf(),
            final(self)@ == ex_write_model(old(self)@, buf@).0,
            r == Ok::<usize, Error>(ex_write_model(old(self)@, buf@).1 as usize),
    {
        let cap = buf.len();
        let mut i: usize = 0;
        while i < cap && self.seek < self.data.len()
            invariant
                i <= cap,
                self.seek == old(self).seek + i,
                self.seek <= self.data@.len(),
                self.data@.len() == old(self).data@.len(),
                self.data@ =~= old(self).data@.take(old(self).seek as int) + buf@.subrange(
                    0,
                    i as int,
                ) + old(self).data@.skip(self.seek as int),
            decreases cap - i,
        {
            self.data.set(self.seek, buf[i]);
            self.seek += 1;
            i += 1;
            proof {
                assert(self.data@ =~= old(self).data@.take(old(self).seek as int) + buf@.subrange(
                    0,
                    i as int,
                ) + old(self).data@.skip(self.seek as int));
            }
        }
        proof {
            let m = ex_write_model(old(self)@, buf@);
            assert(buf@.take(i as int) =~= buf@.subrange(0, i as int));
            assert(final(self)@.data =~= m.0.data);
        }
        Ok(i)
    }

    /// Move the offset, held within the file; an unknown `whence` answers
    /// the invalid-argument error.
    pub fn seek(&mut self, pos: isize, whence: usize) -> (r: SysResult)
        requires
            old(self).wf(),
        ensures
            final(self).wf(),
            final(self)@.data == old(self)@.data,
            match ex_seek_model(old(self)@, pos, whence) {
                Some(t) => final(self)@.seek == t && r == Ok::<usize, Error>(t as usize),
                None => *final(self) == *old(self) && r == Err::<usize, Error>(
                    Error { errno: EINVAL },
                ),
            },
    {
        let n = self.data.len();
        if whence > 2 {
            return Err(Error::new(EINVAL));
        }
        let t: i128 = if whence == SEEK_SET {
            pos as i128
        } else if whence == SEEK_CUR {
            self.seek as i128 + pos as i128
        } else {
            n as i128 + pos as i128
        };
        let clamped: usize = if t < 0 {
            0
        } else if t > n as i128 {
            n
        } else {
            t as usize
        };
        self.seek = clamped;
        Ok(clamped)
    }

    /// Nothing to flush.
    pub fn sync(&mut self) -> (r: SysResult)
        ensures
            *final(self) == *old(self),
            r == Ok::<usize, Error>(0),
    {
        Ok(0)
    }
}

/// The demonstration provider: a handle table of demonstration files.
pub struct ExampleScheme {
    pub files: HandleTable<ExampleFile>,
}

impl ExampleScheme {
    pub fn new() -> (r: ExampleScheme)
        ensures
            r.inv(),
            r.files@.len() == 0,
            r.files.spec_next_id() == 1,
    {
        ExampleScheme { files: HandleTable::new() }
    }
}

impl Scheme for ExampleScheme {
    open spec fn inv(&self) -> bool {
        &&& self.files.wf()
        &&& forall|i: int| 0 <= i < self.files@.len() ==> (#[trigger] self.files@[i]).1.wf()
    }

    open spec fn has_handle(&self, id: usize) -> bool {
        has_id(self.files@, id)
    }

    /// Every open files a fresh `Example` file, whatever the path; a table
    /// already holding every representable id answers the invalid-argument
    /// error.
    fn open(&mut self, path: &Vec<u8>, flags: usize, mode: usize) -> (r: SysResult)
        ensures
            old(self).files@.len() == usize::MAX ==> r == Err::<usize, Error>(
                Error { errno: EINVAL },
            ) && *final(self) == *old(self),
            old(self).files@.len() < usize::MAX ==> (r matches Ok(id) && id >= 1 && !has_id(
                old(self).files@,
                id,
            ) && final(self).files@ == old(self).files@.push((id, final(self).files@.last().1))
                && final(self).files@.last().1@.data == spec_example_data()
                && final(self).files@.last().1@.seek == 0 && (!has_id(
                old(self).files@,
                old(self).files.spec_next_id(),
            ) ==> id == old(self).files.spec_next_id()) && (has_id(
                old(self).files@,
                old(self).files.spec_next_id(),
            ) ==> forall|c: usize| 1 <= c < id ==> #[trigger] has_id(old(self).files@, c))
                && final(self).files.spec_next_id() as int == (if id >= isize::MAX as usize {
                1int
            } else {
                id + 1
            })),
    {
        if self.files.len() == usize::MAX {
            return Err(Error::new(EINVAL));
        }
        let ghost pre = self.files@;
        let id = self.files.insert(ExampleFile::new());
        proof {
            assert forall|i: int|
                0 <= i < self.files@.len() implies (#[trigger] self.files@[i]).1.wf() by {
                if i < pre.len() {
                    assert(self.files@[i] == pre[i]);
                }
            }
        }
        Ok(id)
    }

    /// Nothing can be unlinked.
    fn unlink(&mut self, path: &Vec<u8>) -> (r: SysResult)
        ensures
            *final(self) == *old(self),
            r == Err::<usize, Error>(Error { errno: ENOENT }),
    {
        Err(Error::new(ENOENT))
    }

    /// Nothing can be created.
    fn mkdir(&mut self, path: &Vec<u8>, mode: usize) -> (r: SysResult)
        ensures
            *final(self) == *old(self),
            r == Err::<usize, Error>(Error { errno: ENOENT }),
    {
        Err(Error::new(ENOENT))
    }

    /// Read from the handle's file into the front of `buf`.
    fn read(&mut self, id: usize, buf: &mut Vec<u8>) -> (r: SysResult)
        ensures
            !has_id(old(self).files@, id) ==> *final(self) == *old(self) && *final(buf) == *old(
                buf,
            ),
            has_id(old(self).files@, id) ==> exists|i: int|
                0 <= i < old(self).files@.len() && (#[trigger] old(self).files@[i]).0 == id && ({
                    let f = old(self).files@[i].1;
                    let m = ex_read_model(f@, old(buf)@.len() as int);
                    &&& final(self).files@ == old(self).files@.update(
                        i,
                        (id, final(self).files@[i].1),
                    )
                    &&& final(self).files@[i].1@ == m.0
                    &&& r == Ok::<usize, Error>(m.1 as usize)
                    &&& final(buf)@ == f@.data.subrange(f@.seek, f@.seek + m.1) + old(buf)@.skip(
                        m.1,
                    )
                }),
    {
        match self.files.index_of(id) {
            None => Err(Error::new(EBADF)),
            Some(i) => {
                let f = self.files.at_mut(i);
                f.read(buf)
            },
        }
    }

    /// Write into the handle's file at its offset, never growing it.
    fn write(&mut self, id: usize, buf: &Vec<u8>) -> (r: SysResult)
        ensures
            !has_id(old(self).files@, id) ==> *final(self) == *old(self),
            has_id(old(self).files@, id) ==> exists|i: int|
                0 <= i < old(self).files@.len() && (#[trigger] old(self).files@[i]).0 == id && ({
                    let f = old(self).files@[i].1;
                    let m = ex_write_model(f@, buf@);
                    &&& final(self).files@ == old(self).files@.update(
                        i,
                        (id, final(self).files@[i].1),
                    )
                    &&& final(self).files@[i].1@ == m.0
                    &&& r == Ok::<usize, Error>(m.1 as usize)
                }),
    {
        match self.files.index_of(id) {
            None => Err(Error::new(EBADF)),
            Some(i) => {
                let f = self.files.at_mut(i);
                f.write(buf)
            },
        }
    }

    /// Move the handle's offset, held within the file.
    fn seek(&mut self, id: usize, pos: isize, whence: usize) -> (r: SysResult)
        ensures
            !has_id(old(self).files@, id) ==> *final(self) == *old(self),
            has_id(old(self).files@, id) ==> exists|i: int|
                0 <= i < old(self).files@.len() && (#[trigger] old(self).files@[i]).0 == id && ({
                    let f = old(self).files@[i].1;
                    &&& final(self).files@ == old(self).files@.update(
                        i,
                        (id, final(self).files@[i].1),
                    )
                    &&& final(self).files@[i].1@.data == f@.data
                    &&& match ex_seek_model(f@, pos, whence) {
                        Some(t) => final(self).files@[i].1@.seek == t && r == Ok::<usize, Error>(
                            t as usize,
                        ),
                        None => final(self).files@[i].1@ == f@ && r == Err::<usize, Error>(
                            Error { errno: EINVAL },
                        ),
                    }
                }),
    {
        match self.files.index_of(id) {
            None => Err(Error::new(EBADF)),
            Some(i) => {
                let f = self.files.at_mut(i);
                f.seek(pos, whence)
            },
        }
    }

    /// Nothing to flush.
    fn sync(&mut self, id: usize) -> (r: SysResult)
        ensures
            !has_id(old(self).files@, id) ==> *final(self) == *old(self),
            has_id(old(self).files@, id) ==> final(self).files@ == old(self).files@ && r
                == Ok::<usize, Error>(0),
    {
        match self.files.index_of(id) {
            None => Err(Error::new(EBADF)),
            Some(i) => {
                let f = self.files.at_mut(i);
                let r = f.sync();
                proof {
                    assert(self.files@ =~= old(self).files@);
                }
                r
            },
        }
    }

    /// Truncation is not supported: every request answers the bad-handle
    /// error, live handle or not.
    fn truncate(&mut self, id: usize, len: usize) -> (r: SysResult)
        ensures
            *final(self) == *old(self),
            r == Err::<usize, Error>(Error { errno: EBADF }),
    {
        Err(Error::new(EBADF))
    }

    /// Release the handle.
    fn close(&mut self, id: usize) -> (r: SysResult)
        ensures
            !has_id(old(self).files@, id) ==> *final(self) == *old(self),
            has_id(old(self).files@, id) ==> r == Ok::<usize, Error>(0) && exists|i: int|
                0 <= i < old(self).files@.len() && (#[trigger] old(self).files@[i]).0 == id
                    && final(self).files@ == old(self).files@.remove(i),
    {
        match self.files.remove(id) {
            None => Err(Error::new(EBADF)),
            Some(_) => Ok(0),
        }
    }
}

} // verus!
