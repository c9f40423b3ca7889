//! Open resources: the per-open file buffer with overwrite-and-extend
//! write semantics, the synthesized read-only byte resource, and the
//! distinguished resource a failed open yields.

use vstd::prelude::*;
use vstd::math::{max, min};
use crate::disk::Disk;
use crate::extent::{sectors_for, Extent};
use crate::layout::{Node, NodeView};
use crate::url::{Url, UrlView};
use crate::util::bytes_slice;

verus! {

/// How `stat` reports a resource.
#[derive(Clone, Copy, Debug, PartialEq, Eq, Structural)]
pub enum ResourceType {
    File,
    Dir,
}

/// Where a seek is measured from.
#[derive(Clone, Copy, Debug, PartialEq, Eq, Structural)]
pub enum ResourceSeek {
    /// From the start of the buffer.
    Start(usize),
    /// From the current offset.
    Current(isize),
    /// From the end of the buffer.
    End(isize),
}

/// The ghost state of an open file: the node snapshot, the whole file
/// contents, the byte offset, and whether the buffer has unflushed writes.
pub struct FileResourceView {
    pub node: NodeView,
    pub data: Seq<u8>,
    pub seek: int,
    pub dirty: bool,
}

/// `len` zero bytes.
pub open spec fn zeros(len: int) -> Seq<u8> {
    Seq::new(len as nat, |i: int| 0u8)
}

/// What a read of capacity `cap` returns and the state it leaves: the bytes
/// from the offset, at most `cap` and at most what remains, offset advanced.
pub open spec fn read_model(m: FileResourceView, cap: int) -> (FileResourceView, Seq<u8>) {
    let n = min(cap, m.data.len() - m.seek);
    (
        FileResourceView { node: m.node, data: m.data, seek: m.seek + n, dirty: m.dirty },
        m.data.subrange(m.seek, m.seek + n),
    )
}

/// The state a write of `b` leaves: bytes at the offset overwritten, any
/// remainder appended, offset advanced by `b.len()`, buffer marked dirty
/// unless `b` is empty.
pub open spec fn write_model(m: FileResourceView, b: Seq<u8>) -> FileResourceView {
    FileResourceView {
        node: m.node,
        data: m.data.take(m.seek) + b + if m.seek + b.len() < m.data.len() {
            m.data.skip(m.seek + b.len())
        } else {
            Seq::<u8>::empty()
        },
        seek: m.seek + b.len(),
        dirty: m.dirty || b.len() > 0,
    }
}

/// The offset a seek asks for, clamped below at zero, against a buffer of
/// `len` bytes and a current offset `seek`.
pub open spec fn seek_target(len: int, seek: int, pos: ResourceSeek) -> int {
    match pos {
        ResourceSeek::Start(o) => o as int,
        ResourceSeek::Current(o) => max(0, seek + o),
        ResourceSeek::End(o) => max(0, len + o),
    }
}

/// The state a seek leaves: the offset moved to the target (held within what
/// a machine offset can address), the buffer extended with zero bytes when
/// the target lies past its end.
pub open spec fn seek_model(m: FileResourceView, pos: ResourceSeek) -> FileResourceView {
    let t = min(seek_target(m.data.len() as int, m.seek, pos), usize::MAX as int);
    FileResourceView {
        node: m.node,
        data: if t > m.data.len() {
            m.data + zeros(t - m.data.len())
        } else {
            m.data
        },
        seek: t,
        dirty: m.dirty,
    }
}

/// A per-open file handle: a snapshot of the node, the whole file contents
/// materialized at open, the read/write offset, and the dirty flag that
/// `sync` clears by flushing the buffer back to the node's extents.
pub struct FileResource {
    pub node: Node,
    pub vec: Vec<u8>,
    pub seek: usize,
    pub dirty: bool,
}

impl View for FileResource {
    type V = FileResourceView;

    open spec fn view(&self) -> FileResourceView {
        FileResourceView {
            node: self.node@,
            data: self.vec@,
            seek: self.seek as int,
            dirty: self.dirty,
        }
    }
}

impl FileResource {
    /// The offset never leaves the buffer: `0 <= seek <= len`.
    pub open spec fn wf(&self) -> bool {
        self.node.wf() && self.seek <= self.vec@.len()
    }

    /// Copy bytes from the buffer at the offset into the front of `buf`,
    /// advance the offset, and return how many were copied.
    pub fn read(&mut self, buf: &mut Vec<u8>) -> (r: usize)
        requires
            old(self).wf(),
        ensures
            final(self).wf(),
            final(self)@ == read_model(old(self)@, old(buf)@.len() as int).0,
            final(buf)@ == read_model(old(self)@, old(buf)@.len() as int).1 + old(buf)@.skip(
                r as int,
            ),
            r == read_model(old(self)@, old(buf)@.len() as int).1.len(),
    {
        let cap = buf.len();
        let n = self.vec.len();
        let mut i: usize = 0;
        while i < cap && self.seek < n
            invariant
                i <= cap,
                self.vec@ == old(self).vec@,
                self.node == old(self).node,
                self.dirty == old(self).dirty,
                self.seek == old(self).seek + i,
                self.seek <= n,
                n == self.vec@.len(),
                cap == old(buf)@.len(),
                buf@.len() == cap,
                buf@ =~= old(self).vec@.subrange(old(self).seek as int, self.seek as int) + old(
                    buf,
                )@.skip(i as int),
            decreases cap - i,
        {
            buf.set(i, self.vec[self.seek]);
            self.seek += 1;
            i += 1;
            proof {
                assert(buf@ =~= old(self).vec@.subrange(old(self).seek as int, self.seek as int)
                    + old(buf)@.skip(i as int));
            }
        }
        proof {
            let (m2, bytes) = read_model(old(self)@, old(buf)@.len() as int);
            assert(bytes =~= old(self).vec@.subrange(old(self).seek as int, self.seek as int));
            assert(final(buf)@ =~= bytes + old(buf)@.skip(i as int));
        }
        i
    }

    /// Overwrite bytes at the offset, append whatever runs past the end,
    /// advance the offset by the whole of `buf`, and mark the buffer dirty
    /// unless `buf` is empty. Returns `buf.len()`.
    pub fn write(&mut self, buf: &Vec<u8>) -> (r: usize)
        requires
            old(self).wf(),
        ensures
            final(self).wf(),
            final(self)@ == write_model(old(self)@, buf@),
            r == buf@.len(),
    {
        let cap = buf.len();
        let mut i: usize = 0;
        while i < cap && self.seek < self.vec.len()
            invariant
                i <= cap,
                self.node == old(self).node,
                self.dirty == old(self).dirty,
                self.seek == old(self).seek + i,
                self.seek <= self.vec@.len(),
                self.vec@.len() == old(self).vec@.len(),
                self.vec@ =~= old(self).vec@.take(old(self).seek as int) + buf@.subrange(
                    0,
                    i as int,
                ) + old(self).vec@.skip(self.seek as int),
            decreases cap - i,
        {
            self.vec.set(self.seek, buf[i]);
            self.seek += 1;
            i += 1;
            proof {
                assert(self.vec@ =~= old(self).vec@.take(old(self).seek as int) + buf@.subrange(
                    0,
                    i as int,
                ) + old(self).vec@.skip(self.seek as int));
            }
        }
        while i < cap
            invariant
                i <= cap,
                self.node == old(self).node,
                self.dirty == old(self).dirty,
                self.seek == old(self).seek + i,
                self.seek <= self.vec@.len(),
                i < cap ==> self.seek == self.vec@.len(),
                self.vec@ =~= old(self).vec@.take(old(self).seek as int) + buf@.subrange(
                    0,
                    i as int,
                ) + (if old(self).seek + i < old(self).vec@.len() {
                    old(self).vec@.skip(self.seek as int)
                } else {
                    Seq::<u8>::empty()
                }),
            decreases cap - i,
        {
            self.vec.push(buf[i]);
            self.seek = self.vec.len();
            i += 1;
            proof {
                assert(self.vec@ =~= old(self).vec@.take(old(self).seek as int) + buf@.subrange(
                    0,
                    i as int,
                ));
            }
        }
        if i > 0 {
            self.dirty = true;
        }
        proof {
            let m2 = write_model(old(self)@, buf@);
            assert(buf@.subrange(0, cap as int) =~= buf@);
            assert(final(self)@.data =~= m2.data);
        }
        cap
    }

    /// Move the offset as `pos` directs, clamping below at zero, and extend
    /// the buffer with zero bytes when the new offset lies past its end.
    /// Returns the new offset.
    pub fn seek(&mut self, pos: ResourceSeek) -> (r: usize)
        requires
            old(self).wf(),
        ensures
            final(self).wf(),
            final(self)@ == seek_model(old(self)@, pos),
            r == final(self)@.seek,
    {
        let n = self.vec.len();
        let mut t: i128 = match pos {
            ResourceSeek::Start(o) => o as i128,
            ResourceSeek::Current(o) => self.seek as i128 + o as i128,
            ResourceSeek::End(o) => n as i128 + o as i128,
        };
        if t < 0 {
            t = 0;
        }
        if t > usize::MAX as i128 {
            t = usize::MAX as i128;
        }
        let target: usize = t as usize;
        assert(target == min(
            seek_target(old(self)@.data.len() as int, old(self)@.seek, pos),
            usize::MAX as int,
        ));
        while self.vec.len() < target
            invariant
                self.node == old(self).node,
                self.dirty == old(self).dirty,
                self.seek == old(self).seek,
                old(self).vec@.len() <= self.vec@.len(),
                self.vec@.len() <= max(target as int, old(self).vec@.len() as int),
                self.vec@.take(old(self).vec@.len() as int) == old(self).vec@,
                forall|j: int| old(self).vec@.len() <= j < self.vec@.len() ==> self.vec@[j] == 0u8,
            decreases target - self.vec@.len(),
        {
            self.vec.push(0);
            proof {
                assert(self.vec@.take(old(self).vec@.len() as int) =~= old(self).vec@);
            }
        }
        self.seek = target;
        proof {
            let m2 = seek_model(old(self)@, pos);
            assert(final(self)@.data =~= m2.data);
        }
        target
    }

    /// Read everything from the offset to the end of the buffer, leaving the
    /// offset at the end.
    pub fn read_all(&mut self) -> (r: Vec<u8>)
        requires
            old(self).wf(),
        ensures
            final(self).wf(),
            r@ == old(self)@.data.skip(old(self)@.seek),
            final(self)@ == (FileResourceView {
                seek: old(self)@.data.len() as int,
                ..old(self)@
            }),
    {
        let n = self.vec.len();
        let mut out: Vec<u8> = Vec::new();
        while self.seek < n
            invariant
                self.vec@ == old(self).vec@,
                self.node == old(self).node,
                self.dirty == old(self).dirty,
                old(self).seek <= self.seek <= n,
                n == self.vec@.len(),
                out@ =~= old(self).vec@.subrange(old(self).seek as int, self.seek as int),
            decreases n - self.seek,
        {
            out.push(self.vec[self.seek]);
            self.seek += 1;
            proof {
                assert(out@ =~= old(self).vec@.subrange(old(self).seek as int, self.seek as int));
            }
        }
        proof {
            assert(out@ =~= old(self)@.data.skip(old(self)@.seek));
        }
        out
    }

    /// The resource's URL: `file:///` followed by the node's name.
    pub fn url(&self) -> (r: Vec<u8>)
        ensures
            r@ == spec_file_url(self@.node.name),
    {
        let mut out: Vec<u8> = Vec::new();
        out.push(102);
        out.push(105);
        out.push(108);
        out.push(101);
        out.push(58);
        out.push(47);
        out.push(47);
        out.push(47);
        let mut i: usize = 0;
        let n = self.node.name.len();
        while i < n
            invariant
                i <= n,
                n == self.node.name@.len(),
                out@ =~= spec_file_url_prefix() + self.node.name@.subrange(0, i as int),
            decreases n - i,
        {
            out.push(self.node.name[i]);
            assert(out@ =~= spec_file_url_prefix() + self.node.name@.subrange(0, i + 1));
            i += 1;
        }
        proof {
            assert(out@ =~= spec_file_url(self@.node.name));
        }
        out
    }

    /// An open file reports itself as a plain file.
    pub fn stat(&self) -> (r: ResourceType)
        ensures
            r == ResourceType::File,
    {
        ResourceType::File
    }
}


impl crate::stdio::Read for FileResource {
    open spec fn inv(&self) -> bool {
        self.wf()
    }

    /// An open file reads as a byte stream: a prefix of `buf` is filled
    /// from the offset and the count returned; it never fails.
    fn read(&mut self, buf: &mut Vec<u8>) -> (r: Option<usize>) {
        Option::Some(FileResource::read(self, buf))
    }
}

impl crate::stdio::Write for FileResource {
    open spec fn inv(&self) -> bool {
        self.wf()
    }

    /// An open file takes a whole write as a byte stream; it never fails.
    fn write(&mut self, buf: &Vec<u8>) -> (r: Option<usize>) {
        Option::Some(FileResource::write(self, buf))
    }
}

/// The bytes `file:///`.
pub open spec fn spec_file_url_prefix() -> Seq<u8> {
    seq![102u8, 105u8, 108u8, 101u8, 58u8, 47u8, 47u8, 47u8]
}

/// The URL of a file resource: `file:///` followed by the name.
pub open spec fn spec_file_url(name: Seq<u8>) -> Seq<u8> {
    spec_file_url_prefix() + name
}

/// A byte sequence with `b` written over it at `at`.
pub open spec fn splice(d: Seq<u8>, at: int, b: Seq<u8>) -> Seq<u8> {
    d.take(at) + b + d.skip(at + b.len())
}

/// The outcome of flushing a buffer through a run of extent slots: the disk
/// afterwards, the slots with their lengths brought up to date, and how far
/// into the buffer the flush got.
pub struct SyncView {
    pub disk: Seq<u8>,
    pub extents: Seq<Extent>,
    pub pos: int,
}

/// How a flush walks the extent slots. Each used, in-range slot takes the
/// next `min(remaining, capacity)` bytes of the buffer, written as whole
/// sectors with the final sector zero-padded, and its stored length is set
/// to the bytes it took; other slots are left alone.
pub open spec fn sync_model(d: Seq<u8>, exts: Seq<Extent>, data: Seq<u8>, pos: int) -> SyncView
    decreases exts.len(),
{
    if exts.len() == 0 {
        SyncView { disk: d, extents: Seq::empty(), pos }
    } else {
        let e = exts[0];
        if e.spec_used() && e.in_range(d.len() as int) {
            let size = min(data.len() - pos, e.spec_capacity());
            let written = data.subrange(pos, pos + size) + zeros(sectors_for(size) * 512 - size);
            let d2 = splice(d, e.block * 512, written);
            let rec = sync_model(d2, exts.drop_first(), data, pos + size);
            SyncView {
                disk: rec.disk,
                extents: seq![Extent { block: e.block, length: size as u64 }] + rec.extents,
                pos: rec.pos,
            }
        } else {
            let rec = sync_model(d, exts.drop_first(), data, pos);
            SyncView { disk: rec.disk, extents: seq![e] + rec.extents, pos: rec.pos }
        }
    }
}

impl FileResource {
    /// Flush a dirty buffer back to the node's extents, in order, chunking
    /// each extent's sectors through the disk's request limit. The in-memory
    /// extent lengths are brought up to date; the node table on disk is left
    /// as it was. Returns whether the whole buffer fit; bytes past the last
    /// extent's capacity are not written, reallocation being unsupported.
    #[verifier::rlimit(60)]
    #[verifier::spinoff_prover]
    pub fn sync(&mut self, disk: &mut Disk) -> (r: bool)
        requires
            old(self).wf(),
        ensures
            final(self).wf(),
            !old(self).dirty ==> *final(self) == *old(self) && *final(disk) == *old(disk) && r,
            old(self).dirty ==> ({
                let out = sync_model(old(disk)@, old(self)@.node.extents, old(self)@.data, 0);
                &&& final(disk)@ == out.disk
                &&& final(self)@.node.extents == out.extents
                &&& final(self)@.node.name == old(self)@.node.name
                &&& final(self)@.node.address == old(self)@.node.address
                &&& final(self)@.data == old(self)@.data
                &&& final(self)@.seek == old(self)@.seek
                &&& final(self)@.dirty == false
                &&& r == (out.pos == old(self)@.data.len())
            }),
    {
        if !self.dirty {
            return true;
        }
        let data_len = self.vec.len();
        let mut pos: usize = 0;
        let mut ei: usize = 0;
        let ghost full = sync_model(old(disk)@, old(self)@.node.extents, old(self)@.data, 0);
        proof {
            assert(old(self)@.node.extents.skip(0) =~= old(self)@.node.extents);
            assert(self.node.extents@.take(0) + full.extents =~= full.extents);
        }
        while ei < 16
            invariant
                ei <= 16,
                pos <= data_len,
                data_len == self.vec@.len(),
                self.vec@ == old(self).vec@,
                self.seek == old(self).seek,
                self.dirty == old(self).dirty,
                self.node.address == old(self).node.address,
                self.node.name@ == old(self).node.name@,
                self.node.extents@.len() == 16,
                disk@.len() == old(disk)@.len(),
                self.node.extents@.skip(ei as int) == old(self)@.node.extents.skip(ei as int),
                ({
                    let rest = sync_model(
                        disk@,
                        self.node.extents@.skip(ei as int),
                        old(self)@.data,
                        pos as int,
                    );
                    &&& full.disk == rest.disk
                    &&& full.pos == rest.pos
                    &&& full.extents == self.node.extents@.take(ei as int) + rest.extents
                }),
            decreases 16 - ei,
        {
            let ghost pre_disk = disk@;
            let ghost pre_exts = self.node.extents@;
            let ghost pre_pos = pos as int;
            let e = self.node.extents[ei];
            let dl = disk.size();
            if e.used() && e.check_in_range(dl) {
                let sectors = e.sectors();
                assert(e.block * 512 + sectors * 512 <= dl);
                let cap: usize = (sectors * 512) as usize;
                let remaining = data_len - pos;
                let size: usize = if remaining < cap {
                    remaining
                } else {
                    cap
                };
                let wsectors: usize = size / 512 + if size % 512 == 0 {
                    0
                } else {
                    1
                };
                let target: usize = wsectors * 512;
                assert(target <= cap);
                let mut written = bytes_slice(&self.vec, pos, pos + size);
                while written.len() < target
                    invariant
                        size <= written@.len() <= target,
                        written@.subrange(0, size as int) == self.vec@.subrange(
                            pos as int,
                            pos + size,
                        ),
                        forall|j: int| size <= j < written@.len() ==> written@[j] == 0u8,
                    decreases target - written@.len(),
                {
                    written.push(0);
                    proof {
                        assert(written@.subrange(0, size as int) =~= self.vec@.subrange(
                            pos as int,
                            pos + size,
                        ));
                    }
                }
                disk.write_range(e.block, &written);
                self.node.extents.set(ei, Extent { block: e.block, length: size as u64 });
                pos = pos + size;
                proof {
                    let m_size = min(old(self)@.data.len() - pre_pos, e.spec_capacity());
                    assert(m_size == size);
                    let m_written = old(self)@.data.subrange(pre_pos, pre_pos + m_size) + zeros(
                        sectors_for(m_size) * 512 - m_size,
                    );
                    assert(written@ =~= m_written);
                    assert(disk@ =~= splice(pre_disk, e.block * 512, m_written));
                }
            }
            proof {
                let rest_pre = sync_model(pre_disk, pre_exts.skip(ei as int), old(self)@.data,
                    pre_pos);
                assert(pre_exts.skip(ei as int)[0] == pre_exts[ei as int]);
                assert(pre_exts.skip(ei as int).drop_first() =~= pre_exts.skip(ei + 1));
                assert(self.node.extents@.skip(ei + 1) =~= pre_exts.skip(ei + 1));
                let rest_post = sync_model(
                    disk@,
                    self.node.extents@.skip(ei + 1),
                    old(self)@.data,
                    pos as int,
                );
                assert(rest_pre.disk == rest_post.disk);
                assert(rest_pre.pos == rest_post.pos);
                assert(rest_pre.extents =~= seq![self.node.extents@[ei as int]]
                    + rest_post.extents);
                assert(self.node.extents@.take(ei + 1) =~= self.node.extents@.take(ei as int)
                    .push(self.node.extents@[ei as int]));
                assert(full.extents =~= self.node.extents@.take(ei + 1) + rest_post.extents);
            }
            ei += 1;
        }
        proof {
            assert(self.node.extents@.skip(16) =~= Seq::<Extent>::empty());
            assert(self.node.extents@.take(16) =~= self.node.extents@);
            assert(full.disk == disk@);
            assert(full.pos == pos as int);
        }
        self.dirty = false;
        pos >= data_len
    }
}

/// The contents of a file as its extents locate it: the bytes of every used
/// extent, concatenated in extent order.
pub open spec fn node_content(d: Seq<u8>, exts: Seq<Extent>) -> Seq<u8>
    decreases exts.len(),
{
    if exts.len() == 0 {
        Seq::empty()
    } else {
        (if exts[0].spec_used() {
            Disk::extent_bytes(d, exts[0])
        } else {
            Seq::<u8>::empty()
        }) + node_content(d, exts.drop_first())
    }
}

pub proof fn lemma_node_content_snoc(d: Seq<u8>, exts: Seq<Extent>, e: Extent)
    ensures
        node_content(d, exts.push(e)) == node_content(d, exts) + (if e.spec_used() {
            Disk::extent_bytes(d, e)
        } else {
            Seq::<u8>::empty()
        }),
    decreases exts.len(),
{
    let p = exts.push(e);
    let ghost part = if e.spec_used() {
        Disk::extent_bytes(d, e)
    } else {
        Seq::<u8>::empty()
    };
    if exts.len() == 0 {
        assert(p[0] == e);
        assert(p.drop_first() =~= exts);
        assert(node_content(d, p) == part + node_content(d, exts));
        assert(node_content(d, p) =~= node_content(d, exts) + part);
    } else {
        assert(p[0] == exts[0]);
        assert(p.drop_first() =~= exts.drop_first().push(e));
        lemma_node_content_snoc(d, exts.drop_first(), e);
        assert(node_content(d, p) =~= node_content(d, exts) + part);
    }
}

/// The ghost state of a synthesized byte resource.
pub struct VecResourceView {
    pub url: UrlView,
    pub resource_type: ResourceType,
    pub data: Seq<u8>,
    pub seek: int,
}

/// A synthesized byte resource: a buffer built once (a directory listing, a
/// rendered snapshot) and then read and seeked like any file. Writes are
/// ignored.
pub struct VecResource {
    pub url: Url,
    pub resource_type: ResourceType,
    pub data: Vec<u8>,
    pub seek: usize,
}

impl View for VecResource {
    type V = VecResourceView;

    open spec fn view(&self) -> VecResourceView {
        VecResourceView {
            url: self.url@,
            resource_type: self.resource_type,
            data: self.data@,
            seek: self.seek as int,
        }
    }
}

impl VecResource {
    pub open spec fn wf(&self) -> bool {
        self.seek <= self.data@.len()
    }

    pub fn new(url: Url, resource_type: ResourceType, data: Vec<u8>) -> (r: VecResource)
        ensures
            r@.url == url@,
            r@.resource_type == resource_type,
            r@.data == data@,
            r@.seek == 0,
            r.wf(),
    {
        VecResource { url, resource_type, data, seek: 0 }
    }

    /// The URL the resource was opened under.
    pub fn url(&self) -> (r: Vec<u8>)
        ensures
            r@ == self@.url.scheme + seq![58u8, 47u8, 47u8] + self@.url.path,
    {
        self.url.to_bytes()
    }

    /// What the resource reports itself as.
    pub fn stat(&self) -> (r: ResourceType)
        ensures
            r == self.resource_type,
    {
        self.resource_type
    }

    /// Copy bytes from the buffer at the offset into the front of `buf`,
    /// advance the offset, and return how many were copied.
    pub fn read(&mut self, buf: &mut Vec<u8>) -> (r: usize)
        requires
            old(self).wf(),
        ensures
            final(self).wf(),
            r == min(old(buf)@.len() as int, old(self)@.data.len() - old(self)@.seek),
            final(self)@.seek == old(self)@.seek + r,
            final(self)@.data == old(self)@.data,
            final(self)@.url == old(self)@.url,
            final(self)@.resource_type == old(self)@.resource_type,
            final(buf)@ == old(self)@.data.subrange(old(self)@.seek, old(self)@.seek + r) + old(
                buf,
            )@.skip(r as int),
    {
        let cap = buf.len();
        let n = self.data.len();
        let mut i: usize = 0;
        while i < cap && self.seek < n
            invariant
                i <= cap,
                self.data@ == old(self).data@,
                self.url@ == old(self).url@,
                self.resource_type == old(self).resource_type,
                self.seek == old(self).seek + i,
                self.seek <= n,
                n == self.data@.len(),
                cap == old(buf)@.len(),
                buf@.len() == cap,
                buf@ =~= old(self).data@.subrange(old(self).seek as int, self.seek as int) + old(
                    buf,
                )@.skip(i as int),
            decreases cap - i,
        {
            buf.set(i, self.data[self.seek]);
            self.seek += 1;
            i += 1;
            proof {
                assert(buf@ =~= old(self).data@.subrange(old(self).seek as int, self.seek as int)
                    + old(buf)@.skip(i as int));
            }
        }
        i
    }

    /// Writes to a synthesized resource are ignored.
    pub fn write(&mut self, buf: &Vec<u8>) -> (r: usize)
        ensures
            *final(self) == *old(self),
            r == 0,
    {
        let _ = buf.len();
        0
    }

    /// Move the offset as `pos` directs, clamping below at zero and
    /// extending the buffer with zero bytes past its end, as on any byte
    /// resource. Returns the new offset.
    pub fn seek(&mut self, pos: ResourceSeek) -> (r: usize)
        requires
            old(self).wf(),
        ensures
            final(self).wf(),
            final(self)@.url == old(self)@.url,
            final(self)@.resource_type == old(self)@.resource_type,
            final(self)@.seek == min(
                seek_target(old(self)@.data.len() as int, old(self)@.seek, pos),
                usize::MAX as int,
            ),
            final(self)@.data == (if final(self)@.seek > old(self)@.data.len() {
                old(self)@.data + zeros(final(self)@.seek - old(self)@.data.len())
            } else {
                old(self)@.data
            }),
            r == final(self)@.seek,
    {
        let n = self.data.len();
        let mut t: i128 = match pos {
            ResourceSeek::Start(o) => o as i128,
            ResourceSeek::Current(o) => self.seek as i128 + o as i128,
            ResourceSeek::End(o) => n as i128 + o as i128,
        };
        if t < 0 {
            t = 0;
        }
        if t > usize::MAX as i128 {
            t = usize::MAX as i128;
        }
        let target: usize = t as usize;
        while self.data.len() < target
            invariant
                self.url@ == old(self).url@,
                self.resource_type == old(self).resource_type,
                self.seek == old(self).seek,
                old(self).data@.len() <= self.data@.len(),
                self.data@.len() <= max(target as int, old(self).data@.len() as int),
                self.data@.take(old(self).data@.len() as int) == old(self).data@,
                forall|j: int| old(self).data@.len() <= j < self.data@.len() ==> self.data@[j]
                    == 0u8,
            decreases target - self.data@.len(),
        {
            self.data.push(0);
            proof {
                assert(self.data@.take(old(self).data@.len() as int) =~= old(self).data@);
            }
        }
        self.seek = target;
        proof {
            if target > old(self).data@.len() {
                assert(self.data@ =~= old(self).data@ + zeros(
                    target - old(self).data@.len() as int,
                ));
            } else {
                assert(self.data@ =~= old(self).data@);
            }
        }
        target
    }
}

/// Any open resource a provider can hand out: an open file, a synthesized
/// buffer, or the distinguished resource a failed open yields, whose
/// operations themselves report errors.
pub enum Resource {
    File(FileResource),
    Data(VecResource),
    Missing,
}

impl Resource {
    pub open spec fn wf(&self) -> bool {
        match self {
            Resource::File(fr) => fr.wf(),
            Resource::Data(vr) => vr.wf(),
            Resource::Missing => true,
        }
    }
}

} // verus!
