//! The library-wide laws: how seeking composes with reading, and what a
//! flushed buffer looks like when the file is opened again.

use vstd::prelude::*;
use vstd::math::min;
use crate::disk::Disk;
use crate::extent::Extent;
use crate::layout::NodeView;
use crate::resource::{node_content, seek_model, splice, sync_model, write_model,
    FileResourceView, ResourceSeek, zeros};

verus! {

/// Seeking to `n` from the start and then reading to the end yields exactly
/// the buffer from `n` on, for every `0 <= n <= len`: `read_all` returns
/// `data.skip(seek)`, and the seek leaves the buffer unchanged with the
/// offset at `n`.
pub proof fn lemma_seek_start_then_read_all(m: FileResourceView, n: usize)
    requires
        n <= m.data.len(),
    ensures
        seek_model(m, ResourceSeek::Start(n)).data == m.data,
        seek_model(m, ResourceSeek::Start(n)).seek == n,
        seek_model(m, ResourceSeek::Start(n)).data.skip(
            seek_model(m, ResourceSeek::Start(n)).seek,
        ) == m.data.skip(n as int),
{
}

/// Seeking from the end by `o <= 0` bytes lands `-o` bytes before the end,
/// and at offset zero once `-o` exceeds the buffer's length; the buffer
/// itself is untouched.
pub proof fn lemma_seek_back_from_end(m: FileResourceView, o: isize)
    requires
        o <= 0,
        0 <= m.data.len() <= usize::MAX,
    ensures
        -o <= m.data.len() ==> seek_model(m, ResourceSeek::End(o)).seek == m.data.len() + o,
        -o > m.data.len() ==> seek_model(m, ResourceSeek::End(o)).seek == 0,
        seek_model(m, ResourceSeek::End(o)).data == m.data,
{
    assert(seek_model(m, ResourceSeek::End(o)).data == m.data);
}

/// A flush through extent slots none of which is used changes nothing.
pub proof fn lemma_sync_model_unused(d: Seq<u8>, exts: Seq<Extent>, data: Seq<u8>, pos: int)
    requires
        forall|i: int| 0 <= i < exts.len() ==> !(#[trigger] exts[i]).spec_used(),
    ensures
        sync_model(d, exts, data, pos).disk == d,
        sync_model(d, exts, data, pos).pos == pos,
    decreases exts.len(),
{
    if exts.len() > 0 {
        assert(!exts[0].spec_used());
        lemma_sync_model_unused(d, exts.drop_first(), data, pos);
    }
}

/// The contents located by extent slots none of which is used are empty.
pub proof fn lemma_node_content_unused(d: Seq<u8>, exts: Seq<Extent>)
    requires
        forall|i: int| 0 <= i < exts.len() ==> !(#[trigger] exts[i]).spec_used(),
    ensures
        node_content(d, exts) == Seq::<u8>::empty(),
    decreases exts.len(),
{
    if exts.len() > 0 {
        lemma_node_content_unused(d, exts.drop_first());
        assert(node_content(d, exts) =~= Seq::<u8>::empty());
    }
}

/// A write that fits in the file's first extent survives a flush and a
/// fresh open: for a node whose single used extent is its first slot, after
/// flushing a buffer whose first `p` bytes are known, reading the file's
/// contents back through the unchanged node table begins with those same
/// `p` bytes. (The flush updates extent lengths only in memory, so the
/// reopened file is read with the extents as the on-disk table stores them.)
pub proof fn lemma_sync_then_reopen_prefix(
    d: Seq<u8>,
    exts: Seq<Extent>,
    data: Seq<u8>,
    p: int,
)
    requires
        exts.len() > 0,
        exts[0].spec_used(),
        exts[0].in_range(d.len() as int),
        forall|i: int| 1 <= i < exts.len() ==> !(#[trigger] exts[i]).spec_used(),
        0 <= p <= exts[0].length,
        p <= data.len(),
    ensures
        ({
            let out = sync_model(d, exts, data, 0);
            node_content(out.disk, exts).subrange(0, p) == data.subrange(0, p)
        }),
{
    let e = exts[0];
    let size = min(data.len() - 0, e.spec_capacity());
    let written = data.subrange(0, size) + zeros(crate::extent::sectors_for(size) * 512 - size);
    let d2 = splice(d, e.block * 512, written);
    assert(forall|i: int|
        0 <= i < exts.drop_first().len() ==> !(#[trigger] exts.drop_first()[i]).spec_used());
    lemma_sync_model_unused(d2, exts.drop_first(), data, size);
    let out = sync_model(d, exts, data, 0);
    assert(out.disk == d2);
    assert(p <= size);
    assert(written.len() == crate::extent::sectors_for(size) * 512);
    assert(written.len() <= e.spec_capacity());
    assert(e.block * 512 + written.len() <= d.len());
    assert forall|j: int| 0 <= j < p implies d2[e.block * 512 + j] == data[j] by {
        assert(d2[e.block * 512 + j] == written[j]);
        assert(written[j] == data[j]);
    }
    lemma_node_content_unused(d2, exts.drop_first());
    assert(node_content(d2, exts) =~= Disk::extent_bytes(d2, e));
    assert(e.length <= e.spec_capacity());
    assert(node_content(d2, exts).subrange(0, p) =~= data.subrange(0, p));
}

/// One step of the byte-array model a file buffer follows: an
/// overwrite-and-extend write, or a clamped seek.
pub enum BufferOp {
    Write(Seq<u8>),
    Seek(ResourceSeek),
}

/// The byte-array model folded over a run of steps.
pub open spec fn apply_buffer_ops(m: FileResourceView, ops: Seq<BufferOp>) -> FileResourceView
    decreases ops.len(),
{
    if ops.len() == 0 {
        m
    } else {
        let m2 = match ops[0] {
            BufferOp::Write(b) => write_model(m, b),
            BufferOp::Seek(p) => seek_model(m, p),
        };
        apply_buffer_ops(m2, ops.drop_first())
    }
}

/// A fresh resource for `node`: empty buffer, offset zero, clean.
pub open spec fn fresh_resource(node: NodeView) -> FileResourceView {
    FileResourceView { node, data: Seq::empty(), seek: 0, dirty: false }
}

/// After any sequence of writes and seeks, the offset still lies within the
/// buffer. Each verified operation's contract equals its model step, so any
/// run of calls on a resource folds to `apply_buffer_ops`, and a read of
/// everything then returns `data.skip(seek)` of the folded state.
pub proof fn lemma_buffer_ops_keep_offset(m: FileResourceView, ops: Seq<BufferOp>)
    requires
        0 <= m.seek <= m.data.len(),
    ensures
        0 <= apply_buffer_ops(m, ops).seek <= apply_buffer_ops(m, ops).data.len(),
    decreases ops.len(),
{
    if ops.len() > 0 {
        let m2 = match ops[0] {
            BufferOp::Write(b) => write_model(m, b),
            BufferOp::Seek(p) => seek_model(m, p),
        };
        assert(0 <= m2.seek <= m2.data.len());
        lemma_buffer_ops_keep_offset(m2, ops.drop_first());
    }
}

} // verus!
