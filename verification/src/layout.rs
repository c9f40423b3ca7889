//! The fixed 512-byte on-disk records: the header in sector 1 and the node
//! records making up the node table. All multi-byte fields are little-endian.

use vstd::prelude::*;
use vstd::bytes::{spec_u32_from_le_bytes, spec_u64_from_le_bytes, u32_from_le_bytes,
    u64_from_le_bytes};
use vstd::slice::{slice_subrange, slice_to_vec};
use crate::extent::Extent;

verus! {

/// Index of the first NUL byte of `s`, or `s.len()` when none occurs.
pub open spec fn first_nul(s: Seq<u8>) -> int
    decreases s.len(),
{
    if s.len() == 0 {
        0
    } else if s[0] == 0 {
        0
    } else {
        1 + first_nul(s.drop_first())
    }
}

/// `first_nul` is the unique position with no NUL before it that either ends
/// the sequence or holds a NUL.
pub proof fn lemma_first_nul(s: Seq<u8>, k: int)
    requires
        0 <= k <= s.len(),
        forall|j: int| 0 <= j < k ==> s[j] != 0,
        k == s.len() || s[k] == 0,
    ensures
        first_nul(s) == k,
    decreases s.len(),
{
    if s.len() == 0 {
    } else if s[0] == 0 {
        assert(k == 0);
    } else {
        assert(k >= 1);
        lemma_first_nul(s.drop_first(), k - 1);
    }
}

/// The name stored in a NUL-terminated field: the bytes before the first NUL.
pub open spec fn name_of(s: Seq<u8>) -> Seq<u8> {
    s.take(first_nul(s))
}

/// Extract the NUL-terminated name held in `v[start..end]`.
pub fn read_name(v: &Vec<u8>, start: usize, end: usize) -> (r: Vec<u8>)
    requires
        start <= end <= v@.len(),
    ensures
        r@ == name_of(v@.subrange(start as int, end as int)),
{
    let mut out: Vec<u8> = Vec::new();
    let mut i: usize = start;
    #[verifier::loop_isolation(true)]
    while i < end
        invariant_except_break
            start <= end <= v@.len(),
            start <= i <= end,
            out@ == v@.subrange(start as int, i as int),
            forall|j: int| start <= j < i ==> v@[j] != 0,
        ensures
            start <= end <= v@.len(),
            start <= i <= end,
            out@ == v@.subrange(start as int, i as int),
            forall|j: int| start <= j < i ==> v@[j] != 0,
            i == end || v@[i as int] == 0,
        decreases end - i,
    {
        if v[i] == 0 {
            break ;
        }
        out.push(v[i]);
        assert(out@ =~= v@.subrange(start as int, i + 1));
        i += 1;
    }
    proof {
        let s = v@.subrange(start as int, end as int);
        lemma_first_nul(s, i - start);
        assert(out@ =~= name_of(s));
    }
    out
}

/// One 16-byte extent record: two little-endian 64-bit words, the starting
/// sector then the byte length.
pub open spec fn parse_extent(s: Seq<u8>) -> Extent {
    Extent {
        block: spec_u64_from_le_bytes(s.subrange(0, 8)),
        length: spec_u64_from_le_bytes(s.subrange(8, 16)),
    }
}

/// The 16 extent records stored at bytes 256..512 of a 512-byte record.
pub open spec fn parse_extents(s: Seq<u8>) -> Seq<Extent> {
    Seq::new(16, |i: int| parse_extent(s.subrange(256 + 16 * i, 256 + 16 * i + 16)))
}

/// Read the 16 extent records of the 512-byte record at `v[start..start+512]`.
pub fn read_extents(v: &Vec<u8>, start: usize) -> (r: Vec<Extent>)
    requires
        start + 512 <= v@.len(),
    ensures
        r@ == parse_extents(v@.subrange(start as int, start + 512)),
{
    let n = v.len();
    assert(start + 512 <= n);
    let mut out: Vec<Extent> = Vec::new();
    let mut i: usize = 0;
    while i < 16
        invariant
            i <= 16,
            out@.len() == i,
            forall|k: int|
                0 <= k < i ==> out@[k] == parse_extent(
                    v@.subrange(start + 256 + 16 * k, start + 256 + 16 * k + 16),
                ),
        decreases 16 - i,
    {
        let off = start + 256 + 16 * i;
        let block = u64_from_le_bytes(slice_subrange(v.as_slice(), off, off + 8));
        let length = u64_from_le_bytes(slice_subrange(v.as_slice(), off + 8, off + 16));
        proof {
            let rec = v@.subrange(start + 256 + 16 * i, start + 256 + 16 * i + 16);
            assert(v@.subrange(off as int, off + 8) =~= rec.subrange(0, 8));
            assert(v@.subrange(off + 8, off + 16) =~= rec.subrange(8, 16));
        }
        out.push(Extent { block, length });
        i += 1;
    }
    proof {
        let s = v@.subrange(start as int, start + 512);
        assert forall|k: int| 0 <= k < 16 implies out@[k] == parse_extents(s)[k] by {
            assert(v@.subrange(start + 256 + 16 * k, start + 256 + 16 * k + 16) =~= s.subrange(
                256 + 16 * k,
                256 + 16 * k + 16,
            ));
        }
        assert(out@ =~= parse_extents(s));
    }
    out
}

/// The ghost shape of a node record: its raw 256-byte name field and its 16
/// extent slots.
pub struct NodeDataView {
    pub name: Seq<u8>,
    pub extents: Seq<Extent>,
}

/// How a 512-byte sector decodes into a node record.
pub open spec fn parse_node_data(s: Seq<u8>) -> NodeDataView {
    NodeDataView { name: s.subrange(0, 256), extents: parse_extents(s) }
}

/// A decoded on-disk node record: a raw NUL-terminated name field of 256
/// bytes followed by 16 extent slots.
pub struct NodeData {
    pub name: Vec<u8>,
    pub extents: Vec<Extent>,
}

impl View for NodeData {
    type V = NodeDataView;

    open spec fn view(&self) -> NodeDataView {
        NodeDataView { name: self.name@, extents: self.extents@ }
    }
}

impl NodeData {
    pub open spec fn wf(&self) -> bool {
        self.name@.len() == 256 && self.extents@.len() == 16
    }

    /// Decode one 512-byte sector.
    pub fn parse(v: &Vec<u8>) -> (r: NodeData)
        requires
            v@.len() == 512,
        ensures
            r@ == parse_node_data(v@),
            r.wf(),
    {
        let name = slice_to_vec(slice_subrange(v.as_slice(), 0, 256));
        let extents = read_extents(v, 0);
        proof {
            assert(v@.subrange(0, v@.len() as int) =~= v@);
        }
        NodeData { name, extents }
    }
}

/// The ghost shape of an in-memory node.
pub struct NodeView {
    pub address: u64,
    pub name: Seq<u8>,
    pub extents: Seq<Extent>,
}

/// The node a record at sector `address` stands for: the name trimmed at its
/// first NUL, the extents as stored.
pub open spec fn node_of(address: u64, d: NodeDataView) -> NodeView {
    NodeView { address, name: name_of(d.name), extents: d.extents }
}

/// A named file: the sector its record lives in, its name, and the 16 extent
/// slots locating its data runs.
pub struct Node {
    pub address: u64,
    pub name: Vec<u8>,
    pub extents: Vec<Extent>,
}

impl View for Node {
    type V = NodeView;

    open spec fn view(&self) -> NodeView {
        NodeView { address: self.address, name: self.name@, extents: self.extents@ }
    }
}

impl Node {
    pub open spec fn wf(&self) -> bool {
        self.extents@.len() == 16
    }

    /// Build the in-memory node for the record `data` found at sector
    /// `address`, trimming the stored name at its first NUL.
    pub fn new(address: u64, data: &NodeData) -> (r: Node)
        requires
            data.wf(),
        ensures
            r@ == node_of(address, data@),
            r.wf(),
    {
        let name = read_name(&data.name, 0, data.name.len());
        let extents = slice_to_vec(data.extents.as_slice());
        proof {
            assert(data.name@.subrange(0, data.name@.len() as int) =~= data.name@);
        }
        Node { address, name, extents }
    }
}

impl Clone for Node {
    fn clone(&self) -> (r: Self)
        ensures
            r@ == self@,
    {
        Node {
            address: self.address,
            name: slice_to_vec(self.name.as_slice()),
            extents: slice_to_vec(self.extents.as_slice()),
        }
    }
}

/// The ghost shape of the header record in sector 1.
pub struct HeaderView {
    pub signature: Seq<u8>,
    pub version: u32,
    pub name: Seq<u8>,
    pub extents: Seq<Extent>,
}

/// How the 512 bytes of sector 1 decode into a header.
pub open spec fn parse_header(s: Seq<u8>) -> HeaderView {
    HeaderView {
        signature: s.subrange(0, 8),
        version: spec_u32_from_le_bytes(s.subrange(8, 12)),
        name: s.subrange(12, 256),
        extents: parse_extents(s),
    }
}

/// The eight signature bytes `"REDOXFS\0"`.
pub open spec fn spec_signature() -> Seq<u8> {
    seq![82u8, 69u8, 68u8, 79u8, 88u8, 70u8, 83u8, 0u8]
}

/// A header this filesystem accepts: right signature, right version.
pub open spec fn header_valid(h: HeaderView) -> bool {
    h.signature == spec_signature() && h.version == 0xFFFFFFFFu32
}

/// The decoded header of sector 1: signature, version, volume name, and the
/// 16 extents locating the node table.
pub struct Header {
    pub signature: Vec<u8>,
    pub version: u32,
    pub name: Vec<u8>,
    pub extents: Vec<Extent>,
}

impl View for Header {
    type V = HeaderView;

    open spec fn view(&self) -> HeaderView {
        HeaderView {
            signature: self.signature@,
            version: self.version,
            name: self.name@,
            extents: self.extents@,
        }
    }
}

impl Header {
    pub open spec fn wf(&self) -> bool {
        self.signature@.len() == 8 && self.name@.len() == 244 && self.extents@.len() == 16
    }

    /// Decode the 512 bytes of sector 1.
    pub fn parse(v: &Vec<u8>) -> (r: Header)
        requires
            v@.len() == 512,
        ensures
            r@ == parse_header(v@),
            r.wf(),
    {
        let signature = slice_to_vec(slice_subrange(v.as_slice(), 0, 8));
        let version = u32_from_le_bytes(slice_subrange(v.as_slice(), 8, 12));
        let name = slice_to_vec(slice_subrange(v.as_slice(), 12, 256));
        let extents = read_extents(v, 0);
        proof {
            assert(v@.subrange(0, v@.len() as int) =~= v@);
        }
        Header { signature, version, name, extents }
    }

    /// Whether this header carries the accepted signature and version.
    pub fn valid(&self) -> (r: bool)
        requires
            self.wf(),
        ensures
            r == header_valid(self@),
    {
        let s = &self.signature;
        let ok = s[0] == 82 && s[1] == 69 && s[2] == 68 && s[3] == 79 && s[4] == 88 && s[5] == 70
            && s[6] == 83 && s[7] == 0 && self.version == 0xFFFFFFFF;
        proof {
            if ok {
                assert(self.signature@ =~= spec_signature());
            }
        }
        ok
    }
}

} // verus!
