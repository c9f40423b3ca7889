//! The in-memory filesystem index: mount reads the header from sector 1,
//! loads every node record the header's extents point at, and the index then
//! answers exact-name lookup and prefix listing without touching the disk.

use vstd::prelude::*;
use crate::disk::Disk;
use crate::extent::Extent;
use crate::layout::{header_valid, node_of, parse_header, parse_node_data, Header, HeaderView,
    Node, NodeData, NodeView};
use crate::util::{bytes_eq, bytes_slice, bytes_starts_with, starts_with};

verus! {

/// The 512 bytes of sector 1, where the header lives.
pub open spec fn header_sector(d: Seq<u8>) -> Seq<u8> {
    d.subrange(512, 1024)
}

/// The node a record at sector `sector` of the disk stands for.
pub open spec fn parse_node_at(d: Seq<u8>, sector: u64) -> NodeView {
    node_of(sector, parse_node_data(d.subrange(sector * 512, sector * 512 + 512)))
}

/// The nodes packed into one node-table extent: one 512-byte record per whole
/// sector of its byte length, in disk order.
pub open spec fn nodes_in_extent(d: Seq<u8>, e: Extent) -> Seq<NodeView> {
    Seq::new((e.length / 512) as nat, |i: int| parse_node_at(d, (e.block + i) as u64))
}

/// The nodes one extent slot contributes: none when the slot is unused.
pub open spec fn extent_nodes(d: Seq<u8>, e: Extent) -> Seq<NodeView> {
    if e.spec_used() {
        nodes_in_extent(d, e)
    } else {
        Seq::empty()
    }
}

/// All nodes of the table: the disk order within each extent, in extent
/// order.
pub open spec fn nodes_of(d: Seq<u8>, exts: Seq<Extent>) -> Seq<NodeView>
    decreases exts.len(),
{
    if exts.len() == 0 {
        Seq::empty()
    } else {
        extent_nodes(d, exts[0]) + nodes_of(d, exts.drop_first())
    }
}

pub proof fn lemma_nodes_of_snoc(d: Seq<u8>, exts: Seq<Extent>, e: Extent)
    ensures
        nodes_of(d, exts.push(e)) == nodes_of(d, exts) + extent_nodes(d, e),
    decreases exts.len(),
{
    let p = exts.push(e);
    if exts.len() == 0 {
        assert(p[0] == e);
        assert(p.drop_first() =~= exts);
        assert(nodes_of(d, p) == extent_nodes(d, e) + nodes_of(d, exts));
        assert(nodes_of(d, p) =~= nodes_of(d, exts) + extent_nodes(d, e));
    } else {
        assert(p[0] == exts[0]);
        assert(p.drop_first() =~= exts.drop_first().push(e));
        lemma_nodes_of_snoc(d, exts.drop_first(), e);
        assert(nodes_of(d, p) == extent_nodes(d, exts[0]) + (nodes_of(d, exts.drop_first())
            + extent_nodes(d, e)));
        assert(nodes_of(d, p) =~= nodes_of(d, exts) + extent_nodes(d, e));
    }
}

/// A disk this filesystem can mount: it answers, sector 1 holds a valid
/// header, and every used header extent lies inside the disk.
pub open spec fn spec_mountable(d: Seq<u8>) -> bool {
    &&& d.len() >= 1024
    &&& header_valid(parse_header(header_sector(d)))
    &&& forall|i: int|
        0 <= i < 16 ==> ((#[trigger] parse_header(header_sector(d)).extents[i]).spec_used()
            ==> parse_header(header_sector(d)).extents[i].in_range(d.len() as int))
}

/// The ghost views of a vector of nodes.
pub open spec fn views_of_nodes(ns: Seq<Node>) -> Seq<NodeView> {
    ns.map_values(|n: Node| n@)
}

/// First node of the table whose name is exactly `name`.
pub open spec fn find_node(ns: Seq<NodeView>, name: Seq<u8>) -> Option<NodeView>
    decreases ns.len(),
{
    if ns.len() == 0 {
        Option::None
    } else if ns[0].name == name {
        Option::Some(ns[0])
    } else {
        find_node(ns.drop_first(), name)
    }
}

pub proof fn lemma_find_node_skip(ns: Seq<NodeView>, name: Seq<u8>, i: int)
    requires
        0 <= i <= ns.len(),
        forall|j: int| 0 <= j < i ==> ns[j].name != name,
    ensures
        find_node(ns, name) == find_node(ns.skip(i), name),
    decreases i,
{
    if i > 0 {
        assert(ns.len() > 0 && ns[0].name != name);
        lemma_find_node_skip(ns.drop_first(), name, i - 1);
        assert(ns.drop_first().skip(i - 1) =~= ns.skip(i));
    } else {
        assert(ns.skip(0) =~= ns);
    }
}

/// The suffixes that the listing of `prefix` reports: for every node whose
/// name begins with `prefix`, the name with the prefix removed.
pub open spec fn list_names(ns: Seq<NodeView>, prefix: Seq<u8>) -> Seq<Seq<u8>>
    decreases ns.len(),
{
    if ns.len() == 0 {
        Seq::empty()
    } else {
        (if starts_with(ns[0].name, prefix) {
            seq![ns[0].name.skip(prefix.len() as int)]
        } else {
            Seq::<Seq<u8>>::empty()
        }) + list_names(ns.drop_first(), prefix)
    }
}

pub proof fn lemma_list_names_snoc(ns: Seq<NodeView>, prefix: Seq<u8>, n: NodeView)
    ensures
        list_names(ns.push(n), prefix) == list_names(ns, prefix) + (if starts_with(
            n.name,
            prefix,
        ) {
            seq![n.name.skip(prefix.len() as int)]
        } else {
            Seq::<Seq<u8>>::empty()
        }),
    decreases ns.len(),
{
    let p = ns.push(n);
    let ghost part = if starts_with(n.name, prefix) {
        seq![n.name.skip(prefix.len() as int)]
    } else {
        Seq::<Seq<u8>>::empty()
    };
    if ns.len() == 0 {
        assert(p[0] == n);
        assert(p.drop_first() =~= ns);
        assert(list_names(p, prefix) == part + list_names(ns, prefix));
        assert(list_names(p, prefix) =~= list_names(ns, prefix) + part);
    } else {
        assert(p[0] == ns[0]);
        assert(p.drop_first() =~= ns.drop_first().push(n));
        lemma_list_names_snoc(ns.drop_first(), prefix, n);
        assert(list_names(p, prefix) =~= list_names(ns, prefix) + part);
    }
}

/// The mounted filesystem: the device, the decoded header, and the node
/// index loaded once at mount.
pub struct FileSystem {
    pub disk: Disk,
    pub header: Header,
    pub nodes: Vec<Node>,
}

impl FileSystem {
    /// The records of the index are well formed. Kept by every operation.
    pub open spec fn wf(&self) -> bool {
        &&& self.header.wf()
        &&& forall|i: int| 0 <= i < self.nodes@.len() ==> (#[trigger] self.nodes@[i]).wf()
    }

    /// The index is exactly what the device holds: true at mount, and until
    /// a flush first rewrites the sectors a node table shares with file
    /// data.
    pub open spec fn index_matches_disk(&self) -> bool {
        &&& spec_mountable(self.disk@)
        &&& self.header@ == parse_header(header_sector(self.disk@))
        &&& views_of_nodes(self.nodes@) == nodes_of(self.disk@, self.header@.extents)
    }

    /// Mount: identify the device, read and check the header in sector 1,
    /// then load every node record the header's used extents point at.
    /// Yields the filesystem exactly when the disk is mountable.
    pub fn from_disk(disk: Disk) -> (r: Option<FileSystem>)
        ensures
            r.is_some() == spec_mountable(disk@),
            match r {
                Option::Some(fs) => fs.wf() && fs.index_matches_disk() && fs.disk@ == disk@,
                Option::None => true,
            },
    {
        if !disk.identify() {
            return Option::None;
        }
        let sector = disk.read(1, 1);
        let header = Header::parse(&sector);
        assert(header@ == parse_header(header_sector(disk@)));
        if !header.valid() {
            return Option::None;
        }
        let disk_len = disk.size();
        let mut nodes: Vec<Node> = Vec::new();
        let mut ei: usize = 0;
        while ei < 16
            invariant
                ei <= 16,
                views_of_nodes(nodes@) == nodes_of(disk@, header@.extents.take(ei as int)),
                forall|i: int| 0 <= i < nodes@.len() ==> (#[trigger] nodes@[i]).wf(),
                forall|i: int|
                    0 <= i < ei ==> ((#[trigger] header@.extents[i]).spec_used()
                        ==> header@.extents[i].in_range(disk@.len() as int)),
            decreases 16 - ei,
        {
            let e = header.extents[ei];
            if e.used() {
                if !e.check_in_range(disk_len) {
                    return Option::None;
                }
                Self::load_extent_nodes(&disk, e, &mut nodes);
            }
            proof {
                lemma_nodes_of_snoc(disk@, header@.extents.take(ei as int), header@.extents[
                    ei as int]);
                assert(header@.extents.take(ei + 1) =~= header@.extents.take(ei as int).push(
                    header@.extents[ei as int],
                ));
            }
            ei += 1;
        }
        proof {
            assert(header@.extents.take(16) =~= header@.extents);
        }
        Option::Some(FileSystem { disk, header, nodes })
    }

    /// Load the node records of one used, in-range node-table extent,
    /// appending them in disk order.
    fn load_extent_nodes(disk: &Disk, e: Extent, nodes: &mut Vec<Node>)
        requires
            e.spec_used(),
            e.in_range(disk@.len() as int),
            forall|i: int| 0 <= i < old(nodes)@.len() ==> (#[trigger] old(nodes)@[i]).wf(),
        ensures
            views_of_nodes(final(nodes)@) == views_of_nodes(old(nodes)@) + nodes_in_extent(
                disk@,
                e,
            ),
            forall|i: int| 0 <= i < final(nodes)@.len() ==> (#[trigger] final(nodes)@[i]).wf(),
    {
        let dl = disk.size();
        let sectors = e.sectors();
        assert(e.block * 512 + sectors * 512 <= dl);
        let data = disk.read_range(e.block, sectors);
        let dn = data.len();
        let count: u64 = e.length / 512;
        assert(count <= sectors);
        let mut i: u64 = 0;
        while i < count
            invariant
                i <= count,
                views_of_nodes(nodes@) == views_of_nodes(old(nodes)@) + nodes_in_extent(
                    disk@,
                    e,
                ).take(i as int),
                forall|k: int| 0 <= k < nodes@.len() ==> (#[trigger] nodes@[k]).wf(),
            decreases count - i,
        {
            assert((i + 1) * 512 <= sectors * 512);
            assert(e.block + i + 1 <= e.block + sectors);
            assert((e.block + sectors) * 512 <= dl);
            assert(data@.len() == dn);
            let off: usize = (i * 512) as usize;
            let chunk = bytes_slice(&data, off, off + 512);
            proof {
                assert(chunk@ =~= disk@.subrange((e.block + i) * 512, (e.block + i) * 512 + 512));
            }
            let nd = NodeData::parse(&chunk);
            let node = Node::new(e.block + i, &nd);
            let ghost before = nodes@;
            let ghost nv = node@;
            nodes.push(node);
            proof {
                assert(nv == parse_node_at(disk@, (e.block + i) as u64));
                assert(nodes@ == before.push(nodes@[before.len() as int]));
                assert(views_of_nodes(nodes@) =~= views_of_nodes(before).push(nv));
                assert(nodes_in_extent(disk@, e).take(i + 1) =~= nodes_in_extent(disk@, e).take(
                    i as int,
                ).push(parse_node_at(disk@, (e.block + i) as u64)));
                assert(views_of_nodes(nodes@) =~= views_of_nodes(old(nodes)@) + nodes_in_extent(
                    disk@,
                    e,
                ).take(i + 1));
            }
            i += 1;
        }
        proof {
            assert(nodes_in_extent(disk@, e).take(count as int) =~= nodes_in_extent(disk@, e));
        }
    }

    /// Exact-name lookup: a copy of the first node named `filename`.
    pub fn node(&self, filename: &Vec<u8>) -> (r: Option<Node>)
        ensures
            match r {
                Option::Some(n) => find_node(views_of_nodes(self.nodes@), filename@)
                    == Option::Some(n@) && (self.wf() ==> n.wf()),
                Option::None => find_node(views_of_nodes(self.nodes@), filename@).is_none(),
            },
    {
        let ghost views = views_of_nodes(self.nodes@);
        let n = self.nodes.len();
        let mut i: usize = 0;
        while i < n
            invariant
                i <= n,
                forall|j: int| 0 <= j < i ==> (#[trigger] views[j]).name != filename@,
            decreases n - i,
        {
            if bytes_eq(&self.nodes[i].name, filename) {
                proof {
                    lemma_find_node_skip(views, filename@, i as int);
                    assert(views.skip(i as int)[0] == views[i as int]);
                }
                return Option::Some(self.nodes[i].clone());
            }
            i += 1;
        }
        proof {
            lemma_find_node_skip(views, filename@, n as int);
        }
        Option::None
    }

    /// Prefix listing: for every node whose name begins with `directory`,
    /// the name with that prefix removed, in table order.
    pub fn list(&self, directory: &Vec<u8>) -> (r: Vec<Vec<u8>>)
        ensures
            r.deep_view() == list_names(views_of_nodes(self.nodes@), directory@),
    {
        let ghost views = views_of_nodes(self.nodes@);
        let mut out: Vec<Vec<u8>> = Vec::new();
        let n = self.nodes.len();
        let mut i: usize = 0;
        while i < n
            invariant
                i <= n,
                out.deep_view() == list_names(views.take(i as int), directory@),
            decreases n - i,
        {
            if bytes_starts_with(&self.nodes[i].name, directory) {
                let suffix = bytes_slice(&self.nodes[i].name, directory.len(), self.nodes[
                    i].name.len());
                out.push(suffix);
            }
            proof {
                lemma_list_names_snoc(views.take(i as int), directory@, views[i as int]);
                assert(views.take(i + 1) =~= views.take(i as int).push(views[i as int]));
                assert(out.deep_view() =~~= list_names(views.take(i + 1), directory@));
            }
            i += 1;
        }
        proof {
            assert(views.take(n as int) =~= views);
        }
        out
    }
}

} // verus!
