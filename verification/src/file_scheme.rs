//! The provider that binds the filesystem into the namespace. Opening a
//! path ending in `/` (or empty) synthesizes a directory listing; any other
//! path opens the named file with its contents materialized from every used
//! extent. Handles live in the provider's own table.

use vstd::prelude::*;
use vstd::math::min;
use crate::disk::Disk;
use crate::error::{Error, SysResult, EBADF, EINVAL, ENOENT};
use crate::extent::Extent;
use crate::filesystem::{find_node, list_names, spec_mountable, views_of_nodes, FileSystem};
use crate::handle_table::{has_id, HandleTable};
use crate::layout::NodeView;
use crate::resource::{node_content, read_model, seek_model, sync_model, write_model,
    FileResource, FileResourceView, Resource, ResourceSeek, ResourceType, VecResource};
use crate::scheme::{Scheme, SEEK_CUR, SEEK_END, SEEK_SET};
use crate::url::Url;
use crate::util::{bytes_eq, bytes_slice, find_byte};

verus! {

/// One listing line for a suffix: a suffix holding `/` stands for the
/// directory up to and including its first `/`; any other non-empty suffix
/// stands for itself.
pub open spec fn dir_entries(suffixes: Seq<Seq<u8>>, seen: Seq<Seq<u8>>) -> Seq<Seq<u8>>
    decreases suffixes.len(),
{
    if suffixes.len() == 0 {
        Seq::empty()
    } else {
        let s = suffixes[0];
        let k = find_byte(s, 47);
        if k < s.len() {
            let d = s.take(k + 1);
            if seen.contains(d) {
                dir_entries(suffixes.drop_first(), seen)
            } else {
                seq![d] + dir_entries(suffixes.drop_first(), seen.push(d))
            }
        } else if s.len() > 0 {
            seq![s] + dir_entries(suffixes.drop_first(), seen)
        } else {
            dir_entries(suffixes.drop_first(), seen)
        }
    }
}

/// Listing lines joined with a newline between each pair.
pub open spec fn join_lines(entries: Seq<Seq<u8>>) -> Seq<u8>
    decreases entries.len(),
{
    if entries.len() == 0 {
        Seq::empty()
    } else if entries.len() == 1 {
        entries[0]
    } else {
        entries[0] + seq![10u8] + join_lines(entries.drop_first())
    }
}

pub proof fn lemma_join_lines_snoc(entries: Seq<Seq<u8>>, e: Seq<u8>)
    ensures
        join_lines(entries.push(e)) == if entries.len() == 0 {
            e
        } else {
            join_lines(entries) + seq![10u8] + e
        },
    decreases entries.len(),
{
    let p = entries.push(e);
    if entries.len() == 0 {
        assert(p.len() == 1);
        assert(p[0] == e);
    } else {
        assert(p[0] == entries[0]);
        assert(p.drop_first() =~= entries.drop_first().push(e));
        lemma_join_lines_snoc(entries.drop_first(), e);
        if entries.len() == 1 {
            assert(entries.drop_first().len() == 0);
            assert(join_lines(p) =~= join_lines(entries) + seq![10u8] + e);
        } else {
            assert(join_lines(p) =~= join_lines(entries) + seq![10u8] + e);
        }
    }
}

/// The full listing for `prefix`: the matching suffixes rendered as lines,
/// directories deduplicated in first-occurrence order, joined by newlines.
pub open spec fn spec_dir_listing(views: Seq<NodeView>, prefix: Seq<u8>) -> Seq<u8> {
    join_lines(dir_entries(list_names(views, prefix), Seq::empty()))
}

/// Every used extent of the run lies inside a disk of `dlen` bytes.
pub open spec fn all_used_in_range(exts: Seq<Extent>, dlen: int) -> bool {
    forall|i: int| 0 <= i < exts.len() ==> ((#[trigger] exts[i]).spec_used() ==> exts[i].in_range(
        dlen,
    ))
}

/// A path asking for a directory listing: empty, or ending in `/`.
pub open spec fn is_dir_path(path: Seq<u8>) -> bool {
    path.len() == 0 || path[path.len() - 1] == 47
}

/// A URL path with its leading slashes removed: node names carry no
/// leading `/`, and a file's own URL is `file:///` followed by its name.
pub open spec fn trim_slashes(s: Seq<u8>) -> Seq<u8>
    decreases s.len(),
{
    if s.len() > 0 && s[0] == 47 {
        trim_slashes(s.drop_first())
    } else {
        s
    }
}

proof fn lemma_trim_slashes(s: Seq<u8>, k: int)
    requires
        0 <= k <= s.len(),
        forall|j: int| 0 <= j < k ==> s[j] == 47,
        k == s.len() || s[k] != 47,
    ensures
        trim_slashes(s) == s.skip(k),
    decreases s.len(),
{
    if s.len() > 0 && s[0] == 47 {
        assert(k >= 1);
        lemma_trim_slashes(s.drop_first(), k - 1);
        assert(s.drop_first().skip(k - 1) =~= s.skip(k));
    } else {
        assert(k == 0);
        assert(s.skip(0) =~= s);
    }
}

/// Remove the leading slashes of a URL path.
fn trim_slashes_exec(v: &Vec<u8>) -> (r: Vec<u8>)
    ensures
        r@ == trim_slashes(v@),
{
    let n = v.len();
    let mut k: usize = 0;
    while k < n && v[k] == 47
        invariant
            k <= n,
            forall|j: int| 0 <= j < k ==> v@[j] == 47,
        decreases n - k,
    {
        k += 1;
    }
    proof {
        lemma_trim_slashes(v@, k as int);
    }
    bytes_slice(v, k, n)
}

/// Whether `list.deep_view()` holds `d@`.
fn contains_bytes(list: &Vec<Vec<u8>>, d: &Vec<u8>) -> (r: bool)
    ensures
        r == list.deep_view().contains(d@),
{
    let n = list.len();
    let mut i: usize = 0;
    while i < n
        invariant
            i <= n,
            forall|j: int| 0 <= j < i ==> list.deep_view()[j] != d@,
        decreases n - i,
    {
        let hit = bytes_eq(&list[i], d);
        proof {
            assert(list.deep_view()[i as int] =~= list@[i as int]@);
        }
        if hit {
            return true;
        }
        i += 1;
    }
    false
}

/// The provider serving the mounted filesystem under `file://`.
pub struct FileScheme {
    pub fs: FileSystem,
    pub files: HandleTable<Resource>,
}

impl FileScheme {
    /// The filesystem is sound, the handle table is sound, and every filed
    /// resource is well formed; a failed open is never filed.
    pub open spec fn wf(&self) -> bool {
        &&& self.fs.wf()
        &&& self.files.wf()
        &&& forall|i: int| 0 <= i < self.files@.len() ==> (#[trigger] self.files@[i]).1.wf()
        &&& forall|i: int|
            0 <= i < self.files@.len() ==> !((#[trigger] self.files@[i]).1 is Missing)
    }

    /// Probe the given devices in order and serve the first that mounts.
    pub fn new(disks: Vec<Disk>) -> (r: Option<FileScheme>)
        ensures
            match r {
                Some(s) => s.wf() && s.fs.index_matches_disk() && s.files@.len() == 0
                    && s.files.spec_next_id() == 1 && exists|i: int|
                    0 <= i < disks@.len() && #[trigger] spec_mountable(disks@[i]@) && s.fs.disk@
                        == disks@[i]@ && forall|j: int| 0 <= j < i ==> !spec_mountable(
                        disks@[j]@,
                    ),
                None => forall|i: int| 0 <= i < disks@.len() ==> !spec_mountable(
                    (#[trigger] disks@[i])@,
                ),
            },
    {
        let mut disks = disks;
        let total = disks.len();
        let ghost all = disks@;
        let mut k: usize = 0;
        while disks.len() > 0
            invariant
                total == all.len(),
                k <= total,
                disks@ == all.skip(k as int),
                forall|j: int| 0 <= j < k ==> !spec_mountable((#[trigger] all[j])@),
            decreases disks@.len(),
        {
            let d = disks.remove(0);
            assert(d == all[k as int]);
            match FileSystem::from_disk(d) {
                Some(fs) => {
                    return Some(FileScheme { fs, files: HandleTable::new() });
                },
                None => {},
            }
            proof {
                assert(disks@ =~= all.skip(k + 1));
            }
            k += 1;
        }
        None
    }

    /// The provider's name in the namespace.
    pub fn scheme(&self) -> (r: &'static str)
        ensures
            r@ == "file"@,
    {
        "file"
    }

    /// Render the directory listing for `path`.
    fn dir_listing(&self, path: &Vec<u8>) -> (r: Vec<u8>)
        ensures
            r@ == spec_dir_listing(views_of_nodes(self.fs.nodes@), path@),
    {
        let suffixes = self.fs.list(path);
        let ghost full = suffixes.deep_view();
        let n = suffixes.len();
        let mut seen: Vec<Vec<u8>> = Vec::new();
        let mut entries: Vec<Vec<u8>> = Vec::new();
        let mut i: usize = 0;
        proof {
            assert(full.skip(0) =~= full);
            assert(entries.deep_view() =~~= Seq::<Seq<u8>>::empty());
            assert(seen.deep_view() =~~= Seq::<Seq<u8>>::empty());
            assert(dir_entries(full, Seq::empty()) =~~= entries.deep_view() + dir_entries(
                full.skip(0),
                seen.deep_view(),
            ));
        }
        while i < n
            invariant
                i <= n,
                n == full.len(),
                suffixes.deep_view() == full,
                dir_entries(full, Seq::empty()) == entries.deep_view() + dir_entries(
                    full.skip(i as int),
                    seen.deep_view(),
                ),
            decreases n - i,
        {
            let ghost pre_entries = entries.deep_view();
            let ghost pre_seen = seen.deep_view();
            let ghost s = full[i as int];
            proof {
                assert(s == suffixes@[i as int]@);
                assert(full.skip(i as int)[0] == s);
                assert(full.skip(i as int).drop_first() =~= full.skip(i + 1));
            }
            let slen = suffixes[i].len();
            match crate::util::bytes_find(&suffixes[i], 47) {
                Some(k) => {
                    let d = bytes_slice(&suffixes[i], 0, k + 1);
                    proof {
                        assert(d@ =~= s.take(find_byte(s, 47) + 1));
                    }
                    if !contains_bytes(&seen, &d) {
                        let d2 = bytes_slice(&d, 0, d.len());
                        entries.push(d2);
                        seen.push(d);
                        proof {
                            assert(entries.deep_view() =~~= pre_entries.push(s.take(
                                find_byte(s, 47) + 1,
                            )));
                            assert(seen.deep_view() =~~= pre_seen.push(s.take(
                                find_byte(s, 47) + 1,
                            )));
                            assert(dir_entries(full.skip(i as int), pre_seen) =~~= seq![s.take(
                                find_byte(s, 47) + 1,
                            )] + dir_entries(full.skip(i + 1), seen.deep_view()));
                            assert(dir_entries(full, Seq::empty()) =~~= entries.deep_view()
                                + dir_entries(full.skip(i + 1), seen.deep_view()));
                        }
                    } else {
                        proof {
                            assert(dir_entries(full, Seq::empty()) =~~= entries.deep_view()
                                + dir_entries(full.skip(i + 1), seen.deep_view()));
                        }
                    }
                },
                None => {
                    if slen > 0 {
                        let s2 = bytes_slice(&suffixes[i], 0, slen);
                        entries.push(s2);
                        proof {
                            assert(s2@ =~= s);
                            assert(entries.deep_view() =~~= pre_entries.push(s));
                            assert(find_byte(s, 47) >= s.len());
                            assert(dir_entries(full, Seq::empty()) =~~= entries.deep_view()
                                + dir_entries(full.skip(i + 1), seen.deep_view()));
                        }
                    } else {
                        proof {
                            assert(dir_entries(full, Seq::empty()) =~~= entries.deep_view()
                                + dir_entries(full.skip(i + 1), seen.deep_view()));
                        }
                    }
                },
            }
            i += 1;
        }
        proof {
            assert(full.skip(n as int) =~= Seq::<Seq<u8>>::empty());
            assert(dir_entries(full, Seq::empty()) =~~= entries.deep_view());
        }
        let m = entries.len();
        let mut out: Vec<u8> = Vec::new();
        let mut j: usize = 0;
        while j < m
            invariant
                j <= m,
                m == entries.deep_view().len(),
                out@ == join_lines(entries.deep_view().take(j as int)),
                dir_entries(full, Seq::empty()) == entries.deep_view(),
            decreases m - j,
        {
            let ghost pre_out = out@;
            let ghost ej = entries.deep_view()[j as int];
            if j > 0 {
                out.push(10);
            }
            let elen = entries[j].len();
            let mut p: usize = 0;
            while p < elen
                invariant
                    p <= elen,
                    elen == ej.len(),
                    ej == entries.deep_view()[j as int],
                    j < m,
                    m == entries.deep_view().len(),
                    out@ =~= (if j > 0 {
                        pre_out + seq![10u8]
                    } else {
                        pre_out
                    }) + ej.take(p as int),
                decreases elen - p,
            {
                out.push(entries[j][p]);
                proof {
                    assert(ej == entries@[j as int]@);
                    assert(out@ =~= (if j > 0 {
                        pre_out + seq![10u8]
                    } else {
                        pre_out
                    }) + ej.take(p + 1));
                }
                p += 1;
            }
            proof {
                lemma_join_lines_snoc(entries.deep_view().take(j as int), ej);
                assert(entries.deep_view().take(j + 1) =~= entries.deep_view().take(j as int)
                    .push(ej));
                assert(ej.take(ej.len() as int) =~= ej);
                assert(out@ =~= join_lines(entries.deep_view().take(j + 1)));
            }
            j += 1;
        }
        proof {
            assert(entries.deep_view().take(m as int) =~= entries.deep_view());
        }
        out
    }

    /// Open `url`'s path against the index: a synthesized listing for an
    /// empty path or one ending in `/`; otherwise the named file with its
    /// contents read from every used extent in order; the distinguished
    /// missing resource when the name is unknown or an extent lies outside
    /// the disk.
    pub fn open_url(&self, url: &Url) -> (r: Resource)
        requires
            self.wf(),
        ensures
            r.wf(),
            is_dir_path(trim_slashes(url@.path)) ==> (r matches Resource::Data(vr) && vr@.data
                == spec_dir_listing(views_of_nodes(self.fs.nodes@), trim_slashes(url@.path))
                && vr@.seek == 0 && vr@.resource_type == ResourceType::Dir && vr@.url == url@),
            !is_dir_path(trim_slashes(url@.path)) ==> match find_node(
                views_of_nodes(self.fs.nodes@),
                trim_slashes(url@.path),
            ) {
                Some(nv) => if all_used_in_range(nv.extents, self.fs.disk@.len() as int) {
                    r matches Resource::File(fr) && fr@.node == nv && fr@.data == node_content(
                        self.fs.disk@,
                        nv.extents,
                    ) && fr@.seek == 0 && fr@.dirty == false
                } else {
                    r is Missing
                },
                None => r is Missing,
            },
    {
        let trimmed = trim_slashes_exec(&url.path);
        let path = &trimmed;
        let plen = path.len();
        let dir = plen == 0 || path[plen - 1] == 47;
        if dir {
            let data = self.dir_listing(path);
            let u = Url {
                scheme: bytes_slice(&url.scheme, 0, url.scheme.len()),
                path: bytes_slice(&url.path, 0, url.path.len()),
            };
            proof {
                assert(u@.scheme =~= url@.scheme);
                assert(u@.path =~= url@.path);
            }
            return Resource::Data(VecResource::new(u, ResourceType::Dir, data));
        }
        match self.fs.node(path) {
            Some(node) => {
                let dl = self.fs.disk.size();
                let mut vec: Vec<u8> = Vec::new();
                let mut ei: usize = 0;
                while ei < 16
                    invariant
                        ei <= 16,
                        node.wf(),
                        self.wf(),
                        vec@ == node_content(self.fs.disk@, node.extents@.take(ei as int)),
                        forall|j: int|
                            0 <= j < ei ==> ((#[trigger] node.extents@[j]).spec_used()
                                ==> node.extents@[j].in_range(self.fs.disk@.len() as int)),
                    decreases 16 - ei,
                {
                    let e = node.extents[ei];
                    if e.used() {
                        if !e.check_in_range(self.fs.disk.size()) {
                            return Resource::Missing;
                        }
                        let mut part = self.fs.disk.read_extent(&e);
                        vec.append(&mut part);
                    }
                    proof {
                        crate::resource::lemma_node_content_snoc(
                            self.fs.disk@,
                            node.extents@.take(ei as int),
                            node.extents@[ei as int],
                        );
                        assert(node.extents@.take(ei + 1) =~= node.extents@.take(ei as int).push(
                            node.extents@[ei as int],
                        ));
                    }
                    ei += 1;
                }
                proof {
                    assert(node.extents@.take(16) =~= node.extents@);
                }
                Resource::File(FileResource { node, vec, seek: 0, dirty: false })
            },
            None => Resource::Missing,
        }
    }
}

/// How a seek request's offset and `whence` select a seek: `SEEK_SET` from
/// the start (a negative offset clamps to zero), `SEEK_CUR` from the
/// current offset, `SEEK_END` from the end; any other `whence` is refused.
pub open spec fn spec_whence(pos: isize, whence: usize) -> Option<ResourceSeek> {
    if whence == 0 {
        Some(ResourceSeek::Start((if pos < 0 { 0 } else { pos }) as usize))
    } else if whence == 1 {
        Some(ResourceSeek::Current(pos))
    } else if whence == 2 {
        Some(ResourceSeek::End(pos))
    } else {
        None
    }
}

/// Turn an offset and `whence` into a seek request.
pub fn whence_to_seek(pos: isize, whence: usize) -> (r: Option<ResourceSeek>)
    ensures
        r == spec_whence(pos, whence),
{
    if whence == SEEK_SET {
        Some(ResourceSeek::Start(if pos < 0 { 0 } else { pos as usize }))
    } else if whence == SEEK_CUR {
        Some(ResourceSeek::Current(pos))
    } else if whence == SEEK_END {
        Some(ResourceSeek::End(pos))
    } else {
        None
    }
}

impl Scheme for FileScheme {
    open spec fn inv(&self) -> bool {
        self.wf()
    }

    open spec fn has_handle(&self, id: usize) -> bool {
        has_id(self.files@, id)
    }

    /// Open a path under the file scheme and file the resource under a
    /// fresh handle id. An unknown name (or a file whose extents run off
    /// the disk) answers the not-found error; a table already holding every
    /// representable id answers the invalid-argument error.
    fn open(&mut self, path: &Vec<u8>, flags: usize, mode: usize) -> (r: SysResult)
        ensures
            final(self).fs == old(self).fs,
            old(self).files@.len() == usize::MAX ==> r == Err::<usize, Error>(
                Error { errno: EINVAL },
            ) && *final(self) == *old(self),
            old(self).files@.len() < usize::MAX ==> ({
                let views = views_of_nodes(old(self).fs.nodes@);
                let p = trim_slashes(path@);
                let missing = !is_dir_path(p) && (match find_node(views, p) {
                    Some(nv) => !all_used_in_range(nv.extents, old(self).fs.disk@.len() as int),
                    None => true,
                });
                &&& missing ==> r == Err::<usize, Error>(Error { errno: ENOENT }) && *final(self)
                    == *old(self)
                &&& !missing ==> (r matches Ok(id) && id >= 1 && !has_id(old(self).files@, id)
                    && (!has_id(old(self).files@, old(self).files.spec_next_id()) ==> id == old(
                    self,
                ).files.spec_next_id()) && (has_id(
                    old(self).files@,
                    old(self).files.spec_next_id(),
                ) ==> forall|c: usize| 1 <= c < id ==> #[trigger] has_id(old(self).files@, c))
                    && final(self).files.spec_next_id() as int == (if id >= isize::MAX as usize {
                    1int
                } else {
                    id + 1
                }) && final(self).files@ == old(self).files@.push(
                    (id, final(self).files@.last().1),
                ) && (is_dir_path(p) ==> (final(self).files@.last().1 matches Resource::Data(
                    vr,
                ) && vr@.data == spec_dir_listing(views, p) && vr@.seek == 0
                    && vr@.resource_type == ResourceType::Dir)) && (!is_dir_path(p) ==> (
                final(self).files@.last().1 matches Resource::File(fr) && Some(fr@.node)
                    == find_node(views, p) && fr@.data == node_content(
                    old(self).fs.disk@,
                    fr@.node.extents,
                ) && fr@.seek == 0 && fr@.dirty == false)))
            }),
    {
        if self.files.len() == usize::MAX {
            return Err(Error::new(EINVAL));
        }
        let mut scheme_name: Vec<u8> = Vec::new();
        scheme_name.push(102);
        scheme_name.push(105);
        scheme_name.push(108);
        scheme_name.push(101);
        let u = Url { scheme: scheme_name, path: bytes_slice(path, 0, path.len()) };
        proof {
            assert(u@.path =~= path@);
        }
        let res = self.open_url(&u);
        match res {
            Resource::Missing => Err(Error::new(ENOENT)),
            res => {
                let ghost pre = self.files@;
                let id = self.files.insert(res);
                proof {
                    assert forall|i: int|
                        0 <= i < self.files@.len() implies (#[trigger] self.files@[i]).1.wf() by {
                        if i < pre.len() {
                            assert(self.files@[i] == pre[i]);
                        }
                    }
                    assert forall|i: int|
                        0 <= i < self.files@.len() implies !((#[trigger] self.files@[i]).1
                        is Missing) by {
                        if i < pre.len() {
                            assert(self.files@[i] == pre[i]);
                        }
                    }
                }
                Ok(id)
            },
        }
    }

    /// Nothing can be unlinked through this provider.
    fn unlink(&mut self, path: &Vec<u8>) -> (r: SysResult)
        ensures
            *final(self) == *old(self),
            r == Err::<usize, Error>(Error { errno: ENOENT }),
    {
        Err(Error::new(ENOENT))
    }

    /// Nothing can be created through this provider.
    fn mkdir(&mut self, path: &Vec<u8>, mode: usize) -> (r: SysResult)
        ensures
            *final(self) == *old(self),
            r == Err::<usize, Error>(Error { errno: ENOENT }),
    {
        Err(Error::new(ENOENT))
    }

    /// Read from the handle's resource into the front of `buf`.
    fn read(&mut self, id: usize, buf: &mut Vec<u8>) -> (r: SysResult)
        ensures
            final(self).fs == old(self).fs,
            !has_id(old(self).files@, id) ==> *final(self) == *old(self) && *final(buf) == *old(
                buf,
            ),
            has_id(old(self).files@, id) ==> exists|i: int|
                0 <= i < old(self).files@.len() && (#[trigger] old(self).files@[i]).0 == id
                    && final(self).files@.len() == old(self).files@.len() && (forall|j: int|
                    0 <= j < old(self).files@.len() && j != i ==> final(self).files@[j] == old(
                        self,
                    ).files@[j]) && final(self).files@[i].0 == id && (match old(
                    self,
                ).files@[i].1 {
                    Resource::File(fr) => {
                        let m2 = read_model(fr@, old(buf)@.len() as int).0;
                        let bytes = read_model(fr@, old(buf)@.len() as int).1;
                        &&& r == Ok::<usize, Error>(bytes.len() as usize)
                        &&& final(self).files@[i].1 matches Resource::File(fr2) && fr2@ == m2
                        &&& final(buf)@ == bytes + old(buf)@.skip(bytes.len() as int)
                    },
                    Resource::Data(vr) => {
                        let n = min(old(buf)@.len() as int, vr@.data.len() - vr@.seek);
                        &&& r == Ok::<usize, Error>(n as usize)
                        &&& final(self).files@[i].1 matches Resource::Data(vr2) && vr2@.data
                            == vr@.data && vr2@.seek == vr@.seek + n && vr2@.url == vr@.url
                            && vr2@.resource_type == vr@.resource_type
                        &&& final(buf)@ == vr@.data.subrange(vr@.seek, vr@.seek + n) + old(
                            buf,
                        )@.skip(n)
                    },
                    Resource::Missing => false,
                }),
    {
        match self.files.index_of(id) {
            None => Err(Error::new(EBADF)),
            Some(i) => {
                let res = self.files.at_mut(i);
                match res {
                    Resource::File(fr) => {
                        let n = fr.read(buf);
                        Ok(n)
                    },
                    Resource::Data(vr) => {
                        let n = vr.read(buf);
                        Ok(n)
                    },
                    Resource::Missing => Err(Error::new(EBADF)),
                }
            },
        }
    }

    /// Write `buf` at the handle's offset: overwrite-and-extend on an open
    /// file, ignored on a synthesized resource.
    fn write(&mut self, id: usize, buf: &Vec<u8>) -> (r: SysResult)
        ensures
            final(self).fs == old(self).fs,
            !has_id(old(self).files@, id) ==> *final(self) == *old(self),
            has_id(old(self).files@, id) ==> exists|i: int|
                0 <= i < old(self).files@.len() && (#[trigger] old(self).files@[i]).0 == id
                    && final(self).files@.len() == old(self).files@.len() && (forall|j: int|
                    0 <= j < old(self).files@.len() && j != i ==> final(self).files@[j] == old(
                        self,
                    ).files@[j]) && final(self).files@[i].0 == id && (match old(
                    self,
                ).files@[i].1 {
                    Resource::File(fr) => {
                        &&& r == Ok::<usize, Error>(buf@.len() as usize)
                        &&& final(self).files@[i].1 matches Resource::File(fr2) && fr2@
                            == write_model(fr@, buf@)
                    },
                    Resource::Data(vr) => r == Ok::<usize, Error>(0) && final(self).files@[i]
                        == old(self).files@[i],
                    Resource::Missing => false,
                }),
    {
        match self.files.index_of(id) {
            None => Err(Error::new(EBADF)),
            Some(i) => {
                let res = self.files.at_mut(i);
                match res {
                    Resource::File(fr) => {
                        let n = fr.write(buf);
                        Ok(n)
                    },
                    Resource::Data(vr) => {
                        let n = vr.write(buf);
                        Ok(n)
                    },
                    Resource::Missing => Err(Error::new(EBADF)),
                }
            },
        }
    }

    /// Move the handle's offset as `whence` directs; an unknown `whence`
    /// answers the invalid-argument error.
    fn seek(&mut self, id: usize, pos: isize, whence: usize) -> (r: SysResult)
        ensures
            final(self).fs == old(self).fs,
            !has_id(old(self).files@, id) ==> *final(self) == *old(self),
            has_id(old(self).files@, id) && spec_whence(pos, whence) is None ==> *final(self)
                == *old(self) && r == Err::<usize, Error>(Error { errno: EINVAL }),
            has_id(old(self).files@, id) && spec_whence(pos, whence) is Some ==> exists|i: int|
                0 <= i < old(self).files@.len() && (#[trigger] old(self).files@[i]).0 == id
                    && final(self).files@.len() == old(self).files@.len() && (forall|j: int|
                    0 <= j < old(self).files@.len() && j != i ==> final(self).files@[j] == old(
                        self,
                    ).files@[j]) && final(self).files@[i].0 == id && (match old(
                    self,
                ).files@[i].1 {
                    Resource::File(fr) => {
                        let m2 = seek_model(fr@, spec_whence(pos, whence).unwrap());
                        &&& r == Ok::<usize, Error>(m2.seek as usize)
                        &&& final(self).files@[i].1 matches Resource::File(fr2) && fr2@ == m2
                    },
                    Resource::Data(vr) => {
                        let t = min(
                            crate::resource::seek_target(
                                vr@.data.len() as int,
                                vr@.seek,
                                spec_whence(pos, whence).unwrap(),
                            ),
                            usize::MAX as int,
                        );
                        &&& r == Ok::<usize, Error>(t as usize)
                        &&& final(self).files@[i].1 matches Resource::Data(vr2) && vr2@.seek == t
                            && vr2@.data == (if t > vr@.data.len() {
                            vr@.data + crate::resource::zeros(t - vr@.data.len())
                        } else {
                            vr@.data
                        }) && vr2@.url == vr@.url && vr2@.resource_type == vr@.resource_type
                    },
                    Resource::Missing => false,
                }),
    {
        match self.files.index_of(id) {
            None => Err(Error::new(EBADF)),
            Some(i) => {
                match whence_to_seek(pos, whence) {
                    None => Err(Error::new(EINVAL)),
                    Some(rs) => {
                        let res = self.files.at_mut(i);
                        match res {
                            Resource::File(fr) => {
                                let n = fr.seek(rs);
                                Ok(n)
                            },
                            Resource::Data(vr) => {
                                let n = vr.seek(rs);
                                Ok(n)
                            },
                            Resource::Missing => Err(Error::new(EBADF)),
                        }
                    },
                }
            },
        }
    }

    /// Flush the handle's buffer back to its node's extents; synthesized
    /// resources have nothing to flush.
    fn sync(&mut self, id: usize) -> (r: SysResult)
        ensures
            final(self).fs.header == old(self).fs.header,
            final(self).fs.nodes == old(self).fs.nodes,
            !has_id(old(self).files@, id) ==> *final(self) == *old(self),
            has_id(old(self).files@, id) ==> r == Ok::<usize, Error>(0) && exists|i: int|
                0 <= i < old(self).files@.len() && (#[trigger] old(self).files@[i]).0 == id
                    && final(self).files@.len() == old(self).files@.len() && (forall|j: int|
                    0 <= j < old(self).files@.len() && j != i ==> final(self).files@[j] == old(
                        self,
                    ).files@[j]) && final(self).files@[i].0 == id && (match old(
                    self,
                ).files@[i].1 {
                    Resource::File(fr) => {
                        &&& !fr@.dirty ==> final(self).fs.disk@ == old(self).fs.disk@
                            && final(self).files@[i] == old(self).files@[i]
                        &&& fr@.dirty ==> ({
                            let out = sync_model(old(self).fs.disk@, fr@.node.extents, fr@.data, 0);
                            &&& final(self).fs.disk@ == out.disk
                            &&& final(self).files@[i].1 matches Resource::File(fr2)
                                && fr2@.node.extents == out.extents && fr2@.data == fr@.data
                                && fr2@.seek == fr@.seek && fr2@.dirty == false
                        })
                    },
                    Resource::Data(vr) => final(self).fs.disk@ == old(self).fs.disk@
                        && final(self).files@[i] == old(self).files@[i],
                    Resource::Missing => false,
                }),
    {
        match self.files.index_of(id) {
            None => Err(Error::new(EBADF)),
            Some(i) => {
                let res = self.files.at_mut(i);
                match res {
                    Resource::File(fr) => {
                        fr.sync(&mut self.fs.disk);
                        Ok(0)
                    },
                    Resource::Data(vr) => Ok(0),
                    Resource::Missing => Err(Error::new(EBADF)),
                }
            },
        }
    }

    /// Truncation is not supported by this provider: a live handle answers
    /// the invalid-argument error.
    fn truncate(&mut self, id: usize, len: usize) -> (r: SysResult)
        ensures
            *final(self) == *old(self),
            has_id(old(self).files@, id) ==> r == Err::<usize, Error>(Error { errno: EINVAL }),
            !has_id(old(self).files@, id) ==> r == Err::<usize, Error>(Error { errno: EBADF }),
    {
        if self.files.contains(id) {
            Err(Error::new(EINVAL))
        } else {
            Err(Error::new(EBADF))
        }
    }

    /// Flush the handle's buffer and release it.
    fn close(&mut self, id: usize) -> (r: SysResult)
        ensures
            final(self).fs.header == old(self).fs.header,
            final(self).fs.nodes == old(self).fs.nodes,
            !has_id(old(self).files@, id) ==> *final(self) == *old(self),
            has_id(old(self).files@, id) ==> r == Ok::<usize, Error>(0) && exists|i: int|
                0 <= i < old(self).files@.len() && (#[trigger] old(self).files@[i]).0 == id
                    && final(self).files@ == old(self).files@.remove(i) && (match old(
                    self,
                ).files@[i].1 {
                    Resource::File(fr) => {
                        &&& !fr@.dirty ==> final(self).fs.disk@ == old(self).fs.disk@
                        &&& fr@.dirty ==> final(self).fs.disk@ == sync_model(
                            old(self).fs.disk@,
                            fr@.node.extents,
                            fr@.data,
                            0,
                        ).disk
                    },
                    _ => final(self).fs.disk@ == old(self).fs.disk@,
                }),
    {
        match self.files.remove(id) {
            None => Err(Error::new(EBADF)),
            Some(res) => {
                match res {
                    Resource::File(mut fr) => {
                        fr.sync(&mut self.fs.disk);
                    },
                    _ => {},
                }
                Ok(0)
            },
        }
    }
}

} // verus!
