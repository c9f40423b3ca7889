//! Mounting disk images: header validation, node loading, lookup, and the
//! flush path.

use redoxfs::disk::Disk;
use redoxfs::extent::Extent;
use redoxfs::filesystem::FileSystem;
use redoxfs::resource::{FileResource, ResourceSeek};

fn le64(x: u64) -> [u8; 8] {
    x.to_le_bytes()
}

fn put(image: &mut Vec<u8>, at: usize, bytes: &[u8]) {
    image[at..at + bytes.len()].copy_from_slice(bytes);
}

/// An image with a boot sector, a header naming one node-table extent at
/// sector 2, one node record, and data sectors.
fn image(signature: &[u8; 8], version: u32, sectors: usize) -> Vec<u8> {
    let mut image = vec![0u8; sectors * 512];
    put(&mut image, 512, signature);
    put(&mut image, 520, &version.to_le_bytes());
    image
}

fn set_extent(image: &mut Vec<u8>, sector: usize, slot: usize, block: u64, length: u64) {
    let at = sector * 512 + 256 + slot * 16;
    put(image, at, &le64(block));
    put(image, at + 8, &le64(length));
}

fn set_node(image: &mut Vec<u8>, sector: usize, name: &[u8]) {
    let at = sector * 512;
    put(image, at, name);
}

/// A five-sector image holding one node `hello` whose data is `world`.
fn hello_world_image() -> Vec<u8> {
    let mut img = image(b"REDOXFS\0", 0xFFFFFFFF, 5);
    set_extent(&mut img, 1, 0, 2, 512);
    set_node(&mut img, 2, b"hello");
    set_extent(&mut img, 2, 0, 3, 5);
    put(&mut img, 3 * 512, b"world");
    img
}

#[test]
fn mount_rejects_bad_magic() {
    let img = image(b"NOTREDOX", 0xFFFFFFFF, 5);
    assert!(FileSystem::from_disk(Disk::new(img)).is_none());
}

#[test]
fn mount_rejects_bad_version() {
    let img = image(b"REDOXFS\0", 0xFFFFFFFE, 5);
    assert!(FileSystem::from_disk(Disk::new(img)).is_none());
}

#[test]
fn mount_rejects_short_disk() {
    assert!(FileSystem::from_disk(Disk::new(vec![0u8; 512])).is_none());
}

#[test]
fn mount_rejects_extent_outside_disk() {
    let mut img = image(b"REDOXFS\0", 0xFFFFFFFF, 3);
    set_extent(&mut img, 1, 0, 7, 512);
    assert!(FileSystem::from_disk(Disk::new(img)).is_none());
}

#[test]
fn mount_accepts_valid_header() {
    // A valid header with one node-table extent at sector 2: after mount,
    // lookup finds `hello`, and its extent points at `world`.
    let fs = FileSystem::from_disk(Disk::new(hello_world_image())).unwrap();
    assert_eq!(fs.nodes.len(), 1);
    let node = fs.node(&b"hello".to_vec()).unwrap();
    assert_eq!(node.address, 2);
    assert_eq!(node.name, b"hello".to_vec());
    assert_eq!(node.extents[0], Extent { block: 3, length: 5 });
    assert!(fs.node(&b"other".to_vec()).is_none());
}

#[test]
fn list_strips_prefix() {
    let mut img = image(b"REDOXFS\0", 0xFFFFFFFF, 5);
    set_extent(&mut img, 1, 0, 2, 1024);
    set_node(&mut img, 2, b"a/b");
    set_node(&mut img, 3, b"a/c");
    let fs = FileSystem::from_disk(Disk::new(img)).unwrap();
    let names = fs.list(&b"a/".to_vec());
    assert_eq!(names, vec![b"b".to_vec(), b"c".to_vec()]);
}

#[test]
fn sync_when_full_reports_failure() {
    // A node with a single extent of 512 bytes: writing 600 bytes and
    // syncing writes what fits, clears the dirty flag, and reports that
    // the rest did not fit.
    let img = image(b"REDOXFS\0", 0xFFFFFFFF, 5);
    let mut disk = Disk::new(img);
    let mut extents = vec![Extent { block: 3, length: 512 }];
    for _ in 0..15 {
        extents.push(Extent { block: 0, length: 0 });
    }
    let mut r = FileResource {
        node: redoxfs::layout::Node {
            address: 2,
            name: b"f".to_vec(),
            extents,
        },
        vec: Vec::new(),
        seek: 0,
        dirty: false,
    };
    let payload = vec![7u8; 600];
    assert_eq!(r.write(&payload), 600);
    assert!(r.dirty);
    assert_eq!(r.sync(&mut disk), false);
    assert!(!r.dirty);
    let bytes = disk.into_bytes();
    assert_eq!(&bytes[3 * 512..4 * 512], &payload[..512]);
    // The in-memory extent length was brought up to what was written.
    assert_eq!(r.node.extents[0], Extent { block: 3, length: 512 });
}

#[test]
fn write_sync_reopen_sees_the_write() {
    // Write within the node's first extent, flush, and mount again: the
    // file's first bytes are the written bytes.
    let fs = FileSystem::from_disk(Disk::new(hello_world_image())).unwrap();
    let node = fs.node(&b"hello".to_vec()).unwrap();
    let mut disk = fs.disk;
    let mut r = FileResource {
        node,
        vec: b"world".to_vec(),
        seek: 0,
        dirty: false,
    };
    assert_eq!(r.write(&b"WOR".to_vec()), 3);
    assert_eq!(r.sync(&mut disk), true);
    let fs2 = FileSystem::from_disk(disk).unwrap();
    let node2 = fs2.node(&b"hello".to_vec()).unwrap();
    let mut r2 = FileResource {
        node: node2,
        vec: {
            let bytes = fs2.disk.into_bytes();
            bytes[3 * 512..3 * 512 + 5].to_vec()
        },
        seek: 0,
        dirty: false,
    };
    assert_eq!(r2.seek(ResourceSeek::Start(0)), 0);
    assert_eq!(r2.read_all(), b"WORld".to_vec());
}

#[test]
fn duplicate_names_first_match_wins() {
    // Node names need not be unique; lookup returns the first.
    let mut img = image(b"REDOXFS\0", 0xFFFFFFFF, 5);
    set_extent(&mut img, 1, 0, 2, 1024);
    set_node(&mut img, 2, b"twin");
    set_extent(&mut img, 2, 0, 4, 1);
    set_node(&mut img, 3, b"twin");
    set_extent(&mut img, 3, 0, 4, 2);
    let fs = FileSystem::from_disk(Disk::new(img)).unwrap();
    let node = fs.node(&b"twin".to_vec()).unwrap();
    assert_eq!(node.address, 2);
    assert_eq!(node.extents[0], Extent { block: 4, length: 1 });
}

#[test]
fn node_name_stops_at_first_nul() {
    let mut img = image(b"REDOXFS\0", 0xFFFFFFFF, 5);
    set_extent(&mut img, 1, 0, 2, 512);
    set_node(&mut img, 2, b"ab\0cd");
    let fs = FileSystem::from_disk(Disk::new(img)).unwrap();
    assert!(fs.node(&b"ab".to_vec()).is_some());
    assert!(fs.node(&b"ab\0cd".to_vec()).is_none());
}

#[test]
fn long_transfers_are_chunked() {
    // A run longer than 65,535 sectors crosses the request limit; the
    // bytes on both sides of the boundary survive the chunked read.
    let sectors = 65_537usize;
    let mut img = vec![0u8; sectors * 512];
    let boundary = 65_535usize * 512;
    img[boundary - 1] = 0xAA;
    img[boundary] = 0xBB;
    img[sectors * 512 - 1] = 0xCC;
    let disk = Disk::new(img);
    let all = disk.read_range(0, sectors as u64);
    assert_eq!(all.len(), sectors * 512);
    assert_eq!(all[boundary - 1], 0xAA);
    assert_eq!(all[boundary], 0xBB);
    assert_eq!(all[sectors * 512 - 1], 0xCC);
}
