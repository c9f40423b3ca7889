//! The per-open file buffer: overwrite-and-extend writes, clamped seeks,
//! and reading back.

use redoxfs::extent::Extent;
use redoxfs::layout::Node;
use redoxfs::resource::{FileResource, ResourceSeek, ResourceType};

fn empty_node() -> Node {
    let mut extents = Vec::new();
    for _ in 0..16 {
        extents.push(Extent { block: 0, length: 0 });
    }
    Node {
        address: 2,
        name: b"hello".to_vec(),
        extents,
    }
}

fn fresh(buffer: Vec<u8>) -> FileResource {
    FileResource {
        node: empty_node(),
        vec: buffer,
        seek: 0,
        dirty: false,
    }
}

#[test]
fn write_then_read_back_matches_model() {
    // A sequence of writes and seeks followed by read_all matches the
    // overwrite-and-extend byte-array model.
    let mut r = fresh(Vec::new());
    assert_eq!(r.write(&b"abcdef".to_vec()), 6);
    assert_eq!(r.seek(ResourceSeek::Start(2)), 2);
    assert_eq!(r.write(&b"XY".to_vec()), 2);
    assert_eq!(r.seek(ResourceSeek::Start(0)), 0);
    assert_eq!(r.read_all(), b"abXYef".to_vec());
    assert!(r.dirty);
}

#[test]
fn write_past_end_extends() {
    let mut r = fresh(b"ab".to_vec());
    assert_eq!(r.seek(ResourceSeek::Start(1)), 1);
    assert_eq!(r.write(&b"cde".to_vec()), 3);
    assert_eq!(r.seek(ResourceSeek::Start(0)), 0);
    assert_eq!(r.read_all(), b"acde".to_vec());
}

#[test]
fn empty_write_does_not_dirty() {
    let mut r = fresh(b"ab".to_vec());
    assert_eq!(r.write(&Vec::new()), 0);
    assert!(!r.dirty);
}

#[test]
fn seek_start_then_read_all_is_suffix() {
    // seek(Start(n)); read_all returns buffer[n..] for 0 <= n <= len.
    for n in 0..=5usize {
        let mut r = fresh(b"abcde".to_vec());
        assert_eq!(r.seek(ResourceSeek::Start(n)), n);
        assert_eq!(r.read_all(), b"abcde"[n..].to_vec());
    }
}

#[test]
fn seek_end_backwards() {
    // seek(End(-k)) lands len - k for k <= len, and 0 for k > len.
    let mut r = fresh(b"abcde".to_vec());
    assert_eq!(r.seek(ResourceSeek::End(-2)), 3);
    assert_eq!(r.seek(ResourceSeek::End(-5)), 0);
    assert_eq!(r.seek(ResourceSeek::End(-9)), 0);
    assert_eq!(r.seek(ResourceSeek::End(0)), 5);
}

#[test]
fn seek_current_clamps_at_zero() {
    let mut r = fresh(b"abcde".to_vec());
    assert_eq!(r.seek(ResourceSeek::Start(2)), 2);
    assert_eq!(r.seek(ResourceSeek::Current(-4)), 0);
    assert_eq!(r.seek(ResourceSeek::Current(3)), 3);
}

#[test]
fn seek_past_end_extends_with_zeros() {
    // Open an empty node, seek(Start(4)), write one byte: reading from the
    // start yields four NULs then the byte.
    let mut r = fresh(Vec::new());
    assert_eq!(r.seek(ResourceSeek::Start(4)), 4);
    assert_eq!(r.write(&b"X".to_vec()), 1);
    assert_eq!(r.seek(ResourceSeek::Start(0)), 0);
    assert_eq!(r.read_all(), b"\0\0\0\0X".to_vec());
}

#[test]
fn read_fills_prefix_and_advances() {
    let mut r = fresh(b"abcdef".to_vec());
    let mut buf = vec![0u8; 4];
    assert_eq!(r.read(&mut buf), 4);
    assert_eq!(buf, b"abcd".to_vec());
    let mut buf2 = vec![0u8; 4];
    assert_eq!(r.read(&mut buf2), 2);
    assert_eq!(buf2, vec![b'e', b'f', 0, 0]);
    let mut buf3 = vec![0u8; 4];
    assert_eq!(r.read(&mut buf3), 0);
}

#[test]
fn url_and_stat() {
    let r = fresh(Vec::new());
    assert_eq!(r.url(), b"file:///hello".to_vec());
    assert_eq!(r.stat(), ResourceType::File);
}
