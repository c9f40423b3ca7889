//! The file provider behind the scheme contract: listings, handles, and
//! the packet dispatcher.

use redoxfs::disk::Disk;
use redoxfs::error::{EBADF, EINVAL, ENOENT};
use redoxfs::file_scheme::FileScheme;
use redoxfs::packet::{Packet, OP_READ};
use redoxfs::scheme::{handle, Scheme, SEEK_END, SEEK_SET};

fn put(image: &mut Vec<u8>, at: usize, bytes: &[u8]) {
    image[at..at + bytes.len()].copy_from_slice(bytes);
}

fn set_extent(image: &mut Vec<u8>, sector: usize, slot: usize, block: u64, length: u64) {
    let at = sector * 512 + 256 + slot * 16;
    put(image, at, &block.to_le_bytes());
    put(image, at + 8, &length.to_le_bytes());
}

/// An image with nodes `a/b`, `a/c`, `d`, where `d` holds `world`.
fn listing_image() -> Vec<u8> {
    let mut img = vec![0u8; 6 * 512];
    put(&mut img, 512, b"REDOXFS\0");
    put(&mut img, 520, &0xFFFFFFFFu32.to_le_bytes());
    set_extent(&mut img, 1, 0, 2, 1536);
    put(&mut img, 2 * 512, b"a/b");
    put(&mut img, 3 * 512, b"a/c");
    put(&mut img, 4 * 512, b"d");
    set_extent(&mut img, 4, 0, 5, 5);
    put(&mut img, 5 * 512, b"world");
    img
}

fn scheme() -> FileScheme {
    FileScheme::new(vec![Disk::new(listing_image())]).unwrap()
}

#[test]
fn probe_skips_unmountable_disks() {
    let blank = Disk::new(vec![0u8; 1024]);
    let s = FileScheme::new(vec![blank, Disk::new(listing_image())]).unwrap();
    assert_eq!(s.scheme(), "file");
    assert!(FileScheme::new(vec![Disk::new(vec![0u8; 1024])]).is_none());
}

#[test]
fn directory_listing_deduplicates() {
    // Nodes a/b, a/c, d listed at the root: the directory a/ once, then
    // the leaf d.
    let mut s = scheme();
    let id = s.open(&Vec::new(), 0, 0).unwrap();
    let mut buf = vec![0u8; 64];
    let n = s.read(id, &mut buf).unwrap();
    assert_eq!(&buf[..n], b"a/\nd");
    assert_eq!(s.close(id), Ok(0));
}

#[test]
fn directory_listing_of_subdirectory() {
    let mut s = scheme();
    let id = s.open(&b"a/".to_vec(), 0, 0).unwrap();
    let mut buf = vec![0u8; 64];
    let n = s.read(id, &mut buf).unwrap();
    assert_eq!(&buf[..n], b"b\nc");
}

#[test]
fn open_reads_file_to_eof() {
    let mut s = scheme();
    let id = s.open(&b"d".to_vec(), 0, 0).unwrap();
    let mut buf = vec![0u8; 3];
    assert_eq!(s.read(id, &mut buf), Ok(3));
    assert_eq!(buf, b"wor".to_vec());
    let mut buf2 = vec![0u8; 8];
    assert_eq!(s.read(id, &mut buf2), Ok(2));
    assert_eq!(&buf2[..2], b"ld");
    assert_eq!(s.read(id, &mut buf2), Ok(0));
}

#[test]
fn open_missing_name_is_not_found() {
    let mut s = scheme();
    let e = s.open(&b"nope".to_vec(), 0, 0).unwrap_err();
    assert_eq!(e.errno, ENOENT);
}

#[test]
fn bad_handle_answers_ebadf() {
    let mut s = scheme();
    let mut buf = vec![0u8; 4];
    assert_eq!(s.read(999, &mut buf).unwrap_err().errno, EBADF);
    assert_eq!(s.write(999, &buf).unwrap_err().errno, EBADF);
    assert_eq!(s.seek(999, 0, SEEK_SET).unwrap_err().errno, EBADF);
    assert_eq!(s.sync(999).unwrap_err().errno, EBADF);
    assert_eq!(s.close(999).unwrap_err().errno, EBADF);
}

#[test]
fn bad_handle_reply_in_packet() {
    // A READ for handle 999 on a provider with no such id: the reply's
    // result word is -EBADF and every other field is as sent.
    let mut s = scheme();
    let mut p = Packet {
        op: OP_READ,
        handle: 999,
        a: 0,
        b: 16,
        c: 0,
        result: 0,
    };
    let mut payload = vec![0u8; 16];
    let _ = handle(&mut s, &mut p, &mut payload);
    assert_eq!(p.result, -(EBADF as i64));
    assert_eq!(p.op, OP_READ);
    assert_eq!(p.handle, 999);
    assert_eq!(p.b, 16);
}

#[test]
fn handle_ids_stay_unique() {
    // Ids of live handles never collide, and a closed id's slot does not
    // disturb the others. The counter starts at 1.
    let mut s = scheme();
    let a = s.open(&b"d".to_vec(), 0, 0).unwrap();
    let b = s.open(&b"d".to_vec(), 0, 0).unwrap();
    let c = s.open(&b"d".to_vec(), 0, 0).unwrap();
    assert_eq!((a, b, c), (1, 2, 3));
    assert!(a != b && b != c && a != c);
    assert_eq!(s.close(b), Ok(0));
    let d = s.open(&b"d".to_vec(), 0, 0).unwrap();
    assert!(d != a && d != c);
    let mut buf = vec![0u8; 1];
    assert_eq!(s.read(b, &mut buf).unwrap_err().errno, EBADF);
}

#[test]
fn seek_whence_rules() {
    let mut s = scheme();
    let id = s.open(&b"d".to_vec(), 0, 0).unwrap();
    assert_eq!(s.seek(id, 2, SEEK_SET), Ok(2));
    assert_eq!(s.seek(id, -1, SEEK_END), Ok(4));
    assert_eq!(s.seek(id, 0, 7).unwrap_err().errno, EINVAL);
}

#[test]
fn write_seek_read_through_scheme() {
    let mut s = scheme();
    let id = s.open(&b"d".to_vec(), 0, 0).unwrap();
    assert_eq!(s.write(id, &b"WOR".to_vec()), Ok(3));
    assert_eq!(s.seek(id, 0, SEEK_SET), Ok(0));
    let mut buf = vec![0u8; 5];
    assert_eq!(s.read(id, &mut buf), Ok(5));
    assert_eq!(buf, b"WORld".to_vec());
}

#[test]
fn sync_through_scheme_flushes() {
    let mut s = scheme();
    let id = s.open(&b"d".to_vec(), 0, 0).unwrap();
    assert_eq!(s.write(id, &b"WORLD".to_vec()), Ok(5));
    assert_eq!(s.sync(id), Ok(0));
    let bytes_at = {
        let mut buf = vec![0u8; 5];
        assert_eq!(s.seek(id, 0, SEEK_SET), Ok(0));
        assert_eq!(s.read(id, &mut buf), Ok(5));
        buf
    };
    assert_eq!(bytes_at, b"WORLD".to_vec());
    // A fresh open through the same provider sees the flushed bytes.
    let id2 = s.open(&b"d".to_vec(), 0, 0).unwrap();
    let mut buf = vec![0u8; 5];
    assert_eq!(s.read(id2, &mut buf), Ok(5));
    assert_eq!(buf, b"WORLD".to_vec());
}

#[test]
fn truncate_unsupported() {
    let mut s = scheme();
    let id = s.open(&b"d".to_vec(), 0, 0).unwrap();
    assert_eq!(s.truncate(id, 3).unwrap_err().errno, EINVAL);
    assert_eq!(s.truncate(999, 3).unwrap_err().errno, EBADF);
}

#[test]
fn unlink_and_mkdir_unsupported() {
    let mut s = scheme();
    assert_eq!(s.unlink(&b"d".to_vec()).unwrap_err().errno, ENOENT);
    assert_eq!(s.mkdir(&b"x".to_vec(), 0).unwrap_err().errno, ENOENT);
}

#[test]
fn open_by_url_reads_world() {
    // The full path of a mounted file: parse file:///d, open it, and read
    // to the end.
    let s = scheme();
    let url = redoxfs::url::Url::parse(&b"file:///d".to_vec());
    assert_eq!(url.scheme, b"file".to_vec());
    match s.open_url(&url) {
        redoxfs::resource::Resource::File(mut r) => {
            assert_eq!(r.read_all(), b"world".to_vec());
            assert_eq!(r.url(), b"file:///d".to_vec());
        }
        _ => panic!("expected an open file"),
    }
}

#[test]
fn open_root_url_lists() {
    let s = scheme();
    let url = redoxfs::url::Url::parse(&b"file:///".to_vec());
    match s.open_url(&url) {
        redoxfs::resource::Resource::Data(mut r) => {
            let mut buf = vec![0u8; 16];
            let n = r.read(&mut buf);
            assert_eq!(&buf[..n], b"a/\nd");
        }
        _ => panic!("expected a listing"),
    }
}

#[test]
fn open_url_of_missing_name_is_the_missing_resource() {
    let s = scheme();
    let url = redoxfs::url::Url::parse(&b"file:///nope".to_vec());
    assert!(matches!(s.open_url(&url), redoxfs::resource::Resource::Missing));
}
