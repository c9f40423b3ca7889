//! The smaller pieces: queue, register cell, URLs, the rendered process
//! snapshot, and the demonstration provider.

use redoxfs::context::{fmt_dec, ContextScheme};
use redoxfs::error::{EBADF, EINVAL, ENOENT};
use redoxfs::example::{ExampleFile, ExampleScheme};
use redoxfs::mmio::Mmio;
use redoxfs::queue::Queue;
use redoxfs::scheme::{Scheme, SEEK_CUR, SEEK_END, SEEK_SET};
use redoxfs::stdio::{stderr, stdin, stdout};
use redoxfs::url::Url;

#[test]
fn queue_is_first_in_first_out() {
    let mut q: Queue<u32> = Queue::new();
    assert_eq!(q.len(), 0);
    assert_eq!(q.pop(), None);
    q.push(1);
    q.push(2);
    q.push(3);
    assert_eq!(q.len(), 3);
    assert_eq!(q.pop(), Some(1));
    assert_eq!(q.pop(), Some(2));
    assert_eq!(q.pop(), Some(3));
    assert_eq!(q.pop(), None);
}

#[test]
fn mmio_read_write() {
    let mut reg: Mmio<u32> = Mmio::new(0);
    assert_eq!(reg.read(), 0);
    reg.write(0xCAFE);
    assert_eq!(reg.read(), 0xCAFE);
}

#[test]
fn stdio_handles_exist() {
    let _ = stdin();
    let _ = stdout();
    let _ = stderr();
}

#[test]
fn url_splits_at_separator() {
    let u = Url::parse(&b"file:///hello".to_vec());
    assert_eq!(u.scheme, b"file".to_vec());
    assert_eq!(u.path, b"/hello".to_vec());
    assert_eq!(u.to_bytes(), b"file:///hello".to_vec());
}

#[test]
fn url_without_separator_is_all_scheme() {
    let u = Url::parse(&b"context".to_vec());
    assert_eq!(u.scheme, b"context".to_vec());
    assert_eq!(u.path, Vec::<u8>::new());
}

#[test]
fn url_splits_at_first_separator_only() {
    let u = Url::parse(&b"a://b://c".to_vec());
    assert_eq!(u.scheme, b"a".to_vec());
    assert_eq!(u.path, b"b://c".to_vec());
}

#[test]
fn decimal_rendering() {
    assert_eq!(fmt_dec(0), b"0".to_vec());
    assert_eq!(fmt_dec(7), b"7".to_vec());
    assert_eq!(fmt_dec(10), b"10".to_vec());
    assert_eq!(fmt_dec(90210), b"90210".to_vec());
}

#[test]
fn context_snapshot_renders() {
    let scheme = ContextScheme;
    assert_eq!(scheme.scheme(), "context");
    let mut r = scheme.open(3, 7);
    assert_eq!(r.url(), b"context://".to_vec());
    let mut buf = vec![0u8; 32];
    let n = r.read(&mut buf);
    assert_eq!(&buf[..n], b"Current: 3\nTotal: 7");
    // Writes to the snapshot are ignored.
    assert_eq!(r.write(&b"xxx".to_vec()), 0);
}

#[test]
fn example_file_is_bounded() {
    let mut f = ExampleFile::new();
    let mut buf = vec![0u8; 16];
    // Reads stop at the end; writes never grow the file.
    assert_eq!(f.read(&mut buf), Ok(7));
    assert_eq!(&buf[..7], b"Example");
    assert_eq!(f.seek(0, SEEK_SET), Ok(0));
    assert_eq!(f.write(&b"0123456789".to_vec()), Ok(7));
    assert_eq!(f.seek(-7, SEEK_CUR), Ok(0));
    let mut buf2 = vec![0u8; 7];
    assert_eq!(f.read(&mut buf2), Ok(7));
    assert_eq!(buf2, b"0123456".to_vec());
    assert_eq!(f.seek(99, SEEK_END), Ok(7));
    assert_eq!(f.seek(0, 9).unwrap_err().errno, EINVAL);
}

#[test]
fn example_scheme_round_trip() {
    // A fresh provider's counter starts at 1 and moves up.
    let mut s = ExampleScheme::new();
    let id = s.open(&b"anything".to_vec(), 0, 0).unwrap();
    assert_eq!(id, 1);
    assert_eq!(s.open(&b"again".to_vec(), 0, 0), Ok(2));
    assert_eq!(s.close(2), Ok(0));
    let mut buf = vec![0u8; 4];
    assert_eq!(s.read(id, &mut buf), Ok(4));
    assert_eq!(buf, b"Exam".to_vec());
    assert_eq!(s.truncate(id, 0).unwrap_err().errno, EBADF);
    assert_eq!(s.unlink(&b"x".to_vec()).unwrap_err().errno, ENOENT);
    assert_eq!(s.mkdir(&b"x".to_vec(), 0).unwrap_err().errno, ENOENT);
    assert_eq!(s.close(id), Ok(0));
    assert_eq!(s.close(id).unwrap_err().errno, EBADF);
}

#[test]
fn file_resource_as_byte_stream() {
    // An open file serves the stream traits: reads fill a prefix, writes
    // are taken whole.
    let mut extents = Vec::new();
    for _ in 0..16 {
        extents.push(redoxfs::extent::Extent { block: 0, length: 0 });
    }
    let mut r = redoxfs::resource::FileResource {
        node: redoxfs::layout::Node {
            address: 2,
            name: b"s".to_vec(),
            extents,
        },
        vec: b"stream".to_vec(),
        seek: 0,
        dirty: false,
    };
    let mut buf = vec![0u8; 4];
    assert_eq!(redoxfs::stdio::Read::read(&mut r, &mut buf), Some(4));
    assert_eq!(buf, b"stre".to_vec());
    assert_eq!(redoxfs::stdio::Write::write(&mut r, &b"AM!".to_vec()), Some(3));
    assert_eq!(r.vec, b"streAM!".to_vec());
}
