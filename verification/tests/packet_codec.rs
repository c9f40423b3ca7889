//! The packet frame: encoding, decoding, and the dispatcher's reply
//! discipline.

use redoxfs::error::EINVAL;
use redoxfs::example::ExampleScheme;
use redoxfs::packet::{Packet, OP_OPEN, OP_READ, OP_SEEK, PACKET_LEN};
use redoxfs::scheme::handle;

fn sample() -> Packet {
    Packet {
        op: OP_SEEK,
        handle: 7,
        a: 0xDEAD_BEEF,
        b: 42,
        c: 1,
        result: -22,
    }
}

#[test]
fn encode_decode_round_trip() {
    // For every supported op, a frame decodes back field for field.
    for op in 1u8..=9 {
        let p = Packet { op, ..sample() };
        let bytes = p.encode();
        assert_eq!(bytes.len(), PACKET_LEN);
        assert_eq!(Packet::decode(&bytes), Some(p));
    }
}

#[test]
fn encode_layout_is_little_endian() {
    let p = sample();
    let bytes = p.encode();
    assert_eq!(bytes[0], OP_SEEK);
    assert_eq!(&bytes[1..8], &[0u8; 7]);
    assert_eq!(&bytes[8..16], &7u64.to_le_bytes());
    assert_eq!(&bytes[16..24], &0xDEAD_BEEFu64.to_le_bytes());
    assert_eq!(&bytes[24..32], &42u64.to_le_bytes());
    assert_eq!(&bytes[32..40], &1u64.to_le_bytes());
    assert_eq!(&bytes[40..48], &(-22i64 as u64).to_le_bytes());
}

#[test]
fn short_frame_is_refused() {
    assert_eq!(Packet::decode(&vec![0u8; 47]), None);
    assert_eq!(Packet::decode(&Vec::new()), None);
}

#[test]
fn reply_preserves_fields_except_result() {
    // The server's reply overwrites only the result word.
    let mut s = ExampleScheme::new();
    let mut p = Packet {
        op: OP_OPEN,
        handle: 0,
        a: 3,
        b: 4,
        c: 5,
        result: -1,
    };
    let mut payload = b"whatever".to_vec();
    let r = handle(&mut s, &mut p, &mut payload);
    assert_eq!(r, Ok(1));
    assert_eq!(p.result, 1);
    assert_eq!((p.op, p.handle, p.a, p.b, p.c), (OP_OPEN, 0, 3, 4, 5));
}

#[test]
fn unknown_op_answers_einval() {
    let mut s = ExampleScheme::new();
    let mut p = Packet {
        op: 0,
        handle: 0,
        a: 0,
        b: 0,
        c: 0,
        result: 0,
    };
    let mut payload = Vec::new();
    let r = handle(&mut s, &mut p, &mut payload);
    assert_eq!(r.unwrap_err().errno, EINVAL);
    assert_eq!(p.result, -(EINVAL as i64));
    let mut q = Packet { op: 10, ..p };
    let r2 = handle(&mut s, &mut q, &mut payload);
    assert_eq!(r2.unwrap_err().errno, EINVAL);
}

#[test]
fn read_through_dispatcher() {
    let mut s = ExampleScheme::new();
    let mut open = Packet {
        op: OP_OPEN,
        handle: 0,
        a: 0,
        b: 0,
        c: 0,
        result: 0,
    };
    let mut path = Vec::new();
    let _ = handle(&mut s, &mut open, &mut path);
    let id = open.result as u64;
    let mut read = Packet {
        op: OP_READ,
        handle: id,
        a: 0,
        b: 7,
        c: 0,
        result: 0,
    };
    let mut buf = vec![0u8; 7];
    let _ = handle(&mut s, &mut read, &mut buf);
    assert_eq!(read.result, 7);
    assert_eq!(buf, b"Example".to_vec());
}
