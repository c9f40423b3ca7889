//! The fixed-size request/response frame that crosses a scheme socket: an
//! operation code, the handle id (0 for openers), three argument words, and
//! a signed result word the reply is written into. All words little-endian.

use vstd::prelude::*;
use vstd::bytes::{lemma_auto_spec_u64_to_from_le_bytes, spec_u64_from_le_bytes,
    spec_u64_to_le_bytes, u64_from_le_bytes, u64_to_le_bytes};
use vstd::slice::slice_subrange;

verus! {

pub const OP_OPEN: u8 = 1;

pub const OP_UNLINK: u8 = 2;

pub const OP_MKDIR: u8 = 3;

pub const OP_READ: u8 = 4;

pub const OP_WRITE: u8 = 5;

pub const OP_SEEK: u8 = 6;

pub const OP_SYNC: u8 = 7;

pub const OP_TRUNCATE: u8 = 8;

pub const OP_CLOSE: u8 = 9;

/// Bytes in one packet frame on the wire.
pub const PACKET_LEN: usize = 48;

/// One request or reply frame. The reply overwrites `result` in place:
/// non-negative is the operation's return value, negative is `-errno`.
#[derive(Clone, Copy, Debug, PartialEq, Eq, Structural)]
pub struct Packet {
    /// Operation code.
    pub op: u8,
    /// Handle id the operation addresses, or 0 for openers.
    pub handle: u64,
    /// First argument word: a buffer address on the kernel transport.
    pub a: u64,
    /// Second argument word: a length, or a seek offset.
    pub b: u64,
    /// Third argument word: mode, flags, or `whence`.
    pub c: u64,
    /// The signed result word of the reply.
    pub result: i64,
}

/// A packet on the wire: the op byte, seven reserved zero bytes, then the
/// five words.
pub open spec fn spec_encode_packet(p: Packet) -> Seq<u8> {
    seq![p.op, 0u8, 0u8, 0u8, 0u8, 0u8, 0u8, 0u8] + spec_u64_to_le_bytes(p.handle)
        + spec_u64_to_le_bytes(p.a) + spec_u64_to_le_bytes(p.b) + spec_u64_to_le_bytes(p.c)
        + spec_u64_to_le_bytes(p.result as u64)
}

/// How a frame reads back; anything but exactly `PACKET_LEN` bytes is
/// refused.
pub open spec fn spec_decode_packet(s: Seq<u8>) -> Option<Packet> {
    if s.len() != 48 {
        Option::None
    } else {
        Option::Some(
            Packet {
                op: s[0],
                handle: spec_u64_from_le_bytes(s.subrange(8, 16)),
                a: spec_u64_from_le_bytes(s.subrange(16, 24)),
                b: spec_u64_from_le_bytes(s.subrange(24, 32)),
                c: spec_u64_from_le_bytes(s.subrange(32, 40)),
                result: spec_u64_from_le_bytes(s.subrange(40, 48)) as i64,
            },
        )
    }
}

/// Decoding an encoded packet gives the packet back, field for field.
pub proof fn lemma_packet_roundtrip(p: Packet)
    ensures
        spec_decode_packet(spec_encode_packet(p)) == Option::Some(p),
{
    lemma_auto_spec_u64_to_from_le_bytes();
    let s = spec_encode_packet(p);
    assert(s.len() == 48);
    assert(s.subrange(8, 16) =~= spec_u64_to_le_bytes(p.handle));
    assert(s.subrange(16, 24) =~= spec_u64_to_le_bytes(p.a));
    assert(s.subrange(24, 32) =~= spec_u64_to_le_bytes(p.b));
    assert(s.subrange(32, 40) =~= spec_u64_to_le_bytes(p.c));
    assert(s.subrange(40, 48) =~= spec_u64_to_le_bytes(p.result as u64));
    let x = p.result;
    assert((x as u64) as i64 == x) by (bit_vector);
}

impl Packet {
    /// Write the frame out.
    pub fn encode(&self) -> (r: Vec<u8>)
        ensures
            r@ == spec_encode_packet(*self),
            r@.len() == 48,
    {
        proof {
            lemma_auto_spec_u64_to_from_le_bytes();
        }
        let mut out: Vec<u8> = Vec::new();
        out.push(self.op);
        let mut k: usize = 0;
        while k < 7
            invariant
                k <= 7,
                out@ =~= seq![self.op].add(Seq::new(k as nat, |i: int| 0u8)),
            decreases 7 - k,
        {
            out.push(0);
            assert(out@ =~= seq![self.op].add(Seq::new((k + 1) as nat, |i: int| 0u8)));
            k += 1;
        }
        let mut w = u64_to_le_bytes(self.handle);
        out.append(&mut w);
        let mut w = u64_to_le_bytes(self.a);
        out.append(&mut w);
        let mut w = u64_to_le_bytes(self.b);
        out.append(&mut w);
        let mut w = u64_to_le_bytes(self.c);
        out.append(&mut w);
        let mut w = u64_to_le_bytes(self.result as u64);
        out.append(&mut w);
        proof {
            assert(out@ =~= spec_encode_packet(*self));
        }
        out
    }

    /// Read a frame back; anything but exactly `PACKET_LEN` bytes is
    /// refused.
    pub fn decode(v: &Vec<u8>) -> (r: Option<Packet>)
        ensures
            r == spec_decode_packet(v@),
    {
        if v.len() != 48 {
            return Option::None;
        }
        let handle = u64_from_le_bytes(slice_subrange(v.as_slice(), 8, 16));
        let a = u64_from_le_bytes(slice_subrange(v.as_slice(), 16, 24));
        let b = u64_from_le_bytes(slice_subrange(v.as_slice(), 24, 32));
        let c = u64_from_le_bytes(slice_subrange(v.as_slice(), 32, 40));
        let result = u64_from_le_bytes(slice_subrange(v.as_slice(), 40, 48)) as i64;
        Option::Some(Packet { op: v[0], handle, a, b, c, result })
    }
}

} // verus!
