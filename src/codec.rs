//! Frame decoder: finds one complete length-prefixed packet at the start of
//! the bytes received so far.

use vstd::prelude::*;
use vstd::slice::slice_to_vec;
use crate::reader::{McBytesErr, leading_varint, varint_error};
use crate::varint::{
    decode_varint, lemma_varint_len_bounds, lemma_varint_round_trip, varint_bytes, varint_len,
    varint_too_big, varint_value,
};

verus! {

/// What the bytes at the start of a buffer make of a frame.
pub enum FrameOutcome {
    /// A complete frame: its payload and the number of bytes it took, header
    /// included.
    Complete(Seq<u8>, nat),
    /// The header or the payload is not all there yet; nothing is consumed.
    NeedMore,
    /// The length header is a malformed VarInt.
    TooBig,
}

/// The frame at the start of `buf`: a VarInt payload length `L` (its 32-bit
/// pattern), then `L` payload bytes.
pub open spec fn frame_outcome(buf: Seq<u8>) -> FrameOutcome {
    match varint_len(buf) {
        Some(h) => {
            let l = varint_value(buf, h) as nat;
            if h + l <= buf.len() {
                FrameOutcome::Complete(buf.subrange(h as int, (h + l) as int), h + l)
            } else {
                FrameOutcome::NeedMore
            }
        },
        None => if varint_too_big(buf) {
            FrameOutcome::TooBig
        } else {
            FrameOutcome::NeedMore
        },
    }
}

/// The result of one decoding attempt.
pub enum DecodeStatus {
    /// The payload of a complete frame.
    Frame(Vec<u8>),
    /// More bytes are needed before a frame can be taken.
    UnexpectedEnd,
    /// The frame header is malformed.
    Error(McBytesErr),
}

/// Reads the length header of a frame: its size in bytes and the payload
/// length it declares.
pub fn get_packet_length(header: &[u8]) -> (r: Result<(usize, i32), McBytesErr>)
    ensures
        match r {
            Ok((h, l)) => varint_len(header@) == Some(h as nat) && l == leading_varint(header@).0,
            Err(e) => varint_len(header@) is None && e == varint_error(header@),
        },
{
    match decode_varint(header) {
        Ok((v, n)) => Ok((n, #[verifier::truncate] (v as i32))),
        Err(e) => Err(e),
    }
}

/// The frame decoder of a connection. It keeps no state between calls.
pub struct McCodec;

impl McCodec {
    /// Takes one frame from the start of `buf`: the number of bytes to drop
    /// from the buffer, and the payload or the reason there is none.
    pub fn decode(&mut self, buf: &[u8]) -> (r: (usize, DecodeStatus))
        ensures
            match frame_outcome(buf@) {
                FrameOutcome::Complete(payload, n) => r.0 == n && (r.1 matches DecodeStatus::Frame(
                    p,
                ) && p@ == payload),
                FrameOutcome::NeedMore => r.0 == 0 && r.1 matches DecodeStatus::UnexpectedEnd,
                FrameOutcome::TooBig => r.0 == 0 && r.1 matches DecodeStatus::Error(
                    McBytesErr::VarintTooBig,
                ),
            },
    {
        proof {
            lemma_varint_len_bounds(buf@);
        }
        match decode_varint(buf) {
            Ok((l, h)) => {
                let len = l as usize;
                if len > buf.len() - h {
                    (0, DecodeStatus::UnexpectedEnd)
                } else {
                    let payload = buf.split_at(h).1.split_at(len).0;
                    assert(payload@ =~= buf@.subrange(h as int, h + len));
                    (h + len, DecodeStatus::Frame(slice_to_vec(payload)))
                }
            },
            Err(McBytesErr::VarintTooBig) => (0, DecodeStatus::Error(McBytesErr::VarintTooBig)),
            Err(McBytesErr::InsufficientBytes) => (0, DecodeStatus::UnexpectedEnd),
        }
    }
}

/// A frame whose declared length `l` is not all there yet is left in place;
/// once the payload is complete, exactly `l` payload bytes come out and the
/// header and payload are consumed, whatever follows them.
pub proof fn lemma_frame_partial_read(l: u32, received: Seq<u8>)
    ensures
        received.len() < l ==> frame_outcome(varint_bytes(l as nat) + received)
            == FrameOutcome::NeedMore,
        received.len() >= l ==> frame_outcome(varint_bytes(l as nat) + received)
            == FrameOutcome::Complete(
            received.take(l as int),
            (varint_bytes(l as nat).len() + l) as nat,
        ),
{
    let head = varint_bytes(l as nat);
    let buf = head + received;
    lemma_varint_round_trip(l, received);
    assert(varint_len(buf) == Some(head.len()));
    assert(varint_value(buf, head.len()) as nat == l);
    if received.len() >= l {
        assert(buf.subrange(head.len() as int, head.len() + l) =~= received.take(l as int));
    }
}

} // verus!
