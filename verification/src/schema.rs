//! The layout of a packet before framing: a tag that tells the variant, then the variant's
//! fields in order.
//!
//! The tag and every 32-bit field are written as variable-length integers, the signed ones
//! folded first. A single byte is written as it is. An optional byte is written as 0, or as 1 and
//! the byte. A byte sequence is written as its length and then its bytes.

use vstd::prelude::*;
use crate::bytes::append;
use crate::packet::{
    payload_as_slice,
    Error,
    Frame,
    FrameView,
    Packet,
    PacketView,
    PAYLOAD_CAPACITY,
};
use crate::varint::{
    fold_i32,
    lemma_parse_varint_of_varint,
    lemma_span_values,
    lemma_unzigzag_of_zigzag,
    lemma_varint_len,
    lemma_varint_shape,
    parse_varint,
    put_varint,
    take_u32,
    take_u64,
    unfold_i32,
    unzigzag,
    varint,
    zigzag,
    U32_LIMIT,
    U32_TOP,
    U64_LIMIT,
    U64_TOP,
};

verus! {

/// The most bytes that a packet takes before framing: a tag, an optional byte, a length of two
/// bytes and a full payload.
pub const MAX_RAW_LEN: usize = 261;

/// The bytes of an optional byte.
pub open spec fn option_bytes(value: Option<u8>) -> Seq<u8> {
    match value {
        None => seq![0u8],
        Some(byte) => seq![1u8, byte],
    }
}

/// The bytes of a frame: its link quality, then its payload with the length in front.
pub open spec fn frame_bytes(frame: FrameView) -> Seq<u8> {
    option_bytes(frame.link_quality_index) + varint(frame.payload.len()) + frame.payload
}

/// The bytes of a packet before framing.
pub open spec fn raw_bytes(packet: PacketView) -> Seq<u8> {
    match packet {
        PacketView::NoOperation => varint(0),
        PacketView::Reset => varint(1),
        PacketView::Probe(magic) => varint(2) + varint(magic as nat),
        PacketView::Channel(channel) => varint(3) + seq![channel],
        PacketView::Power(level) => varint(4) + varint(zigzag(level as int)),
        PacketView::CaptureStart => varint(5),
        PacketView::CaptureStop => varint(6),
        PacketView::CaptureFrame(frame) => varint(7) + frame_bytes(frame),
    }
}

/// Reads an optional byte from the front of `bytes`, and says how many bytes it took.
pub open spec fn parse_option(bytes: Seq<u8>) -> Option<(Option<u8>, nat)> {
    if bytes.len() >= 1 && bytes[0] == 0 {
        Some((None, 1nat))
    } else if bytes.len() >= 2 && bytes[0] == 1 {
        Some((Some(bytes[1]), 2nat))
    } else {
        None
    }
}

/// Reads a frame from the front of `bytes`, and says how many bytes it took.
///
/// The length is read as a 64-bit value. A frame whose length is over the capacity, or over the
/// bytes that are left, is none.
pub open spec fn parse_frame(bytes: Seq<u8>) -> Option<(FrameView, nat)> {
    match parse_option(bytes) {
        Some((link_quality_index, head)) => match parse_varint(
            bytes.skip(head as int),
            U64_LIMIT as nat,
            U64_TOP as nat,
        ) {
            Some((len, used)) => if len <= PAYLOAD_CAPACITY && head + used + len <= bytes.len() {
                Some(
                    (
                        FrameView {
                            link_quality_index,
                            payload: bytes.subrange((head + used) as int, (head + used + len) as int),
                        },
                        head + used + len,
                    ),
                )
            } else {
                None
            },
            None => None,
        },
        None => None,
    }
}

/// Reads the fields of the variant that `tag` tells from the front of `bytes`.
pub open spec fn parse_fields(tag: nat, bytes: Seq<u8>) -> Option<(PacketView, nat)> {
    if tag == 0 {
        Some((PacketView::NoOperation, 0nat))
    } else if tag == 1 {
        Some((PacketView::Reset, 0nat))
    } else if tag == 2 {
        match parse_varint(bytes, U32_LIMIT as nat, U32_TOP as nat) {
            Some((magic, used)) => Some((PacketView::Probe(magic as u32), used)),
            None => None,
        }
    } else if tag == 3 {
        if bytes.len() >= 1 {
            Some((PacketView::Channel(bytes[0]), 1nat))
        } else {
            None
        }
    } else if tag == 4 {
        match parse_varint(bytes, U32_LIMIT as nat, U32_TOP as nat) {
            Some((folded, used)) => Some((PacketView::Power(unzigzag(folded) as i32), used)),
            None => None,
        }
    } else if tag == 5 {
        Some((PacketView::CaptureStart, 0nat))
    } else if tag == 6 {
        Some((PacketView::CaptureStop, 0nat))
    } else if tag == 7 {
        match parse_frame(bytes) {
            Some((frame, used)) => Some((PacketView::CaptureFrame(frame), used)),
            None => None,
        }
    } else {
        None
    }
}

/// Reads a packet from the front of `bytes`, and says how many bytes it took. What follows the
/// packet is not looked at.
pub open spec fn parse_raw(bytes: Seq<u8>) -> Option<(PacketView, nat)> {
    match parse_varint(bytes, U32_LIMIT as nat, U32_TOP as nat) {
        Some((tag, head)) => match parse_fields(tag, bytes.skip(head as int)) {
            Some((packet, used)) => Some((packet, head + used)),
            None => None,
        },
        None => None,
    }
}

/// A packet takes at least one byte and at most `MAX_RAW_LEN`.
pub proof fn lemma_raw_bytes_len(packet: PacketView)
    requires
        packet.wf(),
    ensures
        1 <= raw_bytes(packet).len() <= MAX_RAW_LEN,
{
    lemma_span_values();
    lemma_varint_shape(0);
    lemma_varint_shape(1);
    lemma_varint_shape(2);
    lemma_varint_shape(3);
    lemma_varint_shape(4);
    lemma_varint_shape(5);
    lemma_varint_shape(6);
    lemma_varint_shape(7);
    match packet {
        PacketView::Probe(magic) => {
            lemma_varint_len(magic as nat, U32_LIMIT as nat, U32_TOP as nat);
        },
        PacketView::Power(level) => {
            lemma_varint_len(zigzag(level as int), U32_LIMIT as nat, U32_TOP as nat);
        },
        PacketView::CaptureFrame(frame) => {
            lemma_varint_shape(frame.payload.len());
        },
        _ => {},
    }
}

/// Reading the bytes of a frame gives the frame back, whatever follows them.
pub proof fn lemma_parse_frame_of_frame_bytes(frame: FrameView, rest: Seq<u8>)
    requires
        frame.wf(),
    ensures
        parse_frame(frame_bytes(frame) + rest) == Some((frame, frame_bytes(frame).len())),
{
    let head = option_bytes(frame.link_quality_index);
    let len = varint(frame.payload.len());
    let bytes = frame_bytes(frame) + rest;
    lemma_span_values();
    assert(parse_option(bytes) == Some((frame.link_quality_index, head.len())));
    assert(bytes.skip(head.len() as int) =~= len + (frame.payload + rest));
    lemma_parse_varint_of_varint(
        frame.payload.len(),
        frame.payload + rest,
        U64_LIMIT as nat,
        U64_TOP as nat,
    );
    assert(bytes.subrange(
        (head.len() + len.len()) as int,
        (head.len() + len.len() + frame.payload.len()) as int,
    ) =~= frame.payload);
}

/// Reading the bytes of a packet gives the packet back, whatever follows them.
pub proof fn lemma_parse_raw_of_raw_bytes(packet: PacketView, rest: Seq<u8>)
    requires
        packet.wf(),
    ensures
        parse_raw(raw_bytes(packet) + rest) == Some((packet, raw_bytes(packet).len())),
{
    let bytes = raw_bytes(packet) + rest;
    lemma_span_values();
    match packet {
        PacketView::NoOperation => {
            lemma_parse_varint_of_varint(0, rest, U32_LIMIT as nat, U32_TOP as nat);
            lemma_varint_shape(0);
        },
        PacketView::Reset => {
            lemma_parse_varint_of_varint(1, rest, U32_LIMIT as nat, U32_TOP as nat);
            lemma_varint_shape(1);
        },
        PacketView::Probe(magic) => {
            let field = varint(magic as nat);
            assert(bytes =~= varint(2) + (field + rest));
            lemma_parse_varint_of_varint(2, field + rest, U32_LIMIT as nat, U32_TOP as nat);
            lemma_varint_shape(2);
            assert(bytes.skip(1) =~= field + rest);
            lemma_parse_varint_of_varint(magic as nat, rest, U32_LIMIT as nat, U32_TOP as nat);
        },
        PacketView::Channel(channel) => {
            let field = seq![channel];
            assert(bytes =~= varint(3) + (field + rest));
            lemma_parse_varint_of_varint(3, field + rest, U32_LIMIT as nat, U32_TOP as nat);
            lemma_varint_shape(3);
            assert(bytes.skip(1) =~= field + rest);
        },
        PacketView::Power(level) => {
            let field = varint(zigzag(level as int));
            assert(bytes =~= varint(4) + (field + rest));
            lemma_parse_varint_of_varint(4, field + rest, U32_LIMIT as nat, U32_TOP as nat);
            lemma_varint_shape(4);
            assert(bytes.skip(1) =~= field + rest);
            lemma_parse_varint_of_varint(
                zigzag(level as int),
                rest,
                U32_LIMIT as nat,
                U32_TOP as nat,
            );
            lemma_unzigzag_of_zigzag(level as int);
        },
        PacketView::CaptureStart => {
            lemma_parse_varint_of_varint(5, rest, U32_LIMIT as nat, U32_TOP as nat);
            lemma_varint_shape(5);
        },
        PacketView::CaptureStop => {
            lemma_parse_varint_of_varint(6, rest, U32_LIMIT as nat, U32_TOP as nat);
            lemma_varint_shape(6);
        },
        PacketView::CaptureFrame(frame) => {
            let field = frame_bytes(frame);
            assert(bytes =~= varint(7) + (field + rest));
            lemma_parse_varint_of_varint(7, field + rest, U32_LIMIT as nat, U32_TOP as nat);
            lemma_varint_shape(7);
            assert(bytes.skip(1) =~= field + rest);
            lemma_parse_frame_of_frame_bytes(frame, rest);
        },
    }
}

impl Packet {
    /// The packet's bytes before framing.
    pub fn serialize(&self) -> (raw: Vec<u8>)
        ensures
            raw@ == raw_bytes(self@),
            raw@.len() <= MAX_RAW_LEN,
            self@.wf(),
    {
        let mut raw: Vec<u8> = Vec::new();
        match self {
            Packet::NoOperation => put_varint(&mut raw, 0),
            Packet::Reset => put_varint(&mut raw, 1),
            Packet::Probe(magic) => {
                put_varint(&mut raw, 2);
                put_varint(&mut raw, *magic as u64);
            },
            Packet::Channel(channel) => {
                put_varint(&mut raw, 3);
                raw.push(*channel);
            },
            Packet::Power(level) => {
                put_varint(&mut raw, 4);
                put_varint(&mut raw, fold_i32(*level) as u64);
            },
            Packet::CaptureStart => put_varint(&mut raw, 5),
            Packet::CaptureStop => put_varint(&mut raw, 6),
            Packet::CaptureFrame(frame) => {
                put_varint(&mut raw, 7);
                match frame.link_quality_index {
                    None => raw.push(0),
                    Some(quality) => {
                        raw.push(1);
                        raw.push(quality);
                    },
                }
                let payload = payload_as_slice(&frame.payload);
                put_varint(&mut raw, payload.len() as u64);
                append(&mut raw, payload);
            },
        }
        proof {
            assert(raw@ =~= raw_bytes(self@));
            lemma_raw_bytes_len(self@);
        }
        raw
    }

    /// Reads a packet from the front of `raw`, and says how many bytes it took. What follows the
    /// packet is not looked at.
    pub fn deserialize(raw: &[u8]) -> (r: Result<(Packet, usize), Error>)
        ensures
            match r {
                Ok((packet, used)) => parse_raw(raw@) == Some((packet@, used as nat)),
                Err(e) => e == Error::Malformed && parse_raw(raw@) is None,
            },
    {
        proof {
            assert(raw@.skip(0) =~= raw@);
        }
        let (tag, head) = match take_u32(raw, 0) {
            Some(found) => found,
            None => return Err(Error::Malformed),
        };
        match read_fields(tag, raw, head) {
            Some((packet, used)) => {
                assert(head + used <= raw.len());
                Ok((packet, head + used))
            },
            None => Err(Error::Malformed),
        }
    }
}

/// Reads from `raw` at `at` the fields of the variant that `tag` tells.
fn read_fields(tag: u32, raw: &[u8], at: usize) -> (r: Option<(Packet, usize)>)
    requires
        at <= raw@.len(),
    ensures
        match r {
            Some((packet, used)) => parse_fields(tag as nat, raw@.skip(at as int)) == Some(
                (packet@, used as nat),
            ) && at + used <= raw@.len(),
            None => parse_fields(tag as nat, raw@.skip(at as int)) is None,
        },
{
    if tag == 0 {
        Some((Packet::NoOperation, 0))
    } else if tag == 1 {
        Some((Packet::Reset, 0))
    } else if tag == 2 {
        match take_u32(raw, at) {
            Some((magic, used)) => Some((Packet::Probe(magic), used)),
            None => None,
        }
    } else if tag == 3 {
        if at < raw.len() {
            Some((Packet::Channel(raw[at]), 1))
        } else {
            None
        }
    } else if tag == 4 {
        match take_u32(raw, at) {
            Some((folded, used)) => Some((Packet::Power(unfold_i32(folded)), used)),
            None => None,
        }
    } else if tag == 5 {
        Some((Packet::CaptureStart, 0))
    } else if tag == 6 {
        Some((Packet::CaptureStop, 0))
    } else if tag == 7 {
        match read_frame(raw, at) {
            Some((frame, used)) => Some((Packet::CaptureFrame(frame), used)),
            None => None,
        }
    } else {
        None
    }
}

/// Reads a frame from `raw` at `at`.
fn read_frame(raw: &[u8], at: usize) -> (r: Option<(Frame, usize)>)
    requires
        at <= raw@.len(),
    ensures
        match r {
            Some((frame, used)) => parse_frame(raw@.skip(at as int)) == Some((frame@, used as nat))
                && at + used <= raw@.len(),
            None => parse_frame(raw@.skip(at as int)) is None,
        },
{
    let bytes = Ghost(raw@.skip(at as int));
    let left: usize = raw.len() - at;
    let (link_quality_index, head): (Option<u8>, usize) = if left >= 1 && raw[at] == 0 {
        (None, 1)
    } else if left >= 2 && raw[at] == 1 {
        (Some(raw[at + 1]), 2)
    } else {
        return None;
    };
    proof {
        assert(bytes@.skip(head as int) =~= raw@.skip(at + head));
    }
    let (len, used) = match take_u64(raw, at + head) {
        Some(found) => found,
        None => return None,
    };
    if len > PAYLOAD_CAPACITY as u64 || len > (left - head - used) as u64 {
        return None;
    }
    let start: usize = at + head + used;
    let payload = vstd::slice::slice_subrange(raw, start, start + len as usize);
    proof {
        assert(payload@ =~= bytes@.subrange((head + used) as int, (head + used + len) as int));
    }
    match Frame::new(link_quality_index, payload) {
        Some(frame) => Some((frame, head + used + len as usize)),
        None => None,
    }
}

} // verus!
