//! Capture records as the capture file takes them: a header of tagged fields that tells how the
//! frame was received, and behind it the frame as it was on the air.
//!
//! The header begins with a version byte, a reserved byte and its own length. Each field is a
//! kind, the length of its value, and the value filled up to four bytes. All numbers are little
//! endian; `byteorder` lays them out.

use vstd::prelude::*;
use byteorder::{ByteOrder, LittleEndian};
use crate::bytes::append;
use crate::packet::{Frame, FrameView, Packet, PacketView};

verus! {

/// The kind of the field that tells what frame check sequence the payload ends in.
pub const FIELD_FCS: u16 = 0;

/// The kind of the field that tells the channel.
pub const FIELD_CHANNEL: u16 = 3;

/// The kind of the field that tells the link quality.
pub const FIELD_LINK_QUALITY: u16 = 10;

/// The bytes that begin a header: version, reserved byte, length.
pub const PREFIX_LEN: usize = 4;

/// The bytes of one field.
pub const FIELD_LEN: usize = 8;

/// Where in a record the channel stands.
pub const CHANNEL_AT: usize = 16;

/// Two bytes, the low one first.
pub open spec fn le16(value: u16) -> Seq<u8> {
    seq![(value % 256) as u8, (value / 256) as u8]
}

/// Four bytes, the lowest first.
pub open spec fn le32(value: u32) -> Seq<u8> {
    seq![
        (value % 256) as u8,
        (value / 256 % 256) as u8,
        (value / 65536 % 256) as u8,
        (value / 16777216) as u8,
    ]
}

/// One field: kind, length of the value, value.
pub open spec fn field(kind: u16, len: u16, value: u32) -> Seq<u8> {
    le16(kind) + le16(len) + le32(value)
}

/// The length of the header of a frame with this link quality.
pub open spec fn header_len(link_quality_index: Option<u8>) -> nat {
    if link_quality_index is Some {
        (PREFIX_LEN + 3 * FIELD_LEN) as nat
    } else {
        (PREFIX_LEN + 2 * FIELD_LEN) as nat
    }
}

/// The header of a frame that was received on `channel` with this link quality: no frame check
/// sequence, the channel, and the link quality where there is one.
pub open spec fn header(channel: u8, link_quality_index: Option<u8>) -> Seq<u8> {
    seq![0u8, 0u8] + le16(header_len(link_quality_index) as u16) + field(FIELD_FCS, 1, 0) + field(
        FIELD_CHANNEL,
        3,
        channel as u32,
    ) + match link_quality_index {
        Some(quality) => field(FIELD_LINK_QUALITY, 1, quality as u32),
        None => Seq::<u8>::empty(),
    }
}

/// The record of a frame that was received on `channel`.
pub open spec fn record(frame: FrameView, channel: u8) -> Seq<u8> {
    header(channel, frame.link_quality_index) + frame.payload
}

/// The record that a packet from the device leads to: that of its frame, where it is a
/// captured frame.
pub open spec fn record_of(packet: PacketView, channel: u8) -> Option<Seq<u8>> {
    match packet {
        PacketView::CaptureFrame(frame) => Some(record(frame, channel)),
        _ => None,
    }
}

/// Calls `byteorder::LittleEndian::write_u16` on a buffer of two bytes. Taken for granted: it
/// fills the buffer with the value's two bytes, the low one first.
#[verifier::external_body]
fn u16_bytes(value: u16) -> (bytes: [u8; 2])
    ensures
        bytes@ == le16(value),
{
    let mut bytes = [0u8; 2];
    LittleEndian::write_u16(&mut bytes, value);
    bytes
}

/// Calls `byteorder::LittleEndian::write_u32` on a buffer of four bytes. Taken for granted: it
/// fills the buffer with the value's four bytes, the lowest first.
#[verifier::external_body]
fn u32_bytes(value: u32) -> (bytes: [u8; 4])
    ensures
        bytes@ == le32(value),
{
    let mut bytes = [0u8; 4];
    LittleEndian::write_u32(&mut bytes, value);
    bytes
}

/// Appends one field to `out`.
fn put_field(out: &mut Vec<u8>, kind: u16, len: u16, value: u32)
    ensures
        final(out)@ == old(out)@ + field(kind, len, value),
{
    let kind_bytes = u16_bytes(kind);
    let len_bytes = u16_bytes(len);
    let value_bytes = u32_bytes(value);
    append(out, kind_bytes.as_slice());
    append(out, len_bytes.as_slice());
    append(out, value_bytes.as_slice());
    assert(out@ =~= old(out)@ + field(kind, len, value));
}

/// The header of a frame that was received on `channel` with this link quality.
pub fn tap_header(channel: u8, link_quality_index: Option<u8>) -> (out: Vec<u8>)
    ensures
        out@ == header(channel, link_quality_index),
        out@.len() == header_len(link_quality_index),
{
    let len: u16 = match link_quality_index {
        Some(_) => (PREFIX_LEN + 3 * FIELD_LEN) as u16,
        None => (PREFIX_LEN + 2 * FIELD_LEN) as u16,
    };
    let len_bytes = u16_bytes(len);
    let mut out: Vec<u8> = Vec::new();
    out.push(0);
    out.push(0);
    append(&mut out, len_bytes.as_slice());
    put_field(&mut out, FIELD_FCS, 1, 0);
    put_field(&mut out, FIELD_CHANNEL, 3, channel as u32);
    match link_quality_index {
        Some(quality) => put_field(&mut out, FIELD_LINK_QUALITY, 1, quality as u32),
        None => {},
    }
    assert(out@ =~= header(channel, link_quality_index));
    out
}

/// The record of a frame that was received on `channel`.
pub fn tap_record(frame: &Frame, channel: u8) -> (out: Vec<u8>)
    ensures
        out@ == record(frame@, channel),
        out@.len() == header_len(frame@.link_quality_index) + frame@.payload.len(),
        out@[CHANNEL_AT as int] == channel,
{
    let mut out = tap_header(channel, frame.link_quality_index);
    append(&mut out, frame.payload_slice());
    proof {
        lemma_record_layout(frame@, channel);
    }
    out
}

/// The record that a packet from the device leads to, if any.
pub fn capture_record(packet: &Packet, channel: u8) -> (r: Option<Vec<u8>>)
    ensures
        match r {
            Some(out) => record_of(packet@, channel) == Some(out@),
            None => record_of(packet@, channel) is None,
        },
{
    match packet {
        Packet::CaptureFrame(frame) => Some(tap_record(frame, channel)),
        _ => None,
    }
}

/// A record tells its header's length in its third and fourth byte, the channel that it was
/// given in its channel field, and holds the payload behind the header.
pub proof fn lemma_record_layout(frame: FrameView, channel: u8)
    ensures
        record(frame, channel).len() == header_len(frame.link_quality_index) + frame.payload.len(),
        record(frame, channel).subrange(2, 4) == le16(header_len(frame.link_quality_index) as u16),
        record(frame, channel).subrange(12, 16) == le16(FIELD_CHANNEL) + le16(3),
        record(frame, channel)[CHANNEL_AT as int] == channel,
        record(frame, channel).subrange(17, 20) == seq![0u8, 0u8, 0u8],
        record(frame, channel).skip(header_len(frame.link_quality_index) as int) == frame.payload,
        frame.link_quality_index matches Some(quality) ==> record(frame, channel).subrange(20, 28)
            == field(FIELD_LINK_QUALITY, 1, quality as u32),
{
    let all = record(frame, channel);
    let head = header(channel, frame.link_quality_index);
    assert(head.len() == header_len(frame.link_quality_index));
    assert(all.subrange(2, 4) =~= le16(header_len(frame.link_quality_index) as u16));
    assert(all.subrange(12, 16) =~= le16(FIELD_CHANNEL) + le16(3));
    assert(all.subrange(17, 20) =~= seq![0u8, 0u8, 0u8]);
    assert(all.skip(header_len(frame.link_quality_index) as int) =~= frame.payload);
    if let Some(quality) = frame.link_quality_index {
        assert(all.subrange(20, 28) =~= field(FIELD_LINK_QUALITY, 1, quality as u32));
    }
}

} // verus!
