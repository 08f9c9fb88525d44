use ieee802154_sniffer::packet::{Error, Frame, Packet, Payload, PAYLOAD_CAPACITY};
use ieee802154_sniffer::schema::MAX_RAW_LEN;
use ieee802154_sniffer::varint::{fold_i32, put_varint, take_u32, take_u64, unfold_i32};

fn written(value: u64) -> Vec<u8> {
    let mut out = vec![0xee];
    put_varint(&mut out, value);
    assert_eq!(out[0], 0xee);
    out[1..].to_vec()
}

#[test]
fn varint_gives_the_expected_bytes() {
    assert_eq!(written(0), [0x00]);
    assert_eq!(written(1), [0x01]);
    assert_eq!(written(127), [0x7f]);
    assert_eq!(written(128), [0x80, 0x01]);
    assert_eq!(written(300), [0xac, 0x02]);
    assert_eq!(written(16383), [0xff, 0x7f]);
    assert_eq!(written(16384), [0x80, 0x80, 0x01]);
    assert_eq!(written(u32::MAX as u64), [0xff, 0xff, 0xff, 0xff, 0x0f]);
    assert_eq!(
        written(u64::MAX),
        [0xff, 0xff, 0xff, 0xff, 0xff, 0xff, 0xff, 0xff, 0xff, 0x01]
    );
}

#[test]
fn varint_reads_back_what_was_written() {
    for value in [0u32, 1, 127, 128, 300, 16383, 16384, 0x0123_4567, 0xfedc_ba98, u32::MAX] {
        let mut bytes = written(value as u64);
        let len = bytes.len();
        bytes.push(0x99);
        assert_eq!(take_u32(&bytes, 0), Some((value, len)));
        assert_eq!(take_u64(&bytes, 0), Some((value as u64, len)));
    }
    let bytes = written(u64::MAX);
    assert_eq!(take_u64(&bytes, 0), Some((u64::MAX, 10)));
    assert_eq!(take_u32(&bytes, 0), None);
}

#[test]
fn varint_reads_from_the_given_place() {
    let bytes = [0xff, 0xac, 0x02, 0x07];
    assert_eq!(take_u32(&bytes, 1), Some((300, 2)));
    assert_eq!(take_u32(&bytes, 3), Some((7, 1)));
    assert_eq!(take_u32(&bytes, 4), None);
    assert_eq!(take_u32(&bytes, 5), None);
    assert_eq!(take_u64(&bytes, 5), None);
}

#[test]
fn varint_rejects_what_is_cut_short_or_too_long() {
    assert_eq!(take_u32(&[], 0), None);
    assert_eq!(take_u32(&[0x80], 0), None);
    assert_eq!(take_u32(&[0xff, 0xff, 0xff, 0xff], 0), None);
    // The fifth byte may hold four bits only.
    assert_eq!(take_u32(&[0xff, 0xff, 0xff, 0xff, 0x0f], 0), Some((u32::MAX, 5)));
    assert_eq!(take_u32(&[0xff, 0xff, 0xff, 0xff, 0x10], 0), None);
    // Five bytes that all ask for more.
    assert_eq!(take_u32(&[0x80, 0x80, 0x80, 0x80, 0x80, 0x00], 0), None);
    // The tenth byte may hold one bit only.
    let mut ten = [0xffu8; 10];
    ten[9] = 0x02;
    assert_eq!(take_u64(&ten, 0), None);
}

#[test]
fn varint_accepts_needless_zero_groups() {
    assert_eq!(take_u32(&[0x81, 0x00], 0), Some((1, 2)));
    assert_eq!(take_u32(&[0x80, 0x80, 0x80, 0x80, 0x00], 0), Some((0, 5)));
    assert_eq!(take_u64(&[0x83, 0x80, 0x80, 0x80, 0x80, 0x80, 0x00], 0), Some((3, 7)));
}

#[test]
fn signed_values_fold_onto_unsigned_ones() {
    assert_eq!(fold_i32(0), 0);
    assert_eq!(fold_i32(-1), 1);
    assert_eq!(fold_i32(1), 2);
    assert_eq!(fold_i32(-2), 3);
    assert_eq!(fold_i32(2), 4);
    assert_eq!(fold_i32(i32::MAX), u32::MAX - 1);
    assert_eq!(fold_i32(i32::MIN), u32::MAX);
    for value in [0, 1, -1, 2, -2, 1000, -1000, i32::MAX, i32::MIN] {
        assert_eq!(unfold_i32(fold_i32(value)), value);
    }
    assert_eq!(unfold_i32(0), 0);
    assert_eq!(unfold_i32(1), -1);
    assert_eq!(unfold_i32(u32::MAX), i32::MIN);
}

#[test]
fn serialize_gives_the_expected_bytes() {
    assert_eq!(Packet::NoOperation.serialize(), [0x00]);
    assert_eq!(Packet::Reset.serialize(), [0x01]);
    assert_eq!(
        Packet::Probe(0xfedc_ba98).serialize(),
        [0x02, 0x98, 0xf5, 0xf2, 0xf6, 0x0f]
    );
    assert_eq!(Packet::Channel(15).serialize(), [0x03, 0x0f]);
    assert_eq!(Packet::Power(0).serialize(), [0x04, 0x00]);
    assert_eq!(Packet::Power(-1).serialize(), [0x04, 0x01]);
    assert_eq!(Packet::CaptureStart.serialize(), [0x05]);
    assert_eq!(Packet::CaptureStop.serialize(), [0x06]);
    let frame = Frame::new(Some(200), &[0xde, 0xad]).unwrap();
    assert_eq!(
        Packet::CaptureFrame(frame).serialize(),
        [0x07, 0x01, 0xc8, 0x02, 0xde, 0xad]
    );
    let frame = Frame::new(None, &[0x02, 0x00, 0x04]).unwrap();
    assert_eq!(
        Packet::CaptureFrame(frame).serialize(),
        [0x07, 0x00, 0x03, 0x02, 0x00, 0x04]
    );
}

#[test]
fn the_longest_packet_takes_the_stated_maximum() {
    let frame = Frame::new(Some(7), &[0x55; 256]).unwrap();
    let raw = Packet::CaptureFrame(frame).serialize();
    assert_eq!(raw.len(), MAX_RAW_LEN);
    assert_eq!(raw[..5], [0x07, 0x01, 0x07, 0x80, 0x02]);
}

#[test]
fn deserialize_reads_what_serialize_wrote_and_stops_there() {
    let frame = Frame::new(Some(200), &[0xde, 0x00, 0xad]).unwrap();
    for packet in [
        Packet::NoOperation,
        Packet::Probe(300),
        Packet::Channel(26),
        Packet::Power(-1000),
        Packet::CaptureFrame(frame),
    ] {
        let mut raw = packet.serialize();
        let len = raw.len();
        raw.extend_from_slice(&[0xff, 0xff]);
        assert_eq!(Packet::deserialize(&raw), Ok((packet, len)));
    }
}

#[test]
fn deserialize_rejects_what_is_no_packet() {
    assert_eq!(Packet::deserialize(&[]), Err(Error::Malformed));
    assert_eq!(Packet::deserialize(&[0x08]), Err(Error::Malformed));
    assert_eq!(Packet::deserialize(&[0x7f]), Err(Error::Malformed));
    assert_eq!(Packet::deserialize(&[0x02]), Err(Error::Malformed));
    assert_eq!(Packet::deserialize(&[0x02, 0x80]), Err(Error::Malformed));
    assert_eq!(Packet::deserialize(&[0x03]), Err(Error::Malformed));
    assert_eq!(Packet::deserialize(&[0x04, 0xff, 0xff, 0xff, 0xff, 0x10]), Err(Error::Malformed));
    assert_eq!(Packet::deserialize(&[0x07]), Err(Error::Malformed));
    // An optional byte is told by 0 or 1.
    assert_eq!(Packet::deserialize(&[0x07, 0x02, 0x00]), Err(Error::Malformed));
    assert_eq!(Packet::deserialize(&[0x07, 0x01]), Err(Error::Malformed));
    assert_eq!(Packet::deserialize(&[0x07, 0x00]), Err(Error::Malformed));
    // A payload that is shorter than its length says.
    assert_eq!(Packet::deserialize(&[0x07, 0x00, 0x02, 0xde]), Err(Error::Malformed));
}

#[test]
fn deserialize_accepts_a_tag_with_needless_zero_groups() {
    assert_eq!(Packet::deserialize(&[0x81, 0x00]), Ok((Packet::Reset, 2)));
}

#[test]
fn deserialize_rejects_a_payload_over_the_capacity() {
    let mut raw = vec![0x07, 0x00, 0x81, 0x02];
    raw.extend_from_slice(&[0x11; 257]);
    assert_eq!(Packet::deserialize(&raw), Err(Error::Malformed));
    let mut raw = vec![0x07, 0x00, 0x80, 0x02];
    raw.extend_from_slice(&[0x11; 256]);
    let frame = Frame::new(None, &[0x11; 256]).unwrap();
    assert_eq!(Packet::deserialize(&raw), Ok((Packet::CaptureFrame(frame), 260)));
}

#[test]
fn a_frame_holds_what_it_was_made_of() {
    let frame = Frame::new(Some(9), &[1, 2, 3]).unwrap();
    assert_eq!(frame.link_quality_index, Some(9));
    assert_eq!(frame.payload, Payload::from_slice(&[1, 2, 3]).unwrap());
    assert_eq!(frame.payload_slice(), [1, 2, 3]);
    assert_eq!(frame.clone().payload_slice(), [1, 2, 3]);
    assert!(Frame::new(None, &[0; PAYLOAD_CAPACITY]).is_some());
    assert!(Frame::new(None, &[0; PAYLOAD_CAPACITY + 1]).is_none());
}
