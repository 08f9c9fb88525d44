use ieee802154_sniffer::packet::{Frame, Packet, PROBE_HOST};

fn encoded(packet: &Packet) -> Vec<u8> {
    let mut buffer = [0u8; 512];
    packet.encode(&mut buffer).unwrap().to_vec()
}

#[test]
fn unit_variants_are_framed_as_postcard_frames_their_tag() {
    let units = [
        (0u32, Packet::NoOperation),
        (1, Packet::Reset),
        (5, Packet::CaptureStart),
        (6, Packet::CaptureStop),
    ];
    for (tag, packet) in units {
        assert_eq!(encoded(&packet), postcard::to_stdvec_cobs(&tag).unwrap());
    }
}

#[test]
fn fields_are_framed_as_postcard_frames_them() {
    for magic in [0u32, 127, 128, PROBE_HOST, u32::MAX] {
        let expected = postcard::to_stdvec_cobs(&(2u32, magic)).unwrap();
        assert_eq!(encoded(&Packet::Probe(magic)), expected);
    }
    for channel in [0u8, 11, 26, 255] {
        let expected = postcard::to_stdvec_cobs(&(3u32, channel)).unwrap();
        assert_eq!(encoded(&Packet::Channel(channel)), expected);
    }
    for level in [0i32, 1, -1, 63, -64, 64, -65, i32::MAX, i32::MIN] {
        let expected = postcard::to_stdvec_cobs(&(4u32, level)).unwrap();
        assert_eq!(encoded(&Packet::Power(level)), expected);
    }
}

#[test]
fn frames_are_framed_as_postcard_frames_them() {
    let ramp: Vec<u8> = (0..=255u8).collect();
    let payloads: [&[u8]; 7] = [&[], &[0xde, 0xad], &[0u8; 5], &[0x55; 249], &[0x55; 253], &[0x55; 256], &ramp];
    for payload in payloads {
        for quality in [None, Some(0u8), Some(200)] {
            let expected = postcard::to_stdvec_cobs(&(7u32, quality, payload)).unwrap();
            let packet = Packet::CaptureFrame(Frame::new(quality, payload).unwrap());
            assert_eq!(encoded(&packet), expected);
        }
    }
}

#[test]
fn postcard_reads_back_what_encode_wrote() {
    let mut bytes = encoded(&Packet::Probe(PROBE_HOST));
    let (fields, rest) = postcard::take_from_bytes_cobs::<(u32, u32)>(&mut bytes).unwrap();
    assert_eq!(fields, (2, PROBE_HOST));
    assert!(rest.is_empty());
    let packet = Packet::CaptureFrame(Frame::new(Some(200), &[0xde, 0x00, 0xad]).unwrap());
    let mut bytes = encoded(&packet);
    let (fields, rest) =
        postcard::take_from_bytes_cobs::<(u32, Option<u8>, Vec<u8>)>(&mut bytes).unwrap();
    assert_eq!(fields, (7, Some(200), vec![0xde, 0x00, 0xad]));
    assert!(rest.is_empty());
}

#[test]
fn decode_reads_what_postcard_wrote() {
    let mut bytes = postcard::to_stdvec_cobs(&(4u32, -1000i32)).unwrap();
    assert_eq!(Packet::decode(&mut bytes).unwrap().0, Packet::Power(-1000));
    let payload: &[u8] = &[0x00, 0x01, 0x00];
    let mut bytes = postcard::to_stdvec_cobs(&(7u32, Some(3u8), payload)).unwrap();
    let expected = Packet::CaptureFrame(Frame::new(Some(3), payload).unwrap());
    assert_eq!(Packet::decode(&mut bytes).unwrap().0, expected);
}
