use ieee802154_sniffer::handshake::Handshake;
use ieee802154_sniffer::packet::{Frame, Packet, PROBE_DEVICE, PROBE_HOST};

#[test]
fn the_handshake_begins_with_the_probe_of_the_host() {
    let mut handshake = Handshake::new();
    assert_eq!(handshake, Handshake::Idle);
    assert!(!handshake.is_complete());
    assert_eq!(handshake.start(), Packet::Probe(PROBE_HOST));
    assert_eq!(PROBE_HOST, 0xfedcba98);
    assert_eq!(handshake, Handshake::Waiting);
    assert!(!handshake.is_complete());
}

#[test]
fn a_peer_that_never_replies_never_completes_the_handshake() {
    let mut handshake = Handshake::new();
    handshake.start();
    let frame = Frame::new(Some(1), &[1, 2, 3]).unwrap();
    for _ in 0..100 {
        for packet in [
            Packet::NoOperation,
            Packet::Reset,
            Packet::Channel(11),
            Packet::Power(3),
            Packet::CaptureStart,
            Packet::CaptureStop,
            Packet::CaptureFrame(frame.clone()),
        ] {
            assert!(!handshake.observe(&packet));
            assert!(!handshake.is_complete());
        }
    }
    assert_eq!(handshake, Handshake::Waiting);
}

#[test]
fn a_peer_that_echoes_the_device_probe_completes_the_handshake_once() {
    let mut handshake = Handshake::new();
    handshake.start();
    let mut completions = 0;
    for packet in [
        Packet::Reset,
        Packet::Probe(PROBE_DEVICE),
        Packet::Probe(PROBE_DEVICE),
        Packet::CaptureStart,
        Packet::Probe(PROBE_DEVICE),
    ] {
        if handshake.observe(&packet) {
            completions += 1;
        }
    }
    assert_eq!(completions, 1);
    assert!(handshake.is_complete());
    assert_eq!(handshake, Handshake::Complete);
}

#[test]
fn a_probe_of_any_magic_completes_the_handshake() {
    for magic in [0, PROBE_DEVICE, PROBE_HOST, u32::MAX] {
        let mut handshake = Handshake::new();
        handshake.start();
        assert!(handshake.observe(&Packet::Probe(magic)));
        assert!(handshake.is_complete());
    }
}

#[test]
fn a_probe_that_was_not_waited_for_completes_nothing() {
    let mut handshake = Handshake::new();
    assert!(!handshake.observe(&Packet::Probe(PROBE_DEVICE)));
    assert_eq!(handshake, Handshake::Idle);
}

#[test]
fn the_handshake_can_begin_anew() {
    let mut handshake = Handshake::new();
    handshake.start();
    assert!(handshake.observe(&Packet::Probe(PROBE_DEVICE)));
    assert_eq!(handshake.start(), Packet::Probe(PROBE_HOST));
    assert!(!handshake.is_complete());
    assert!(handshake.observe(&Packet::Probe(PROBE_DEVICE)));
}
