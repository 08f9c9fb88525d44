use ieee802154_sniffer::framer::LinkFramer;
use ieee802154_sniffer::handshake::Handshake;
use ieee802154_sniffer::orchestrator::{Action, CaptureState};
use ieee802154_sniffer::packet::{Frame, Packet, PROBE_DEVICE};
use ieee802154_sniffer::tap::{capture_record, CHANNEL_AT};

/// What one side wrote to the serial line.
fn send(line: &mut Vec<u8>, packet: &Packet) {
    let mut buffer = [0u8; 512];
    line.extend_from_slice(packet.encode(&mut buffer).unwrap());
}

/// What the other side makes of the serial line, read three bytes at a time.
fn receive(framer: &mut LinkFramer, line: &mut Vec<u8>) -> Vec<Packet> {
    let mut packets = Vec::new();
    let bytes = std::mem::take(line);
    for piece in bytes.chunks(3) {
        assert_eq!(framer.push(piece), piece.len());
        while let Some(result) = framer.next_packet() {
            packets.push(result.unwrap());
        }
    }
    packets
}

/// The device takes in what the host sent and answers on the line to the host.
fn run_device(
    state: &mut CaptureState,
    framer: &mut LinkFramer,
    to_device: &mut Vec<u8>,
    to_host: &mut Vec<u8>,
) -> Vec<Action> {
    let mut commands = Vec::new();
    for packet in receive(framer, to_device) {
        match state.on_control(&packet) {
            Action::Send(reply) => send(to_host, &reply),
            other => commands.push(other),
        }
    }
    commands
}

#[test]
fn a_captured_frame_reaches_the_capture_file_with_its_channel() {
    let mut to_device = Vec::new();
    let mut to_host = Vec::new();
    let mut device = CaptureState::new();
    let mut device_framer = LinkFramer::new(512);
    let mut host_framer = LinkFramer::new(4096);
    let channel = 15;

    send(&mut to_device, &Packet::Channel(channel));
    send(&mut to_device, &Packet::CaptureStart);
    let commands = run_device(&mut device, &mut device_framer, &mut to_device, &mut to_host);
    assert_eq!(commands, [Action::Retune(15), Action::StartReceive(15)]);
    assert!(to_host.is_empty());

    match device.on_reception(&[0xde, 0xad], 200) {
        Action::Send(packet) => send(&mut to_host, &packet),
        other => panic!("the frame was not forwarded: {:?}", other),
    }

    let packets = receive(&mut host_framer, &mut to_host);
    let expected = Frame::new(Some(200), &[0xde, 0xad]).unwrap();
    assert_eq!(packets, [Packet::CaptureFrame(expected)]);

    let record = capture_record(&packets[0], channel).unwrap();
    assert_eq!(record[CHANNEL_AT], 15);
    assert_eq!(record[12..20], [0x03, 0x00, 0x03, 0x00, 0x0f, 0x00, 0x00, 0x00]);
    assert_eq!(record[record.len() - 2..], [0xde, 0xad]);
}

#[test]
fn after_capture_stop_no_frame_reaches_the_host() {
    let mut to_device = Vec::new();
    let mut to_host = Vec::new();
    let mut device = CaptureState::new();
    let mut device_framer = LinkFramer::new(512);
    let mut host_framer = LinkFramer::new(4096);

    send(&mut to_device, &Packet::CaptureStart);
    send(&mut to_device, &Packet::CaptureStop);
    run_device(&mut device, &mut device_framer, &mut to_device, &mut to_host);
    if let Action::Send(packet) = device.on_reception(&[0xde, 0xad], 200) {
        send(&mut to_host, &packet);
    }
    assert!(to_host.is_empty());
    assert!(receive(&mut host_framer, &mut to_host).is_empty());
}

#[test]
fn the_host_finds_a_device_that_answers_its_probe() {
    let mut to_device = Vec::new();
    let mut to_host = Vec::new();
    let mut device = CaptureState::new();
    let mut device_framer = LinkFramer::new(512);
    let mut host_framer = LinkFramer::new(4096);
    let mut handshake = Handshake::new();

    send(&mut to_device, &handshake.start());
    run_device(&mut device, &mut device_framer, &mut to_device, &mut to_host);
    let replies = receive(&mut host_framer, &mut to_host);
    assert_eq!(replies, [Packet::Probe(PROBE_DEVICE)]);
    let completions = replies.iter().filter(|reply| handshake.observe(reply)).count();
    assert_eq!(completions, 1);
    assert!(handshake.is_complete());
}

#[test]
fn line_noise_before_a_frame_costs_no_later_frame() {
    let mut line = vec![0xff, 0x13, 0x37, 0x00];
    send(&mut line, &Packet::Channel(12));
    send(&mut line, &Packet::CaptureStart);
    let mut framer = LinkFramer::new(512);
    framer.push(&line);
    let mut results = Vec::new();
    while let Some(result) = framer.next_packet() {
        results.push(result);
    }
    assert_eq!(results.len(), 3);
    assert!(results[0].is_err());
    assert_eq!(results[1], Ok(Packet::Channel(12)));
    assert_eq!(results[2], Ok(Packet::CaptureStart));
}
