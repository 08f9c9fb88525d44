//! The handshake by which the host finds out whether a serial device runs the sniffer's
//! firmware: the host sends a probe with its own magic and waits until a probe comes back.
//! Packets of any other kind that arrive meanwhile are passed over.

use vstd::prelude::*;
use crate::packet::{Packet, PacketView, PROBE_HOST};

verus! {

/// How far the handshake has come.
#[derive(Clone, Copy, Debug, PartialEq, Eq, Structural)]
pub enum Handshake {
    /// The probe is not sent yet.
    Idle,
    /// The probe is sent and no answer has come.
    Waiting,
    /// The device has answered.
    Complete,
}

/// The packet is a probe, whatever its magic.
pub open spec fn is_probe(packet: PacketView) -> bool {
    packet is Probe
}

impl Handshake {
    /// The handshake after the probe was sent.
    pub open spec fn after_start(self) -> Handshake {
        Handshake::Waiting
    }

    /// The handshake after `packet` arrived: only a probe that was waited for completes it.
    pub open spec fn after_packet(self, packet: PacketView) -> Handshake {
        if self == Handshake::Waiting && is_probe(packet) {
            Handshake::Complete
        } else {
            self
        }
    }

    /// The arrival of `packet` is what completes the handshake.
    pub open spec fn completed_by(self, packet: PacketView) -> bool {
        self == Handshake::Waiting && is_probe(packet)
    }

    /// The handshake after a run of packets, oldest first.
    pub open spec fn after_packets(self, packets: Seq<PacketView>) -> Handshake
        decreases packets.len(),
    {
        if packets.len() == 0 {
            self
        } else {
            self.after_packets(packets.drop_last()).after_packet(packets.last())
        }
    }

    /// How many packets of a run completed the handshake on their arrival.
    pub open spec fn completions(self, packets: Seq<PacketView>) -> nat
        decreases packets.len(),
    {
        if packets.len() == 0 {
            0
        } else {
            let earlier = packets.drop_last();
            let now: nat = if self.after_packets(earlier).completed_by(packets.last()) {
                1
            } else {
                0
            };
            self.completions(earlier) + now
        }
    }

    /// A handshake that has not begun.
    pub fn new() -> (handshake: Handshake)
        ensures
            handshake == Handshake::Idle,
    {
        Handshake::Idle
    }

    /// Begins the handshake, or begins it anew, and returns the probe to send.
    pub fn start(&mut self) -> (probe: Packet)
        ensures
            *final(self) == old(self).after_start(),
            probe@ == PacketView::Probe(PROBE_HOST),
    {
        *self = Handshake::Waiting;
        Packet::Probe(PROBE_HOST)
    }

    /// Takes in a packet that arrived, and says whether it is the one that completes the
    /// handshake.
    pub fn observe(&mut self, packet: &Packet) -> (completed: bool)
        ensures
            *final(self) == old(self).after_packet(packet@),
            completed == old(self).completed_by(packet@),
    {
        match (*self, packet) {
            (Handshake::Waiting, Packet::Probe(_)) => {
                *self = Handshake::Complete;
                true
            },
            _ => false,
        }
    }

    /// Whether the device has answered.
    pub fn is_complete(&self) -> (b: bool)
        ensures
            b == (*self == Handshake::Complete),
    {
        match self {
            Handshake::Complete => true,
            _ => false,
        }
    }
}

/// Against a peer that never answers with a probe the handshake never completes.
pub proof fn lemma_silent_peer_never_completes(packets: Seq<PacketView>)
    requires
        forall|i: int| 0 <= i < packets.len() ==> !is_probe(packets[i]),
    ensures
        Handshake::Waiting.after_packets(packets) == Handshake::Waiting,
        Handshake::Waiting.completions(packets) == 0,
    decreases packets.len(),
{
    if packets.len() > 0 {
        lemma_silent_peer_never_completes(packets.drop_last());
    }
}

/// Whatever arrives, the handshake completes at most once: once where a probe is among what
/// arrived after the host's probe was sent, and never where none is.
pub proof fn lemma_completes_once(packets: Seq<PacketView>)
    ensures
        Handshake::Waiting.completions(packets) == if exists|i: int|
            0 <= i < packets.len() && is_probe(packets[i]) {
            1nat
        } else {
            0nat
        },
        Handshake::Waiting.after_packets(packets) == if exists|i: int|
            0 <= i < packets.len() && is_probe(packets[i]) {
            Handshake::Complete
        } else {
            Handshake::Waiting
        },
    decreases packets.len(),
{
    if packets.len() > 0 {
        let earlier = packets.drop_last();
        lemma_completes_once(earlier);
        if exists|i: int| 0 <= i < earlier.len() && is_probe(earlier[i]) {
            let i = choose|i: int| 0 <= i < earlier.len() && is_probe(earlier[i]);
            assert(is_probe(packets[i]));
        } else if is_probe(packets.last()) {
            assert(is_probe(packets[packets.len() - 1]));
        } else {
            if exists|i: int| 0 <= i < packets.len() && is_probe(packets[i]) {
                let i = choose|i: int| 0 <= i < packets.len() && is_probe(packets[i]);
                if i < earlier.len() {
                    assert(is_probe(earlier[i]));
                }
            }
        }
    }
}

/// Before the host's probe is sent, and after the device has answered, nothing that arrives
/// completes the handshake.
pub proof fn lemma_no_completion_outside_waiting(handshake: Handshake, packets: Seq<PacketView>)
    requires
        handshake != Handshake::Waiting,
    ensures
        handshake.after_packets(packets) == handshake,
        handshake.completions(packets) == 0,
    decreases packets.len(),
{
    if packets.len() > 0 {
        lemma_no_completion_outside_waiting(handshake, packets.drop_last());
    }
}

} // verus!
