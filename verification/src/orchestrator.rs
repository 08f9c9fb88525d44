//! The capture side of the firmware: what the device does on each control packet from the host
//! and on each frame that its radio received.
//!
//! The device keeps two things for as long as it runs, the channel and whether capture is on,
//! and only control packets change them. Each event leads to at most one action, which the
//! firmware's tasks carry out: a command to the radio, or a packet to put on the queue of the
//! serial writer.

use vstd::prelude::*;
use crate::packet::{Frame, FrameView, Packet, PacketView, PAYLOAD_CAPACITY, PROBE_DEVICE, PROBE_HOST};

verus! {

/// The channel that the radio works on until the host asks for another.
pub const DEFAULT_CHANNEL: u8 = 11;

/// What the device keeps between events.
#[derive(Clone, Copy, Debug, PartialEq, Eq, Structural)]
pub struct CaptureState {
    /// The channel that the host asked for last.
    pub channel: u8,
    /// Whether received frames are forwarded.
    pub capture_enabled: bool,
}

/// What happened: the host sent a control packet, or the radio received a frame.
pub enum Event<'a> {
    /// A control packet came in from the host.
    Control(Packet),
    /// The radio received a frame of this payload at this link quality.
    Reception { payload: &'a [u8], link_quality: u8 },
}

/// What the firmware is to do about an event.
#[derive(Debug, PartialEq)]
pub enum Action {
    /// Nothing.
    Nothing,
    /// Set the radio to the channel, and arm its receiver again.
    Retune(u8),
    /// Set the radio to the channel, and switch its receiver on.
    StartReceive(u8),
    /// Put the packet on the queue of the serial writer.
    Send(Packet),
}

/// An event as contracts see it.
pub enum EventView {
    Control(PacketView),
    Reception { payload: Seq<u8>, link_quality: u8 },
}

/// An action as contracts see it.
pub enum ActionView {
    Nothing,
    Retune(u8),
    StartReceive(u8),
    Send(PacketView),
}

impl<'a> View for Event<'a> {
    type V = EventView;

    open spec fn view(&self) -> EventView {
        match *self {
            Event::Control(packet) => EventView::Control(packet@),
            Event::Reception { payload, link_quality } => EventView::Reception {
                payload: payload@,
                link_quality,
            },
        }
    }
}

impl View for Action {
    type V = ActionView;

    open spec fn view(&self) -> ActionView {
        match *self {
            Action::Nothing => ActionView::Nothing,
            Action::Retune(channel) => ActionView::Retune(channel),
            Action::StartReceive(channel) => ActionView::StartReceive(channel),
            Action::Send(packet) => ActionView::Send(packet@),
        }
    }
}

impl ActionView {
    /// The action forwards a captured frame to the host.
    pub open spec fn forwards_frame(self) -> bool {
        self matches ActionView::Send(PacketView::CaptureFrame(_))
    }
}

impl CaptureState {
    /// The state in which the device starts.
    pub open spec fn initial() -> CaptureState {
        CaptureState { channel: DEFAULT_CHANNEL, capture_enabled: false }
    }

    /// The state after a control packet.
    pub open spec fn after_control(self, packet: PacketView) -> CaptureState {
        match packet {
            PacketView::Channel(channel) => CaptureState { channel, ..self },
            PacketView::CaptureStart => CaptureState { capture_enabled: true, ..self },
            PacketView::CaptureStop => CaptureState { capture_enabled: false, ..self },
            _ => self,
        }
    }

    /// The action that a control packet leads to.
    pub open spec fn control_action(self, packet: PacketView) -> ActionView {
        match packet {
            PacketView::Channel(channel) => ActionView::Retune(channel),
            PacketView::Probe(magic) => if magic == PROBE_HOST {
                ActionView::Send(PacketView::Probe(PROBE_DEVICE))
            } else {
                ActionView::Nothing
            },
            PacketView::CaptureStart => ActionView::StartReceive(self.channel),
            _ => ActionView::Nothing,
        }
    }

    /// The action that a received frame leads to: it is forwarded while capture is on, unless
    /// it is longer than a packet can hold.
    pub open spec fn reception_action(self, payload: Seq<u8>, link_quality: u8) -> ActionView {
        if self.capture_enabled && payload.len() <= PAYLOAD_CAPACITY {
            ActionView::Send(
                PacketView::CaptureFrame(
                    FrameView { link_quality_index: Some(link_quality), payload },
                ),
            )
        } else {
            ActionView::Nothing
        }
    }

    /// The state after an event.
    pub open spec fn after(self, event: EventView) -> CaptureState {
        match event {
            EventView::Control(packet) => self.after_control(packet),
            EventView::Reception { .. } => self,
        }
    }

    /// The action that an event leads to.
    pub open spec fn action(self, event: EventView) -> ActionView {
        match event {
            EventView::Control(packet) => self.control_action(packet),
            EventView::Reception { payload, link_quality } => self.reception_action(
                payload,
                link_quality,
            ),
        }
    }

    /// The state after a run of events, oldest first.
    pub open spec fn after_all(self, events: Seq<EventView>) -> CaptureState
        decreases events.len(),
    {
        if events.len() == 0 {
            self
        } else {
            self.after_all(events.drop_last()).after(events.last())
        }
    }

    /// The actions that a run of events leads to, one for each event.
    pub open spec fn actions(self, events: Seq<EventView>) -> Seq<ActionView> {
        Seq::new(events.len(), |i: int| self.after_all(events.take(i)).action(events[i]))
    }

    /// The device as it starts: on the default channel, with capture off.
    pub fn new() -> (state: CaptureState)
        ensures
            state == CaptureState::initial(),
    {
        CaptureState { channel: DEFAULT_CHANNEL, capture_enabled: false }
    }

    /// Takes in a control packet from the host.
    pub fn on_control(&mut self, packet: &Packet) -> (action: Action)
        ensures
            *final(self) == old(self).after_control(packet@),
            action@ == old(self).control_action(packet@),
    {
        match packet {
            Packet::Channel(channel) => {
                self.channel = *channel;
                Action::Retune(*channel)
            },
            Packet::Probe(magic) => {
                if *magic == PROBE_HOST {
                    Action::Send(Packet::Probe(PROBE_DEVICE))
                } else {
                    Action::Nothing
                }
            },
            Packet::CaptureStart => {
                self.capture_enabled = true;
                Action::StartReceive(self.channel)
            },
            Packet::CaptureStop => {
                self.capture_enabled = false;
                Action::Nothing
            },
            Packet::Power(_) | Packet::NoOperation | Packet::Reset | Packet::CaptureFrame(_) => {
                Action::Nothing
            },
        }
    }

    /// Takes in a frame that the radio received.
    pub fn on_reception(&self, payload: &[u8], link_quality: u8) -> (action: Action)
        ensures
            action@ == self.reception_action(payload@, link_quality),
    {
        if !self.capture_enabled {
            return Action::Nothing;
        }
        match Frame::new(Some(link_quality), payload) {
            Some(frame) => Action::Send(Packet::CaptureFrame(frame)),
            None => Action::Nothing,
        }
    }

    /// Takes in an event of either kind.
    pub fn handle(&mut self, event: Event) -> (action: Action)
        ensures
            *final(self) == old(self).after(event@),
            action@ == old(self).action(event@),
    {
        match event {
            Event::Control(packet) => self.on_control(&packet),
            Event::Reception { payload, link_quality } => self.on_reception(payload, link_quality),
        }
    }
}

/// What the radio hands over for a received frame: a length byte, that many bytes of which the
/// last two are not payload, and behind them a byte that tells the signal strength.
pub open spec fn record_parts(record: Seq<u8>) -> Option<(Seq<u8>, u8)> {
    if record.len() >= 1 && 2 <= record[0] < record.len() {
        Some((record.subrange(1, record[0] - 1), record[record[0] as int]))
    } else {
        None
    }
}

/// Takes the payload and the signal byte out of a record of the radio, or finds that the
/// record's length byte does not fit the record.
pub fn split_record(record: &[u8]) -> (r: Option<(&[u8], u8)>)
    ensures
        match r {
            Some((payload, signal)) => record_parts(record@) == Some((payload@, signal)),
            None => record_parts(record@) is None,
        },
{
    if record.len() == 0 {
        return None;
    }
    let size: usize = record[0] as usize;
    if size < 2 || size >= record.len() {
        return None;
    }
    Some((vstd::slice::slice_subrange(record, 1, size - 1), record[size]))
}

/// Capture is on after an event exactly if the event was the packet that starts it, or capture
/// was on before and the event was not the packet that stops it.
pub proof fn lemma_capture_switch(state: CaptureState, event: EventView)
    ensures
        state.after(event).capture_enabled <==> (event == EventView::Control(
            PacketView::CaptureStart,
        ) || (state.capture_enabled && event != EventView::Control(PacketView::CaptureStop))),
{
}

/// While capture is off no frame is forwarded; while it is on every frame that fits is.
pub proof fn lemma_forwards_only_while_capturing(
    state: CaptureState,
    payload: Seq<u8>,
    link_quality: u8,
)
    ensures
        state.reception_action(payload, link_quality).forwards_frame() <==> (state.capture_enabled
            && payload.len() <= PAYLOAD_CAPACITY),
        !state.capture_enabled ==> state.reception_action(payload, link_quality)
            == ActionView::Nothing,
{
}

/// After the packet that stops capture, a received frame leads to nothing, whatever the state
/// was before.
pub proof fn lemma_stop_then_reception_forwards_nothing(
    state: CaptureState,
    payload: Seq<u8>,
    link_quality: u8,
)
    ensures
        state.after_control(PacketView::CaptureStop).reception_action(payload, link_quality)
            == ActionView::Nothing,
{
}

/// After the packet that stops capture, no run of events forwards a frame as long as the
/// packet that starts capture is not among them.
pub proof fn lemma_nothing_forwarded_until_start(state: CaptureState, events: Seq<EventView>)
    requires
        !state.capture_enabled,
        forall|i: int|
            0 <= i < events.len() ==> events[i] != EventView::Control(PacketView::CaptureStart),
    ensures
        !state.after_all(events).capture_enabled,
        forall|i: int|
            0 <= i < events.len() ==> !(#[trigger] state.actions(events)[i]).forwards_frame(),
    decreases events.len(),
{
    if events.len() > 0 {
        let earlier = events.drop_last();
        lemma_nothing_forwarded_until_start(state, earlier);
        assert forall|i: int| 0 <= i < events.len() implies !(#[trigger] state.actions(
            events,
        )[i]).forwards_frame() by {
            let before = events.take(i);
            assert(forall|k: int|
                0 <= k < before.len() ==> before[k] == events[k]);
            lemma_nothing_forwarded_until_start(state, before);
        }
    }
}

} // verus!
