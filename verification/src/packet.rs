//! The packets of the link, and what stands for them in contracts.

use vstd::prelude::*;

verus! {

/// Magic carried by a probe that the host sends.
pub const PROBE_HOST: u32 = 0xfedcba98;

/// Magic carried by the probe with which the device answers.
pub const PROBE_DEVICE: u32 = 0x01234567;

/// The most bytes that a frame's payload can hold.
pub const PAYLOAD_CAPACITY: usize = 256;

/// `heapless::Vec`, the bounded vector that holds a payload without the heap. Verus sees
/// nothing inside it: what a payload holds is `payload_bytes`, and the three functions below
/// say what the library takes from the methods it calls.
#[verifier::external_type_specification]
#[verifier::external_body]
#[verifier::reject_recursive_types(T)]
pub struct ExHeaplessVec<T, const N: usize>(heapless::Vec<T, N>);

/// The bytes of one radio frame.
pub type Payload = heapless::Vec<u8, 256>;

/// The bytes that a payload holds, in order: what `heapless::Vec::as_slice` shows of it.
pub uninterp spec fn payload_bytes(payload: heapless::Vec<u8, 256>) -> Seq<u8>;

/// Calls `heapless::Vec::as_slice`. Taken for granted: the slice holds the payload's bytes,
/// which are never more than the capacity.
#[verifier::external_body]
pub(crate) fn payload_as_slice(payload: &Payload) -> (bytes: &[u8])
    ensures
        bytes@ == payload_bytes(*payload),
        bytes@.len() <= PAYLOAD_CAPACITY,
{
    payload.as_slice()
}

/// Calls `heapless::Vec::from_slice`. Taken for granted: it fails exactly where the bytes are
/// more than the capacity, and else gives a payload that holds them.
#[verifier::external_body]
pub(crate) fn payload_from_slice(bytes: &[u8]) -> (r: Result<Payload, ()>)
    ensures
        r is Ok <==> bytes@.len() <= PAYLOAD_CAPACITY,
        r matches Ok(payload) ==> payload_bytes(payload) == bytes@,
{
    Payload::from_slice(bytes)
}

/// Calls `clone` of `heapless::Vec`. Taken for granted: the copy holds the same bytes.
#[verifier::external_body]
pub(crate) fn payload_clone(payload: &Payload) -> (copy: Payload)
    ensures
        payload_bytes(copy) == payload_bytes(*payload),
{
    payload.clone()
}

/// What went wrong on the link.
#[derive(Clone, Copy, Debug, PartialEq, Eq, Structural)]
pub enum Error {
    /// The encoded packet does not fit in the buffer that was given for it.
    EncodingFailed,
    /// The bytes are no frame of a packet: truncated, corrupted or of an unknown kind.
    Malformed,
    /// The receive buffer filled up before any terminator arrived.
    Overrun,
}

/// One captured radio frame.
#[derive(Debug, PartialEq)]
pub struct Frame {
    /// How well the frame was received, from 0 to 255, where the radio said so.
    pub link_quality_index: Option<u8>,
    /// The frame as it was on the air.
    pub payload: Payload,
}

/// The only unit that is ever put on the wire.
#[derive(Debug, PartialEq)]
pub enum Packet {
    /// Reserved; ignored by whoever receives it.
    NoOperation,
    /// Reserved; ignored by whoever receives it.
    Reset,
    /// The token of the handshake by which host and device find each other.
    Probe(u32),
    /// Asks the radio to work on the given channel.
    Channel(u8),
    /// Reserved for the transmit power; accepted and ignored.
    Power(i32),
    /// From now on received frames are forwarded.
    CaptureStart,
    /// From now on received frames are dropped.
    CaptureStop,
    /// One captured radio frame.
    CaptureFrame(Frame),
}

/// A frame as contracts see it.
pub struct FrameView {
    pub link_quality_index: Option<u8>,
    pub payload: Seq<u8>,
}

/// A packet as contracts see it.
pub enum PacketView {
    NoOperation,
    Reset,
    Probe(u32),
    Channel(u8),
    Power(i32),
    CaptureStart,
    CaptureStop,
    CaptureFrame(FrameView),
}

impl FrameView {
    /// The payload is within the capacity, as that of every `Frame` is.
    pub open spec fn wf(self) -> bool {
        self.payload.len() <= PAYLOAD_CAPACITY
    }
}

impl PacketView {
    /// The packet is one that a `Packet` can hold.
    pub open spec fn wf(self) -> bool {
        self matches PacketView::CaptureFrame(frame) ==> frame.wf()
    }
}

impl View for Frame {
    type V = FrameView;

    open spec fn view(&self) -> FrameView {
        FrameView {
            link_quality_index: self.link_quality_index,
            payload: payload_bytes(self.payload),
        }
    }
}

impl View for Packet {
    type V = PacketView;

    open spec fn view(&self) -> PacketView {
        match *self {
            Packet::NoOperation => PacketView::NoOperation,
            Packet::Reset => PacketView::Reset,
            Packet::Probe(magic) => PacketView::Probe(magic),
            Packet::Channel(channel) => PacketView::Channel(channel),
            Packet::Power(level) => PacketView::Power(level),
            Packet::CaptureStart => PacketView::CaptureStart,
            Packet::CaptureStop => PacketView::CaptureStop,
            Packet::CaptureFrame(frame) => PacketView::CaptureFrame(frame@),
        }
    }
}

impl Frame {
    /// A frame that holds `payload`, or `None` where it is more than a frame can hold.
    pub fn new(link_quality_index: Option<u8>, payload: &[u8]) -> (r: Option<Frame>)
        ensures
            r is Some <==> payload@.len() <= PAYLOAD_CAPACITY,
            r matches Some(frame) ==> frame@ == (FrameView {
                link_quality_index,
                payload: payload@,
            }),
    {
        match payload_from_slice(payload) {
            Ok(payload) => Some(Frame { link_quality_index, payload }),
            Err(_) => None,
        }
    }

    /// The payload's bytes.
    pub fn payload_slice(&self) -> (bytes: &[u8])
        ensures
            bytes@ == self@.payload,
            self@.wf(),
    {
        payload_as_slice(&self.payload)
    }
}

impl Clone for Frame {
    fn clone(&self) -> (copy: Self)
        ensures
            copy@ == self@,
    {
        Frame {
            link_quality_index: self.link_quality_index,
            payload: payload_clone(&self.payload),
        }
    }
}

impl Clone for Packet {
    fn clone(&self) -> (copy: Self)
        ensures
            copy@ == self@,
    {
        match self {
            Packet::NoOperation => Packet::NoOperation,
            Packet::Reset => Packet::Reset,
            Packet::Probe(magic) => Packet::Probe(*magic),
            Packet::Channel(channel) => Packet::Channel(*channel),
            Packet::Power(level) => Packet::Power(*level),
            Packet::CaptureStart => Packet::CaptureStart,
            Packet::CaptureStop => Packet::CaptureStop,
            Packet::CaptureFrame(frame) => Packet::CaptureFrame(frame.clone()),
        }
    }
}

} // verus!
