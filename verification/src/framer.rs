//! Reassembly of frames from a byte stream that arrives in pieces.
//!
//! The framer keeps the bytes that have arrived and not yet left as a frame. Each frame ends at
//! a terminator; what stands before the first terminator is handed to the codec, and whether or
//! not it decodes, it is taken out together with its terminator, so that one damaged frame
//! costs that frame only.
//!
//! The buffer is bounded. Where it is full and holds no terminator, no frame can complete in
//! it any more: the framer then drops what it holds, reports `Error::Overrun` once, and lets
//! the stream pass unheeded up to and including the next terminator, behind which it is in
//! step again.

use vstd::prelude::*;
use crate::bytes::{find, first_at};
use crate::codec::{
    decoded,
    encodes,
    lemma_decode_of_encoding,
    lemma_terminator_exists,
    lemma_terminator_place,
    terminator_place,
};
use crate::stuffing::TERMINATOR;
use crate::packet::{Error, Packet, PacketView};

verus! {

/// Bytes that wait for their frame to complete.
pub struct LinkFramer {
    buffer: Vec<u8>,
    capacity: usize,
    skipping: bool,
}

/// A framer as contracts see it.
pub struct FramerView {
    /// The bytes that have arrived and not yet left, oldest first.
    pub pending: Seq<u8>,
    /// The most bytes that may wait.
    pub capacity: nat,
    /// The framer lets bytes pass unheeded until a terminator has gone by.
    pub skipping: bool,
}

/// What one look for a frame found.
pub enum FrameResult {
    /// The frame at the front was the frame of this packet.
    Packet(PacketView),
    /// The frame at the front did not decode.
    Damaged,
    /// The buffer was full and held no terminator.
    Overrun,
}

impl FramerView {
    /// No more bytes wait than may, and none while bytes are let pass.
    pub open spec fn wf(self) -> bool {
        &&& self.pending.len() <= self.capacity
        &&& self.skipping ==> self.pending.len() == 0
    }

    /// How many more bytes may wait.
    pub open spec fn room(self) -> nat {
        if self.pending.len() <= self.capacity {
            (self.capacity - self.pending.len()) as nat
        } else {
            0
        }
    }

    /// How many bytes at the front of `bytes` pass unheeded: none while the framer is in step,
    /// else those up to and including the first terminator, or all where there is none.
    pub open spec fn passed_over(self, bytes: Seq<u8>) -> nat {
        if !self.skipping {
            0
        } else if bytes.contains(TERMINATOR) {
            (terminator_place(bytes) + 1) as nat
        } else {
            bytes.len()
        }
    }

    /// How many of `bytes` are kept: those behind the ones that pass, as far as there is room.
    pub open spec fn kept(self, bytes: Seq<u8>) -> nat {
        let left = (bytes.len() - self.passed_over(bytes)) as nat;
        if left <= self.room() {
            left
        } else {
            self.room()
        }
    }

    /// The framer after `bytes` were offered to it.
    pub open spec fn after_push(self, bytes: Seq<u8>) -> FramerView {
        let from = self.passed_over(bytes) as int;
        FramerView {
            pending: self.pending + bytes.subrange(from, from + self.kept(bytes)),
            capacity: self.capacity,
            skipping: self.skipping && !bytes.contains(TERMINATOR),
        }
    }

    /// A frame is complete: a terminator waits.
    pub open spec fn has_frame(self) -> bool {
        self.pending.contains(TERMINATOR)
    }

    /// The buffer is full, holds no terminator, and the framer is in step.
    pub open spec fn overrun(self) -> bool {
        !self.has_frame() && !self.skipping && self.pending.len() >= self.capacity
    }

    /// What a look for a frame finds.
    pub open spec fn next_result(self) -> Option<FrameResult> {
        if self.has_frame() {
            match decoded(self.pending) {
                Some((packet, _)) => Some(FrameResult::Packet(packet)),
                None => Some(FrameResult::Damaged),
            }
        } else if self.overrun() {
            Some(FrameResult::Overrun)
        } else {
            None
        }
    }

    /// A bound on the looks that can still find something.
    pub open spec fn work(self) -> nat {
        if self.skipping {
            2 * self.pending.len()
        } else {
            2 * self.pending.len() + 1
        }
    }

    /// The framer after `looks` looks for a frame.
    pub open spec fn after_looks(self, looks: nat) -> FramerView
        decreases looks,
    {
        if looks == 0 {
            self
        } else {
            self.after_next().after_looks((looks - 1) as nat)
        }
    }

    /// The framer after a look for a frame.
    pub open spec fn after_next(self) -> FramerView {
        if self.has_frame() {
            FramerView {
                pending: self.pending.skip(terminator_place(self.pending) + 1),
                capacity: self.capacity,
                skipping: self.skipping,
            }
        } else if self.overrun() {
            FramerView { pending: Seq::<u8>::empty(), capacity: self.capacity, skipping: true }
        } else {
            self
        }
    }
}

impl View for LinkFramer {
    type V = FramerView;

    closed spec fn view(&self) -> FramerView {
        FramerView {
            pending: self.buffer@,
            capacity: self.capacity as nat,
            skipping: self.skipping,
        }
    }
}

/// A frame at the front of the waiting bytes leaves as its packet, whatever waits behind it,
/// and what waited behind it waits on.
pub proof fn lemma_frame_at_front_decodes(
    framer: FramerView,
    frame: Seq<u8>,
    packet: PacketView,
    tail: Seq<u8>,
)
    requires
        packet.wf(),
        encodes(frame, packet),
        framer.pending == frame + tail,
    ensures
        framer.next_result() == Some(FrameResult::Packet(packet)),
        framer.after_next().pending == tail,
        framer.after_next().skipping == framer.skipping,
{
    let end = frame.len() - 1;
    assert(first_at(frame + tail, TERMINATOR, end));
    lemma_terminator_place(frame + tail, end);
    lemma_decode_of_encoding(frame, packet, tail);
    assert((frame + tail).skip(end + 1) =~= tail);
}

/// What a look returned is what the look was to find.
pub open spec fn tells(returned: Result<Packet, Error>, found: Option<FrameResult>) -> bool {
    match returned {
        Ok(packet) => found == Some(FrameResult::Packet(packet@)),
        Err(Error::Malformed) => found == Some(FrameResult::Damaged),
        Err(Error::Overrun) => found == Some(FrameResult::Overrun),
        Err(Error::EncodingFailed) => false,
    }
}

/// Looking once more after `looks` looks is looking once after them.
pub proof fn lemma_one_more_look(framer: FramerView, looks: nat)
    ensures
        framer.after_looks(looks + 1) == framer.after_looks(looks).after_next(),
    decreases looks,
{
    if looks > 0 {
        lemma_one_more_look(framer.after_next(), (looks - 1) as nat);
        assert(framer.after_looks(looks + 1) == framer.after_next().after_looks(looks));
        assert(framer.after_looks(looks) == framer.after_next().after_looks((looks - 1) as nat));
    } else {
        assert(framer.after_looks(1) == framer.after_next().after_looks(0));
    }
}

/// Every look that finds something leaves the framer with less to go on: fewer bytes, or none
/// and no more heed for those that come.
pub proof fn lemma_look_makes_progress(framer: FramerView)
    requires
        framer.next_result() is Some,
    ensures
        framer.after_next().work() < framer.work(),
{
    if framer.has_frame() {
        lemma_terminator_exists(framer.pending);
    }
}

/// The frames of a run, one behind the other.
pub open spec fn joined(frames: Seq<Seq<u8>>) -> Seq<u8>
    decreases frames.len(),
{
    if frames.len() == 0 {
        Seq::<u8>::empty()
    } else {
        frames[0] + joined(frames.drop_first())
    }
}

/// However many frames wait at once, they leave in the order in which they arrived, each as
/// its packet, and what waited behind them waits on.
pub proof fn lemma_frames_leave_in_order(
    framer: FramerView,
    frames: Seq<Seq<u8>>,
    packets: Seq<PacketView>,
    tail: Seq<u8>,
)
    requires
        frames.len() == packets.len(),
        forall|i: int| 0 <= i < frames.len() ==> packets[i].wf() && encodes(frames[i], packets[i]),
        framer.pending == joined(frames) + tail,
    ensures
        forall|i: int|
            0 <= i < frames.len() ==> (#[trigger] framer.after_looks(i as nat)).next_result()
                == Some(FrameResult::Packet(packets[i])),
        framer.after_looks(frames.len()).pending == tail,
        framer.after_looks(frames.len()).skipping == framer.skipping,
    decreases frames.len(),
{
    if frames.len() == 0 {
        assert(joined(frames) + tail =~= tail);
    } else {
        let later = frames.drop_first();
        assert(framer.pending =~= frames[0] + (joined(later) + tail));
        lemma_frame_at_front_decodes(framer, frames[0], packets[0], joined(later) + tail);
        let next = framer.after_next();
        lemma_frames_leave_in_order(next, later, packets.drop_first(), tail);
        assert forall|i: int| 0 <= i < frames.len() implies (#[trigger] framer.after_looks(
            i as nat,
        )).next_result() == Some(FrameResult::Packet(packets[i])) by {
            if i > 0 {
                assert(framer.after_looks(i as nat) == next.after_looks((i - 1) as nat));
                assert(packets.drop_first()[i - 1] == packets[i]);
            }
        }
        assert(framer.after_looks(frames.len()) == next.after_looks(later.len()));
    }
}

/// Whatever stands before a terminator, it costs one look: it leaves with that terminator,
/// decoded or not, and the frame behind it leaves as its packet at the next look.
pub proof fn lemma_resynchronises(
    framer: FramerView,
    damaged: Seq<u8>,
    frame: Seq<u8>,
    packet: PacketView,
    tail: Seq<u8>,
)
    requires
        packet.wf(),
        encodes(frame, packet),
        !damaged.contains(TERMINATOR),
        framer.pending == damaged + seq![TERMINATOR] + frame + tail,
    ensures
        framer.next_result() is Some,
        !(framer.next_result() matches Some(FrameResult::Overrun)),
        framer.after_next().pending == frame + tail,
        framer.after_next().next_result() == Some(FrameResult::Packet(packet)),
        framer.after_next().after_next().pending == tail,
{
    let end = damaged.len() as int;
    assert(framer.pending[end] == TERMINATOR);
    assert forall|i: int| 0 <= i < end implies framer.pending[i] != TERMINATOR by {
        assert(damaged[i] == framer.pending[i]);
        assert(damaged.contains(framer.pending[i]));
    }
    assert(first_at(framer.pending, TERMINATOR, end));
    lemma_terminator_place(framer.pending, end);
    assert(framer.pending.skip(end + 1) =~= frame + tail);
    lemma_frame_at_front_decodes(framer.after_next(), frame, packet, tail);
}

/// A truncated frame whose terminator never came does not stop the link: once a terminator
/// arrives, the bytes before it leave, and the frame behind it leaves as its packet.
pub proof fn lemma_recovers_after_truncated_frame(
    framer: FramerView,
    cut: Seq<u8>,
    cut_packet: PacketView,
    kept: int,
    frame: Seq<u8>,
    packet: PacketView,
)
    requires
        packet.wf(),
        encodes(cut, cut_packet),
        0 <= kept < cut.len(),
        encodes(frame, packet),
        framer.pending == cut.take(kept) + seq![TERMINATOR] + frame,
    ensures
        framer.after_next().pending == frame,
        framer.after_next().next_result() == Some(FrameResult::Packet(packet)),
        framer.after_next().after_next().pending == Seq::<u8>::empty(),
{
    let damaged = cut.take(kept);
    if damaged.contains(TERMINATOR) {
        let i = choose|i: int| 0 <= i < damaged.len() && damaged[i] == TERMINATOR;
        assert(cut[i] == TERMINATOR);
    }
    assert(framer.pending =~= damaged + seq![TERMINATOR] + frame + Seq::<u8>::empty());
    lemma_resynchronises(framer, damaged, frame, packet, Seq::<u8>::empty());
    assert(frame + Seq::<u8>::empty() =~= frame);
}

/// Bytes may arrive in any pieces: as long as there is room for them, two pieces offered one
/// after the other leave the framer as the two offered as one would.
pub proof fn lemma_push_in_pieces(framer: FramerView, first: Seq<u8>, second: Seq<u8>)
    requires
        framer.wf(),
        first.len() + second.len() <= framer.room(),
    ensures
        framer.after_push(first).after_push(second) == framer.after_push(first + second),
{
    let both = first + second;
    let middle = framer.after_push(first);
    let pieces = middle.after_push(second);
    let whole = framer.after_push(both);
    if first.contains(TERMINATOR) {
        let at = terminator_place(first);
        lemma_terminator_exists(first);
        assert(first_at(both, TERMINATOR, at)) by {
            assert(both[at] == first[at]);
            assert forall|i: int| 0 <= i < at implies both[i] != TERMINATOR by {
                assert(both[i] == first[i]);
            }
        }
        lemma_terminator_place(both, at);
    } else if second.contains(TERMINATOR) {
        let at = terminator_place(second);
        lemma_terminator_exists(second);
        assert(first_at(both, TERMINATOR, first.len() + at)) by {
            assert(both[first.len() + at] == second[at]);
            assert forall|i: int| 0 <= i < first.len() + at implies both[i] != TERMINATOR by {
                if i < first.len() {
                    assert(both[i] == first[i]);
                    assert(first.contains(first[i]));
                } else {
                    assert(both[i] == second[i - first.len()]);
                }
            }
        }
        lemma_terminator_place(both, first.len() + at);
    } else {
        if both.contains(TERMINATOR) {
            let i = choose|i: int| 0 <= i < both.len() && both[i] == TERMINATOR;
            if i < first.len() {
                assert(first[i] == TERMINATOR);
            } else {
                assert(second[i - first.len()] == TERMINATOR);
            }
        }
    }
    assert(pieces.skipping == whole.skipping);
    assert(pieces.pending =~= whole.pending);
}

/// After an overrun the framer holds nothing and lets the stream pass up to and including the
/// next terminator. The frame behind that terminator, where it fits, leaves as its packet.
pub proof fn lemma_in_step_after_overrun(
    framer: FramerView,
    lost: Seq<u8>,
    frame: Seq<u8>,
    packet: PacketView,
)
    requires
        framer.overrun(),
        packet.wf(),
        encodes(frame, packet),
        !lost.contains(TERMINATOR),
        frame.len() <= framer.capacity,
    ensures
        framer.next_result() == Some(FrameResult::Overrun),
        framer.after_next().pending == Seq::<u8>::empty(),
        framer.after_next().skipping,
        framer.after_next().after_push(lost + seq![TERMINATOR] + frame).pending == frame,
        !framer.after_next().after_push(lost + seq![TERMINATOR] + frame).skipping,
        framer.after_next().after_push(lost + seq![TERMINATOR] + frame).next_result() == Some(
            FrameResult::Packet(packet),
        ),
{
    let idle = framer.after_next();
    let bytes = lost + seq![TERMINATOR] + frame;
    let end = lost.len() as int;
    assert(bytes[end] == TERMINATOR);
    assert forall|i: int| 0 <= i < end implies bytes[i] != TERMINATOR by {
        assert(bytes[i] == lost[i]);
        assert(lost.contains(lost[i]));
    }
    assert(first_at(bytes, TERMINATOR, end));
    lemma_terminator_place(bytes, end);
    assert(bytes.subrange(end + 1, end + 1 + frame.len()) =~= frame);
    assert(idle.after_push(bytes).pending =~= frame);
    lemma_frame_at_front_decodes(idle.after_push(bytes), frame, packet, Seq::<u8>::empty());
    assert(frame + Seq::<u8>::empty() =~= frame);
}

impl LinkFramer {
    /// A framer in which at most `capacity` bytes wait, with none waiting yet.
    pub fn new(capacity: usize) -> (framer: LinkFramer)
        ensures
            framer@ == (FramerView {
                pending: Seq::<u8>::empty(),
                capacity: capacity as nat,
                skipping: false,
            }),
            framer@.wf(),
    {
        LinkFramer { buffer: Vec::new(), capacity, skipping: false }
    }

    /// The most bytes that may wait.
    pub fn capacity(&self) -> (n: usize)
        ensures
            n == self@.capacity,
    {
        self.capacity
    }

    /// How many bytes wait.
    pub fn len(&self) -> (n: usize)
        ensures
            n == self@.pending.len(),
    {
        self.buffer.len()
    }

    /// How many more bytes may wait.
    pub fn room(&self) -> (n: usize)
        ensures
            n == self@.room(),
    {
        if self.buffer.len() <= self.capacity {
            self.capacity - self.buffer.len()
        } else {
            0
        }
    }

    /// Whether the framer lets bytes pass until a terminator has gone by.
    pub fn is_skipping(&self) -> (b: bool)
        ensures
            b == self@.skipping,
    {
        self.skipping
    }

    /// Whether a frame is complete.
    pub fn has_frame(&self) -> (b: bool)
        ensures
            b == self@.has_frame(),
    {
        find(self.buffer.as_slice(), TERMINATOR).is_some()
    }

    /// Offers `bytes` to the framer and says how many of them it took: those that passed
    /// unheeded and those that it keeps. The others found no room and are to be offered again
    /// once frames have left.
    pub fn push(&mut self, bytes: &[u8]) -> (taken: usize)
        ensures
            final(self)@ == old(self)@.after_push(bytes@),
            taken == old(self)@.passed_over(bytes@) + old(self)@.kept(bytes@),
            taken <= bytes@.len(),
            old(self)@.wf() ==> final(self)@.wf(),
    {
        let mut i: usize = 0;
        while self.skipping && i < bytes.len()
            invariant
                i <= bytes@.len(),
                self.capacity == old(self).capacity,
                self.buffer == old(self).buffer,
                !old(self).skipping ==> !self.skipping && i == 0,
                old(self).skipping && self.skipping ==> forall|k: int|
                    0 <= k < i ==> bytes@[k] != TERMINATOR,
                old(self).skipping && !self.skipping ==> i > 0 && first_at(
                    bytes@,
                    TERMINATOR,
                    i - 1,
                ),
            decreases bytes@.len() - i,
        {
            if bytes[i] == TERMINATOR {
                self.skipping = false;
            }
            i += 1;
        }
        proof {
            if old(self).skipping && !self.skipping {
                lemma_terminator_place(bytes@, i - 1);
            }
            assert(i == old(self)@.passed_over(bytes@));
        }
        let from: usize = i;
        while i < bytes.len() && self.buffer.len() < self.capacity
            invariant
                from <= i <= bytes@.len(),
                self.capacity == old(self).capacity,
                self.skipping == (old(self).skipping && !bytes@.contains(TERMINATOR)),
                self.buffer@ == old(self).buffer@ + bytes@.subrange(from as int, i as int),
                !self.skipping || i == bytes@.len(),
                i > from ==> self.buffer@.len() <= self.capacity,
            decreases bytes@.len() - i,
        {
            self.buffer.push(bytes[i]);
            i += 1;
            assert(self.buffer@ =~= old(self).buffer@ + bytes@.subrange(from as int, i as int));
        }
        proof {
            assert(i - from == old(self)@.kept(bytes@));
            assert(self@.pending =~= old(self)@.after_push(bytes@).pending);
        }
        i
    }

    /// Looks for frames until a look finds nothing, and returns what the looks found, in order.
    pub fn drain(&mut self) -> (found: Vec<Result<Packet, Error>>)
        ensures
            final(self)@ == old(self)@.after_looks(found@.len()),
            forall|i: int|
                0 <= i < found@.len() ==> tells(
                    #[trigger] found@[i],
                    old(self)@.after_looks(i as nat).next_result(),
                ),
            final(self)@.next_result() is None,
            old(self)@.wf() ==> final(self)@.wf(),
    {
        let mut found: Vec<Result<Packet, Error>> = Vec::new();
        loop
            invariant
                self@ == old(self)@.after_looks(found@.len()),
                forall|i: int|
                    0 <= i < found@.len() ==> tells(
                        #[trigger] found@[i],
                        old(self)@.after_looks(i as nat).next_result(),
                    ),
                old(self)@.wf() ==> self@.wf(),
            ensures
                self@.next_result() is None,
            decreases self@.work(),
        {
            let ghost before = self@;
            proof {
                lemma_one_more_look(old(self)@, found@.len());
            }
            match self.next_packet() {
                Some(result) => {
                    proof {
                        lemma_look_makes_progress(before);
                    }
                    found.push(result);
                },
                None => break,
            }
        }
        found
    }

    /// Looks for a frame. Where a terminator waits, the bytes up to and including the first
    /// one leave, and the result is their packet or `Error::Malformed`. Where none waits and
    /// the buffer is full, all bytes leave and the result is `Error::Overrun`. Otherwise
    /// nothing changes and there is no result yet.
    pub fn next_packet(&mut self) -> (r: Option<Result<Packet, Error>>)
        ensures
            final(self)@ == old(self)@.after_next(),
            match r {
                Some(returned) => tells(returned, old(self)@.next_result()),
                None => old(self)@.next_result() is None,
            },
            old(self)@.wf() ==> final(self)@.wf(),
    {
        match find(self.buffer.as_slice(), TERMINATOR) {
            Some(at) => {
                proof {
                    lemma_terminator_place(self.buffer@, at as int);
                    assert(at < self.buffer.len());
                }
                let rest = self.buffer.split_off(at + 1);
                let ghost frame = self.buffer@;
                proof {
                    lemma_terminator_place(frame, at as int);
                    assert(frame.take(at as int) =~= old(self).buffer@.take(at as int));
                    assert(rest@ =~= old(self).buffer@.skip(at + 1));
                }
                let result = match Packet::decode(self.buffer.as_mut_slice()) {
                    Ok((packet, _)) => Ok(packet),
                    Err(e) => Err(e),
                };
                self.buffer = rest;
                Some(result)
            },
            None => {
                if !self.skipping && self.buffer.len() >= self.capacity {
                    self.buffer.clear();
                    self.skipping = true;
                    Some(Err(Error::Overrun))
                } else {
                    None
                }
            },
        }
    }
}

} // verus!
