//! The two ends of the wire: a packet becomes a frame that ends in the terminator and holds it
//! nowhere else, and the front of a byte buffer becomes a packet again.

use vstd::prelude::*;
use crate::bytes::{find, first_at};
use crate::stuffing::{stuff_into, stuffed_frame, unstuff, unstuffed, well_framed, TERMINATOR};
use crate::packet::{Error, Packet, PacketView};
use crate::schema::{lemma_parse_raw_of_raw_bytes, parse_raw, raw_bytes};

verus! {

/// A buffer of this length holds the frame of any packet.
pub const MAX_ENCODED_LEN: usize = 264;

/// `bytes` is the frame of `packet`.
pub open spec fn encodes(bytes: Seq<u8>, packet: PacketView) -> bool {
    well_framed(raw_bytes(packet), bytes)
}

/// Where the first terminator of `bytes` stands, if they hold one.
pub open spec fn terminator_place(bytes: Seq<u8>) -> int {
    choose|at: int| first_at(bytes, TERMINATOR, at)
}

/// What decoding makes of `bytes`: the packet of the frame that ends at the first terminator,
/// and the bytes behind that terminator.
///
/// There is no result where `bytes` hold no terminator, where the bytes before it are no valid
/// stuffing, or where what was stuffed does not begin with a packet.
pub open spec fn decoded(bytes: Seq<u8>) -> Option<(PacketView, Seq<u8>)> {
    if bytes.contains(TERMINATOR) {
        let at = terminator_place(bytes);
        match unstuffed(bytes.take(at)) {
            Some(raw) => match parse_raw(raw) {
                Some((packet, _)) => Some((packet, bytes.skip(at + 1))),
                None => None,
            },
            None => None,
        }
    } else {
        None
    }
}

/// Where a terminator stands at all, one stands first.
pub proof fn lemma_terminator_exists(bytes: Seq<u8>)
    requires
        bytes.contains(TERMINATOR),
    ensures
        first_at(bytes, TERMINATOR, terminator_place(bytes)),
{
    let i = choose|i: int| 0 <= i < bytes.len() && bytes[i] == TERMINATOR;
    lemma_first_before(bytes, i);
}

proof fn lemma_first_before(bytes: Seq<u8>, i: int)
    requires
        0 <= i < bytes.len(),
        bytes[i] == TERMINATOR,
    ensures
        exists|at: int| first_at(bytes, TERMINATOR, at),
    decreases i,
{
    if exists|k: int| 0 <= k < i && bytes[k] == TERMINATOR {
        let k = choose|k: int| 0 <= k < i && bytes[k] == TERMINATOR;
        lemma_first_before(bytes, k);
    } else {
        assert(first_at(bytes, TERMINATOR, i));
    }
}

/// The first terminator stands in one place only.
pub proof fn lemma_terminator_place(bytes: Seq<u8>, at: int)
    requires
        first_at(bytes, TERMINATOR, at),
    ensures
        bytes.contains(TERMINATOR),
        terminator_place(bytes) == at,
{
    let chosen = terminator_place(bytes);
    assert(first_at(bytes, TERMINATOR, chosen));
    if chosen < at {
        assert(bytes[chosen] != TERMINATOR);
    }
    if at < chosen {
        assert(bytes[at] != TERMINATOR);
    }
}

/// In the frame of a packet the only zero byte is the last one.
pub proof fn lemma_only_terminator_is_zero(bytes: Seq<u8>, packet: PacketView)
    requires
        encodes(bytes, packet),
    ensures
        bytes.len() >= 2,
        bytes.last() == 0,
        forall|i: int| 0 <= i < bytes.len() - 1 ==> bytes[i] != 0,
        first_at(bytes, TERMINATOR, bytes.len() - 1),
{
}

/// Decoding the frame of a packet gives the packet back, and leaves nothing over.
pub proof fn lemma_decode_inverts_encode(bytes: Seq<u8>, packet: PacketView)
    requires
        packet.wf(),
        encodes(bytes, packet),
    ensures
        decoded(bytes) == Some((packet, Seq::<u8>::empty())),
{
    lemma_decode_of_encoding(bytes, packet, Seq::<u8>::empty());
    assert(bytes + Seq::<u8>::empty() =~= bytes);
}

/// Decoding the frame of a packet, with anything behind it, gives the packet and what was
/// behind it.
pub proof fn lemma_decode_of_encoding(bytes: Seq<u8>, packet: PacketView, tail: Seq<u8>)
    requires
        packet.wf(),
        encodes(bytes, packet),
    ensures
        decoded(bytes + tail) == Some((packet, tail)),
{
    let end = bytes.len() - 1;
    let all = bytes + tail;
    assert(first_at(all, TERMINATOR, end));
    lemma_terminator_place(all, end);
    assert(all.take(end) =~= bytes.subrange(0, end));
    assert(all.skip(end + 1) =~= tail);
    lemma_parse_raw_of_raw_bytes(packet, Seq::<u8>::empty());
    assert(raw_bytes(packet) + Seq::<u8>::empty() =~= raw_bytes(packet));
}

/// Two frames back to back decode to both packets in order, with nothing left over.
pub proof fn lemma_decode_concatenation(
    first: Seq<u8>,
    first_packet: PacketView,
    second: Seq<u8>,
    second_packet: PacketView,
)
    requires
        first_packet.wf(),
        second_packet.wf(),
        encodes(first, first_packet),
        encodes(second, second_packet),
    ensures
        decoded(first + second) == Some((first_packet, second)),
        decoded(second) == Some((second_packet, Seq::<u8>::empty())),
{
    lemma_decode_of_encoding(first, first_packet, second);
    lemma_decode_inverts_encode(second, second_packet);
}

/// A frame cut short at any length does not decode.
pub proof fn lemma_truncated_frame_fails(bytes: Seq<u8>, packet: PacketView, kept: int)
    requires
        encodes(bytes, packet),
        0 <= kept < bytes.len(),
    ensures
        decoded(bytes.take(kept)) is None,
{
    let cut = bytes.take(kept);
    if cut.contains(TERMINATOR) {
        let i = choose|i: int| 0 <= i < cut.len() && cut[i] == TERMINATOR;
        assert(bytes[i] == TERMINATOR);
    }
}

impl Packet {
    /// Writes the packet's frame to the front of `buffer` and returns that part of it.
    ///
    /// It fails where the frame is longer than `buffer`, which a buffer of `MAX_ENCODED_LEN`
    /// bytes never is. Behind the frame `buffer` keeps what it held.
    pub fn encode<'a>(&self, buffer: &'a mut [u8]) -> (r: Result<&'a mut [u8], Error>)
        ensures
            r is Ok <==> stuffed_frame(raw_bytes(self@)).len() <= old(buffer)@.len(),
            old(buffer)@.len() >= MAX_ENCODED_LEN ==> r is Ok,
            match r {
                Ok(out) => {
                    &&& encodes(out@, self@)
                    &&& decoded(out@) == Some((self@, Seq::<u8>::empty()))
                    &&& final(buffer)@ == final(out)@ + old(buffer)@.skip(out@.len() as int)
                },
                Err(e) => e == Error::EncodingFailed && final(buffer)@.len() == old(buffer)@.len(),
            },
    {
        let raw = self.serialize();
        match stuff_into(raw.as_slice(), buffer) {
            Some(out) => {
                proof {
                    lemma_decode_inverts_encode(out@, self@);
                }
                Ok(out)
            },
            None => Err(Error::EncodingFailed),
        }
    }

    /// Reads the packet of the frame at the front of `buffer`, and returns it with the part of
    /// `buffer` behind that frame.
    ///
    /// It fails on every buffer that `decoded` has no result for, and leaves the buffer as it
    /// was.
    pub fn decode(buffer: &mut [u8]) -> (r: Result<(Packet, &mut [u8]), Error>)
        ensures
            match r {
                Ok((packet, rest)) => {
                    &&& decoded(old(buffer)@) == Some((packet@, rest@))
                    &&& final(buffer)@ == old(buffer)@.take(old(buffer)@.len() - rest@.len())
                        + final(rest)@
                },
                Err(e) => {
                    &&& e == Error::Malformed
                    &&& decoded(old(buffer)@) is None
                    &&& final(buffer)@ == old(buffer)@
                },
            },
    {
        let at = match find(buffer, TERMINATOR) {
            Some(at) => at,
            None => return Err(Error::Malformed),
        };
        proof {
            lemma_terminator_place(buffer@, at as int);
            assert(at < buffer.len());
        }
        let (frame, rest) = buffer.split_at_mut(at + 1);
        let body = vstd::slice::slice_subrange(frame, 0, at);
        assert(body@ =~= old(buffer)@.take(at as int));
        assert(rest@ =~= old(buffer)@.skip(at + 1));
        let raw = match unstuff(body) {
            Ok(raw) => raw,
            Err(_) => return Err(Error::Malformed),
        };
        match Packet::deserialize(raw.as_slice()) {
            Ok((packet, _)) => Ok((packet, rest)),
            Err(e) => Err(e),
        }
    }
}

} // verus!
