//! Byte stuffing: the transform that keeps the terminator byte out of a frame's body.
//!
//! The transform is done by `postcard`, which stuffs through its `Cobs` flavor, and by `cobs`,
//! which undoes it. Nothing here is proved about their code: the contracts in this module say
//! what the rest of the library takes from them, and everything that is proved about frames
//! rests on these contracts.

use vstd::prelude::*;
use postcard::ser_flavors::{Cobs, Flavor, Slice};

verus! {

/// The byte that ends every frame and occurs nowhere else in it.
pub const TERMINATOR: u8 = 0;

/// The error of `cobs::decode_vec`. The library only tells it from success.
#[verifier::external_type_specification]
#[verifier::external_body]
pub struct ExCobsDecodeError(cobs::DecodeError);

/// The frame that `postcard`'s `Cobs` flavor produces for `data`: the stuffed bytes followed by
/// the terminator.
pub uninterp spec fn stuffed_frame(data: Seq<u8>) -> Seq<u8>;

/// What `cobs::decode_vec` makes of a frame's body: the bytes that were stuffed, or `None` where
/// the body is no valid stuffing.
pub uninterp spec fn unstuffed(body: Seq<u8>) -> Option<Seq<u8>>;

/// `frame` is the frame of `data`, with all that the library takes for granted of such a frame:
/// it is at least two bytes long and longer than `data` by no more than one byte for every 254
/// bytes of `data` and two more; it ends in the terminator and holds it nowhere else; and
/// `cobs::decode_vec` makes `data` of what stands before the terminator.
pub open spec fn well_framed(data: Seq<u8>, frame: Seq<u8>) -> bool {
    &&& frame == stuffed_frame(data)
    &&& 2 <= frame.len() <= data.len() + data.len() / 254 + 2
    &&& frame[frame.len() - 1] == TERMINATOR
    &&& forall|i: int| 0 <= i < frame.len() - 1 ==> frame[i] != TERMINATOR
    &&& unstuffed(frame.subrange(0, frame.len() - 1)) == Some(data)
}

/// Runs `postcard`'s `Cobs` flavor over its `Slice` flavor on `buffer`: `Cobs::try_new`, then
/// `Flavor::try_extend` with `data`, then `Flavor::finalize`.
///
/// Taken for granted: the flavor writes the frame of `data` to the front of `buffer` and
/// returns that part, and what it returns is `well_framed`; it fails exactly where the frame is
/// longer than `buffer`, so never where `buffer` has room for the longest frame that `data` can
/// have; behind the frame `buffer` keeps what it held.
#[verifier::external_body]
pub(crate) fn stuff_into<'a>(data: &[u8], buffer: &'a mut [u8]) -> (r: Option<&'a mut [u8]>)
    ensures
        r is Some <==> stuffed_frame(data@).len() <= old(buffer)@.len(),
        old(buffer)@.len() >= data@.len() + data@.len() / 254 + 2 ==> r is Some,
        r matches Some(out) ==> well_framed(data@, out@),
        r matches Some(out) ==> final(buffer)@ == final(out)@ + old(buffer)@.skip(
            out@.len() as int,
        ),
        r is None ==> final(buffer)@.len() == old(buffer)@.len(),
{
    let mut flavor = Cobs::try_new(Slice::new(buffer)).ok()?;
    flavor.try_extend(data).ok()?;
    flavor.finalize().ok()
}

/// Calls `cobs::decode_vec` on the bytes that stand before a frame's terminator.
///
/// Taken for granted: what it returns depends on `body` alone. `unstuffed` is the name of that
/// result.
#[verifier::external_body]
pub(crate) fn unstuff(body: &[u8]) -> (r: Result<Vec<u8>, cobs::DecodeError>)
    ensures
        r matches Ok(data) ==> unstuffed(body@) == Some(data@),
        r is Err ==> unstuffed(body@) is None,
{
    cobs::decode_vec(body)
}

} // verus!
