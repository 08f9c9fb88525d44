//! Small steps on byte buffers that the rest of the library shares.

use vstd::prelude::*;

verus! {

/// Appends `bytes` to `out`.
pub fn append(out: &mut Vec<u8>, bytes: &[u8])
    ensures
        final(out)@ == old(out)@ + bytes@,
{
    let mut i: usize = 0;
    while i < bytes.len()
        invariant
            i <= bytes@.len(),
            out@ == old(out)@ + bytes@.take(i as int),
        decreases bytes@.len() - i,
    {
        out.push(bytes[i]);
        i += 1;
        assert(out@ =~= old(out)@ + bytes@.take(i as int));
    }
    assert(bytes@.take(i as int) =~= bytes@);
}

/// The place of the first `byte` in `bytes`, if there is one.
pub open spec fn first_at(bytes: Seq<u8>, byte: u8, at: int) -> bool {
    &&& 0 <= at < bytes.len()
    &&& bytes[at] == byte
    &&& forall|i: int| 0 <= i < at ==> bytes[i] != byte
}

/// Looks for the first `byte` in `bytes`.
pub fn find(bytes: &[u8], byte: u8) -> (r: Option<usize>)
    ensures
        match r {
            Some(at) => first_at(bytes@, byte, at as int),
            None => !bytes@.contains(byte),
        },
{
    let mut i: usize = 0;
    while i < bytes.len()
        invariant
            i <= bytes@.len(),
            forall|k: int| 0 <= k < i ==> bytes@[k] != byte,
        decreases bytes@.len() - i,
    {
        if bytes[i] == byte {
            return Some(i);
        }
        i += 1;
    }
    None
}

} // verus!
