//! Variable-length integers as the wire format writes them: seven bits to a byte, the least
//! significant group first, the top bit set on every byte but the last. Signed values are
//! folded onto the unsigned ones first, so that small magnitudes stay short.

use vstd::prelude::*;

verus! {

/// The most bytes that an unsigned 32-bit value takes.
pub const U32_LIMIT: usize = 5;

/// The most that the last of those bytes holds: the four bits that are left of the 32.
pub const U32_TOP: u8 = 0x0f;

/// The most bytes that an unsigned 64-bit value takes.
pub const U64_LIMIT: usize = 10;

/// The most that the last of those bytes holds: the one bit that is left of the 64.
pub const U64_TOP: u8 = 0x01;

/// The bytes of `value`.
pub open spec fn varint(value: nat) -> Seq<u8>
    decreases value,
{
    if value < 128 {
        seq![value as u8]
    } else {
        seq![(128 + value % 128) as u8] + varint(value / 128)
    }
}

/// Reads one value from the front of `bytes`: the value and the number of bytes it took.
///
/// At most `limit` bytes are read, and the last of them may hold at most `top`. There is no
/// result where the bytes end early, where `limit` bytes all ask for more, or where the last
/// allowed byte holds too much. A value written with needless zero groups is accepted.
pub open spec fn parse_varint(bytes: Seq<u8>, limit: nat, top: nat) -> Option<(nat, nat)>
    decreases limit,
{
    if limit == 0 || bytes.len() == 0 {
        None
    } else if bytes[0] < 128 {
        if limit == 1 && bytes[0] > top {
            None
        } else {
            Some((bytes[0] as nat, 1nat))
        }
    } else {
        match parse_varint(bytes.skip(1), (limit - 1) as nat, top) {
            Some((high, used)) => Some((((bytes[0] - 128) + 128 * high) as nat, used + 1)),
            None => None,
        }
    }
}

/// One more than the largest value that `limit` bytes can hold when the last holds at most `top`.
pub open spec fn span(limit: nat, top: nat) -> nat
    decreases limit,
{
    if limit <= 1 {
        top + 1
    } else {
        128 * span((limit - 1) as nat, top)
    }
}

/// The signed value `value` folded onto the naturals: 0, -1, 1, -2, 2, ...
pub open spec fn zigzag(value: int) -> nat {
    if value >= 0 {
        (2 * value) as nat
    } else {
        (-2 * value - 1) as nat
    }
}

/// The signed value that folds onto `folded`.
pub open spec fn unzigzag(folded: nat) -> int {
    if folded % 2 == 0 {
        (folded / 2) as int
    } else {
        -(folded / 2) - 1
    }
}

pub proof fn lemma_span_values()
    ensures
        span(U32_LIMIT as nat, U32_TOP as nat) == 0x1_0000_0000,
        span(U64_LIMIT as nat, U64_TOP as nat) == 0x1_0000_0000_0000_0000,
{
    reveal_with_fuel(span, 11);
}

/// A value is written in at least one byte, of which none but the last has its top bit set and
/// the last is zero only for the value zero.
pub proof fn lemma_varint_shape(value: nat)
    ensures
        varint(value).len() >= 1,
        value < 128 ==> varint(value) == seq![value as u8],
        128 <= value < 16384 ==> varint(value) == seq![
            (128 + value % 128) as u8,
            (value / 128) as u8,
        ],
    decreases value,
{
    if value >= 128 {
        lemma_varint_shape(value / 128);
        if value < 16384 {
            assert(varint(value / 128) == seq![(value / 128) as u8]);
            assert(varint(value) =~= seq![(128 + value % 128) as u8, (value / 128) as u8]);
        }
    }
}

/// What was read lies below the span, and took between one byte and `limit` bytes, all of them
/// there.
pub proof fn lemma_parse_varint_bounds(bytes: Seq<u8>, limit: nat, top: nat)
    requires
        top < 128,
    ensures
        parse_varint(bytes, limit, top) matches Some((value, used)) ==> {
            &&& value < span(limit, top)
            &&& 1 <= used <= limit
            &&& used <= bytes.len()
        },
    decreases limit,
{
    if limit == 0 || bytes.len() == 0 {
    } else if bytes[0] < 128 {
        if limit > 1 {
            lemma_span_at_least(limit, top);
        }
    } else {
        lemma_parse_varint_bounds(bytes.skip(1), (limit - 1) as nat, top);
    }
}

proof fn lemma_span_at_least(limit: nat, top: nat)
    requires
        limit >= 2,
    ensures
        span(limit, top) >= 128,
    decreases limit,
{
    if limit > 2 {
        lemma_span_at_least((limit - 1) as nat, top);
    } else {
        assert(span(1, top) == top + 1);
    }
}

/// Reading what was written gives the value back, whatever follows it.
pub proof fn lemma_parse_varint_of_varint(value: nat, rest: Seq<u8>, limit: nat, top: nat)
    requires
        top < 128,
        limit >= 1,
        value < span(limit, top),
    ensures
        parse_varint(varint(value) + rest, limit, top) == Some((value, varint(value).len())),
    decreases value,
{
    let bytes = varint(value) + rest;
    if value < 128 {
        assert(bytes[0] == value as u8);
    } else {
        assert(bytes[0] == (128 + value % 128) as u8);
        assert(limit >= 2);
        assert(bytes.skip(1) =~= varint(value / 128) + rest);
        lemma_parse_varint_of_varint(value / 128, rest, (limit - 1) as nat, top);
    }
}

/// A value below the span of `limit` bytes is written in at most `limit` bytes.
pub proof fn lemma_varint_len(value: nat, limit: nat, top: nat)
    requires
        top < 128,
        limit >= 1,
        value < span(limit, top),
    ensures
        1 <= varint(value).len() <= limit,
    decreases value,
{
    if value >= 128 {
        lemma_varint_len(value / 128, (limit - 1) as nat, top);
    }
}

/// Folding and unfolding a signed value gives it back.
pub proof fn lemma_unzigzag_of_zigzag(value: int)
    ensures
        unzigzag(zigzag(value)) == value,
{
}

/// Appends the bytes of `value` to `out`.
pub fn put_varint(out: &mut Vec<u8>, value: u64)
    ensures
        final(out)@ == old(out)@ + varint(value as nat),
{
    let mut rest: u64 = value;
    while rest >= 128
        invariant
            old(out)@ + varint(value as nat) == out@ + varint(rest as nat),
        decreases rest,
    {
        let low: u8 = (128 + rest % 128) as u8;
        out.push(low);
        proof {
            assert(varint(rest as nat) == seq![low] + varint((rest / 128) as nat));
            assert(old(out)@ + varint(value as nat) =~= out@ + varint((rest / 128) as nat));
        }
        rest = rest / 128;
    }
    out.push(rest as u8);
    proof {
        assert(varint(rest as nat) == seq![rest as u8]);
        assert(out@ =~= old(out)@ + varint(value as nat));
    }
}

/// Reads an unsigned 32-bit value from `bytes` at `at`, and says how many bytes it took.
pub fn take_u32(bytes: &[u8], at: usize) -> (r: Option<(u32, usize)>)
    ensures
        match r {
            Some((value, used)) => at <= bytes@.len() && parse_varint(
                bytes@.skip(at as int),
                U32_LIMIT as nat,
                U32_TOP as nat,
            ) == Some((value as nat, used as nat)) && at + used <= bytes@.len(),
            None => at > bytes@.len() || parse_varint(
                bytes@.skip(at as int),
                U32_LIMIT as nat,
                U32_TOP as nat,
            ) is None,
        },
{
    if at > bytes.len() {
        return None;
    }
    proof {
        lemma_span_values();
        lemma_parse_varint_bounds(bytes@.skip(at as int), U32_LIMIT as nat, U32_TOP as nat);
    }
    match take_varint(bytes, at, U32_LIMIT, U32_TOP) {
        Some((value, used)) => Some((value as u32, used)),
        None => None,
    }
}

/// Reads an unsigned 64-bit value from `bytes` at `at`, and says how many bytes it took.
pub fn take_u64(bytes: &[u8], at: usize) -> (r: Option<(u64, usize)>)
    ensures
        match r {
            Some((value, used)) => at <= bytes@.len() && parse_varint(
                bytes@.skip(at as int),
                U64_LIMIT as nat,
                U64_TOP as nat,
            ) == Some((value as nat, used as nat)) && at + used <= bytes@.len(),
            None => at > bytes@.len() || parse_varint(
                bytes@.skip(at as int),
                U64_LIMIT as nat,
                U64_TOP as nat,
            ) is None,
        },
{
    if at > bytes.len() {
        return None;
    }
    proof {
        lemma_span_values();
        lemma_parse_varint_bounds(bytes@.skip(at as int), U64_LIMIT as nat, U64_TOP as nat);
    }
    take_varint(bytes, at, U64_LIMIT, U64_TOP)
}

/// Reads one value from `bytes` at `at`, as `parse_varint` says.
fn take_varint(bytes: &[u8], at: usize, limit: usize, top: u8) -> (r: Option<(u64, usize)>)
    requires
        at <= bytes@.len(),
        top < 128,
        span(limit as nat, top as nat) <= 0x1_0000_0000_0000_0000,
    ensures
        match r {
            Some((value, used)) => parse_varint(bytes@.skip(at as int), limit as nat, top as nat)
                == Some((value as nat, used as nat)),
            None => parse_varint(bytes@.skip(at as int), limit as nat, top as nat) is None,
        },
    decreases limit,
{
    if limit == 0 || at >= bytes.len() {
        return None;
    }
    let first: u8 = bytes[at];
    if first < 128 {
        if limit == 1 && first > top {
            None
        } else {
            Some((first as u64, 1))
        }
    } else {
        proof {
            assert(bytes@.skip(at as int).skip(1) =~= bytes@.skip(at + 1));
            lemma_parse_varint_bounds(bytes@.skip(at + 1), (limit - 1) as nat, top as nat);
        }
        match take_varint(bytes, at + 1, limit - 1, top) {
            Some((high, used)) => Some(((first - 128) as u64 + 128 * high, used + 1)),
            None => None,
        }
    }
}

/// Folds a signed value onto the unsigned ones.
pub fn fold_i32(value: i32) -> (folded: u32)
    ensures
        folded == zigzag(value as int),
{
    if value >= 0 {
        (value as u32) * 2
    } else {
        ((-(value + 1)) as u32) * 2 + 1
    }
}

/// Unfolds what `fold_i32` folded.
pub fn unfold_i32(folded: u32) -> (value: i32)
    ensures
        value == unzigzag(folded as nat),
{
    if folded % 2 == 0 {
        (folded / 2) as i32
    } else {
        -((folded / 2) as i32) - 1
    }
}

} // verus!
