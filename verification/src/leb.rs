//! LEB128, the variable-length integer encoding used by nearly every number
//! in a WebAssembly module.
//!
//! An unsigned number is written seven bits at a time, least significant group
//! first. Every byte but the last has its top bit set. The encoding need not be
//! the shortest one, but a 32-bit number never takes more than five bytes.

use vstd::prelude::*;

verus! {

/// The largest number of bytes a 32-bit number may take.
pub const MAX_U32_BYTES: u32 = 5;

/// Why a LEB128 number did not decode.
#[derive(Debug, Clone, Copy, PartialEq, Eq, Structural)]
pub enum LebError {
    /// The input ended before the number's last byte.
    UnexpectedEof,
    /// The last byte that the number may take still announces another one.
    TooLong,
    /// The number does not fit in its integer type.
    Overflow,
}

/// The number written at `pos` in at most `limit` bytes, and the position just
/// past it.
pub open spec fn decode(bytes: Seq<u8>, pos: int, limit: nat) -> Result<(nat, int), LebError>
    decreases limit,
{
    if limit == 0 {
        Err(LebError::TooLong)
    } else if !(0 <= pos < bytes.len()) {
        Err(LebError::UnexpectedEof)
    } else if bytes[pos] < 0x80 {
        Ok((bytes[pos] as nat, pos + 1))
    } else {
        match decode(bytes, pos + 1, (limit - 1) as nat) {
            Ok((high, end)) => Ok(((bytes[pos] - 0x80 + 0x80 * high) as nat, end)),
            Err(error) => Err(error),
        }
    }
}

/// The 32-bit number written at `pos`, and the position just past it.
pub open spec fn decode_u32(bytes: Seq<u8>, pos: int) -> Result<(u32, int), LebError> {
    match decode(bytes, pos, MAX_U32_BYTES as nat) {
        Ok((number, end)) => if number <= u32::MAX {
            Ok((number as u32, end))
        } else {
            Err(LebError::Overflow)
        },
        Err(error) => Err(error),
    }
}

/// A number that decodes lies inside the input and takes at least one byte.
pub(crate) proof fn lemma_decode_bounds(bytes: Seq<u8>, pos: int, limit: nat)
    ensures
        decode(bytes, pos, limit) matches Ok((_, end)) ==> 0 <= pos < end <= bytes.len() && end
            <= pos + limit,
    decreases limit,
{
    if limit > 0 && 0 <= pos < bytes.len() && bytes[pos] >= 0x80 {
        lemma_decode_bounds(bytes, pos + 1, (limit - 1) as nat);
    }
}

/// Reads the unsigned 32-bit number at `pos` and moves `pos` just past it.
///
/// On failure `pos` stays at the number's first byte.
pub fn read_u32(bytes: &[u8], pos: &mut usize) -> (res: Result<u32, LebError>)
    ensures
        match (res, decode_u32(bytes@, *old(pos) as int)) {
            (Ok(number), Ok((expected, end))) => number == expected && *final(pos) == end,
            (Err(error), Err(expected)) => error == expected && *final(pos) == *old(pos),
            _ => false,
        },
{
    let start: usize = *pos;
    let mut at: usize = start;
    let mut number: u64 = 0;
    let mut scale: u64 = 1;
    let mut left: u32 = MAX_U32_BYTES;
    while left > 0
        invariant
            left <= MAX_U32_BYTES,
            start == *old(pos),
            *pos == start,
            left == 5 ==> scale == 1,
            left == 4 ==> scale == 0x80,
            left == 3 ==> scale == 0x4000,
            left == 2 ==> scale == 0x20_0000,
            left == 1 ==> scale == 0x1000_0000,
            number < scale,
            match decode(bytes@, at as int, left as nat) {
                Ok((high, end)) => decode(bytes@, start as int, MAX_U32_BYTES as nat) == Ok::<
                    (nat, int),
                    LebError,
                >(((number + scale * high) as nat, end)),
                Err(error) => decode(bytes@, start as int, MAX_U32_BYTES as nat) == Err::<
                    (nat, int),
                    LebError,
                >(error),
            },
        decreases left,
    {
        if at >= bytes.len() {
            return Err(LebError::UnexpectedEof);
        }
        let byte: u8 = bytes[at];
        let ghost before = number;
        if byte < 0x80 {
            assert(byte * scale <= 0x7f * scale) by (nonlinear_arith)
                requires
                    byte <= 0x7f,
            ;
            assert(byte * scale == scale * byte) by (nonlinear_arith);
            number = number + byte as u64 * scale;
            if number > u32::MAX as u64 {
                return Err(LebError::Overflow);
            }
            *pos = at + 1;
            return Ok(number as u32);
        }
        let digit: u64 = (byte - 0x80) as u64;
        assert(digit * scale <= 0x7f * scale) by (nonlinear_arith)
            requires
                digit <= 0x7f,
        ;
        number = number + digit * scale;
        proof {
            if let Ok((high, end)) = decode(bytes@, at + 1, (left - 1) as nat) {
                assert(before + scale * (digit + 0x80 * high) == before + digit * scale + (scale
                    * 0x80) * high) by (nonlinear_arith);
            }
        }
        scale = scale * 0x80;
        at = at + 1;
        left = left - 1;
    }
    Err(LebError::TooLong)
}

} // verus!
