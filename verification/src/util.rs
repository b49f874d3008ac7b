//! Small shared utilities: power-of-two rounding, nucleotide byte lookups,
//! and the parameter validation that both engines perform at construction.

use vstd::prelude::*;

verus! {

use crate::StrobeError;

/// True when `x` is an exact power of two.
pub open spec fn is_pow2(x: nat) -> bool
    decreases x,
{
    if x == 0 {
        false
    } else if x == 1 {
        true
    } else {
        x % 2 == 0 && is_pow2(x / 2)
    }
}

/// Rounds the given value up to the next power of two.
///
/// `roundup64(5)` is 8, `roundup64(8)` is 8, and `roundup64(0)` is 1.
pub fn roundup64(x: u64) -> (r: u64)
    requires
        x <= 0x8000_0000_0000_0000u64,
    ensures
        is_pow2(r as nat),
        r >= x,
        r == 1 || r / 2 < x,
{
    let mut p: u64 = 1;
    while p < x
        invariant
            x <= 0x8000_0000_0000_0000u64,
            1 <= p,
            is_pow2(p as nat),
            p == 1 || p / 2 < x,
        decreases 2 * x - p,
    {
        p = p * 2;
    }
    p
}

/// The complementary base of an ASCII nucleotide byte: `A <-> T`, `C <-> G`
/// (upper and lower case), `U`/`u` to `A`, anything else to `N`.
pub open spec fn spec_complement(b: u8) -> u8 {
    if b == 65 || b == 97 {
        84  // A/a -> T
    } else if b == 67 || b == 99 {
        71  // C/c -> G
    } else if b == 71 || b == 103 {
        67  // G/g -> C
    } else if b == 84 || b == 116 {
        65  // T/t -> A
    } else if b == 85 || b == 117 {
        65  // U/u -> A
    } else {
        78  // N
    }
}

/// Returns the complementary DNA base for the given ASCII byte, or the
/// code of `N` for a byte outside A/C/G/T/U.
pub fn complement(b: u8) -> (r: u8)
    ensures
        r == spec_complement(b),
{
    if b == 65 || b == 97 {
        84
    } else if b == 67 || b == 99 {
        71
    } else if b == 71 || b == 103 {
        67
    } else if b == 84 || b == 116 {
        65
    } else if b == 85 || b == 117 {
        65
    } else {
        78
    }
}

/// The 2-bit code of an ASCII nucleotide byte: A = 0, C = 1, G = 2,
/// T/U = 3 (upper and lower case), anything else 4.
pub open spec fn spec_nt4(b: u8) -> u8 {
    if b == 65 || b == 97 {
        0
    } else if b == 67 || b == 99 {
        1
    } else if b == 71 || b == 103 {
        2
    } else if b == 84 || b == 116 || b == 85 || b == 117 {
        3
    } else {
        4
    }
}

/// Encodes a nucleotide ASCII byte into its 2-bit code (0 to 3), or 4 for
/// any other byte.
pub fn nt4(b: u8) -> (r: u8)
    ensures
        r == spec_nt4(b),
{
    if b == 65 || b == 97 {
        0
    } else if b == 67 || b == 99 {
        1
    } else if b == 71 || b == 103 {
        2
    } else if b == 84 || b == 116 || b == 85 || b == 117 {
        3
    } else {
        4
    }
}

/// The first parameter-validation error for a strobemer construction, or
/// `None` when the sequence, order, strobe length and window offsets are all
/// admissible. The checks run in a fixed order, so exactly one error is ever
/// reported for a given input.
pub open spec fn param_error(seq_len: int, n: int, k: int, w_min: int, w_max: int) -> Option<
    StrobeError,
> {
    if seq_len == 0 {
        Some(StrobeError::InvalidSequence)
    } else if n != 2 && n != 3 {
        Some(StrobeError::OrderNotSupported)
    } else if k < 1 || k > 64 {
        Some(StrobeError::StrobeLengthTooSmall)
    } else if w_min < 1 || w_max < w_min {
        Some(StrobeError::InvalidWindowOffsets)
    } else if seq_len < (n - 1) * (w_max + 1) {
        Some(StrobeError::SequenceTooShort)
    } else {
        None
    }
}

/// Checks the shared constructor parameters, returning the first violation
/// in the same order as `param_error`.
pub(crate) fn validate_params(seq_len: usize, n: u8, k: usize, w_min: usize, w_max: usize) -> (r:
    Result<(), StrobeError>)
    ensures
        r == (match param_error(seq_len as int, n as int, k as int, w_min as int, w_max as int) {
            Some(e) => Err::<(), StrobeError>(e),
            None => Ok::<(), StrobeError>(()),
        }),
{
    if seq_len == 0 {
        return Err(StrobeError::InvalidSequence);
    }
    if n != 2 && n != 3 {
        return Err(StrobeError::OrderNotSupported);
    }
    if k < 1 || k > 64 {
        return Err(StrobeError::StrobeLengthTooSmall);
    }
    if w_min < 1 || w_max < w_min {
        return Err(StrobeError::InvalidWindowOffsets);
    }
    let factor: usize = (n as usize) - 1;
    match w_max.checked_add(1) {
        None => Err(StrobeError::SequenceTooShort),
        Some(w_plus) => match w_plus.checked_mul(factor) {
            None => Err(StrobeError::SequenceTooShort),
            Some(need) => {
                if seq_len < need {
                    Err(StrobeError::SequenceTooShort)
                } else {
                    Ok(())
                }
            },
        },
    }
}

} // verus!
