//! Strobemer fingerprints for nucleotide sequences.
//!
//! A strobemer is a fuzzy, gapped combination of two or three fixed-length
//! substrings ("strobes") of a sequence, combined into one 64-bit value.
//! The crate offers two selection schemes: [`MinStrobes`], which picks each
//! follow-up strobe as the true minimum hash inside a bounded window, and
//! [`RandStrobes`], which picks it by minimising a masked combination of the
//! anchor hash and each candidate hash.

use vstd::prelude::*;

pub mod hashes;
pub mod minstrobes;
pub mod randstrobes;
pub mod util;

pub use hashes::KmerHasher;
pub use hashes::NtHash64;
pub use hashes::compute_min_hashes;
pub use minstrobes::MinStrobes;
pub use randstrobes::RandStrobes;
pub use util::complement;
pub use util::nt4;
pub use util::roundup64;

verus! {

/// Default mask for the masked-combination selection rule: `2^20 - 1`.
pub const DEFAULT_PRIME_NUMBER: u64 = 0xFFFFF;

/// Error variants for strobemer generation and related operations.
#[derive(Debug, Clone, Copy, PartialEq, Eq, Structural)]
pub enum StrobeError {
    /// The requested strobemer order is not supported: only 2 and 3 are allowed.
    OrderNotSupported,
    /// The requested strobemer order is less than 2.
    InvalidOrder,
    /// The input sequence is empty.
    InvalidSequence,
    /// The sequence is too short to generate any strobemer with the given parameters.
    SequenceTooShort,
    /// The strobe (k-mer) length is less than 1 or greater than 64.
    StrobeLengthTooSmall,
    /// The window offsets are invalid: both must be positive and `w_min <= w_max`.
    InvalidWindowOffsets,
    /// The hasher returned a number of hash values that does not match the
    /// number of substring positions.
    IncompleteHashValues,
    /// A prime mask seed below 256 was requested.
    PrimeNumberTooSmall,
    /// The underlying nucleotide hasher failed.
    NtHashError,
}

/// The abstract state of a strobemer engine: the validated parameters, the
/// per-position substring hashes, and the iteration cursors. Both engines
/// describe their behaviour over this one model.
pub struct EngineModel {
    /// Number of strobes per fingerprint: 2 or 3.
    pub order: int,
    /// Inclusive lower offset bound for the next strobe's window.
    pub w_min: int,
    /// Inclusive upper offset bound for the next strobe's window.
    pub w_max: int,
    /// One hash value per substring start position.
    pub hashes: Seq<u64>,
    /// The next anchor position to be examined.
    pub idx: int,
    /// The last anchor position at which a complete strobemer can start.
    pub end_idx: int,
    /// The last valid index into `hashes`.
    pub end_hash: int,
    /// Start position of the second strobe of the last emitted fingerprint.
    pub idx2: int,
    /// Start position of the third strobe of the last emitted fingerprint.
    pub idx3: int,
    /// Mask used by the masked-combination selection rule.
    pub prime: u64,
    /// Whether trailing windows are truncated at the end of the sequence.
    pub shrink: bool,
}

} // verus!
