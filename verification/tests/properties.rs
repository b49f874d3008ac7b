//! Structural properties: determinism, boundary behaviour, error variants,
//! mask reconfiguration, custom hashers, and the byte utilities.

use strobemers_rs::KmerHasher;
use strobemers_rs::MinStrobes;
use strobemers_rs::RandStrobes;
use strobemers_rs::StrobeError;
use strobemers_rs::complement;
use strobemers_rs::nt4;
use strobemers_rs::roundup64;

const SEQ: &[u8] = b"ACGATCTGGTACCTAG";

fn drain_min(ms: &mut MinStrobes) -> Vec<u64> {
    let mut v = Vec::new();
    while let Some(h) = ms.next() {
        v.push(h);
    }
    v
}

fn drain_rand(rs: &mut RandStrobes) -> Vec<u64> {
    let mut v = Vec::new();
    while let Some(h) = rs.next() {
        v.push(h);
    }
    v
}

// ---- determinism ----

#[test]
fn deterministic_minstrobes_output() {
    let mut a = MinStrobes::new(SEQ, 2, 3, 3, 5).unwrap();
    let mut b = MinStrobes::new(SEQ, 2, 3, 3, 5).unwrap();
    assert_eq!(drain_min(&mut a), drain_min(&mut b));
}

#[test]
fn deterministic_randstrobes_output() {
    let mut a = RandStrobes::new(SEQ, 3, 3, 3, 5).unwrap();
    let mut b = RandStrobes::new(SEQ, 3, 3, 3, 5).unwrap();
    assert_eq!(drain_rand(&mut a), drain_rand(&mut b));
}

#[test]
fn deterministic_after_reconfiguration() {
    let mut a = RandStrobes::new(SEQ, 2, 3, 3, 5).unwrap();
    let mut b = RandStrobes::new(SEQ, 2, 3, 3, 5).unwrap();
    a.set_prime(300).unwrap();
    b.set_prime(300).unwrap();
    a.set_window_shrink(false);
    b.set_window_shrink(false);
    assert_eq!(drain_rand(&mut a), drain_rand(&mut b));
}

// ---- shrink policy can only remove fingerprints ----

#[test]
fn shrink_disabled_never_adds_fingerprints() {
    let mut with_shrink = MinStrobes::new(SEQ, 2, 3, 3, 5).unwrap();
    let mut without = MinStrobes::new(SEQ, 2, 3, 3, 5).unwrap();
    without.set_window_shrink(false);
    assert!(drain_min(&mut without).len() <= drain_min(&mut with_shrink).len());

    let mut rs_with = RandStrobes::new(SEQ, 3, 3, 3, 5).unwrap();
    let mut rs_without = RandStrobes::new(SEQ, 3, 3, 3, 5).unwrap();
    rs_without.set_window_shrink(false);
    assert!(drain_rand(&mut rs_without).len() <= drain_rand(&mut rs_with).len());
}

// ---- boundary behaviour ----

#[test]
fn boundary_minimal_length_order2() {
    // order 2, k = 3, w_min = 3, w_max = 5: the shortest admissible
    // sequence has 6 bytes and yields exactly one fingerprint.
    let mut ms = MinStrobes::new(b"ACGATC", 2, 3, 3, 5).unwrap();
    assert!(ms.next().is_some());
    assert!(ms.next().is_none());

    let mut rs = RandStrobes::new(b"ACGATC", 2, 3, 3, 5).unwrap();
    assert!(rs.next().is_some());
    assert!(rs.next().is_none());

    // One byte shorter: construction is refused.
    assert!(matches!(
        MinStrobes::new(b"ACGAT", 2, 3, 3, 5),
        Err(StrobeError::SequenceTooShort)
    ));
    assert!(matches!(
        RandStrobes::new(b"ACGAT", 2, 3, 3, 5),
        Err(StrobeError::SequenceTooShort)
    ));
}

#[test]
fn boundary_minimal_length_order3() {
    // order 3, k = 3, w_min = 3, w_max = 4: the shortest admissible
    // sequence has 10 bytes and yields exactly one fingerprint.
    let mut ms = MinStrobes::new(b"ACGATCTGGT", 3, 3, 3, 4).unwrap();
    assert!(ms.next().is_some());
    assert!(ms.next().is_none());

    let mut rs = RandStrobes::new(b"ACGATCTGGT", 3, 3, 3, 4).unwrap();
    assert!(rs.next().is_some());
    assert!(rs.next().is_none());

    assert!(matches!(
        MinStrobes::new(b"ACGATCTGG", 3, 3, 3, 4),
        Err(StrobeError::SequenceTooShort)
    ));
    assert!(matches!(
        RandStrobes::new(b"ACGATCTGG", 3, 3, 3, 4),
        Err(StrobeError::SequenceTooShort)
    ));
}

// ---- construction error variants ----

#[test]
fn construction_error_variants() {
    assert!(matches!(
        MinStrobes::new(b"", 2, 3, 1, 4),
        Err(StrobeError::InvalidSequence)
    ));
    assert!(matches!(
        MinStrobes::new(SEQ, 4, 3, 1, 4),
        Err(StrobeError::OrderNotSupported)
    ));
    assert!(matches!(
        MinStrobes::new(SEQ, 2, 0, 1, 4),
        Err(StrobeError::StrobeLengthTooSmall)
    ));
    assert!(matches!(
        MinStrobes::new(SEQ, 2, 65, 1, 4),
        Err(StrobeError::StrobeLengthTooSmall)
    ));
    assert!(matches!(
        MinStrobes::new(SEQ, 2, 3, 0, 4),
        Err(StrobeError::InvalidWindowOffsets)
    ));
    assert!(matches!(
        MinStrobes::new(SEQ, 2, 3, 5, 4),
        Err(StrobeError::InvalidWindowOffsets)
    ));
    assert!(matches!(
        RandStrobes::new(b"", 3, 3, 1, 4),
        Err(StrobeError::InvalidSequence)
    ));
    assert!(matches!(
        RandStrobes::new(SEQ, 1, 3, 1, 4),
        Err(StrobeError::OrderNotSupported)
    ));
}

#[test]
fn prime_below_minimum_is_rejected() {
    let mut ms = MinStrobes::new(SEQ, 2, 3, 3, 5).unwrap();
    assert!(matches!(
        ms.set_prime(255),
        Err(StrobeError::PrimeNumberTooSmall)
    ));
    let mut rs = RandStrobes::new(SEQ, 2, 3, 3, 5).unwrap();
    assert!(matches!(
        rs.set_prime(0),
        Err(StrobeError::PrimeNumberTooSmall)
    ));
    assert!(rs.set_prime(256).is_ok());
}

#[test]
fn unrecognised_bases_are_reported() {
    // ntHash skips every window containing an unrecognised byte, so the
    // per-position hash count comes up short and construction fails.
    assert!(matches!(
        MinStrobes::new(b"ACGTNACGTACGT", 2, 3, 1, 4),
        Err(StrobeError::IncompleteHashValues)
    ));
    assert!(matches!(
        RandStrobes::new(b"ACGTNACGTACGT", 2, 3, 1, 4),
        Err(StrobeError::IncompleteHashValues)
    ));
}

// ---- custom hashers ----

struct ByteSum;

impl KmerHasher for ByteSum {
    fn hash_all(&self, seq: &[u8], k: usize) -> Result<Vec<u64>, StrobeError> {
        if k < 1 || k > 64 {
            return Err(StrobeError::StrobeLengthTooSmall);
        }
        if seq.len() < k {
            return Err(StrobeError::SequenceTooShort);
        }
        Ok(seq.windows(k).map(|w| w.iter().map(|b| *b as u64).sum()).collect())
    }
}

struct WrongCount;

impl KmerHasher for WrongCount {
    fn hash_all(&self, _seq: &[u8], _k: usize) -> Result<Vec<u64>, StrobeError> {
        Ok(vec![1, 2, 3])
    }
}

struct AlwaysFails;

impl KmerHasher for AlwaysFails {
    fn hash_all(&self, _seq: &[u8], _k: usize) -> Result<Vec<u64>, StrobeError> {
        Err(StrobeError::NtHashError)
    }
}

#[test]
fn custom_hasher_structural_invariants() {
    // Counts match the default hasher's counts even though values differ.
    let mut default_ms = MinStrobes::new(SEQ, 2, 3, 3, 5).unwrap();
    let mut custom_ms = MinStrobes::with_hasher(SEQ, 2, 3, 3, 5, &ByteSum).unwrap();
    assert_eq!(
        drain_min(&mut default_ms).len(),
        drain_min(&mut custom_ms).len()
    );

    let mut default_rs = RandStrobes::new(SEQ, 3, 3, 3, 5).unwrap();
    let mut custom_rs = RandStrobes::with_hasher(SEQ, 3, 3, 3, 5, &ByteSum).unwrap();
    assert_eq!(
        drain_rand(&mut default_rs).len(),
        drain_rand(&mut custom_rs).len()
    );

    // Determinism holds for the custom hasher too.
    let mut a = MinStrobes::with_hasher(SEQ, 2, 3, 3, 5, &ByteSum).unwrap();
    let mut b = MinStrobes::with_hasher(SEQ, 2, 3, 3, 5, &ByteSum).unwrap();
    assert_eq!(drain_min(&mut a), drain_min(&mut b));

    // Boundary behaviour carries over.
    assert!(matches!(
        MinStrobes::with_hasher(b"ACGAT", 2, 3, 3, 5, &ByteSum),
        Err(StrobeError::SequenceTooShort)
    ));
}

#[test]
fn hasher_failure_is_propagated() {
    assert!(matches!(
        MinStrobes::with_hasher(SEQ, 2, 3, 3, 5, &AlwaysFails),
        Err(StrobeError::NtHashError)
    ));
    assert!(matches!(
        RandStrobes::with_hasher(SEQ, 3, 3, 3, 5, &AlwaysFails),
        Err(StrobeError::NtHashError)
    ));
}

#[test]
fn short_hash_output_is_rejected() {
    assert!(matches!(
        MinStrobes::with_hasher(SEQ, 2, 3, 3, 5, &WrongCount),
        Err(StrobeError::IncompleteHashValues)
    ));
    assert!(matches!(
        RandStrobes::with_hasher(SEQ, 2, 3, 3, 5, &WrongCount),
        Err(StrobeError::IncompleteHashValues)
    ));
}

// ---- introspection ----

#[test]
fn indexes_track_last_fingerprint() {
    let mut ms = MinStrobes::new(SEQ, 2, 3, 3, 5).unwrap();
    assert_eq!(ms.index(), None);
    assert_eq!(ms.indexes(), [0, 0, 0]);
    assert!(ms.next().is_some());
    assert_eq!(ms.index(), Some(0));
    let [i1, i2, i3] = ms.indexes();
    assert_eq!(i1, 0);
    assert!(i2 >= 3 && i2 <= 5, "second strobe must sit in the window");
    assert_eq!(i3, 0);
}

// ---- byte utilities and mask rounding ----

#[test]
fn roundup64_values() {
    assert_eq!(roundup64(0), 1);
    assert_eq!(roundup64(1), 1);
    assert_eq!(roundup64(5), 8);
    assert_eq!(roundup64(8), 8);
    // Requesting a prime of 300 rounds the mask up to 512 - 1.
    assert_eq!(roundup64(300), 512);
    assert_eq!(roundup64(1 << 20), 1 << 20);
}

#[test]
fn complement_table() {
    assert_eq!(complement(b'A'), b'T');
    assert_eq!(complement(b'C'), b'G');
    assert_eq!(complement(b'G'), b'C');
    assert_eq!(complement(b'T'), b'A');
    assert_eq!(complement(b'a'), b'T');
    assert_eq!(complement(b'u'), b'A');
    assert_eq!(complement(b'U'), b'A');
    assert_eq!(complement(b'X'), b'N');
    assert_eq!(complement(b'\n'), b'N');
}

#[test]
fn nt4_table() {
    assert_eq!(nt4(b'A'), 0);
    assert_eq!(nt4(b'a'), 0);
    assert_eq!(nt4(b'C'), 1);
    assert_eq!(nt4(b'c'), 1);
    assert_eq!(nt4(b'G'), 2);
    assert_eq!(nt4(b'g'), 2);
    assert_eq!(nt4(b'T'), 3);
    assert_eq!(nt4(b'U'), 3);
    assert_eq!(nt4(b'u'), 3);
    assert_eq!(nt4(b'Z'), 4);
    assert_eq!(nt4(b' '), 4);
}
