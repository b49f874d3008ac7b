//! Masked-pseudorandom strobemer engine.
//!
//! A RandStrobe selects each follow-up strobe by minimising the masked
//! combination `(base_hash + candidate_hash) & prime` over a bounded
//! trailing window, where the addition wraps modulo 2^64. Because the score
//! depends on the anchor's own hash, the minimum cannot be precomputed once
//! per window: it is recomputed per anchor over the live window.

use vstd::prelude::*;

verus! {

use crate::DEFAULT_PRIME_NUMBER;
use crate::EngineModel;
use crate::StrobeError;
use crate::hashes::KmerHasher;
use crate::hashes::NtHash64;
use crate::hashes::lemma_masked_min_pos;
use crate::hashes::mask_score;
use crate::hashes::masked_min_pos;
use crate::hashes::nthash_hashes;
use crate::util::is_pow2;
use crate::util::param_error;
use crate::util::roundup64;
use crate::util::validate_params;

/// Whether the order-2 masked-selection engine emits a fingerprint at
/// anchor `i`: the anchor must be admissible and a non-empty (possibly
/// clipped) candidate window must exist under the shrink policy.
pub open spec fn rand2_emits(m: EngineModel, i: int) -> bool {
    i <= m.end_idx && (if m.shrink {
        i + m.w_min <= m.end_hash
    } else {
        i + m.w_max <= m.end_hash
    })
}

/// The right edge of the (possibly clipped) order-2 window at anchor `i`.
pub open spec fn rand2_window_end(m: EngineModel, i: int) -> int {
    if i + m.w_max <= m.end_hash {
        i + m.w_max
    } else {
        m.end_hash
    }
}

/// The second-strobe position the order-2 engine selects at anchor `i`:
/// the earliest position minimising the masked combination with the anchor
/// hash.
pub open spec fn rand2_choice(m: EngineModel, i: int) -> int {
    masked_min_pos(m.hashes, m.hashes[i], m.prime, i + m.w_min, rand2_window_end(m, i))
}

/// The fingerprint the order-2 engine emits at anchor `i`.
pub open spec fn rand2_value(m: EngineModel, i: int) -> u64 {
    (m.hashes[i] / 2 + m.hashes[rand2_choice(m, i)] / 3) as u64
}

/// Whether the order-3 masked-selection engine emits a fingerprint at
/// anchor `i`.
pub open spec fn rand3_emits(m: EngineModel, i: int) -> bool {
    i <= m.end_idx && i + m.w_max + m.w_min <= m.end_hash && (m.shrink || i + 2 * m.w_max
        <= m.end_hash)
}

/// The second-strobe position the order-3 engine selects at anchor `i`:
/// the first window is scored against the anchor hash and never clipped.
pub open spec fn rand3_choice2(m: EngineModel, i: int) -> int {
    masked_min_pos(m.hashes, m.hashes[i], m.prime, i + m.w_min, i + m.w_max)
}

/// The intermediate combined hash after the second strobe (order 3).
pub open spec fn rand3_h2(m: EngineModel, i: int) -> u64 {
    (m.hashes[i] / 3 + m.hashes[rand3_choice2(m, i)] / 4) as u64
}

/// The right edge of the (possibly clipped) second window at anchor `i`.
pub open spec fn rand3_window2_end(m: EngineModel, i: int) -> int {
    if i + 2 * m.w_max <= m.end_hash {
        i + 2 * m.w_max
    } else {
        m.end_hash
    }
}

/// The third-strobe position the order-3 engine selects at anchor `i`:
/// the second window is scored against the intermediate hash.
pub open spec fn rand3_choice3(m: EngineModel, i: int) -> int {
    masked_min_pos(
        m.hashes,
        rand3_h2(m, i),
        m.prime,
        i + m.w_max + m.w_min,
        rand3_window2_end(m, i),
    )
}

/// The fingerprint the order-3 engine emits at anchor `i`.
pub open spec fn rand3_value(m: EngineModel, i: int) -> u64 {
    (rand3_h2(m, i) + m.hashes[rand3_choice3(m, i)] / 5) as u64
}

/// Emission condition of the masked-selection engine for either order.
pub open spec fn rand_emits(m: EngineModel, i: int) -> bool {
    if m.order == 2 {
        rand2_emits(m, i)
    } else {
        rand3_emits(m, i)
    }
}

/// The fingerprint emitted at anchor `i`, for either order.
pub open spec fn rand_value(m: EngineModel, i: int) -> u64 {
    if m.order == 2 {
        rand2_value(m, i)
    } else {
        rand3_value(m, i)
    }
}

/// The second-strobe position recorded at anchor `i`, for either order.
pub open spec fn rand_choice2(m: EngineModel, i: int) -> int {
    if m.order == 2 {
        rand2_choice(m, i)
    } else {
        rand3_choice2(m, i)
    }
}

/// The third-strobe position recorded at anchor `i`: unchanged for order 2.
pub open spec fn rand_choice3(m: EngineModel, i: int) -> int {
    if m.order == 2 {
        m.idx3
    } else {
        rand3_choice3(m, i)
    }
}

/// The number of fingerprints the engine still emits from anchor `i` on.
/// Because emitting anchors form a prefix, this is the distance to the
/// first anchor that fails to emit.
pub open spec fn rand_count_from(m: EngineModel, i: int) -> nat
    decreases m.end_idx + 1 - i,
{
    if i > m.end_idx || !rand_emits(m, i) {
        0
    } else {
        1 + rand_count_from(m, i + 1)
    }
}

/// The remaining count ignores the iteration cursors: engines that agree on
/// parameters, bounds and policy emit the same number of fingerprints.
pub proof fn lemma_rand_count_congruent(m: EngineModel, m2: EngineModel, i: int)
    requires
        m2 == (EngineModel { idx: m2.idx, idx2: m2.idx2, idx3: m2.idx3, ..m }),
    ensures
        rand_count_from(m, i) == rand_count_from(m2, i),
    decreases m.end_idx + 1 - i,
{
    if i <= m.end_idx && rand_emits(m, i) {
        lemma_rand_count_congruent(m, m2, i + 1);
    }
}

/// Each emitted fingerprint lowers the remaining count by exactly one:
/// together with the emission condition of `next`, the number of
/// fingerprints an engine emits equals the number of anchors for which a
/// complete strobe set can be formed.
pub proof fn lemma_rand_count_step(m: EngineModel, m2: EngineModel, i: int)
    requires
        rand_emits(m, i),
        i <= m.end_idx,
        m2 == (EngineModel { idx: m2.idx, idx2: m2.idx2, idx3: m2.idx3, ..m }),
    ensures
        rand_count_from(m, i) == 1 + rand_count_from(m2, i + 1),
{
    lemma_rand_count_congruent(m, m2, i + 1);
}

/// Turning window shrinking off can only reduce the number of emitted
/// fingerprints, never raise it.
pub proof fn lemma_rand_shrink_count(m: EngineModel, i: int)
    requires
        m.w_min <= m.w_max,
        !m.shrink,
    ensures
        rand_count_from(m, i) <= rand_count_from(EngineModel { shrink: true, ..m }, i),
    decreases m.end_idx + 1 - i,
{
    if i <= m.end_idx && rand_emits(m, i) {
        lemma_rand_shrink_monotone(m, i);
        lemma_rand_shrink_count(m, i + 1);
    }
}

/// Anchors that emit form a prefix: if a later anchor still emits, so does
/// every earlier one.
pub proof fn lemma_rand_emission_prefix(m: EngineModel, i: int, j: int)
    requires
        0 <= i <= j,
        rand_emits(m, j),
    ensures
        rand_emits(m, i),
{
}

/// Disabling window shrinking never adds fingerprints: an anchor that emits
/// without shrinking also emits with shrinking enabled.
pub proof fn lemma_rand_shrink_monotone(m: EngineModel, i: int)
    requires
        m.w_min <= m.w_max,
        !m.shrink,
        rand_emits(m, i),
    ensures
        rand_emits(EngineModel { shrink: true, ..m }, i),
{
}

/// Iterator for generating RandStrobes of order 2 or 3 from a nucleotide
/// sequence: fingerprints are pulled one at a time with [`RandStrobes::next`].
pub struct RandStrobes {
    // Parameters controlling strobemer generation
    n: u8,
    _k: usize,
    w_min: usize,
    w_max: usize,
    // Precomputed data
    hashes: Vec<u64>,
    // Iteration state
    idx: usize,
    end_idx: usize,
    end_hash: usize,
    // Strobe indices for the current item
    idx2: usize,
    idx3: usize,
    // Mask and boundary policy
    prime: u64,
    shrink: bool,
    // Working hash registers
    h1: u64,
    h2: u64,
    h3: u64,
}

impl View for RandStrobes {
    type V = EngineModel;

    closed spec fn view(&self) -> EngineModel {
        EngineModel {
            order: self.n as int,
            w_min: self.w_min as int,
            w_max: self.w_max as int,
            hashes: self.hashes@,
            idx: self.idx as int,
            end_idx: self.end_idx as int,
            end_hash: self.end_hash as int,
            idx2: self.idx2 as int,
            idx3: self.idx3 as int,
            prime: self.prime,
            shrink: self.shrink,
        }
    }
}

impl RandStrobes {
    /// Well-formedness established at construction: valid parameters,
    /// matching lengths, and window arithmetic that stays inside `usize`.
    #[verifier::type_invariant]
    spec fn wf(self) -> bool {
        &&& (self.n == 2 || self.n == 3)
        &&& 1 <= self.w_min <= self.w_max
        &&& self.hashes@.len() == self.end_hash + 1
        &&& self.end_idx + (self.n - 1) <= self.end_hash
        &&& self.end_hash + 2 * self.w_max + 2 <= usize::MAX
    }

    /// Constructs a masked-selection engine over `seq` with the default
    /// ntHash hasher. Parameters are validated in a fixed order; on success
    /// the engine starts at anchor 0 with the default mask and shrinking
    /// enabled. The length bound keeps every window offset computation
    /// inside `usize`; any sequence that fits in memory satisfies it.
    pub fn new(seq: &[u8], n: u8, k: usize, w_min: usize, w_max: usize) -> (r: Result<
        RandStrobes,
        StrobeError,
    >)
        requires
            seq@.len() <= usize::MAX / 4,
        ensures
            match param_error(seq@.len() as int, n as int, k as int, w_min as int, w_max as int) {
                Some(e) => r == Err::<RandStrobes, StrobeError>(e),
                None => {
                    let hs = nthash_hashes(seq@, k as int);
                    &&& seq@.len() < k ==> r == Err::<RandStrobes, StrobeError>(
                        StrobeError::SequenceTooShort,
                    )
                    &&& seq@.len() >= k && hs.len() != seq@.len() - k + 1 ==> r == Err::<
                        RandStrobes,
                        StrobeError,
                    >(StrobeError::IncompleteHashValues)
                    &&& seq@.len() >= k && hs.len() == seq@.len() - k + 1 && seq@.len() < n * k
                        ==> r == Err::<RandStrobes, StrobeError>(StrobeError::SequenceTooShort)
                    &&& seq@.len() >= k && hs.len() == seq@.len() - k + 1 && seq@.len() >= n * k
                        ==> (r matches Ok(e) && e@ == EngineModel {
                        order: n as int,
                        w_min: w_min as int,
                        w_max: w_max as int,
                        hashes: hs,
                        idx: 0,
                        end_idx: seq@.len() - n * k,
                        end_hash: seq@.len() - k,
                        idx2: 0,
                        idx3: 0,
                        prime: DEFAULT_PRIME_NUMBER,
                        shrink: true,
                    })
                },
            },
    {
        let hasher = NtHash64 {  };
        Self::with_hasher(seq, n, k, w_min, w_max, &hasher)
    }

    /// Constructs a masked-selection engine with a caller-supplied hasher.
    /// After validation the hasher is consulted once; its output must hold
    /// exactly one value per substring position, otherwise construction
    /// fails with `IncompleteHashValues`. The length bound keeps every
    /// window offset computation inside `usize`; any sequence that fits in
    /// memory satisfies it.
    pub fn with_hasher<H: KmerHasher>(
        seq: &[u8],
        n: u8,
        k: usize,
        w_min: usize,
        w_max: usize,
        hasher: &H,
    ) -> (r: Result<RandStrobes, StrobeError>)
        requires
            seq@.len() <= usize::MAX / 4,
        ensures
            match param_error(seq@.len() as int, n as int, k as int, w_min as int, w_max as int) {
                Some(e) => r == Err::<RandStrobes, StrobeError>(e),
                None => {
                    let hs = hasher.spec_hashes(seq@, k as int);
                    &&& !hasher.spec_ok(seq@, k as int) ==> r == Err::<RandStrobes, StrobeError>(
                        hasher.spec_err(seq@, k as int),
                    )
                    &&& hasher.spec_ok(seq@, k as int) && hs.len() != seq@.len() - k + 1 ==> r
                        == Err::<RandStrobes, StrobeError>(StrobeError::IncompleteHashValues)
                    &&& hasher.spec_ok(seq@, k as int) && hs.len() == seq@.len() - k + 1
                        && seq@.len() < n * k ==> r == Err::<RandStrobes, StrobeError>(
                        StrobeError::SequenceTooShort,
                    )
                    &&& hasher.spec_ok(seq@, k as int) && hs.len() == seq@.len() - k + 1
                        && seq@.len() >= n * k ==> (r matches Ok(e) && e@ == EngineModel {
                        order: n as int,
                        w_min: w_min as int,
                        w_max: w_max as int,
                        hashes: hs,
                        idx: 0,
                        end_idx: seq@.len() - n * k,
                        end_hash: seq@.len() - k,
                        idx2: 0,
                        idx3: 0,
                        prime: DEFAULT_PRIME_NUMBER,
                        shrink: true,
                    })
                },
            },
    {
        match validate_params(seq.len(), n, k, w_min, w_max) {
            Err(e) => {
                return Err(e);
            },
            Ok(()) => {},
        }
        let hashes = match hasher.hash_all(seq, k) {
            Ok(v) => v,
            Err(e) => {
                return Err(e);
            },
        };
        // Defensive internal-consistency check: one hash per position.
        let expected = match (seq.len() + 1).checked_sub(k) {
            None => {
                return Err(StrobeError::IncompleteHashValues);
            },
            Some(x) => x,
        };
        if hashes.len() != expected {
            return Err(StrobeError::IncompleteHashValues);
        }
        // The sequence must also fit `order` non-overlapping strobes.
        let nk = (n as usize) * k;
        if seq.len() < nk {
            return Err(StrobeError::SequenceTooShort);
        }
        let seq_len = seq.len();
        let end_hash = seq_len - k;
        let end_idx = seq_len - nk;
        proof {
            let gl = seq_len as int;
            let gn = n as int;
            let gw = w_max as int;
            let gk = k as int;
            // The validated length bounds the window offsets, which keeps
            // all later window arithmetic inside usize.
            assert(gl >= (gn - 1) * (gw + 1));
            assert(gl >= gw + 1) by (nonlinear_arith)
                requires
                    gl >= (gn - 1) * (gw + 1),
                    gn == 2 || gn == 3,
                    gw >= 1,
            ;
            assert(nk == gn * gk && (gn - 1) * gk >= gn - 1) by (nonlinear_arith)
                requires
                    nk == gn * gk,
                    gn == 2 || gn == 3,
                    1 <= gk,
            ;
            assert(end_hash + 2 * w_max + 2 <= 3 * gl);
            assert(end_idx + (gn - 1) <= end_hash);
        }
        let e = RandStrobes {
            n,
            _k: k,
            w_min,
            w_max,
            hashes,
            idx: 0,
            end_idx,
            end_hash,
            idx2: 0,
            idx3: 0,
            prime: DEFAULT_PRIME_NUMBER,
            shrink: true,
            h1: 0,
            h2: 0,
            h3: 0,
        };
        Ok(e)
    }

    /// Replaces the selection mask. The request must be at least 256 and is
    /// rounded up to the next power of two minus one.
    pub fn set_prime(&mut self, q: u64) -> (r: Result<(), StrobeError>)
        requires
            q <= 0x8000_0000_0000_0000u64,
        ensures
            q < 256 ==> r == Err::<(), StrobeError>(StrobeError::PrimeNumberTooSmall)
                && final(self)@ == old(self)@,
            q >= 256 ==> r is Ok && final(self)@ == (EngineModel {
                prime: final(self)@.prime,
                ..old(self)@
            }) && is_pow2((final(self)@.prime + 1) as nat) && final(self)@.prime + 1 >= q
                && (final(self)@.prime + 1) / 2 < q,
    {
        if q < 256 {
            return Err(StrobeError::PrimeNumberTooSmall);
        }
        proof {
            use_type_invariant(&*self);
        }
        self.prime = roundup64(q) - 1;
        Ok(())
    }

    /// Enables or disables window shrinking at the sequence end.
    pub fn set_window_shrink(&mut self, s: bool)
        ensures
            final(self)@ == (EngineModel { shrink: s, ..old(self)@ }),
    {
        proof {
            use_type_invariant(&*self);
        }
        self.shrink = s;
    }

    /// The anchor position of the last emitted fingerprint, or `None`
    /// before the first one.
    pub fn index(&self) -> (r: Option<usize>)
        ensures
            r == (if self@.idx == 0 {
                Option::<usize>::None
            } else {
                Some((self@.idx - 1) as usize)
            }),
    {
        if self.idx == 0 {
            None
        } else {
            Some(self.idx - 1)
        }
    }

    /// The strobe start positions of the last emitted fingerprint, as
    /// `[anchor, second, third]`; all zero before the first fingerprint,
    /// and the third entry is meaningless for order 2.
    pub fn indexes(&self) -> (r: [usize; 3])
        ensures
            r@ == seq![
                (if self@.idx == 0 {
                    0usize
                } else {
                    (self@.idx - 1) as usize
                }),
                self@.idx2 as usize,
                self@.idx3 as usize,
            ],
    {
        let first: usize = if self.idx == 0 {
            0
        } else {
            self.idx - 1
        };
        [first, self.idx2, self.idx3]
    }

    /// Finds the position in `[lo, hi]` minimising the masked combination
    /// `(base_hash + hashes[pos]) & prime`, earliest position on ties, and
    /// returns it with its score.
    fn choose_min(&self, base_hash: u64, lo: usize, hi: usize) -> (r: (usize, u64))
        requires
            lo <= hi,
            hi < self@.hashes.len(),
        ensures
            r.0 == masked_min_pos(self@.hashes, base_hash, self@.prime, lo as int, hi as int),
            lo <= r.0 <= hi,
            r.1 == mask_score(base_hash, self@.hashes[r.0 as int], self@.prime),
    {
        proof {
            use_type_invariant(&*self);
        }
        let ghost m = self@;
        let mut best_pos: usize = lo;
        let mut best_val: u64 = u64::MAX;
        let mut pos: usize = lo;
        while pos <= hi
            invariant
                lo <= pos,
                pos <= hi + 1,
                lo <= hi,
                hi < m.hashes.len(),
                hi < usize::MAX,
                self@ == m,
                self.hashes@ == m.hashes,
                self.prime == m.prime,
                pos == lo ==> best_val == u64::MAX && best_pos == lo,
                pos > lo ==> best_pos == masked_min_pos(
                    m.hashes,
                    base_hash,
                    m.prime,
                    lo as int,
                    pos - 1,
                ) && best_val == mask_score(base_hash, m.hashes[best_pos as int], m.prime),
            decreases hi + 1 - pos,
        {
            let cand = base_hash.wrapping_add(self.hashes[pos]) & self.prime;
            proof {
                assert(cand == mask_score(base_hash, m.hashes[pos as int], m.prime));
            }
            if cand < best_val {
                best_val = cand;
                best_pos = pos;
            }
            proof {
                if pos > lo {
                    assert(masked_min_pos(m.hashes, base_hash, m.prime, lo as int, pos as int) == (
                    if mask_score(base_hash, m.hashes[pos as int], m.prime) < mask_score(
                        base_hash,
                        m.hashes[masked_min_pos(m.hashes, base_hash, m.prime, lo as int, pos - 1)],
                        m.prime,
                    ) {
                        pos as int
                    } else {
                        masked_min_pos(m.hashes, base_hash, m.prime, lo as int, pos - 1)
                    }));
                }
            }
            pos = pos + 1;
        }
        proof {
            lemma_masked_min_pos(m.hashes, base_hash, m.prime, lo as int, hi as int);
        }
        (best_pos, best_val)
    }

    /// Computes the next fingerprint for an order-2 engine.
    fn next_order2(&mut self) -> (r: Option<u64>)
        requires
            old(self)@.order == 2,
        ensures
            r is Some <==> rand2_emits(old(self)@, old(self)@.idx),
            r is None ==> final(self)@ == old(self)@,
            r is Some ==> r == Some(rand2_value(old(self)@, old(self)@.idx)) && final(self)@
                == (EngineModel {
                idx: old(self)@.idx + 1,
                idx2: rand2_choice(old(self)@, old(self)@.idx),
                ..old(self)@
            }),
    {
        proof {
            use_type_invariant(&*self);
        }
        let ghost m = self@;
        let ghost i = self@.idx;
        if self.idx > self.end_idx {
            return None;
        }
        let w_start = self.idx + self.w_min;
        let mut w_end = self.idx + self.w_max;
        if w_end > self.end_hash {
            if !self.shrink {
                return None;
            }
            w_end = self.end_hash;
        }
        if w_start > w_end {
            // The clipped window is empty: no second strobe can be chosen.
            return None;
        }
        proof {
            assert(w_end as int == rand2_window_end(m, i));
        }

        self.h1 = self.hashes[self.idx];
        let (pos2, _score) = self.choose_min(self.h1, w_start, w_end);
        self.idx2 = pos2;
        self.h2 = self.h1 / 2 + self.hashes[pos2] / 3;

        self.idx = self.idx + 1;
        Some(self.h2)
    }

    /// Computes the next fingerprint for an order-3 engine.
    fn next_order3(&mut self) -> (r: Option<u64>)
        requires
            old(self)@.order == 3,
        ensures
            r is Some <==> rand3_emits(old(self)@, old(self)@.idx),
            r is None ==> final(self)@ == old(self)@,
            r is Some ==> r == Some(rand3_value(old(self)@, old(self)@.idx)) && final(self)@
                == (EngineModel {
                idx: old(self)@.idx + 1,
                idx2: rand3_choice2(old(self)@, old(self)@.idx),
                idx3: rand3_choice3(old(self)@, old(self)@.idx),
                ..old(self)@
            }),
    {
        proof {
            use_type_invariant(&*self);
        }
        let ghost m = self@;
        let ghost i = self@.idx;
        if self.idx > self.end_idx {
            return None;
        }
        let w1_start = self.idx + self.w_min;
        let w1_end = self.idx + self.w_max;
        let w2_start = self.idx + self.w_max + self.w_min;
        let mut w2_end = self.idx + 2 * self.w_max;

        // No room for a third strobe: stop regardless of the shrink policy.
        if w2_start > self.end_hash {
            return None;
        }
        if w2_end > self.end_hash {
            if !self.shrink {
                return None;
            }
            w2_end = self.end_hash;
        }
        proof {
            assert(w2_end as int == rand3_window2_end(m, i));
        }

        self.h1 = self.hashes[self.idx];
        // The first window sits left of the guarded second window start.
        let (pos2, _s2) = self.choose_min(self.h1, w1_start, w1_end);
        self.idx2 = pos2;
        self.h2 = self.h1 / 3 + self.hashes[pos2] / 4;
        proof {
            assert(self.h2 == rand3_h2(m, i));
        }

        let (pos3, _s3) = self.choose_min(self.h2, w2_start, w2_end);
        self.idx3 = pos3;
        self.h3 = self.h2 + self.hashes[pos3] / 5;

        self.idx = self.idx + 1;
        Some(self.h3)
    }

    /// Advances the engine, returning the next strobemer fingerprint, or
    /// `None` once no further complete strobemer can be formed.
    pub fn next(&mut self) -> (r: Option<u64>)
        ensures
            r is Some <==> rand_emits(old(self)@, old(self)@.idx),
            r is None ==> final(self)@ == old(self)@,
            r is Some ==> r == Some(rand_value(old(self)@, old(self)@.idx)) && final(self)@
                == (EngineModel {
                idx: old(self)@.idx + 1,
                idx2: rand_choice2(old(self)@, old(self)@.idx),
                idx3: rand_choice3(old(self)@, old(self)@.idx),
                ..old(self)@
            }),
    {
        proof {
            use_type_invariant(&*self);
        }
        if self.n == 2 {
            self.next_order2()
        } else {
            self.next_order3()
        }
    }
}

} // verus!
