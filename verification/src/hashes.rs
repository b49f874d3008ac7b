//! Per-substring hashing and windowed-minimum machinery.
//!
//! This module holds the pluggable [`KmerHasher`] contract with its default
//! ntHash-based implementation, the spec-level selection rules shared by both
//! engines (true windowed minimum and masked combination), and the O(n)
//! sliding-window-minimum precomputation [`compute_min_hashes`].

use vstd::prelude::*;

verus! {

use crate::StrobeError;
use vstd::wrapping::u64_specs;

/// The earliest position in `h[lo..=hi]` holding the minimum value.
pub open spec fn slice_min_pos(h: Seq<u64>, lo: int, hi: int) -> int
    decreases hi - lo,
{
    if lo >= hi {
        lo
    } else {
        let p = slice_min_pos(h, lo, hi - 1);
        if h[hi] < h[p] {
            hi
        } else {
            p
        }
    }
}

/// `slice_min_pos` lands inside the window, attains the minimum value of the
/// window, and every strictly earlier position holds a strictly larger value.
pub proof fn lemma_slice_min_pos(h: Seq<u64>, lo: int, hi: int)
    requires
        0 <= lo <= hi < h.len(),
    ensures
        lo <= slice_min_pos(h, lo, hi) <= hi,
        forall|j: int| lo <= j <= hi ==> h[slice_min_pos(h, lo, hi)] <= #[trigger] h[j],
        forall|j: int| lo <= j < slice_min_pos(h, lo, hi) ==> h[slice_min_pos(h, lo, hi)] < #[trigger] h[j],
    decreases hi - lo,
{
    if lo < hi {
        lemma_slice_min_pos(h, lo, hi - 1);
    }
}

/// A position that attains the window minimum, with every earlier position
/// strictly larger, is exactly `slice_min_pos`.
pub proof fn lemma_slice_min_pos_unique(h: Seq<u64>, lo: int, hi: int, p: int)
    requires
        0 <= lo <= p <= hi < h.len(),
        forall|j: int| lo <= j <= hi ==> h[p] <= #[trigger] h[j],
        forall|j: int| lo <= j < p ==> h[p] < #[trigger] h[j],
    ensures
        slice_min_pos(h, lo, hi) == p,
    decreases hi - lo,
{
    if p == hi {
        if lo < hi {
            lemma_slice_min_pos(h, lo, hi - 1);
        }
    } else {
        lemma_slice_min_pos_unique(h, lo, hi - 1, p);
    }
}

/// The masked combination used for pseudo-random strobe selection:
/// 64-bit wrapping addition of the running hash and the candidate hash,
/// masked down by `mask`.
pub open spec fn mask_score(base: u64, x: u64, mask: u64) -> u64 {
    u64_specs::wrapping_add(base, x) & mask
}

/// The earliest position `p` in `h[lo..=hi]` minimising
/// `mask_score(base, h[p], mask)`.
pub open spec fn masked_min_pos(h: Seq<u64>, base: u64, mask: u64, lo: int, hi: int) -> int
    decreases hi - lo,
{
    if lo >= hi {
        lo
    } else {
        let p = masked_min_pos(h, base, mask, lo, hi - 1);
        if mask_score(base, h[hi], mask) < mask_score(base, h[p], mask) {
            hi
        } else {
            p
        }
    }
}

/// `masked_min_pos` lands inside the window, attains the minimum masked
/// score, and every strictly earlier position scores strictly higher.
pub proof fn lemma_masked_min_pos(h: Seq<u64>, base: u64, mask: u64, lo: int, hi: int)
    requires
        0 <= lo <= hi < h.len(),
    ensures
        lo <= masked_min_pos(h, base, mask, lo, hi) <= hi,
        forall|j: int|
            lo <= j <= hi ==> mask_score(base, h[masked_min_pos(h, base, mask, lo, hi)], mask)
                <= mask_score(base, #[trigger] h[j], mask),
        forall|j: int|
            lo <= j < masked_min_pos(h, base, mask, lo, hi) ==> mask_score(
                base,
                h[masked_min_pos(h, base, mask, lo, hi)],
                mask,
            ) < mask_score(base, #[trigger] h[j], mask),
    decreases hi - lo,
{
    if lo < hi {
        lemma_masked_min_pos(h, base, mask, lo, hi - 1);
    }
}

/// The sequence of canonical ntHash values of a nucleotide sequence for a
/// given substring length: one value per substring window that is free of
/// unrecognised bytes, in left-to-right order. The result is a function of
/// the sequence and the substring length alone.
pub uninterp spec fn nthash_hashes(seq: Seq<u8>, k: int) -> Seq<u64>;

/// True for the bytes the default hasher always recognises:
/// A, C, G, T in upper or lower case.
pub open spec fn plain_base(b: u8) -> bool {
    b == 65 || b == 97 || b == 67 || b == 99 || b == 71 || b == 103 || b == 84 || b == 116
}

/// Relies on `nthash_rs::kmer::NtHashBuilder` and its iterator: for
/// `1 <= k <= seq.len()` the builder succeeds, and the iterator yields one
/// rolling-hash value per substring window, in left-to-right order, skipping
/// every window that contains a byte it does not recognise; when each byte
/// of the sequence is A/C/G/T (either case), no window is skipped.
#[verifier::external_body]
fn nthash_all(seq: &[u8], k: usize) -> (r: Vec<u64>)
    requires
        1 <= k <= 64,
        k <= seq@.len(),
    ensures
        r@ == nthash_hashes(seq@, k as int),
        r@.len() <= seq@.len() - k + 1,
        (forall|i: int| 0 <= i < seq@.len() ==> plain_base(seq@[i])) ==> r@.len() == seq@.len()
            - k + 1,
{
    let mut out: Vec<u64> = Vec::new();
    if let Ok(it) = nthash_rs::kmer::NtHashBuilder::new(seq).k(k as u16).num_hashes(1).finish() {
        for (_, h) in it {
            out.push(h[0]);
        }
    }
    out
}

/// Per-substring hashing: one 64-bit value for every substring start
/// position of a sequence, `hashes[i]` belonging to the substring starting
/// at `i`. Implementations must be deterministic: both the outcome and the
/// values are fixed by the sequence and the substring length, which the
/// spec functions of this trait record. A hasher verified against this
/// trait overrides them; one written outside verified code inherits
/// defaults that need not describe it, and the engines re-check at run time
/// everything they rely on.
pub trait KmerHasher: Send + Sync + 'static {
    /// The hash values this hasher assigns to the substrings of `seq`,
    /// meaningful whenever `spec_ok` holds.
    open spec fn spec_hashes(&self, seq: Seq<u8>, k: int) -> Seq<u64> {
        Seq::empty()
    }

    /// Whether hashing the given input succeeds.
    open spec fn spec_ok(&self, seq: Seq<u8>, k: int) -> bool {
        true
    }

    /// The error reported when hashing the given input fails.
    open spec fn spec_err(&self, seq: Seq<u8>, k: int) -> StrobeError {
        StrobeError::NtHashError
    }

    /// Hashes every length-`k` substring of `seq`, in left-to-right order.
    fn hash_all(&self, seq: &[u8], k: usize) -> (r: Result<Vec<u64>, StrobeError>)
        ensures
            r is Ok <==> self.spec_ok(seq@, k as int),
            r matches Ok(v) ==> v@ == self.spec_hashes(seq@, k as int),
            r matches Err(e) ==> e == self.spec_err(seq@, k as int),
    ;
}

/// The default hasher: canonical ntHash over every substring window.
pub struct NtHash64;

impl Default for NtHash64 {
    fn default() -> (r: Self)
        ensures
            r == (NtHash64 {  }),
    {
        NtHash64 {  }
    }
}

impl KmerHasher for NtHash64 {
    open spec fn spec_hashes(&self, seq: Seq<u8>, k: int) -> Seq<u64> {
        nthash_hashes(seq, k)
    }

    open spec fn spec_ok(&self, seq: Seq<u8>, k: int) -> bool {
        1 <= k <= 64 && k <= seq.len()
    }

    open spec fn spec_err(&self, seq: Seq<u8>, k: int) -> StrobeError {
        if k < 1 || k > 64 {
            StrobeError::StrobeLengthTooSmall
        } else {
            StrobeError::SequenceTooShort
        }
    }

    fn hash_all(&self, seq: &[u8], k: usize) -> (r: Result<Vec<u64>, StrobeError>) {
        if k < 1 || k > 64 {
            return Err(StrobeError::StrobeLengthTooSmall);
        }
        if seq.len() < k {
            return Err(StrobeError::SequenceTooShort);
        }
        Ok(nthash_all(seq, k))
    }
}

/// The backing-array slot of the `t`-th live element of a ring buffer of
/// capacity `w` whose front sits at `head`.
spec fn ring_slot(head: int, t: int, w: int) -> int {
    if head + t < w {
        head + t
    } else {
        head + t - w
    }
}

/// The `t`-th live element of the index queue, read through the ring layout.
spec fn qelem(idx_q: Seq<usize>, head: int, w: int, t: int) -> int {
    idx_q[ring_slot(head, t, w)] as int
}

/// The deque invariant of the monotonic window-minimum queue: live indices
/// lie in `[lo, hi]`, grow by at least one per slot, their stored values
/// match `h`, and the values never decrease from front to back.
spec fn queue_wf(
    h: Seq<u64>,
    idx_q: Seq<usize>,
    val_q: Seq<u64>,
    head: int,
    len: int,
    w: int,
    lo: int,
    hi: int,
) -> bool {
    &&& idx_q.len() == w
    &&& val_q.len() == w
    &&& 0 <= head < w
    &&& 0 <= len <= w
    &&& hi < h.len()
    &&& forall|t: int| 0 <= t < len ==> lo <= #[trigger] qelem(idx_q, head, w, t) <= hi
    &&& forall|s: int, t: int|
        0 <= s < t < len ==> #[trigger] qelem(idx_q, head, w, s) + (t - s) <= #[trigger] qelem(
            idx_q,
            head,
            w,
            t,
        )
    &&& forall|t: int|
        0 <= t < len ==> #[trigger] val_q[ring_slot(head, t, w)] == h[qelem(idx_q, head, w, t)]
    &&& forall|s: int, t: int|
        0 <= s <= t < len ==> h[#[trigger] qelem(idx_q, head, w, s)] <= h[#[trigger] qelem(
            idx_q,
            head,
            w,
            t,
        )]
}

/// Position `j` is accounted for by the queue: either it is still live, or
/// some later live position holds a strictly smaller value.
spec fn covered(h: Seq<u64>, idx_q: Seq<usize>, head: int, w: int, len: int, j: int) -> bool {
    exists|t: int|
        0 <= t < len && (#[trigger] qelem(idx_q, head, w, t) == j || (qelem(idx_q, head, w, t) > j
            && h[qelem(idx_q, head, w, t)] < h[j]))
}

/// The earliest admissible index of the window of width `w` ending at `i`,
/// for positions processed strictly before `i`.
spec fn qlo(i: int, w: int) -> int {
    if i >= w {
        i - w
    } else {
        0
    }
}

/// For a sliding window of width `w` over the given slice of hash values,
/// computes the index and value of the minimum hash in each window.
///
/// `locs[i]` is the earliest index attaining the minimum of
/// `hashes[i - w + 1 ..= i]` and `mins[i]` that minimum, for every `i` at
/// which the window is full (`i >= w - 1`); earlier entries keep the
/// sentinels `0` and `u64::MAX`. The queue behind it does O(1) amortised
/// work per element.
#[verifier::rlimit(60)]
pub fn compute_min_hashes(hashes: &[u64], w: usize) -> (r: (Vec<usize>, Vec<u64>))
    requires
        w >= 1,
    ensures
        r.0@.len() == hashes@.len(),
        r.1@.len() == hashes@.len(),
        forall|i: int| 0 <= i < hashes@.len() && i < w - 1 ==> r.0@[i] == 0,
        forall|i: int| 0 <= i < hashes@.len() && i < w - 1 ==> r.1@[i] == u64::MAX,
        forall|i: int|
            w - 1 <= i < hashes@.len() ==> r.0@[i] == slice_min_pos(hashes@, i - (w - 1), i),
        forall|i: int|
            w - 1 <= i < hashes@.len() ==> r.1@[i] == hashes@[slice_min_pos(hashes@, i - (w - 1), i)],
{
    let ghost gh = hashes@;
    let n = hashes.len();
    let mut locs: Vec<usize> = Vec::new();
    let mut mins: Vec<u64> = Vec::new();

    if w == 1 {
        let mut i: usize = 0;
        while i < n
            invariant
                i <= n,
                n == gh.len(),
                hashes@ == gh,
                locs@.len() == i,
                mins@.len() == i,
                forall|p: int| 0 <= p < i ==> locs@[p] == p,
                forall|p: int| 0 <= p < i ==> mins@[p] == gh[p],
            decreases n - i,
        {
            locs.push(i);
            mins.push(hashes[i]);
            i = i + 1;
        }
        proof {
            assert forall|p: int| w - 1 <= p < gh.len() implies locs@[p] == slice_min_pos(
                gh,
                p - (w - 1),
                p,
            ) by {
                assert(slice_min_pos(gh, p, p) == p);
            }
            assert forall|p: int| w - 1 <= p < gh.len() implies mins@[p] == gh[slice_min_pos(
                gh,
                p - (w - 1),
                p,
            )] by {
                assert(slice_min_pos(gh, p, p) == p);
            }
        }
        return (locs, mins);
    }

    if w > n {
        // No window ever fills, so every entry keeps its sentinel.
        let mut i: usize = 0;
        while i < n
            invariant
                i <= n,
                n == gh.len(),
                locs@.len() == i,
                mins@.len() == i,
                forall|p: int| 0 <= p < i ==> locs@[p] == 0,
                forall|p: int| 0 <= p < i ==> mins@[p] == u64::MAX,
            decreases n - i,
        {
            locs.push(0);
            mins.push(u64::MAX);
            i = i + 1;
        }
        return (locs, mins);
    }

    let mut idx_q: Vec<usize> = Vec::new();
    let mut val_q: Vec<u64> = Vec::new();
    let mut j: usize = 0;
    while j < w
        invariant
            j <= w,
            idx_q@.len() == j,
            val_q@.len() == j,
        decreases w - j,
    {
        idx_q.push(0);
        val_q.push(0);
        j = j + 1;
    }

    let mut head: usize = 0;
    let mut len: usize = 0;
    let mut i: usize = 0;
    while i < n
        invariant
            2 <= w <= n,
            i <= n,
            n == gh.len(),
            hashes@ == gh,
            locs@.len() == i,
            mins@.len() == i,
            queue_wf(
                gh,
                idx_q@,
                val_q@,
                head as int,
                len as int,
                w as int,
                qlo(i as int, w as int),
                i - 1,
            ),
            forall|p: int|
                qlo(i as int, w as int) <= p < i ==> covered(
                    gh,
                    idx_q@,
                    head as int,
                    w as int,
                    len as int,
                    p,
                ),
            i >= 1 ==> len >= 1 && qelem(idx_q@, head as int, w as int, len - 1) == i - 1,
            forall|p: int| 0 <= p < i && p < w - 1 ==> locs@[p] == 0,
            forall|p: int| 0 <= p < i && p < w - 1 ==> mins@[p] == u64::MAX,
            forall|p: int| w - 1 <= p < i ==> locs@[p] == slice_min_pos(gh, p - (w - 1), p),
            forall|p: int|
                w - 1 <= p < i ==> mins@[p] == gh[slice_min_pos(gh, p - (w - 1), p)],
        decreases n - i,
    {
        let h = hashes[i];
        let ws: usize = if i >= w - 1 {
            i - (w - 1)
        } else {
            0
        };

        // Evict from the front every index that has left the window.
        while len > 0 && idx_q[head] < ws
            invariant
                2 <= w,
                i < n,
                n == gh.len(),
                idx_q@.len() == w,
                val_q@.len() == w,
                ws == (if i >= w - 1 {
                    i - (w - 1)
                } else {
                    0
                }),
                queue_wf(
                    gh,
                    idx_q@,
                    val_q@,
                    head as int,
                    len as int,
                    w as int,
                    qlo(i as int, w as int),
                    i - 1,
                ),
                forall|p: int|
                    ws <= p < i ==> covered(gh, idx_q@, head as int, w as int, len as int, p),
            decreases len,
        {
            let ghost pre_head = head as int;
            let ghost pre_len = len as int;
            let ghost gq = idx_q@;
            let ghost gw = w as int;
            proof {
                assert(qelem(gq, pre_head, gw, 0) < ws);
            }
            head = if head + 1 == w {
                0
            } else {
                head + 1
            };
            len = len - 1;
            proof {
                let nh = head as int;
                assert forall|t: int| 0 <= t < pre_len - 1 implies #[trigger] qelem(gq, nh, gw, t)
                    == qelem(gq, pre_head, gw, t + 1) by {}
                assert forall|t: int| 0 <= t < pre_len - 1 implies #[trigger] ring_slot(nh, t, gw)
                    == ring_slot(pre_head, t + 1, gw) by {}
                assert(queue_wf(
                    gh,
                    idx_q@,
                    val_q@,
                    nh,
                    len as int,
                    gw,
                    qlo(i as int, gw),
                    i - 1,
                ));
                assert forall|p: int| ws <= p < i implies covered(
                    gh,
                    gq,
                    nh,
                    gw,
                    len as int,
                    p,
                ) by {
                    assert(covered(gh, gq, pre_head, gw, pre_len, p));
                    let t = choose|t: int|
                        0 <= t < pre_len && (#[trigger] qelem(gq, pre_head, gw, t) == p || (qelem(
                            gq,
                            pre_head,
                            gw,
                            t,
                        ) > p && gh[qelem(gq, pre_head, gw, t)] < gh[p]));
                    assert(t >= 1);
                    assert(qelem(gq, nh, gw, t - 1) == qelem(gq, pre_head, gw, t));
                }
            }
        }

        // All surviving indices now sit inside the window.
        proof {
            let gq = idx_q@;
            let gw = w as int;
            let ghd = head as int;
            let gln = len as int;
            assert forall|t: int| 0 <= t < gln implies ws <= #[trigger] qelem(gq, ghd, gw, t) by {
                assert(idx_q@[head as int] == qelem(gq, ghd, gw, 0));
                if t > 0 {
                    assert(qelem(gq, ghd, gw, 0) + t <= qelem(gq, ghd, gw, t));
                }
            }
            assert(queue_wf(gh, gq, val_q@, ghd, gln, gw, ws as int, i - 1));
        }

        // Evict from the back every value strictly larger than the incoming
        // one; keeping equal values preserves the earliest tie.
        while len > 0
            invariant
                2 <= w,
                i < n,
                n == gh.len(),
                hashes@ == gh,
                h == gh[i as int],
                idx_q@.len() == w,
                val_q@.len() == w,
                ws == (if i >= w - 1 {
                    i - (w - 1)
                } else {
                    0
                }),
                queue_wf(gh, idx_q@, val_q@, head as int, len as int, w as int, ws as int, i - 1),
                forall|p: int|
                    ws <= p < i ==> covered(gh, idx_q@, head as int, w as int, len as int, p)
                        || gh[p] > gh[i as int],
            ensures
                idx_q@.len() == w,
                val_q@.len() == w,
                queue_wf(gh, idx_q@, val_q@, head as int, len as int, w as int, ws as int, i - 1),
                forall|p: int|
                    ws <= p < i ==> covered(gh, idx_q@, head as int, w as int, len as int, p)
                        || gh[p] > gh[i as int],
                len == 0 || gh[qelem(idx_q@, head as int, w as int, len - 1)] <= gh[i as int],
            decreases len,
        {
            let bs: usize = if len - 1 >= w - head {
                (len - 1) - (w - head)
            } else {
                head + (len - 1)
            };
            proof {
                assert(bs as int == ring_slot(head as int, len - 1, w as int));
            }
            if val_q[bs] <= h {
                break ;
            }
            let ghost pre_len = len as int;
            let ghost gq = idx_q@;
            let ghost gw = w as int;
            let ghost ghd = head as int;
            len = len - 1;
            proof {
                let back = qelem(gq, ghd, gw, pre_len - 1);
                assert(val_q@[ring_slot(ghd, pre_len - 1, gw)] == gh[back]);
                assert(gh[back] > gh[i as int]);
                let gi = i as int;
                // A position whose witness was the popped back either is that
                // back (so its value exceeds the incoming one) or points past
                // it to a strictly smaller value, which also exceeds it.
                assert forall|p: int|
                    ws <= p < i implies covered(gh, gq, ghd, gw, len as int, p) || gh[p]
                    > gh[gi] by {
                    if covered(gh, gq, ghd, gw, pre_len, p) {
                        let t = choose|t: int|
                            0 <= t < pre_len && (#[trigger] qelem(gq, ghd, gw, t) == p || (qelem(
                                gq,
                                ghd,
                                gw,
                                t,
                            ) > p && gh[qelem(gq, ghd, gw, t)] < gh[p]));
                        if t < pre_len - 1 {
                            assert(covered(gh, gq, ghd, gw, len as int, p));
                        } else {
                            if qelem(gq, ghd, gw, t) == p {
                                assert(gh[p] > gh[gi]);
                            } else {
                                assert(gh[p] > gh[back]);
                            }
                        }
                    }
                }
            }
        }

        // Push the incoming index at the back.
        proof {
            let gq = idx_q@;
            let gw = w as int;
            let ghd = head as int;
            let gln = len as int;
            // The live indices fit between ws and i - 1 with unit spread, so
            // there is room for one more element.
            if gln > 0 {
                assert(qelem(gq, ghd, gw, 0) + (gln - 1) <= qelem(gq, ghd, gw, gln - 1));
            }
            assert(gln < gw);
        }
        let tail: usize = if len >= w - head {
            len - (w - head)
        } else {
            head + len
        };
        let ghost old_idx_q = idx_q@;
        let ghost old_val_q = val_q@;
        let ghost old_len = len as int;
        proof {
            assert(tail as int == ring_slot(head as int, old_len, w as int));
            assert forall|t1: int, t2: int|
                0 <= t1 < w && 0 <= t2 < w && t1 != t2 implies #[trigger] ring_slot(
                head as int,
                t1,
                w as int,
            ) != #[trigger] ring_slot(head as int, t2, w as int) by {}
        }
        idx_q[tail] = i;
        val_q[tail] = h;
        len = len + 1;
        proof {
            let gq = idx_q@;
            let gv = val_q@;
            let gw = w as int;
            let ghd = head as int;
            let gln = len as int;
            let gi = i as int;
            // Slots of the old live elements are untouched by the write.
            assert forall|t: int| 0 <= t < gln - 1 implies #[trigger] qelem(gq, ghd, gw, t)
                == qelem(old_idx_q, ghd, gw, t) by {
                assert(ring_slot(ghd, t, gw) != ring_slot(ghd, gln - 1, gw));
            }
            assert forall|t: int| 0 <= t < gln - 1 implies #[trigger] gv[ring_slot(ghd, t, gw)]
                == old_val_q[ring_slot(ghd, t, gw)] by {
                assert(ring_slot(ghd, t, gw) != ring_slot(ghd, gln - 1, gw));
            }
            assert(qelem(gq, ghd, gw, gln - 1) == gi);
            assert(gv[ring_slot(ghd, gln - 1, gw)] == gh[gi]);
            // Spread and monotony against the new back element.
            assert forall|s: int| 0 <= s < gln - 1 implies #[trigger] qelem(gq, ghd, gw, s) + (gln
                - 1 - s) <= gi by {
                assert(qelem(old_idx_q, ghd, gw, s) == qelem(gq, ghd, gw, s));
                if s < gln - 2 {
                    assert(qelem(old_idx_q, ghd, gw, s) + (gln - 2 - s) <= qelem(
                        old_idx_q,
                        ghd,
                        gw,
                        gln - 2,
                    ));
                }
                assert(qelem(old_idx_q, ghd, gw, gln - 2) <= i - 1);
            }
            assert forall|s: int| 0 <= s < gln - 1 implies gh[#[trigger] qelem(gq, ghd, gw, s)]
                <= gh[gi] by {
                assert(qelem(old_idx_q, ghd, gw, s) == qelem(gq, ghd, gw, s));
                if s < gln - 2 {
                    assert(gh[qelem(old_idx_q, ghd, gw, s)] <= gh[qelem(old_idx_q, ghd, gw, gln - 2)]);
                }
                assert(gh[qelem(old_idx_q, ghd, gw, old_len - 1)] <= gh[gi]);
            }
            assert(queue_wf(gh, gq, gv, ghd, gln, gw, ws as int, gi));
            // Coverage now extends to i itself.
            assert forall|p: int| ws <= p <= i implies covered(gh, gq, ghd, gw, gln, p) by {
                if p == gi {
                    assert(qelem(gq, ghd, gw, gln - 1) == p);
                } else if covered(gh, old_idx_q, ghd, gw, old_len, p) {
                    let t = choose|t: int|
                        0 <= t < old_len && (#[trigger] qelem(old_idx_q, ghd, gw, t) == p || (
                        qelem(old_idx_q, ghd, gw, t) > p && gh[qelem(old_idx_q, ghd, gw, t)]
                            < gh[p]));
                    assert(qelem(gq, ghd, gw, t) == qelem(old_idx_q, ghd, gw, t));
                } else {
                    assert(gh[p] > gh[gi]);
                    assert(qelem(gq, ghd, gw, gln - 1) == gi);
                }
            }
        }

        if i >= w - 1 {
            proof {
                let gq = idx_q@;
                let gw = w as int;
                let ghd = head as int;
                let gln = len as int;
                let front = qelem(gq, ghd, gw, 0);
                assert forall|p: int| ws <= p <= i implies gh[front] <= #[trigger] gh[p] by {
                    assert(covered(gh, gq, ghd, gw, gln, p));
                    let t = choose|t: int|
                        0 <= t < gln && (#[trigger] qelem(gq, ghd, gw, t) == p || (qelem(
                            gq,
                            ghd,
                            gw,
                            t,
                        ) > p && gh[qelem(gq, ghd, gw, t)] < gh[p]));
                    assert(gh[qelem(gq, ghd, gw, 0)] <= gh[qelem(gq, ghd, gw, t)]);
                }
                assert forall|p: int| ws <= p < front implies gh[front] < #[trigger] gh[p] by {
                    assert(covered(gh, gq, ghd, gw, gln, p));
                    let t = choose|t: int|
                        0 <= t < gln && (#[trigger] qelem(gq, ghd, gw, t) == p || (qelem(
                            gq,
                            ghd,
                            gw,
                            t,
                        ) > p && gh[qelem(gq, ghd, gw, t)] < gh[p]));
                    if qelem(gq, ghd, gw, t) == p {
                        if t > 0 {
                            assert(qelem(gq, ghd, gw, 0) + t <= qelem(gq, ghd, gw, t));
                        }
                        assert(false);
                    }
                    assert(gh[qelem(gq, ghd, gw, 0)] <= gh[qelem(gq, ghd, gw, t)]);
                }
                lemma_slice_min_pos_unique(gh, ws as int, i as int, front);
                assert(idx_q@[head as int] == qelem(gq, ghd, gw, 0));
                assert(val_q@[head as int] == val_q@[ring_slot(ghd, 0, gw)]);
            }
            locs.push(idx_q[head]);
            mins.push(val_q[head]);
        } else {
            locs.push(0);
            mins.push(u64::MAX);
        }
        i = i + 1;
        proof {
            let gw = w as int;
            // The window range just established is the one the next
            // iteration expects.
            assert(qlo(i as int, gw) == ws as int);
            assert forall|p: int| 0 <= p < i && p < w - 1 implies locs@[p] == 0 && mins@[p]
                == u64::MAX by {}
            assert forall|p: int| w - 1 <= p < i implies locs@[p] == slice_min_pos(
                gh,
                p - (w - 1),
                p,
            ) && mins@[p] == gh[slice_min_pos(gh, p - (w - 1), p)] by {}
        }
    }
    (locs, mins)
}

} // verus!

