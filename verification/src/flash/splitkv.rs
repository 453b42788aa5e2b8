//! When and how the dense forward splits the K dimension.

use vstd::prelude::*;
use crate::math::{ceil_div, div_ceil, lemma_ceil_div};

verus! {

/// K-dimension tile size of the splitkv kernels. The kernels bake the same
/// block size in.
pub const SPLITKV_BLOCK_N: usize = 32;

/// M-dimension tile size of the splitkv kernels; see `SPLITKV_BLOCK_N`.
pub const SPLITKV_BLOCK_M: usize = 64;

/// The most splits that a forward asks for.
pub const MAX_SPLITS: usize = 128;

/// `x`, or the largest `usize` where `x` is above it.
pub open spec fn saturated(x: int) -> int {
    if x > usize::MAX {
        usize::MAX as int
    } else {
        x
    }
}

/// The grid fills at least four fifths of the multiprocessors, in `usize`
/// arithmetic that saturates.
pub open spec fn nearly_full(blocks: int, num_sms: int) -> bool {
    saturated(blocks * 5) >= saturated(num_sms * 4)
}

/// The largest split count to look at.
pub open spec fn splits_limit(num_sms: int, num_n_blocks: int, max_splits: int) -> int {
    let m = if max_splits <= num_sms { max_splits } else { num_sms };
    if m <= num_n_blocks {
        m
    } else {
        num_n_blocks
    }
}

/// `n` splits give another number of K blocks per split than `n - 1` splits.
pub open spec fn eligible(num_n_blocks: int, n: int) -> bool {
    n == 1 || ceil_div(num_n_blocks, n) != ceil_div(num_n_blocks, n - 1)
}

/// The split counts among which the heuristic picks.
pub open spec fn candidate(num_sms: int, num_n_blocks: int, max_splits: int, n: int) -> bool {
    1 <= n <= splits_limit(num_sms, num_n_blocks, max_splits) && eligible(num_n_blocks, n)
}

/// How often the multiprocessors are filled, the last time perhaps in part,
/// to run `blocks * n` thread blocks.
pub open spec fn waves(blocks: int, num_sms: int, n: int) -> int {
    ceil_div(blocks * n, num_sms)
}

/// The occupancy with `n` splits, `blocks * n` thread blocks over
/// `num_sms * waves` places, is at least 85 percent of the occupancy with `m`
/// splits.
pub open spec fn reaches_85_percent(blocks: int, num_sms: int, n: int, m: int) -> bool {
    100 * ((blocks * n) * (num_sms * waves(blocks, num_sms, m))) >= 85 * ((blocks * m) * (num_sms
        * waves(blocks, num_sms, n)))
}

/// `n` is a candidate whose occupancy is at least 85 percent of that of every
/// candidate.
pub open spec fn efficient(
    blocks: int,
    num_sms: int,
    num_n_blocks: int,
    max_splits: int,
    n: int,
) -> bool {
    &&& candidate(num_sms, num_n_blocks, max_splits, n)
    &&& forall|m: int| #[trigger]
        candidate(num_sms, num_n_blocks, max_splits, m) ==> reaches_85_percent(
            blocks,
            num_sms,
            n,
            m,
        )
}

/// `r` is the smallest efficient split count.
pub open spec fn least_efficient(
    blocks: int,
    num_sms: int,
    num_n_blocks: int,
    max_splits: int,
    r: int,
) -> bool {
    &&& efficient(blocks, num_sms, num_n_blocks, max_splits, r)
    &&& forall|n: int|
        1 <= n < r ==> !#[trigger] efficient(blocks, num_sms, num_n_blocks, max_splits, n)
}

/// The number of splits: 1 when the grid already nearly fills the
/// multiprocessors or there is nothing to split, else the smallest efficient
/// count.
pub open spec fn num_splits(
    blocks: int,
    num_sms: int,
    num_n_blocks: int,
    max_splits: int,
) -> int {
    if nearly_full(blocks, num_sms) || splits_limit(num_sms, num_n_blocks, max_splits) <= 0 {
        1
    } else {
        choose|r: int| least_efficient(blocks, num_sms, num_n_blocks, max_splits, r)
    }
}

/// There is only one smallest efficient split count.
proof fn lemma_least_unique(
    blocks: int,
    num_sms: int,
    num_n_blocks: int,
    max_splits: int,
    r: int,
)
    requires
        least_efficient(blocks, num_sms, num_n_blocks, max_splits, r),
    ensures
        r == (choose|n: int| least_efficient(blocks, num_sms, num_n_blocks, max_splits, n)),
{
    let n = choose|n: int| least_efficient(blocks, num_sms, num_n_blocks, max_splits, n);
    assert(least_efficient(blocks, num_sms, num_n_blocks, max_splits, n));
    if n < r {
        assert(!efficient(blocks, num_sms, num_n_blocks, max_splits, n));
    } else if r < n {
        assert(!efficient(blocks, num_sms, num_n_blocks, max_splits, r));
    }
}

/// With fewer thread blocks than multiprocessors, `n` splits take at least
/// one and at most `n` waves.
proof fn lemma_waves(blocks: int, num_sms: int, n: int)
    requires
        0 < blocks <= num_sms,
        1 <= n,
    ensures
        1 <= waves(blocks, num_sms, n) <= n,
{
    assert(0 < blocks * n <= n * num_sms) by (nonlinear_arith)
        requires
            0 < blocks <= num_sms,
            1 <= n,
    ;
    lemma_ceil_div(blocks * n, num_sms);
    let w = waves(blocks, num_sms, n);
    assert(w <= n) by (nonlinear_arith)
        requires
            w * num_sms < blocks * n + num_sms,
            blocks * n <= n * num_sms,
            num_sms > 0,
    ;
}

/// The comparison of occupancies without their common factor.
proof fn lemma_reaches_85_percent(blocks: int, num_sms: int, n: int, m: int)
    requires
        0 < blocks,
        0 < num_sms,
    ensures
        reaches_85_percent(blocks, num_sms, n, m) <==> 20 * (n * waves(blocks, num_sms, m)) >= 17
            * (m * waves(blocks, num_sms, n)),
{
    let wn = waves(blocks, num_sms, n);
    let wm = waves(blocks, num_sms, m);
    let f = blocks * num_sms;
    assert(f > 0) by (nonlinear_arith)
        requires
            f == blocks * num_sms,
            0 < blocks,
            0 < num_sms,
    ;
    assert((blocks * n) * (num_sms * wm) == f * (n * wm)) by (nonlinear_arith)
        requires
            f == blocks * num_sms,
    ;
    assert((blocks * m) * (num_sms * wn) == f * (m * wn)) by (nonlinear_arith)
        requires
            f == blocks * num_sms,
    ;
    let x = n * wm;
    let y = m * wn;
    assert(100 * (f * x) >= 85 * (f * y) <==> 20 * x >= 17 * y) by (nonlinear_arith)
        requires
            f > 0,
    ;
}

/// What is within 85 percent of the best of a set is so for all of it.
proof fn lemma_best_is_enough(n: int, wn: int, best: int, wbest: int, m: int, wm: int)
    requires
        0 < wbest,
        0 <= wm,
        0 <= wn,
        20 * (n * wbest) >= 17 * (best * wn),
        m * wbest <= best * wm,
    ensures
        20 * (n * wm) >= 17 * (m * wn),
{
    assert(20 * (n * wbest) * wm >= 17 * (best * wn) * wm) by (nonlinear_arith)
        requires
            0 <= wm,
            20 * (n * wbest) >= 17 * (best * wn),
    ;
    assert((m * wbest) * wn <= (best * wm) * wn) by (nonlinear_arith)
        requires
            0 <= wn,
            m * wbest <= best * wm,
    ;
    let a = n * wm;
    let b = m * wn;
    assert(20 * (n * wbest) * wm == 20 * a * wbest) by (nonlinear_arith)
        requires
            a == n * wm,
    ;
    assert(17 * (best * wn) * wm == 17 * ((best * wm) * wn)) by (nonlinear_arith);
    assert((m * wbest) * wn == b * wbest) by (nonlinear_arith)
        requires
            b == m * wn,
    ;
    assert(20 * a >= 17 * b) by (nonlinear_arith)
        requires
            20 * a * wbest >= 17 * (b * wbest),
            0 < wbest,
    ;
}

/// Whether `n` splits lay the K blocks out otherwise than `n - 1` splits.
fn is_eligible(num_n_blocks: usize, n: usize) -> (r: bool)
    requires
        n >= 1,
    ensures
        r == eligible(num_n_blocks as int, n as int),
{
    n == 1 || div_ceil(num_n_blocks, n) != div_ceil(num_n_blocks, n - 1)
}

/// The number of waves, for thread blocks that fit on the multiprocessors.
fn count_waves(blocks: usize, num_sms: usize, n: usize) -> (w: u128)
    requires
        0 < blocks <= num_sms,
        1 <= n,
    ensures
        w == waves(blocks as int, num_sms as int, n as int),
        1 <= w <= n,
{
    let b: u128 = blocks as u128;
    let k: u128 = n as u128;
    let s: u128 = num_sms as u128;
    proof {
        lemma_waves(blocks as int, num_sms as int, n as int);
        assert(blocks * n <= usize::MAX * usize::MAX) by (nonlinear_arith)
            requires
                blocks <= usize::MAX,
                n <= usize::MAX,
        ;
        assert(usize::MAX * usize::MAX <= u128::MAX - usize::MAX) by (nonlinear_arith)
            requires
                usize::MAX <= 0xffff_ffff_ffff_ffff,
        ;
    }
    let total: u128 = b * k;
    let w: u128 = (total + s - 1) / s;
    w
}

/// Picks the smallest split count whose occupancy of the multiprocessors
/// reaches at least 85 percent of the best achievable, capped at
/// `max_splits`. Returns 1 (no split) when the grid already nearly fills the
/// multiprocessors.
pub fn num_splits_heuristic(
    batch_nheads_mblocks: usize,
    num_sms: usize,
    num_n_blocks: usize,
    max_splits: usize,
) -> (r: usize)
    requires
        !nearly_full(batch_nheads_mblocks as int, num_sms as int) ==> 4 * splits_limit(
            num_sms as int,
            num_n_blocks as int,
            max_splits as int,
        ) <= isize::MAX,
    ensures
        r == num_splits(
            batch_nheads_mblocks as int,
            num_sms as int,
            num_n_blocks as int,
            max_splits as int,
        ),
        r == 1 || least_efficient(
            batch_nheads_mblocks as int,
            num_sms as int,
            num_n_blocks as int,
            max_splits as int,
            r as int,
        ),
        1 <= r,
        r == 1 || r <= max_splits,
{
    let ghost b = batch_nheads_mblocks as int;
    let ghost s = num_sms as int;
    let ghost nb = num_n_blocks as int;
    let ghost ms = max_splits as int;
    let needed: usize = match batch_nheads_mblocks.checked_mul(5) {
        Some(v) => v,
        None => usize::MAX,
    };
    let there: usize = match num_sms.checked_mul(4) {
        Some(v) => v,
        None => usize::MAX,
    };
    if needed >= there {
        return 1;
    }
    let capped: usize = if max_splits <= num_sms { max_splits } else { num_sms };
    let limit: usize = if capped <= num_n_blocks { capped } else { num_n_blocks };
    if limit == 0 {
        return 1;
    }
    assert(eligible(nb, 1) && candidate(s, nb, ms, 1));
    if batch_nheads_mblocks == 0 {
        assert forall|m: int| #[trigger] candidate(s, nb, ms, m) implies reaches_85_percent(
            b,
            s,
            1,
            m,
        ) by {
            assert(b * 1 == 0 && b * m == 0) by (nonlinear_arith)
                requires
                    b == 0,
            ;
            assert(0 * (s * waves(b, s, m)) == 0 && 0 * (s * waves(b, s, 1)) == 0);
        }
        proof {
            lemma_least_unique(b, s, nb, ms, 1);
        }
        return 1;
    }
    // The best candidate so far, compared by n / waves(n).
    let mut best: usize = 1;
    let mut best_waves: u128 = count_waves(batch_nheads_mblocks, num_sms, 1);
    let mut n: usize = 2;
    while n <= limit
        invariant
            2 <= n <= limit + 1,
            limit == splits_limit(s, nb, ms),
            4 * limit <= isize::MAX,
            0 < batch_nheads_mblocks <= num_sms,
            b == batch_nheads_mblocks,
            s == num_sms,
            nb == num_n_blocks,
            best < n,
            candidate(s, nb, ms, best as int),
            best_waves == waves(b, s, best as int),
            1 <= best_waves <= best,
            forall|m: int|
                m < n && #[trigger] candidate(s, nb, ms, m) ==> m * best_waves <= best * waves(
                    b,
                    s,
                    m,
                ),
        decreases limit + 1 - n,
    {
        if is_eligible(num_n_blocks, n) {
            let w = count_waves(batch_nheads_mblocks, num_sms, n);
            let ghost prev = best;
            let ghost prev_waves = best_waves;
            proof {
                assert(n * best_waves <= isize::MAX * isize::MAX && best * w <= isize::MAX
                    * isize::MAX) by (nonlinear_arith)
                    requires
                        0 <= n <= isize::MAX,
                        0 <= best <= isize::MAX,
                        0 <= best_waves <= isize::MAX,
                        0 <= w <= isize::MAX,
                ;
                assert(isize::MAX * isize::MAX <= u128::MAX) by (nonlinear_arith)
                    requires
                        0 <= isize::MAX <= 0x7fff_ffff_ffff_ffff,
                ;
            }
            if n as u128 * best_waves > best as u128 * w {
                best = n;
                best_waves = w;
                proof {
                    assert forall|m: int|
                        m < n + 1 && #[trigger] candidate(s, nb, ms, m) implies m * best_waves
                        <= best * waves(b, s, m) by {
                        lemma_waves(b, s, m);
                        if m < n {
                            lemma_better_is_best(
                                m,
                                waves(b, s, m),
                                prev as int,
                                prev_waves as int,
                                best as int,
                                best_waves as int,
                            );
                        }
                    }
                }
            }
        }
        n = n + 1;
    }
    let mut n: usize = 1;
    proof {
        lemma_waves(b, s, best as int);
    }
    while n < best
        invariant
            1 <= n <= best <= limit,
            limit == splits_limit(s, nb, ms),
            4 * limit <= isize::MAX,
            0 < batch_nheads_mblocks <= num_sms,
            b == batch_nheads_mblocks,
            s == num_sms,
            nb == num_n_blocks,
            ms == max_splits,
            !nearly_full(b, s),
            candidate(s, nb, ms, best as int),
            best_waves == waves(b, s, best as int),
            1 <= best_waves <= best,
            forall|m: int| #[trigger]
                candidate(s, nb, ms, m) ==> m * best_waves <= best * waves(b, s, m),
            forall|m: int| 1 <= m < n ==> !#[trigger] efficient(b, s, nb, ms, m),
        ensures
            1 <= n <= best,
            n == best || efficient(b, s, nb, ms, n as int),
        decreases best - n,
    {
        if is_eligible(num_n_blocks, n) {
            let w = count_waves(batch_nheads_mblocks, num_sms, n);
            proof {
                assert(20 * (n * best_waves) <= u128::MAX && 17 * (best * w) <= u128::MAX)
                    by (nonlinear_arith)
                    requires
                        0 <= 4 * n <= 0x7fff_ffff_ffff_ffff,
                        0 <= 4 * best <= 0x7fff_ffff_ffff_ffff,
                        0 <= best_waves <= best,
                        0 <= w <= n,
                {
                    assert(n * best_waves <= 0x1fff_ffff_ffff_ffff * 0x1fff_ffff_ffff_ffff);
                    assert(best * w <= 0x1fff_ffff_ffff_ffff * 0x1fff_ffff_ffff_ffff);
                }
                lemma_reaches_85_percent(b, s, n as int, best as int);
            }
            if 20 * (n as u128 * best_waves) >= 17 * (best as u128 * w) {
                proof {
                    assert forall|m: int| #[trigger]
                        candidate(s, nb, ms, m) implies reaches_85_percent(b, s, n as int, m) by {
                        lemma_waves(b, s, m);
                        lemma_reaches_85_percent(b, s, n as int, m);
                        lemma_best_is_enough(
                            n as int,
                            w as int,
                            best as int,
                            best_waves as int,
                            m,
                            waves(b, s, m),
                        );
                    }
                    lemma_least_unique(b, s, nb, ms, n as int);
                }
                return n;
            }
        }
        n = n + 1;
    }
    proof {
        assert forall|m: int| #[trigger] candidate(s, nb, ms, m) implies reaches_85_percent(
            b,
            s,
            best as int,
            m,
        ) by {
            lemma_waves(b, s, m);
            lemma_reaches_85_percent(b, s, best as int, m);
            let x = best * waves(b, s, m);
            let y = m * best_waves;
            assert(x >= y && y >= 0) by (nonlinear_arith)
                requires
                    x >= y,
                    y == m * best_waves,
                    m >= 0,
                    best_waves >= 0,
            ;
        }
        lemma_least_unique(b, s, nb, ms, n as int);
    }
    n
}

/// The head-dim bucket at which the splitkv kernels are dispatched. They exist
/// at 64, 128, 256 and 512 only.
pub open spec fn dispatch_bucket(head_size: int) -> int {
    if head_size <= 64 {
        64
    } else if head_size <= 128 {
        128
    } else if head_size <= 256 {
        256
    } else {
        512
    }
}

/// The head-dim bucket at which the splitkv kernels are dispatched.
pub fn splitkv_dispatch_bucket(head_size: usize) -> (r: usize)
    ensures
        r == dispatch_bucket(head_size as int),
{
    if head_size <= 64 {
        64
    } else if head_size <= 128 {
        128
    } else if head_size <= 256 {
        256
    } else {
        512
    }
}

/// The dense forward may split the K dimension for this head size: the row
/// stride of the split write path, the dispatch bucket, is that of the
/// accumulators, and the kernels have the threads that combining needs.
pub open spec fn split_allowed(head_size: int, head_size_rounded: int) -> bool {
    head_size <= 256 && dispatch_bucket(head_size) == head_size_rounded
}

/// Whether the dense forward may split the K dimension for this head size.
///
/// The split write path strides output rows by the dispatch bucket, the
/// accumulators by `head_size_rounded`: where the two differ, rows past the
/// first would be written out of bounds. Head dims above 256 may run with too
/// few threads for the combine kernel.
pub fn splitkv_allowed(head_size: usize, head_size_rounded: usize) -> (r: bool)
    ensures
        r == split_allowed(head_size as int, head_size_rounded as int),
{
    head_size <= 256 && splitkv_dispatch_bucket(head_size) == head_size_rounded
}

/// The lengths, in elements of the accumulators, of the two buffers that the
/// combine kernel reads: `lse_len` for (num_splits, batch_size, num_heads,
/// seqlen_q), `out_len` for the same with `head_size_rounded` behind.
#[derive(Clone, Copy, Debug, PartialEq, Eq, Structural)]
pub struct SplitKvAccum {
    pub lse_len: usize,
    pub out_len: usize,
}

/// The thread blocks of an unsplit grid.
pub open spec fn grid_blocks(batch_size: int, num_heads: int, seqlen_q: int) -> int {
    batch_size * num_heads * ceil_div(seqlen_q, SPLITKV_BLOCK_M as int)
}

/// The number of splits of a dense forward on `num_sm` multiprocessors, each
/// of which hosts two thread blocks.
pub open spec fn dense_splits(
    num_sm: int,
    batch_size: int,
    num_heads: int,
    head_size: int,
    head_size_rounded: int,
    seqlen_q: int,
    seqlen_k: int,
) -> int {
    if split_allowed(head_size, head_size_rounded) {
        num_splits(
            grid_blocks(batch_size, num_heads, seqlen_q),
            num_sm * 2,
            ceil_div(seqlen_k, SPLITKV_BLOCK_N as int),
            MAX_SPLITS as int,
        )
    } else {
        1
    }
}

/// What `set_params_splitkv` computes is a `usize`.
pub open spec fn split_sizes_fit(
    num_sm: int,
    batch_size: int,
    num_heads: int,
    head_size: int,
    head_size_rounded: int,
    seqlen_q: int,
    seqlen_k: int,
) -> bool {
    split_allowed(head_size, head_size_rounded) ==> {
        let n = dense_splits(
            num_sm,
            batch_size,
            num_heads,
            head_size,
            head_size_rounded,
            seqlen_q,
            seqlen_k,
        );
        &&& num_sm * 2 <= usize::MAX
        &&& batch_size * num_heads <= usize::MAX
        &&& grid_blocks(batch_size, num_heads, seqlen_q) <= usize::MAX
        &&& n > 1 ==> n * batch_size * num_heads * seqlen_q * head_size_rounded <= usize::MAX
    }
}

/// Without thread blocks there is no split.
proof fn lemma_no_blocks_no_split(num_sms: int, num_n_blocks: int, max_splits: int)
    ensures
        num_splits(0, num_sms, num_n_blocks, max_splits) == 1,
{
    if !(nearly_full(0, num_sms) || splits_limit(num_sms, num_n_blocks, max_splits) <= 0) {
        assert(candidate(num_sms, num_n_blocks, max_splits, 1));
        assert forall|m: int| #[trigger]
            candidate(num_sms, num_n_blocks, max_splits, m) implies reaches_85_percent(
            0,
            num_sms,
            1,
            m,
        ) by {
            assert(0 * (num_sms * waves(0, num_sms, m)) == 0);
            assert(0 * (num_sms * waves(0, num_sms, 1)) == 0);
        }
        lemma_least_unique(0, num_sms, num_n_blocks, max_splits, 1);
    }
}

/// The product of factors that are not 0, where it is a `usize`.
fn checked_product(a: usize, b: usize, c: usize, d: usize, e: usize) -> (r: Option<usize>)
    requires
        a > 0,
        b > 0,
        c > 0,
        d > 0,
        e > 0,
    ensures
        match r {
            Some(p) => p == a * b * c * d * e,
            None => a * b * c * d * e > usize::MAX,
        },
{
    proof {
        assert(a * b > 0 && a * b * c > 0 && a * b * c * d > 0 && a * b <= a * b * c && a * b * c
            <= a * b * c * d && a * b * c * d <= a * b * c * d * e) by (nonlinear_arith)
            requires
                a > 0,
                b > 0,
                c > 0,
                d > 0,
                e > 0,
        ;
    }
    let ab = match a.checked_mul(b) {
        Some(p) => p,
        None => return None,
    };
    let abc = match ab.checked_mul(c) {
        Some(p) => p,
        None => return None,
    };
    match abc.checked_mul(d) {
        Some(p) => p.checked_mul(e),
        None => None,
    }
}

/// Whether what `set_params_splitkv` computes is a `usize`.
pub fn can_split(
    num_sm: usize,
    batch_size: usize,
    num_heads: usize,
    head_size: usize,
    head_size_rounded: usize,
    seqlen_q: usize,
    seqlen_k: usize,
) -> (r: bool)
    ensures
        r == split_sizes_fit(
            num_sm as int,
            batch_size as int,
            num_heads as int,
            head_size as int,
            head_size_rounded as int,
            seqlen_q as int,
            seqlen_k as int,
        ),
{
    if !splitkv_allowed(head_size, head_size_rounded) {
        return true;
    }
    let num_sms = match num_sm.checked_mul(2) {
        Some(n) => n,
        None => return false,
    };
    let heads = match batch_size.checked_mul(num_heads) {
        Some(n) => n,
        None => return false,
    };
    let num_m_blocks = div_ceil(seqlen_q, SPLITKV_BLOCK_M);
    let blocks = match heads.checked_mul(num_m_blocks) {
        Some(n) => n,
        None => return false,
    };
    let num_n_blocks = div_ceil(seqlen_k, SPLITKV_BLOCK_N);
    let num_splits = num_splits_heuristic(blocks, num_sms, num_n_blocks, MAX_SPLITS);
    if num_splits <= 1 {
        return true;
    }
    proof {
        lemma_split_factors(
            batch_size as int,
            num_heads as int,
            seqlen_q as int,
            num_sms as int,
            num_n_blocks as int,
        );
    }
    checked_product(num_splits, batch_size, num_heads, seqlen_q, head_size_rounded).is_some()
}

/// Where there are several splits there are sequences, heads and positions.
proof fn lemma_split_factors(
    batch_size: int,
    num_heads: int,
    seqlen_q: int,
    num_sms: int,
    num_n_blocks: int,
)
    requires
        batch_size >= 0,
        num_heads >= 0,
        seqlen_q >= 0,
        num_splits(
            grid_blocks(batch_size, num_heads, seqlen_q),
            num_sms,
            num_n_blocks,
            MAX_SPLITS as int,
        ) != 1,
    ensures
        batch_size > 0,
        num_heads > 0,
        seqlen_q > 0,
{
    let m = ceil_div(seqlen_q, SPLITKV_BLOCK_M as int);
    lemma_ceil_div(seqlen_q, SPLITKV_BLOCK_M as int);
    if batch_size * num_heads * m == 0 {
        lemma_no_blocks_no_split(num_sms, num_n_blocks, MAX_SPLITS as int);
    }
    assert(batch_size > 0 && num_heads > 0 && m > 0) by (nonlinear_arith)
        requires
            batch_size >= 0,
            num_heads >= 0,
            m >= 0,
            batch_size * num_heads * m != 0,
    ;
    if seqlen_q == 0 {
        assert(ceil_div(0, SPLITKV_BLOCK_M as int) == 0);
    }
}

/// Decides whether the dense forward splits the K dimension across the
/// `num_sm` multiprocessors and, if so, how long the two accumulator buffers
/// are. With one split there are none.
pub fn set_params_splitkv(
    num_sm: usize,
    batch_size: usize,
    num_heads: usize,
    head_size: usize,
    head_size_rounded: usize,
    seqlen_q: usize,
    seqlen_k: usize,
) -> (r: (i32, Option<SplitKvAccum>))
    requires
        split_sizes_fit(
            num_sm as int,
            batch_size as int,
            num_heads as int,
            head_size as int,
            head_size_rounded as int,
            seqlen_q as int,
            seqlen_k as int,
        ),
    ensures
        r.0 == dense_splits(
            num_sm as int,
            batch_size as int,
            num_heads as int,
            head_size as int,
            head_size_rounded as int,
            seqlen_q as int,
            seqlen_k as int,
        ),
        1 <= r.0 <= MAX_SPLITS,
        match r.1 {
            None => r.0 == 1,
            Some(accum) => {
                &&& r.0 > 1
                &&& accum.lse_len == r.0 * batch_size * num_heads * seqlen_q
                &&& accum.out_len == accum.lse_len * head_size_rounded
            },
        },
{
    if !splitkv_allowed(head_size, head_size_rounded) {
        return (1, None);
    }
    let num_n_blocks = div_ceil(seqlen_k, SPLITKV_BLOCK_N);
    let num_m_blocks = div_ceil(seqlen_q, SPLITKV_BLOCK_M);
    let num_splits = num_splits_heuristic(
        batch_size * num_heads * num_m_blocks,
        num_sm * 2,
        num_n_blocks,
        MAX_SPLITS,
    );
    if num_splits <= 1 {
        return (1, None);
    }
    let ghost n = num_splits as int;
    let ghost b = batch_size as int;
    let ghost h = num_heads as int;
    let ghost q = seqlen_q as int;
    let ghost d = head_size_rounded as int;
    proof {
        lemma_split_factors(b, h, q, num_sm * 2, num_n_blocks as int);
        assert(n * b <= n * b * h && n * b * h <= n * b * h * q && n * b * h * q <= n * b * h * q
            * d) by (nonlinear_arith)
            requires
                n > 0,
                b > 0,
                h > 0,
                q > 0,
                d > 0,
        ;
    }
    let lse_len: usize = num_splits * batch_size * num_heads * seqlen_q;
    let out_len: usize = lse_len * head_size_rounded;
    (num_splits as i32, Some(SplitKvAccum { lse_len, out_len }))
}

/// The splitkv kernels are dispatched at a bucket that holds the head.
pub proof fn bucket_holds_head(head_size: int)
    requires
        head_size <= 512,
    ensures
        head_size <= dispatch_bucket(head_size) <= 512,
        forall|other: int| #[trigger]
            dispatch_bucket(other) >= head_size ==> dispatch_bucket(other) >= dispatch_bucket(
                head_size,
            ),
{
}

/// Only the head sizes whose rounding to a multiple of 32 is itself a bucket
/// split: 33 to 64, 97 to 128 and 225 to 256.
pub proof fn split_head_sizes(head_size: int)
    requires
        0 <= head_size,
    ensures
        split_allowed(head_size, ceil_div(head_size, 32) * 32) <==> (33 <= head_size <= 64 || 97
            <= head_size <= 128 || 225 <= head_size <= 256),
{
    lemma_ceil_div(head_size, 32);
}

/// A candidate up to `n` with the best occupancy.
proof fn lemma_best(
    blocks: int,
    num_sms: int,
    num_n_blocks: int,
    max_splits: int,
    n: int,
) -> (best: int)
    requires
        0 < blocks <= num_sms,
        1 <= n <= splits_limit(num_sms, num_n_blocks, max_splits),
    ensures
        best <= n,
        candidate(num_sms, num_n_blocks, max_splits, best),
        forall|m: int|
            m <= n && #[trigger] candidate(num_sms, num_n_blocks, max_splits, m) ==> m * waves(
                blocks,
                num_sms,
                best,
            ) <= best * waves(blocks, num_sms, m),
    decreases n,
{
    if n == 1 {
        assert(candidate(num_sms, num_n_blocks, max_splits, 1));
        1
    } else {
        let prev = lemma_best(blocks, num_sms, num_n_blocks, max_splits, n - 1);
        let wp = waves(blocks, num_sms, prev);
        let wn = waves(blocks, num_sms, n);
        lemma_waves(blocks, num_sms, prev);
        lemma_waves(blocks, num_sms, n);
        if candidate(num_sms, num_n_blocks, max_splits, n) && n * wp > prev * wn {
            assert forall|m: int|
                m <= n && #[trigger] candidate(num_sms, num_n_blocks, max_splits, m) implies m * wn
                <= n * waves(blocks, num_sms, m) by {
                lemma_waves(blocks, num_sms, m);
                if m < n {
                    lemma_better_is_best(m, waves(blocks, num_sms, m), prev, wp, n, wn);
                }
            }
            n
        } else {
            prev
        }
    }
}

/// What is better than the best so far is better than all so far.
proof fn lemma_better_is_best(m: int, wm: int, prev: int, wp: int, n: int, wn: int)
    requires
        m * wp <= prev * wm,
        n * wp > prev * wn,
        0 < wp,
        0 < wn,
        0 < wm,
        0 < m,
        0 < prev,
        0 < n,
    ensures
        m * wn <= n * wm,
{
    assert(m * wn <= n * wm) by (nonlinear_arith)
        requires
            m * wp <= prev * wm,
            n * wp > prev * wn,
            0 < wp,
            0 < wn,
            0 < wm,
            0 < m,
            0 < prev,
            0 < n,
    {
        assert((m * wp) * wn <= (prev * wm) * wn);
        assert((prev * wn) * wm <= (n * wp) * wm);
        assert((prev * wm) * wn == (prev * wn) * wm);
        assert((m * wn) * wp == (m * wp) * wn);
        assert((n * wm) * wp == (n * wp) * wm);
    }
}

/// Below an efficient split count there is a smallest one.
proof fn lemma_least_exists(
    blocks: int,
    num_sms: int,
    num_n_blocks: int,
    max_splits: int,
    r: int,
) -> (least: int)
    requires
        exists|n: int|
            n <= r && #[trigger] efficient(blocks, num_sms, num_n_blocks, max_splits, n),
    ensures
        least_efficient(blocks, num_sms, num_n_blocks, max_splits, least),
    decreases r,
{
    if exists|n: int|
        n <= r - 1 && #[trigger] efficient(blocks, num_sms, num_n_blocks, max_splits, n) {
        lemma_least_exists(blocks, num_sms, num_n_blocks, max_splits, r - 1)
    } else {
        r
    }
}

/// The heuristic never asks for more splits than the cap, the multiprocessors
/// or the K blocks, and asks for none of them when the grid is nearly full.
pub proof fn splits_are_capped(blocks: int, num_sms: int, num_n_blocks: int, max_splits: int)
    requires
        0 <= blocks,
    ensures
        nearly_full(blocks, num_sms) ==> num_splits(blocks, num_sms, num_n_blocks, max_splits)
            == 1,
        num_splits(blocks, num_sms, num_n_blocks, max_splits) >= 1,
        num_splits(blocks, num_sms, num_n_blocks, max_splits) == 1 || {
            &&& num_splits(blocks, num_sms, num_n_blocks, max_splits) <= max_splits
            &&& num_splits(blocks, num_sms, num_n_blocks, max_splits) <= num_sms
            &&& num_splits(blocks, num_sms, num_n_blocks, max_splits) <= num_n_blocks
        },
{
    if !nearly_full(blocks, num_sms) && splits_limit(num_sms, num_n_blocks, max_splits) > 0 {
        if blocks == 0 {
            lemma_no_blocks_no_split(num_sms, num_n_blocks, max_splits);
        } else {
            let best = lemma_best(
                blocks,
                num_sms,
                num_n_blocks,
                max_splits,
                splits_limit(num_sms, num_n_blocks, max_splits),
            );
            lemma_waves(blocks, num_sms, best);
            assert forall|m: int| #[trigger]
                candidate(num_sms, num_n_blocks, max_splits, m) implies reaches_85_percent(
                blocks,
                num_sms,
                best,
                m,
            ) by {
                lemma_waves(blocks, num_sms, m);
                lemma_reaches_85_percent(blocks, num_sms, best, m);
                let y = m * waves(blocks, num_sms, best);
                assert(y >= 0) by (nonlinear_arith)
                    requires
                        y == m * waves(blocks, num_sms, best),
                        m >= 0,
                        waves(blocks, num_sms, best) >= 0,
                ;
            }
            assert(efficient(blocks, num_sms, num_n_blocks, max_splits, best));
            let least = lemma_least_exists(blocks, num_sms, num_n_blocks, max_splits, best);
            lemma_least_unique(blocks, num_sms, num_n_blocks, max_splits, least);
        }
    }
}

/// The K blocks of each of `n` splits.
pub open spec fn per_split(num_n_blocks: int, n: int) -> int {
    (num_n_blocks + n - 1) / n
}

/// The rounds in which `num_sms` multiprocessors run the thread blocks of `n` splits.
pub open spec fn rounds_of(blocks: int, num_sms: int, n: int) -> int {
    (blocks * n + num_sms - 1) / num_sms
}

/// A number of splits that is at most the number of multiprocessors, of K blocks and
/// the cap, and that leaves each split fewer K blocks than one split less does.
pub open spec fn worth_trying(num_sms: int, num_n_blocks: int, max_splits: int, n: int) -> bool {
    &&& 1 <= n <= max_splits
    &&& n <= num_sms
    &&& n <= num_n_blocks
    &&& n > 1 ==> per_split(num_n_blocks, n) != per_split(num_n_blocks, n - 1)
}

/// Where the grid fills four fifths of the multiprocessors nothing is split. Where it
/// does not, the number of splits is the least worth trying that has 85 percent of the
/// occupancy of each one worth trying, where the occupancy is in proportion to the
/// splits over the rounds.
pub proof fn splits_by_occupancy(
    blocks: int,
    num_sms: int,
    num_n_blocks: int,
    max_splits: int,
)
    requires
        0 < blocks,
        0 < num_sms,
        0 < num_n_blocks,
        0 < max_splits,
        blocks * 5 <= usize::MAX,
        num_sms * 4 <= usize::MAX,
    ensures
        ({
            let r = num_splits(blocks, num_sms, num_n_blocks, max_splits);
            &&& 5 * blocks >= 4 * num_sms ==> r == 1
            &&& 5 * blocks < 4 * num_sms ==> {
                &&& worth_trying(num_sms, num_n_blocks, max_splits, r)
                &&& forall|m: int| #[trigger]
                    worth_trying(num_sms, num_n_blocks, max_splits, m) ==> 20 * (r * rounds_of(
                        blocks,
                        num_sms,
                        m,
                    )) >= 17 * (m * rounds_of(blocks, num_sms, r))
                &&& forall|n: int|
                    n < r && #[trigger] worth_trying(num_sms, num_n_blocks, max_splits, n)
                        ==> exists|m: int| #[trigger]
                        worth_trying(num_sms, num_n_blocks, max_splits, m) && 20 * (n * rounds_of(
                            blocks,
                            num_sms,
                            m,
                        )) < 17 * (m * rounds_of(blocks, num_sms, n))
            }
        }),
{
    let r = num_splits(blocks, num_sms, num_n_blocks, max_splits);
    assert forall|n: int| #[trigger]
        worth_trying(num_sms, num_n_blocks, max_splits, n) == candidate(
            num_sms,
            num_n_blocks,
            max_splits,
            n,
        ) by {}
    if 5 * blocks < 4 * num_sms {
        let best = lemma_best(
            blocks,
            num_sms,
            num_n_blocks,
            max_splits,
            splits_limit(num_sms, num_n_blocks, max_splits),
        );
        lemma_waves(blocks, num_sms, best);
        assert forall|m: int| #[trigger]
            candidate(num_sms, num_n_blocks, max_splits, m) implies reaches_85_percent(
            blocks,
            num_sms,
            best,
            m,
        ) by {
            lemma_waves(blocks, num_sms, m);
            lemma_reaches_85_percent(blocks, num_sms, best, m);
            let y = m * waves(blocks, num_sms, best);
            assert(y >= 0) by (nonlinear_arith)
                requires
                    y == m * waves(blocks, num_sms, best),
                    m >= 0,
                    waves(blocks, num_sms, best) >= 0,
            ;
        }
        assert(efficient(blocks, num_sms, num_n_blocks, max_splits, best));
        let least = lemma_least_exists(blocks, num_sms, num_n_blocks, max_splits, best);
        lemma_least_unique(blocks, num_sms, num_n_blocks, max_splits, least);
        assert(efficient(blocks, num_sms, num_n_blocks, max_splits, r));
        assert forall|m: int| #[trigger]
            worth_trying(num_sms, num_n_blocks, max_splits, m) implies 20 * (r * rounds_of(
            blocks,
            num_sms,
            m,
        )) >= 17 * (m * rounds_of(blocks, num_sms, r)) by {
            assert(candidate(num_sms, num_n_blocks, max_splits, m));
            lemma_reaches_85_percent(blocks, num_sms, r, m);
        }
        assert forall|n: int|
            n < r && #[trigger] worth_trying(
                num_sms,
                num_n_blocks,
                max_splits,
                n,
            ) implies exists|m: int| #[trigger]
            worth_trying(num_sms, num_n_blocks, max_splits, m) && 20 * (n * rounds_of(
                blocks,
                num_sms,
                m,
            )) < 17 * (m * rounds_of(blocks, num_sms, n)) by {
            assert(!efficient(blocks, num_sms, num_n_blocks, max_splits, n));
            let m = choose|m: int| #[trigger]
                candidate(num_sms, num_n_blocks, max_splits, m) && !reaches_85_percent(
                    blocks,
                    num_sms,
                    n,
                    m,
                );
            lemma_reaches_85_percent(blocks, num_sms, n, m);
            assert(worth_trying(num_sms, num_n_blocks, max_splits, m));
        }
    }
}

/// A dense forward counts a thread block for each 64 queries of each head of each
/// sequence, two multiprocessor places for each multiprocessor, and a K block for each
/// 32 keys, and never has more than 128 splits; head sizes at which the split kernels
/// do not write as the accumulators lie are not split.
pub proof fn splits_of_a_forward(
    num_sm: int,
    batch_size: int,
    num_heads: int,
    head_size: int,
    seqlen_q: int,
    seqlen_k: int,
    m_blocks: int,
    n_blocks: int,
)
    requires
        0 <= seqlen_q,
        0 <= seqlen_k,
        0 <= head_size,
        64 * (m_blocks - 1) < seqlen_q <= 64 * m_blocks,
        32 * (n_blocks - 1) < seqlen_k <= 32 * n_blocks,
    ensures
        dense_splits(
            num_sm,
            batch_size,
            num_heads,
            head_size,
            ceil_div(head_size, 32) * 32,
            seqlen_q,
            seqlen_k,
        ) == if 33 <= head_size <= 64 || 97 <= head_size <= 128 || 225 <= head_size <= 256 {
            num_splits(batch_size * num_heads * m_blocks, num_sm * 2, n_blocks, 128)
        } else {
            1
        },
{
    split_head_sizes(head_size);
    lemma_ceil_div(seqlen_q, 64);
    lemma_ceil_div(seqlen_k, 32);
}

/// A forward can be asked how it splits where its thread blocks, and the accumulators
/// of as many splits as there can be, are counted by a `usize`.
pub proof fn splits_are_possible(
    num_sm: int,
    batch_size: int,
    num_heads: int,
    head_size: int,
    head_size_rounded: int,
    seqlen_q: int,
    seqlen_k: int,
)
    requires
        0 <= num_sm,
        0 <= batch_size,
        0 <= num_heads,
        0 <= head_size_rounded,
        0 <= seqlen_q,
        0 <= seqlen_k,
        num_sm * 2 <= usize::MAX,
        batch_size * num_heads * (seqlen_q + 1) <= usize::MAX,
        128 * batch_size * num_heads * seqlen_q * head_size_rounded <= usize::MAX,
    ensures
        split_sizes_fit(
            num_sm,
            batch_size,
            num_heads,
            head_size,
            head_size_rounded,
            seqlen_q,
            seqlen_k,
        ),
{
    let n = dense_splits(
        num_sm,
        batch_size,
        num_heads,
        head_size,
        head_size_rounded,
        seqlen_q,
        seqlen_k,
    );
    let m = ceil_div(seqlen_q, 64);
    lemma_ceil_div(seqlen_q, 64);
    let bh = batch_size * num_heads;
    assert(0 <= bh && bh <= bh * (seqlen_q + 1) && bh * m <= bh * (seqlen_q + 1))
        by (nonlinear_arith)
        requires
            bh == batch_size * num_heads,
            0 <= batch_size,
            0 <= num_heads,
            0 <= seqlen_q,
            0 <= m <= seqlen_q + 1,
    ;
    assert(0 <= bh * m) by (nonlinear_arith)
        requires
            0 <= bh,
            0 <= m,
    ;
    splits_are_capped(bh * m, num_sm * 2, ceil_div(seqlen_k, 32), 128);
    if n > 1 {
        let x = bh * seqlen_q * head_size_rounded;
        assert(x >= 0) by (nonlinear_arith)
            requires
                x == bh * seqlen_q * head_size_rounded,
                bh >= 0,
                seqlen_q >= 0,
                head_size_rounded >= 0,
        ;
        assert(n * batch_size * num_heads * seqlen_q * head_size_rounded == n * x)
            by (nonlinear_arith)
            requires
                x == bh * seqlen_q * head_size_rounded,
                bh == batch_size * num_heads,
        ;
        assert(128 * batch_size * num_heads * seqlen_q * head_size_rounded == 128 * x)
            by (nonlinear_arith)
            requires
                x == bh * seqlen_q * head_size_rounded,
                bh == batch_size * num_heads,
        ;
        assert(n * x <= 128 * x) by (nonlinear_arith)
            requires
                n <= 128,
                x >= 0,
        ;
    }
}

} // verus!
