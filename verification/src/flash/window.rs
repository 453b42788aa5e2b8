//! The attention window as the kernels take it.

use vstd::prelude::*;

verus! {

/// The window of a launch: how far to the left and to the right of its own
/// position a query looks, -1 for as far as there is.
#[derive(Clone, Copy, Debug, PartialEq, Eq, Structural)]
pub struct Window {
    pub left: i32,
    pub right: i32,
    pub is_causal: bool,
}

/// One side of the window: -1 where there is no limit, or one beyond the keys.
pub open spec fn side(limit: Option<usize>, seqlen_k: usize) -> i32 {
    match limit {
        Some(v) => if v <= seqlen_k {
            v as i32
        } else {
            -1i32
        },
        None => -1i32,
    }
}

/// The window for the two limits. With prefix ranges, a causal window becomes
/// a local one that reaches over all keys on the left. Causal is the window
/// without a limit on the left and with the limit 0 on the right; where only
/// one side has a limit, the other one reaches over all keys.
pub open spec fn window_of(
    left: Option<usize>,
    right: Option<usize>,
    seqlen_k: usize,
    prefix_ranges: bool,
) -> Window {
    let r = side(right, seqlen_k);
    let l = if prefix_ranges && side(left, seqlen_k) < 0 && r == 0 {
        seqlen_k as i32
    } else {
        side(left, seqlen_k)
    };
    let reach_left = if l < 0 && r >= 0 {
        seqlen_k as i32
    } else {
        l
    };
    let reach_right = if reach_left >= 0 && r < 0 {
        seqlen_k as i32
    } else {
        r
    };
    Window { left: reach_left, right: reach_right, is_causal: l < 0 && r == 0 }
}

fn limit_side(limit: Option<usize>, seqlen_k: usize) -> (r: i32)
    ensures
        r == side(limit, seqlen_k),
{
    match limit {
        Some(v) => if v <= seqlen_k {
            v as i32
        } else {
            -1
        },
        None => -1,
    }
}

/// The window for the two limits; see `window_of`.
pub fn normalise_window(
    left: Option<usize>,
    right: Option<usize>,
    seqlen_k: usize,
    prefix_ranges: bool,
) -> (w: Window)
    ensures
        w == window_of(left, right, seqlen_k, prefix_ranges),
{
    let mut window_left: i32 = limit_side(left, seqlen_k);
    let mut window_right: i32 = limit_side(right, seqlen_k);
    if prefix_ranges && window_left < 0 && window_right == 0 {
        window_left = seqlen_k as i32;
    }
    let is_causal = window_left < 0 && window_right == 0;
    if window_left < 0 && window_right >= 0 {
        window_left = seqlen_k as i32;
    }
    if window_left >= 0 && window_right < 0 {
        window_right = seqlen_k as i32;
    }
    Window { left: window_left, right: window_right, is_causal }
}

/// `None` on the left with `Some(0)` on the right applies a causal mask, and
/// nothing else does but a limit on the left that is beyond the keys.
pub proof fn causal_window(
    left: Option<usize>,
    right: Option<usize>,
    seqlen_k: usize,
    prefix_ranges: bool,
)
    requires
        seqlen_k <= i32::MAX,
    ensures
        window_of(left, right, seqlen_k, prefix_ranges).is_causal <==> {
            &&& !prefix_ranges
            &&& right == Some(0usize)
            &&& match left {
                None => true,
                Some(v) => v > seqlen_k,
            }
        },
        window_of(left, right, seqlen_k, prefix_ranges).is_causal ==> {
            &&& window_of(left, right, seqlen_k, prefix_ranges).left == seqlen_k
            &&& window_of(left, right, seqlen_k, prefix_ranges).right == 0
        },
{
}

/// Without limits the window is open on both sides; with a limit on a side
/// both sides are closed, the other one by the number of keys.
pub proof fn window_sides(
    left: Option<usize>,
    right: Option<usize>,
    seqlen_k: usize,
    prefix_ranges: bool,
)
    requires
        seqlen_k <= i32::MAX,
    ensures
        ({
            let w = window_of(left, right, seqlen_k, prefix_ranges);
            let l = side(left, seqlen_k);
            let r = side(right, seqlen_k);
            &&& l < 0 && r < 0 ==> w == (Window { left: -1i32, right: -1i32, is_causal: false })
            &&& l >= 0 || r >= 0 ==> {
                &&& w.left == (if l >= 0 { l as int } else { seqlen_k as int })
                &&& w.right == (if r >= 0 { r as int } else { seqlen_k as int })
            }
        }),
{
}

/// A limit beyond the keys is no limit.
pub proof fn oversized_limit_is_none(
    left: usize,
    right: Option<usize>,
    seqlen_k: usize,
    prefix_ranges: bool,
)
    requires
        left > seqlen_k,
    ensures
        window_of(Some(left), right, seqlen_k, prefix_ranges) == window_of(
            None,
            right,
            seqlen_k,
            prefix_ranges,
        ),
        window_of(right, Some(left), seqlen_k, prefix_ranges) == window_of(
            right,
            None,
            seqlen_k,
            prefix_ranges,
        ),
{
}

} // verus!
