//! The scalar arguments of the attention kernel.

use vstd::prelude::*;

verus! {

/// The bits of an `f32`.
pub type F32Bits = u32;

/// The arguments of the kernel other than pointers, under its own names. The
/// strides count elements; `d` is the head size.
#[derive(Clone, Copy, Debug, PartialEq, Eq, Structural)]
pub struct MhaParams {
    pub q_batch_stride: u32,
    pub k_batch_stride: u32,
    pub v_batch_stride: u32,
    pub o_batch_stride: u32,
    pub alibi_slopes_batch_stride: u32,
    pub q_row_stride: u32,
    pub k_row_stride: u32,
    pub v_row_stride: u32,
    pub o_row_stride: u32,
    pub q_head_stride: u32,
    pub k_head_stride: u32,
    pub v_head_stride: u32,
    pub o_head_stride: u32,
    pub b: u32,
    pub h: u32,
    pub h_k: u32,
    pub d: u32,
    pub d_rounded: u32,
    pub softmax_scale: F32Bits,
    pub seqlen_q: u32,
    pub seqlen_k: u32,
    pub seqlen_q_rounded: u32,
    pub seqlen_k_rounded: u32,
    pub total_q: u32,
    pub is_bf16: i32,
    pub is_causal: i32,
    pub unpadded_lse: i32,
    pub window_size_left: i32,
    pub window_size_right: i32,
    pub softcap: F32Bits,
    pub block_table_batch_stride: u32,
    pub page_block_size: i32,
    pub mm_prefix_range_batch_stride: u32,
    pub max_mm_prefix_ranges: i32,
    pub num_splits: i32,
    pub force_split_kernel: i32,
}

/// A flag as the kernel takes it.
pub open spec fn flag_of(b: bool) -> i32 {
    if b {
        1
    } else {
        0
    }
}

/// A flag as the kernel takes it.
pub fn flag(b: bool) -> (r: i32)
    ensures
        r == flag_of(b),
{
    if b {
        1
    } else {
        0
    }
}

/// The softcap as the kernel takes it: 0 for none.
pub open spec fn softcap_of(softcap: Option<F32Bits>) -> F32Bits {
    match softcap {
        Some(v) => v,
        None => 0,
    }
}

/// The softcap as the kernel takes it: 0 for none.
pub fn softcap_or_zero(softcap: Option<F32Bits>) -> (r: F32Bits)
    ensures
        r == softcap_of(softcap),
{
    match softcap {
        Some(v) => v,
        None => 0,
    }
}

} // verus!
