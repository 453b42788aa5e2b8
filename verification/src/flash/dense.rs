//! Flash attention on batches of sequences of one length.

use crate::dtype::{is_bf16, is_f16, is_f32};
use crate::flash::desc::{Placement, TensorDesc};
use crate::flash::error::{FlashError, Operand};
use crate::flash::meaning::{dense_launches_do, does_dense};
use crate::flash::params::{flag, flag_of, softcap_of, softcap_or_zero, F32Bits, MhaParams};
use crate::flash::splitkv::{
    can_split, dense_splits, set_params_splitkv, split_allowed, split_sizes_fit, splitkv_allowed,
    SplitKvAccum,
};
use crate::flash::window::{normalise_window, window_of};
use crate::math::{ceil_div, div_ceil, lemma_ceil_div, round_multiple};
use crate::shape::{count_elems, elem_count, fits, nonzero_product};
use candle_core::DType;
use vstd::prelude::*;

verus! {

/// Scaled dot-product attention, `softmax(Q @ K^T . softmax_scale) @ V`.
#[derive(Debug)]
pub struct FlashAttn {
    pub softmax_scale: F32Bits,
    pub alibi_slopes: Option<TensorDesc>,
    pub window_size_left: Option<usize>,
    pub window_size_right: Option<usize>,
    pub softcap: Option<F32Bits>,
}

/// The sizes on which the number of splits depends.
#[derive(Clone, Copy, Debug, PartialEq, Eq, Structural)]
pub struct DenseSizes {
    pub batch_size: usize,
    pub num_heads: usize,
    pub head_size: usize,
    pub head_size_rounded: usize,
    pub seqlen_q: usize,
    pub seqlen_k: usize,
}

/// A launch of the dense kernel: its scalar arguments, where in their storages
/// the operands start, and the lengths of the buffers to allocate.
#[derive(Debug)]
pub struct DenseCall {
    pub params: MhaParams,
    pub q_offset: usize,
    pub k_offset: usize,
    pub v_offset: usize,
    pub alibi_offset: Option<usize>,
    pub out_dims: Vec<usize>,
    pub out_len: usize,
    pub lse_len: usize,
    pub sizes: DenseSizes,
    pub accum: Option<SplitKvAccum>,
}

/// The first reason to refuse q, k and v for their place and element type.
pub open spec fn operand_error(q: &TensorDesc, k: &TensorDesc, v: &TensorDesc) -> Option<
    FlashError,
> {
    if k.placement != q.placement {
        Some(FlashError::DeviceMismatch(Operand::K))
    } else if v.placement != q.placement {
        Some(FlashError::DeviceMismatch(Operand::V))
    } else if q.placement is Cpu {
        Some(FlashError::NoCpuSupport)
    } else if q.placement is Metal {
        Some(FlashError::NoMetalImplementation)
    } else if q.dtype != DType::F16 && q.dtype != DType::BF16 {
        Some(FlashError::UnsupportedDType(q.dtype))
    } else {
        None
    }
}

/// The first reason to refuse k and v for an element type other than q's.
pub open spec fn dtype_error(q: &TensorDesc, k: &TensorDesc, v: &TensorDesc) -> Option<
    FlashError,
> {
    if k.dtype != q.dtype {
        Some(
            FlashError::UnexpectedDType { operand: Operand::K, expected: q.dtype, got: k.dtype },
        )
    } else if v.dtype != q.dtype {
        Some(
            FlashError::UnexpectedDType { operand: Operand::V, expected: q.dtype, got: v.dtype },
        )
    } else {
        None
    }
}

/// The first operand of q, k and v whose last dim has gaps.
pub open spec fn last_dim_error(q: &TensorDesc, k: &TensorDesc, v: &TensorDesc) -> Option<
    FlashError,
> {
    if !q.last_dim_contiguous() {
        Some(FlashError::LastDimNotContiguous(Operand::Q))
    } else if !k.last_dim_contiguous() {
        Some(FlashError::LastDimNotContiguous(Operand::K))
    } else if !v.last_dim_contiguous() {
        Some(FlashError::LastDimNotContiguous(Operand::V))
    } else {
        None
    }
}

/// The reason to refuse a head size.
pub open spec fn head_size_error(head_size: usize) -> Option<FlashError> {
    if head_size > 512 {
        Some(FlashError::HeadTooLarge(head_size))
    } else if head_size % 8 != 0 {
        Some(FlashError::HeadNotMultiple(head_size))
    } else {
        None
    }
}

/// The first reason to refuse alibi slopes: they are f32, one per head of q,
/// on a cuda device.
pub open spec fn alibi_error(alibi_slopes: Option<TensorDesc>, num_heads: usize) -> Option<
    FlashError,
> {
    match alibi_slopes {
        None => None,
        Some(a) => if a.dtype != DType::F32 {
            Some(FlashError::AlibiDType(a.dtype))
        } else if a.dims@.len() != 1 {
            Some(
                FlashError::UnexpectedNumDims {
                    operand: Operand::AlibiSlopes,
                    wanted: 1,
                    rank: a.dims.len(),
                },
            )
        } else if a.dims@[0] != num_heads {
            Some(FlashError::AlibiShape { num_heads, slopes: a.dims@[0] })
        } else if !a.on_cuda() {
            Some(FlashError::NotCuda(Operand::AlibiSlopes))
        } else {
            None
        },
    }
}

/// The first reason to refuse the shapes of q, k and v: all have rank 4, q is
/// (batch, seqlen_q, heads, head_size) and k and v are both
/// (batch, seqlen_k, heads_k, head_size).
pub open spec fn dense_shape_error(q: &TensorDesc, k: &TensorDesc, v: &TensorDesc) -> Option<
    FlashError,
> {
    let q_rank = q.dims.len();
    let k_rank = k.dims.len();
    let v_rank = v.dims.len();
    if q_rank != 4 || k_rank != 4 || v_rank != 4 {
        Some(FlashError::Rank { q: q_rank, k: k_rank, v: v_rank })
    } else if last_dim_error(q, k, v) is Some {
        last_dim_error(q, k, v)
    } else if k.dims@[0] != q.dims@[0] || k.dims@[3] != q.dims@[3] {
        Some(FlashError::ShapeMismatch(Operand::Q, Operand::K))
    } else if v.dims@ != k.dims@ {
        Some(FlashError::ShapeMismatch(Operand::Q, Operand::V))
    } else {
        head_size_error(q.dims@[3])
    }
}

/// The first reason to refuse a launch, up to the counts of heads.
pub open spec fn dense_operand_error(q: &TensorDesc, k: &TensorDesc, v: &TensorDesc) -> Option<
    FlashError,
> {
    if operand_error(q, k, v) is Some {
        operand_error(q, k, v)
    } else if dtype_error(q, k, v) is Some {
        dtype_error(q, k, v)
    } else {
        dense_shape_error(q, k, v)
    }
}

/// The first reason to refuse a launch.
pub open spec fn dense_error(
    op: &FlashAttn,
    q: &TensorDesc,
    k: &TensorDesc,
    v: &TensorDesc,
) -> Option<FlashError> {
    if dense_operand_error(q, k, v) is Some {
        dense_operand_error(q, k, v)
    } else if q.dims@[2] % k.dims@[2] != 0 {
        Some(FlashError::HeadCounts { q: q.dims@[2], kv: k.dims@[2] })
    } else {
        alibi_error(op.alibi_slopes, q.dims@[2])
    }
}

/// `n` rounded up to a multiple of 128 is a `usize`.
pub open spec fn rounds(n: usize) -> bool {
    ceil_div(n as int, 128) * 128 <= usize::MAX
}

/// An optional descriptor is of a tensor.
pub open spec fn well_formed_option(t: Option<TensorDesc>) -> bool {
    match t {
        Some(t) => t.well_formed(),
        None => true,
    }
}

/// What a launch needs of its operands: tensors, at least one k/v head, and
/// sequences that can be rounded up.
pub open spec fn dense_fits(
    op: &FlashAttn,
    q: &TensorDesc,
    k: &TensorDesc,
    v: &TensorDesc,
) -> bool {
    &&& q.well_formed()
    &&& k.well_formed()
    &&& v.well_formed()
    &&& well_formed_option(op.alibi_slopes)
    &&& dense_operand_error(q, k, v) is None ==> k.dims@[2] != 0
    &&& dense_error(op, q, k, v) is None ==> rounds(q.dims@[1]) && rounds(k.dims@[1])
}

/// The head size, rounded up to a multiple of 8 and then of 32.
pub open spec fn rounded_head_size(head_size: usize) -> int {
    ceil_div(ceil_div(head_size as int, 8) * 8, 32) * 32
}

/// The scalar arguments of the launch, with one split.
pub open spec fn dense_params(
    op: &FlashAttn,
    q: &TensorDesc,
    k: &TensorDesc,
    v: &TensorDesc,
) -> MhaParams {
    let batch = q.dims@[0];
    let seqlen_q = q.dims@[1];
    let heads = q.dims@[2];
    let head_size = q.dims@[3];
    let seqlen_k = k.dims@[1];
    let window = window_of(op.window_size_left, op.window_size_right, seqlen_k, false);
    MhaParams {
        q_batch_stride: q.strides@[0] as u32,
        k_batch_stride: k.strides@[0] as u32,
        v_batch_stride: v.strides@[0] as u32,
        o_batch_stride: (seqlen_q * heads * head_size) as u32,
        alibi_slopes_batch_stride: 0,
        q_row_stride: q.strides@[1] as u32,
        k_row_stride: k.strides@[1] as u32,
        v_row_stride: v.strides@[1] as u32,
        o_row_stride: (heads * head_size) as u32,
        q_head_stride: q.strides@[2] as u32,
        k_head_stride: k.strides@[2] as u32,
        v_head_stride: v.strides@[2] as u32,
        o_head_stride: head_size as u32,
        b: batch as u32,
        h: heads as u32,
        h_k: k.dims@[2] as u32,
        d: head_size as u32,
        d_rounded: rounded_head_size(head_size) as u32,
        softmax_scale: op.softmax_scale,
        seqlen_q: seqlen_q as u32,
        seqlen_k: seqlen_k as u32,
        seqlen_q_rounded: (ceil_div(seqlen_q as int, 128) * 128) as u32,
        seqlen_k_rounded: (ceil_div(seqlen_k as int, 128) * 128) as u32,
        total_q: (batch * seqlen_q) as u32,
        is_bf16: flag_of(q.dtype == DType::BF16),
        is_causal: flag_of(window.is_causal),
        unpadded_lse: 0,
        window_size_left: window.left,
        window_size_right: window.right,
        softcap: softcap_of(op.softcap),
        block_table_batch_stride: 0,
        page_block_size: -1i32,
        mm_prefix_range_batch_stride: 0,
        max_mm_prefix_ranges: 0,
        num_splits: 1,
        force_split_kernel: 0,
    }
}

/// Where an optional tensor starts in its storage.
pub open spec fn start_of(t: Option<TensorDesc>) -> Option<usize> {
    match t {
        Some(t) => Some(t.start_offset),
        None => None,
    }
}

impl DenseSizes {
    /// The sizes that q and k fix.
    pub open spec fn describes(self, q: &TensorDesc, k: &TensorDesc) -> bool {
        &&& self.batch_size == q.dims@[0]
        &&& self.num_heads == q.dims@[2]
        &&& self.head_size == q.dims@[3]
        &&& self.head_size_rounded == rounded_head_size(q.dims@[3])
        &&& self.seqlen_q == q.dims@[1]
        &&& self.seqlen_k == k.dims@[1]
    }

    /// The number of splits on `num_sm` multiprocessors.
    pub open spec fn splits(self, num_sm: usize) -> int {
        dense_splits(
            num_sm as int,
            self.batch_size as int,
            self.num_heads as int,
            self.head_size as int,
            self.head_size_rounded as int,
            self.seqlen_q as int,
            self.seqlen_k as int,
        )
    }

    /// Whether the accumulators for `num_sm` multiprocessors have `usize`
    /// lengths.
    pub fn can_split(&self, num_sm: usize) -> (r: bool)
        ensures
            r == self.splits_fit(num_sm),
    {
        can_split(
            num_sm,
            self.batch_size,
            self.num_heads,
            self.head_size,
            self.head_size_rounded,
            self.seqlen_q,
            self.seqlen_k,
        )
    }

    /// The accumulators for `num_sm` multiprocessors have `usize` lengths.
    pub open spec fn splits_fit(self, num_sm: usize) -> bool {
        split_sizes_fit(
            num_sm as int,
            self.batch_size as int,
            self.num_heads as int,
            self.head_size as int,
            self.head_size_rounded as int,
            self.seqlen_q as int,
            self.seqlen_k as int,
        )
    }
}

impl DenseCall {
    /// The call is the unsplit launch of `op` on q, k and v.
    pub open spec fn launches(
        &self,
        op: &FlashAttn,
        q: &TensorDesc,
        k: &TensorDesc,
        v: &TensorDesc,
    ) -> bool {
        &&& self.params == dense_params(op, q, k, v)
        &&& self.q_offset == q.start_offset
        &&& self.k_offset == k.start_offset
        &&& self.v_offset == v.start_offset
        &&& self.alibi_offset == start_of(op.alibi_slopes)
        &&& self.out_dims@ == q.dims@
        &&& self.out_len == elem_count(q.dims@)
        &&& self.lse_len == q.dims@[0] * q.dims@[2] * q.dims@[1]
        &&& self.sizes.describes(q, k)
        &&& self.accum is None
    }

    /// Whether the number of multiprocessors matters to the launch.
    pub fn may_split(&self) -> (r: bool)
        ensures
            r == split_allowed(self.sizes.head_size as int, self.sizes.head_size_rounded as int),
    {
        splitkv_allowed(self.sizes.head_size, self.sizes.head_size_rounded)
    }

    /// The launch on a device with `num_sm` multiprocessors: the same with
    /// the number of splits, and with accumulators where there are several.
    pub fn split(self, num_sm: usize) -> (r: DenseCall)
        requires
            self.sizes.splits_fit(num_sm),
        ensures
            r.params == (MhaParams { num_splits: r.params.num_splits, ..self.params }),
            r.params.num_splits == self.sizes.splits(num_sm),
            match r.accum {
                None => r.params.num_splits == 1,
                Some(accum) => {
                    &&& r.params.num_splits > 1
                    &&& accum.lse_len == r.params.num_splits * self.sizes.batch_size
                        * self.sizes.num_heads * self.sizes.seqlen_q
                    &&& accum.out_len == accum.lse_len * self.sizes.head_size_rounded
                },
            },
            r.q_offset == self.q_offset,
            r.k_offset == self.k_offset,
            r.v_offset == self.v_offset,
            r.alibi_offset == self.alibi_offset,
            r.out_dims == self.out_dims,
            r.out_len == self.out_len,
            r.lse_len == self.lse_len,
            r.sizes == self.sizes,
    {
        let s = self.sizes;
        let (num_splits, accum) = set_params_splitkv(
            num_sm,
            s.batch_size,
            s.num_heads,
            s.head_size,
            s.head_size_rounded,
            s.seqlen_q,
            s.seqlen_k,
        );
        let mut params = self.params;
        params.num_splits = num_splits;
        DenseCall { params, accum, ..self }
    }
}

/// Whether two lists of dims are the same.
pub fn same_dims(a: &Vec<usize>, b: &Vec<usize>) -> (r: bool)
    ensures
        r == (a@ == b@),
{
    if a.len() != b.len() {
        return false;
    }
    let mut i: usize = 0;
    while i < a.len()
        invariant
            i <= a.len(),
            a.len() == b.len(),
            forall|j: int| 0 <= j < i ==> a@[j] == b@[j],
        decreases a.len() - i,
    {
        if a[i] != b[i] {
            assert(a@[i as int] != b@[i as int]);
            return false;
        }
        i = i + 1;
    }
    assert(a@ =~= b@);
    true
}

/// The products of up to three of four dims that a launch needs.
proof fn lemma_four_dims(dims: Seq<usize>)
    requires
        dims.len() == 4,
        fits(dims),
    ensures
        elem_count(dims) == dims[0] * dims[1] * dims[2] * dims[3],
        0 <= dims[0] * dims[1] <= usize::MAX,
        0 <= dims[0] * dims[2] <= usize::MAX,
        0 <= dims[0] * dims[2] * dims[1] <= usize::MAX,
        0 <= dims[2] * dims[3] <= usize::MAX,
        0 <= dims[1] * dims[2] <= usize::MAX,
        0 <= dims[1] * dims[2] * dims[3] <= usize::MAX,
{
    reveal_with_fuel(elem_count, 5);
    reveal_with_fuel(nonzero_product, 5);
    let a = dims[0] as int;
    let b = dims[1] as int;
    let c = dims[2] as int;
    let d = dims[3] as int;
    let za = if a == 0 { 1int } else { a };
    let zb = if b == 0 { 1int } else { b };
    let zc = if c == 0 { 1int } else { c };
    let zd = if d == 0 { 1int } else { d };
    assert(1 * a == a && 1 * b == b && 1 * c == c && 1 * d == d);
    assert(nonzero_product(dims) == za * zb * zc * zd) by {
        assert(1 * zb == zb && za * 1 == za && (za * zb) * 1 == za * zb && (za * zb * zc) * 1 == za
            * zb * zc);
    }
    assert(za * zb <= za * zb * zc * zd && za * zc <= za * zb * zc * zd && za * zc * zb <= za * zb
        * zc * zd && zc * zd <= za * zb * zc * zd && zb * zc <= za * zb * zc * zd && zb * zc * zd
        <= za * zb * zc * zd) by (nonlinear_arith)
        requires
            za >= 1,
            zb >= 1,
            zc >= 1,
            zd >= 1,
    {
        assert(za * zb >= 1 && zc * zd >= 1 && zb * zc >= 1 && za * zc >= 1);
        assert(za * zb * zc * zd == (za * zb) * (zc * zd));
        assert(za * zb * zc * zd == za * (zb * zc * zd));
        assert(za * zb * zc * zd == (za * zc * zb) * zd);
        assert(za * zb * zc * zd == (za * zc) * (zb * zd));
        assert(zb * zd >= 1 && za * zd >= 1);
        assert(za * zb * zc * zd == (zb * zc) * (za * zd));
        assert(zb * zc * zd >= 1 && za * zc * zb >= 1);
    }
    assert(0 <= a * b <= za * zb && 0 <= a * c <= za * zc && 0 <= c * d <= zc * zd && 0 <= b * c
        <= zb * zc && 0 <= a * c * b <= za * zc * zb && 0 <= b * c * d <= zb * zc * zd)
        by (nonlinear_arith)
        requires
            0 <= a <= za,
            0 <= b <= zb,
            0 <= c <= zc,
            0 <= d <= zd,
    {
        assert(0 <= a * c <= za * zc);
        assert(0 <= b * c <= zb * zc);
        assert((a * c) * b <= (za * zc) * zb);
        assert((b * c) * d <= (zb * zc) * zd);
    }
}

/// The first reason to refuse q, k and v for their place and element type.
pub fn check_operands(q: &TensorDesc, k: &TensorDesc, v: &TensorDesc) -> (r: Option<FlashError>)
    ensures
        r == operand_error(q, k, v),
{
    if k.placement != q.placement {
        return Some(FlashError::DeviceMismatch(Operand::K));
    }
    if v.placement != q.placement {
        return Some(FlashError::DeviceMismatch(Operand::V));
    }
    match q.placement {
        Placement::Cpu => Some(FlashError::NoCpuSupport),
        Placement::Metal(_) => Some(FlashError::NoMetalImplementation),
        Placement::Cuda(_) => if is_f16(q.dtype) || is_bf16(q.dtype) {
            None
        } else {
            Some(FlashError::UnsupportedDType(q.dtype))
        },
    }
}

/// Whether two halves of precision are the same, where the first is one.
fn same_half(expected: DType, got: DType) -> (r: bool)
    requires
        expected == DType::F16 || expected == DType::BF16,
    ensures
        r == (expected == got),
{
    if is_f16(expected) {
        is_f16(got)
    } else {
        is_bf16(got)
    }
}

/// The first reason to refuse k and v for an element type other than q's.
pub fn check_dtypes(q: &TensorDesc, k: &TensorDesc, v: &TensorDesc) -> (r: Option<FlashError>)
    requires
        q.dtype == DType::F16 || q.dtype == DType::BF16,
    ensures
        r == dtype_error(q, k, v),
{
    if !same_half(q.dtype, k.dtype) {
        return Some(
            FlashError::UnexpectedDType { operand: Operand::K, expected: q.dtype, got: k.dtype },
        );
    }
    if !same_half(q.dtype, v.dtype) {
        return Some(
            FlashError::UnexpectedDType { operand: Operand::V, expected: q.dtype, got: v.dtype },
        );
    }
    None
}

/// The first operand of q, k and v whose last dim has gaps.
pub fn check_last_dims(q: &TensorDesc, k: &TensorDesc, v: &TensorDesc) -> (r: Option<FlashError>)
    ensures
        r == last_dim_error(q, k, v),
{
    if !q.has_contiguous_last_dim() {
        return Some(FlashError::LastDimNotContiguous(Operand::Q));
    }
    if !k.has_contiguous_last_dim() {
        return Some(FlashError::LastDimNotContiguous(Operand::K));
    }
    if !v.has_contiguous_last_dim() {
        return Some(FlashError::LastDimNotContiguous(Operand::V));
    }
    None
}

/// The reason to refuse a head size.
pub fn check_head_size(head_size: usize) -> (r: Option<FlashError>)
    ensures
        r == head_size_error(head_size),
{
    if head_size > 512 {
        return Some(FlashError::HeadTooLarge(head_size));
    }
    if head_size % 8 != 0 {
        return Some(FlashError::HeadNotMultiple(head_size));
    }
    None
}

/// The first reason to refuse alibi slopes.
pub fn check_alibi(alibi_slopes: &Option<TensorDesc>, num_heads: usize) -> (r: Option<FlashError>)
    ensures
        r == alibi_error(*alibi_slopes, num_heads),
{
    match alibi_slopes {
        None => None,
        Some(a) => {
            if !is_f32(a.dtype) {
                return Some(FlashError::AlibiDType(a.dtype));
            }
            if a.dims.len() != 1 {
                return Some(
                    FlashError::UnexpectedNumDims {
                        operand: Operand::AlibiSlopes,
                        wanted: 1,
                        rank: a.dims.len(),
                    },
                );
            }
            if a.dims[0] != num_heads {
                return Some(FlashError::AlibiShape { num_heads, slopes: a.dims[0] });
            }
            if !a.is_on_cuda() {
                return Some(FlashError::NotCuda(Operand::AlibiSlopes));
            }
            None
        },
    }
}

/// Whether an optional descriptor is of a tensor.
pub fn is_well_formed_option(t: &Option<TensorDesc>) -> (r: bool)
    ensures
        r == well_formed_option(*t),
{
    match t {
        Some(t) => t.is_well_formed(),
        None => true,
    }
}

/// Whether `n` rounded up to a multiple of 128 is a `usize`.
pub fn can_round(n: usize) -> (r: bool)
    ensures
        r == rounds(n),
{
    proof {
        lemma_ceil_div(n as int, 128);
    }
    div_ceil(n, 128).checked_mul(128).is_some()
}

/// Where an optional tensor starts in its storage.
pub fn offset_of(t: &Option<TensorDesc>) -> (r: Option<usize>)
    ensures
        r == start_of(*t),
{
    match t {
        Some(t) => Some(t.start_offset),
        None => None,
    }
}

/// The first reason to refuse the shapes of q, k and v.
fn check_dense_shapes(q: &TensorDesc, k: &TensorDesc, v: &TensorDesc) -> (r: Option<FlashError>)
    requires
        q.well_formed(),
        k.well_formed(),
        v.well_formed(),
    ensures
        r == dense_shape_error(q, k, v),
{
    let q_rank = q.strides.len();
    let k_rank = k.strides.len();
    let v_rank = v.strides.len();
    if q_rank != 4 || k_rank != 4 || v_rank != 4 {
        return Some(FlashError::Rank { q: q_rank, k: k_rank, v: v_rank });
    }
    let last_dims = check_last_dims(q, k, v);
    if last_dims.is_some() {
        return last_dims;
    }
    if k.dims[0] != q.dims[0] || k.dims[3] != q.dims[3] {
        return Some(FlashError::ShapeMismatch(Operand::Q, Operand::K));
    }
    if !same_dims(&v.dims, &k.dims) {
        return Some(FlashError::ShapeMismatch(Operand::Q, Operand::V));
    }
    check_head_size(q.dims[3])
}

/// A head size that is a multiple of 8 stands for itself when rounded to 8,
/// and rounding one up to 512 to 32 stays there.
pub proof fn lemma_head_rounding(head_size: usize)
    requires
        head_size <= 512,
        head_size % 8 == 0,
    ensures
        ceil_div(head_size as int, 8) * 8 == head_size,
        rounded_head_size(head_size) == ceil_div(head_size as int, 32) * 32,
        head_size <= rounded_head_size(head_size) <= 512,
{
    lemma_ceil_div(head_size as int, 8);
    lemma_ceil_div(head_size as int, 32);
}

impl FlashAttn {
    /// Whether the launch of the operation on q, k and v can be planned.
    pub fn can_plan(&self, q: &TensorDesc, k: &TensorDesc, v: &TensorDesc) -> (r: bool)
        ensures
            r == dense_fits(self, q, k, v),
    {
        if !q.is_well_formed() || !k.is_well_formed() || !v.is_well_formed()
            || !is_well_formed_option(&self.alibi_slopes) {
            return false;
        }
        if check_operands(q, k, v).is_some() || check_dtypes(q, k, v).is_some()
            || check_dense_shapes(q, k, v).is_some() {
            return true;
        }
        if k.dims[2] == 0 {
            return false;
        }
        if q.dims[2] % k.dims[2] != 0 || check_alibi(&self.alibi_slopes, q.dims[2]).is_some() {
            return true;
        }
        can_round(q.dims[1]) && can_round(k.dims[1])
    }

    /// Plans the launch for one element type of q.
    fn cuda_fwd_t(&self, q: &TensorDesc, k: &TensorDesc, v: &TensorDesc, is_bf16: bool) -> (r:
        Result<DenseCall, FlashError>)
        requires
            dense_fits(self, q, k, v),
            operand_error(q, k, v) is None,
            is_bf16 == (q.dtype == DType::BF16),
        ensures
            match r {
                Ok(call) => dense_error(self, q, k, v) is None && call.launches(self, q, k, v),
                Err(e) => dense_error(self, q, k, v) == Some(e),
            },
    {
        if let Some(e) = check_dtypes(q, k, v) {
            return Err(e);
        }
        if let Some(e) = check_dense_shapes(q, k, v) {
            return Err(e);
        }
        let b_sz = q.dims[0];
        let seqlen_q = q.dims[1];
        let num_heads = q.dims[2];
        let head_size_og = q.dims[3];
        let seqlen_k = k.dims[1];
        let num_heads_k = k.dims[2];
        if num_heads % num_heads_k != 0 {
            return Err(FlashError::HeadCounts { q: num_heads, kv: num_heads_k });
        }
        if let Some(e) = check_alibi(&self.alibi_slopes, num_heads) {
            return Err(e);
        }
        proof {
            lemma_head_rounding(head_size_og);
            lemma_four_dims(q.dims@);
        }
        let window = normalise_window(
            self.window_size_left,
            self.window_size_right,
            seqlen_k,
            false,
        );
        let head_size = round_multiple(head_size_og, 8);
        let head_size_rounded = round_multiple(head_size, 32);
        let seqlen_q_rounded = round_multiple(seqlen_q, 128);
        let seqlen_k_rounded = round_multiple(seqlen_k, 128);
        let params = MhaParams {
            q_batch_stride: q.strides[0] as u32,
            k_batch_stride: k.strides[0] as u32,
            v_batch_stride: v.strides[0] as u32,
            o_batch_stride: (seqlen_q * num_heads * head_size_og) as u32,
            alibi_slopes_batch_stride: 0,
            q_row_stride: q.strides[1] as u32,
            k_row_stride: k.strides[1] as u32,
            v_row_stride: v.strides[1] as u32,
            o_row_stride: (num_heads * head_size_og) as u32,
            q_head_stride: q.strides[2] as u32,
            k_head_stride: k.strides[2] as u32,
            v_head_stride: v.strides[2] as u32,
            o_head_stride: head_size_og as u32,
            b: b_sz as u32,
            h: num_heads as u32,
            h_k: num_heads_k as u32,
            d: head_size as u32,
            d_rounded: head_size_rounded as u32,
            softmax_scale: self.softmax_scale,
            seqlen_q: seqlen_q as u32,
            seqlen_k: seqlen_k as u32,
            seqlen_q_rounded: seqlen_q_rounded as u32,
            seqlen_k_rounded: seqlen_k_rounded as u32,
            total_q: (b_sz * seqlen_q) as u32,
            is_bf16: flag(is_bf16),
            is_causal: flag(window.is_causal),
            unpadded_lse: 0,
            window_size_left: window.left,
            window_size_right: window.right,
            softcap: softcap_or_zero(self.softcap),
            block_table_batch_stride: 0,
            page_block_size: -1,
            mm_prefix_range_batch_stride: 0,
            max_mm_prefix_ranges: 0,
            num_splits: 1,
            force_split_kernel: 0,
        };
        let sizes = DenseSizes {
            batch_size: b_sz,
            num_heads,
            head_size,
            head_size_rounded,
            seqlen_q,
            seqlen_k,
        };
        let out_dims = q.dims.clone();
        Ok(
            DenseCall {
                params,
                q_offset: q.start_offset,
                k_offset: k.start_offset,
                v_offset: v.start_offset,
                alibi_offset: offset_of(&self.alibi_slopes),
                out_dims,
                out_len: count_elems(&q.dims),
                lse_len: b_sz * num_heads * seqlen_q,
                sizes,
                accum: None,
            },
        )
    }

    /// Plans the launch of the operation on q, k and v, or says why there is
    /// none.
    pub fn forward(&self, q: &TensorDesc, k: &TensorDesc, v: &TensorDesc) -> (r: Result<
        DenseCall,
        FlashError,
    >)
        requires
            dense_fits(self, q, k, v),
        ensures
            match r {
                Ok(call) => dense_error(self, q, k, v) is None && call.launches(self, q, k, v),
                Err(e) => dense_error(self, q, k, v) == Some(e),
            },
            r is Ok ==> does_dense(
                &r->Ok_0,
                q,
                k,
                v,
                self.softmax_scale,
                self.alibi_slopes,
                self.window_size_left,
                self.window_size_right,
                self.softcap,
            ),
    {
        if let Some(e) = check_operands(q, k, v) {
            return Err(e);
        }
        let r = self.cuda_fwd_t(q, k, v, is_bf16(q.dtype));
        proof {
            if let Ok(call) = &r {
                dense_launches_do(call, self, q, k, v);
            }
        }
        r
    }
}

/// The limit on the right that a causal mask puts.
pub open spec fn causal_limit(causal: bool) -> Option<usize> {
    if causal {
        Some(0)
    } else {
        None
    }
}

/// The limit on the right that a causal mask puts.
pub fn right_limit(causal: bool) -> (r: Option<usize>)
    ensures
        r == causal_limit(causal),
{
    if causal {
        Some(0)
    } else {
        None
    }
}

/// What a dense launch returns: the call for `op`, or the first reason to
/// refuse it.
pub open spec fn dense_outcome(
    op: FlashAttn,
    q: &TensorDesc,
    k: &TensorDesc,
    v: &TensorDesc,
    r: Result<DenseCall, FlashError>,
) -> bool {
    match r {
        Ok(call) => dense_error(&op, q, k, v) is None && call.launches(&op, q, k, v),
        Err(e) => dense_error(&op, q, k, v) == Some(e),
    }
}

/// The dense operation with these settings.
pub open spec fn dense_op(
    softmax_scale: F32Bits,
    alibi_slopes: Option<TensorDesc>,
    window_size_left: Option<usize>,
    window_size_right: Option<usize>,
    softcap: Option<F32Bits>,
) -> FlashAttn {
    FlashAttn { softmax_scale, alibi_slopes, window_size_left, window_size_right, softcap }
}

/// The descriptor behind an optional reference.
pub open spec fn described(t: Option<&TensorDesc>) -> Option<TensorDesc> {
    match t {
        Some(t) => Some(*t),
        None => None,
    }
}

/// A copy of an optional descriptor.
pub fn copy_described(t: Option<&TensorDesc>) -> (r: Option<TensorDesc>)
    ensures
        r is Some == t is Some,
        t is Some ==> r->0.same_as(t->0),
{
    match t {
        Some(t) => Some(t.clone()),
        None => None,
    }
}

/// Flash-attention v2 layer.
///
/// q has the shape `(batch, seq_len_q, num_heads_q, head_size)`, k and v have
/// `(batch, seq_len_kv, num_heads_kv, head_size)`; the result has the shape of
/// q. The heads in k and v divide those in q.
pub fn flash_attn(
    q: &TensorDesc,
    k: &TensorDesc,
    v: &TensorDesc,
    softmax_scale: F32Bits,
    causal: bool,
) -> (r: Result<DenseCall, FlashError>)
    requires
        dense_fits(
            &dense_op(
                softmax_scale,
                None,
                None,
                causal_limit(causal),
                None,
            ),
            q,
            k,
            v,
        ),
    ensures
        dense_outcome(
            dense_op(
                softmax_scale,
                None,
                None,
                causal_limit(causal),
                None,
            ),
            q,
            k,
            v,
            r,
        ),
        r is Ok ==> does_dense(
            &r->Ok_0,
            q,
            k,
            v,
            softmax_scale,
            None,
            None,
            if causal {
                Some(0)
            } else {
                None
            },
            None,
        ),
{
    let op = FlashAttn {
        softmax_scale,
        alibi_slopes: None,
        window_size_left: None,
        window_size_right: right_limit(causal),
        softcap: None,
    };
    let r = op.forward(q, k, v);
    proof {
        let described_op = dense_op(
            softmax_scale,
            None,
            None,
            causal_limit(causal),
            None,
        );
        if let Ok(call) = &r {
            dense_launches_do(call, &described_op, q, k, v);
        }
    }
    r
}

/// Flash-attention v2 layer.
///
/// q has the shape `(batch, seq_len_q, num_heads_q, head_size)`, k and v have
/// `(batch, seq_len_kv, num_heads_kv, head_size)`; the result has the shape of
/// q. The heads in k and v divide those in q. The two limits bound how
/// far to the left and to the right a query looks.
pub fn flash_attn_windowed(
    q: &TensorDesc,
    k: &TensorDesc,
    v: &TensorDesc,
    softmax_scale: F32Bits,
    window_size_left: Option<usize>,
    window_size_right: Option<usize>,
) -> (r: Result<DenseCall, FlashError>)
    requires
        dense_fits(
            &dense_op(
                softmax_scale,
                None,
                window_size_left,
                window_size_right,
                None,
            ),
            q,
            k,
            v,
        ),
    ensures
        dense_outcome(
            dense_op(
                softmax_scale,
                None,
                window_size_left,
                window_size_right,
                None,
            ),
            q,
            k,
            v,
            r,
        ),
        r is Ok ==> does_dense(
            &r->Ok_0,
            q,
            k,
            v,
            softmax_scale,
            None,
            window_size_left,
            window_size_right,
            None,
        ),
{
    let op = FlashAttn {
        softmax_scale,
        alibi_slopes: None,
        window_size_left,
        window_size_right,
        softcap: None,
    };
    let r = op.forward(q, k, v);
    proof {
        let described_op = dense_op(
            softmax_scale,
            None,
            window_size_left,
            window_size_right,
            None,
        );
        if let Ok(call) = &r {
            dense_launches_do(call, &described_op, q, k, v);
        }
    }
    r
}

/// Flash-attention v2 layer with alibi slopes.
///
/// q has the shape `(batch, seq_len_q, num_heads_q, head_size)`, k and v have
/// `(batch, seq_len_kv, num_heads_kv, head_size)`; the result has the shape of
/// q. The heads in k and v divide those in q. The slopes have the shape
/// `(num_heads_q)`.
pub fn flash_attn_alibi(
    q: &TensorDesc,
    k: &TensorDesc,
    v: &TensorDesc,
    alibi_slopes: &TensorDesc,
    softmax_scale: F32Bits,
    causal: bool,
) -> (r: Result<DenseCall, FlashError>)
    requires
        dense_fits(
            &dense_op(
                softmax_scale,
                Some(*alibi_slopes),
                None,
                causal_limit(causal),
                None,
            ),
            q,
            k,
            v,
        ),
    ensures
        dense_outcome(
            dense_op(
                softmax_scale,
                Some(*alibi_slopes),
                None,
                causal_limit(causal),
                None,
            ),
            q,
            k,
            v,
            r,
        ),
        r is Ok ==> does_dense(
            &r->Ok_0,
            q,
            k,
            v,
            softmax_scale,
            Some(*alibi_slopes),
            None,
            if causal {
                Some(0)
            } else {
                None
            },
            None,
        ),
{
    let op = FlashAttn {
        softmax_scale,
        alibi_slopes: Some(alibi_slopes.clone()),
        window_size_left: None,
        window_size_right: right_limit(causal),
        softcap: None,
    };
    let r = op.forward(q, k, v);
    proof {
        let described_op = dense_op(
            softmax_scale,
            Some(*alibi_slopes),
            None,
            causal_limit(causal),
            None,
        );
        if let Ok(call) = &r {
            dense_launches_do(call, &described_op, q, k, v);
        }
    }
    r
}

/// Flash-attention v2 layer with alibi slopes.
///
/// q has the shape `(batch, seq_len_q, num_heads_q, head_size)`, k and v have
/// `(batch, seq_len_kv, num_heads_kv, head_size)`; the result has the shape of
/// q. The heads in k and v divide those in q. The slopes have the shape
/// `(num_heads_q)`; the two limits bound how far a query looks.
pub fn flash_attn_alibi_windowed(
    q: &TensorDesc,
    k: &TensorDesc,
    v: &TensorDesc,
    alibi_slopes: &TensorDesc,
    softmax_scale: F32Bits,
    window_size_left: Option<usize>,
    window_size_right: Option<usize>,
) -> (r: Result<DenseCall, FlashError>)
    requires
        dense_fits(
            &dense_op(
                softmax_scale,
                Some(*alibi_slopes),
                window_size_left,
                window_size_right,
                None,
            ),
            q,
            k,
            v,
        ),
    ensures
        dense_outcome(
            dense_op(
                softmax_scale,
                Some(*alibi_slopes),
                window_size_left,
                window_size_right,
                None,
            ),
            q,
            k,
            v,
            r,
        ),
        r is Ok ==> does_dense(
            &r->Ok_0,
            q,
            k,
            v,
            softmax_scale,
            Some(*alibi_slopes),
            window_size_left,
            window_size_right,
            None,
        ),
{
    let op = FlashAttn {
        softmax_scale,
        alibi_slopes: Some(alibi_slopes.clone()),
        window_size_left,
        window_size_right,
        softcap: None,
    };
    let r = op.forward(q, k, v);
    proof {
        let described_op = dense_op(
            softmax_scale,
            Some(*alibi_slopes),
            window_size_left,
            window_size_right,
            None,
        );
        if let Ok(call) = &r {
            dense_launches_do(call, &described_op, q, k, v);
        }
    }
    r
}

/// Flash-attention v2 layer with optional alibi slopes and a softcap.
///
/// q has the shape `(batch, seq_len_q, num_heads_q, head_size)`, k and v have
/// `(batch, seq_len_kv, num_heads_kv, head_size)`; the result has the shape of
/// q. The heads in k and v divide those in q. The softcap bounds the
/// attention logits before the softmax.
pub fn flash_attn_alibi_windowed_softcap(
    q: &TensorDesc,
    k: &TensorDesc,
    v: &TensorDesc,
    alibi_slopes: Option<&TensorDesc>,
    softmax_scale: F32Bits,
    window_size_left: Option<usize>,
    window_size_right: Option<usize>,
    softcap: F32Bits,
) -> (r: Result<DenseCall, FlashError>)
    requires
        dense_fits(
            &dense_op(
                softmax_scale,
                described(alibi_slopes),
                window_size_left,
                window_size_right,
                Some(softcap),
            ),
            q,
            k,
            v,
        ),
    ensures
        dense_outcome(
            dense_op(
                softmax_scale,
                described(alibi_slopes),
                window_size_left,
                window_size_right,
                Some(softcap),
            ),
            q,
            k,
            v,
            r,
        ),
        r is Ok ==> does_dense(
            &r->Ok_0,
            q,
            k,
            v,
            softmax_scale,
            described(alibi_slopes),
            window_size_left,
            window_size_right,
            Some(softcap),
        ),
{
    let op = FlashAttn {
        softmax_scale,
        alibi_slopes: copy_described(alibi_slopes),
        window_size_left,
        window_size_right,
        softcap: Some(softcap),
    };
    let r = op.forward(q, k, v);
    proof {
        let described_op = dense_op(
            softmax_scale,
            described(alibi_slopes),
            window_size_left,
            window_size_right,
            Some(softcap),
        );
        if let Ok(call) = &r {
            dense_launches_do(call, &described_op, q, k, v);
        }
    }
    r
}

/// The causal launch is the windowed one without a limit on the left and with
/// the limit 0 on the right, and the one that is not causal has no limits.
pub proof fn causal_is_a_window(
    q: &TensorDesc,
    k: &TensorDesc,
    v: &TensorDesc,
    softmax_scale: F32Bits,
    alibi_slopes: Option<TensorDesc>,
    softcap: Option<F32Bits>,
    causal: bool,
)
    requires
        k.dims@.len() == 4,
        k.dims@[1] <= i32::MAX,
    ensures
        ({
            let op = dense_op(softmax_scale, alibi_slopes, None, causal_limit(causal), softcap);
            let params = dense_params(&op, q, k, v);
            &&& causal ==> op == dense_op(softmax_scale, alibi_slopes, None, Some(0), softcap)
            &&& !causal ==> op == dense_op(softmax_scale, alibi_slopes, None, None, softcap)
            &&& params.is_causal == flag_of(causal)
            &&& params.window_size_left == (if causal { k.dims@[1] as int } else { -1int })
            &&& params.window_size_right == (if causal { 0int } else { -1int })
        }),
{
}

/// A launch that splits has accumulators whose rows are as far apart as the
/// split kernels write them.
pub proof fn accumulator_rows_match(call: &DenseCall, num_sm: usize)
    requires
        call.sizes.splits(num_sm) != 1,
    ensures
        crate::flash::splitkv::dispatch_bucket(call.sizes.head_size as int)
            == call.sizes.head_size_rounded,
        call.sizes.head_size <= 256,
{
}

} // verus!
