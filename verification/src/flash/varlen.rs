//! Flash attention on sequences of different lengths, one behind the other,
//! with an optional paged cache of keys and values.

use crate::dtype::{is_bf16, is_i32, is_u32};
use crate::flash::dense::{
    alibi_error, can_round, causal_limit, check_alibi, check_dtypes, check_head_size,
    check_last_dims, check_operands, copy_described, described, dtype_error, head_size_error,
    is_well_formed_option, last_dim_error, lemma_head_rounding, offset_of, operand_error,
    right_limit, rounded_head_size, rounds, same_dims, start_of, well_formed_option,
};
use crate::flash::desc::TensorDesc;
use crate::flash::error::{FlashError, Operand};
use crate::flash::meaning::{does_varlen, varlen_launches_do};
use crate::flash::params::{flag, flag_of, softcap_of, softcap_or_zero, F32Bits, MhaParams};
use crate::flash::window::{normalise_window, window_of};
use crate::math::{ceil_div, round_multiple};
use crate::shape::{count_elems, elem_count, fits, nonzero_product};
use candle_core::DType;
use vstd::prelude::*;

verus! {

/// Scaled dot-product attention over a batch of sequences. `seqlens_q` and
/// `seqlens_k` hold the cumulative lengths, one more than there are sequences.
/// With a block table k and v are pages of `page_block_size` tokens.
#[derive(Debug)]
pub struct FlashAttnVarLen {
    pub softmax_scale: F32Bits,
    pub max_seqlen_q: usize,
    pub max_seqlen_k: usize,
    pub seqlens_q: TensorDesc,
    pub seqlens_k: TensorDesc,
    pub block_table: Option<TensorDesc>,
    pub mm_prefix_ranges: Option<TensorDesc>,
    pub page_block_size: Option<usize>,
    pub alibi_slopes: Option<TensorDesc>,
    pub window_size_left: Option<usize>,
    pub window_size_right: Option<usize>,
    pub softcap: Option<F32Bits>,
}

/// A launch of the kernel on sequences of different lengths: its scalar
/// arguments, where in their storages the operands start, and the lengths of
/// the buffers to allocate.
#[derive(Debug)]
pub struct VarLenCall {
    pub params: MhaParams,
    pub q_offset: usize,
    pub k_offset: usize,
    pub v_offset: usize,
    pub seqlens_q: (usize, usize),
    pub seqlens_k: (usize, usize),
    pub alibi_offset: Option<usize>,
    pub block_table_offset: Option<usize>,
    pub mm_prefix_ranges_offset: Option<usize>,
    pub out_dims: Vec<usize>,
    pub out_len: usize,
    pub lse_len: usize,
}

/// The first reason to refuse cumulative lengths: they are u32, contiguous, on
/// a cuda device.
pub open spec fn seqlens_error(seqlens: &TensorDesc, operand: Operand) -> Option<FlashError> {
    if !seqlens.on_cuda() {
        Some(FlashError::NotCuda(operand))
    } else if seqlens.dtype != DType::U32 {
        Some(
            FlashError::UnexpectedDType { operand, expected: DType::U32, got: seqlens.dtype },
        )
    } else if !seqlens.contiguous() {
        Some(FlashError::NotContiguous(operand))
    } else {
        None
    }
}

/// The first reason to refuse the layout of a block table: it has two dims,
/// the last one without gaps, on a cuda device.
pub open spec fn block_table_error(block_table: Option<TensorDesc>) -> Option<FlashError> {
    match block_table {
        None => None,
        Some(t) => if !t.on_cuda() {
            Some(FlashError::NotCuda(Operand::BlockTable))
        } else if t.dims@.len() != 2 {
            Some(
                FlashError::UnexpectedNumDims {
                    operand: Operand::BlockTable,
                    wanted: 2,
                    rank: t.dims.len(),
                },
            )
        } else if !t.last_dim_contiguous() {
            Some(FlashError::LastDimNotContiguous(Operand::BlockTable))
        } else {
            None
        },
    }
}

/// The first reason to refuse the ranks of q, k and v, or their last dims.
pub open spec fn varlen_rank_error(
    paged: bool,
    q: &TensorDesc,
    k: &TensorDesc,
    v: &TensorDesc,
) -> Option<FlashError> {
    let q_rank = q.dims.len();
    let k_rank = k.dims.len();
    let v_rank = v.dims.len();
    if q_rank != 3 || (!paged && k_rank != 3) || (!paged && v_rank != 3) {
        Some(FlashError::Rank { q: q_rank, k: k_rank, v: v_rank })
    } else if paged && (k_rank != 4 || v_rank != 4) {
        Some(FlashError::PagedRank { k: k_rank, v: v_rank })
    } else {
        last_dim_error(q, k, v)
    }
}

/// The first reason to refuse the shapes of a paged launch: k and v are both
/// (blocks, page_block_size, heads_k, head_size), with pages of a multiple of
/// 32 tokens.
pub open spec fn paged_shape_error(
    page_block_size: Option<usize>,
    q: &TensorDesc,
    k: &TensorDesc,
    v: &TensorDesc,
) -> Option<FlashError> {
    if v.dims@ != k.dims@ {
        Some(FlashError::ShapeMismatch(Operand::K, Operand::V))
    } else if k.dims@[3] != q.dims@[2] {
        Some(FlashError::ShapeMismatch(Operand::Q, Operand::K))
    } else {
        match page_block_size {
            None => Some(FlashError::MissingPageBlockSize),
            Some(size) => if size != k.dims@[1] {
                Some(FlashError::PageBlockSizeMismatch { given: size, k: k.dims@[1] })
            } else if size % 32 != 0 {
                Some(FlashError::PageBlockSizeNotMultiple(size))
            } else if q.dims@[2] > 512 {
                Some(FlashError::PagedHeadTooLarge(q.dims@[2]))
            } else {
                None
            },
        }
    }
}

/// The first reason to refuse the shapes of a launch without pages: k and v
/// are both (total_k, heads_k, head_size).
pub open spec fn unpaged_shape_error(q: &TensorDesc, k: &TensorDesc, v: &TensorDesc) -> Option<
    FlashError,
> {
    if k.dims@[2] != q.dims@[2] {
        Some(FlashError::ShapeMismatch(Operand::Q, Operand::K))
    } else if v.dims@ != k.dims@ {
        Some(FlashError::ShapeMismatch(Operand::Q, Operand::V))
    } else {
        None
    }
}

/// The number of k/v heads.
pub open spec fn kv_heads(paged: bool, k: &TensorDesc) -> usize {
    if paged {
        k.dims@[2]
    } else {
        k.dims@[1]
    }
}

/// The first reason to refuse the numbers of cumulative lengths: as many for q
/// as for k, at least two.
pub open spec fn seqlens_count_error(op: &FlashAttnVarLen) -> Option<FlashError> {
    if op.seqlens_q.dims@.len() != 1 {
        Some(
            FlashError::UnexpectedNumDims {
                operand: Operand::SeqlensQ,
                wanted: 1,
                rank: op.seqlens_q.dims.len(),
            },
        )
    } else if op.seqlens_q.dims@[0] < 2 {
        Some(FlashError::TooFewSeqlens(op.seqlens_q.dims@[0]))
    } else if op.seqlens_k.dims@.len() != 1 {
        Some(
            FlashError::UnexpectedNumDims {
                operand: Operand::SeqlensK,
                wanted: 1,
                rank: op.seqlens_k.dims.len(),
            },
        )
    } else if op.seqlens_k.dims@[0] != op.seqlens_q.dims@[0] {
        Some(
            FlashError::SeqlensDiffer { q: op.seqlens_q.dims@[0], k: op.seqlens_k.dims@[0] },
        )
    } else {
        None
    }
}

/// The first reason to refuse prefix ranges: they are i32, of the shape
/// (batch, ranges, 2), the last dim without gaps, on a cuda device.
pub open spec fn prefix_ranges_error(ranges: Option<TensorDesc>, batch_size: usize) -> Option<
    FlashError,
> {
    match ranges {
        None => None,
        Some(t) => if t.dtype != DType::I32 {
            Some(FlashError::PrefixRangesDType(t.dtype))
        } else if !t.on_cuda() {
            Some(FlashError::NotCuda(Operand::MmPrefixRanges))
        } else if t.dims@.len() != 3 {
            Some(
                FlashError::UnexpectedNumDims {
                    operand: Operand::MmPrefixRanges,
                    wanted: 3,
                    rank: t.dims.len(),
                },
            )
        } else if t.dims@[0] != batch_size || t.dims@[2] != 2 {
            Some(FlashError::PrefixRangesShape { batch_size })
        } else if !t.last_dim_contiguous() {
            Some(FlashError::LastDimNotContiguous(Operand::MmPrefixRanges))
        } else {
            None
        },
    }
}

/// The first of two reasons.
pub open spec fn first_of(a: Option<FlashError>, b: Option<FlashError>) -> Option<FlashError> {
    match a {
        Some(e) => Some(e),
        None => b,
    }
}

/// The first reason to refuse the tensors beside q, k and v for what can be
/// told without the shapes of q and k.
pub open spec fn side_tensors_error(op: &FlashAttnVarLen) -> Option<FlashError> {
    first_of(
        seqlens_error(&op.seqlens_q, Operand::SeqlensQ),
        first_of(
            seqlens_error(&op.seqlens_k, Operand::SeqlensK),
            block_table_error(op.block_table),
        ),
    )
}

/// The first reason to refuse q, k and v for their shapes, up to the counts of
/// heads.
pub open spec fn varlen_shape_error(
    op: &FlashAttnVarLen,
    q: &TensorDesc,
    k: &TensorDesc,
    v: &TensorDesc,
) -> Option<FlashError> {
    let paged = op.block_table is Some;
    if varlen_rank_error(paged, q, k, v) is Some {
        varlen_rank_error(paged, q, k, v)
    } else {
        first_of(
            if paged {
                paged_shape_error(op.page_block_size, q, k, v)
            } else {
                unpaged_shape_error(q, k, v)
            },
            head_size_error(q.dims@[2]),
        )
    }
}

/// The first reason to refuse a launch, up to the counts of heads.
pub open spec fn varlen_operand_error(
    op: &FlashAttnVarLen,
    q: &TensorDesc,
    k: &TensorDesc,
    v: &TensorDesc,
) -> Option<FlashError> {
    first_of(
        operand_error(q, k, v),
        first_of(
            side_tensors_error(op),
            first_of(dtype_error(q, k, v), varlen_shape_error(op, q, k, v)),
        ),
    )
}

/// The first reason to refuse the counts of heads and of sequences, the prefix
/// ranges or the alibi slopes.
pub open spec fn varlen_count_error(
    op: &FlashAttnVarLen,
    q: &TensorDesc,
    k: &TensorDesc,
) -> Option<FlashError> {
    let heads = q.dims@[1];
    let heads_k = kv_heads(op.block_table is Some, k);
    if heads % heads_k != 0 {
        Some(FlashError::HeadCounts { q: heads, kv: heads_k })
    } else if seqlens_count_error(op) is Some {
        seqlens_count_error(op)
    } else {
        first_of(
            prefix_ranges_error(op.mm_prefix_ranges, (op.seqlens_q.dims@[0] - 1) as usize),
            alibi_error(op.alibi_slopes, heads),
        )
    }
}

/// The first reason to refuse a launch, but for the element type of the block
/// table.
pub open spec fn varlen_early_error(
    op: &FlashAttnVarLen,
    q: &TensorDesc,
    k: &TensorDesc,
    v: &TensorDesc,
) -> Option<FlashError> {
    if varlen_operand_error(op, q, k, v) is Some {
        varlen_operand_error(op, q, k, v)
    } else {
        varlen_count_error(op, q, k)
    }
}

/// The reason to refuse the element type of a block table.
pub open spec fn block_table_dtype_error(block_table: Option<TensorDesc>) -> Option<FlashError> {
    match block_table {
        None => None,
        Some(t) => if t.dtype != DType::U32 && t.dtype != DType::I32 {
            Some(FlashError::BlockTableDType(t.dtype))
        } else {
            None
        },
    }
}

/// The first reason to refuse a launch.
pub open spec fn varlen_error(
    op: &FlashAttnVarLen,
    q: &TensorDesc,
    k: &TensorDesc,
    v: &TensorDesc,
) -> Option<FlashError> {
    first_of(varlen_early_error(op, q, k, v), block_table_dtype_error(op.block_table))
}

/// What a launch needs of its operands: tensors, at least one k/v head, and
/// sequences that can be rounded up.
pub open spec fn varlen_fits(
    op: &FlashAttnVarLen,
    q: &TensorDesc,
    k: &TensorDesc,
    v: &TensorDesc,
) -> bool {
    &&& q.well_formed()
    &&& k.well_formed()
    &&& v.well_formed()
    &&& op.seqlens_q.well_formed()
    &&& op.seqlens_k.well_formed()
    &&& well_formed_option(op.block_table)
    &&& well_formed_option(op.mm_prefix_ranges)
    &&& well_formed_option(op.alibi_slopes)
    &&& varlen_operand_error(op, q, k, v) is None ==> kv_heads(op.block_table is Some, k) != 0
    &&& varlen_early_error(op, q, k, v) is None ==> rounds(op.max_seqlen_q) && rounds(
        op.max_seqlen_k,
    )
}

/// The scalar arguments of the launch. It never splits the K dimension.
pub open spec fn varlen_params(
    op: &FlashAttnVarLen,
    q: &TensorDesc,
    k: &TensorDesc,
    v: &TensorDesc,
) -> MhaParams {
    let paged = op.block_table is Some;
    let total_q = q.dims@[0];
    let heads = q.dims@[1];
    let head_size = q.dims@[2];
    // The row and head strides of k and v stand behind the stride of pages.
    let at: int = if paged {
        1
    } else {
        0
    };
    let window = window_of(
        op.window_size_left,
        op.window_size_right,
        op.max_seqlen_k,
        op.mm_prefix_ranges is Some,
    );
    MhaParams {
        q_batch_stride: 0,
        k_batch_stride: if paged {
            k.strides@[0] as u32
        } else {
            0
        },
        v_batch_stride: if paged {
            v.strides@[0] as u32
        } else {
            0
        },
        o_batch_stride: 0,
        alibi_slopes_batch_stride: 0,
        q_row_stride: q.strides@[0] as u32,
        k_row_stride: k.strides@[at] as u32,
        v_row_stride: v.strides@[at] as u32,
        o_row_stride: (heads * head_size) as u32,
        q_head_stride: q.strides@[1] as u32,
        k_head_stride: k.strides@[at + 1] as u32,
        v_head_stride: v.strides@[at + 1] as u32,
        o_head_stride: head_size as u32,
        b: (op.seqlens_q.dims@[0] - 1) as u32,
        h: heads as u32,
        h_k: kv_heads(paged, k) as u32,
        d: head_size as u32,
        d_rounded: rounded_head_size(head_size) as u32,
        softmax_scale: op.softmax_scale,
        seqlen_q: op.max_seqlen_q as u32,
        seqlen_k: op.max_seqlen_k as u32,
        seqlen_q_rounded: (ceil_div(op.max_seqlen_q as int, 128) * 128) as u32,
        seqlen_k_rounded: (ceil_div(op.max_seqlen_k as int, 128) * 128) as u32,
        total_q: total_q as u32,
        is_bf16: flag_of(q.dtype == DType::BF16),
        is_causal: flag_of(window.is_causal),
        unpadded_lse: 1,
        window_size_left: window.left,
        window_size_right: window.right,
        softcap: softcap_of(op.softcap),
        block_table_batch_stride: match op.block_table {
            Some(t) => t.strides@[0] as u32,
            None => 0,
        },
        page_block_size: if paged {
            k.dims@[1] as i32
        } else {
            0
        },
        mm_prefix_range_batch_stride: match op.mm_prefix_ranges {
            Some(t) => t.strides@[0] as u32,
            None => 0,
        },
        max_mm_prefix_ranges: match op.mm_prefix_ranges {
            Some(t) => t.dims@[1] as i32,
            None => 0,
        },
        num_splits: 1,
        force_split_kernel: 0,
    }
}

/// The stretch of its storage that a contiguous tensor takes.
pub open spec fn stretch(t: &TensorDesc) -> (int, int) {
    (t.start_offset as int, t.start_offset + elem_count(t.dims@))
}

impl VarLenCall {
    /// The call is the launch of `op` on q, k and v.
    pub open spec fn launches(
        &self,
        op: &FlashAttnVarLen,
        q: &TensorDesc,
        k: &TensorDesc,
        v: &TensorDesc,
    ) -> bool {
        &&& self.params == varlen_params(op, q, k, v)
        &&& self.q_offset == q.start_offset
        &&& self.k_offset == k.start_offset
        &&& self.v_offset == v.start_offset
        &&& (self.seqlens_q.0 as int, self.seqlens_q.1 as int) == stretch(&op.seqlens_q)
        &&& (self.seqlens_k.0 as int, self.seqlens_k.1 as int) == stretch(&op.seqlens_k)
        &&& self.alibi_offset == start_of(op.alibi_slopes)
        &&& self.block_table_offset == start_of(op.block_table)
        &&& self.mm_prefix_ranges_offset == start_of(op.mm_prefix_ranges)
        &&& self.out_dims@ == q.dims@
        &&& self.out_len == elem_count(q.dims@)
        &&& self.lse_len == q.dims@[1] * q.dims@[0]
    }
}

/// The cumulative lengths' place in their storage, or the first reason to
/// refuse them.
fn check_seqlens(seqlens: &TensorDesc, operand: Operand) -> (r: Result<(usize, usize), FlashError>)
    requires
        seqlens.well_formed(),
    ensures
        match r {
            Ok(at) => seqlens_error(seqlens, operand) is None && (at.0 as int, at.1 as int)
                == stretch(seqlens),
            Err(e) => seqlens_error(seqlens, operand) == Some(e),
        },
{
    if !seqlens.is_on_cuda() {
        return Err(FlashError::NotCuda(operand));
    }
    if !is_u32(seqlens.dtype) {
        return Err(
            FlashError::UnexpectedDType { operand, expected: DType::U32, got: seqlens.dtype },
        );
    }
    match seqlens.contiguous_offsets() {
        Some(at) => Ok(at),
        None => Err(FlashError::NotContiguous(operand)),
    }
}

fn check_block_table(block_table: &Option<TensorDesc>) -> (r: Option<FlashError>)
    ensures
        r == block_table_error(*block_table),
{
    match block_table {
        None => None,
        Some(t) => {
            if !t.is_on_cuda() {
                return Some(FlashError::NotCuda(Operand::BlockTable));
            }
            if t.dims.len() != 2 {
                return Some(
                    FlashError::UnexpectedNumDims {
                        operand: Operand::BlockTable,
                        wanted: 2,
                        rank: t.dims.len(),
                    },
                );
            }
            if !t.has_contiguous_last_dim() {
                return Some(FlashError::LastDimNotContiguous(Operand::BlockTable));
            }
            None
        },
    }
}

fn check_ranks(paged: bool, q: &TensorDesc, k: &TensorDesc, v: &TensorDesc) -> (r: Option<
    FlashError,
>)
    requires
        q.well_formed(),
        k.well_formed(),
        v.well_formed(),
    ensures
        r == varlen_rank_error(paged, q, k, v),
{
    let q_rank = q.strides.len();
    let k_rank = k.strides.len();
    let v_rank = v.strides.len();
    if q_rank != 3 || (!paged && k_rank != 3) || (!paged && v_rank != 3) {
        return Some(FlashError::Rank { q: q_rank, k: k_rank, v: v_rank });
    }
    if paged && (k_rank != 4 || v_rank != 4) {
        return Some(FlashError::PagedRank { k: k_rank, v: v_rank });
    }
    check_last_dims(q, k, v)
}

fn check_paged_shapes(
    page_block_size: Option<usize>,
    q: &TensorDesc,
    k: &TensorDesc,
    v: &TensorDesc,
) -> (r: Option<FlashError>)
    requires
        q.dims@.len() == 3,
        k.dims@.len() == 4,
    ensures
        r == paged_shape_error(page_block_size, q, k, v),
{
    if !same_dims(&v.dims, &k.dims) {
        return Some(FlashError::ShapeMismatch(Operand::K, Operand::V));
    }
    if k.dims[3] != q.dims[2] {
        return Some(FlashError::ShapeMismatch(Operand::Q, Operand::K));
    }
    match page_block_size {
        None => Some(FlashError::MissingPageBlockSize),
        Some(size) => {
            if size != k.dims[1] {
                return Some(FlashError::PageBlockSizeMismatch { given: size, k: k.dims[1] });
            }
            if size % 32 != 0 {
                return Some(FlashError::PageBlockSizeNotMultiple(size));
            }
            if q.dims[2] > 512 {
                return Some(FlashError::PagedHeadTooLarge(q.dims[2]));
            }
            None
        },
    }
}

fn check_unpaged_shapes(q: &TensorDesc, k: &TensorDesc, v: &TensorDesc) -> (r: Option<FlashError>)
    requires
        q.dims@.len() == 3,
        k.dims@.len() == 3,
    ensures
        r == unpaged_shape_error(q, k, v),
{
    if k.dims[2] != q.dims[2] {
        return Some(FlashError::ShapeMismatch(Operand::Q, Operand::K));
    }
    if !same_dims(&v.dims, &k.dims) {
        return Some(FlashError::ShapeMismatch(Operand::Q, Operand::V));
    }
    None
}

fn check_prefix_ranges(ranges: &Option<TensorDesc>, batch_size: usize) -> (r: Option<FlashError>)
    ensures
        r == prefix_ranges_error(*ranges, batch_size),
{
    match ranges {
        None => None,
        Some(t) => {
            if !is_i32(t.dtype) {
                return Some(FlashError::PrefixRangesDType(t.dtype));
            }
            if !t.is_on_cuda() {
                return Some(FlashError::NotCuda(Operand::MmPrefixRanges));
            }
            if t.dims.len() != 3 {
                return Some(
                    FlashError::UnexpectedNumDims {
                        operand: Operand::MmPrefixRanges,
                        wanted: 3,
                        rank: t.dims.len(),
                    },
                );
            }
            if t.dims[0] != batch_size || t.dims[2] != 2 {
                return Some(FlashError::PrefixRangesShape { batch_size });
            }
            if !t.has_contiguous_last_dim() {
                return Some(FlashError::LastDimNotContiguous(Operand::MmPrefixRanges));
            }
            None
        },
    }
}

fn check_block_table_dtype(block_table: &Option<TensorDesc>) -> (r: Option<FlashError>)
    ensures
        r == block_table_dtype_error(*block_table),
{
    match block_table {
        None => None,
        Some(t) => if is_u32(t.dtype) || is_i32(t.dtype) {
            None
        } else {
            Some(FlashError::BlockTableDType(t.dtype))
        },
    }
}

/// The products of two of three dims that a launch needs.
proof fn lemma_three_dims(dims: Seq<usize>)
    requires
        dims.len() == 3,
        fits(dims),
    ensures
        0 <= dims[1] * dims[0] <= usize::MAX,
        0 <= dims[1] * dims[2] <= usize::MAX,
{
    reveal_with_fuel(nonzero_product, 4);
    let a = dims[0] as int;
    let b = dims[1] as int;
    let c = dims[2] as int;
    let za = if a == 0 { 1int } else { a };
    let zb = if b == 0 { 1int } else { b };
    let zc = if c == 0 { 1int } else { c };
    assert(1 * a == a && 1 * b == b && 1 * c == c);
    assert(nonzero_product(dims) == za * zb * zc) by {
        assert(1 * zb == zb && za * 1 == za && (za * zb) * 1 == za * zb);
    }
    assert(0 <= b * a <= za * zb * zc && 0 <= b * c <= za * zb * zc) by (nonlinear_arith)
        requires
            0 <= a <= za,
            0 <= b <= zb,
            0 <= c <= zc,
            za >= 1,
            zb >= 1,
            zc >= 1,
    {
        assert(0 <= b * a <= za * zb);
        assert(0 <= b * c <= zb * zc);
        assert(za * zb <= (za * zb) * zc);
        assert(zb * zc <= za * (zb * zc));
        assert(za * (zb * zc) == za * zb * zc);
    }
}

impl FlashAttnVarLen {
    /// Whether the launch of the operation on q, k and v can be planned.
    pub fn can_plan(&self, q: &TensorDesc, k: &TensorDesc, v: &TensorDesc) -> (r: bool)
        ensures
            r == varlen_fits(self, q, k, v),
    {
        if !q.is_well_formed() || !k.is_well_formed() || !v.is_well_formed()
            || !self.seqlens_q.is_well_formed() || !self.seqlens_k.is_well_formed()
            || !is_well_formed_option(&self.block_table) || !is_well_formed_option(
            &self.mm_prefix_ranges,
        ) || !is_well_formed_option(&self.alibi_slopes) {
            return false;
        }
        if check_operands(q, k, v).is_some() || self.check_shapes(q, k, v).is_err() {
            return true;
        }
        let num_heads_k = if self.block_table.is_some() {
            k.dims[2]
        } else {
            k.dims[1]
        };
        if num_heads_k == 0 {
            return false;
        }
        if self.check_counts(q, k).is_err() {
            return true;
        }
        can_round(self.max_seqlen_q) && can_round(self.max_seqlen_k)
    }

    /// Where the cumulative lengths are in their storages, or the first reason
    /// to refuse the launch up to the counts of heads.
    fn check_shapes(&self, q: &TensorDesc, k: &TensorDesc, v: &TensorDesc) -> (r: Result<
        ((usize, usize), (usize, usize)),
        FlashError,
    >)
        requires
            q.well_formed(),
            k.well_formed(),
            v.well_formed(),
            self.seqlens_q.well_formed(),
            self.seqlens_k.well_formed(),
            operand_error(q, k, v) is None,
        ensures
            match r {
                Ok((at_q, at_k)) => {
                    &&& varlen_operand_error(self, q, k, v) is None
                    &&& (at_q.0 as int, at_q.1 as int) == stretch(&self.seqlens_q)
                    &&& (at_k.0 as int, at_k.1 as int) == stretch(&self.seqlens_k)
                },
                Err(e) => varlen_operand_error(self, q, k, v) == Some(e),
            },
    {
        let seqlens_q = match check_seqlens(&self.seqlens_q, Operand::SeqlensQ) {
            Ok(at) => at,
            Err(e) => return Err(e),
        };
        let seqlens_k = match check_seqlens(&self.seqlens_k, Operand::SeqlensK) {
            Ok(at) => at,
            Err(e) => return Err(e),
        };
        if let Some(e) = check_block_table(&self.block_table) {
            return Err(e);
        }
        if let Some(e) = check_dtypes(q, k, v) {
            return Err(e);
        }
        let paged = self.block_table.is_some();
        if let Some(e) = check_ranks(paged, q, k, v) {
            return Err(e);
        }
        let shapes = if paged {
            check_paged_shapes(self.page_block_size, q, k, v)
        } else {
            check_unpaged_shapes(q, k, v)
        };
        if let Some(e) = shapes {
            return Err(e);
        }
        if let Some(e) = check_head_size(q.dims[2]) {
            return Err(e);
        }
        Ok((seqlens_q, seqlens_k))
    }

    /// The number of sequences, or the first reason to refuse the launch from
    /// the counts of heads on, but for the element type of the block table.
    fn check_counts(&self, q: &TensorDesc, k: &TensorDesc) -> (r: Result<usize, FlashError>)
        requires
            q.dims@.len() == 3,
            k.dims@.len() == (if self.block_table is Some {
                4int
            } else {
                3int
            }),
            kv_heads(self.block_table is Some, k) != 0,
        ensures
            match r {
                Ok(n) => {
                    &&& varlen_count_error(self, q, k) is None
                    &&& n == self.seqlens_q.dims@[0] - 1
                },
                Err(e) => varlen_count_error(self, q, k) == Some(e),
            },
    {
        let num_heads = q.dims[1];
        let num_heads_k = if self.block_table.is_some() {
            k.dims[2]
        } else {
            k.dims[1]
        };
        if num_heads % num_heads_k != 0 {
            return Err(FlashError::HeadCounts { q: num_heads, kv: num_heads_k });
        }
        if self.seqlens_q.dims.len() != 1 {
            return Err(
                FlashError::UnexpectedNumDims {
                    operand: Operand::SeqlensQ,
                    wanted: 1,
                    rank: self.seqlens_q.dims.len(),
                },
            );
        }
        let nseqlens_q = self.seqlens_q.dims[0];
        if nseqlens_q < 2 {
            return Err(FlashError::TooFewSeqlens(nseqlens_q));
        }
        if self.seqlens_k.dims.len() != 1 {
            return Err(
                FlashError::UnexpectedNumDims {
                    operand: Operand::SeqlensK,
                    wanted: 1,
                    rank: self.seqlens_k.dims.len(),
                },
            );
        }
        let nseqlens_k = self.seqlens_k.dims[0];
        if nseqlens_k != nseqlens_q {
            return Err(FlashError::SeqlensDiffer { q: nseqlens_q, k: nseqlens_k });
        }
        let batch_size: usize = nseqlens_q - 1;
        if let Some(e) = check_prefix_ranges(&self.mm_prefix_ranges, batch_size) {
            return Err(e);
        }
        if let Some(e) = check_alibi(&self.alibi_slopes, num_heads) {
            return Err(e);
        }
        Ok(batch_size)
    }

    /// Plans the launch for one element type of q.
    fn cuda_fwd_t(&self, q: &TensorDesc, k: &TensorDesc, v: &TensorDesc, is_bf16: bool) -> (r:
        Result<VarLenCall, FlashError>)
        requires
            varlen_fits(self, q, k, v),
            operand_error(q, k, v) is None,
            is_bf16 == (q.dtype == DType::BF16),
        ensures
            match r {
                Ok(call) => varlen_error(self, q, k, v) is None && call.launches(self, q, k, v),
                Err(e) => varlen_error(self, q, k, v) == Some(e),
            },
    {
        let (seqlens_q, seqlens_k) = match self.check_shapes(q, k, v) {
            Ok(at) => at,
            Err(e) => return Err(e),
        };
        let batch_size = match self.check_counts(q, k) {
            Ok(n) => n,
            Err(e) => return Err(e),
        };
        let paged = self.block_table.is_some();
        let total_q = q.dims[0];
        let num_heads = q.dims[1];
        let head_size_og = q.dims[2];
        let (num_heads_k, page_block_size): (usize, usize) = if paged {
            (k.dims[2], k.dims[1])
        } else {
            (k.dims[1], 0)
        };
        let window = normalise_window(
            self.window_size_left,
            self.window_size_right,
            self.max_seqlen_k,
            self.mm_prefix_ranges.is_some(),
        );
        proof {
            lemma_head_rounding(head_size_og);
            lemma_three_dims(q.dims@);
        }
        let head_size = round_multiple(head_size_og, 8);
        let head_size_rounded = round_multiple(head_size, 32);
        let seqlen_q_rounded = round_multiple(self.max_seqlen_q, 128);
        let seqlen_k_rounded = round_multiple(self.max_seqlen_k, 128);
        if let Some(e) = check_block_table_dtype(&self.block_table) {
            return Err(e);
        }
        let at: usize = if paged {
            1
        } else {
            0
        };
        let block_table_batch_stride: u32 = match &self.block_table {
            Some(t) => t.strides[0] as u32,
            None => 0,
        };
        let (mm_prefix_range_batch_stride, max_mm_prefix_ranges): (u32, i32) =
            match &self.mm_prefix_ranges {
            Some(t) => (t.strides[0] as u32, t.dims[1] as i32),
            None => (0, 0),
        };
        let params = MhaParams {
            q_batch_stride: 0,
            k_batch_stride: if paged {
                k.strides[0] as u32
            } else {
                0
            },
            v_batch_stride: if paged {
                v.strides[0] as u32
            } else {
                0
            },
            o_batch_stride: 0,
            alibi_slopes_batch_stride: 0,
            q_row_stride: q.strides[0] as u32,
            k_row_stride: k.strides[at] as u32,
            v_row_stride: v.strides[at] as u32,
            o_row_stride: (num_heads * head_size_og) as u32,
            q_head_stride: q.strides[1] as u32,
            k_head_stride: k.strides[at + 1] as u32,
            v_head_stride: v.strides[at + 1] as u32,
            o_head_stride: head_size_og as u32,
            b: batch_size as u32,
            h: num_heads as u32,
            h_k: num_heads_k as u32,
            d: head_size as u32,
            d_rounded: head_size_rounded as u32,
            softmax_scale: self.softmax_scale,
            seqlen_q: self.max_seqlen_q as u32,
            seqlen_k: self.max_seqlen_k as u32,
            seqlen_q_rounded: seqlen_q_rounded as u32,
            seqlen_k_rounded: seqlen_k_rounded as u32,
            total_q: total_q as u32,
            is_bf16: flag(is_bf16),
            is_causal: flag(window.is_causal),
            unpadded_lse: 1,
            window_size_left: window.left,
            window_size_right: window.right,
            softcap: softcap_or_zero(self.softcap),
            block_table_batch_stride,
            page_block_size: page_block_size as i32,
            mm_prefix_range_batch_stride,
            max_mm_prefix_ranges,
            num_splits: 1,
            force_split_kernel: 0,
        };
        let out_dims = q.dims.clone();
        Ok(
            VarLenCall {
                params,
                q_offset: q.start_offset,
                k_offset: k.start_offset,
                v_offset: v.start_offset,
                seqlens_q,
                seqlens_k,
                alibi_offset: offset_of(&self.alibi_slopes),
                block_table_offset: offset_of(&self.block_table),
                mm_prefix_ranges_offset: offset_of(&self.mm_prefix_ranges),
                out_dims,
                out_len: count_elems(&q.dims),
                lse_len: num_heads * total_q,
            },
        )
    }

    /// Plans the launch of the operation on q, k and v, or says why there is
    /// none.
    pub fn forward(&self, q: &TensorDesc, k: &TensorDesc, v: &TensorDesc) -> (r: Result<
        VarLenCall,
        FlashError,
    >)
        requires
            varlen_fits(self, q, k, v),
        ensures
            match r {
                Ok(call) => varlen_error(self, q, k, v) is None && call.launches(self, q, k, v),
                Err(e) => varlen_error(self, q, k, v) == Some(e),
            },
            r is Ok ==> does_varlen(&r->Ok_0, self, q, k, v),
    {
        if let Some(e) = check_operands(q, k, v) {
            return Err(e);
        }
        let r = self.cuda_fwd_t(q, k, v, is_bf16(q.dtype));
        proof {
            if let Ok(call) = &r {
                varlen_launches_do(call, self, q, k, v);
            }
        }
        r
    }
}

/// What a launch returns: the call for `op`, or the first reason to refuse it.
pub open spec fn varlen_outcome(
    op: FlashAttnVarLen,
    q: &TensorDesc,
    k: &TensorDesc,
    v: &TensorDesc,
    r: Result<VarLenCall, FlashError>,
) -> bool {
    match r {
        Ok(call) => varlen_error(&op, q, k, v) is None && call.launches(&op, q, k, v),
        Err(e) => varlen_error(&op, q, k, v) == Some(e),
    }
}

/// The copy of an optional descriptor describes the same tensor.
pub open spec fn same_option(a: Option<TensorDesc>, b: Option<TensorDesc>) -> bool {
    match (a, b) {
        (Some(x), Some(y)) => x.same_as(&y),
        (None, None) => true,
        _ => false,
    }
}

/// The two operations describe the same tensors and have the same settings.
pub open spec fn same_op(a: &FlashAttnVarLen, b: &FlashAttnVarLen) -> bool {
    &&& a.softmax_scale == b.softmax_scale
    &&& a.max_seqlen_q == b.max_seqlen_q
    &&& a.max_seqlen_k == b.max_seqlen_k
    &&& a.seqlens_q.same_as(&b.seqlens_q)
    &&& a.seqlens_k.same_as(&b.seqlens_k)
    &&& same_option(a.block_table, b.block_table)
    &&& same_option(a.mm_prefix_ranges, b.mm_prefix_ranges)
    &&& a.page_block_size == b.page_block_size
    &&& same_option(a.alibi_slopes, b.alibi_slopes)
    &&& a.window_size_left == b.window_size_left
    &&& a.window_size_right == b.window_size_right
    &&& a.softcap == b.softcap
}

/// A launch depends on its side tensors only through what describes them.
pub proof fn lemma_same_op(
    a: FlashAttnVarLen,
    b: FlashAttnVarLen,
    q: &TensorDesc,
    k: &TensorDesc,
    v: &TensorDesc,
)
    requires
        same_op(&a, &b),
    ensures
        varlen_fits(&a, q, k, v) == varlen_fits(&b, q, k, v),
        varlen_error(&a, q, k, v) == varlen_error(&b, q, k, v),
        varlen_error(&a, q, k, v) is None ==> varlen_params(&a, q, k, v) == varlen_params(
            &b,
            q,
            k,
            v,
        ),
{
    assert(seqlens_error(&a.seqlens_q, Operand::SeqlensQ) == seqlens_error(
        &b.seqlens_q,
        Operand::SeqlensQ,
    ));
    assert(seqlens_error(&a.seqlens_k, Operand::SeqlensK) == seqlens_error(
        &b.seqlens_k,
        Operand::SeqlensK,
    ));
    assert(block_table_error(a.block_table) == block_table_error(b.block_table));
    assert(varlen_shape_error(&a, q, k, v) == varlen_shape_error(&b, q, k, v));
    assert(varlen_operand_error(&a, q, k, v) == varlen_operand_error(&b, q, k, v));
    assert(varlen_count_error(&a, q, k) == varlen_count_error(&b, q, k));
    assert(varlen_early_error(&a, q, k, v) == varlen_early_error(&b, q, k, v));
}

/// The operation without pages with these settings.
pub open spec fn varlen_op(
    seqlens: (TensorDesc, TensorDesc),
    max_seqlens: (usize, usize),
    softmax_scale: F32Bits,
    alibi_slopes: Option<TensorDesc>,
    window_size_left: Option<usize>,
    window_size_right: Option<usize>,
    softcap: Option<F32Bits>,
) -> FlashAttnVarLen {
    FlashAttnVarLen {
        softmax_scale,
        max_seqlen_q: max_seqlens.0,
        max_seqlen_k: max_seqlens.1,
        seqlens_q: seqlens.0,
        seqlens_k: seqlens.1,
        block_table: None,
        mm_prefix_ranges: None,
        page_block_size: None,
        alibi_slopes,
        window_size_left,
        window_size_right,
        softcap,
    }
}

/// The operation with pages with these settings.
pub open spec fn paged_op(
    seqlens: (TensorDesc, TensorDesc),
    block_table: TensorDesc,
    mm_prefix_ranges: Option<TensorDesc>,
    max_seqlens: (usize, usize),
    softmax_scale: F32Bits,
    window_size_left: Option<usize>,
    window_size_right: Option<usize>,
    page_block_size: usize,
    softcap: Option<F32Bits>,
) -> FlashAttnVarLen {
    FlashAttnVarLen {
        softmax_scale,
        max_seqlen_q: max_seqlens.0,
        max_seqlen_k: max_seqlens.1,
        seqlens_q: seqlens.0,
        seqlens_k: seqlens.1,
        block_table: Some(block_table),
        mm_prefix_ranges,
        page_block_size: Some(page_block_size),
        alibi_slopes: None,
        window_size_left,
        window_size_right,
        softcap,
    }
}

/// Flash-attention v2 layer with variable-length batching.
///
/// q has the shape `(total_q, num_heads_q, head_size)`, k and v have
/// `(total_kv, num_heads_kv, head_size)`; the result has the shape of
/// q. `seqlens_q` and `seqlens_k` hold the cumulative lengths of the
/// sequences, one more than there are sequences.
pub fn flash_attn_varlen(
    q: &TensorDesc,
    k: &TensorDesc,
    v: &TensorDesc,
    seqlens_q: &TensorDesc,
    seqlens_k: &TensorDesc,
    max_seqlen_q: usize,
    max_seqlen_k: usize,
    softmax_scale: F32Bits,
    causal: bool,
) -> (r: Result<VarLenCall, FlashError>)
    requires
        varlen_fits(
            &varlen_op(
                (*seqlens_q, *seqlens_k),
                (max_seqlen_q, max_seqlen_k),
                softmax_scale,
                None,
                None,
                causal_limit(causal),
                None,
            ),
            q,
            k,
            v,
        ),
    ensures
        varlen_outcome(
            varlen_op(
                (*seqlens_q, *seqlens_k),
                (max_seqlen_q, max_seqlen_k),
                softmax_scale,
                None,
                None,
                causal_limit(causal),
                None,
            ),
            q,
            k,
            v,
            r,
        ),
        r is Ok ==> does_varlen(
            &r->Ok_0,
            &(FlashAttnVarLen {
                softmax_scale,
                max_seqlen_q,
                max_seqlen_k,
                seqlens_q: *seqlens_q,
                seqlens_k: *seqlens_k,
                block_table: None,
                mm_prefix_ranges: None,
                page_block_size: None,
                alibi_slopes: None,
                window_size_left: None,
                window_size_right: if causal {
                    Some(0)
                } else {
                    None
                },
                softcap: None,
            }),
            q,
            k,
            v,
        ),
{
    let op = FlashAttnVarLen {
        softmax_scale,
        max_seqlen_q,
        max_seqlen_k,
        seqlens_q: seqlens_q.clone(),
        seqlens_k: seqlens_k.clone(),
        block_table: None,
        mm_prefix_ranges: None,
        page_block_size: None,
        alibi_slopes: None,
        window_size_left: None,
        window_size_right: right_limit(causal),
        softcap: None,
    };
    let ghost described_op = varlen_op(
        (*seqlens_q, *seqlens_k),
        (max_seqlen_q, max_seqlen_k),
        softmax_scale,
        None,
        None,
        causal_limit(causal),
        None,
    );
    proof {
        lemma_same_op(op, described_op, q, k, v);
    }
    let r = op.forward(q, k, v);
    proof {
        if let Ok(call) = &r {
            varlen_launches_do(call, &described_op, q, k, v);
        }
    }
    r
}

/// Flash-attention v2 layer with variable-length batching.
///
/// q has the shape `(total_q, num_heads_q, head_size)`, k and v have
/// `(total_kv, num_heads_kv, head_size)`; the result has the shape of
/// q. `seqlens_q` and `seqlens_k` hold the cumulative lengths of the
/// sequences, one more than there are sequences. The two limits bound how
/// far to the left and to the right a query looks.
pub fn flash_attn_varlen_windowed(
    q: &TensorDesc,
    k: &TensorDesc,
    v: &TensorDesc,
    seqlens_q: &TensorDesc,
    seqlens_k: &TensorDesc,
    max_seqlen_q: usize,
    max_seqlen_k: usize,
    softmax_scale: F32Bits,
    window_size_left: Option<usize>,
    window_size_right: Option<usize>,
) -> (r: Result<VarLenCall, FlashError>)
    requires
        varlen_fits(
            &varlen_op(
                (*seqlens_q, *seqlens_k),
                (max_seqlen_q, max_seqlen_k),
                softmax_scale,
                None,
                window_size_left,
                window_size_right,
                None,
            ),
            q,
            k,
            v,
        ),
    ensures
        varlen_outcome(
            varlen_op(
                (*seqlens_q, *seqlens_k),
                (max_seqlen_q, max_seqlen_k),
                softmax_scale,
                None,
                window_size_left,
                window_size_right,
                None,
            ),
            q,
            k,
            v,
            r,
        ),
        r is Ok ==> does_varlen(
            &r->Ok_0,
            &(FlashAttnVarLen {
                softmax_scale,
                max_seqlen_q,
                max_seqlen_k,
                seqlens_q: *seqlens_q,
                seqlens_k: *seqlens_k,
                block_table: None,
                mm_prefix_ranges: None,
                page_block_size: None,
                alibi_slopes: None,
                window_size_left,
                window_size_right,
                softcap: None,
            }),
            q,
            k,
            v,
        ),
{
    let op = FlashAttnVarLen {
        softmax_scale,
        max_seqlen_q,
        max_seqlen_k,
        seqlens_q: seqlens_q.clone(),
        seqlens_k: seqlens_k.clone(),
        block_table: None,
        mm_prefix_ranges: None,
        page_block_size: None,
        alibi_slopes: None,
        window_size_left,
        window_size_right,
        softcap: None,
    };
    let ghost described_op = varlen_op(
        (*seqlens_q, *seqlens_k),
        (max_seqlen_q, max_seqlen_k),
        softmax_scale,
        None,
        window_size_left,
        window_size_right,
        None,
    );
    proof {
        lemma_same_op(op, described_op, q, k, v);
    }
    let r = op.forward(q, k, v);
    proof {
        if let Ok(call) = &r {
            varlen_launches_do(call, &described_op, q, k, v);
        }
    }
    r
}

/// Flash-attention v2 layer with variable-length batching and a paged K/V cache.
///
/// q has the shape `(total_q, num_heads_q, head_size)`, k and v have
/// `(num_blocks, page_block_size, num_heads_kv, head_size)`; the result has the shape of
/// q. `seqlens_q` and `seqlens_k` hold the cumulative lengths of the
/// sequences, one more than there are sequences.
/// The block table, of the shape `(batch_size, max_blocks)`, holds the pages of
/// each sequence in a row; the rows may lie apart. The prefix ranges, of the
/// shape `(batch_size, max_ranges, 2)`, bypass the window.
pub fn flash_attn_varlen_paged_windowed(
    q: &TensorDesc,
    k: &TensorDesc,
    v: &TensorDesc,
    seqlens_q: &TensorDesc,
    seqlens_k: &TensorDesc,
    block_table: &TensorDesc,
    mm_prefix_ranges: Option<&TensorDesc>,
    max_seqlen_q: usize,
    max_seqlen_k: usize,
    softmax_scale: F32Bits,
    window_size_left: Option<usize>,
    window_size_right: Option<usize>,
    page_block_size: usize,
    softcap: Option<F32Bits>,
) -> (r: Result<VarLenCall, FlashError>)
    requires
        varlen_fits(
            &paged_op(
                (*seqlens_q, *seqlens_k),
                *block_table,
                described(mm_prefix_ranges),
                (max_seqlen_q, max_seqlen_k),
                softmax_scale,
                window_size_left,
                window_size_right,
                page_block_size,
                softcap,
            ),
            q,
            k,
            v,
        ),
    ensures
        varlen_outcome(
            paged_op(
                (*seqlens_q, *seqlens_k),
                *block_table,
                described(mm_prefix_ranges),
                (max_seqlen_q, max_seqlen_k),
                softmax_scale,
                window_size_left,
                window_size_right,
                page_block_size,
                softcap,
            ),
            q,
            k,
            v,
            r,
        ),
        r is Ok ==> does_varlen(
            &r->Ok_0,
            &(FlashAttnVarLen {
                softmax_scale,
                max_seqlen_q,
                max_seqlen_k,
                seqlens_q: *seqlens_q,
                seqlens_k: *seqlens_k,
                block_table: Some(*block_table),
                mm_prefix_ranges: described(mm_prefix_ranges),
                page_block_size: Some(page_block_size),
                alibi_slopes: None,
                window_size_left,
                window_size_right,
                softcap,
            }),
            q,
            k,
            v,
        ),
{
    let op = FlashAttnVarLen {
        softmax_scale,
        max_seqlen_q,
        max_seqlen_k,
        seqlens_q: seqlens_q.clone(),
        seqlens_k: seqlens_k.clone(),
        block_table: Some(block_table.clone()),
        mm_prefix_ranges: copy_described(mm_prefix_ranges),
        page_block_size: Some(page_block_size),
        alibi_slopes: None,
        window_size_left,
        window_size_right,
        softcap,
    };
    let ghost described_op = paged_op(
        (*seqlens_q, *seqlens_k),
        *block_table,
        described(mm_prefix_ranges),
        (max_seqlen_q, max_seqlen_k),
        softmax_scale,
        window_size_left,
        window_size_right,
        page_block_size,
        softcap,
    );
    proof {
        lemma_same_op(op, described_op, q, k, v);
    }
    let r = op.forward(q, k, v);
    proof {
        if let Ok(call) = &r {
            varlen_launches_do(call, &described_op, q, k, v);
        }
    }
    r
}

/// Flash-attention v2 layer with variable-length batching and alibi slopes.
///
/// q has the shape `(total_q, num_heads_q, head_size)`, k and v have
/// `(total_kv, num_heads_kv, head_size)`; the result has the shape of
/// q. `seqlens_q` and `seqlens_k` hold the cumulative lengths of the
/// sequences, one more than there are sequences. The slopes have
/// the shape `(num_heads_q)`.
pub fn flash_attn_varlen_alibi(
    q: &TensorDesc,
    k: &TensorDesc,
    v: &TensorDesc,
    alibi_slopes: &TensorDesc,
    seqlens_q: &TensorDesc,
    seqlens_k: &TensorDesc,
    max_seqlen_q: usize,
    max_seqlen_k: usize,
    softmax_scale: F32Bits,
    causal: bool,
) -> (r: Result<VarLenCall, FlashError>)
    requires
        varlen_fits(
            &varlen_op(
                (*seqlens_q, *seqlens_k),
                (max_seqlen_q, max_seqlen_k),
                softmax_scale,
                Some(*alibi_slopes),
                None,
                causal_limit(causal),
                None,
            ),
            q,
            k,
            v,
        ),
    ensures
        varlen_outcome(
            varlen_op(
                (*seqlens_q, *seqlens_k),
                (max_seqlen_q, max_seqlen_k),
                softmax_scale,
                Some(*alibi_slopes),
                None,
                causal_limit(causal),
                None,
            ),
            q,
            k,
            v,
            r,
        ),
        r is Ok ==> does_varlen(
            &r->Ok_0,
            &(FlashAttnVarLen {
                softmax_scale,
                max_seqlen_q,
                max_seqlen_k,
                seqlens_q: *seqlens_q,
                seqlens_k: *seqlens_k,
                block_table: None,
                mm_prefix_ranges: None,
                page_block_size: None,
                alibi_slopes: Some(*alibi_slopes),
                window_size_left: None,
                window_size_right: if causal {
                    Some(0)
                } else {
                    None
                },
                softcap: None,
            }),
            q,
            k,
            v,
        ),
{
    let op = FlashAttnVarLen {
        softmax_scale,
        max_seqlen_q,
        max_seqlen_k,
        seqlens_q: seqlens_q.clone(),
        seqlens_k: seqlens_k.clone(),
        block_table: None,
        mm_prefix_ranges: None,
        page_block_size: None,
        alibi_slopes: Some(alibi_slopes.clone()),
        window_size_left: None,
        window_size_right: right_limit(causal),
        softcap: None,
    };
    let ghost described_op = varlen_op(
        (*seqlens_q, *seqlens_k),
        (max_seqlen_q, max_seqlen_k),
        softmax_scale,
        Some(*alibi_slopes),
        None,
        causal_limit(causal),
        None,
    );
    proof {
        lemma_same_op(op, described_op, q, k, v);
    }
    let r = op.forward(q, k, v);
    proof {
        if let Ok(call) = &r {
            varlen_launches_do(call, &described_op, q, k, v);
        }
    }
    r
}

/// Flash-attention v2 layer with variable-length batching and alibi slopes.
///
/// q has the shape `(total_q, num_heads_q, head_size)`, k and v have
/// `(total_kv, num_heads_kv, head_size)`; the result has the shape of
/// q. `seqlens_q` and `seqlens_k` hold the cumulative lengths of the
/// sequences, one more than there are sequences. The slopes have
/// the shape `(num_heads_q)`; the two limits bound how far a query looks.
pub fn flash_attn_varlen_alibi_windowed(
    q: &TensorDesc,
    k: &TensorDesc,
    v: &TensorDesc,
    alibi_slopes: &TensorDesc,
    seqlens_q: &TensorDesc,
    seqlens_k: &TensorDesc,
    max_seqlen_q: usize,
    max_seqlen_k: usize,
    softmax_scale: F32Bits,
    window_size_left: Option<usize>,
    window_size_right: Option<usize>,
) -> (r: Result<VarLenCall, FlashError>)
    requires
        varlen_fits(
            &varlen_op(
                (*seqlens_q, *seqlens_k),
                (max_seqlen_q, max_seqlen_k),
                softmax_scale,
                Some(*alibi_slopes),
                window_size_left,
                window_size_right,
                None,
            ),
            q,
            k,
            v,
        ),
    ensures
        varlen_outcome(
            varlen_op(
                (*seqlens_q, *seqlens_k),
                (max_seqlen_q, max_seqlen_k),
                softmax_scale,
                Some(*alibi_slopes),
                window_size_left,
                window_size_right,
                None,
            ),
            q,
            k,
            v,
            r,
        ),
        r is Ok ==> does_varlen(
            &r->Ok_0,
            &(FlashAttnVarLen {
                softmax_scale,
                max_seqlen_q,
                max_seqlen_k,
                seqlens_q: *seqlens_q,
                seqlens_k: *seqlens_k,
                block_table: None,
                mm_prefix_ranges: None,
                page_block_size: None,
                alibi_slopes: Some(*alibi_slopes),
                window_size_left,
                window_size_right,
                softcap: None,
            }),
            q,
            k,
            v,
        ),
{
    let op = FlashAttnVarLen {
        softmax_scale,
        max_seqlen_q,
        max_seqlen_k,
        seqlens_q: seqlens_q.clone(),
        seqlens_k: seqlens_k.clone(),
        block_table: None,
        mm_prefix_ranges: None,
        page_block_size: None,
        alibi_slopes: Some(alibi_slopes.clone()),
        window_size_left,
        window_size_right,
        softcap: None,
    };
    let ghost described_op = varlen_op(
        (*seqlens_q, *seqlens_k),
        (max_seqlen_q, max_seqlen_k),
        softmax_scale,
        Some(*alibi_slopes),
        window_size_left,
        window_size_right,
        None,
    );
    proof {
        lemma_same_op(op, described_op, q, k, v);
    }
    let r = op.forward(q, k, v);
    proof {
        if let Ok(call) = &r {
            varlen_launches_do(call, &described_op, q, k, v);
        }
    }
    r
}

/// Flash-attention v2 layer with variable-length batching, optional alibi slopes and a softcap.
///
/// q has the shape `(total_q, num_heads_q, head_size)`, k and v have
/// `(total_kv, num_heads_kv, head_size)`; the result has the shape of
/// q. `seqlens_q` and `seqlens_k` hold the cumulative lengths of the
/// sequences, one more than there are sequences.
/// The softcap bounds the attention logits before the softmax.
pub fn flash_attn_varlen_alibi_windowed_softcap(
    q: &TensorDesc,
    k: &TensorDesc,
    v: &TensorDesc,
    alibi_slopes: Option<&TensorDesc>,
    seqlens_q: &TensorDesc,
    seqlens_k: &TensorDesc,
    max_seqlen_q: usize,
    max_seqlen_k: usize,
    softmax_scale: F32Bits,
    window_size_left: Option<usize>,
    window_size_right: Option<usize>,
    softcap: F32Bits,
) -> (r: Result<VarLenCall, FlashError>)
    requires
        varlen_fits(
            &varlen_op(
                (*seqlens_q, *seqlens_k),
                (max_seqlen_q, max_seqlen_k),
                softmax_scale,
                described(alibi_slopes),
                window_size_left,
                window_size_right,
                Some(softcap),
            ),
            q,
            k,
            v,
        ),
    ensures
        varlen_outcome(
            varlen_op(
                (*seqlens_q, *seqlens_k),
                (max_seqlen_q, max_seqlen_k),
                softmax_scale,
                described(alibi_slopes),
                window_size_left,
                window_size_right,
                Some(softcap),
            ),
            q,
            k,
            v,
            r,
        ),
        r is Ok ==> does_varlen(
            &r->Ok_0,
            &(FlashAttnVarLen {
                softmax_scale,
                max_seqlen_q,
                max_seqlen_k,
                seqlens_q: *seqlens_q,
                seqlens_k: *seqlens_k,
                block_table: None,
                mm_prefix_ranges: None,
                page_block_size: None,
                alibi_slopes: described(alibi_slopes),
                window_size_left,
                window_size_right,
                softcap: Some(softcap),
            }),
            q,
            k,
            v,
        ),
{
    let op = FlashAttnVarLen {
        softmax_scale,
        max_seqlen_q,
        max_seqlen_k,
        seqlens_q: seqlens_q.clone(),
        seqlens_k: seqlens_k.clone(),
        block_table: None,
        mm_prefix_ranges: None,
        page_block_size: None,
        alibi_slopes: copy_described(alibi_slopes),
        window_size_left,
        window_size_right,
        softcap: Some(softcap),
    };
    let ghost described_op = varlen_op(
        (*seqlens_q, *seqlens_k),
        (max_seqlen_q, max_seqlen_k),
        softmax_scale,
        described(alibi_slopes),
        window_size_left,
        window_size_right,
        Some(softcap),
    );
    proof {
        lemma_same_op(op, described_op, q, k, v);
    }
    let r = op.forward(q, k, v);
    proof {
        if let Ok(call) = &r {
            varlen_launches_do(call, &described_op, q, k, v);
        }
    }
    r
}

/// Prefix ranges never leave a launch causal: what would be causal without
/// them looks over all keys on the left.
pub proof fn prefix_ranges_are_not_causal(
    op: &FlashAttnVarLen,
    q: &TensorDesc,
    k: &TensorDesc,
    v: &TensorDesc,
)
    requires
        op.max_seqlen_k <= i32::MAX,
        op.mm_prefix_ranges is Some,
    ensures
        varlen_params(op, q, k, v).is_causal == 0,
        op.window_size_left is None && op.window_size_right == Some(0usize) ==> {
            &&& varlen_params(op, q, k, v).window_size_left == op.max_seqlen_k
            &&& varlen_params(op, q, k, v).window_size_right == 0
        },
{
}

/// Launches with cumulative lengths never split the K dimension, and their
/// pages, where there are any, hold a multiple of 32 tokens.
pub proof fn varlen_never_splits(
    op: &FlashAttnVarLen,
    q: &TensorDesc,
    k: &TensorDesc,
    v: &TensorDesc,
)
    requires
        varlen_fits(op, q, k, v),
        varlen_error(op, q, k, v) is None,
    ensures
        varlen_params(op, q, k, v).num_splits == 1,
        op.block_table is Some ==> k.dims@[1] % 32 == 0 && op.page_block_size == Some(k.dims@[1]),
        op.block_table is None ==> varlen_params(op, q, k, v).page_block_size == 0,
{
}

/// The kernel finds page `j` of sequence `i` where row `i` of the block table
/// holds it, also where the rows lie further apart than they are long.
pub proof fn pages_lie_in_their_row(
    op: &FlashAttnVarLen,
    q: &TensorDesc,
    k: &TensorDesc,
    v: &TensorDesc,
    i: int,
    j: int,
)
    requires
        varlen_fits(op, q, k, v),
        varlen_error(op, q, k, v) is None,
        op.block_table is Some,
        op.block_table->0.strides@[0] <= u32::MAX,
    ensures
        ({
            let t = op.block_table->0;
            start_of(op.block_table)->0 + i * varlen_params(op, q, k, v).block_table_batch_stride + j
                == t.start_offset + i * t.strides@[0] + j * t.strides@[1]
        }),
{
    let t = op.block_table->0;
    assert(block_table_error(op.block_table) is None);
    assert(t.strides@[1] == 1);
}

} // verus!
