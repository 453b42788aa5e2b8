//! Which launches are refused, and for which reason.

use crate::flash::dense::{dense_error, dense_fits, FlashAttn};
use crate::flash::desc::{Placement, TensorDesc};
use crate::flash::error::{FlashError, Operand};
use crate::flash::varlen::{varlen_error, varlen_fits, FlashAttnVarLen};
use crate::math::lemma_ceil_div;
use crate::shape::row_major_stride;
use candle_core::DType;
use vstd::prelude::*;

verus! {

/// q, k and v are on the same cuda device.
pub open spec fn together(q: &TensorDesc, k: &TensorDesc, v: &TensorDesc) -> bool {
    q.placement is Cuda && k.placement == q.placement && v.placement == q.placement
}

/// An element type that the kernels compute in.
pub open spec fn half(dtype: DType) -> bool {
    dtype == DType::F16 || dtype == DType::BF16
}

/// The elements of the last dim lie one behind the other.
pub open spec fn packed(t: &TensorDesc) -> bool {
    t.strides@.len() > 0 && t.strides@[t.strides@.len() - 1] == 1
}

/// The elements lie row by row, one behind the other.
pub open spec fn in_row_order(t: &TensorDesc) -> bool {
    forall|i: int|
        0 <= i < t.dims@.len() && t.dims@[i] > 1 ==> #[trigger] t.strides@[i] == row_major_stride(
            t.dims@,
            i,
        )
}

/// A head size for which there is a kernel.
pub open spec fn head_fits(d: usize) -> bool {
    d <= 512 && d % 8 == 0
}

/// Slopes in single precision on a cuda device, one for each head.
pub open spec fn slopes_fit(alibi_slopes: Option<TensorDesc>, heads: usize) -> bool {
    alibi_slopes is Some ==> {
        let a = alibi_slopes->0;
        a.dtype == DType::F32 && a.dims@ == seq![heads] && a.placement is Cuda
    }
}

/// The slopes are refused for a reason, which no earlier one goes before.
pub open spec fn slopes_refused(
    e: FlashError,
    alibi_slopes: Option<TensorDesc>,
    heads: usize,
) -> bool {
    alibi_slopes is Some && {
        let a = alibi_slopes->0;
        match e {
            FlashError::AlibiDType(t) => t == a.dtype && t != DType::F32,
            FlashError::UnexpectedNumDims { operand, wanted, rank } => {
                &&& a.dtype == DType::F32
                &&& operand == Operand::AlibiSlopes
                &&& wanted == 1
                &&& rank == a.dims@.len()
                &&& rank != 1
            },
            FlashError::AlibiShape { num_heads, slopes } => {
                &&& a.dtype == DType::F32
                &&& a.dims@ == seq![slopes]
                &&& num_heads == heads
                &&& slopes != heads
            },
            FlashError::NotCuda(o) => {
                &&& a.dtype == DType::F32
                &&& a.dims@ == seq![heads]
                &&& o == Operand::AlibiSlopes
                &&& !(a.placement is Cuda)
            },
            _ => false,
        }
    }
}

/// q, k and v are refused for where they are or for their element types.
pub open spec fn operands_refused(
    e: FlashError,
    q: &TensorDesc,
    k: &TensorDesc,
    v: &TensorDesc,
) -> bool {
    match e {
        FlashError::DeviceMismatch(o) => {
            ||| o == Operand::K && k.placement != q.placement
            ||| o == Operand::V && k.placement == q.placement && v.placement != q.placement
        },
        FlashError::NoCpuSupport => {
            &&& q.placement == Placement::Cpu
            &&& k.placement == Placement::Cpu
            &&& v.placement == Placement::Cpu
        },
        FlashError::NoMetalImplementation => {
            &&& q.placement is Metal
            &&& k.placement == q.placement
            &&& v.placement == q.placement
        },
        FlashError::UnsupportedDType(t) => together(q, k, v) && t == q.dtype && !half(t),
        _ => false,
    }
}

/// k or v is refused for an element type other than that of q.
pub open spec fn types_refused(
    e: FlashError,
    q: &TensorDesc,
    k: &TensorDesc,
    v: &TensorDesc,
) -> bool {
    match e {
        FlashError::UnexpectedDType { operand, expected, got } => {
            &&& expected == q.dtype
            &&& got != expected
            &&& {
                ||| operand == Operand::K && got == k.dtype
                ||| operand == Operand::V && k.dtype == q.dtype && got == v.dtype
            }
        },
        _ => false,
    }
}

/// The last dims of q, k and v have gaps.
pub open spec fn gaps_refused(
    e: FlashError,
    q: &TensorDesc,
    k: &TensorDesc,
    v: &TensorDesc,
) -> bool {
    match e {
        FlashError::LastDimNotContiguous(o) => {
            ||| o == Operand::Q && !packed(q)
            ||| o == Operand::K && packed(q) && !packed(k)
            ||| o == Operand::V && packed(q) && packed(k) && !packed(v)
        },
        _ => false,
    }
}

/// A head size is refused.
pub open spec fn head_refused(e: FlashError, d: usize) -> bool {
    match e {
        FlashError::HeadTooLarge(n) => n == d && d > 512,
        FlashError::HeadNotMultiple(n) => n == d && d <= 512 && d % 8 != 0,
        _ => false,
    }
}

/// A launch is accepted exactly where q, k and v are on one cuda device, of one half
/// precision type, of four dims without gaps in the last one, with the same numbers of
/// sequences and elements of a head, k and v with the same positions and heads; where
/// the head size has a kernel; where the heads of k divide those of q; and where the
/// slopes fit.
pub proof fn dense_launches_accepted(
    op: &FlashAttn,
    q: &TensorDesc,
    k: &TensorDesc,
    v: &TensorDesc,
)
    ensures
        dense_error(op, q, k, v) is None <==> {
            &&& together(q, k, v)
            &&& half(q.dtype) && k.dtype == q.dtype && v.dtype == q.dtype
            &&& q.dims@.len() == 4 && packed(q) && packed(k) && packed(v)
            &&& k.dims@ == seq![q.dims@[0], k.dims@[1], k.dims@[2], q.dims@[3]]
            &&& v.dims@ == k.dims@
            &&& head_fits(q.dims@[3])
            &&& q.dims@[2] % k.dims@[2] == 0
            &&& slopes_fit(op.alibi_slopes, q.dims@[2])
        },
{
    if k.dims@.len() == 4 {
        assert(k.dims@ =~= seq![k.dims@[0], k.dims@[1], k.dims@[2], k.dims@[3]]);
    }
    if let Some(a) = op.alibi_slopes {
        if a.dims@.len() == 1 {
            assert(a.dims@ =~= seq![a.dims@[0]]);
        }
    }
}

/// A launch is refused for a reason that holds, and that no earlier one goes before:
/// the place, the element types, the numbers of dims, gaps, the shapes, the head size,
/// the numbers of heads, the slopes.
pub proof fn dense_launches_refused(
    op: &FlashAttn,
    q: &TensorDesc,
    k: &TensorDesc,
    v: &TensorDesc,
)
    ensures
        dense_error(op, q, k, v) is Some ==> {
            let e = dense_error(op, q, k, v)->0;
            let typed = together(q, k, v) && half(q.dtype) && k.dtype == q.dtype && v.dtype
                == q.dtype;
            let ranked = typed && q.dims@.len() == 4 && k.dims@.len() == 4 && v.dims@.len() == 4;
            let laid = ranked && packed(q) && packed(k) && packed(v);
            let alike = k.dims@[0] == q.dims@[0] && k.dims@[3] == q.dims@[3];
            let shaped = laid && alike && v.dims@ == k.dims@;
            let counted = shaped && head_fits(q.dims@[3]) && q.dims@[2] % k.dims@[2] == 0;
            ||| operands_refused(e, q, k, v)
            ||| together(q, k, v) && half(q.dtype) && types_refused(e, q, k, v)
            ||| typed && !ranked && e == (FlashError::Rank {
                q: q.dims.len(),
                k: k.dims.len(),
                v: v.dims.len(),
            })
            ||| ranked && gaps_refused(e, q, k, v)
            ||| laid && !alike && e == FlashError::ShapeMismatch(Operand::Q, Operand::K)
            ||| laid && alike && v.dims@ != k.dims@ && e == FlashError::ShapeMismatch(
                Operand::Q,
                Operand::V,
            )
            ||| shaped && head_refused(e, q.dims@[3])
            ||| shaped && head_fits(q.dims@[3]) && q.dims@[2] % k.dims@[2] != 0 && e
                == (FlashError::HeadCounts { q: q.dims@[2], kv: k.dims@[2] })
            ||| counted && slopes_refused(e, op.alibi_slopes, q.dims@[2])
        },
{
    if let Some(a) = op.alibi_slopes {
        if a.dims@.len() == 1 {
            assert(a.dims@ =~= seq![a.dims@[0]]);
        }
    }
}

/// Cumulative lengths on a cuda device, of 32 bits, row by row.
pub open spec fn lengths_fit(t: &TensorDesc) -> bool {
    t.placement is Cuda && t.dtype == DType::U32 && in_row_order(t)
}

/// A block table of two dims on a cuda device, without gaps in the last one.
pub open spec fn table_fits(block_table: Option<TensorDesc>) -> bool {
    block_table is Some ==> {
        let t = block_table->0;
        t.placement is Cuda && t.dims@.len() == 2 && packed(&t)
    }
}

/// k and v are pages of as many tokens as said, a multiple of 32, with heads of the
/// size of those of q.
pub open spec fn pages_fit(
    page_block_size: Option<usize>,
    q: &TensorDesc,
    k: &TensorDesc,
    v: &TensorDesc,
) -> bool {
    &&& k.dims@.len() == 4 && v.dims@ == k.dims@
    &&& k.dims@[3] == q.dims@[2]
    &&& page_block_size == Some(k.dims@[1])
    &&& k.dims@[1] % 32 == 0
}

/// Prefix ranges on a cuda device: pairs of 32 bit numbers, as many for each sequence.
pub open spec fn ranges_fit(ranges: Option<TensorDesc>, batch: int) -> bool {
    ranges is Some ==> {
        let t = ranges->0;
        &&& t.dtype == DType::I32
        &&& t.placement is Cuda
        &&& t.dims@.len() == 3 && t.dims@[0] == batch && t.dims@[2] == 2
        &&& packed(&t)
    }
}

/// A launch on sequences of different lengths is accepted exactly where q, k and v are
/// on one cuda device, of one half precision type and without gaps in the last dim;
/// where the cumulative lengths fit, at least two and as many for q as for k; where k
/// and v are rows of heads like those of q, or pages of them with a block table of
/// whole numbers; where the head size has a kernel and the heads of k divide those of
/// q; and where the prefix ranges and the slopes fit.
pub proof fn varlen_launches_accepted(
    op: &FlashAttnVarLen,
    q: &TensorDesc,
    k: &TensorDesc,
    v: &TensorDesc,
)
    ensures
        varlen_error(op, q, k, v) is None <==> {
            let paged = op.block_table is Some;
            let heads_k = if paged {
                k.dims@[2]
            } else {
                k.dims@[1]
            };
            &&& together(q, k, v)
            &&& half(q.dtype) && k.dtype == q.dtype && v.dtype == q.dtype
            &&& q.dims@.len() == 3 && packed(q) && packed(k) && packed(v)
            &&& lengths_fit(&op.seqlens_q) && lengths_fit(&op.seqlens_k)
            &&& table_fits(op.block_table)
            &&& paged ==> pages_fit(op.page_block_size, q, k, v)
            &&& !paged ==> k.dims@.len() == 3 && v.dims@ == k.dims@ && k.dims@[2] == q.dims@[2]
            &&& head_fits(q.dims@[2])
            &&& q.dims@[1] % heads_k == 0
            &&& op.seqlens_q.dims@.len() == 1 && op.seqlens_q.dims@[0] >= 2
            &&& op.seqlens_k.dims@.len() == 1 && op.seqlens_k.dims@[0] == op.seqlens_q.dims@[0]
            &&& ranges_fit(op.mm_prefix_ranges, op.seqlens_q.dims@[0] - 1)
            &&& slopes_fit(op.alibi_slopes, q.dims@[1])
            &&& paged ==> {
                let t = op.block_table->0;
                t.dtype == DType::U32 || t.dtype == DType::I32
            }
        },
{
    if let Some(a) = op.alibi_slopes {
        if a.dims@.len() == 1 {
            assert(a.dims@ =~= seq![a.dims@[0]]);
        }
    }
}

/// Cumulative lengths are refused.
pub open spec fn lengths_refused(e: FlashError, t: &TensorDesc, operand: Operand) -> bool {
    match e {
        FlashError::NotCuda(o) => o == operand && !(t.placement is Cuda),
        FlashError::UnexpectedDType { operand: o, expected, got } => {
            &&& t.placement is Cuda
            &&& o == operand
            &&& expected == DType::U32
            &&& got == t.dtype
            &&& got != DType::U32
        },
        FlashError::NotContiguous(o) => {
            &&& t.placement is Cuda
            &&& t.dtype == DType::U32
            &&& o == operand
            &&& !in_row_order(t)
        },
        _ => false,
    }
}

/// A block table is refused.
pub open spec fn table_refused(e: FlashError, block_table: Option<TensorDesc>) -> bool {
    block_table is Some && {
        let t = block_table->0;
        match e {
            FlashError::NotCuda(o) => o == Operand::BlockTable && !(t.placement is Cuda),
            FlashError::UnexpectedNumDims { operand, wanted, rank } => {
                &&& t.placement is Cuda
                &&& operand == Operand::BlockTable
                &&& wanted == 2
                &&& rank == t.dims@.len()
                &&& rank != 2
            },
            FlashError::LastDimNotContiguous(o) => {
                &&& t.placement is Cuda
                &&& t.dims@.len() == 2
                &&& o == Operand::BlockTable
                &&& !packed(&t)
            },
            _ => false,
        }
    }
}

/// The shapes of pages are refused.
pub open spec fn pages_refused(
    e: FlashError,
    page_block_size: Option<usize>,
    q: &TensorDesc,
    k: &TensorDesc,
    v: &TensorDesc,
) -> bool {
    let alike = v.dims@ == k.dims@ && k.dims@[3] == q.dims@[2];
    match e {
        FlashError::ShapeMismatch(a, b) => {
            ||| a == Operand::K && b == Operand::V && v.dims@ != k.dims@
            ||| a == Operand::Q && b == Operand::K && v.dims@ == k.dims@ && k.dims@[3]
                != q.dims@[2]
        },
        FlashError::MissingPageBlockSize => alike && page_block_size is None,
        FlashError::PageBlockSizeMismatch { given, k: n } => {
            &&& alike
            &&& page_block_size == Some(given)
            &&& n == k.dims@[1]
            &&& given != n
        },
        FlashError::PageBlockSizeNotMultiple(n) => {
            &&& alike
            &&& page_block_size == Some(n)
            &&& n == k.dims@[1]
            &&& n % 32 != 0
        },
        FlashError::PagedHeadTooLarge(n) => {
            &&& alike
            &&& page_block_size == Some(k.dims@[1])
            &&& k.dims@[1] % 32 == 0
            &&& n == q.dims@[2]
            &&& n > 512
        },
        _ => false,
    }
}

/// The numbers of cumulative lengths are refused.
pub open spec fn counts_refused(e: FlashError, a: &TensorDesc, b: &TensorDesc) -> bool {
    match e {
        FlashError::UnexpectedNumDims { operand, wanted, rank } => wanted == 1 && rank != 1 && {
            ||| operand == Operand::SeqlensQ && rank == a.dims@.len()
            ||| operand == Operand::SeqlensK && rank == b.dims@.len() && a.dims@.len() == 1
                && a.dims@[0] >= 2
        },
        FlashError::TooFewSeqlens(n) => a.dims@.len() == 1 && n == a.dims@[0] && n < 2,
        FlashError::SeqlensDiffer { q: m, k: n } => {
            &&& a.dims@.len() == 1 && b.dims@.len() == 1
            &&& m == a.dims@[0] && m >= 2
            &&& n == b.dims@[0]
            &&& m != n
        },
        _ => false,
    }
}

/// Prefix ranges are refused.
pub open spec fn ranges_refused(e: FlashError, ranges: Option<TensorDesc>, batch: int) -> bool {
    ranges is Some && {
        let t = ranges->0;
        match e {
            FlashError::PrefixRangesDType(d) => d == t.dtype && d != DType::I32,
            FlashError::NotCuda(o) => {
                &&& t.dtype == DType::I32
                &&& o == Operand::MmPrefixRanges
                &&& !(t.placement is Cuda)
            },
            FlashError::UnexpectedNumDims { operand, wanted, rank } => {
                &&& t.dtype == DType::I32 && t.placement is Cuda
                &&& operand == Operand::MmPrefixRanges
                &&& wanted == 3
                &&& rank == t.dims@.len()
                &&& rank != 3
            },
            FlashError::PrefixRangesShape { batch_size } => {
                &&& t.dtype == DType::I32 && t.placement is Cuda && t.dims@.len() == 3
                &&& batch_size == batch
                &&& t.dims@[0] != batch || t.dims@[2] != 2
            },
            FlashError::LastDimNotContiguous(o) => {
                &&& t.dtype == DType::I32 && t.placement is Cuda && t.dims@.len() == 3
                &&& t.dims@[0] == batch && t.dims@[2] == 2
                &&& o == Operand::MmPrefixRanges
                &&& !packed(&t)
            },
            _ => false,
        }
    }
}

/// A launch on sequences of different lengths is refused for a reason that holds, and
/// that no earlier one goes before.
pub proof fn varlen_launches_refused(
    op: &FlashAttnVarLen,
    q: &TensorDesc,
    k: &TensorDesc,
    v: &TensorDesc,
)
    ensures
        varlen_error(op, q, k, v) is Some ==> {
            let e = varlen_error(op, q, k, v)->0;
            let paged = op.block_table is Some;
            let heads_k = if paged {
                k.dims@[2]
            } else {
                k.dims@[1]
            };
            let a = &op.seqlens_q;
            let b = &op.seqlens_k;
            let placed = together(q, k, v) && half(q.dtype);
            let beside = placed && lengths_fit(a) && lengths_fit(b) && table_fits(op.block_table);
            let typed = beside && k.dtype == q.dtype && v.dtype == q.dtype;
            let plain_ranks = q.dims@.len() == 3 && (paged || k.dims@.len() == 3 && v.dims@.len()
                == 3);
            let paged_ranks = paged ==> k.dims@.len() == 4 && v.dims@.len() == 4;
            let ranked = typed && plain_ranks && paged_ranks;
            let laid = ranked && packed(q) && packed(k) && packed(v);
            let shaped = laid && if paged {
                pages_fit(op.page_block_size, q, k, v) && q.dims@[2] <= 512
            } else {
                k.dims@[2] == q.dims@[2] && v.dims@ == k.dims@
            };
            let divided = shaped && head_fits(q.dims@[2]) && q.dims@[1] % heads_k == 0;
            let counted = divided && a.dims@.len() == 1 && a.dims@[0] >= 2 && b.dims@.len() == 1
                && b.dims@[0] == a.dims@[0];
            let ranged = counted && ranges_fit(op.mm_prefix_ranges, a.dims@[0] - 1);
            ||| operands_refused(e, q, k, v)
            ||| placed && lengths_refused(e, a, Operand::SeqlensQ)
            ||| placed && lengths_fit(a) && lengths_refused(e, b, Operand::SeqlensK)
            ||| placed && lengths_fit(a) && lengths_fit(b) && table_refused(e, op.block_table)
            ||| beside && types_refused(e, q, k, v)
            ||| typed && !plain_ranks && e == (FlashError::Rank {
                q: q.dims.len(),
                k: k.dims.len(),
                v: v.dims.len(),
            })
            ||| typed && plain_ranks && !paged_ranks && e == (FlashError::PagedRank {
                k: k.dims.len(),
                v: v.dims.len(),
            })
            ||| ranked && gaps_refused(e, q, k, v)
            ||| laid && paged && pages_refused(e, op.page_block_size, q, k, v)
            ||| laid && !paged && k.dims@[2] != q.dims@[2] && e == FlashError::ShapeMismatch(
                Operand::Q,
                Operand::K,
            )
            ||| laid && !paged && k.dims@[2] == q.dims@[2] && v.dims@ != k.dims@ && e
                == FlashError::ShapeMismatch(Operand::Q, Operand::V)
            ||| shaped && head_refused(e, q.dims@[2])
            ||| shaped && head_fits(q.dims@[2]) && q.dims@[1] % heads_k != 0 && e
                == (FlashError::HeadCounts { q: q.dims@[1], kv: heads_k })
            ||| divided && counts_refused(e, a, b)
            ||| counted && ranges_refused(e, op.mm_prefix_ranges, a.dims@[0] - 1)
            ||| ranged && slopes_refused(e, op.alibi_slopes, q.dims@[1])
            ||| ranged && slopes_fit(op.alibi_slopes, q.dims@[1]) && paged && {
                let t = op.block_table->0;
                &&& t.dtype != DType::U32 && t.dtype != DType::I32
                &&& e == FlashError::BlockTableDType(t.dtype)
            }
        },
{
    if let Some(s) = op.alibi_slopes {
        if s.dims@.len() == 1 {
            assert(s.dims@ =~= seq![s.dims@[0]]);
        }
    }
}

/// A launch can be planned for tensors with at least one head of keys and values, where
/// the positions can be rounded up to a multiple of 128: it is then either launched or
/// refused.
pub proof fn dense_plans_are_possible(
    op: &FlashAttn,
    q: &TensorDesc,
    k: &TensorDesc,
    v: &TensorDesc,
)
    requires
        q.well_formed(),
        k.well_formed(),
        v.well_formed(),
        op.alibi_slopes is Some ==> op.alibi_slopes->0.well_formed(),
        k.dims@.len() == 4 ==> k.dims@[2] != 0,
        q.dims@.len() == 4 ==> q.dims@[1] + 127 <= usize::MAX,
        k.dims@.len() == 4 ==> k.dims@[1] + 127 <= usize::MAX,
    ensures
        dense_fits(op, q, k, v),
{
    if q.dims@.len() == 4 {
        lemma_ceil_div(q.dims@[1] as int, 128);
    }
    if k.dims@.len() == 4 {
        lemma_ceil_div(k.dims@[1] as int, 128);
    }
}

/// A launch on sequences of different lengths can be planned for tensors with at least
/// one head of keys and values, where the lengths can be rounded up to a multiple of
/// 128.
pub proof fn varlen_plans_are_possible(
    op: &FlashAttnVarLen,
    q: &TensorDesc,
    k: &TensorDesc,
    v: &TensorDesc,
)
    requires
        q.well_formed(),
        k.well_formed(),
        v.well_formed(),
        op.seqlens_q.well_formed(),
        op.seqlens_k.well_formed(),
        op.block_table is Some ==> op.block_table->0.well_formed(),
        op.mm_prefix_ranges is Some ==> op.mm_prefix_ranges->0.well_formed(),
        op.alibi_slopes is Some ==> op.alibi_slopes->0.well_formed(),
        k.dims@.len() == 3 ==> k.dims@[1] != 0,
        k.dims@.len() == 4 ==> k.dims@[2] != 0,
        op.max_seqlen_q + 127 <= usize::MAX,
        op.max_seqlen_k + 127 <= usize::MAX,
    ensures
        varlen_fits(op, q, k, v),
{
    lemma_ceil_div(op.max_seqlen_q as int, 128);
    lemma_ceil_div(op.max_seqlen_k as int, 128);
}

} // verus!
