//! What the kernel does with the arguments of a launch: which elements it reads
//! and writes, and which keys a query sees.

use crate::flash::dense::{dense_error, dense_fits, lemma_head_rounding, DenseCall, FlashAttn};
use crate::flash::desc::TensorDesc;
use crate::flash::params::{F32Bits, MhaParams};
use crate::flash::varlen::{varlen_error, varlen_fits, FlashAttnVarLen, VarLenCall};
use crate::math::lemma_ceil_div;
use crate::shape::lemma_row_count;
use crate::tensor::sure::{lemma_count3, lemma_count4};
use candle_core::DType;
use vstd::prelude::*;

verus! {

/// Where in its storage a tensor of four dims holds an element.
pub open spec fn at4(t: &TensorDesc, a: int, b: int, c: int, d: int) -> int {
    t.start_offset + a * t.strides@[0] + b * t.strides@[1] + c * t.strides@[2] + d * t.strides@[3]
}

/// Where in its storage a tensor of three dims holds an element.
pub open spec fn at3(t: &TensorDesc, a: int, b: int, c: int) -> int {
    t.start_offset + a * t.strides@[0] + b * t.strides@[1] + c * t.strides@[2]
}

/// The strides of a tensor are numbers that the kernel takes.
pub open spec fn strides_fit(t: &TensorDesc) -> bool {
    forall|i: int| 0 <= i < t.strides@.len() ==> #[trigger] t.strides@[i] <= u32::MAX
}

/// The dims of a tensor, and their product, are numbers that the kernel takes.
pub open spec fn dims_fit(t: &TensorDesc) -> bool {
    &&& forall|i: int| 0 <= i < t.dims@.len() ==> #[trigger] t.dims@[i] <= u32::MAX
    &&& t.dims@.len() == 4 ==> t.dims@[0] * t.dims@[1] <= u32::MAX && t.dims@[1] * t.dims@[2]
        * t.dims@[3] <= u32::MAX && t.dims@[2] * t.dims@[3] <= u32::MAX
    &&& t.dims@.len() == 3 ==> t.dims@[1] * t.dims@[2] <= u32::MAX
}

/// A query at a position sees the key at another one: not further to the left
/// and to the right than the window reaches, where a side of it is not open.
pub open spec fn sees(p: MhaParams, query: int, key: int) -> bool {
    &&& p.window_size_left >= 0 ==> key >= query - p.window_size_left
    &&& p.window_size_right >= 0 ==> key <= query + p.window_size_right
    &&& p.is_causal != 0 ==> key <= query
}

/// A key is not further from a query than the limits to the left and to the right,
/// where there are any.
pub open spec fn within(left: Option<usize>, right: Option<usize>, query: int, key: int) -> bool {
    &&& left is Some ==> query - key <= left->0
    &&& right is Some ==> key - query <= right->0
}

/// The kernel shows a query exactly the keys within the limits.
pub open spec fn shows(
    p: MhaParams,
    left: Option<usize>,
    right: Option<usize>,
    seqlen_k: usize,
) -> bool {
    forall|query: int, key: int|
        0 <= query < seqlen_k && 0 <= key < seqlen_k ==> #[trigger] sees(p, query, key) == within(
            left,
            right,
            query,
            key,
        )
}

/// The kernel is told that the mask is causal exactly where there is no limit to the
/// left, or one beyond the keys, and the limit 0 to the right.
pub open spec fn tells_causal(
    p: MhaParams,
    left: Option<usize>,
    right: Option<usize>,
    seqlen_k: usize,
) -> bool {
    let causal = right == Some(0usize) && (left is None || left->0 > seqlen_k);
    p.is_causal == if causal {
        1int
    } else {
        0int
    }
}

/// Element (b, l, h, e) of q, and likewise of k and v, is read where the tensor
/// holds it.
pub open spec fn reads_dense(
    call: &DenseCall,
    q: &TensorDesc,
    k: &TensorDesc,
    v: &TensorDesc,
) -> bool {
    let p = call.params;
    &&& strides_fit(q) ==> forall|b: int, l: int, h: int, e: int| #[trigger]
        at4(q, b, l, h, e) == call.q_offset + b * p.q_batch_stride + l * p.q_row_stride + h
            * p.q_head_stride + e
    &&& strides_fit(k) ==> forall|b: int, l: int, h: int, e: int| #[trigger]
        at4(k, b, l, h, e) == call.k_offset + b * p.k_batch_stride + l * p.k_row_stride + h
            * p.k_head_stride + e
    &&& strides_fit(v) ==> forall|b: int, l: int, h: int, e: int| #[trigger]
        at4(v, b, l, h, e) == call.v_offset + b * p.v_batch_stride + l * p.v_row_stride + h
            * p.v_head_stride + e
}

/// Number of element (b, l, h, e) among those of a tensor of the given dims, row by
/// row.
pub open spec fn nth4(dims: Seq<usize>, b: int, l: int, h: int, e: int) -> int {
    ((b * dims[1] + l) * dims[2] + h) * dims[3] + e
}

/// Number of element (t, h, e) among those of a tensor of the given dims, row by
/// row.
pub open spec fn nth3(dims: Seq<usize>, t: int, h: int, e: int) -> int {
    (t * dims[1] + h) * dims[2] + e
}

/// The output is written row by row, in the dims of q.
pub open spec fn writes_dense(call: &DenseCall, q: &TensorDesc) -> bool {
    let p = call.params;
    &&& call.out_dims@ == q.dims@
    &&& call.out_len == q.dims@[0] * q.dims@[1] * q.dims@[2] * q.dims@[3]
    &&& dims_fit(q) ==> forall|b: int, l: int, h: int, e: int| #[trigger]
        nth4(q.dims@, b, l, h, e) == b * p.o_batch_stride + l * p.o_row_stride + h
            * p.o_head_stride + e
}

/// The numbers of sequences, positions, heads and elements are those of q and k.
pub open spec fn counts_dense(call: &DenseCall, q: &TensorDesc, k: &TensorDesc) -> bool {
    let p = call.params;
    &&& dims_fit(q) && dims_fit(k) ==> {
        &&& p.b == q.dims@[0] && p.b == k.dims@[0]
        &&& p.seqlen_q == q.dims@[1] && p.seqlen_k == k.dims@[1]
        &&& p.h == q.dims@[2] && p.h_k == k.dims@[2]
        &&& p.d == q.dims@[3] && p.d == k.dims@[3]
        &&& p.h % p.h_k == 0
        &&& p.total_q == p.b * p.seqlen_q
    }
    &&& rounded_up(p.d as int, p.d_rounded as int, 32)
    &&& q.dims@[1] + 127 <= u32::MAX ==> rounded_up(
        q.dims@[1] as int,
        p.seqlen_q_rounded as int,
        128,
    )
    &&& k.dims@[1] + 127 <= u32::MAX ==> rounded_up(
        k.dims@[1] as int,
        p.seqlen_k_rounded as int,
        128,
    )
    &&& call.lse_len == q.dims@[0] * q.dims@[1] * q.dims@[2]
    &&& call.accum is None
    &&& call.sizes.batch_size == q.dims@[0] && call.sizes.num_heads == q.dims@[2]
    &&& call.sizes.head_size == q.dims@[3]
    &&& rounded_up(q.dims@[3] as int, call.sizes.head_size_rounded as int, 32)
    &&& call.sizes.seqlen_q == q.dims@[1] && call.sizes.seqlen_k == k.dims@[1]
}

/// The least multiple of `m` from `n` on.
pub open spec fn rounded_up(n: int, r: int, m: int) -> bool {
    r % m == 0 && n <= r < n + m
}

/// The kernel is given the settings that were asked for, the element type of q,
/// and where the slopes start.
pub open spec fn takes_settings(
    p: MhaParams,
    alibi_offset: Option<usize>,
    dtype: DType,
    softmax_scale: F32Bits,
    alibi_slopes: Option<TensorDesc>,
    softcap: Option<F32Bits>,
) -> bool {
    &&& p.softmax_scale == softmax_scale
    &&& softcap is Some ==> p.softcap == softcap->0
    &&& softcap is None ==> p.softcap == 0
    &&& p.is_bf16 == 1 <==> dtype == DType::BF16
    &&& p.is_bf16 == 0 <==> dtype == DType::F16
    &&& alibi_offset is Some <==> alibi_slopes is Some
    &&& alibi_slopes is Some ==> alibi_offset == Some(alibi_slopes->0.start_offset)
    &&& p.alibi_slopes_batch_stride == 0
    &&& p.num_splits == 1 && p.force_split_kernel == 0
}

/// A launch that reads q, k and v where they lie, writes the output row by row,
/// shows each query the keys within the limits, and takes the settings.
pub open spec fn does_dense(
    call: &DenseCall,
    q: &TensorDesc,
    k: &TensorDesc,
    v: &TensorDesc,
    softmax_scale: F32Bits,
    alibi_slopes: Option<TensorDesc>,
    left: Option<usize>,
    right: Option<usize>,
    softcap: Option<F32Bits>,
) -> bool {
    let p = call.params;
    &&& reads_dense(call, q, k, v)
    &&& writes_dense(call, q)
    &&& k.dims@[1] <= i32::MAX ==> shows(p, left, right, k.dims@[1])
    &&& k.dims@[1] <= i32::MAX ==> tells_causal(p, left, right, k.dims@[1])
    &&& counts_dense(call, q, k)
    &&& takes_settings(p, call.alibi_offset, q.dtype, softmax_scale, alibi_slopes, softcap)
    &&& p.unpadded_lse == 0 && p.page_block_size == -1 && p.block_table_batch_stride == 0
    &&& p.max_mm_prefix_ranges == 0 && p.mm_prefix_range_batch_stride == 0
}

/// A planned launch reads q, k and v where they lie, writes the output row by row,
/// shows each query the keys within the limits, and takes the settings.
pub proof fn dense_launches_do(
    call: &DenseCall,
    op: &FlashAttn,
    q: &TensorDesc,
    k: &TensorDesc,
    v: &TensorDesc,
)
    requires
        dense_fits(op, q, k, v),
        dense_error(op, q, k, v) is None,
        call.launches(op, q, k, v),
    ensures
        does_dense(
            call,
            q,
            k,
            v,
            op.softmax_scale,
            op.alibi_slopes,
            op.window_size_left,
            op.window_size_right,
            op.softcap,
        ),
{
    let p = call.params;
    let d = q.dims@;
    lemma_count4(d[0], d[1], d[2], d[3]);
    assert(d =~= seq![d[0], d[1], d[2], d[3]]);
    assert(d[0] * d[2] * d[1] == d[0] * d[1] * d[2]) by (nonlinear_arith);
    lemma_head_rounding(d[3]);
    lemma_ceil_div(d[3] as int, 32);
    lemma_ceil_div(d[1] as int, 128);
    lemma_ceil_div(k.dims@[1] as int, 128);
    assert(writes_dense(call, q)) by {
        assert forall|b: int, l: int, h: int, e: int| dims_fit(q) implies #[trigger] nth4(
            d,
            b,
            l,
            h,
            e,
        ) == b * p.o_batch_stride + l * p.o_row_stride + h * p.o_head_stride + e by {
            let x = d[1] as int;
            let y = d[2] as int;
            let z = d[3] as int;
            assert((b * x + l) * y == b * (x * y) + l * y) by (nonlinear_arith);
            assert((b * (x * y) + l * y + h) * z == b * (x * y * z) + l * (y * z) + h * z)
                by (nonlinear_arith);
        }
    }
}

/// Element (t, h, e) of q is read where the tensor holds it. Without pages the same
/// holds of k and v; with them, of element (page, t, h, e).
pub open spec fn reads_varlen(
    call: &VarLenCall,
    paged: bool,
    q: &TensorDesc,
    k: &TensorDesc,
    v: &TensorDesc,
) -> bool {
    let p = call.params;
    &&& strides_fit(q) ==> forall|t: int, h: int, e: int| #[trigger]
        at3(q, t, h, e) == call.q_offset + t * p.q_row_stride + h * p.q_head_stride + e
    &&& strides_fit(k) && !paged ==> forall|t: int, h: int, e: int| #[trigger]
        at3(k, t, h, e) == call.k_offset + t * p.k_row_stride + h * p.k_head_stride + e
    &&& strides_fit(v) && !paged ==> forall|t: int, h: int, e: int| #[trigger]
        at3(v, t, h, e) == call.v_offset + t * p.v_row_stride + h * p.v_head_stride + e
    &&& strides_fit(k) && paged ==> forall|page: int, t: int, h: int, e: int| #[trigger]
        at4(k, page, t, h, e) == call.k_offset + page * p.k_batch_stride + t * p.k_row_stride + h
            * p.k_head_stride + e
    &&& strides_fit(v) && paged ==> forall|page: int, t: int, h: int, e: int| #[trigger]
        at4(v, page, t, h, e) == call.v_offset + page * p.v_batch_stride + t * p.v_row_stride + h
            * p.v_head_stride + e
    &&& p.q_batch_stride == 0 && p.o_batch_stride == 0
    &&& !paged ==> p.k_batch_stride == 0 && p.v_batch_stride == 0
}

/// The output is written row by row, in the dims of q.
pub open spec fn writes_varlen(call: &VarLenCall, q: &TensorDesc) -> bool {
    let p = call.params;
    &&& call.out_dims@ == q.dims@
    &&& call.out_len == q.dims@[0] * q.dims@[1] * q.dims@[2]
    &&& dims_fit(q) ==> forall|t: int, h: int, e: int| #[trigger]
        nth3(q.dims@, t, h, e) == t * p.o_row_stride + h * p.o_head_stride + e
}

/// The numbers of sequences, positions, heads and elements are those of the
/// tensors, and the cumulative lengths are read from where they lie, one more than
/// there are sequences.
pub open spec fn counts_varlen(
    call: &VarLenCall,
    op: &FlashAttnVarLen,
    q: &TensorDesc,
    k: &TensorDesc,
) -> bool {
    let p = call.params;
    let paged = op.block_table is Some;
    &&& dims_fit(q) && dims_fit(k) && dims_fit(&op.seqlens_q) && op.max_seqlen_q <= u32::MAX
        && op.max_seqlen_k <= u32::MAX ==> {
        &&& p.b + 1 == op.seqlens_q.dims@[0] && p.b + 1 == op.seqlens_k.dims@[0]
        &&& p.total_q == q.dims@[0]
        &&& p.h == q.dims@[1]
        &&& p.d == q.dims@[2]
        &&& paged ==> p.h_k == k.dims@[2] && p.d == k.dims@[3]
        &&& !paged ==> p.h_k == k.dims@[1] && p.d == k.dims@[2]
        &&& p.h % p.h_k == 0
        &&& p.seqlen_q == op.max_seqlen_q && p.seqlen_k == op.max_seqlen_k
        &&& paged && k.dims@[1] <= i32::MAX ==> p.page_block_size == k.dims@[1]
        &&& !paged ==> p.page_block_size == 0
    }
    &&& rounded_up(p.d as int, p.d_rounded as int, 32)
    &&& op.max_seqlen_q + 127 <= u32::MAX ==> rounded_up(
        op.max_seqlen_q as int,
        p.seqlen_q_rounded as int,
        128,
    )
    &&& op.max_seqlen_k + 127 <= u32::MAX ==> rounded_up(
        op.max_seqlen_k as int,
        p.seqlen_k_rounded as int,
        128,
    )
    &&& call.seqlens_q.0 == op.seqlens_q.start_offset
    &&& call.seqlens_q.1 - call.seqlens_q.0 == op.seqlens_q.dims@[0]
    &&& call.seqlens_k.0 == op.seqlens_k.start_offset
    &&& call.seqlens_k.1 - call.seqlens_k.0 == op.seqlens_k.dims@[0]
    &&& call.lse_len == q.dims@[0] * q.dims@[1]
    &&& p.unpadded_lse == 1
}

/// Row `i` of a block table, or of prefix ranges, is read where the tensor holds
/// it; where there is none, none is read.
pub open spec fn reads_rows(
    t: Option<TensorDesc>,
    offset: Option<usize>,
    batch_stride: u32,
) -> bool {
    match t {
        Some(t) => {
            &&& offset == Some(t.start_offset)
            &&& strides_fit(&t) ==> forall|i: int|
                t.start_offset + #[trigger] (i * t.strides@[0]) == offset->0 + i * batch_stride
        },
        None => offset is None && batch_stride == 0,
    }
}

/// A launch that reads q, k and v where they lie, writes the output row by row,
/// shows each query the keys within the limits, and takes the settings.
pub open spec fn does_varlen(
    call: &VarLenCall,
    op: &FlashAttnVarLen,
    q: &TensorDesc,
    k: &TensorDesc,
    v: &TensorDesc,
) -> bool {
    let p = call.params;
    &&& reads_varlen(call, op.block_table is Some, q, k, v)
    &&& writes_varlen(call, q)
    &&& op.max_seqlen_k <= i32::MAX ==> shows(
        p,
        op.window_size_left,
        op.window_size_right,
        op.max_seqlen_k,
    )
    &&& counts_varlen(call, op, q, k)
    &&& takes_settings(
        p,
        call.alibi_offset,
        q.dtype,
        op.softmax_scale,
        op.alibi_slopes,
        op.softcap,
    )
    &&& reads_rows(op.block_table, call.block_table_offset, p.block_table_batch_stride)
    &&& reads_rows(
        op.mm_prefix_ranges,
        call.mm_prefix_ranges_offset,
        p.mm_prefix_range_batch_stride,
    )
    &&& op.mm_prefix_ranges is Some && op.mm_prefix_ranges->0.dims@[1] <= i32::MAX
        ==> p.max_mm_prefix_ranges == op.mm_prefix_ranges->0.dims@[1]
    &&& op.mm_prefix_ranges is Some && op.max_seqlen_k <= i32::MAX ==> p.is_causal == 0
    &&& op.mm_prefix_ranges is None && op.max_seqlen_k <= i32::MAX ==> tells_causal(
        p,
        op.window_size_left,
        op.window_size_right,
        op.max_seqlen_k,
    )
    &&& op.mm_prefix_ranges is None ==> p.max_mm_prefix_ranges == 0
}

/// A planned launch reads q, k and v where they lie, writes the output row by row,
/// shows each query the keys within the limits, and takes the settings.
pub proof fn varlen_launches_do(
    call: &VarLenCall,
    op: &FlashAttnVarLen,
    q: &TensorDesc,
    k: &TensorDesc,
    v: &TensorDesc,
)
    requires
        varlen_fits(op, q, k, v),
        varlen_error(op, q, k, v) is None,
        call.launches(op, q, k, v),
    ensures
        does_varlen(call, op, q, k, v),
{
    let p = call.params;
    let d = q.dims@;
    lemma_count3(d[0], d[1], d[2]);
    assert(d =~= seq![d[0], d[1], d[2]]);
    assert(d[1] * d[0] == d[0] * d[1]) by (nonlinear_arith);
    lemma_head_rounding(d[2]);
    lemma_ceil_div(d[2] as int, 32);
    lemma_ceil_div(op.max_seqlen_q as int, 128);
    lemma_ceil_div(op.max_seqlen_k as int, 128);
    let n = op.seqlens_q.dims@;
    let m = op.seqlens_k.dims@;
    assert(n =~= seq![n[0]]);
    assert(m =~= seq![m[0]]);
    lemma_row_count(n[0]);
    lemma_row_count(m[0]);
    assert(writes_varlen(call, q)) by {
        assert forall|t: int, h: int, e: int| dims_fit(q) implies #[trigger] nth3(d, t, h, e) == t
            * p.o_row_stride + h * p.o_head_stride + e by {
            let y = d[1] as int;
            let z = d[2] as int;
            assert((t * y + h) * z + e == t * (y * z) + h * z + e) by (nonlinear_arith);
        }
    }
}

} // verus!
