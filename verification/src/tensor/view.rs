//! What is known of a tensor: its dims and strides, its element type, its place,
//! and the operations that made it; and which operations are sure to succeed on
//! it.
//!
//! The elements of a tensor are floating point numbers whose last bits depend
//! on the machine. What is stated of them is therefore not their values but
//! how they came about: a term over the operations of candle.
//!
//! Whether an operation succeeds depends, off the cpu, on the machine. On the cpu
//! it depends on dims, strides and element types alone, and, for indexes, on
//! their values.

use crate::dtype::float_type;
use crate::shape::{elem_count, lemma_stride, row_major, row_major_stride, rowwise};
use candle_core::quantized::QTensor;
use candle_core::scalar::Scalar;
use candle_core::DType;
use vstd::prelude::*;

verus! {

/// The kind of device on which a tensor lives. Devices of one kind are not told
/// apart.
#[derive(Clone, Copy, Debug, PartialEq, Eq, Structural)]
pub enum Place {
    Cpu,
    Cuda,
    Metal,
}

/// The operations of candle that make a tensor from others.
pub enum Op {
    Reshape(Seq<usize>),
    Transpose(usize, usize),
    ToDtype(DType),
    Narrow(usize, usize, usize),
    Squeeze(usize),
    Cat(usize),
    Expand(Seq<usize>),
    Matmul,
    Add,
    Mul,
    BroadcastAdd,
    BroadcastMul,
    BroadcastDiv,
    MulScalar(Scalar),
    AddScalar(Scalar),
    DivScalar(Scalar),
    Sqr,
    Sqrt,
    Sin,
    Cos,
    Tanh,
    Log,
    Gelu,
    Silu,
    Sigmoid,
    SoftmaxLastDim,
    SumKeepdim(usize),
    MeanKeepdim(usize),
    Sum(usize),
    Rope,
    RmsNorm(Scalar),
    IndexSelect(usize),
    Gather(usize),
    ArgSortLastDim(bool),
    SortLastDim(bool),
    MoeGemm { experts: QTensor, topk: usize, is_prefill: bool, dtype: DType },
    QMatMul(QTensor),
    Embedding(usize),
    Linear,
}

/// How the elements of a tensor came about.
pub enum Made {
    /// Bytes, row by row.
    Bytes(Seq<u8>),
    /// Zeros.
    Zeros,
    /// The numbers from 0 up to, and without, the given one.
    Count(u32),
    /// The values that a quantised tensor stands for.
    Dequantized(QTensor),
    /// The result of an operation on other tensors, of which the same is known.
    By(Op, Seq<TensorView>),
}

/// What is known of a tensor.
#[verifier::ext_equal]
pub struct TensorView {
    pub dims: Seq<usize>,
    /// How far apart in the storage the slices along each dim lie.
    pub strides: Seq<usize>,
    pub dtype: DType,
    pub place: Place,
    pub made: Made,
}

/// The elements are stored row by row.
pub open spec fn in_rows(x: TensorView) -> bool {
    rowwise(x.dims, x.strides)
}

/// The strides of the result of an operation on each element by itself: those
/// of a tensor just made, but for a tensor without elements, which is handed
/// back.
pub open spec fn strides_after(x: TensorView) -> Seq<usize> {
    if elem_count(x.dims) == 0 {
        x.strides
    } else {
        row_major(x.dims)
    }
}

/// An operation on one tensor that keeps its dims and element type.
pub open spec fn mapped(op: Op, x: TensorView) -> TensorView {
    TensorView {
        strides: match op {
            Op::Sigmoid | Op::SoftmaxLastDim | Op::SortLastDim(_) => row_major(x.dims),
            _ => strides_after(x),
        },
        made: Made::By(op, seq![x]),
        ..x
    }
}

/// An operation on two tensors that keeps the dims and element type of the
/// first.
pub open spec fn paired(op: Op, x: TensorView, y: TensorView) -> TensorView {
    TensorView {
        strides: match op {
            Op::RmsNorm(_) => row_major(x.dims),
            _ => strides_after(x),
        },
        made: Made::By(op, seq![x, y]),
        ..x
    }
}

/// The same elements, stored row by row.
pub open spec fn stored(x: TensorView) -> TensorView {
    TensorView {
        strides: if in_rows(x) {
            x.strides
        } else {
            row_major(x.dims)
        },
        ..x
    }
}

/// The same elements in other dims.
pub open spec fn reshaped(x: TensorView, dims: Seq<usize>) -> TensorView {
    TensorView {
        dims,
        strides: row_major(dims),
        made: Made::By(Op::Reshape(dims), seq![x]),
        ..x
    }
}

/// Two entries exchanged.
pub open spec fn exchanged(s: Seq<usize>, i: int, j: int) -> Seq<usize> {
    s.update(i, s[j]).update(j, s[i])
}

/// Two dims exchanged.
pub open spec fn transposed(x: TensorView, i: usize, j: usize) -> TensorView {
    TensorView {
        dims: exchanged(x.dims, i as int, j as int),
        strides: exchanged(x.strides, i as int, j as int),
        made: Made::By(Op::Transpose(i, j), seq![x]),
        ..x
    }
}

/// The elements in another element type.
pub open spec fn converted(x: TensorView, dtype: DType) -> TensorView {
    TensorView {
        dtype,
        strides: if x.dtype == dtype {
            x.strides
        } else {
            row_major(x.dims)
        },
        made: Made::By(Op::ToDtype(dtype), seq![x]),
        ..x
    }
}

/// `len` slices of a dim from `start` on.
pub open spec fn narrowed(x: TensorView, dim: usize, start: usize, len: usize) -> TensorView {
    TensorView {
        dims: x.dims.update(dim as int, len),
        made: Made::By(Op::Narrow(dim, start, len), seq![x]),
        ..x
    }
}

/// Without a dim of one slice.
pub open spec fn squeezed(x: TensorView, dim: usize) -> TensorView {
    TensorView {
        dims: if x.dims[dim as int] == 1 {
            x.dims.remove(dim as int)
        } else {
            x.dims
        },
        strides: if x.dims[dim as int] == 1 {
            x.strides.remove(dim as int)
        } else {
            x.strides
        },
        made: Made::By(Op::Squeeze(dim), seq![x]),
        ..x
    }
}

/// The number of slices along a dim of several tensors.
pub open spec fn slices_along(parts: Seq<TensorView>, dim: usize) -> int
    decreases parts.len(),
{
    if parts.len() == 0 {
        0
    } else {
        slices_along(parts.drop_last(), dim) + parts.last().dims[dim as int]
    }
}

/// The elements from a dim on are stored row by row, and so are these rows, which
/// may lie apart.
pub open spec fn in_blocks(x: TensorView, dim: int) -> bool {
    &&& forall|i: int|
        dim <= i < x.dims.len() ==> #[trigger] x.strides[i] == row_major_stride(x.dims, i)
    &&& forall|k: int|
        0 <= k < dim - 1 ==> #[trigger] x.strides[k] == x.strides[dim - 1] * elem_count(
            x.dims.subrange(k + 1, dim),
        )
}

/// The strides of several tensors put one behind the other, of the given dims.
pub open spec fn catenated_strides(parts: Seq<TensorView>, dims: Seq<usize>, dim: int) -> Seq<
    usize,
> {
    if parts.len() == 1 {
        parts[0].strides
    } else if dim == 0 || forall|i: int|
        0 <= i < parts.len() ==> in_rows(#[trigger] parts[i]) || in_blocks(parts[i], dim) {
        row_major(dims)
    } else {
        exchanged(row_major(exchanged(dims, 0, dim)), 0, dim)
    }
}

/// The slices of several tensors along a dim, one tensor behind the other.
pub open spec fn catenated(parts: Seq<TensorView>, dim: usize) -> TensorView {
    let dims = parts[0].dims.update(dim as int, slices_along(parts, dim) as usize);
    TensorView {
        dims,
        strides: catenated_strides(parts, dims, dim as int),
        made: Made::By(Op::Cat(dim), parts),
        ..parts[0]
    }
}

/// The slices of one tensor along a dim, then those of another.
pub open spec fn joined(x: TensorView, y: TensorView, dim: usize) -> TensorView {
    catenated(seq![x, y], dim)
}

/// The slices of `n` copies of a tensor along a dim.
pub open spec fn repeated(x: TensorView, dim: usize, n: nat) -> TensorView {
    catenated(Seq::new(n, |i: int| x), dim)
}

/// The strides of a tensor whose elements are repeated: none along the dims
/// where they are.
pub open spec fn expanded_strides(x: TensorView, dims: Seq<usize>) -> Seq<usize> {
    let added = dims.len() - x.dims.len();
    Seq::new(
        dims.len(),
        |i: int|
            if i >= added && dims[i] == x.dims[i - added] {
                x.strides[i - added]
            } else {
                0
            },
    )
}

/// The elements repeated along dims of one slice and along new leading dims.
pub open spec fn expanded(x: TensorView, dims: Seq<usize>) -> TensorView {
    TensorView {
        dims,
        strides: expanded_strides(x, dims),
        made: Made::By(Op::Expand(dims), seq![x]),
        ..x
    }
}

/// The matrix product.
pub open spec fn multiplied(x: TensorView, y: TensorView) -> TensorView {
    let dims = x.dims.update(x.dims.len() - 1, y.dims.last());
    TensorView {
        dims,
        strides: row_major(dims),
        made: Made::By(Op::Matmul, seq![x, y]),
        ..x
    }
}

/// Dim `i` of the larger of two tensors laid over each other at their last
/// dims: 1 in front of a tensor's own dims.
pub open spec fn aligned_dim(dims: Seq<usize>, rank: int, i: int) -> usize {
    if i < rank - dims.len() {
        1
    } else {
        dims[i - (rank - dims.len())]
    }
}

/// The dims of two tensors laid over each other, where a dim of one slice
/// stands for as many as the other has.
pub open spec fn broadcast_dims(x: Seq<usize>, y: Seq<usize>) -> Seq<usize> {
    let rank: nat = if x.len() >= y.len() {
        x.len()
    } else {
        y.len()
    };
    Seq::new(
        rank,
        |i: int|
            if aligned_dim(x, rank as int, i) == 1 {
                aligned_dim(y, rank as int, i)
            } else {
                aligned_dim(x, rank as int, i)
            },
    )
}

/// An operation on two tensors laid over each other.
pub open spec fn broadcast(op: Op, x: TensorView, y: TensorView) -> TensorView {
    let dims = broadcast_dims(x.dims, y.dims);
    TensorView {
        dims,
        strides: if elem_count(dims) == 0 {
            expanded_strides(x, dims)
        } else {
            row_major(dims)
        },
        made: Made::By(op, seq![x, y]),
        ..x
    }
}

/// A dim brought down to one slice.
pub open spec fn reduced(op: Op, x: TensorView, dim: usize) -> TensorView {
    let dims = x.dims.update(dim as int, 1);
    TensorView { dims, strides: row_major(dims), made: Made::By(op, seq![x]), ..x }
}

/// A dim summed up and left out.
pub open spec fn summed(x: TensorView, dim: usize) -> TensorView {
    TensorView {
        dims: x.dims.remove(dim as int),
        strides: row_major(x.dims.update(dim as int, 1)).remove(dim as int),
        made: Made::By(Op::Sum(dim), seq![x]),
        ..x
    }
}

/// An operation on three tensors that keeps the dims and element type of the
/// first.
pub open spec fn rotated(x: TensorView, cos: TensorView, sin: TensorView) -> TensorView {
    TensorView {
        strides: row_major(x.dims),
        made: Made::By(Op::Rope, seq![x, cos, sin]),
        ..x
    }
}

/// The slices of a dim at the given indexes.
pub open spec fn selected(x: TensorView, indexes: TensorView, dim: usize) -> TensorView {
    let dims = x.dims.update(dim as int, indexes.dims[0]);
    TensorView {
        dims,
        strides: row_major(dims),
        made: Made::By(Op::IndexSelect(dim), seq![x, indexes]),
        ..x
    }
}

/// The elements at the given indexes along a dim.
pub open spec fn gathered(x: TensorView, indexes: TensorView, dim: usize) -> TensorView {
    TensorView {
        dims: indexes.dims,
        strides: row_major(indexes.dims),
        made: Made::By(Op::Gather(dim), seq![x, indexes]),
        ..x
    }
}

/// The order of the elements along the last dim.
pub open spec fn ordered_indexes(x: TensorView, asc: bool) -> TensorView {
    TensorView {
        dtype: DType::U32,
        strides: row_major(x.dims),
        made: Made::By(Op::ArgSortLastDim(asc), seq![x]),
        ..x
    }
}

/// The elements in order along the last dim.
pub open spec fn sorted(x: TensorView, asc: bool) -> TensorView {
    mapped(Op::SortLastDim(asc), x)
}

/// The product with a quantised matrix of `rows` rows.
pub open spec fn projected(x: TensorView, weight: QTensor, rows: usize) -> TensorView {
    let dims = x.dims.update(x.dims.len() - 1, rows);
    TensorView {
        dims,
        strides: row_major(dims),
        made: Made::By(Op::QMatMul(weight), seq![x]),
        ..x
    }
}

/// The rows of a table at the given indexes, each of `hidden` elements.
pub open spec fn embedded(table: TensorView, indexes: TensorView, hidden: usize) -> TensorView {
    let dims = indexes.dims.push(hidden);
    TensorView {
        dims,
        strides: row_major(dims),
        made: Made::By(Op::Embedding(hidden), seq![table, indexes]),
        ..table
    }
}

/// The product with a matrix, row by row.
pub open spec fn linear(x: TensorView, weight: TensorView) -> TensorView {
    let dims = x.dims.update(x.dims.len() - 1, weight.dims[0]);
    TensorView {
        dims,
        strides: row_major(dims),
        made: Made::By(Op::Linear, seq![x, weight]),
        ..x
    }
}

/// The products of the rows of `x` with the matrices of the experts that
/// `expert_ids` names, in the order of `token_ids`; with `weights` each row is
/// one pick of an expert, scaled, without them each row stands for `topk`.
pub open spec fn expert_products(
    x: TensorView,
    experts: QTensor,
    rows: usize,
    weights: Option<TensorView>,
    token_ids: TensorView,
    expert_ids: TensorView,
    topk: usize,
    is_prefill: bool,
    dtype: DType,
) -> TensorView {
    let op = Op::MoeGemm { experts, topk, is_prefill, dtype };
    let dims = seq![
        match weights {
            Some(_) => x.dims[0],
            None => (x.dims[0] * topk) as usize,
        },
        rows,
    ];
    TensorView {
        dims,
        strides: row_major(dims),
        dtype: DType::F32,
        place: x.place,
        made: match weights {
            Some(w) => Made::By(op, seq![x, token_ids, expert_ids, w]),
            None => Made::By(op, seq![x, token_ids, expert_ids]),
        },
    }
}

/// The values of a quantised tensor.
pub open spec fn dequantized(weight: QTensor, dims: Seq<usize>, place: Place) -> TensorView {
    TensorView {
        dims,
        strides: row_major(dims),
        dtype: DType::F32,
        place,
        made: Made::Dequantized(weight),
    }
}

/// Zeros.
pub open spec fn zeros(dims: Seq<usize>, dtype: DType, place: Place) -> TensorView {
    TensorView { dims, strides: row_major(dims), dtype, place, made: Made::Zeros }
}

/// Bytes, row by row.
pub open spec fn bytes(data: Seq<u8>, dims: Seq<usize>, place: Place) -> TensorView {
    TensorView { dims, strides: row_major(dims), dtype: DType::U8, place, made: Made::Bytes(data) }
}

/// The numbers from 0 up to, and without, `n`.
pub open spec fn counted(n: u32, place: Place) -> TensorView {
    let dims = seq![n as usize];
    TensorView { dims, strides: row_major(dims), dtype: DType::U32, place, made: Made::Count(n) }
}

/// Numbers in single precision on the cpu.
pub open spec fn single_on_cpu(x: TensorView) -> bool {
    x.place == Place::Cpu && x.dtype == DType::F32
}

/// Numbers on the cpu that can be copied and converted to any floating point
/// type.
pub open spec fn plain_on_cpu(x: TensorView) -> bool {
    x.place == Place::Cpu && (x.dtype == DType::F32 || x.dtype == DType::U8 || x.dtype
        == DType::U32)
}

/// An operation on each element, or each row, of one tensor is sure to succeed.
pub open spec fn map_sure(op: Op, x: TensorView) -> bool {
    match op {
        Op::SoftmaxLastDim => single_on_cpu(x) && in_rows(x),
        Op::SortLastDim(_) => false,
        _ => single_on_cpu(x),
    }
}

/// An operation on the elements, or rows, of two tensors is sure to succeed.
pub open spec fn pair_sure(op: Op, x: TensorView, y: TensorView) -> bool {
    &&& single_on_cpu(x)
    &&& single_on_cpu(y)
    &&& match op {
        Op::RmsNorm(_) => in_rows(x) && in_rows(y) && y.dims == seq![x.dims.last()],
        _ => x.dims == y.dims,
    }
}

/// Reshaping is sure to succeed.
pub open spec fn reshape_sure(x: TensorView, dims: Seq<usize>) -> bool {
    plain_on_cpu(x) && elem_count(x.dims) == elem_count(dims)
}

/// Exchanging two dims is sure to succeed.
pub open spec fn transpose_sure(x: TensorView, i: usize, j: usize) -> bool {
    i < x.dims.len() && j < x.dims.len()
}

/// Converting is sure to succeed.
pub open spec fn convert_sure(x: TensorView, dtype: DType) -> bool {
    plain_on_cpu(x) && float_type(dtype)
}

/// There are slices `start` to `start + len` along a dim.
pub open spec fn narrow_sure(x: TensorView, dim: usize, start: usize, len: usize) -> bool {
    dim < x.dims.len() && start + len <= x.dims[dim as int]
}

/// Putting tensors one behind the other is sure to succeed: they agree but along
/// the dim.
pub open spec fn cat_sure(parts: Seq<TensorView>, dim: usize) -> bool {
    &&& parts.len() > 0
    &&& forall|i: int|
        0 <= i < parts.len() ==> {
            &&& single_on_cpu(#[trigger] parts[i])
            &&& dim < parts[i].dims.len()
            &&& parts[i].dims.update(dim as int, 0) == parts[0].dims.update(dim as int, 0)
        }
}

/// A matrix over the last two dims that the product can read: its elements are
/// stored row by row, or column by column.
pub open spec fn readable(rows: usize, columns: usize, row: usize, column: usize) -> bool {
    ||| (column == 1 || columns == 1) && (row == columns || rows == 1)
    ||| column == rows && row == 1
}

/// The matrices of a tensor lie at equal distances.
pub open spec fn equally_apart(x: TensorView) -> bool {
    x.dims.len() == 4 ==> {
        ||| x.strides[0] == x.strides[1] * x.dims[1]
        ||| x.dims[0] == 1
        ||| x.dims[1] == 1
    }
}

/// A tensor of matrices that the product can read.
pub open spec fn of_matrices(x: TensorView) -> bool {
    let n = x.dims.len() as int;
    &&& single_on_cpu(x)
    &&& 2 <= n <= 4
    &&& x.strides.len() == n
    &&& readable(x.dims[n - 2], x.dims[n - 1], x.strides[n - 2], x.strides[n - 1])
    &&& equally_apart(x)
}

/// Repeating elements is sure to succeed: the new dims end with the old ones.
pub open spec fn expand_sure(x: TensorView, dims: Seq<usize>) -> bool {
    x.dims.is_suffix_of(dims)
}

/// The matrix product is sure to succeed.
pub open spec fn matmul_sure(x: TensorView, y: TensorView) -> bool {
    let n = x.dims.len() as int;
    &&& of_matrices(x)
    &&& of_matrices(y)
    &&& y.dims.len() == n
    &&& x.dims.take(n - 2) == y.dims.take(n - 2)
    &&& x.dims[n - 1] == y.dims[n - 2]
}

/// Laying two tensors over each other is sure to succeed.
pub open spec fn broadcast_sure(x: TensorView, y: TensorView) -> bool {
    let rank = broadcast_dims(x.dims, y.dims).len() as int;
    &&& single_on_cpu(x)
    &&& single_on_cpu(y)
    &&& forall|i: int|
        0 <= i < rank ==> {
            ||| #[trigger] aligned_dim(x.dims, rank, i) == aligned_dim(y.dims, rank, i)
            ||| aligned_dim(x.dims, rank, i) == 1
            ||| aligned_dim(y.dims, rank, i) == 1
        }
}

/// Bringing down a dim is sure to succeed.
pub open spec fn reduce_sure(x: TensorView, dim: usize) -> bool {
    single_on_cpu(x) && dim < x.dims.len()
}

/// A table of angles that heads can surely be rotated by.
pub open spec fn table_sure(x: TensorView, angles: TensorView) -> bool {
    &&& single_on_cpu(angles)
    &&& in_rows(angles)
    &&& angles.dims.len() == 2
    &&& angles.dims[1] * 2 == x.dims[3]
    &&& x.dims[2] <= angles.dims[0]
}

/// Rotating heads is sure to succeed.
pub open spec fn rope_sure(x: TensorView, cos: TensorView, sin: TensorView) -> bool {
    &&& single_on_cpu(x)
    &&& in_rows(x)
    &&& x.dims.len() == 4
    &&& table_sure(x, cos)
    &&& table_sure(x, sin)
}

/// Indexes on the cpu.
pub open spec fn indexes_on_cpu(x: TensorView) -> bool {
    x.place == Place::Cpu && x.dtype == DType::U32
}

/// Picking slices is sure to succeed at indexes below the number of slices.
pub open spec fn select_sure(x: TensorView, indexes: TensorView, dim: usize) -> bool {
    &&& single_on_cpu(x)
    &&& in_rows(x)
    &&& indexes_on_cpu(indexes)
    &&& indexes.dims.len() == 1
    &&& dim < x.dims.len()
}

/// Picking elements is sure to succeed at indexes below the number of slices.
pub open spec fn gather_sure(x: TensorView, indexes: TensorView, dim: usize) -> bool {
    &&& single_on_cpu(x)
    &&& in_rows(x)
    &&& indexes_on_cpu(indexes)
    &&& in_rows(indexes)
    &&& indexes.dims.len() == x.dims.len()
    &&& dim < x.dims.len()
    &&& forall|i: int|
        0 <= i < x.dims.len() && i != dim ==> #[trigger] indexes.dims[i] <= x.dims[i]
}

/// Reading rows of a table is sure to succeed at indexes below their number.
pub open spec fn embed_sure(table: TensorView, indexes: TensorView, hidden: usize) -> bool {
    &&& single_on_cpu(table)
    &&& in_rows(table)
    &&& table.dims.len() == 2
    &&& table.dims[1] == hidden
    &&& indexes_on_cpu(indexes)
}

/// The product with a matrix, row by row, is sure to succeed.
pub open spec fn linear_sure(x: TensorView, weight: TensorView) -> bool {
    &&& single_on_cpu(x)
    &&& single_on_cpu(weight)
    &&& in_rows(x)
    &&& in_rows(weight)
    &&& x.dims.len() == 2
    &&& weight.dims.len() == 2
    &&& x.dims[1] == weight.dims[1]
}

/// The product with a quantised matrix of the given dims is sure to succeed.
pub open spec fn project_sure(x: TensorView, weight: Seq<usize>) -> bool {
    &&& single_on_cpu(x)
    &&& in_rows(x)
    &&& 2 <= x.dims.len() <= 4
    &&& weight.len() == 2
    &&& x.dims.last() == weight[1]
}

/// The matrices of a tensor whose elements are stored row by row can be read, and
/// so can the same matrices with rows and columns exchanged.
pub proof fn lemma_rows_are_readable(x: TensorView)
    requires
        single_on_cpu(x),
        in_rows(x),
        2 <= x.dims.len() <= 4,
        forall|i: int| 0 <= i < x.dims.len() ==> #[trigger] x.dims[i] > 0,
    ensures
        of_matrices(x),
        of_matrices(transposed(x, (x.dims.len() - 2) as usize, (x.dims.len() - 1) as usize)),
{
    let n = x.dims.len() as int;
    lemma_stride(x.dims, n - 1);
    lemma_stride(x.dims, n - 2);
    assert(x.dims[n - 1] > 1 ==> x.strides[n - 1] == 1);
    assert(x.dims[n - 2] > 1 ==> x.strides[n - 2] == x.dims[n - 1]);
    if n == 4 {
        lemma_stride(x.dims, 0);
        let stride = row_major_stride(x.dims, 1);
        assert(x.dims[1] * stride == stride * x.dims[1]) by (nonlinear_arith);
        assert(x.dims[0] > 1 ==> x.strides[0] == row_major_stride(x.dims, 0));
        assert(x.dims[1] > 1 ==> x.strides[1] == stride);
    }
}

} // verus!
