//! Runs of operations: the tensor that comes out of one, whether each of its
//! steps is one that the operations take, and whether each is sure to succeed.

use crate::dtype::float_type;
use crate::error::ModelError;
use crate::shape::{elem_count, fits};
use crate::tensor::raw::{qtensor_dims, qtensor_kind, qtensor_place, tensor_view};
use crate::tensor::view;
use crate::tensor::view::{
    broadcast_dims, broadcast_sure, cat_sure, convert_sure, embed_sure, expand_sure, gather_sure,
    in_rows, linear_sure, map_sure, matmul_sure, narrow_sure, pair_sure, plain_on_cpu, project_sure,
    reduce_sure, reshape_sure, rope_sure, select_sure, single_on_cpu, slices_along, transpose_sure,
    Op, Place, TensorView,
};
use candle_core::quantized::{GgmlDType, QTensor};
use candle_core::{DType, Tensor};
use vstd::prelude::*;

verus! {

/// A run of operations.
#[verifier::ext_equal]
pub struct Run {
    /// What is known of the tensor that comes out.
    pub view: TensorView,
    /// Each step is one that the operation takes.
    pub sound: bool,
    /// Each step is sure to succeed: on the cpu, in single precision, with dims
    /// and strides that the operation asks for. For indexes it is up to their
    /// values, too.
    pub sure: bool,
}

impl Run {
    pub open spec fn dims(self) -> Seq<usize> {
        self.view.dims
    }

    pub open spec fn dtype(self) -> DType {
        self.view.dtype
    }

    pub open spec fn place(self) -> Place {
        self.view.place
    }

    /// The run is taken, and sure to succeed.
    pub open spec fn certain(self) -> bool {
        self.sound && self.sure
    }
}

/// No step yet: a tensor that is given.
pub open spec fn given(view: TensorView) -> Run {
    Run { view, sound: true, sure: true }
}

/// No step yet: a tensor that is given.
pub open spec fn run_of(t: Tensor) -> Run {
    given(tensor_view(t))
}

/// The outcome of a run: the tensor that comes out of a sound one. It fails where
/// a step is not sound, may fail where candle fails, and does not fail where it
/// is certain.
pub open spec fn ends(r: Result<Tensor, ModelError>, run: Run) -> bool {
    match r {
        Ok(t) => comes_out(t, run),
        Err(e) => failed(e, run),
    }
}

/// The outcome of a run with indexes, of which it may be known that they are
/// below the number of what they pick from.
pub open spec fn ends_within(r: Result<Tensor, ModelError>, run: Run, below: bool) -> bool {
    match r {
        Ok(t) => comes_out(t, run),
        Err(e) => refused(e, run.sound) && !(run.certain() && below),
    }
}

/// The tensor that comes out of a sound run.
pub open spec fn comes_out(t: Tensor, run: Run) -> bool {
    run.sound && tensor_view(t) == run.view
}

/// The error of a run that is not certain.
pub open spec fn failed(e: ModelError, run: Run) -> bool {
    refused(e, run.sound) && !run.certain()
}

/// Two runs that differ at most in that the first is sure where the second need
/// not be.
pub open spec fn stands_for(a: Run, b: Run) -> bool {
    a.view == b.view && a.sound == b.sound && (b.sure ==> a.sure)
}

/// The error of a run: of candle, or of a step that is not sound.
pub open spec fn refused(e: ModelError, sound: bool) -> bool {
    e is Candle || (!sound && e.of_operation())
}

/// The same, but refused where a condition does not hold.
pub open spec fn only_if(x: Run, condition: bool) -> Run {
    Run { sound: x.sound && condition, ..x }
}

/// The same, but refused with another number of dims.
pub open spec fn of_rank(x: Run, rank: nat) -> Run {
    only_if(x, x.dims().len() == rank)
}

/// The products of dims are `usize` values.
pub open spec fn countable(x: TensorView) -> bool {
    fits(x.dims)
}

/// Floating point numbers.
pub open spec fn numbers(x: TensorView) -> bool {
    countable(x) && float_type(x.dtype)
}

/// There are elements along the last dim.
pub open spec fn rows(x: TensorView) -> bool {
    countable(x) && x.dims.len() > 0 && x.dims.last() != 0
}

/// What an operation on one tensor takes.
pub open spec fn takes(op: Op, x: TensorView) -> bool {
    match op {
        Op::SoftmaxLastDim => rows(x),
        Op::SortLastDim(_) => rows(x),
        _ => numbers(x),
    }
}

/// An operation on one tensor that keeps its dims and element type.
pub open spec fn mapped(op: Op, x: Run) -> Run {
    Run {
        view: view::mapped(op, x.view),
        sound: x.sound && takes(op, x.view),
        sure: x.sure && map_sure(op, x.view),
    }
}

/// An operation on two tensors that keeps the dims and element type of the
/// first.
pub open spec fn paired(op: Op, x: Run, y: Run) -> Run {
    Run {
        view: view::paired(op, x.view, y.view),
        sound: x.sound && y.sound && match op {
            Op::RmsNorm(_) => rows(x.view) && countable(y.view),
            _ => numbers(x.view),
        },
        sure: x.sure && y.sure && pair_sure(op, x.view, y.view),
    }
}

/// The same elements, stored row by row.
pub open spec fn stored(x: Run) -> Run {
    Run {
        view: view::stored(x.view),
        sound: x.sound && countable(x.view),
        sure: x.sure && plain_on_cpu(x.view),
    }
}

/// The same elements in other dims.
pub open spec fn reshaped(x: Run, dims: Seq<usize>) -> Run {
    Run {
        view: view::reshaped(x.view, dims),
        sound: x.sound && countable(x.view) && fits(dims),
        sure: x.sure && reshape_sure(x.view, dims),
    }
}

/// Two dims exchanged.
pub open spec fn transposed(x: Run, i: usize, j: usize) -> Run {
    Run {
        view: view::transposed(x.view, i, j),
        sure: x.sure && transpose_sure(x.view, i, j),
        ..x
    }
}

/// The elements in another element type.
pub open spec fn converted(x: Run, dtype: DType) -> Run {
    Run {
        view: view::converted(x.view, dtype),
        sound: x.sound && countable(x.view),
        sure: x.sure && convert_sure(x.view, dtype),
    }
}

/// `len` slices of a dim from `start` on.
pub open spec fn narrowed(x: Run, dim: usize, start: usize, len: usize) -> Run {
    Run {
        view: view::narrowed(x.view, dim, start, len),
        sure: x.sure && narrow_sure(x.view, dim, start, len),
        ..x
    }
}

/// Without a dim of one slice.
pub open spec fn squeezed(x: Run, dim: usize) -> Run {
    Run { view: view::squeezed(x.view, dim), sure: x.sure && dim < x.dims().len(), ..x }
}

/// Tensors whose slices along a dim can be put one behind the other.
pub open spec fn joinable(parts: Seq<TensorView>, dim: usize) -> bool {
    &&& forall|i: int|
        0 <= i < parts.len() ==> countable(#[trigger] parts[i]) && dim < parts[i].dims.len()
    &&& slices_along(parts, dim) <= usize::MAX
    &&& parts.len() > 0 ==> fits(view::catenated(parts, dim).dims)
}

/// The slices of one tensor along a dim, then those of another.
pub open spec fn joined(x: Run, y: Run, dim: usize) -> Run {
    Run {
        view: view::joined(x.view, y.view, dim),
        sound: x.sound && y.sound && joinable(seq![x.view, y.view], dim),
        sure: x.sure && y.sure && cat_sure(seq![x.view, y.view], dim),
    }
}

/// The slices of `n` copies of a tensor along a dim.
pub open spec fn repeated(x: Run, dim: usize, n: nat) -> Run {
    Run {
        view: view::repeated(x.view, dim, n),
        sound: x.sound && joinable(Seq::new(n, |i: int| x.view), dim),
        sure: x.sure && cat_sure(Seq::new(n, |i: int| x.view), dim),
    }
}

/// The elements repeated along dims of one slice and along new leading dims.
pub open spec fn expanded(x: Run, dims: Seq<usize>) -> Run {
    Run { view: view::expanded(x.view, dims), sure: x.sure && expand_sure(x.view, dims), ..x }
}

/// The matrix product.
pub open spec fn multiplied(x: Run, y: Run) -> Run {
    let product = view::multiplied(x.view, y.view);
    Run {
        view: product,
        sound: {
            &&& x.sound
            &&& y.sound
            &&& x.dims().len() >= 2
            &&& y.dims().len() >= 2
            &&& countable(x.view)
            &&& countable(y.view)
            &&& countable(product)
        },
        sure: x.sure && y.sure && matmul_sure(x.view, y.view),
    }
}

/// An operation on two tensors laid over each other.
pub open spec fn broadcast(op: Op, x: Run, y: Run) -> Run {
    Run {
        view: view::broadcast(op, x.view, y.view),
        sound: {
            &&& x.sound
            &&& y.sound
            &&& numbers(x.view)
            &&& countable(y.view)
            &&& fits(broadcast_dims(x.dims(), y.dims()))
        },
        sure: x.sure && y.sure && broadcast_sure(x.view, y.view),
    }
}

/// A dim brought down to one slice.
pub open spec fn reduced(op: Op, x: Run, dim: usize) -> Run {
    Run {
        view: view::reduced(op, x.view, dim),
        sound: x.sound && numbers(x.view),
        sure: x.sure && reduce_sure(x.view, dim),
    }
}

/// A dim summed up and left out.
pub open spec fn summed(x: Run, dim: usize) -> Run {
    Run {
        view: view::summed(x.view, dim),
        sound: x.sound && numbers(x.view),
        sure: x.sure && reduce_sure(x.view, dim),
    }
}

/// A table by which heads can be rotated.
pub open spec fn angle_table(x: TensorView) -> bool {
    countable(x) && x.dims.len() == 2 && x.dims[1] * 2 <= usize::MAX
}

/// Heads, (batch, heads, sequence, head), rotated by the given angles.
pub open spec fn rotated(x: Run, cos: Run, sin: Run) -> Run {
    Run {
        view: view::rotated(x.view, cos.view, sin.view),
        sound: {
            &&& x.sound
            &&& cos.sound
            &&& sin.sound
            &&& countable(x.view)
            &&& x.dims().len() == 4
            &&& x.dims()[2] == 1 || (x.dims()[2] != 0 && x.dims()[3] != 0)
            &&& angle_table(cos.view)
            &&& angle_table(sin.view)
        },
        sure: x.sure && cos.sure && sin.sure && rope_sure(x.view, cos.view, sin.view),
    }
}

/// The slices of a dim at the given indexes.
pub open spec fn selected(x: Run, indexes: Run, dim: usize) -> Run {
    let slices = view::selected(x.view, indexes.view, dim);
    Run {
        view: slices,
        sound: {
            &&& x.sound
            &&& indexes.sound
            &&& countable(x.view)
            &&& indexes.dims().len() == 1
            &&& dim < x.dims().len()
            &&& countable(slices)
        },
        sure: x.sure && indexes.sure && select_sure(x.view, indexes.view, dim),
    }
}

/// The elements at the given indexes along a dim.
pub open spec fn gathered(x: Run, indexes: Run, dim: usize) -> Run {
    Run {
        view: view::gathered(x.view, indexes.view, dim),
        sound: x.sound && indexes.sound && countable(x.view) && countable(indexes.view),
        sure: x.sure && indexes.sure && gather_sure(x.view, indexes.view, dim),
    }
}

/// The order of the elements along the last dim.
pub open spec fn ordered_indexes(x: Run, asc: bool) -> Run {
    Run {
        view: view::ordered_indexes(x.view, asc),
        sound: x.sound && rows(x.view),
        sure: x.sure && single_on_cpu(x.view) && in_rows(x.view),
    }
}

/// The elements in order along the last dim.
pub open spec fn sorted(x: Run, asc: bool) -> Run {
    mapped(Op::SortLastDim(asc), x)
}

/// The values of a quantised tensor of this kind are held as they are.
pub open spec fn unquantised(kind: GgmlDType) -> bool {
    kind == GgmlDType::F32 || kind == GgmlDType::F16 || kind == GgmlDType::BF16
}

/// The blocks of a row of this kind are read in pairs.
pub open spec fn in_pairs(kind: GgmlDType) -> bool {
    kind == GgmlDType::Q4_1 || kind == GgmlDType::Q5_0 || kind == GgmlDType::Q5_1
}

/// A quantised tensor is a matrix with which the rows of `x` can be multiplied.
pub open spec fn multiplies(weight: QTensor, x: TensorView) -> bool {
    let dims = qtensor_dims(weight);
    &&& dims.len() == 2
    &&& dims[0] != 0 || unquantised(qtensor_kind(weight))
    &&& x.place == Place::Cpu && in_pairs(qtensor_kind(weight)) ==> dims[1] % 64 == 0
    &&& fits(dims)
    &&& x.dims.len() >= 2
    &&& countable(x)
    &&& fits(x.dims.update(x.dims.len() - 1, dims[0]))
    &&& x.place == qtensor_place(weight)
    &&& x.place == Place::Metal ==> x.dtype == DType::F32
}

/// The product with a quantised matrix.
pub open spec fn projected(x: Run, weight: QTensor) -> Run {
    Run {
        view: view::projected(x.view, weight, qtensor_dims(weight)[0]),
        sound: x.sound && multiplies(weight, x.view),
        sure: x.sure && project_sure(x.view, qtensor_dims(weight)),
    }
}

/// The rows of a table at the given indexes, each of `hidden` elements.
pub open spec fn embedded(table: Run, indexes: Run, hidden: usize) -> Run {
    Run {
        view: view::embedded(table.view, indexes.view, hidden),
        sound: {
            &&& table.sound
            &&& indexes.sound
            &&& countable(table.view)
            &&& countable(indexes.view)
            &&& table.dims().len() > 0
            &&& fits(table.dims().update(0, elem_count(indexes.dims()) as usize))
            &&& fits(indexes.dims().push(hidden))
        },
        sure: table.sure && indexes.sure && embed_sure(table.view, indexes.view, hidden),
    }
}

/// The product with a matrix, row by row.
pub open spec fn linear(x: Run, weight: Run) -> Run {
    let product = view::linear(x.view, weight.view);
    Run {
        view: product,
        sound: {
            &&& x.sound
            &&& weight.sound
            &&& x.dims().len() == 2
            &&& weight.dims().len() == 2
            &&& countable(x.view)
            &&& countable(weight.view)
            &&& countable(product)
        },
        sure: x.sure && weight.sure && linear_sure(x.view, weight.view),
    }
}

/// Quantised matrices of experts that take the rows of `x`, `topk` of them for
/// each.
pub open spec fn serves(experts: QTensor, x: TensorView, topk: usize) -> bool {
    let dims = qtensor_dims(experts);
    &&& x.dims.len() == 2
    &&& dims.len() == 3
    &&& x.dims[1] == dims[2]
    &&& x.dims[1] % 8 == 0
    &&& x.dims[0] * topk <= usize::MAX
    &&& x.dims[0] * topk * dims[1] <= usize::MAX
    &&& x.dims[0] * dims[1] <= usize::MAX
}

/// The products of the rows of `x` with the matrices of the experts picked for
/// them.
pub open spec fn expert_products(
    x: Run,
    experts: QTensor,
    weights: Option<Run>,
    token_ids: Run,
    expert_ids: Run,
    topk: usize,
    is_prefill: bool,
    dtype: DType,
) -> Run {
    Run {
        view: view::expert_products(
            x.view,
            experts,
            qtensor_dims(experts)[1],
            match weights {
                Some(w) => Some(w.view),
                None => None,
            },
            token_ids.view,
            expert_ids.view,
            topk,
            is_prefill,
            dtype,
        ),
        sound: {
            &&& x.sound
            &&& weights is Some ==> weights->0.sound
            &&& token_ids.sound
            &&& expert_ids.sound
            &&& serves(experts, x.view, topk)
        },
        sure: false,
    }
}

/// The values of a quantised tensor.
pub open spec fn dequantized(weight: QTensor, place: Place) -> Run {
    let dims = qtensor_dims(weight);
    Run {
        view: view::dequantized(weight, dims, place),
        sound: fits(dims),
        sure: qtensor_place(weight) == Place::Cpu && place == Place::Cpu,
    }
}

/// Zeros.
pub open spec fn zeros(dims: Seq<usize>, dtype: DType, place: Place) -> Run {
    Run {
        view: view::zeros(dims, dtype, place),
        sound: fits(dims) && float_type(dtype),
        sure: place == Place::Cpu && dtype == DType::F32,
    }
}

/// Zeros in the dims and the element type of a tensor.
pub open spec fn zeros_like(x: Run) -> Run {
    let zeros = zeros(x.dims(), x.dtype(), x.place());
    Run { view: zeros.view, sound: x.sound && zeros.sound, sure: x.sure && zeros.sure }
}

/// Bytes, row by row.
pub open spec fn bytes(data: Seq<u8>, dims: Seq<usize>, place: Place) -> Run {
    Run {
        view: view::bytes(data, dims, place),
        sound: fits(dims),
        sure: place == Place::Cpu && data.len() == elem_count(dims),
    }
}

/// The numbers from 0 up to, and without, `n`.
pub open spec fn counted(n: u32, place: Place) -> Run {
    Run { sure: place == Place::Cpu, ..given(view::counted(n, place)) }
}

} // verus!
