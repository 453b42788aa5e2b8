//! The operations of candle for every tensor: what they would panic on is
//! refused.

use crate::dtype::{float_type, is_f32, is_float, is_u32};
use crate::error::ModelError;
use crate::shape::{count_elems, fits, fits_usize};
use crate::tensor::raw;
use crate::tensor::raw::{
    device_place, qmatmul_weight, qtensor_dims, qtensor_kind, qtensor_place, tensor_below,
    tensor_view, views_of,
};
use crate::tensor::run::{
    angle_table, broadcast, bytes, converted, counted, dequantized, embedded, ends, ends_within,
    expanded, expert_products, failed, gathered, in_pairs, joinable, joined, linear, mapped,
    multiplied, narrowed, ordered_indexes, paired, projected, reduced, refused, repeated, reshaped,
    rotated, rows, run_of, selected, sorted, squeezed, stored, summed, transposed, unquantised,
    zeros, Run,
};
use crate::tensor::view;
use crate::tensor::view::{broadcast_dims, cat_sure, slices_along, Op, Place, TensorView};
use candle_core::quantized::{GgmlDType, QMatMul, QTensor};
use candle_core::scalar::Scalar;
use candle_core::{DType, Device, Tensor};
use std::sync::Arc;
use vstd::prelude::*;

verus! {

/// The outcome of an operation of candle.
fn outcome(r: Result<Tensor, candle_core::Error>) -> (o: Result<Tensor, ModelError>)
    ensures
        o is Ok == r is Ok,
        r is Ok ==> o->Ok_0 == r->Ok_0,
        r is Err ==> o == Err::<Tensor, ModelError>(ModelError::Candle(r->Err_0)),
{
    match r {
        Ok(t) => Ok(t),
        Err(e) => Err(ModelError::Candle(e)),
    }
}

/// The dims of a tensor whose products of dims are `usize` values.
fn sound_dims(x: &Tensor) -> (r: Result<Vec<usize>, ModelError>)
    ensures
        r is Ok == fits(tensor_view(*x).dims),
        r is Ok ==> r->Ok_0@ == tensor_view(*x).dims,
        r is Err ==> r->Err_0.of_operation(),
{
    let d = raw::dims(x);
    if fits_usize(&d) {
        Ok(d)
    } else {
        Err(ModelError::TooLarge)
    }
}

/// The dims of a tensor of floating point numbers.
fn float_dims(x: &Tensor) -> (r: Result<Vec<usize>, ModelError>)
    ensures
        r is Ok == (fits(tensor_view(*x).dims) && float_type(tensor_view(*x).dtype)),
        r is Ok ==> r->Ok_0@ == tensor_view(*x).dims,
        r is Err ==> r->Err_0.of_operation(),
{
    if is_float(raw::dtype(x)) {
        sound_dims(x)
    } else {
        Err(ModelError::NotFloat)
    }
}

/// The dims of a tensor with elements along its last dim.
fn row_dims(x: &Tensor) -> (r: Result<Vec<usize>, ModelError>)
    ensures
        r is Ok == (fits(tensor_view(*x).dims) && tensor_view(*x).dims.len() > 0 && tensor_view(
            *x,
        ).dims.last() != 0),
        r is Ok ==> r->Ok_0@ == tensor_view(*x).dims,
        r is Err ==> r->Err_0.of_operation(),
{
    let d = sound_dims(x)?;
    let n = d.len();
    if n > 0 && d[n - 1] != 0 {
        Ok(d)
    } else {
        Err(ModelError::EmptyDim)
    }
}

/// The dims of a tensor of two dims.
pub(crate) fn dims2(x: &Tensor) -> (r: Result<(usize, usize), ModelError>)
    ensures
        r is Ok == (tensor_view(*x).dims.len() == 2),
        r is Ok ==> tensor_view(*x).dims == seq![r->Ok_0.0, r->Ok_0.1],
        r is Err ==> r == Err::<(usize, usize), ModelError>(
            ModelError::UnexpectedRank {
                expected: 2,
                rank: tensor_view(*x).dims.len() as usize,
            },
        ),
        r is Err ==> r->Err_0.of_operation(),
{
    let d = raw::dims(x);
    if d.len() == 2 {
        assert(d@ =~= seq![d@[0], d@[1]]);
        Ok((d[0], d[1]))
    } else {
        Err(ModelError::UnexpectedRank { expected: 2, rank: d.len() })
    }
}

/// The dims of a tensor of three dims.
pub(crate) fn dims3(x: &Tensor) -> (r: Result<(usize, usize, usize), ModelError>)
    ensures
        r is Ok == (tensor_view(*x).dims.len() == 3),
        r is Ok ==> tensor_view(*x).dims == seq![r->Ok_0.0, r->Ok_0.1, r->Ok_0.2],
        r is Err ==> r == Err::<(usize, usize, usize), ModelError>(
            ModelError::UnexpectedRank {
                expected: 3,
                rank: tensor_view(*x).dims.len() as usize,
            },
        ),
{
    let d = raw::dims(x);
    if d.len() == 3 {
        assert(d@ =~= seq![d@[0], d@[1], d@[2]]);
        Ok((d[0], d[1], d[2]))
    } else {
        Err(ModelError::UnexpectedRank { expected: 3, rank: d.len() })
    }
}

/// The dims of a tensor of four dims.
pub(crate) fn dims4(x: &Tensor) -> (r: Result<(usize, usize, usize, usize), ModelError>)
    ensures
        r is Ok == (tensor_view(*x).dims.len() == 4),
        r is Ok ==> tensor_view(*x).dims == seq![r->Ok_0.0, r->Ok_0.1, r->Ok_0.2, r->Ok_0.3],
        r is Err ==> r == Err::<(usize, usize, usize, usize), ModelError>(
            ModelError::UnexpectedRank {
                expected: 4,
                rank: tensor_view(*x).dims.len() as usize,
            },
        ),
{
    let d = raw::dims(x);
    if d.len() == 4 {
        assert(d@ =~= seq![d@[0], d@[1], d@[2], d@[3]]);
        Ok((d[0], d[1], d[2], d[3]))
    } else {
        Err(ModelError::UnexpectedRank { expected: 4, rank: d.len() })
    }
}

/// The element type of a tensor.
pub(crate) fn dtype(x: &Tensor) -> (r: DType)
    ensures
        r == tensor_view(*x).dtype,
{
    raw::dtype(x)
}

/// The same tensor.
pub(crate) fn same(x: &Tensor) -> (r: Tensor)
    ensures
        tensor_view(r) == tensor_view(*x),
{
    raw::same(x)
}

/// The elements of a result are among those of `x`: indexes below a number stay
/// below it.
pub open spec fn keeps_below(x: Tensor, r: Result<Tensor, ModelError>) -> bool {
    r is Ok ==> forall|n: int| #[trigger] tensor_below(x, n) ==> tensor_below(r->Ok_0, n)
}

/// The dims of two tensors laid over each other.
fn overlay(x: &Vec<usize>, y: &Vec<usize>) -> (r: Vec<usize>)
    ensures
        r@ == broadcast_dims(x@, y@),
{
    let rank: usize = if x.len() >= y.len() {
        x.len()
    } else {
        y.len()
    };
    let mut r: Vec<usize> = Vec::new();
    let mut i: usize = 0;
    while i < rank
        invariant
            i <= rank,
            rank == broadcast_dims(x@, y@).len(),
            rank >= x.len(),
            rank >= y.len(),
            r@ == broadcast_dims(x@, y@).take(i as int),
        decreases rank - i,
    {
        let a: usize = if i < rank - x.len() {
            1
        } else {
            x[i - (rank - x.len())]
        };
        let b: usize = if i < rank - y.len() {
            1
        } else {
            y[i - (rank - y.len())]
        };
        let n: usize = if a == 1 {
            b
        } else {
            a
        };
        r.push(n);
        i = i + 1;
        assert(r@ =~= broadcast_dims(x@, y@).take(i as int));
    }
    assert(r@ =~= broadcast_dims(x@, y@));
    r
}

/// The same elements in other dims.
pub(crate) fn reshape(x: &Tensor, dims: Vec<usize>) -> (r: Result<Tensor, ModelError>)
    ensures
        ends(r, reshaped(run_of(*x), dims@)),
        keeps_below(*x, r),
{
    let d = sound_dims(x)?;
    if !fits_usize(&dims) {
        return Err(ModelError::TooLarge);
    }
    outcome(raw::reshape(x, dims))
}

/// The same elements in two dims.
pub(crate) fn reshape2(x: &Tensor, a: usize, b: usize) -> (r: Result<Tensor, ModelError>)
    ensures
        ends(r, reshaped(run_of(*x), seq![a, b])),
{
    let dims = vec![a, b];
    assert(dims@ =~= seq![a, b]);
    reshape(x, dims)
}

/// The same elements in three dims.
pub(crate) fn reshape3(x: &Tensor, a: usize, b: usize, c: usize) -> (r: Result<Tensor, ModelError>)
    ensures
        ends(r, reshaped(run_of(*x), seq![a, b, c])),
{
    let dims = vec![a, b, c];
    assert(dims@ =~= seq![a, b, c]);
    reshape(x, dims)
}

/// The same elements in four dims.
pub(crate) fn reshape4(x: &Tensor, a: usize, b: usize, c: usize, d: usize) -> (r: Result<
    Tensor,
    ModelError,
>)
    ensures
        ends(r, reshaped(run_of(*x), seq![a, b, c, d])),
{
    let dims = vec![a, b, c, d];
    assert(dims@ =~= seq![a, b, c, d]);
    reshape(x, dims)
}

/// Two dims exchanged.
pub(crate) fn transpose(x: &Tensor, i: usize, j: usize) -> (r: Result<Tensor, ModelError>)
    ensures
        ends(r, transposed(run_of(*x), i, j)),
{
    outcome(raw::transpose(x, i, j))
}

/// The same elements, stored row by row.
pub(crate) fn contiguous(x: &Tensor) -> (r: Result<Tensor, ModelError>)
    ensures
        ends(r, stored(run_of(*x))),
        keeps_below(*x, r),
{
    let d = sound_dims(x)?;
    outcome(raw::contiguous(x))
}

/// The elements in another element type.
pub(crate) fn to_dtype(x: &Tensor, dtype: DType) -> (r: Result<Tensor, ModelError>)
    ensures
        ends(r, converted(run_of(*x), dtype)),
{
    let d = sound_dims(x)?;
    outcome(raw::to_dtype(x, dtype))
}

/// Some slices of a dim.
pub(crate) fn narrow(x: &Tensor, dim: usize, start: usize, len: usize) -> (r: Result<Tensor, ModelError>)
    ensures
        ends(r, narrowed(run_of(*x), dim, start, len)),
        keeps_below(*x, r),
{
    outcome(raw::narrow(x, dim, start, len))
}

/// The same elements without a dim of one slice.
pub(crate) fn squeeze(x: &Tensor, dim: usize) -> (r: Result<Tensor, ModelError>)
    ensures
        ends(r, squeezed(run_of(*x), dim)),
{
    outcome(raw::squeeze(x, dim))
}

/// The sums, element by element.
pub(crate) fn plus(x: &Tensor, y: &Tensor) -> (r: Result<Tensor, ModelError>)
    ensures
        ends(r, paired(Op::Add, run_of(*x), run_of(*y))),
{
    let d = float_dims(x)?;
    outcome(raw::tensor_add(x, y))
}

/// The products, element by element.
pub(crate) fn times(x: &Tensor, y: &Tensor) -> (r: Result<Tensor, ModelError>)
    ensures
        ends(r, paired(Op::Mul, run_of(*x), run_of(*y))),
{
    let d = float_dims(x)?;
    outcome(raw::tensor_mul(x, y))
}

/// The sums of two tensors laid over each other.
pub(crate) fn broadcast_add(x: &Tensor, y: &Tensor) -> (r: Result<Tensor, ModelError>)
    ensures
        ends(r, broadcast(Op::BroadcastAdd, run_of(*x), run_of(*y))),
{
    let a = float_dims(x)?;
    let b = sound_dims(y)?;
    let both = overlay(&a, &b);
    if !fits_usize(&both) {
        return Err(ModelError::TooLarge);
    }
    outcome(raw::broadcast_add(x, y))
}

/// The products of two tensors laid over each other.
pub(crate) fn broadcast_mul(x: &Tensor, y: &Tensor) -> (r: Result<Tensor, ModelError>)
    ensures
        ends(r, broadcast(Op::BroadcastMul, run_of(*x), run_of(*y))),
{
    let a = float_dims(x)?;
    let b = sound_dims(y)?;
    let both = overlay(&a, &b);
    if !fits_usize(&both) {
        return Err(ModelError::TooLarge);
    }
    outcome(raw::broadcast_mul(x, y))
}

/// The quotients of two tensors laid over each other.
pub(crate) fn broadcast_div(x: &Tensor, y: &Tensor) -> (r: Result<Tensor, ModelError>)
    ensures
        ends(r, broadcast(Op::BroadcastDiv, run_of(*x), run_of(*y))),
{
    let a = float_dims(x)?;
    let b = sound_dims(y)?;
    let both = overlay(&a, &b);
    if !fits_usize(&both) {
        return Err(ModelError::TooLarge);
    }
    outcome(raw::broadcast_div(x, y))
}

/// The elements multiplied by a number.
pub(crate) fn mul_scalar(x: &Tensor, s: &Scalar) -> (r: Result<Tensor, ModelError>)
    ensures
        ends(r, mapped(Op::MulScalar(*s), run_of(*x))),
{
    let d = float_dims(x)?;
    outcome(raw::mul_scalar(x, s))
}

/// A number added to the elements.
pub(crate) fn add_scalar(x: &Tensor, s: &Scalar) -> (r: Result<Tensor, ModelError>)
    ensures
        ends(r, mapped(Op::AddScalar(*s), run_of(*x))),
{
    let d = float_dims(x)?;
    outcome(raw::add_scalar(x, s))
}

/// The elements divided by a number.
pub(crate) fn div_scalar(x: &Tensor, s: &Scalar) -> (r: Result<Tensor, ModelError>)
    ensures
        ends(r, mapped(Op::DivScalar(*s), run_of(*x))),
{
    let d = float_dims(x)?;
    outcome(raw::div_scalar(x, s))
}

/// The squares.
pub(crate) fn sqr(x: &Tensor) -> (r: Result<Tensor, ModelError>)
    ensures
        ends(r, mapped(Op::Sqr, run_of(*x))),
{
    let d = float_dims(x)?;
    outcome(raw::sqr(x))
}

/// The square roots.
pub(crate) fn sqrt(x: &Tensor) -> (r: Result<Tensor, ModelError>)
    ensures
        ends(r, mapped(Op::Sqrt, run_of(*x))),
{
    let d = float_dims(x)?;
    outcome(raw::sqrt(x))
}

/// The sines.
pub(crate) fn sin(x: &Tensor) -> (r: Result<Tensor, ModelError>)
    ensures
        ends(r, mapped(Op::Sin, run_of(*x))),
{
    let d = float_dims(x)?;
    outcome(raw::sin(x))
}

/// The cosines.
pub(crate) fn cos(x: &Tensor) -> (r: Result<Tensor, ModelError>)
    ensures
        ends(r, mapped(Op::Cos, run_of(*x))),
{
    let d = float_dims(x)?;
    outcome(raw::cos(x))
}

/// The hyperbolic tangents.
pub(crate) fn tanh(x: &Tensor) -> (r: Result<Tensor, ModelError>)
    ensures
        ends(r, mapped(Op::Tanh, run_of(*x))),
{
    let d = float_dims(x)?;
    outcome(raw::tanh(x))
}

/// The natural logarithms.
pub(crate) fn log(x: &Tensor) -> (r: Result<Tensor, ModelError>)
    ensures
        ends(r, mapped(Op::Log, run_of(*x))),
{
    let d = float_dims(x)?;
    outcome(raw::log(x))
}

/// The gelu activation, in its tanh form.
pub(crate) fn gelu(x: &Tensor) -> (r: Result<Tensor, ModelError>)
    ensures
        ends(r, mapped(Op::Gelu, run_of(*x))),
{
    let d = float_dims(x)?;
    outcome(raw::gelu(x))
}

/// The silu activation.
pub(crate) fn silu(x: &Tensor) -> (r: Result<Tensor, ModelError>)
    ensures
        ends(r, mapped(Op::Silu, run_of(*x))),
{
    let d = float_dims(x)?;
    outcome(raw::silu(x))
}

/// The sigmoid activation.
pub(crate) fn sigmoid(x: &Tensor) -> (r: Result<Tensor, ModelError>)
    ensures
        ends(r, mapped(Op::Sigmoid, run_of(*x))),
{
    let d = float_dims(x)?;
    outcome(raw::sigmoid(x))
}

/// The softmax along the last dim.
pub(crate) fn softmax_last_dim(x: &Tensor) -> (r: Result<Tensor, ModelError>)
    ensures
        ends(r, mapped(Op::SoftmaxLastDim, run_of(*x))),
{
    let d = row_dims(x)?;
    outcome(raw::softmax_last_dim(x))
}

/// The sums along a dim, which stays with one slice.
pub(crate) fn sum_keepdim(x: &Tensor, dim: usize) -> (r: Result<Tensor, ModelError>)
    ensures
        ends(r, reduced(Op::SumKeepdim(dim), run_of(*x), dim)),
{
    let d = float_dims(x)?;
    outcome(raw::sum_keepdim(x, dim))
}

/// The means along a dim, which stays with one slice.
pub(crate) fn mean_keepdim(x: &Tensor, dim: usize) -> (r: Result<Tensor, ModelError>)
    ensures
        ends(r, reduced(Op::MeanKeepdim(dim), run_of(*x), dim)),
{
    let d = float_dims(x)?;
    outcome(raw::mean_keepdim(x, dim))
}

/// The sums along a dim, which is left out.
pub(crate) fn sum(x: &Tensor, dim: usize) -> (r: Result<Tensor, ModelError>)
    ensures
        ends(r, summed(run_of(*x), dim)),
{
    let d = float_dims(x)?;
    outcome(raw::sum(x, dim))
}

/// The elements repeated to the given dims.
pub(crate) fn expand(x: &Tensor, dims: Vec<usize>) -> (r: Result<Tensor, ModelError>)
    ensures
        ends(r, expanded(run_of(*x), dims@)),
{
    outcome(raw::expand(x, dims))
}

/// Some tensors have no fewer slices than the first of them.
proof fn lemma_slices_grow(parts: Seq<TensorView>, dim: usize, n: int)
    requires
        0 <= n <= parts.len(),
    ensures
        0 <= slices_along(parts.take(n), dim) <= slices_along(parts, dim),
    decreases parts.len(),
{
    if n == parts.len() {
        assert(parts.take(n) =~= parts);
        if n > 0 {
            assert(parts.drop_last() =~= parts.take(n - 1));
            lemma_slices_grow(parts.drop_last(), dim, n - 1);
            assert(parts.drop_last().take(n - 1) =~= parts.drop_last());
        }
    } else {
        lemma_slices_grow(parts.drop_last(), dim, n);
        assert(parts.drop_last().take(n) =~= parts.take(n));
    }
}

/// The number of slices along a dim of several tensors.
fn count_slices(parts: &Vec<Tensor>, dim: usize) -> (r: Result<usize, ModelError>)
    ensures
        match r {
            Ok(n) => {
                &&& n == slices_along(views_of(parts@), dim)
                &&& forall|i: int|
                    0 <= i < parts@.len() ==> fits((#[trigger] views_of(parts@)[i]).dims) && dim
                        < views_of(parts@)[i].dims.len()
            },
            Err(e) => e.of_operation() && !joinable(views_of(parts@), dim),
        },
{
    let mut total: usize = 0;
    let mut i: usize = 0;
    assert(views_of(parts@).take(0) =~= Seq::<TensorView>::empty());
    while i < parts.len()
        invariant
            i <= parts.len(),
            total == slices_along(views_of(parts@).take(i as int), dim),
            forall|j: int|
                0 <= j < i ==> fits((#[trigger] views_of(parts@)[j]).dims) && dim < views_of(
                    parts@,
                )[j].dims.len(),
        decreases parts.len() - i,
    {
        assert(views_of(parts@)[i as int] == tensor_view(parts@[i as int]));
        let d = sound_dims(&parts[i])?;
        if dim >= d.len() {
            return Err(ModelError::EmptyDim);
        }
        proof {
            let next = views_of(parts@).take(i + 1);
            assert(next.drop_last() =~= views_of(parts@).take(i as int));
            assert(next.last() == views_of(parts@)[i as int]);
            lemma_slices_grow(views_of(parts@), dim, i + 1);
        }
        total = match total.checked_add(d[dim]) {
            Some(t) => t,
            None => return Err(ModelError::TooLarge),
        };
        i = i + 1;
    }
    assert(views_of(parts@).take(parts@.len() as int) =~= views_of(parts@));
    Ok(total)
}

/// The slices of several tensors along a dim, one tensor behind the other.
pub(crate) fn cat(parts: &Vec<Tensor>, dim: usize) -> (r: Result<Tensor, ModelError>)
    ensures
        match r {
            Ok(t) => {
                &&& joinable(views_of(parts@), dim)
                &&& tensor_view(t) == view::catenated(views_of(parts@), dim)
            },
            Err(e) => {
                &&& refused(e, joinable(views_of(parts@), dim))
                &&& !(joinable(views_of(parts@), dim) && cat_sure(views_of(parts@), dim))
            },
        },
{
    let total = count_slices(parts, dim)?;
    assert forall|i: int| 0 <= i < parts@.len() implies fits(
        (#[trigger] tensor_view(parts@[i])).dims,
    ) && dim < tensor_view(parts@[i]).dims.len() by {
        assert(views_of(parts@)[i] == tensor_view(parts@[i]));
    }
    if parts.len() > 0 {
        assert(views_of(parts@)[0] == tensor_view(parts@[0]));
        let mut d = raw::dims(&parts[0]);
        d.set(dim, total);
        assert(d@ == view::catenated(views_of(parts@), dim).dims);
        if !fits_usize(&d) {
            return Err(ModelError::TooLarge);
        }
    }
    outcome(raw::cat(parts, dim))
}

/// The slices of one tensor along a dim, then those of another.
pub(crate) fn join(x: &Tensor, y: &Tensor, dim: usize) -> (r: Result<Tensor, ModelError>)
    ensures
        ends(r, joined(run_of(*x), run_of(*y), dim)),
{
    let parts = vec![same(x), same(y)];
    assert(views_of(parts@) =~= seq![tensor_view(*x), tensor_view(*y)]);
    cat(&parts, dim)
}

/// The slices of `n` copies of a tensor along a dim.
pub(crate) fn repeat(x: &Tensor, dim: usize, n: usize) -> (r: Result<Tensor, ModelError>)
    ensures
        ends(r, repeated(run_of(*x), dim, n as nat)),
{
    let mut parts: Vec<Tensor> = Vec::new();
    let mut i: usize = 0;
    while i < n
        invariant
            i <= n,
            parts@.len() == i,
            forall|j: int| 0 <= j < i ==> tensor_view(#[trigger] parts@[j]) == tensor_view(*x),
        decreases n - i,
    {
        parts.push(same(x));
        i = i + 1;
    }
    assert(views_of(parts@) =~= Seq::new(n as nat, |i: int| tensor_view(*x)));
    cat(&parts, dim)
}

/// The matrix product over the last two dims.
pub(crate) fn matmul(x: &Tensor, y: &Tensor) -> (r: Result<Tensor, ModelError>)
    ensures
        ends(r, multiplied(run_of(*x), run_of(*y))),
{
    let mut a = sound_dims(x)?;
    let b = sound_dims(y)?;
    if a.len() < 2 || b.len() < 2 {
        return Err(ModelError::UnexpectedRank { expected: 2, rank: a.len() });
    }
    let last: usize = a.len() - 1;
    a.set(last, b[b.len() - 1]);
    assert(a@ == view::multiplied(tensor_view(*x), tensor_view(*y)).dims);
    if !fits_usize(&a) {
        return Err(ModelError::TooLarge);
    }
    outcome(raw::matmul(x, y))
}

/// Whether a table of angles can be used by `rope`.
fn is_angle_table(x: &Tensor) -> (r: bool)
    ensures
        r == angle_table(tensor_view(*x)),
{
    let d = raw::dims(x);
    d.len() == 2 && d[1] <= usize::MAX / 2 && fits_usize(&d)
}

/// The two halves of the last dim rotated against each other.
pub(crate) fn rope(x: &Tensor, cos: &Tensor, sin: &Tensor) -> (r: Result<Tensor, ModelError>)
    ensures
        ends(r, rotated(
            run_of(*x),
            run_of(*cos),
            run_of(*sin),
        )),
{
    let d = sound_dims(x)?;
    if d.len() != 4 {
        return Err(ModelError::UnexpectedRank { expected: 4, rank: d.len() });
    }
    if d[2] != 1 && (d[2] == 0 || d[3] == 0) {
        return Err(ModelError::EmptyDim);
    }
    if !is_angle_table(cos) || !is_angle_table(sin) {
        return Err(ModelError::TooLarge);
    }
    outcome(raw::rope(x, cos, sin))
}

/// The elements over the root of their mean square along the last dim, times
/// the weights.
pub(crate) fn rms_norm(x: &Tensor, weight: &Tensor, eps: &Scalar) -> (r: Result<
    Tensor,
    ModelError,
>)
    ensures
        ends(r, paired(
            Op::RmsNorm(*eps),
            run_of(*x),
            run_of(*weight),
        )),
{
    let d = row_dims(x)?;
    let w = sound_dims(weight)?;
    outcome(raw::rms_norm(x, weight, eps))
}

/// The slices of a dim at the given indexes.
pub(crate) fn index_select(x: &Tensor, indexes: &Tensor, dim: usize) -> (r: Result<
    Tensor,
    ModelError,
>)
    ensures
        ends_within(
            r,
            selected(run_of(*x), run_of(*indexes), dim),
            tensor_below(*indexes, tensor_view(*x).dims[dim as int] as int),
        ),
{
    let mut d = sound_dims(x)?;
    let i = raw::dims(indexes);
    if i.len() != 1 {
        return Err(ModelError::UnexpectedRank { expected: 1, rank: i.len() });
    }
    if dim >= d.len() {
        return Err(ModelError::EmptyDim);
    }
    d.set(dim, i[0]);
    assert(d@ == view::selected(tensor_view(*x), tensor_view(*indexes), dim).dims);
    if !fits_usize(&d) {
        return Err(ModelError::TooLarge);
    }
    outcome(raw::index_select(x, indexes, dim))
}

/// The elements at the given indexes along a dim.
pub(crate) fn gather(x: &Tensor, indexes: &Tensor, dim: usize) -> (r: Result<Tensor, ModelError>)
    ensures
        ends_within(
            r,
            gathered(run_of(*x), run_of(*indexes), dim),
            tensor_below(*indexes, tensor_view(*x).dims[dim as int] as int),
        ),
{
    let d = sound_dims(x)?;
    let i = sound_dims(indexes)?;
    outcome(raw::gather(x, indexes, dim))
}

/// Whether all bytes are 1.
fn all_ones(v: &Vec<u8>) -> (r: bool)
    ensures
        r == (forall|i: int| 0 <= i < v@.len() ==> v@[i] == 1),
{
    let mut i: usize = 0;
    while i < v.len()
        invariant
            i <= v.len(),
            forall|j: int| 0 <= j < i ==> v@[j] == 1,
        decreases v.len() - i,
    {
        if v[i] != 1 {
            return false;
        }
        i = i + 1;
    }
    true
}

/// The error of sorting a tensor: that of a run, or, on the cpu, that elements
/// have no order.
pub open spec fn unsortable(e: ModelError, x: Tensor, run: Run) -> bool {
    ||| failed(e, run)
    ||| {
        &&& e is Unordered
        &&& tensor_view(x).place == Place::Cpu
        &&& tensor_view(x).dtype != DType::U32
        &&& !raw::tensor_ordered(x)
    }
}

/// Refuses a tensor that cannot be sorted along its last dim: one without
/// elements there, or one on the cpu with elements that have no order.
fn check_sortable(x: &Tensor) -> (r: Result<(), ModelError>)
    ensures
        match r {
            Ok(_) => {
                &&& rows(tensor_view(*x))
                &&& tensor_view(*x).place != Place::Cpu || tensor_view(*x).dtype == DType::U32
                    || raw::tensor_ordered(*x)
            },
            Err(e) => unsortable(e, *x, ordered_indexes(run_of(*x), true)),
        },
{
    let d = row_dims(x)?;
    if raw::place(x) == Place::Cpu && !is_u32(raw::dtype(x)) {
        match raw::equal_to_itself(x) {
            Ok(v) => {
                if !all_ones(&v) {
                    return Err(ModelError::Unordered);
                }
            },
            Err(e) => return Err(ModelError::Candle(e)),
        }
    }
    Ok(())
}

/// The indexes of the elements along the last dim in order.
pub(crate) fn arg_sort_last_dim(x: &Tensor, asc: bool) -> (r: Result<Tensor, ModelError>)
    ensures
        match r {
            Ok(t) => {
                &&& ends(r, ordered_indexes(run_of(*x), asc))
                &&& tensor_view(*x).place == Place::Cpu ==> tensor_below(
                    t,
                    tensor_view(*x).dims.last() as int,
                )
            },
            Err(e) => unsortable(e, *x, ordered_indexes(run_of(*x), asc)),
        },
{
    check_sortable(x)?;
    outcome(raw::arg_sort_last_dim(x, asc))
}

/// The elements along the last dim in order, and their indexes.
pub(crate) fn sort_last_dim(x: &Tensor, asc: bool) -> (r: Result<(Tensor, Tensor), ModelError>)
    ensures
        match r {
            Ok((values, indexes)) => {
                &&& ends(Ok(values), sorted(run_of(*x), asc))
                &&& ends(Ok(indexes), ordered_indexes(run_of(*x), asc))
            },
            Err(e) => unsortable(e, *x, sorted(run_of(*x), asc)),
        },
{
    check_sortable(x)?;
    match raw::sort_last_dim(x, asc) {
        Ok(p) => Ok(p),
        Err(e) => Err(ModelError::Candle(e)),
    }
}

/// A run that starts with an optional tensor.
pub open spec fn option_run(t: Option<Tensor>) -> Option<Run> {
    match t {
        Some(t) => Some(run_of(t)),
        None => None,
    }
}

/// The products of rows with the matrices of the experts picked for them.
pub(crate) fn moe_gemm(
    x: &Tensor,
    experts: &QTensor,
    weights: &Option<Tensor>,
    token_ids: &Tensor,
    expert_ids: &Tensor,
    topk: usize,
    is_prefill: bool,
    dtype: DType,
) -> (r: Result<Tensor, ModelError>)
    ensures
        ends(
            r,
            expert_products(
                run_of(*x),
                *experts,
                option_run(*weights),
                run_of(*token_ids),
                run_of(*expert_ids),
                topk,
                is_prefill,
                dtype,
            ),
        ),
{
    let d = raw::dims(x);
    let e = raw::qdims(experts);
    if d.len() != 2 || e.len() != 3 {
        return Err(ModelError::ExpertShape);
    }
    if d[1] != e[2] || d[1] % 8 != 0 {
        return Err(ModelError::ExpertShape);
    }
    let direct = d[0].checked_mul(e[1]);
    let picks = match d[0].checked_mul(topk) {
        Some(n) => n,
        None => return Err(ModelError::TooLarge),
    };
    if direct.is_none() || picks.checked_mul(e[1]).is_none() {
        return Err(ModelError::TooLarge);
    }
    outcome(
        raw::moe_gemm_gguf(
            x,
            experts,
            weights,
            token_ids,
            expert_ids,
            topk,
            is_prefill,
            dtype,
        ),
    )
}

/// Zeros in the dims and element type of a tensor.
pub(crate) fn zeros_like(x: &Tensor) -> (r: Result<Tensor, ModelError>)
    ensures
        ends(r, zeros(tensor_view(*x).dims, tensor_view(*x).dtype, tensor_view(*x).place)),
{
    let d = float_dims(x)?;
    outcome(raw::zeros_like(x))
}

/// Bytes in two dims, row by row.
pub(crate) fn from_bytes2(data: &Vec<u8>, a: usize, b: usize, device: &Device) -> (r: Result<
    Tensor,
    ModelError,
>)
    ensures
        ends(r, bytes(data@, seq![a, b], device_place(*device))),
{
    let dims = vec![a, b];
    assert(dims@ =~= seq![a, b]);
    if !fits_usize(&dims) {
        return Err(ModelError::TooLarge);
    }
    outcome(raw::from_bytes(data, dims, device))
}

/// The numbers from 0 up to, and without, `n`.
pub(crate) fn count(n: u32, device: &Device) -> (r: Result<Tensor, ModelError>)
    ensures
        ends(r, counted(n, device_place(*device))),
{
    outcome(raw::count(n, device))
}

/// The rows of a table at the given indexes.
pub(crate) fn embedding(table: &Tensor, hidden: usize, indexes: &Tensor) -> (r: Result<
    Tensor,
    ModelError,
>)
    ensures
        ends_within(
            r,
            embedded(run_of(*table), run_of(*indexes), hidden),
            tensor_below(*indexes, tensor_view(*table).dims[0] as int),
        ),
{
    let mut t = sound_dims(table)?;
    let mut i = sound_dims(indexes)?;
    if t.len() == 0 {
        return Err(ModelError::UnexpectedRank { expected: 2, rank: 0 });
    }
    let n = count_elems(&i);
    t.set(0, n);
    i.push(hidden);
    if !fits_usize(&t) || !fits_usize(&i) {
        return Err(ModelError::TooLarge);
    }
    outcome(raw::embedding(table, hidden, indexes))
}

/// The product of each row with a matrix.
pub(crate) fn linear_rows(x: &Tensor, weight: &Tensor) -> (r: Result<Tensor, ModelError>)
    ensures
        ends(r, linear(run_of(*x), run_of(*weight))),
{
    let mut d = sound_dims(x)?;
    let w = sound_dims(weight)?;
    if d.len() != 2 || w.len() != 2 {
        return Err(ModelError::UnexpectedRank { expected: 2, rank: d.len() });
    }
    d.set(1, w[0]);
    assert(d@ == view::linear(tensor_view(*x), tensor_view(*weight)).dims);
    if !fits_usize(&d) {
        return Err(ModelError::TooLarge);
    }
    outcome(raw::linear_rows(x, weight))
}

/// The values of a quantised tensor, on a device.
pub(crate) fn dequantize(q: &QTensor, device: &Device) -> (r: Result<Tensor, ModelError>)
    ensures
        ends(r, dequantized(*q, device_place(*device))),
{
    if !fits_usize(&raw::qdims(q)) {
        return Err(ModelError::TooLarge);
    }
    outcome(raw::dequantize(q, device))
}

/// The values of a quantised tensor, where it lives.
pub(crate) fn dequantize_in_place(q: &QTensor) -> (r: Result<Tensor, ModelError>)
    ensures
        ends(r, dequantized(*q, qtensor_place(*q))),
{
    if !fits_usize(&raw::qdims(q)) {
        return Err(ModelError::TooLarge);
    }
    outcome(raw::dequantize_in_place(q))
}

/// The matrix of a quantised tensor.
pub(crate) fn qmatmul_from(q: Arc<QTensor>) -> (r: Result<QMatMul, ModelError>)
    ensures
        match r {
            Ok(w) => fits(qtensor_dims(*q)) && qmatmul_weight(w) == *q,
            Err(e) => refused(e, fits(qtensor_dims(*q))),
        },
        fits(qtensor_dims(*q)) && qtensor_place(*q) == Place::Cpu ==> r is Ok,
{
    if !fits_usize(&raw::qdims(&q)) {
        return Err(ModelError::TooLarge);
    }
    match raw::qmatmul_from(q) {
        Ok(w) => Ok(w),
        Err(e) => Err(ModelError::Candle(e)),
    }
}

/// Whether the values of a quantised tensor of this kind are held as they are.
fn is_unquantised(kind: GgmlDType) -> (r: bool)
    ensures
        r == unquantised(kind),
{
    match kind {
        GgmlDType::F32 | GgmlDType::F16 | GgmlDType::BF16 => true,
        _ => false,
    }
}

/// Whether the blocks of a row of this kind are read in pairs.
fn is_in_pairs(kind: GgmlDType) -> (r: bool)
    ensures
        r == in_pairs(kind),
{
    match kind {
        GgmlDType::Q4_1 | GgmlDType::Q5_0 | GgmlDType::Q5_1 => true,
        _ => false,
    }
}

/// The product of each row with a quantised matrix of the given dims, kind and
/// place.
pub(crate) fn qmatmul(
    x: &Tensor,
    w: &QMatMul,
    dims: &Vec<usize>,
    kind: GgmlDType,
    place: Place,
) -> (r: Result<Tensor, ModelError>)
    requires
        dims@ == qtensor_dims(qmatmul_weight(*w)),
        kind == qtensor_kind(qmatmul_weight(*w)),
        place == qtensor_place(qmatmul_weight(*w)),
    ensures
        ends(r, projected(run_of(*x), qmatmul_weight(*w))),
{
    let mut d = sound_dims(x)?;
    if dims.len() != 2 || d.len() < 2 {
        return Err(ModelError::UnexpectedRank { expected: 2, rank: d.len() });
    }
    if dims[0] == 0 && !is_unquantised(kind) {
        return Err(ModelError::EmptyDim);
    }
    if raw::place(x) == Place::Cpu && is_in_pairs(kind) && dims[1] % 64 != 0 {
        return Err(ModelError::OddBlocks);
    }
    if !fits_usize(dims) {
        return Err(ModelError::TooLarge);
    }
    let last: usize = d.len() - 1;
    d.set(last, dims[0]);
    if !fits_usize(&d) {
        return Err(ModelError::TooLarge);
    }
    if raw::place(x) != place {
        return Err(ModelError::PlaceMismatch);
    }
    if place == Place::Metal && !is_f32(raw::dtype(x)) {
        return Err(ModelError::PlaceMismatch);
    }
    outcome(raw::qmatmul(x, w))
}

} // verus!
