//! The operations of candle that the models use, and what is taken for granted
//! of each.
//!
//! An operation that returns a tensor may fail. Where it returns one, the
//! contract says what is known of it. Of when it fails, it is said that it does
//! not on the cpu, for dims, strides and element types that it asks for; of the
//! values of the elements, nothing beyond the operation that made them. The
//! products of dims are computed by candle
//! without a check, so `fits` is asked of every shape that an operation
//! multiplies up; the other `requires` leave out what an operation panics on.

use crate::dtype::float_type;
use crate::shape::{elem_count, fits};
use crate::tensor::run::multiplies;
use crate::tensor::view::{
    broadcast, broadcast_dims, broadcast_sure, bytes, cat_sure, catenated, convert_sure, converted,
    counted, dequantized, embed_sure, embedded, expand_sure, expanded, expert_products, gather_sure,
    gathered, in_rows, linear, linear_sure, map_sure, mapped, matmul_sure, multiplied, narrow_sure,
    narrowed, ordered_indexes, pair_sure, paired, plain_on_cpu, project_sure, projected,
    reduce_sure, reduced, reshape_sure, reshaped, rope_sure, rotated, select_sure, selected,
    single_on_cpu, slices_along, sorted, squeezed, stored, summed, transpose_sure, transposed,
    zeros, Op, Place, TensorView,
};
use candle_core::quantized::{GgmlDType, QMatMul, QTensor};
use candle_core::scalar::Scalar;
use candle_core::{DType, Device, Tensor, WithDType};
use candle_nn::Module;
use std::sync::Arc;
use vstd::prelude::*;

verus! {

/// `candle_core::Tensor`.
#[verifier::external_type_specification]
#[verifier::external_body]
pub struct ExTensor(candle_core::Tensor);

/// `candle_core::Device`: where tensors live.
#[verifier::external_type_specification]
#[verifier::external_body]
pub struct ExDevice(candle_core::Device);

/// `candle_core::scalar::Scalar`: a number, among them the floating point ones.
#[verifier::external_type_specification]
#[verifier::external_body]
pub struct ExScalar(candle_core::scalar::Scalar);

/// `candle_core::quantized::QTensor`: a quantised tensor.
#[verifier::external_type_specification]
#[verifier::external_body]
pub struct ExQTensor(candle_core::quantized::QTensor);

/// `candle_core::quantized::QMatMul`: a quantised matrix to multiply with.
#[verifier::external_type_specification]
#[verifier::external_body]
pub struct ExQMatMul(candle_core::quantized::QMatMul);

/// What is known of a tensor. Dims, strides, element type and place are those of
/// the tensor; how it was made is the history of the calls that gave it. Some
/// operations hand back the very tensor that they are given: its history is then
/// the longer one.
pub uninterp spec fn tensor_view(t: Tensor) -> TensorView;

/// Every element of a tensor of indexes is below `n`.
pub uninterp spec fn tensor_below(t: Tensor, n: int) -> bool;

/// No element of a tensor is without an order towards itself.
pub uninterp spec fn tensor_ordered(t: Tensor) -> bool;

/// The dims of a quantised tensor.
pub uninterp spec fn qtensor_dims(q: QTensor) -> Seq<usize>;

/// How the values of a quantised tensor are held.
pub uninterp spec fn qtensor_kind(q: QTensor) -> GgmlDType;

/// Where a quantised tensor lives.
pub uninterp spec fn qtensor_place(q: QTensor) -> Place;

/// The quantised tensor that a matrix was made from.
pub uninterp spec fn qmatmul_weight(w: QMatMul) -> QTensor;

/// The kind of a device.
pub uninterp spec fn device_place(d: Device) -> Place;

/// What is known of each of several tensors.
pub open spec fn views_of(parts: Seq<Tensor>) -> Seq<TensorView> {
    Seq::new(parts.len(), |i: int| tensor_view(parts[i]))
}

/// What is known of an optional tensor.
pub open spec fn option_view(t: Option<Tensor>) -> Option<TensorView> {
    match t {
        Some(t) => Some(tensor_view(t)),
        None => None,
    }
}

/// `Tensor::dims`: the dims.
#[verifier::external_body]
pub(crate) fn dims(x: &Tensor) -> (r: Vec<usize>)
    ensures
        r@ == tensor_view(*x).dims,
{
    x.dims().to_vec()
}

/// `Tensor::dtype`: the element type.
#[verifier::external_body]
pub(crate) fn dtype(x: &Tensor) -> (r: DType)
    ensures
        r == tensor_view(*x).dtype,
{
    x.dtype()
}

/// `Tensor::device`: the kind of device.
#[verifier::external_body]
pub(crate) fn place(x: &Tensor) -> (r: Place)
    ensures
        r == tensor_view(*x).place,
{
    match x.device() {
        Device::Cpu => Place::Cpu,
        Device::Cuda(_) => Place::Cuda,
        Device::Metal(_) => Place::Metal,
    }
}

/// `Tensor::clone`: the same tensor.
#[verifier::external_body]
pub(crate) fn same(x: &Tensor) -> (r: Tensor)
    ensures
        tensor_view(r) == tensor_view(*x),
{
    x.clone()
}

/// `Device::clone`: the same device.
#[verifier::external_body]
pub(crate) fn same_device(d: &Device) -> (r: Device)
    ensures
        device_place(r) == device_place(*d),
{
    d.clone()
}

/// `Tensor::reshape`: the same elements in the given dims, stored row by row. On
/// the cpu it does not fail where the numbers of elements agree.
#[verifier::external_body]
pub(crate) fn reshape(x: &Tensor, dims: Vec<usize>) -> (r: Result<Tensor, candle_core::Error>)
    requires
        fits(tensor_view(*x).dims),
        fits(dims@),
    ensures
        r is Ok ==> tensor_view(r->Ok_0) == reshaped(tensor_view(*x), dims@),
        r is Ok ==> forall|n: int| #[trigger] tensor_below(*x, n) ==> tensor_below(r->Ok_0, n),
        reshape_sure(tensor_view(*x), dims@) ==> r is Ok,
{
    x.reshape(dims)
}

/// `Tensor::transpose`: two dims exchanged. It does not fail where there are such
/// dims.
#[verifier::external_body]
pub(crate) fn transpose(x: &Tensor, i: usize, j: usize) -> (r: Result<Tensor, candle_core::Error>)
    ensures
        r is Ok ==> tensor_view(r->Ok_0) == transposed(tensor_view(*x), i, j),
        transpose_sure(tensor_view(*x), i, j) ==> r is Ok,
{
    x.transpose(i, j)
}

/// `Tensor::contiguous`: the same elements, stored row by row. On the cpu it does
/// not fail.
#[verifier::external_body]
pub(crate) fn contiguous(x: &Tensor) -> (r: Result<Tensor, candle_core::Error>)
    requires
        fits(tensor_view(*x).dims),
    ensures
        r is Ok ==> tensor_view(r->Ok_0) == stored(tensor_view(*x)),
        r is Ok ==> forall|n: int| #[trigger] tensor_below(*x, n) ==> tensor_below(r->Ok_0, n),
        plain_on_cpu(tensor_view(*x)) ==> r is Ok,
{
    x.contiguous()
}

/// `Tensor::to_dtype`: the elements in the given element type. On the cpu it
/// does not fail from single precision, `u8` or `u32` to a floating point type.
#[verifier::external_body]
pub(crate) fn to_dtype(x: &Tensor, dtype: DType) -> (r: Result<Tensor, candle_core::Error>)
    requires
        fits(tensor_view(*x).dims),
    ensures
        r is Ok ==> tensor_view(r->Ok_0) == converted(tensor_view(*x), dtype),
        convert_sure(tensor_view(*x), dtype) ==> r is Ok,
{
    x.to_dtype(dtype)
}

/// `Tensor::narrow`: `len` slices of a dim from `start` on. It does not fail where
/// there are such slices.
#[verifier::external_body]
pub(crate) fn narrow(
    x: &Tensor,
    dim: usize,
    start: usize,
    len: usize,
) -> (r: Result<Tensor, candle_core::Error>)
    ensures
        r is Ok ==> tensor_view(r->Ok_0) == narrowed(tensor_view(*x), dim, start, len),
        r is Ok ==> forall|n: int| #[trigger] tensor_below(*x, n) ==> tensor_below(r->Ok_0, n),
        narrow_sure(tensor_view(*x), dim, start, len) ==> r is Ok,
{
    x.narrow(dim, start, len)
}

/// `Tensor::squeeze`: the same elements without a dim of one slice; a dim of
/// another number of slices stays. It does not fail where there is such a dim.
#[verifier::external_body]
pub(crate) fn squeeze(x: &Tensor, dim: usize) -> (r: Result<Tensor, candle_core::Error>)
    ensures
        r is Ok ==> tensor_view(r->Ok_0) == squeezed(tensor_view(*x), dim),
        dim < tensor_view(*x).dims.len() ==> r is Ok,
{
    x.squeeze(dim)
}

/// `Tensor::expand`: the elements repeated to the given dims. It does not fail
/// where the given dims end with those of the tensor.
#[verifier::external_body]
pub(crate) fn expand(x: &Tensor, dims: Vec<usize>) -> (r: Result<Tensor, candle_core::Error>)
    ensures
        r is Ok ==> tensor_view(r->Ok_0) == expanded(tensor_view(*x), dims@),
        expand_sure(tensor_view(*x), dims@) ==> r is Ok,
{
    x.expand(dims)
}

/// `Tensor::cat`: the slices along a dim of the tensors, one behind the other. On
/// the cpu it does not fail in single precision where the other dims agree.
#[verifier::external_body]
pub(crate) fn cat(parts: &Vec<Tensor>, dim: usize) -> (r: Result<Tensor, candle_core::Error>)
    requires
        forall|i: int|
            0 <= i < parts@.len() ==> fits((#[trigger] tensor_view(parts@[i])).dims) && dim < tensor_view(parts@[i]).dims.len(),
        parts@.len() > 0 ==> slices_along(views_of(parts@), dim) <= usize::MAX,
        parts@.len() > 0 ==> fits(catenated(views_of(parts@), dim).dims),
    ensures
        r is Ok ==> tensor_view(r->Ok_0) == catenated(views_of(parts@), dim),
        cat_sure(views_of(parts@), dim) ==> r is Ok,
{
    Tensor::cat(parts, dim)
}

/// `Tensor::matmul`: the matrix product over the last two dims. On the cpu it does
/// not fail in single precision for tensors of up to four dims that agree, whose
/// matrices are stored row by row or column by column, at equal distances.
#[verifier::external_body]
pub(crate) fn matmul(x: &Tensor, y: &Tensor) -> (r: Result<Tensor, candle_core::Error>)
    requires
        tensor_view(*x).dims.len() >= 2,
        tensor_view(*y).dims.len() >= 2,
        fits(tensor_view(*x).dims),
        fits(tensor_view(*y).dims),
        fits(multiplied(tensor_view(*x), tensor_view(*y)).dims),
    ensures
        r is Ok ==> tensor_view(r->Ok_0) == multiplied(tensor_view(*x), tensor_view(*y)),
        matmul_sure(tensor_view(*x), tensor_view(*y)) ==> r is Ok,
{
    x.matmul(y)
}

/// `Tensor::add`: the sums, element by element. On the cpu it does not fail in
/// single precision for equal dims.
#[verifier::external_body]
pub(crate) fn tensor_add(x: &Tensor, y: &Tensor) -> (r: Result<Tensor, candle_core::Error>)
    requires
        fits(tensor_view(*x).dims),
        float_type(tensor_view(*x).dtype),
    ensures
        r is Ok ==> tensor_view(r->Ok_0) == paired(Op::Add, tensor_view(*x), tensor_view(*y)),
        pair_sure(Op::Add, tensor_view(*x), tensor_view(*y)) ==> r is Ok,
{
    x.add(y)
}

/// `Tensor::mul`: the products, element by element. On the cpu it does not fail in
/// single precision for equal dims.
#[verifier::external_body]
pub(crate) fn tensor_mul(x: &Tensor, y: &Tensor) -> (r: Result<Tensor, candle_core::Error>)
    requires
        fits(tensor_view(*x).dims),
        float_type(tensor_view(*x).dtype),
    ensures
        r is Ok ==> tensor_view(r->Ok_0) == paired(Op::Mul, tensor_view(*x), tensor_view(*y)),
        pair_sure(Op::Mul, tensor_view(*x), tensor_view(*y)) ==> r is Ok,
{
    x.mul(y)
}

/// `Tensor::broadcast_add`: the sums of two tensors laid over each other. On
/// the cpu it does not fail in single precision where the dims can be laid over
/// each other.
#[verifier::external_body]
pub(crate) fn broadcast_add(x: &Tensor, y: &Tensor) -> (r: Result<Tensor, candle_core::Error>)
    requires
        fits(tensor_view(*x).dims),
        fits(tensor_view(*y).dims),
        fits(broadcast_dims(tensor_view(*x).dims, tensor_view(*y).dims)),
        float_type(tensor_view(*x).dtype),
    ensures
        r is Ok ==> tensor_view(r->Ok_0) == broadcast(Op::BroadcastAdd, tensor_view(*x), tensor_view(*y)),
        broadcast_sure(tensor_view(*x), tensor_view(*y)) ==> r is Ok,
{
    x.broadcast_add(y)
}

/// `Tensor::broadcast_mul`: the products of two tensors laid over each other. On
/// the cpu it does not fail in single precision where the dims can be laid over
/// each other.
#[verifier::external_body]
pub(crate) fn broadcast_mul(x: &Tensor, y: &Tensor) -> (r: Result<Tensor, candle_core::Error>)
    requires
        fits(tensor_view(*x).dims),
        fits(tensor_view(*y).dims),
        fits(broadcast_dims(tensor_view(*x).dims, tensor_view(*y).dims)),
        float_type(tensor_view(*x).dtype),
    ensures
        r is Ok ==> tensor_view(r->Ok_0) == broadcast(Op::BroadcastMul, tensor_view(*x), tensor_view(*y)),
        broadcast_sure(tensor_view(*x), tensor_view(*y)) ==> r is Ok,
{
    x.broadcast_mul(y)
}

/// `Tensor::broadcast_div`: the quotients of two tensors laid over each other. On
/// the cpu it does not fail in single precision where the dims can be laid over
/// each other.
#[verifier::external_body]
pub(crate) fn broadcast_div(x: &Tensor, y: &Tensor) -> (r: Result<Tensor, candle_core::Error>)
    requires
        fits(tensor_view(*x).dims),
        fits(tensor_view(*y).dims),
        fits(broadcast_dims(tensor_view(*x).dims, tensor_view(*y).dims)),
        float_type(tensor_view(*x).dtype),
    ensures
        r is Ok ==> tensor_view(r->Ok_0) == broadcast(Op::BroadcastDiv, tensor_view(*x), tensor_view(*y)),
        broadcast_sure(tensor_view(*x), tensor_view(*y)) ==> r is Ok,
{
    x.broadcast_div(y)
}

/// `Tensor` times `f64`: the elements multiplied by a number.
/// On the cpu it does not fail in single precision.
#[verifier::external_body]
pub(crate) fn mul_scalar(x: &Tensor, s: &Scalar) -> (r: Result<Tensor, candle_core::Error>)
    requires
        fits(tensor_view(*x).dims),
        float_type(tensor_view(*x).dtype),
    ensures
        r is Ok ==> tensor_view(r->Ok_0) == mapped(Op::MulScalar(*s), tensor_view(*x)),
        single_on_cpu(tensor_view(*x)) ==> r is Ok,
{
    x * s.to_f64()
}

/// `Tensor` plus `f64`: a number added to the elements.
/// On the cpu it does not fail in single precision.
#[verifier::external_body]
pub(crate) fn add_scalar(x: &Tensor, s: &Scalar) -> (r: Result<Tensor, candle_core::Error>)
    requires
        fits(tensor_view(*x).dims),
        float_type(tensor_view(*x).dtype),
    ensures
        r is Ok ==> tensor_view(r->Ok_0) == mapped(Op::AddScalar(*s), tensor_view(*x)),
        single_on_cpu(tensor_view(*x)) ==> r is Ok,
{
    x + s.to_f64()
}

/// `Tensor` by `f64`: the elements divided by a number.
/// On the cpu it does not fail in single precision.
#[verifier::external_body]
pub(crate) fn div_scalar(x: &Tensor, s: &Scalar) -> (r: Result<Tensor, candle_core::Error>)
    requires
        fits(tensor_view(*x).dims),
        float_type(tensor_view(*x).dtype),
    ensures
        r is Ok ==> tensor_view(r->Ok_0) == mapped(Op::DivScalar(*s), tensor_view(*x)),
        single_on_cpu(tensor_view(*x)) ==> r is Ok,
{
    x / s.to_f64()
}

/// `Tensor::sqr`: the squares.
/// On the cpu it does not fail in single precision.
#[verifier::external_body]
pub(crate) fn sqr(x: &Tensor) -> (r: Result<Tensor, candle_core::Error>)
    requires
        fits(tensor_view(*x).dims),
        float_type(tensor_view(*x).dtype),
    ensures
        r is Ok ==> tensor_view(r->Ok_0) == mapped(Op::Sqr, tensor_view(*x)),
        single_on_cpu(tensor_view(*x)) ==> r is Ok,
{
    x.sqr()
}

/// `Tensor::sqrt`: the square roots.
/// On the cpu it does not fail in single precision.
#[verifier::external_body]
pub(crate) fn sqrt(x: &Tensor) -> (r: Result<Tensor, candle_core::Error>)
    requires
        fits(tensor_view(*x).dims),
        float_type(tensor_view(*x).dtype),
    ensures
        r is Ok ==> tensor_view(r->Ok_0) == mapped(Op::Sqrt, tensor_view(*x)),
        single_on_cpu(tensor_view(*x)) ==> r is Ok,
{
    x.sqrt()
}

/// `Tensor::sin`: the sines. On the cpu it does not fail in single
/// precision.
#[verifier::external_body]
pub(crate) fn sin(x: &Tensor) -> (r: Result<Tensor, candle_core::Error>)
    requires
        fits(tensor_view(*x).dims),
        float_type(tensor_view(*x).dtype),
    ensures
        r is Ok ==> tensor_view(r->Ok_0) == mapped(Op::Sin, tensor_view(*x)),
        single_on_cpu(tensor_view(*x)) ==> r is Ok,
{
    x.sin()
}

/// `Tensor::cos`: the cosines. On the cpu it does not fail in single
/// precision.
#[verifier::external_body]
pub(crate) fn cos(x: &Tensor) -> (r: Result<Tensor, candle_core::Error>)
    requires
        fits(tensor_view(*x).dims),
        float_type(tensor_view(*x).dtype),
    ensures
        r is Ok ==> tensor_view(r->Ok_0) == mapped(Op::Cos, tensor_view(*x)),
        single_on_cpu(tensor_view(*x)) ==> r is Ok,
{
    x.cos()
}

/// `Tensor::tanh`: the hyperbolic tangents.
/// On the cpu it does not fail in single precision.
#[verifier::external_body]
pub(crate) fn tanh(x: &Tensor) -> (r: Result<Tensor, candle_core::Error>)
    requires
        fits(tensor_view(*x).dims),
        float_type(tensor_view(*x).dtype),
    ensures
        r is Ok ==> tensor_view(r->Ok_0) == mapped(Op::Tanh, tensor_view(*x)),
        single_on_cpu(tensor_view(*x)) ==> r is Ok,
{
    x.tanh()
}

/// `Tensor::log`: the natural logarithms. On the cpu it does not fail in single
/// precision.
#[verifier::external_body]
pub(crate) fn log(x: &Tensor) -> (r: Result<Tensor, candle_core::Error>)
    requires
        fits(tensor_view(*x).dims),
        float_type(tensor_view(*x).dtype),
    ensures
        r is Ok ==> tensor_view(r->Ok_0) == mapped(Op::Log, tensor_view(*x)),
        single_on_cpu(tensor_view(*x)) ==> r is Ok,
{
    x.log()
}

/// `candle_nn::Activation::GeluPytorchTanh`: the activation, element by element.
/// On the cpu it does not fail in single precision.
#[verifier::external_body]
pub(crate) fn gelu(x: &Tensor) -> (r: Result<Tensor, candle_core::Error>)
    requires
        fits(tensor_view(*x).dims),
        float_type(tensor_view(*x).dtype),
    ensures
        r is Ok ==> tensor_view(r->Ok_0) == mapped(Op::Gelu, tensor_view(*x)),
        single_on_cpu(tensor_view(*x)) ==> r is Ok,
{
    x.apply(&candle_nn::Activation::GeluPytorchTanh)
}

/// `candle_nn::ops::silu`: the activation, element by element.
/// On the cpu it does not fail in single precision.
#[verifier::external_body]
pub(crate) fn silu(x: &Tensor) -> (r: Result<Tensor, candle_core::Error>)
    requires
        fits(tensor_view(*x).dims),
        float_type(tensor_view(*x).dtype),
    ensures
        r is Ok ==> tensor_view(r->Ok_0) == mapped(Op::Silu, tensor_view(*x)),
        single_on_cpu(tensor_view(*x)) ==> r is Ok,
{
    candle_nn::ops::silu(x)
}

/// `candle_nn::ops::sigmoid`: the activation, element by element.
/// On the cpu it does not fail in single precision.
#[verifier::external_body]
pub(crate) fn sigmoid(x: &Tensor) -> (r: Result<Tensor, candle_core::Error>)
    requires
        fits(tensor_view(*x).dims),
        float_type(tensor_view(*x).dtype),
    ensures
        r is Ok ==> tensor_view(r->Ok_0) == mapped(Op::Sigmoid, tensor_view(*x)),
        single_on_cpu(tensor_view(*x)) ==> r is Ok,
{
    candle_nn::ops::sigmoid(x)
}

/// `candle_nn::ops::softmax_last_dim`: the softmax along the last dim. On the
/// cpu it does not fail in single precision for rows stored one behind the other.
#[verifier::external_body]
pub(crate) fn softmax_last_dim(x: &Tensor) -> (r: Result<Tensor, candle_core::Error>)
    requires
        fits(tensor_view(*x).dims),
        tensor_view(*x).dims.len() > 0,
        tensor_view(*x).dims.last() != 0,
    ensures
        r is Ok ==> tensor_view(r->Ok_0) == mapped(Op::SoftmaxLastDim, tensor_view(*x)),
        map_sure(Op::SoftmaxLastDim, tensor_view(*x)) ==> r is Ok,
{
    candle_nn::ops::softmax_last_dim(x)
}

/// `Tensor::sum_keepdim`: the sums along a dim, which stays with one slice.
/// On the cpu it does not fail in single precision where there is such a dim.
#[verifier::external_body]
pub(crate) fn sum_keepdim(x: &Tensor, dim: usize) -> (r: Result<Tensor, candle_core::Error>)
    requires
        fits(tensor_view(*x).dims),
        float_type(tensor_view(*x).dtype),
    ensures
        r is Ok ==> tensor_view(r->Ok_0) == reduced(Op::SumKeepdim(dim), tensor_view(*x), dim),
        reduce_sure(tensor_view(*x), dim) ==> r is Ok,
{
    x.sum_keepdim(dim)
}

/// `Tensor::mean_keepdim`: the means along a dim, which stays with one slice.
/// On the cpu it does not fail in single precision where there is such a dim.
#[verifier::external_body]
pub(crate) fn mean_keepdim(x: &Tensor, dim: usize) -> (r: Result<Tensor, candle_core::Error>)
    requires
        fits(tensor_view(*x).dims),
        float_type(tensor_view(*x).dtype),
    ensures
        r is Ok ==> tensor_view(r->Ok_0) == reduced(Op::MeanKeepdim(dim), tensor_view(*x), dim),
        reduce_sure(tensor_view(*x), dim) ==> r is Ok,
{
    x.mean_keepdim(dim)
}

/// `Tensor::sum`: the sums along a dim, which is left out.
/// On the cpu it does not fail in single precision where there is such a dim.
#[verifier::external_body]
pub(crate) fn sum(x: &Tensor, dim: usize) -> (r: Result<Tensor, candle_core::Error>)
    requires
        fits(tensor_view(*x).dims),
        float_type(tensor_view(*x).dtype),
    ensures
        r is Ok ==> tensor_view(r->Ok_0) == summed(tensor_view(*x), dim),
        reduce_sure(tensor_view(*x), dim) ==> r is Ok,
{
    x.sum(dim)
}

/// `candle_nn::rotary_emb::rope`: the two halves of the last dim rotated
/// against each other by the angles whose cosines and sines are given. On the cpu
/// it does not fail in single precision for heads and tables that are stored row
/// by row, with an angle for each pair of elements and each position.
#[verifier::external_body]
pub(crate) fn rope(
    x: &Tensor,
    cos: &Tensor,
    sin: &Tensor,
) -> (r: Result<Tensor, candle_core::Error>)
    requires
        fits(tensor_view(*x).dims),
        tensor_view(*x).dims.len() == 4,
        tensor_view(*x).dims[2] == 1 || (tensor_view(*x).dims[2] != 0 && tensor_view(*x).dims[3] != 0),
        tensor_view(*cos).dims.len() == 2,
        tensor_view(*sin).dims.len() == 2,
        tensor_view(*cos).dims[1] * 2 <= usize::MAX,
        tensor_view(*sin).dims[1] * 2 <= usize::MAX,
        fits(tensor_view(*cos).dims),
        fits(tensor_view(*sin).dims),
    ensures
        r is Ok ==> tensor_view(r->Ok_0) == rotated(tensor_view(*x), tensor_view(*cos), tensor_view(*sin)),
        rope_sure(tensor_view(*x), tensor_view(*cos), tensor_view(*sin)) ==> r is Ok,
{
    candle_nn::rotary_emb::rope(x, cos, sin)
}

/// `candle_nn::ops::rms_norm`: the elements over the root of their mean square
/// along the last dim, `eps` added below the root, times the weights. On the cpu
/// it does not fail in single precision for rows stored one behind the other and
/// as many weights as a row has elements.
#[verifier::external_body]
pub(crate) fn rms_norm(
    x: &Tensor,
    weight: &Tensor,
    eps: &Scalar,
) -> (r: Result<Tensor, candle_core::Error>)
    requires
        fits(tensor_view(*x).dims),
        tensor_view(*x).dims.len() > 0,
        tensor_view(*x).dims.last() != 0,
        fits(tensor_view(*weight).dims),
    ensures
        r is Ok ==> tensor_view(r->Ok_0) == paired(Op::RmsNorm(*eps), tensor_view(*x), tensor_view(*weight)),
        pair_sure(Op::RmsNorm(*eps), tensor_view(*x), tensor_view(*weight)) ==> r is Ok,
{
    candle_nn::ops::rms_norm(x, weight, WithDType::from_f64(eps.to_f64()))
}

/// `Tensor::index_select`: the slices of a dim at the given indexes. On the
/// cpu it does not fail in single precision for a tensor stored row by row, at
/// indexes below its number of slices.
#[verifier::external_body]
pub(crate) fn index_select(
    x: &Tensor,
    indexes: &Tensor,
    dim: usize,
) -> (r: Result<Tensor, candle_core::Error>)
    requires
        tensor_view(*indexes).dims.len() == 1,
        dim < tensor_view(*x).dims.len(),
        fits(tensor_view(*x).dims),
        fits(selected(tensor_view(*x), tensor_view(*indexes), dim).dims),
    ensures
        r is Ok ==> tensor_view(r->Ok_0) == selected(tensor_view(*x), tensor_view(*indexes), dim),
        select_sure(tensor_view(*x), tensor_view(*indexes), dim) && tensor_below(
            *indexes,
            tensor_view(*x).dims[dim as int] as int,
        ) ==> r is Ok,
{
    x.index_select(indexes, dim)
}

/// `Tensor::gather`: the elements at the given indexes along a dim. On the
/// cpu it does not fail in single precision for a tensor stored row by row, at
/// indexes below its number of slices.
#[verifier::external_body]
pub(crate) fn gather(
    x: &Tensor,
    indexes: &Tensor,
    dim: usize,
) -> (r: Result<Tensor, candle_core::Error>)
    requires
        fits(tensor_view(*x).dims),
        fits(tensor_view(*indexes).dims),
    ensures
        r is Ok ==> tensor_view(r->Ok_0) == gathered(tensor_view(*x), tensor_view(*indexes), dim),
        gather_sure(tensor_view(*x), tensor_view(*indexes), dim) && tensor_below(
            *indexes,
            tensor_view(*x).dims[dim as int] as int,
        ) ==> r is Ok,
{
    x.gather(indexes, dim)
}

/// `Tensor::eq` of a tensor with itself: 1 for each element that equals itself,
/// 0 for each that does not. With only ones the elements have an order, and only
/// then. On the cpu it does not fail in single precision.
#[verifier::external_body]
pub(crate) fn equal_to_itself(x: &Tensor) -> (r: Result<Vec<u8>, candle_core::Error>)
    requires
        fits(tensor_view(*x).dims),
    ensures
        r is Ok ==> (forall|i: int| 0 <= i < r->Ok_0@.len() ==> r->Ok_0@[i] == 1) == tensor_ordered(*x),
        single_on_cpu(tensor_view(*x)) ==> r is Ok,
{
    x.eq(x)?.flatten_all()?.to_vec1()
}

/// `Tensor::arg_sort_last_dim`: the indexes of the elements along the last dim
/// in ascending or descending order. Equal elements may come in any order. On
/// the cpu it does not fail in single precision for rows stored one behind the
/// other, and the indexes are below the number of elements.
#[verifier::external_body]
pub(crate) fn arg_sort_last_dim(x: &Tensor, asc: bool) -> (r: Result<Tensor, candle_core::Error>)
    requires
        fits(tensor_view(*x).dims),
        tensor_view(*x).dims.len() > 0,
        tensor_view(*x).dims.last() != 0,
        tensor_view(*x).place != Place::Cpu || tensor_view(*x).dtype == DType::U32 || tensor_ordered(*x),
    ensures
        r is Ok ==> tensor_view(r->Ok_0) == ordered_indexes(tensor_view(*x), asc),
        r is Ok && tensor_view(*x).place == Place::Cpu ==> tensor_below(
            r->Ok_0,
            tensor_view(*x).dims.last() as int,
        ),
        single_on_cpu(tensor_view(*x)) && in_rows(tensor_view(*x)) ==> r is Ok,
{
    x.arg_sort_last_dim(asc)
}

/// `Tensor::sort_last_dim`: the elements along the last dim in ascending or
/// descending order, and their indexes. Equal elements may come in any order.
#[verifier::external_body]
pub(crate) fn sort_last_dim(
    x: &Tensor,
    asc: bool,
) -> (r: Result<(Tensor, Tensor), candle_core::Error>)
    requires
        fits(tensor_view(*x).dims),
        tensor_view(*x).dims.len() > 0,
        tensor_view(*x).dims.last() != 0,
        tensor_view(*x).place != Place::Cpu || tensor_view(*x).dtype == DType::U32 || tensor_ordered(*x),
    ensures
        r is Ok ==> tensor_view(r->Ok_0.0) == sorted(tensor_view(*x), asc),
        r is Ok ==> tensor_view(r->Ok_0.1) == ordered_indexes(tensor_view(*x), asc),
{
    x.sort_last_dim(asc)
}

/// `candle_nn::moe::moe_gemm_gguf`: the products of rows with the matrices of
/// the experts picked for them. Only cuda devices have it.
#[verifier::external_body]
pub(crate) fn moe_gemm_gguf(
    x: &Tensor,
    experts: &QTensor,
    weights: &Option<Tensor>,
    token_ids: &Tensor,
    expert_ids: &Tensor,
    topk: usize,
    is_prefill: bool,
    dtype: DType,
) -> (r: Result<Tensor, candle_core::Error>)
    requires
        tensor_view(*x).dims.len() == 2,
        qtensor_dims(*experts).len() == 3,
        tensor_view(*x).dims[1] == qtensor_dims(*experts)[2],
        tensor_view(*x).dims[1] % 8 == 0,
        tensor_view(*x).dims[0] * topk <= usize::MAX,
        tensor_view(*x).dims[0] * topk * qtensor_dims(*experts)[1] <= usize::MAX,
        tensor_view(*x).dims[0] * qtensor_dims(*experts)[1] <= usize::MAX,
    ensures
        r is Ok ==> tensor_view(r->Ok_0) == expert_products(
            tensor_view(*x),
            *experts,
            qtensor_dims(*experts)[1],
            option_view(*weights),
            tensor_view(*token_ids),
            tensor_view(*expert_ids),
            topk,
            is_prefill,
            dtype,
        ),
{
    candle_nn::moe::moe_gemm_gguf(
        x,
        experts,
        weights,
        token_ids,
        expert_ids,
        topk,
        is_prefill,
        dtype,
    )
}

/// `Tensor::zeros_like`: zeros in the dims and element type of a tensor.
/// On the cpu it does not fail in single precision.
#[verifier::external_body]
pub(crate) fn zeros_like(x: &Tensor) -> (r: Result<Tensor, candle_core::Error>)
    requires
        fits(tensor_view(*x).dims),
        float_type(tensor_view(*x).dtype),
    ensures
        r is Ok ==> tensor_view(r->Ok_0) == zeros(tensor_view(*x).dims, tensor_view(*x).dtype, tensor_view(*x).place),
        single_on_cpu(tensor_view(*x)) ==> r is Ok,
{
    x.zeros_like()
}

/// `Tensor::from_slice`: bytes, row by row. On the cpu it does not fail for as
/// many bytes as the dims have elements.
#[verifier::external_body]
pub(crate) fn from_bytes(
    data: &Vec<u8>,
    dims: Vec<usize>,
    device: &Device,
) -> (r: Result<Tensor, candle_core::Error>)
    requires
        fits(dims@),
    ensures
        r is Ok ==> tensor_view(r->Ok_0) == bytes(data@, dims@, device_place(*device)),
        device_place(*device) == Place::Cpu && data@.len() == elem_count(dims@) ==> r is Ok,
{
    Tensor::from_slice(data, dims, device)
}

/// `Tensor::arange`: the numbers from 0 up to, and without, `n`. It does not fail
/// on the cpu.
#[verifier::external_body]
pub(crate) fn count(n: u32, device: &Device) -> (r: Result<Tensor, candle_core::Error>)
    ensures
        r is Ok ==> tensor_view(r->Ok_0) == counted(n, device_place(*device)),
        device_place(*device) == Place::Cpu ==> r is Ok,
{
    Tensor::arange(0u32, n, device)
}

/// `candle_nn::Embedding`: the rows of a table at the given indexes. On the cpu
/// it does not fail for a table in single precision that is stored row by row, at
/// indexes below its number of rows.
#[verifier::external_body]
pub(crate) fn embedding(
    table: &Tensor,
    hidden: usize,
    indexes: &Tensor,
) -> (r: Result<Tensor, candle_core::Error>)
    requires
        fits(tensor_view(*table).dims),
        fits(tensor_view(*indexes).dims),
        tensor_view(*table).dims.len() > 0,
        fits(tensor_view(*table).dims.update(0, elem_count(tensor_view(*indexes).dims) as usize)),
        fits(tensor_view(*indexes).dims.push(hidden)),
    ensures
        r is Ok ==> tensor_view(r->Ok_0) == embedded(tensor_view(*table), tensor_view(*indexes), hidden),
        embed_sure(tensor_view(*table), tensor_view(*indexes), hidden) && tensor_below(
            *indexes,
            tensor_view(*table).dims[0] as int,
        ) ==> r is Ok,
{
    candle_nn::Embedding::new(table.clone(), hidden).forward(indexes)
}

/// `candle_nn::Linear`, without a bias: the product of each row with a matrix.
/// On the cpu it does not fail in single precision for rows as long as those of
/// the matrix, both stored row by row.
#[verifier::external_body]
pub(crate) fn linear_rows(x: &Tensor, weight: &Tensor) -> (r: Result<Tensor, candle_core::Error>)
    requires
        tensor_view(*x).dims.len() == 2,
        tensor_view(*weight).dims.len() == 2,
        fits(tensor_view(*x).dims),
        fits(tensor_view(*weight).dims),
        fits(linear(tensor_view(*x), tensor_view(*weight)).dims),
    ensures
        r is Ok ==> tensor_view(r->Ok_0) == linear(tensor_view(*x), tensor_view(*weight)),
        linear_sure(tensor_view(*x), tensor_view(*weight)) ==> r is Ok,
{
    candle_nn::Linear::new(weight.clone(), None).forward(x)
}

/// `QTensor::shape`: the dims.
#[verifier::external_body]
pub(crate) fn qdims(q: &QTensor) -> (r: Vec<usize>)
    ensures
        r@ == qtensor_dims(*q),
{
    q.shape().dims().to_vec()
}

/// `QTensor::dtype`: how the values are held.
#[verifier::external_body]
pub(crate) fn qkind(q: &QTensor) -> (r: GgmlDType)
    ensures
        r == qtensor_kind(*q),
{
    q.dtype()
}

/// `QTensor::device`: the kind of device.
#[verifier::external_body]
pub(crate) fn qplace(q: &QTensor) -> (r: Place)
    ensures
        r == qtensor_place(*q),
{
    match q.device() {
        Device::Cpu => Place::Cpu,
        Device::Cuda(_) => Place::Cuda,
        Device::Metal(_) => Place::Metal,
    }
}

/// `QTensor::dequantize`: the values in single precision, on a device. It does
/// not fail on the cpu.
#[verifier::external_body]
pub(crate) fn dequantize(q: &QTensor, device: &Device) -> (r: Result<Tensor, candle_core::Error>)
    requires
        fits(qtensor_dims(*q)),
    ensures
        r is Ok ==> tensor_view(r->Ok_0) == dequantized(*q, qtensor_dims(*q), device_place(*device)),
        qtensor_place(*q) == Place::Cpu && device_place(*device) == Place::Cpu ==> r is Ok,
{
    q.dequantize(device)
}

/// `QTensor::device` and `QTensor::dequantize`: the values in single precision,
/// where the quantised tensor lives. They do not fail on the cpu.
#[verifier::external_body]
pub(crate) fn dequantize_in_place(q: &QTensor) -> (r: Result<Tensor, candle_core::Error>)
    requires
        fits(qtensor_dims(*q)),
    ensures
        r is Ok ==> tensor_view(r->Ok_0) == dequantized(*q, qtensor_dims(*q), qtensor_place(*q)),
        qtensor_place(*q) == Place::Cpu ==> r is Ok,
{
    q.dequantize(&q.device())
}

/// `QMatMul::from_arc`: the matrix of a quantised tensor. Which precision it
/// keeps depends on the environment; only the tensor is told. It does not fail
/// on the cpu.
#[verifier::external_body]
pub(crate) fn qmatmul_from(q: Arc<QTensor>) -> (r: Result<QMatMul, candle_core::Error>)
    requires
        fits(qtensor_dims(*q)),
    ensures
        r is Ok ==> qmatmul_weight(r->Ok_0) == *q,
        qtensor_place(*q) == Place::Cpu ==> r is Ok,
{
    QMatMul::from_arc(q)
}

/// `QMatMul::forward`: the product of each row with the quantised matrix. On the
/// cpu it does not fail for rows in single precision that are stored one behind
/// the other and as long as those of the matrix.
#[verifier::external_body]
pub(crate) fn qmatmul(x: &Tensor, w: &QMatMul) -> (r: Result<Tensor, candle_core::Error>)
    requires
        multiplies(qmatmul_weight(*w), tensor_view(*x)),
    ensures
        r is Ok ==> tensor_view(r->Ok_0) == projected(tensor_view(*x), qmatmul_weight(*w), qtensor_dims(qmatmul_weight(*w))[0]),
        project_sure(tensor_view(*x), qtensor_dims(qmatmul_weight(*w))) ==> r is Ok,
{
    w.forward(x)
}

} // verus!
