//! The layers that the models share.

use crate::attention::turns;
use crate::dtype::float_type;
use crate::error::ModelError;
use crate::gguf::Gguf;
use crate::shape::{
    fits, lemma_matrix_count, lemma_row_count, lemma_row_major, lemma_stride, row_major,
};
use crate::tensor::ops;
use crate::tensor::raw;
use crate::tensor::raw::{
    device_place, qmatmul_weight, qtensor_dims, qtensor_kind, qtensor_place, tensor_view,
};
use crate::tensor::run::{
    broadcast, converted, counted, dequantized, ends, given, mapped, multiplied, narrowed, of_rank,
    only_if, paired, projected, reduced, refused, repeated, reshaped, run_of, stored, Run,
};
use crate::tensor::sure::{
    lemma_count4, lemma_fresh, lemma_nonempty_count, lemma_slices_of_copies, lemma_tidy_reshaped,
    tidy, tidy_view,
};
use crate::tensor::view::{
    aligned_dim, broadcast_dims, in_rows, matmul_sure, single_on_cpu, Op, Place, TensorView,
};
use candle_core::quantized::{GgmlDType, QMatMul, QTensor};
use candle_core::scalar::Scalar;
use candle_core::{DType, Device, Tensor};
use std::sync::Arc;
use vstd::prelude::*;
use vstd::string::StringExecFns;

verus! {

/// The product with a quantised matrix.
pub open spec fn through(x: Run, weight: QTensor) -> Run {
    projected(x, weight)
}

/// A quantised tensor that is sure to be loaded: its products of dims are
/// `usize` values, and it lives on the cpu.
pub open spec fn loads(q: QTensor) -> bool {
    fits(qtensor_dims(q)) && qtensor_place(q) == Place::Cpu
}

/// The error of loading a quantised tensor.
pub open spec fn load_refused(e: ModelError, q: QTensor) -> bool {
    refused(e, fits(qtensor_dims(q))) && !loads(q)
}

/// A quantised matrix to multiply with.
pub struct QLinear {
    inner: QMatMul,
    dims: Vec<usize>,
    kind: GgmlDType,
    place: Place,
}

impl QLinear {
    #[verifier::type_invariant]
    spec fn consistent(self) -> bool {
        &&& self.dims@ == qtensor_dims(qmatmul_weight(self.inner))
        &&& self.kind == qtensor_kind(qmatmul_weight(self.inner))
        &&& self.place == qtensor_place(qmatmul_weight(self.inner))
    }

    /// The quantised tensor of the matrix.
    pub closed spec fn weight(&self) -> QTensor {
        qmatmul_weight(self.inner)
    }

    /// The matrix of a quantised tensor.
    pub fn new(q: Arc<QTensor>) -> (r: Result<QLinear, ModelError>)
        ensures
            match r {
                Ok(l) => l.weight() == *q,
                Err(e) => load_refused(e, *q),
            },
    {
        let dims = raw::qdims(&q);
        let kind = raw::qkind(&q);
        let place = raw::qplace(&q);
        match ops::qmatmul_from(q) {
            Ok(inner) => Ok(QLinear { inner, dims, kind, place }),
            Err(e) => Err(e),
        }
    }

    /// The product of each row with the matrix.
    pub fn forward(&self, x: &Tensor) -> (r: Result<Tensor, ModelError>)
        ensures
            ends(r, through(run_of(*x), self.weight())),
    {
        proof {
            use_type_invariant(self);
        }
        ops::qmatmul(x, &self.inner, &self.dims, self.kind, self.place)
    }
}

/// What is known of a normalisation.
pub struct NormView {
    pub weight: TensorView,
    pub eps: Scalar,
}

/// The elements over the root of their mean square along the last dim, times
/// the weights.
pub open spec fn normed(x: Run, norm: NormView) -> Run {
    paired(Op::RmsNorm(norm.eps), x, given(norm.weight))
}

/// A normalisation by the root of the mean square, with weights.
pub struct RmsNorm {
    weight: Tensor,
    eps: Scalar,
}

impl RmsNorm {
    pub closed spec fn view(&self) -> NormView {
        NormView { weight: tensor_view(self.weight), eps: self.eps }
    }

    /// The normalisation with the weights of a quantised tensor.
    pub fn new(q: &QTensor, eps: Scalar) -> (r: Result<RmsNorm, ModelError>)
        ensures
            match r {
                Ok(n) => n@ == norm_of(*q, eps),
                Err(e) => load_refused(e, *q),
            },
    {
        match ops::dequantize_in_place(q) {
            Ok(weight) => Ok(RmsNorm { weight, eps }),
            Err(e) => Err(e),
        }
    }

    /// The normalised rows.
    pub fn forward(&self, x: &Tensor) -> (r: Result<Tensor, ModelError>)
        ensures
            ends(r, normed(run_of(*x), self@)),
    {
        ops::rms_norm(x, &self.weight, &self.eps)
    }
}

/// What is known of the normalisation with the weights of a quantised tensor.
pub open spec fn norm_of(q: QTensor, eps: Scalar) -> NormView {
    NormView { weight: dequantized(q, qtensor_place(q)).view, eps }
}

/// The error for a tensor that is not there.
pub open spec fn is_missing(e: ModelError, name: Seq<char>) -> bool {
    e matches ModelError::MissingTensor(n) && n@ == name
}

/// A name under which there is no tensor.
pub open spec fn absent(gg: &Gguf, name: Seq<char>) -> Option<Seq<char>> {
    if gg.named(name) is None {
        Some(name)
    } else {
        None
    }
}

/// The first of two missing names.
pub open spec fn earlier(a: Option<Seq<char>>, b: Option<Seq<char>>) -> Option<Seq<char>> {
    match a {
        Some(n) => Some(n),
        None => b,
    }
}

/// The products of dims of a tensor that is there are `usize` values.
pub open spec fn small(gg: &Gguf, name: Seq<char>) -> bool {
    gg.named(name) is Some ==> fits(qtensor_dims(tensor_at(gg, name)))
}

/// An error of loading: that of a step, or the first missing tensor.
pub open spec fn load_error(e: ModelError, sound: bool, missing: Option<Seq<char>>) -> bool {
    refused(e, sound) || (missing is Some && is_missing(e, missing->0))
}

/// The quantised tensor under a name that is there.
pub open spec fn tensor_at(gg: &Gguf, name: Seq<char>) -> QTensor {
    *gg.named(name)->0
}

/// There is a tensor under a name, and it is sure to be loaded.
pub open spec fn there(gg: &Gguf, name: Seq<char>) -> bool {
    gg.named(name) is Some && loads(tensor_at(gg, name))
}

/// The tensor under a name; none where there is none, or where it could not be
/// loaded.
pub open spec fn own_or_none(q: Option<QTensor>, gg: &Gguf, name: Seq<char>) -> bool {
    match gg.named(name) {
        None => q is None,
        Some(own) => q == Some(*own) || (!loads(*own) && q is None),
    }
}

/// The matrix under a name.
pub fn load_linear(gg: &Gguf, name: &String) -> (r: Result<QLinear, ModelError>)
    ensures
        match gg.named(name@) {
            None => r is Err && is_missing(r->Err_0, name@),
            Some(q) => match r {
                Ok(l) => l.weight() == *q,
                Err(e) => load_refused(e, *q),
            },
        },
{
    match gg.tensor(name) {
        Ok(q) => QLinear::new(q),
        Err(e) => Err(e),
    }
}

/// The normalisation under a name.
pub fn load_norm(gg: &Gguf, name: &String, eps: Scalar) -> (r: Result<RmsNorm, ModelError>)
    ensures
        match gg.named(name@) {
            None => r is Err && is_missing(r->Err_0, name@),
            Some(q) => match r {
                Ok(n) => n@ == norm_of(*q, eps),
                Err(e) => load_refused(e, *q),
            },
        },
{
    match gg.tensor(name) {
        Ok(q) => RmsNorm::new(&q, eps),
        Err(e) => Err(e),
    }
}

/// The tensor of the output: its own, and that of the embeddings where it has
/// none of its own, or its own could not be loaded.
pub open spec fn is_output_of(q: QTensor, gg: &Gguf) -> bool {
    match gg.named("output.weight"@) {
        None => q == tensor_at(gg, "token_embd.weight"@),
        Some(own) => q == *own || (!loads(*own) && q == tensor_at(gg, "token_embd.weight"@)),
    }
}

/// The output projection: its own, or else that of the embeddings.
pub fn own_or_tied(own: Result<QLinear, ModelError>, gg: &Gguf) -> (r: Result<QLinear, ModelError>)
    ensures
        match own {
            Ok(w) => r == Ok::<QLinear, ModelError>(w),
            Err(_) => match gg.named("token_embd.weight"@) {
                None => r is Err && is_missing(r->Err_0, "token_embd.weight"@),
                Some(q) => match r {
                    Ok(w) => w.weight() == *q,
                    Err(e) => load_refused(e, *q),
                },
            },
        },
{
    match own {
        Ok(w) => Ok(w),
        Err(_) => load_linear(gg, &String::from_str("token_embd.weight")),
    }
}

/// The values of the tensor under a name, in an element type, on a device.
pub fn load_values(gg: &Gguf, name: &String, device: &Device, dtype: DType) -> (r: Result<
    Tensor,
    ModelError,
>)
    ensures
        match gg.named(name@) {
            None => r is Err && is_missing(r->Err_0, name@),
            Some(q) => match r {
                Ok(t) => tensor_view(t) == values_of(*q, device_place(*device), dtype),
                Err(e) => {
                    &&& refused(e, fits(qtensor_dims(*q)))
                    &&& !(loads(*q) && device_place(*device) == Place::Cpu && float_type(dtype))
                },
            },
        },
{
    match gg.tensor(name) {
        Ok(q) => match ops::dequantize(&q, device) {
            Ok(t) => ops::to_dtype(&t, dtype),
            Err(e) => Err(e),
        },
        Err(e) => Err(e),
    }
}

/// The values of a quantised tensor in an element type.
pub open spec fn values_of(q: QTensor, place: Place, dtype: DType) -> TensorView {
    converted(dequantized(q, place), dtype).view
}

/// Each head of keys or values once for every head of queries that shares it:
/// `n` times.
pub open spec fn repeat_heads(x: Run, n: usize) -> Run {
    if n == 1 {
        x
    } else {
        reshaped(
            only_if(repeated(of_rank(x, 4), 2, n as nat), x.dims()[1] * n <= usize::MAX),
            seq![x.dims()[0], (x.dims()[1] * n) as usize, x.dims()[2], x.dims()[3]],
        )
    }
}

/// Each head of keys or values `n` times.
pub fn repeat_kv(x: Tensor, n: usize) -> (r: Result<Tensor, ModelError>)
    ensures
        ends(r, repeat_heads(run_of(x), n)),
        n == 1 ==> r is Ok,
{
    if n == 1 {
        return Ok(x);
    }
    let (b_sz, n_kv_head, seq_len, head_dim) = ops::dims4(&x)?;
    let heads = match n_kv_head.checked_mul(n) {
        Some(h) => h,
        None => return Err(ModelError::TooLarge),
    };
    let all = ops::repeat(&x, 2, n)?;
    ops::reshape4(&all, b_sz, heads, seq_len, head_dim)
}

/// The elements over the root of their mean square along the last dim, in
/// single precision and back.
pub open spec fn unscaled_norm(x: Run, eps: Scalar) -> Run {
    let f = only_if(converted(x, DType::F32), x.dims().len() > 0);
    let last = (f.dims().len() - 1) as usize;
    let mean = reduced(Op::MeanKeepdim(last), mapped(Op::Sqr, f), last);
    let rms = mapped(Op::Sqrt, mapped(Op::AddScalar(eps), mean));
    converted(broadcast(Op::BroadcastDiv, f, rms), x.dtype())
}

/// Root mean square normalisation over the last dim, without weights.
pub fn rms_no_scale(x: &Tensor, eps: &Scalar) -> (r: Result<Tensor, ModelError>)
    ensures
        ends(r, unscaled_norm(run_of(*x), *eps)),
        single_on_cpu(tensor_view(*x)) && unscaled_norm(run_of(*x), *eps).sound ==> r is Ok,
{
    proof {
        if single_on_cpu(tensor_view(*x)) && unscaled_norm(run_of(*x), *eps).sound {
            unscaled_norms_are_sure(run_of(*x), *eps);
        }
    }
    let dtype = ops::dtype(x);
    let x = ops::to_dtype(x, DType::F32)?;
    let rank = raw::dims(&x).len();
    if rank == 0 {
        return Err(ModelError::EmptyDim);
    }
    let squares = ops::sqr(&x)?;
    let mean = ops::mean_keepdim(&squares, rank - 1)?;
    let rms = ops::sqrt(&ops::add_scalar(&mean, eps)?)?;
    ops::to_dtype(&ops::broadcast_div(&x, &rms)?, dtype)
}

/// The exponents of the inverse frequencies of a standard rotary embedding,
/// over `head_dim`: every second number below it.
pub fn standard_exponents(head_dim: usize) -> (r: Vec<Option<usize>>)
    ensures
        r@.len() == (head_dim + 1) / 2,
        forall|i: int| 0 <= i < r@.len() ==> #[trigger] r@[i] == Some((2 * i) as usize),
{
    let mut out: Vec<Option<usize>> = Vec::new();
    let mut i: usize = 0;
    while i < head_dim / 2 + head_dim % 2
        invariant
            i <= head_dim / 2 + head_dim % 2,
            out@.len() == i,
            forall|j: int| 0 <= j < i ==> #[trigger] out@[j] == Some((2 * j) as usize),
        decreases head_dim / 2 + head_dim % 2 - i,
    {
        out.push(Some(2 * i));
        i = i + 1;
    }
    out
}

/// The angles by which positions are rotated: every position from 0 up to
/// `positions` times every inverse frequency.
pub open spec fn angles(inv_freq: TensorView, positions: u32, place: Place) -> Run {
    let t = reshaped(
        converted(counted(positions, place), DType::F32),
        seq![positions as usize, 1],
    );
    multiplied(t, stored(given(inv_freq)))
}

/// What is known of a rotary embedding.
#[verifier::ext_equal]
pub struct RotaryView {
    pub cos: TensorView,
    pub sin: TensorView,
}

/// The cosines of the angles.
pub open spec fn cosines(inv_freq: TensorView, dtype: DType, positions: u32, place: Place) -> Run {
    converted(mapped(Op::Cos, angles(inv_freq, positions, place)), dtype)
}

/// The sines of the angles.
pub open spec fn sines(inv_freq: TensorView, dtype: DType, positions: u32, place: Place) -> Run {
    converted(mapped(Op::Sin, angles(inv_freq, positions, place)), dtype)
}

/// The rotary embedding of inverse frequencies.
pub open spec fn rotary_of(
    inv_freq: TensorView,
    dtype: DType,
    positions: u32,
    place: Place,
) -> RotaryView {
    RotaryView {
        cos: cosines(inv_freq, dtype, positions, place).view,
        sin: sines(inv_freq, dtype, positions, place).view,
    }
}

/// Each step towards the rotary embedding is one that the operations take.
pub open spec fn rotary_sound(
    inv_freq: TensorView,
    dtype: DType,
    positions: u32,
    place: Place,
) -> bool {
    cosines(inv_freq, dtype, positions, place).sound && sines(
        inv_freq,
        dtype,
        positions,
        place,
    ).sound
}

/// The rotary embedding is sure to be made: from one row of inverse frequencies
/// in single precision, on the cpu, in a floating point type.
pub open spec fn rotary_loads(
    inv_freq: TensorView,
    dtype: DType,
    positions: u32,
    place: Place,
) -> bool {
    &&& rotary_sound(inv_freq, dtype, positions, place)
    &&& place == Place::Cpu
    &&& single_on_cpu(inv_freq)
    &&& inv_freq.dims.len() == 2
    &&& inv_freq.dims[0] == 1
    &&& inv_freq.dims[1] == 0 ==> inv_freq.strides == row_major(inv_freq.dims)
    &&& float_type(dtype)
}

/// Positions, one in each row, can be multiplied with one row of inverse
/// frequencies.
proof fn lemma_angles_sure(t: TensorView, inv_freq: TensorView)
    requires
        t.dims.len() == 2,
        t.dims[1] == 1,
        t.strides == row_major(t.dims),
        in_rows(inv_freq) || inv_freq.strides == row_major(inv_freq.dims),
    ensures
        single_on_cpu(t) && single_on_cpu(inv_freq) && inv_freq.dims.len() == 2
            && inv_freq.dims[0] == 1 && (inv_freq.dims[1] == 0 ==> inv_freq.strides == row_major(
            inv_freq.dims,
        )) && fits(inv_freq.dims) ==> matmul_sure(t, inv_freq),
{
    lemma_stride(t.dims, 0);
    lemma_stride(t.dims, 1);
    if inv_freq.dims.len() == 2 && fits(inv_freq.dims) {
        lemma_stride(inv_freq.dims, 1);
        lemma_row_major(inv_freq.dims);
        assert(inv_freq.dims[1] > 1 ==> inv_freq.strides[1] == 1);
        assert(t.dims.take(0) =~= inv_freq.dims.take(0));
    }
}

/// The cosines and sines of the angles by which positions are rotated.
pub struct Rotary {
    cos: Tensor,
    sin: Tensor,
}

impl Rotary {
    pub closed spec fn view(&self) -> RotaryView {
        RotaryView { cos: tensor_view(self.cos), sin: tensor_view(self.sin) }
    }

    /// The rotary embedding of inverse frequencies, which stand in one row.
    pub fn from_inv_freq(
        inv_freq: &Tensor,
        dtype: DType,
        max_seq_len: u32,
        device: &Device,
    ) -> (r: Result<Rotary, ModelError>)
        ensures
            match r {
                Ok(rotary) => rotary@ == rotary_of(
                    tensor_view(*inv_freq),
                    dtype,
                    max_seq_len,
                    device_place(*device),
                ),
                Err(e) => {
                    &&& refused(
                        e,
                        rotary_sound(
                            tensor_view(*inv_freq),
                            dtype,
                            max_seq_len,
                            device_place(*device),
                        ),
                    )
                    &&& !rotary_loads(
                        tensor_view(*inv_freq),
                        dtype,
                        max_seq_len,
                        device_place(*device),
                    )
                },
            },
    {
        proof {
            lemma_row_count(max_seq_len as usize);
            lemma_matrix_count(max_seq_len as usize, 1);
        }
        let inv_freq = &ops::contiguous(inv_freq)?;
        let t = ops::count(max_seq_len, device)?;
        let t = ops::to_dtype(&t, DType::F32)?;
        let t = ops::reshape2(&t, max_seq_len as usize, 1)?;
        proof {
            lemma_angles_sure(tensor_view(t), tensor_view(*inv_freq));
        }
        let freqs = ops::matmul(&t, inv_freq)?;
        let sin = ops::to_dtype(&ops::sin(&freqs)?, dtype)?;
        let cos = ops::to_dtype(&ops::cos(&freqs)?, dtype)?;
        Ok(Rotary { cos, sin })
    }

    /// The cosines and sines of `len` positions from `offset` on.
    pub fn slice(&self, offset: usize, len: usize) -> (r: Result<(Tensor, Tensor), ModelError>)
        ensures
            match r {
                Ok((cos, sin)) => {
                    &&& ends(Ok(cos), narrowed(given(self@.cos), 0, offset, len))
                    &&& ends(Ok(sin), narrowed(given(self@.sin), 0, offset, len))
                },
                Err(e) => {
                    &&& e is Candle
                    &&& !(narrowed(given(self@.cos), 0, offset, len).sure && narrowed(
                        given(self@.sin),
                        0,
                        offset,
                        len,
                    ).sure)
                },
            },
    {
        let cos = ops::narrow(&self.cos, 0, offset, len)?;
        let sin = ops::narrow(&self.sin, 0, offset, len)?;
        Ok((cos, sin))
    }
}

/// A quantised matrix on the cpu of `rows` rows for tensors of `columns` columns.
pub open spec fn maps(weight: QTensor, columns: usize, rows: usize) -> bool {
    qtensor_dims(weight) == seq![rows, columns] && rows > 0
}

/// A projection of a tensor that is sure to come out is sure to succeed, where
/// the dims agree.
pub proof fn projections_are_sure(x: Run, weight: QTensor, rows: usize)
    requires
        tidy(x),
        2 <= x.dims().len() <= 4,
        maps(weight, x.dims().last(), rows),
        through(x, weight).sound,
    ensures
        tidy(through(x, weight)),
        through(x, weight).dims() == x.dims().update(x.dims().len() - 1, rows),
{
    lemma_fresh(through(x, weight));
}

/// A normalisation for rows of `n` elements, on the cpu.
pub open spec fn norms(norm: NormView, n: usize) -> bool {
    tidy_view(norm.weight) && norm.weight.dims == seq![n]
}

/// A normalisation of a tensor that is sure to come out is sure to succeed, where
/// there is a weight for each element of a row.
pub proof fn norms_are_sure(x: Run, norm: NormView)
    requires
        tidy(x),
        x.dims().len() > 0,
        norms(norm, x.dims().last()),
    ensures
        tidy(normed(x, norm)),
        normed(x, norm).dims() == x.dims(),
{
    lemma_fresh(normed(x, norm));
}

/// A normalisation without weights of a tensor in single precision on the cpu is
/// sure to succeed.
pub proof fn unscaled_norms_are_sure(x: Run, eps: Scalar)
    requires
        x.sure,
        single_on_cpu(x.view),
        unscaled_norm(x, eps).sound,
    ensures
        unscaled_norm(x, eps).sure,
        unscaled_norm(x, eps).dims() == x.dims(),
        tidy(x) ==> tidy(unscaled_norm(x, eps)),
{
    let f = converted(x, DType::F32);
    let last = (x.dims().len() - 1) as usize;
    let mean = reduced(Op::MeanKeepdim(last), mapped(Op::Sqr, f), last);
    let rms = mapped(Op::Sqrt, mapped(Op::AddScalar(eps), mean));
    assert forall|i: int| 0 <= i < x.dims().len() implies {
        ||| #[trigger] aligned_dim(f.dims(), x.dims().len() as int, i) == aligned_dim(
            rms.dims(),
            x.dims().len() as int,
            i,
        )
        ||| aligned_dim(rms.dims(), x.dims().len() as int, i) == 1
    } by {
        if i < last {
            assert(rms.dims()[i] == f.dims()[i]);
        }
    }
    assert(broadcast_dims(f.dims(), rms.dims()) =~= x.dims());
    if tidy(x) {
        lemma_nonempty_count(x.dims());
        lemma_fresh(unscaled_norm(x, eps));
    }
}

/// Repeating heads that are sure to come out is sure to succeed.
pub proof fn repeated_heads_are_sure(x: Run, n: usize)
    requires
        tidy(x),
        x.dims().len() == 4,
        n > 0,
        repeat_heads(x, n).sound,
    ensures
        tidy(repeat_heads(x, n)),
        repeat_heads(x, n).dims() == x.dims().update(1, (x.dims()[1] * n) as usize),
{
    let b = x.dims()[0];
    let h = x.dims()[1];
    let l = x.dims()[2];
    let d = x.dims()[3];
    if n == 1 {
        assert(x.dims() =~= x.dims().update(1, (h * n) as usize));
    } else {
        let parts = Seq::new(n as nat, |i: int| x.view);
        let copies = repeated(x, 2, n as nat);
        let dims = seq![b, (h * n) as usize, l, d];
        lemma_slices_of_copies(x.view, 2, n as nat);
        assert(0 < h * n) by (nonlinear_arith)
            requires
                h > 0,
                n > 0,
        ;
        assert(n * l == l * n) by (nonlinear_arith);
        assert(copies.dims() =~= seq![b, h, (l * n) as usize, d]);
        lemma_count4(b, h, (l * n) as usize, d);
        lemma_count4(b, (h * n) as usize, l, d);
        assert(b * h * (l * n) * d == b * (h * n) * l * d) by (nonlinear_arith);
        lemma_tidy_reshaped(copies, dims);
        assert(dims =~= x.dims().update(1, (h * n) as usize));
    }
}

/// A normalisation that was read on the cpu takes rows of as many elements as it
/// has weights.
pub proof fn loaded_norms_take_rows(q: QTensor, eps: Scalar, n: usize)
    requires
        loads(q),
        qtensor_dims(q) == seq![n],
        n > 0,
    ensures
        norms(norm_of(q, eps), n),
{
    lemma_fresh(given(norm_of(q, eps).weight));
}

/// The rotary embedding of a row of inverse frequencies, made on the cpu in single
/// precision, has angles for each of its positions, two elements of a head for
/// each frequency.
pub proof fn loaded_angles_turn(inv_freq: TensorView, positions: u32)
    requires
        rotary_loads(inv_freq, DType::F32, positions, Place::Cpu),
        inv_freq.dims[1] > 0,
        2 * inv_freq.dims[1] <= usize::MAX,
        positions > 0,
    ensures
        turns(
            rotary_of(inv_freq, DType::F32, positions, Place::Cpu),
            positions as int,
            (2 * inv_freq.dims[1]) as usize,
        ),
{
    let product = angles(inv_freq, positions, Place::Cpu);
    let dims = seq![positions as usize, inv_freq.dims[1]];
    assert(product.dims() =~= dims);
    lemma_nonempty_count(dims);
    lemma_row_major(dims);
}

/// The tensor that is missing is the first of a list of names under which there is
/// none; none is missing where there is one under each.
pub open spec fn first_missing(
    gg: &Gguf,
    names: Seq<Seq<char>>,
    missing: Option<Seq<char>>,
) -> bool {
    match missing {
        None => forall|k: int|
            0 <= k < names.len() ==> gg.named(#[trigger] names[k]) is Some,
        Some(name) => exists|k: int|
            {
                &&& 0 <= k < names.len()
                &&& #[trigger] names[k] == name
                &&& gg.named(name) is None
                &&& forall|j: int| 0 <= j < k ==> gg.named(#[trigger] names[j]) is Some
            },
    }
}

/// The first of the tensors missing of two lists is the first one of the lists put one
/// behind the other.
pub proof fn lemma_first_missing(
    gg: &Gguf,
    a: Seq<Seq<char>>,
    b: Seq<Seq<char>>,
    x: Option<Seq<char>>,
    y: Option<Seq<char>>,
)
    requires
        first_missing(gg, a, x),
        first_missing(gg, b, y),
    ensures
        first_missing(gg, a + b, earlier(x, y)),
{
    let c = a + b;
    match x {
        Some(name) => {
            let k = choose|k: int|
                {
                    &&& 0 <= k < a.len()
                    &&& #[trigger] a[k] == name
                    &&& gg.named(name) is None
                    &&& forall|j: int| 0 <= j < k ==> gg.named(#[trigger] a[j]) is Some
                };
            assert(c[k] == name);
            assert forall|j: int| 0 <= j < k implies gg.named(#[trigger] c[j]) is Some by {
                assert(c[j] == a[j]);
            }
        },
        None => {
            assert forall|j: int| 0 <= j < a.len() implies gg.named(#[trigger] c[j]) is Some by {
                assert(c[j] == a[j]);
            }
            match y {
                Some(name) => {
                    let k = choose|k: int|
                        {
                            &&& 0 <= k < b.len()
                            &&& #[trigger] b[k] == name
                            &&& gg.named(name) is None
                            &&& forall|j: int| 0 <= j < k ==> gg.named(#[trigger] b[j]) is Some
                        };
                    assert(c[a.len() + k] == name);
                    assert forall|j: int| 0 <= j < a.len() + k implies gg.named(
                        #[trigger] c[j],
                    ) is Some by {
                        if j >= a.len() {
                            assert(c[j] == b[j - a.len()]);
                        }
                    }
                },
                None => {
                    assert forall|j: int| 0 <= j < c.len() implies gg.named(
                        #[trigger] c[j],
                    ) is Some by {
                        if j >= a.len() {
                            assert(c[j] == b[j - a.len()]);
                        }
                    }
                },
            }
        },
    }
}

/// The tensor missing under a single name.
pub proof fn lemma_missing_one(gg: &Gguf, name: Seq<char>)
    ensures
        first_missing(gg, seq![name], absent(gg, name)),
        first_missing(gg, Seq::empty(), None),
{
    assert(seq![name][0] == name);
}

} // verus!
