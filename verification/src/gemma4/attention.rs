//! Attention with keys and values kept from earlier calls.

use crate::attention::{
    add_mask, append_kept, appended, covers, heads, heads_are_sure, holds, kept_are_sure, kept_view,
    lemma_joined_dim, mask_view, masked_scores, masks_are_sure, rotate, rotations_are_sure,
    split_heads, turns, Kept,
};
use crate::error::ModelError;
use crate::gguf::Gguf;
use crate::nn::{
    absent, earlier, load_error, load_linear, load_norm, maps, norm_of, normed, norms,
    norms_are_sure, own_or_none, projections_are_sure, repeat_heads, repeat_kv,
    repeated_heads_are_sure, rms_no_scale, small, tensor_at, there, through, unscaled_norm,
    unscaled_norms_are_sure, NormView, QLinear, RmsNorm, Rotary, RotaryView,
};
use crate::tensor::ops;
use crate::tensor::raw::tensor_view;
use crate::tensor::run::{
    converted, ends, mapped, multiplied, only_if, refused, reshaped, run_of, stands_for, stored,
    transposed, Run,
};
use crate::tensor::sure::{
    lemma_count3, lemma_count4, lemma_tidy_mapped, lemma_tidy_product, lemma_tidy_reshaped,
    lemma_tidy_scores, lemma_tidy_stored, tidy, tidy_view,
};
use crate::tensor::view::{Op, TensorView};
use crate::text::{layer_name, name_of};
use candle_core::quantized::QTensor;
use candle_core::scalar::Scalar;
use candle_core::{DType, Tensor};
use vstd::prelude::*;

verus! {

/// What is known of an attention layer, but for the keys and values that it
/// keeps.
pub struct AttentionView {
    pub q: QTensor,
    pub k: QTensor,
    /// None where the values are the projected keys.
    pub v: Option<QTensor>,
    pub o: QTensor,
    pub q_norm: NormView,
    pub k_norm: NormView,
    pub n_head: usize,
    pub n_kv_head: usize,
    pub head_dim: usize,
    pub groups: usize,
    pub eps: Scalar,
    pub rotary: RotaryView,
    pub dtype: DType,
}

/// The projected keys.
pub open spec fn raw_keys(w: AttentionView, x: Run) -> Run {
    through(x, w.k)
}

/// The projected values: of their own projection, or the projected keys.
pub open spec fn raw_values(w: AttentionView, x: Run) -> Run {
    match w.v {
        Some(v) => through(x, v),
        None => raw_keys(w, x),
    }
}

/// A projection of the positions of `x` split into heads.
pub open spec fn heads_of(w: AttentionView, x: Run, projection: Run, n: usize) -> Run {
    heads(projection, x.dims()[0], x.dims()[1], n, w.head_dim)
}

/// The queries, normalised per head, not yet rotated.
pub open spec fn plain_queries(w: AttentionView, x: Run) -> Run {
    converted(normed(heads_of(w, x, through(x, w.q), w.n_head), w.q_norm), w.dtype)
}

/// The queries.
pub open spec fn queries(w: AttentionView, x: Run, offset: usize) -> Run {
    let q = plain_queries(w, x);
    rotate(w.rotary, stored(q), offset, q.dims()[2])
}

/// The keys of the positions of `x`.
pub open spec fn new_keys(w: AttentionView, x: Run, offset: usize) -> Run {
    let k = converted(normed(heads_of(w, x, raw_keys(w, x), w.n_kv_head), w.k_norm), w.dtype);
    rotate(w.rotary, stored(k), offset, plain_queries(w, x).dims()[2])
}

/// The values of the positions of `x`: normalised without weights, not
/// rotated.
pub open spec fn new_values(w: AttentionView, x: Run) -> Run {
    converted(
        unscaled_norm(heads_of(w, x, raw_values(w, x), w.n_kv_head), w.eps),
        w.dtype,
    )
}

/// The keys and values of a call, behind the kept ones unless the sequence
/// starts afresh at offset 0.
pub open spec fn all_keys_values(w: AttentionView, x: Run, offset: usize, kept: Kept) -> (Run, Run) {
    appended(kept, new_keys(w, x, offset), new_values(w, x), offset)
}

/// The keys and values that are kept after a call.
pub open spec fn kept_after(w: AttentionView, x: Run, offset: usize, kept: Kept) -> (
    TensorView,
    TensorView,
) {
    let (k, v) = all_keys_values(w, x, offset, kept);
    (k.view, v.view)
}

/// What the queries read from the values. The logits are not scaled.
pub open spec fn read_values(
    w: AttentionView,
    q: Run,
    k: Run,
    v: Run,
    mask: Option<TensorView>,
) -> Run {
    let k = stored(repeat_heads(k, w.groups));
    let v = stored(repeat_heads(v, w.groups));
    let s = masked_scores(multiplied(q, transposed(k, 2, 3)), mask);
    multiplied(mapped(Op::SoftmaxLastDim, s), v)
}

/// The output of the layer for `x`, (batch, sequence, hidden).
#[verifier::opaque]
pub open spec fn attended(
    w: AttentionView,
    x: Run,
    mask: Option<TensorView>,
    offset: usize,
    kept: Kept,
) -> Run {
    let (k, v) = all_keys_values(w, x, offset, kept);
    let ctx = read_values(w, queries(w, x, offset), k, v, mask);
    let flat = reshaped(
        only_if(transposed(ctx, 1, 2), w.n_head * w.head_dim <= usize::MAX),
        seq![x.dims()[0], x.dims()[1], (w.n_head * w.head_dim) as usize],
    );
    only_if(through(converted(flat, x.dtype()), w.o), x.dims().len() == 3)
}

/// The first tensor missing for the attention of layer `i`. The values' own
/// projection may be missing.
pub open spec fn attention_missing(gg: &Gguf, i: nat) -> Option<Seq<char>> {
    earlier(
        absent(gg, layer_name(i, ".attn_q.weight"@)),
        earlier(
            absent(gg, layer_name(i, ".attn_k.weight"@)),
            earlier(
                absent(gg, layer_name(i, ".attn_output.weight"@)),
                earlier(
                    absent(gg, layer_name(i, ".attn_q_norm.weight"@)),
                    absent(gg, layer_name(i, ".attn_k_norm.weight"@)),
                ),
            ),
        ),
    )
}

/// The tensors for the attention of layer `i` that are there are small.
pub open spec fn attention_small(gg: &Gguf, i: nat) -> bool {
    &&& small(gg, layer_name(i, ".attn_q.weight"@))
    &&& small(gg, layer_name(i, ".attn_k.weight"@))
    &&& small(gg, layer_name(i, ".attn_output.weight"@))
    &&& small(gg, layer_name(i, ".attn_q_norm.weight"@))
    &&& small(gg, layer_name(i, ".attn_k_norm.weight"@))
}

/// The tensors for the attention of layer `i` are sure to be loaded.
pub open spec fn attention_loads(gg: &Gguf, i: nat) -> bool {
    &&& there(gg, layer_name(i, ".attn_q.weight"@))
    &&& there(gg, layer_name(i, ".attn_k.weight"@))
    &&& there(gg, layer_name(i, ".attn_output.weight"@))
    &&& there(gg, layer_name(i, ".attn_q_norm.weight"@))
    &&& there(gg, layer_name(i, ".attn_k_norm.weight"@))
}

/// A projection that a layer may do without: none where it could not be
/// loaded.
pub fn if_loaded(loaded: Result<QLinear, ModelError>) -> (r: Option<QLinear>)
    ensures
        match loaded {
            Ok(l) => r == Some(l),
            Err(_) => r is None,
        },
{
    match loaded {
        Ok(l) => Some(l),
        Err(_) => None,
    }
}

/// An attention layer.
pub struct Attention {
    q_proj: QLinear,
    k_proj: QLinear,
    v_proj: Option<QLinear>,
    o_proj: QLinear,
    q_norm: RmsNorm,
    k_norm: RmsNorm,
    n_head: usize,
    n_kv_head: usize,
    head_dim: usize,
    num_kv_groups: usize,
    rms_norm_eps: Scalar,
    rotary_emb: Rotary,
    kv_cache: Option<(Tensor, Tensor)>,
    dtype: DType,
}

impl Attention {
    pub closed spec fn view(&self) -> AttentionView {
        AttentionView {
            q: self.q_proj.weight(),
            k: self.k_proj.weight(),
            v: match self.v_proj {
                Some(v) => Some(v.weight()),
                None => None,
            },
            o: self.o_proj.weight(),
            q_norm: self.q_norm@,
            k_norm: self.k_norm@,
            n_head: self.n_head,
            n_kv_head: self.n_kv_head,
            head_dim: self.head_dim,
            groups: self.num_kv_groups,
            eps: self.rms_norm_eps,
            rotary: self.rotary_emb@,
            dtype: self.dtype,
        }
    }

    /// The keys and values kept from earlier calls.
    pub closed spec fn kept(&self) -> Kept {
        kept_view(self.kv_cache)
    }

    /// Reads the attention of layer `i`.
    pub fn load(
        gg: &Gguf,
        i: usize,
        n_head: usize,
        n_kv_head: usize,
        head_dim: usize,
        rms_norm_eps: Scalar,
        rotary_emb: Rotary,
        dtype: DType,
    ) -> (r: Result<Attention, ModelError>)
        requires
            n_kv_head != 0,
        ensures
            match r {
                Ok(a) => {
                    &&& attention_missing(gg, i as nat) is None
                    &&& a.kept() is None
                    &&& a@.q == tensor_at(gg, layer_name(i as nat, ".attn_q.weight"@))
                    &&& a@.k == tensor_at(gg, layer_name(i as nat, ".attn_k.weight"@))
                    &&& own_or_none(a@.v, gg, layer_name(i as nat, ".attn_v.weight"@))
                    &&& a@.o == tensor_at(gg, layer_name(i as nat, ".attn_output.weight"@))
                    &&& a@.q_norm == norm_of(
                        tensor_at(gg, layer_name(i as nat, ".attn_q_norm.weight"@)),
                        rms_norm_eps,
                    )
                    &&& a@.k_norm == norm_of(
                        tensor_at(gg, layer_name(i as nat, ".attn_k_norm.weight"@)),
                        rms_norm_eps,
                    )
                    &&& a@.n_head == n_head
                    &&& a@.n_kv_head == n_kv_head
                    &&& a@.head_dim == head_dim
                    &&& a@.groups == n_head / n_kv_head
                    &&& a@.eps == rms_norm_eps
                    &&& a@.rotary == rotary_emb@
                    &&& a@.dtype == dtype
                },
                Err(e) => {
                    &&& load_error(
                        e,
                        attention_small(gg, i as nat),
                        attention_missing(gg, i as nat),
                    )
                    &&& !attention_loads(gg, i as nat)
                },
            },
    {
        let q_proj = load_linear(gg, &name_of(i, ".attn_q.weight"))?;
        let k_proj = load_linear(gg, &name_of(i, ".attn_k.weight"))?;
        let v_proj = if_loaded(load_linear(gg, &name_of(i, ".attn_v.weight")));
        let o_proj = load_linear(gg, &name_of(i, ".attn_output.weight"))?;
        let q_norm = load_norm(gg, &name_of(i, ".attn_q_norm.weight"), rms_norm_eps)?;
        let k_norm = load_norm(gg, &name_of(i, ".attn_k_norm.weight"), rms_norm_eps)?;
        Ok(
            Attention {
                q_proj,
                k_proj,
                v_proj,
                o_proj,
                q_norm,
                k_norm,
                n_head,
                n_kv_head,
                head_dim,
                num_kv_groups: n_head / n_kv_head,
                rms_norm_eps,
                rotary_emb,
                kv_cache: None,
                dtype,
            },
        )
    }

    /// What the queries read from the values, for given queries, keys, values.
    fn attend(
        &self,
        q: &Tensor,
        k: Tensor,
        v: Tensor,
        mask: Option<&Tensor>,
    ) -> (r: Result<Tensor, ModelError>)
        ensures
            ends(r, read_values(self@, run_of(*q), run_of(k), run_of(v), mask_view(mask))),
    {
        let k = ops::contiguous(&repeat_kv(k, self.num_kv_groups)?)?;
        let v = ops::contiguous(&repeat_kv(v, self.num_kv_groups)?)?;
        let plain = ops::matmul(q, &ops::transpose(&k, 2, 3)?)?;
        let probs = ops::softmax_last_dim(&add_mask(plain, mask)?)?;
        ops::matmul(&probs, &v)
    }

    /// Attends from the positions of `x`, which start at `offset`, to
    /// themselves and to the kept ones. A failed call may have kept its keys
    /// and values already.
    #[verifier::rlimit(60)]
    pub fn forward(&mut self, x: &Tensor, mask: Option<&Tensor>, offset: usize) -> (r: Result<
        Tensor,
        ModelError,
    >)
        ensures
            final(self)@ == old(self)@,
            tensor_view(*x).dims.len() != 3 ==> r is Err && r->Err_0 is UnexpectedRank
                && final(self).kept() == old(self).kept(),
            match r {
                Ok(_) => final(self).kept() == Some(
                    kept_after(old(self)@, run_of(*x), offset, old(self).kept()),
                ),
                Err(_) => final(self).kept() == old(self).kept() || final(self).kept() == Some(
                    kept_after(old(self)@, run_of(*x), offset, old(self).kept()),
                ),
            },
            ends(
                r,
                attended(old(self)@, run_of(*x), mask_view(mask), offset, old(self).kept()),
            ),
    {
        proof {
            reveal(attended);
        }
        let (b_sz, seq_len, hidden) = ops::dims3(x)?;
        let in_dtype = ops::dtype(x);
        let q = self.q_proj.forward(x)?;
        let k = self.k_proj.forward(x)?;
        let v = match &self.v_proj {
            Some(v_proj) => v_proj.forward(x)?,
            None => ops::same(&k),
        };
        let q = split_heads(&q, b_sz, seq_len, self.n_head, self.head_dim)?;
        let k = split_heads(&k, b_sz, seq_len, self.n_kv_head, self.head_dim)?;
        let v = split_heads(&v, b_sz, seq_len, self.n_kv_head, self.head_dim)?;
        let q = self.q_norm.forward(&q)?;
        let k = self.k_norm.forward(&k)?;
        let v = rms_no_scale(&v, &self.rms_norm_eps)?;
        let q = ops::to_dtype(&q, self.dtype)?;
        let k = ops::to_dtype(&k, self.dtype)?;
        let (q, k) = Self::apply_rotary(&self.rotary_emb, &q, &k, offset)?;
        let v = ops::to_dtype(&v, self.dtype)?;
        let (k, v) = append_kept(&self.kv_cache, k, v, offset)?;
        self.kv_cache = Some((ops::same(&k), ops::same(&v)));
        let ctx = self.attend(&q, k, v, mask)?;
        let width = match self.n_head.checked_mul(self.head_dim) {
            Some(w) => w,
            None => return Err(ModelError::TooLarge),
        };
        let ctx = ops::reshape3(&ops::transpose(&ctx, 1, 2)?, b_sz, seq_len, width)?;
        self.o_proj.forward(&ops::to_dtype(&ctx, in_dtype)?)
    }

    /// Queries and keys rotated by their positions.
    fn apply_rotary(rotary: &Rotary, q: &Tensor, k: &Tensor, offset: usize) -> (r: Result<
        (Tensor, Tensor),
        ModelError,
    >)
        ensures
            ({
                let len = tensor_view(*q).dims[2];
                let queries = rotate(rotary@, stored(run_of(*q)), offset, len);
                let keys = rotate(rotary@, stored(run_of(*k)), offset, len);
                match r {
                    Ok((q, k)) => ends(Ok(q), queries) && ends(Ok(k), keys),
                    Err(e) => {
                        &&& refused(e, queries.sound && keys.sound)
                        &&& !(queries.certain() && keys.certain())
                    },
                }
            }),
    {
        let (b, h, seq_len, d) = ops::dims4(q)?;
        let (cos, sin) = rotary.slice(offset, seq_len)?;
        let q = ops::rope(&ops::contiguous(q)?, &cos, &sin)?;
        let k = ops::rope(&ops::contiguous(k)?, &cos, &sin)?;
        Ok((q, k))
    }

    /// Forgets the kept keys and values.
    pub fn clear_kv_cache(&mut self)
        ensures
            final(self)@ == old(self)@,
            final(self).kept() is None,
    {
        self.kv_cache = None;
    }
}

/// Attention is sound, and sure, only where the run up to it is.
pub proof fn lemma_attended_sound(
    w: AttentionView,
    x: Run,
    mask: Option<TensorView>,
    offset: usize,
    kept: Kept,
)
    ensures
        attended(w, x, mask, offset, kept).sound ==> x.sound,
        attended(w, x, mask, offset, kept).sure ==> x.sure,
{
    reveal(attended);
}

/// Attention for a given tensor stands for attention for the run that it came
/// out of.
pub proof fn lemma_attended_stands(
    w: AttentionView,
    x: Run,
    y: Run,
    mask: Option<TensorView>,
    offset: usize,
    kept: Kept,
)
    requires
        stands_for(x, y),
    ensures
        stands_for(attended(w, x, mask, offset, kept), attended(w, y, mask, offset, kept)),
        kept_after(w, x, offset, kept) == kept_after(w, y, offset, kept),
{
    reveal(attended);
}

/// A sequence that starts afresh does not depend on what was kept.
pub proof fn fresh_start_ignores_kept(
    w: AttentionView,
    x: Run,
    mask: Option<TensorView>,
    kept: Kept,
)
    ensures
        kept_after(w, x, 0, kept) == kept_after(w, x, 0, None),
        attended(w, x, mask, 0, kept) == attended(w, x, mask, 0, None),
{
    reveal(attended);
}

/// A call that starts a sequence keeps the positions that it has; one that goes
/// on with a sequence keeps as many positions more.
pub proof fn kept_positions(w: AttentionView, x: Run, offset: usize, kept: Kept)
    requires
        x.dims().len() == 3,
        offset + x.dims()[1] <= usize::MAX,
        offset > 0 ==> holds(kept, offset as int),
    ensures
        holds(Some(kept_after(w, x, offset, kept)), offset + x.dims()[1]),
{
    if offset > 0 {
        let (k, v) = kept->0;
        lemma_joined_dim(k, new_keys(w, x, offset).view, 2);
        lemma_joined_dim(v, new_values(w, x).view, 2);
    }
}

/// Where the values have no projection of their own they are made from the
/// very projection that the keys are made from, before its normalisation and
/// rotation.
pub proof fn values_from_keys(w: AttentionView, x: Run)
    requires
        w.v is None,
    ensures
        raw_values(w, x) == raw_keys(w, x),
        new_values(w, x) == converted(
            unscaled_norm(heads_of(w, x, through(x, w.k), w.n_kv_head), w.eps),
            w.dtype,
        ),
{
}

/// The projections and normalisations of a layer agree with its numbers of heads
/// and with rows of `hidden` elements.
pub open spec fn attention_shaped(w: AttentionView, hidden: usize) -> bool {
    &&& w.n_head * w.head_dim <= usize::MAX
    &&& w.n_kv_head * w.head_dim <= usize::MAX
    &&& w.n_kv_head > 0
    &&& w.n_kv_head * w.groups == w.n_head
    &&& maps(w.q, hidden, (w.n_head * w.head_dim) as usize)
    &&& maps(w.k, hidden, (w.n_kv_head * w.head_dim) as usize)
    &&& w.v is Some ==> maps(w.v->0, hidden, (w.n_kv_head * w.head_dim) as usize)
    &&& maps(w.o, (w.n_head * w.head_dim) as usize, hidden)
    &&& w.q_norm.weight.dims == seq![w.head_dim]
    &&& w.k_norm.weight.dims == seq![w.head_dim]
    &&& w.head_dim > 0
}

/// The parts of a layer agree, on the cpu, in single precision.
pub open spec fn attention_maps(w: AttentionView, hidden: usize) -> bool {
    &&& attention_shaped(w, hidden)
    &&& norms(w.q_norm, w.head_dim)
    &&& norms(w.k_norm, w.head_dim)
    &&& w.dtype == DType::F32
}

/// Keys and values, on the cpu, of `len` positions of `batch` sequences.
pub open spec fn kept_maps(w: AttentionView, kept: Kept, batch: usize, len: usize) -> bool {
    match kept {
        Some((k, v)) => {
            &&& tidy_view(k)
            &&& tidy_view(v)
            &&& k.dims == seq![batch, w.n_kv_head, len, w.head_dim]
            &&& v.dims == k.dims
        },
        None => false,
    }
}

/// The queries, keys and values of a tensor that is sure to come out are sure to
/// come out.
proof fn lemma_tidy_heads(w: AttentionView, x: Run, offset: usize)
    requires
        tidy(x),
        x.dims().len() == 3,
        attention_maps(w, x.dims()[2]),
        turns(w.rotary, offset + x.dims()[1], w.head_dim),
        queries(w, x, offset).sound,
        new_keys(w, x, offset).sound,
        new_values(w, x).sound,
    ensures
        tidy(queries(w, x, offset)),
        tidy(new_keys(w, x, offset)),
        tidy(new_values(w, x)),
        queries(w, x, offset).dims() == seq![x.dims()[0], w.n_head, x.dims()[1], w.head_dim],
        new_keys(w, x, offset).dims() == seq![x.dims()[0], w.n_kv_head, x.dims()[1], w.head_dim],
        new_values(w, x).dims() == seq![x.dims()[0], w.n_kv_head, x.dims()[1], w.head_dim],
{
    let b = x.dims()[0];
    let l = x.dims()[1];
    let d = w.head_dim;
    assert(d > 0 && w.n_head > 0) by {
        if d == 0 || w.n_head == 0 {
            assert(w.n_head * d == 0) by (nonlinear_arith)
                requires
                    d == 0 || w.n_head == 0,
            ;
        }
    }
    lemma_tidy_projection(w, x, w.q, w.n_head);
    let q = heads_of(w, x, through(x, w.q), w.n_head);
    norms_are_sure(q, w.q_norm);
    lemma_tidy_stored(plain_queries(w, x));
    rotations_are_sure(w.rotary, stored(plain_queries(w, x)), offset, l);
    lemma_tidy_projection(w, x, w.k, w.n_kv_head);
    let k = heads_of(w, x, raw_keys(w, x), w.n_kv_head);
    norms_are_sure(k, w.k_norm);
    let plain_keys = converted(normed(k, w.k_norm), w.dtype);
    lemma_tidy_stored(plain_keys);
    rotations_are_sure(w.rotary, stored(plain_keys), offset, l);
    if let Some(v) = w.v {
        lemma_tidy_projection(w, x, v, w.n_kv_head);
    }
    let v = heads_of(w, x, raw_values(w, x), w.n_kv_head);
    unscaled_norms_are_sure(v, w.eps);
}

proof fn lemma_tidy_projection(w: AttentionView, x: Run, weight: QTensor, n: usize)
    requires
        tidy(x),
        x.dims().len() == 3,
        n > 0,
        w.head_dim > 0,
        n * w.head_dim <= usize::MAX,
        maps(weight, x.dims()[2], (n * w.head_dim) as usize),
        heads_of(w, x, through(x, weight), n).sound,
    ensures
        tidy(heads_of(w, x, through(x, weight), n)),
        heads_of(w, x, through(x, weight), n).dims() == seq![
            x.dims()[0],
            n,
            x.dims()[1],
            w.head_dim,
        ],
{
    let b = x.dims()[0];
    let l = x.dims()[1];
    let d = w.head_dim;
    let y = through(x, weight);
    projections_are_sure(x, weight, (n * d) as usize);
    assert(y.dims() =~= seq![b, l, (n * d) as usize]);
    lemma_count3(b, l, (n * d) as usize);
    assert(b * l * (n * d) == b * l * n * d) by (nonlinear_arith);
    heads_are_sure(y, b, l, n, d);
}

/// Attention from a tensor that is sure to come out is sure to succeed: on the
/// cpu, in single precision, where the dims agree, there are angles for the
/// positions, and what is kept is of the positions before. The dims stay, and
/// what is kept goes on with the positions of the call.
pub proof fn attention_is_sure(
    w: AttentionView,
    x: Run,
    mask: Option<TensorView>,
    offset: usize,
    kept: Kept,
)
    requires
        tidy(x),
        x.dims().len() == 3,
        attention_maps(w, x.dims()[2]),
        offset + x.dims()[1] <= usize::MAX,
        turns(w.rotary, offset + x.dims()[1], w.head_dim),
        offset > 0 ==> kept_maps(w, kept, x.dims()[0], offset),
        covers(mask, x.dims()[1], (offset + x.dims()[1]) as usize),
        attended(w, x, mask, offset, kept).sound,
    ensures
        tidy(attended(w, x, mask, offset, kept)),
        attended(w, x, mask, offset, kept).dims() == x.dims(),
        kept_maps(
            w,
            Some(kept_after(w, x, offset, kept)),
            x.dims()[0],
            (offset + x.dims()[1]) as usize,
        ),
{
    reveal(attended);
    let b = x.dims()[0];
    let l = x.dims()[1];
    let t = (offset + l) as usize;
    let h = w.n_head;
    let d = w.head_dim;
    lemma_tidy_heads(w, x, offset);
    let q = queries(w, x, offset);
    let (k, v) = all_keys_values(w, x, offset, kept);
    let new_k = new_keys(w, x, offset);
    let new_v = new_values(w, x);
    if offset > 0 {
        if let Some((kc, vc)) = kept {
            assert(kc.dims =~= new_k.dims().update(2, offset));
            assert(vc.dims =~= new_v.dims().update(2, offset));
        }
    }
    kept_are_sure(kept, new_k, new_v, offset);
    assert(k.dims() =~= seq![b, w.n_kv_head, t, d]);
    assert(v.dims() =~= seq![b, w.n_kv_head, t, d]);
    assert(w.groups > 0) by {
        if w.groups == 0 {
            assert(w.n_kv_head * w.groups == 0) by (nonlinear_arith)
                requires
                    w.groups == 0,
            ;
            assert(h * d == 0) by (nonlinear_arith)
                requires
                    h == 0,
            ;
        }
    }
    lemma_tidy_read_values(w, q, k, v, mask);
    let ctx = read_values(w, q, k, v, mask);
    let swapped = transposed(ctx, 1, 2);
    assert(swapped.dims() =~= seq![b, l, h, d]);
    lemma_count4(b, l, h, d);
    lemma_count3(b, l, (h * d) as usize);
    assert(b * l * h * d == b * l * (h * d)) by (nonlinear_arith);
    let flat = reshaped(swapped, seq![b, l, (h * d) as usize]);
    lemma_tidy_reshaped(swapped, seq![b, l, (h * d) as usize]);
    projections_are_sure(converted(flat, x.dtype()), w.o, x.dims()[2]);
    assert(attended(w, x, mask, offset, kept).dims() =~= x.dims());
}

proof fn lemma_tidy_read_values(
    w: AttentionView,
    q: Run,
    k: Run,
    v: Run,
    mask: Option<TensorView>,
)
    requires
        tidy(q),
        tidy(k),
        tidy(v),
        q.dims().len() == 4,
        k.dims().len() == 4,
        v.dims() == k.dims(),
        q.dims()[0] == k.dims()[0],
        q.dims()[1] == k.dims()[1] * w.groups,
        q.dims()[3] == k.dims()[3],
        w.groups > 0,
        covers(mask, q.dims()[2], k.dims()[2]),
        read_values(w, q, k, v, mask).sound,
    ensures
        tidy(read_values(w, q, k, v, mask)),
        read_values(w, q, k, v, mask).dims() == q.dims(),
{
    repeated_heads_are_sure(k, w.groups);
    repeated_heads_are_sure(v, w.groups);
    let k = repeat_heads(k, w.groups);
    let v = repeat_heads(v, w.groups);
    lemma_tidy_stored(k);
    lemma_tidy_stored(v);
    let s = multiplied(q, transposed(stored(k), 2, 3));
    lemma_tidy_scores(q, stored(k));
    masks_are_sure(s, mask);
    let probs = mapped(Op::SoftmaxLastDim, masked_scores(s, mask));
    lemma_tidy_mapped(Op::SoftmaxLastDim, masked_scores(s, mask));
    lemma_tidy_product(probs, stored(v));
    assert(multiplied(probs, stored(v)).dims() =~= q.dims());
}

} // verus!
