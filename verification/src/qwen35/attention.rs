//! Gated full attention with keys and values kept from earlier calls.

use crate::attention::{
    add_mask, append_kept, appended, covers, heads, heads_are_sure, holds, kept_are_sure, kept_view,
    lemma_joined_dim, mask_view, masked_scores, masks_are_sure, rotate, rotations_are_sure,
    split_heads, turns, Kept,
};
use crate::error::ModelError;
use crate::gguf::Gguf;
use crate::nn::{
    absent, earlier, load_error, load_linear, load_norm, maps, norm_of, normed, norms,
    norms_are_sure, projections_are_sure, repeat_heads, repeat_kv, repeated_heads_are_sure, small,
    tensor_at, there, through, NormView, QLinear, RmsNorm, Rotary, RotaryView,
};
use crate::shape::{
    elem_count, fits, lemma_matrix_count, lemma_row_count, lemma_row_major, lemma_stride, row_major,
};
use crate::tensor::ops;
use crate::tensor::raw::tensor_view;
use crate::tensor::run::{
    converted, ends, joined, mapped, multiplied, narrowed, only_if, paired, reshaped, run_of,
    stands_for, stored, transposed, Run,
};
use crate::tensor::sure::{
    lemma_count3, lemma_count4, lemma_fresh, lemma_tidy_mapped, lemma_tidy_paired,
    lemma_tidy_product, lemma_tidy_reshaped, lemma_tidy_scores, lemma_tidy_stored, tidy, tidy_view,
};
use crate::tensor::view::{cat_sure, in_blocks, in_rows, slices_along, Op, TensorView};
use crate::text::{layer_name, name_of};
use candle_core::quantized::QTensor;
use candle_core::scalar::Scalar;
use candle_core::{DType, Tensor};
use vstd::prelude::*;

verus! {

/// What is known of an attention layer, but for the keys and values that it
/// keeps.
pub struct AttentionView {
    /// Projects to a query and a gate for each head.
    pub q: QTensor,
    pub k: QTensor,
    pub v: QTensor,
    pub o: QTensor,
    pub q_norm: NormView,
    pub k_norm: NormView,
    pub num_heads: usize,
    pub num_kv_heads: usize,
    pub groups: usize,
    pub head_dim: usize,
    /// The number of dims of a head that are rotated.
    pub rope_dim: usize,
    pub rotary: RotaryView,
    /// The scale of the logits.
    pub scale: Scalar,
    pub dtype: DType,
}

/// Heads, (batch, heads, sequence, head), whose first dims are rotated by their
/// positions, which start at `offset`; the other dims pass.
pub open spec fn partly_rotated(w: AttentionView, x: Run, offset: usize) -> Run {
    let turned = rotate(
        w.rotary,
        stored(narrowed(x, 3, 0, w.rope_dim)),
        offset,
        x.dims()[2],
    );
    let passed = narrowed(x, 3, w.rope_dim, (x.dims()[3] - w.rope_dim) as usize);
    only_if(
        joined(turned, passed, 3),
        x.dims().len() == 4 && w.rope_dim <= x.dims()[3],
    )
}

/// The queries and gates of each head, one behind the other.
pub open spec fn queries_and_gates(w: AttentionView, x: Run) -> Run {
    reshaped(
        only_if(through(x, w.q), 2 * w.head_dim <= usize::MAX),
        seq![x.dims()[0], x.dims()[1], w.num_heads, (2 * w.head_dim) as usize],
    )
}

/// The width of all heads.
pub open spec fn width(w: AttentionView) -> usize {
    (w.num_heads * w.head_dim) as usize
}

/// The gates of the output.
pub open spec fn gates(w: AttentionView, x: Run) -> Run {
    reshaped(
        only_if(
            narrowed(queries_and_gates(w, x), 3, w.head_dim, w.head_dim),
            w.num_heads * w.head_dim <= usize::MAX,
        ),
        seq![x.dims()[0], x.dims()[1], width(w)],
    )
}

/// The queries.
pub open spec fn queries(w: AttentionView, x: Run, offset: usize) -> Run {
    let q = stored(transposed(narrowed(queries_and_gates(w, x), 3, 0, w.head_dim), 1, 2));
    partly_rotated(w, converted(normed(q, w.q_norm), w.dtype), offset)
}

/// A projection to keys or values split into heads.
pub open spec fn kv_heads(w: AttentionView, x: Run, weight: QTensor) -> Run {
    heads(through(x, weight), x.dims()[0], x.dims()[1], w.num_kv_heads, w.head_dim)
}

/// The keys of the positions of `x`.
pub open spec fn new_keys(w: AttentionView, x: Run, offset: usize) -> Run {
    partly_rotated(w, converted(normed(kv_heads(w, x, w.k), w.k_norm), w.dtype), offset)
}

/// The values of the positions of `x`.
pub open spec fn new_values(w: AttentionView, x: Run) -> Run {
    converted(kv_heads(w, x, w.v), w.dtype)
}

/// The keys and values of a call, behind the kept ones unless the sequence
/// starts afresh at offset 0.
pub open spec fn all_keys_values(w: AttentionView, x: Run, offset: usize, kept: Kept) -> (Run, Run) {
    appended(kept, new_keys(w, x, offset), new_values(w, x), offset)
}

/// The keys and values that are kept after a call.
pub open spec fn kept_after(w: AttentionView, x: Run, offset: usize, kept: Kept) -> (
    TensorView,
    TensorView,
) {
    let (k, v) = all_keys_values(w, x, offset, kept);
    (k.view, v.view)
}

/// What queries read from values, by keys.
pub open spec fn read_values(
    w: AttentionView,
    q: Run,
    k: Run,
    v: Run,
    mask: Option<TensorView>,
) -> Run {
    let k = stored(repeat_heads(k, w.groups));
    let v = stored(repeat_heads(v, w.groups));
    let s = mapped(Op::MulScalar(w.scale), multiplied(q, transposed(k, 2, 3)));
    multiplied(mapped(Op::SoftmaxLastDim, masked_scores(s, mask)), v)
}

/// What the queries of `x` read from the values, for each position.
pub open spec fn context(
    w: AttentionView,
    x: Run,
    mask: Option<TensorView>,
    offset: usize,
    kept: Kept,
) -> Run {
    let (k, v) = all_keys_values(w, x, offset, kept);
    let ctx = read_values(w, queries(w, x, offset), k, v, mask);
    let flat = reshaped(transposed(ctx, 1, 2), seq![x.dims()[0], x.dims()[1], width(w)]);
    converted(flat, x.dtype())
}

/// The output of the layer for `x`, (batch, sequence, hidden): gated, then
/// projected.
#[verifier::opaque]
pub open spec fn attended(
    w: AttentionView,
    x: Run,
    mask: Option<TensorView>,
    offset: usize,
    kept: Kept,
) -> Run {
    let gated = paired(
        Op::Mul,
        context(w, x, mask, offset, kept),
        mapped(Op::Sigmoid, gates(w, x)),
    );
    only_if(through(gated, w.o), x.dims().len() == 3)
}

/// The first tensor missing for the attention of layer `i`.
pub open spec fn attention_missing(gg: &Gguf, i: nat) -> Option<Seq<char>> {
    earlier(
        absent(gg, layer_name(i, ".attn_q.weight"@)),
        earlier(
            absent(gg, layer_name(i, ".attn_k.weight"@)),
            earlier(
                absent(gg, layer_name(i, ".attn_v.weight"@)),
                earlier(
                    absent(gg, layer_name(i, ".attn_output.weight"@)),
                    earlier(
                        absent(gg, layer_name(i, ".attn_q_norm.weight"@)),
                        absent(gg, layer_name(i, ".attn_k_norm.weight"@)),
                    ),
                ),
            ),
        ),
    )
}

/// The tensors for the attention of layer `i` that are there are small.
pub open spec fn attention_small(gg: &Gguf, i: nat) -> bool {
    &&& small(gg, layer_name(i, ".attn_q.weight"@))
    &&& small(gg, layer_name(i, ".attn_k.weight"@))
    &&& small(gg, layer_name(i, ".attn_v.weight"@))
    &&& small(gg, layer_name(i, ".attn_output.weight"@))
    &&& small(gg, layer_name(i, ".attn_q_norm.weight"@))
    &&& small(gg, layer_name(i, ".attn_k_norm.weight"@))
}

/// The tensors for the attention of layer `i` are sure to be loaded.
pub open spec fn attention_loads(gg: &Gguf, i: nat) -> bool {
    &&& there(gg, layer_name(i, ".attn_q.weight"@))
    &&& there(gg, layer_name(i, ".attn_k.weight"@))
    &&& there(gg, layer_name(i, ".attn_v.weight"@))
    &&& there(gg, layer_name(i, ".attn_output.weight"@))
    &&& there(gg, layer_name(i, ".attn_q_norm.weight"@))
    &&& there(gg, layer_name(i, ".attn_k_norm.weight"@))
}

/// The settings of attention.
pub struct AttentionSettings {
    pub num_heads: usize,
    pub num_kv_heads: usize,
    pub head_dim: usize,
    pub rope_dim: usize,
    pub eps: Scalar,
    pub scale: Scalar,
    pub dtype: DType,
}

/// The attention of layer `i` in a file.
pub open spec fn attention_of(
    gg: &Gguf,
    i: nat,
    s: AttentionSettings,
    rotary: RotaryView,
) -> AttentionView {
    AttentionView {
        q: tensor_at(gg, layer_name(i, ".attn_q.weight"@)),
        k: tensor_at(gg, layer_name(i, ".attn_k.weight"@)),
        v: tensor_at(gg, layer_name(i, ".attn_v.weight"@)),
        o: tensor_at(gg, layer_name(i, ".attn_output.weight"@)),
        q_norm: norm_of(tensor_at(gg, layer_name(i, ".attn_q_norm.weight"@)), s.eps),
        k_norm: norm_of(tensor_at(gg, layer_name(i, ".attn_k_norm.weight"@)), s.eps),
        num_heads: s.num_heads,
        num_kv_heads: s.num_kv_heads,
        groups: (s.num_heads / s.num_kv_heads) as usize,
        head_dim: s.head_dim,
        rope_dim: s.rope_dim,
        rotary,
        scale: s.scale,
        dtype: s.dtype,
    }
}

/// An attention layer.
pub struct GatedAttention {
    q_proj: QLinear,
    k_proj: QLinear,
    v_proj: QLinear,
    o_proj: QLinear,
    q_norm: RmsNorm,
    k_norm: RmsNorm,
    num_heads: usize,
    num_kv_heads: usize,
    num_kv_groups: usize,
    head_dim: usize,
    rope_dim: usize,
    rotary_emb: Rotary,
    scale: Scalar,
    kv_cache: Option<(Tensor, Tensor)>,
    dtype: DType,
}

impl GatedAttention {
    pub closed spec fn view(&self) -> AttentionView {
        AttentionView {
            q: self.q_proj.weight(),
            k: self.k_proj.weight(),
            v: self.v_proj.weight(),
            o: self.o_proj.weight(),
            q_norm: self.q_norm@,
            k_norm: self.k_norm@,
            num_heads: self.num_heads,
            num_kv_heads: self.num_kv_heads,
            groups: self.num_kv_groups,
            head_dim: self.head_dim,
            rope_dim: self.rope_dim,
            rotary: self.rotary_emb@,
            scale: self.scale,
            dtype: self.dtype,
        }
    }

    /// The keys and values kept from earlier calls.
    pub closed spec fn kept(&self) -> Kept {
        kept_view(self.kv_cache)
    }

    /// Reads the attention of layer `i`.
    pub fn load(gg: &Gguf, i: usize, s: &AttentionSettings, rotary_emb: Rotary) -> (r: Result<
        GatedAttention,
        ModelError,
    >)
        requires
            s.num_kv_heads != 0,
        ensures
            match r {
                Ok(a) => {
                    &&& attention_missing(gg, i as nat) is None
                    &&& a.kept() is None
                    &&& a@ == attention_of(gg, i as nat, *s, rotary_emb@)
                },
                Err(e) => {
                    &&& load_error(
                        e,
                        attention_small(gg, i as nat),
                        attention_missing(gg, i as nat),
                    )
                    &&& !attention_loads(gg, i as nat)
                },
            },
    {
        let q_proj = load_linear(gg, &name_of(i, ".attn_q.weight"))?;
        let k_proj = load_linear(gg, &name_of(i, ".attn_k.weight"))?;
        let v_proj = load_linear(gg, &name_of(i, ".attn_v.weight"))?;
        let o_proj = load_linear(gg, &name_of(i, ".attn_output.weight"))?;
        let q_norm = load_norm(gg, &name_of(i, ".attn_q_norm.weight"), s.eps)?;
        let k_norm = load_norm(gg, &name_of(i, ".attn_k_norm.weight"), s.eps)?;
        Ok(
            GatedAttention {
                q_proj,
                k_proj,
                v_proj,
                o_proj,
                q_norm,
                k_norm,
                num_heads: s.num_heads,
                num_kv_heads: s.num_kv_heads,
                num_kv_groups: s.num_heads / s.num_kv_heads,
                head_dim: s.head_dim,
                rope_dim: s.rope_dim,
                rotary_emb,
                scale: s.scale,
                kv_cache: None,
                dtype: s.dtype,
            },
        )
    }

    /// Heads whose first dims are rotated by their positions.
    fn apply_rotary(&self, x: &Tensor, offset: usize) -> (r: Result<Tensor, ModelError>)
        ensures
            ends(r, partly_rotated(self@, run_of(*x), offset)),
    {
        let (b, h, seq_len, d) = ops::dims4(x)?;
        let rot = ops::contiguous(&ops::narrow(x, 3, 0, self.rope_dim)?)?;
        if self.rope_dim > d {
            return Err(ModelError::EmptyDim);
        }
        let pass = ops::narrow(x, 3, self.rope_dim, d - self.rope_dim)?;
        let (cos, sin) = self.rotary_emb.slice(offset, seq_len)?;
        let rot = ops::rope(&rot, &cos, &sin)?;
        ops::join(&rot, &pass, 3)
    }

    /// What the queries read from the values, for given queries, keys, values.
    fn attend(
        &self,
        q: &Tensor,
        k: Tensor,
        v: Tensor,
        mask: Option<&Tensor>,
    ) -> (r: Result<Tensor, ModelError>)
        ensures
            ends(r, read_values(self@, run_of(*q), run_of(k), run_of(v), mask_view(mask))),
    {
        let k = ops::contiguous(&repeat_kv(k, self.num_kv_groups)?)?;
        let v = ops::contiguous(&repeat_kv(v, self.num_kv_groups)?)?;
        let plain = ops::matmul(q, &ops::transpose(&k, 2, 3)?)?;
        let scores = add_mask(ops::mul_scalar(&plain, &self.scale)?, mask)?;
        let probs = ops::softmax_last_dim(&scores)?;
        ops::matmul(&probs, &v)
    }

    /// Attends from the positions of `x`, which start at `offset`, to
    /// themselves and to the kept ones. A failed call may have kept its keys
    /// and values already.
    #[verifier::rlimit(30)]
    pub fn forward(&mut self, x: &Tensor, mask: Option<&Tensor>, offset: usize) -> (r: Result<
        Tensor,
        ModelError,
    >)
        ensures
            final(self)@ == old(self)@,
            tensor_view(*x).dims.len() != 3 ==> r is Err && r->Err_0 is UnexpectedRank
                && final(self).kept() == old(self).kept(),
            match r {
                Ok(_) => final(self).kept() == Some(
                    kept_after(old(self)@, run_of(*x), offset, old(self).kept()),
                ),
                Err(_) => final(self).kept() == old(self).kept() || final(self).kept() == Some(
                    kept_after(old(self)@, run_of(*x), offset, old(self).kept()),
                ),
            },
            ends(
                r,
                attended(old(self)@, run_of(*x), mask_view(mask), offset, old(self).kept()),
            ),
    {
        proof {
            reveal(attended);
        }
        let (b, l, hidden) = ops::dims3(x)?;
        let in_dtype = ops::dtype(x);
        let pair = match self.head_dim.checked_mul(2) {
            Some(n) => n,
            None => return Err(ModelError::TooLarge),
        };
        let width = match self.num_heads.checked_mul(self.head_dim) {
            Some(n) => n,
            None => return Err(ModelError::TooLarge),
        };
        let qg = ops::reshape4(&self.q_proj.forward(x)?, b, l, self.num_heads, pair)?;
        let q = ops::narrow(&qg, 3, 0, self.head_dim)?;
        let gate = ops::narrow(&qg, 3, self.head_dim, self.head_dim)?;
        let gate = ops::reshape3(&gate, b, l, width)?;
        let q = ops::contiguous(&ops::transpose(&q, 1, 2)?)?;
        let k = split_heads(&self.k_proj.forward(x)?, b, l, self.num_kv_heads, self.head_dim)?;
        let v = split_heads(&self.v_proj.forward(x)?, b, l, self.num_kv_heads, self.head_dim)?;
        let q = self.q_norm.forward(&q)?;
        let k = self.k_norm.forward(&k)?;
        let q = ops::to_dtype(&q, self.dtype)?;
        let k = ops::to_dtype(&k, self.dtype)?;
        let q = self.apply_rotary(&q, offset)?;
        let k = self.apply_rotary(&k, offset)?;
        let v = ops::to_dtype(&v, self.dtype)?;
        let (k, v) = append_kept(&self.kv_cache, k, v, offset)?;
        self.kv_cache = Some((ops::same(&k), ops::same(&v)));
        let ctx = self.attend(&q, k, v, mask)?;
        let ctx = ops::reshape3(&ops::transpose(&ctx, 1, 2)?, b, l, width)?;
        let ctx = ops::to_dtype(&ctx, in_dtype)?;
        let ctx = ops::times(&ctx, &ops::sigmoid(&gate)?)?;
        self.o_proj.forward(&ctx)
    }

    /// Forgets the kept keys and values.
    pub fn clear_kv_cache(&mut self)
        ensures
            final(self)@ == old(self)@,
            final(self).kept() is None,
    {
        self.kv_cache = None;
    }
}

/// Attention is sound, and sure, only where the run up to it is.
pub proof fn lemma_attended_sound(
    w: AttentionView,
    x: Run,
    mask: Option<TensorView>,
    offset: usize,
    kept: Kept,
)
    ensures
        attended(w, x, mask, offset, kept).sound ==> x.sound,
        attended(w, x, mask, offset, kept).sure ==> x.sure,
{
    reveal(attended);
}

/// Attention for a given tensor stands for attention for the run that it came
/// out of.
pub proof fn lemma_attended_stands(
    w: AttentionView,
    x: Run,
    y: Run,
    mask: Option<TensorView>,
    offset: usize,
    kept: Kept,
)
    requires
        stands_for(x, y),
    ensures
        stands_for(attended(w, x, mask, offset, kept), attended(w, y, mask, offset, kept)),
        kept_after(w, x, offset, kept) == kept_after(w, y, offset, kept),
{
    reveal(attended);
}

/// A sequence that starts afresh does not depend on what was kept.
pub proof fn fresh_start_ignores_kept(
    w: AttentionView,
    x: Run,
    mask: Option<TensorView>,
    kept: Kept,
)
    ensures
        kept_after(w, x, 0, kept) == kept_after(w, x, 0, None),
        attended(w, x, mask, 0, kept) == attended(w, x, mask, 0, None),
{
    reveal(attended);
}

/// A call that starts a sequence keeps the positions that it has; one that goes
/// on with a sequence keeps as many positions more.
pub proof fn kept_positions(w: AttentionView, x: Run, offset: usize, kept: Kept)
    requires
        x.dims().len() == 3,
        offset + x.dims()[1] <= usize::MAX,
        offset > 0 ==> holds(kept, offset as int),
        w.rope_dim <= w.head_dim,
    ensures
        holds(Some(kept_after(w, x, offset, kept)), offset + x.dims()[1]),
{
    let k = converted(normed(kv_heads(w, x, w.k), w.k_norm), w.dtype);
    partial_rotation_keeps_dims(w, k, offset);
    if offset > 0 {
        let (k, v) = kept->0;
        lemma_joined_dim(k, new_keys(w, x, offset).view, 2);
        lemma_joined_dim(v, new_values(w, x).view, 2);
    }
}

/// Rotating a part of the dims keeps the dims of the heads.
pub proof fn partial_rotation_keeps_dims(w: AttentionView, x: Run, offset: usize)
    requires
        x.dims().len() == 4,
        w.rope_dim <= x.dims()[3],
    ensures
        partly_rotated(w, x, offset).dims() == x.dims(),
{
    let turned = rotate(w.rotary, stored(narrowed(x, 3, 0, w.rope_dim)), offset, x.dims()[2]);
    let passed = narrowed(x, 3, w.rope_dim, (x.dims()[3] - w.rope_dim) as usize);
    lemma_joined_dim(turned.view, passed.view, 3);
    assert(partly_rotated(w, x, offset).dims() =~= x.dims());
}

/// The projections and normalisations of a layer agree with its numbers of heads
/// and with rows of `hidden` elements.
pub open spec fn attention_shaped(w: AttentionView, hidden: usize) -> bool {
    &&& 2 * (w.num_heads * w.head_dim) <= usize::MAX
    &&& w.num_kv_heads * w.head_dim <= usize::MAX
    &&& w.num_kv_heads > 0
    &&& w.num_kv_heads * w.groups == w.num_heads
    &&& w.rope_dim <= w.head_dim
    &&& maps(w.q, hidden, (2 * (w.num_heads * w.head_dim)) as usize)
    &&& maps(w.k, hidden, (w.num_kv_heads * w.head_dim) as usize)
    &&& maps(w.v, hidden, (w.num_kv_heads * w.head_dim) as usize)
    &&& maps(w.o, width(w), hidden)
    &&& w.q_norm.weight.dims == seq![w.head_dim]
    &&& w.k_norm.weight.dims == seq![w.head_dim]
    &&& w.head_dim > 0
}

/// The parts of a layer agree, on the cpu, in single precision.
pub open spec fn attention_maps(w: AttentionView, hidden: usize) -> bool {
    &&& attention_shaped(w, hidden)
    &&& norms(w.q_norm, w.head_dim)
    &&& norms(w.k_norm, w.head_dim)
    &&& w.dtype == DType::F32
}

/// Keys and values, on the cpu, of `len` positions of `batch` sequences.
pub open spec fn kept_maps(w: AttentionView, kept: Kept, batch: usize, len: usize) -> bool {
    match kept {
        Some((k, v)) => {
            &&& tidy_view(k)
            &&& tidy_view(v)
            &&& k.dims == seq![batch, w.num_kv_heads, len, w.head_dim]
            &&& v.dims == k.dims
        },
        None => false,
    }
}

/// Rotating a part of heads just made is sure to succeed, where there are angles
/// for their positions.
proof fn lemma_tidy_partly_rotated(w: AttentionView, x: Run, offset: usize)
    requires
        tidy(x),
        x.view.strides == row_major(x.dims()),
        x.dims().len() == 4,
        w.rope_dim <= x.dims()[3],
        turns(w.rotary, offset + x.dims()[2], w.rope_dim),
        partly_rotated(w, x, offset).sound,
    ensures
        tidy(partly_rotated(w, x, offset)),
        partly_rotated(w, x, offset).dims() == x.dims(),
{
    let b = x.dims()[0];
    let h = x.dims()[1];
    let l = x.dims()[2];
    let d = x.dims()[3];
    let r = w.rope_dim;
    let part = narrowed(x, 3, 0, r);
    assert(w.rotary.cos.dims[1] > 0);
    assert(part.dims() =~= seq![b, h, l, r]);
    lemma_tidy_stored(part);
    rotations_are_sure(w.rotary, stored(part), offset, l);
    let turned = rotate(w.rotary, stored(part), offset, l);
    let passed = narrowed(x, 3, r, (d - r) as usize);
    lemma_passed_in_blocks(x, r);
    let parts = seq![turned.view, passed.view];
    reveal_with_fuel(slices_along, 3);
    assert(parts.drop_last() =~= seq![turned.view]);
    assert(seq![turned.view].drop_last() =~= Seq::<TensorView>::empty());
    assert(slices_along(parts, 3) == d);
    let y = joined(turned, passed, 3);
    assert(y.dims() =~= x.dims());
    assert(parts[0].dims.update(3, 0) =~= parts[1].dims.update(3, 0));
    assert(cat_sure(parts, 3)) by {
        assert(parts[0] == turned.view && parts[1] == passed.view);
    }
    assert(y.view.strides == row_major(x.dims())) by {
        assert(parts[0] == turned.view && parts[1] == passed.view);
        assert forall|i: int| 0 <= i < parts.len() implies in_rows(#[trigger] parts[i])
            || in_blocks(parts[i], 3) by {}
    }
    lemma_fresh(y);
}

/// The last elements of each row of a tensor just made lie in blocks.
proof fn lemma_passed_in_blocks(x: Run, start: usize)
    requires
        x.dims().len() == 4,
        x.view.strides == row_major(x.dims()),
        fits(x.dims()),
        start <= x.dims()[3],
    ensures
        in_blocks(narrowed(x, 3, start, (x.dims()[3] - start) as usize).view, 3),
{
    let y = narrowed(x, 3, start, (x.dims()[3] - start) as usize).view;
    lemma_row_major(x.dims());
    lemma_stride(x.dims(), 0);
    lemma_stride(x.dims(), 1);
    lemma_stride(x.dims(), 2);
    lemma_stride(x.dims(), 3);
    lemma_stride(y.dims, 3);
    let h = x.dims()[1];
    let l = x.dims()[2];
    let d = x.dims()[3];
    assert(y.strides[3] == 1);
    assert(y.strides[2] == d);
    lemma_row_count(l);
    lemma_matrix_count(h, l);
    assert(y.dims.subrange(2, 3) =~= seq![l]);
    assert(y.dims.subrange(1, 3) =~= seq![h, l]);
    assert(l * d == d * l) by (nonlinear_arith);
    assert(h * (l * d) == d * (h * l)) by (nonlinear_arith);
    assert forall|k: int| 0 <= k < 2 implies #[trigger] y.strides[k] == y.strides[2] * elem_count(
        y.dims.subrange(k + 1, 3),
    ) by {
        if k == 0 {
            assert(y.strides[0] == h * (l * d));
        } else {
            assert(y.strides[1] == l * d);
        }
    }
}

proof fn lemma_tidy_kv_heads(w: AttentionView, x: Run, weight: QTensor)
    requires
        tidy(x),
        x.dims().len() == 3,
        attention_maps(w, x.dims()[2]),
        maps(weight, x.dims()[2], (w.num_kv_heads * w.head_dim) as usize),
        kv_heads(w, x, weight).sound,
    ensures
        tidy(kv_heads(w, x, weight)),
        kv_heads(w, x, weight).dims() == seq![
            x.dims()[0],
            w.num_kv_heads,
            x.dims()[1],
            w.head_dim,
        ],
{
    let b = x.dims()[0];
    let l = x.dims()[1];
    let n = w.num_kv_heads;
    let d = w.head_dim;
    let y = through(x, weight);
    projections_are_sure(x, weight, (n * d) as usize);
    assert(y.dims() =~= seq![b, l, (n * d) as usize]);
    lemma_count3(b, l, (n * d) as usize);
    assert(b * l * (n * d) == b * l * n * d) by (nonlinear_arith);
    assert(d > 0) by {
        assert(w.q_norm.weight.dims[0] > 0);
    }
    heads_are_sure(y, b, l, n, d);
}

/// The queries and gates of a tensor that is sure to come out are sure to come
/// out.
proof fn lemma_tidy_queries(w: AttentionView, x: Run, offset: usize)
    requires
        tidy(x),
        x.dims().len() == 3,
        w.num_heads > 0,
        attention_maps(w, x.dims()[2]),
        turns(w.rotary, offset + x.dims()[1], w.rope_dim),
        queries(w, x, offset).sound,
        gates(w, x).sound,
    ensures
        tidy(queries(w, x, offset)),
        queries(w, x, offset).dims() == seq![x.dims()[0], w.num_heads, x.dims()[1], w.head_dim],
        tidy(gates(w, x)),
        gates(w, x).dims() == seq![x.dims()[0], x.dims()[1], width(w)],
{
    let b = x.dims()[0];
    let l = x.dims()[1];
    let h = w.num_heads;
    let d = w.head_dim;
    let rows = (2 * (h * d)) as usize;
    assert(d > 0) by {
        assert(w.q_norm.weight.dims[0] > 0);
    }
    let y = through(x, w.q);
    projections_are_sure(x, w.q, rows);
    assert(y.dims() =~= seq![b, l, rows]);
    lemma_count3(b, l, rows);
    assert(2 * d <= usize::MAX && 0 < h * d) by (nonlinear_arith)
        requires
            2 * (h * d) <= usize::MAX,
            h > 0,
            d > 0,
    ;
    let e = (2 * d) as usize;
    lemma_count4(b, l, h, e);
    assert(b * l * (2 * (h * d)) == b * l * h * (2 * d)) by (nonlinear_arith);
    let qg = queries_and_gates(w, x);
    lemma_tidy_reshaped(y, seq![b, l, h, e]);
    let cut = narrowed(qg, 3, 0, d);
    assert(cut.dims() =~= seq![b, l, h, d]);
    let t = transposed(cut, 1, 2);
    assert(t.dims() =~= seq![b, h, l, d]);
    lemma_tidy_stored(t);
    let q = stored(t);
    norms_are_sure(q, w.q_norm);
    lemma_tidy_partly_rotated(w, converted(normed(q, w.q_norm), w.dtype), offset);
    let rest = narrowed(qg, 3, d, d);
    assert(rest.dims() =~= seq![b, l, h, d]);
    lemma_count4(b, l, h, d);
    lemma_count3(b, l, width(w));
    assert(b * l * h * d == b * l * (h * d)) by (nonlinear_arith);
    lemma_tidy_reshaped(rest, seq![b, l, width(w)]);
}

/// The keys and values of a tensor that is sure to come out are sure to come out,
/// behind the kept ones.
proof fn lemma_tidy_keys_values(w: AttentionView, x: Run, offset: usize, kept: Kept)
    requires
        tidy(x),
        x.dims().len() == 3,
        attention_maps(w, x.dims()[2]),
        offset + x.dims()[1] <= usize::MAX,
        turns(w.rotary, offset + x.dims()[1], w.rope_dim),
        offset > 0 ==> kept_maps(w, kept, x.dims()[0], offset),
        all_keys_values(w, x, offset, kept).0.sound,
        all_keys_values(w, x, offset, kept).1.sound,
    ensures
        tidy(all_keys_values(w, x, offset, kept).0),
        tidy(all_keys_values(w, x, offset, kept).1),
        kept_maps(
            w,
            Some(kept_after(w, x, offset, kept)),
            x.dims()[0],
            (offset + x.dims()[1]) as usize,
        ),
{
    let b = x.dims()[0];
    let t = (offset + x.dims()[1]) as usize;
    let d = w.head_dim;
    let new_k = new_keys(w, x, offset);
    let new_v = new_values(w, x);
    assert(new_k.sound && new_v.sound);
    lemma_tidy_kv_heads(w, x, w.k);
    lemma_tidy_kv_heads(w, x, w.v);
    let plain = converted(normed(kv_heads(w, x, w.k), w.k_norm), w.dtype);
    norms_are_sure(kv_heads(w, x, w.k), w.k_norm);
    lemma_tidy_partly_rotated(w, plain, offset);
    if offset > 0 {
        if let Some((kc, vc)) = kept {
            assert(kc.dims =~= new_k.dims().update(2, offset));
            assert(vc.dims =~= new_v.dims().update(2, offset));
        }
    }
    kept_are_sure(kept, new_k, new_v, offset);
    let (k, v) = all_keys_values(w, x, offset, kept);
    assert(k.dims() =~= seq![b, w.num_kv_heads, t, d]);
    assert(v.dims() =~= seq![b, w.num_kv_heads, t, d]);
}

proof fn lemma_tidy_read_values(
    w: AttentionView,
    q: Run,
    k: Run,
    v: Run,
    mask: Option<TensorView>,
)
    requires
        tidy(q),
        tidy(k),
        tidy(v),
        q.dims().len() == 4,
        k.dims().len() == 4,
        v.dims() == k.dims(),
        q.dims()[0] == k.dims()[0],
        q.dims()[1] == k.dims()[1] * w.groups,
        q.dims()[3] == k.dims()[3],
        w.groups > 0,
        covers(mask, q.dims()[2], k.dims()[2]),
        read_values(w, q, k, v, mask).sound,
    ensures
        tidy(read_values(w, q, k, v, mask)),
        read_values(w, q, k, v, mask).dims() == q.dims(),
{
    repeated_heads_are_sure(k, w.groups);
    repeated_heads_are_sure(v, w.groups);
    let k = repeat_heads(k, w.groups);
    let v = repeat_heads(v, w.groups);
    lemma_tidy_stored(k);
    lemma_tidy_stored(v);
    let plain = multiplied(q, transposed(stored(k), 2, 3));
    lemma_tidy_scores(q, stored(k));
    lemma_tidy_mapped(Op::MulScalar(w.scale), plain);
    let s = mapped(Op::MulScalar(w.scale), plain);
    masks_are_sure(s, mask);
    let probs = mapped(Op::SoftmaxLastDim, masked_scores(s, mask));
    lemma_tidy_mapped(Op::SoftmaxLastDim, masked_scores(s, mask));
    lemma_tidy_product(probs, stored(v));
    assert(multiplied(probs, stored(v)).dims() =~= q.dims());
}

/// Attention from a tensor that is sure to come out is sure to succeed: on the
/// cpu, in single precision, where the dims agree, there are angles for the
/// positions, and what is kept is of the positions before. The dims stay, and
/// what is kept goes on with the positions of the call.
pub proof fn attention_is_sure(
    w: AttentionView,
    x: Run,
    mask: Option<TensorView>,
    offset: usize,
    kept: Kept,
)
    requires
        tidy(x),
        x.dims().len() == 3,
        attention_maps(w, x.dims()[2]),
        offset + x.dims()[1] <= usize::MAX,
        turns(w.rotary, offset + x.dims()[1], w.rope_dim),
        offset > 0 ==> kept_maps(w, kept, x.dims()[0], offset),
        covers(mask, x.dims()[1], (offset + x.dims()[1]) as usize),
        attended(w, x, mask, offset, kept).sound,
    ensures
        tidy(attended(w, x, mask, offset, kept)),
        attended(w, x, mask, offset, kept).dims() == x.dims(),
        kept_maps(
            w,
            Some(kept_after(w, x, offset, kept)),
            x.dims()[0],
            (offset + x.dims()[1]) as usize,
        ),
{
    reveal(attended);
    let b = x.dims()[0];
    let l = x.dims()[1];
    let h = w.num_heads;
    let d = w.head_dim;
    assert(h > 0 && w.groups > 0) by {
        if h == 0 || w.groups == 0 {
            assert(w.num_kv_heads * w.groups == 0 || h == 0) by (nonlinear_arith)
                requires
                    h == 0 || w.groups == 0,
            ;
            assert(h * d == 0) by (nonlinear_arith)
                requires
                    h == 0,
            ;
        }
    }
    let q = queries(w, x, offset);
    let (k, v) = all_keys_values(w, x, offset, kept);
    assert(q.sound && k.sound && v.sound && gates(w, x).sound);
    lemma_tidy_queries(w, x, offset);
    lemma_tidy_keys_values(w, x, offset, kept);
    lemma_tidy_read_values(w, q, k, v, mask);
    let ctx = read_values(w, q, k, v, mask);
    let swapped = transposed(ctx, 1, 2);
    assert(swapped.dims() =~= seq![b, l, h, d]);
    lemma_count4(b, l, h, d);
    lemma_count3(b, l, width(w));
    assert(b * l * h * d == b * l * (h * d)) by (nonlinear_arith);
    lemma_tidy_reshaped(swapped, seq![b, l, width(w)]);
    lemma_tidy_mapped(Op::Sigmoid, gates(w, x));
    let c = context(w, x, mask, offset, kept);
    lemma_tidy_paired(Op::Mul, c, mapped(Op::Sigmoid, gates(w, x)));
    let gated = paired(Op::Mul, c, mapped(Op::Sigmoid, gates(w, x)));
    projections_are_sure(gated, w.o, x.dims()[2]);
    assert(attended(w, x, mask, offset, kept).dims() =~= x.dims());
}

} // verus!
