//! A decoder layer: attention, a dense feedforward, and a sparse one beside it
//! where the layer has experts.

use crate::attention::{covers, mask_view, turns, Kept};
use crate::dtype::float_type;
use crate::error::ModelError;
use crate::gemma4::attention::{
    attended, attention_is_sure, attention_loads, attention_maps, attention_missing,
    attention_shaped, attention_small, kept_after, kept_maps, lemma_attended_sound,
    lemma_attended_stands, Attention, AttentionView,
};
use crate::gemma4::moe::{
    has_experts, lemma_routed_sound, lemma_routed_stands, moe_loads, moe_missing, moe_of, moe_small,
    routed, Gemma4Moe, MoeView,
};
use crate::gguf::Gguf;
use crate::mlp::{
    fed, feedforwards_are_sure, mlp_loads, mlp_maps, mlp_missing, mlp_of, mlp_small, Gate, Mlp,
    MlpView,
};
use crate::nn::{
    absent, earlier, load_error, load_norm, load_values, loaded_norms_take_rows, norm_of, normed,
    norms, norms_are_sure, own_or_none, small, tensor_at, there, values_of, NormView, RmsNorm,
    Rotary, RotaryView,
};
use crate::tensor::ops;
use crate::tensor::raw::{device_place, qtensor_dims, tensor_view};
use crate::tensor::run::{
    broadcast, comes_out, ends, given, only_if, paired, refused, reshaped, run_of, stands_for, Run,
};
use crate::tensor::sure::{lemma_fresh, lemma_nonempty_count, lemma_tidy_paired, tidy};
use crate::tensor::view::{broadcast_dims, single_on_cpu, Op, Place, TensorView};
use crate::text::{layer_name, name_of};
use candle_core::scalar::Scalar;
use candle_core::{DType, Device, Tensor};
use vstd::prelude::*;

verus! {

/// What is known of the sparse feedforward of a layer and the normalisations
/// around it.
pub struct SparseView {
    pub moe: MoeView,
    pub pre_norm: NormView,
    pub dense_norm: NormView,
    pub sparse_norm: NormView,
}

/// What is known of a layer, but for the keys and values that it keeps.
pub struct LayerView {
    pub attention: AttentionView,
    pub mlp: MlpView,
    pub input_norm: NormView,
    pub post_attention_norm: NormView,
    pub pre_feedforward_norm: NormView,
    pub post_feedforward_norm: NormView,
    /// None on layers without experts.
    pub sparse: Option<SparseView>,
    pub layer_scalar: TensorView,
}

/// The residual after attention.
pub open spec fn after_attention(
    w: LayerView,
    x: Run,
    mask: Option<TensorView>,
    offset: usize,
    kept: Kept,
) -> Run {
    let y = attended(w.attention, normed(x, w.input_norm), mask, offset, kept);
    paired(Op::Add, x, normed(y, w.post_attention_norm))
}

/// A residual with a row for each token.
pub open spec fn token_rows(x: Run, residual: Run) -> Run {
    let tokens = residual.dims()[0] * residual.dims()[1];
    reshaped(
        only_if(x, tokens <= usize::MAX),
        seq![tokens as usize, residual.dims()[2]],
    )
}

/// The sum of the dense and the sparse feedforward of a residual, each
/// normalised. The router reads the residual itself.
pub open spec fn with_sparse(s: SparseView, x: Run, dense: Run, is_prefill: bool) -> Run {
    let out = routed(
        s.moe,
        token_rows(x, x),
        token_rows(normed(x, s.pre_norm), x),
        is_prefill,
    );
    only_if(
        paired(
            Op::Add,
            normed(dense, s.dense_norm),
            normed(reshaped(out, x.dims()), s.sparse_norm),
        ),
        x.dims().len() == 3 && x.dims()[2] != 0,
    )
}

/// The two feedforwards of a residual: the dense one, or both.
pub open spec fn combined(w: LayerView, x: Run, is_prefill: bool) -> Run {
    let dense = fed(w.mlp, normed(x, w.pre_feedforward_norm));
    match w.sparse {
        None => dense,
        Some(s) => with_sparse(s, x, dense, is_prefill),
    }
}

/// The output of a layer for the residual after attention.
pub open spec fn after_feedforward(w: LayerView, x: Run, is_prefill: bool) -> Run {
    let y = paired(Op::Add, x, normed(combined(w, x, is_prefill), w.post_feedforward_norm));
    broadcast(Op::BroadcastMul, y, given(w.layer_scalar))
}

/// The output of a layer.
#[verifier::opaque]
pub open spec fn layer_output(
    w: LayerView,
    x: Run,
    mask: Option<TensorView>,
    offset: usize,
    kept: Kept,
    is_prefill: bool,
) -> Run {
    after_feedforward(w, after_attention(w, x, mask, offset, kept), is_prefill)
}

/// The error of a run through layers: on the cpu the shares of the experts, where
/// there are any, may have no order.
pub open spec fn failed_layer(e: ModelError, run: Run, experts: bool) -> bool {
    &&& refused(e, run.sound) || (e is Unordered && experts && run.place() == Place::Cpu)
    &&& !run.certain()
}

/// The outcome of a run through a layer.
pub open spec fn ends_layer(r: Result<Tensor, ModelError>, run: Run, experts: bool) -> bool {
    match r {
        Ok(t) => comes_out(t, run),
        Err(e) => failed_layer(e, run, experts),
    }
}

/// The keys and values that a layer keeps after a call.
#[verifier::opaque]
pub open spec fn layer_kept(w: LayerView, x: Run, offset: usize, kept: Kept) -> (
    TensorView,
    TensorView,
) {
    kept_after(w.attention, normed(x, w.input_norm), offset, kept)
}

/// The feedforwards of a given residual stand for those of the run that it came
/// out of.
pub proof fn lemma_feedforward_stands(w: LayerView, a: Run, b: Run, is_prefill: bool)
    requires
        stands_for(a, b),
    ensures
        stands_for(after_feedforward(w, a, is_prefill), after_feedforward(w, b, is_prefill)),
{
    if let Some(s) = w.sparse {
        lemma_routed_stands(
            s.moe,
            token_rows(a, a),
            token_rows(b, b),
            token_rows(normed(a, s.pre_norm), a),
            token_rows(normed(b, s.pre_norm), b),
            is_prefill,
        );
    }
}

/// A layer for a given residual stands for the layer for the run that it came
/// out of.
pub proof fn lemma_layer_stands(
    w: LayerView,
    a: Run,
    b: Run,
    mask: Option<TensorView>,
    offset: usize,
    kept: Kept,
    is_prefill: bool,
)
    requires
        stands_for(a, b),
    ensures
        stands_for(
            layer_output(w, a, mask, offset, kept, is_prefill),
            layer_output(w, b, mask, offset, kept, is_prefill),
        ),
        layer_kept(w, a, offset, kept) == layer_kept(w, b, offset, kept),
{
    reveal(layer_output);
    reveal(layer_kept);
    lemma_attended_stands(
        w.attention,
        normed(a, w.input_norm),
        normed(b, w.input_norm),
        mask,
        offset,
        kept,
    );
    lemma_feedforward_stands(
        w,
        after_attention(w, a, mask, offset, kept),
        after_attention(w, b, mask, offset, kept),
        is_prefill,
    );
}

/// A layer lays its scale over the residual, which stays where it is, and is
/// sound, and sure, only where the run up to it is. With experts it is never
/// sure.
pub proof fn lemma_layer_output(
    w: LayerView,
    x: Run,
    mask: Option<TensorView>,
    offset: usize,
    kept: Kept,
    is_prefill: bool,
)
    ensures
        layer_output(w, x, mask, offset, kept, is_prefill).dims() == broadcast_dims(
            x.dims(),
            w.layer_scalar.dims,
        ),
        layer_output(w, x, mask, offset, kept, is_prefill).place() == x.place(),
        layer_output(w, x, mask, offset, kept, is_prefill).sound ==> x.sound,
        layer_output(w, x, mask, offset, kept, is_prefill).sure ==> x.sure && w.sparse is None,
{
    reveal(layer_output);
    let residual = after_attention(w, x, mask, offset, kept);
    if let Some(s) = w.sparse {
        lemma_routed_sound(
            s.moe,
            token_rows(residual, residual),
            token_rows(normed(residual, s.pre_norm), residual),
            is_prefill,
        );
    }
}

/// The settings of a layer.
pub struct LayerSettings {
    pub n_head: usize,
    pub n_kv_head: usize,
    pub head_dim: usize,
    pub moe_inter: usize,
    pub num_experts_per_tok: usize,
    pub eps: Scalar,
    pub scalar_root_size: Scalar,
    pub dtype: DType,
}

/// The first normalisation missing around the experts of layer `i`.
pub open spec fn sparse_norms_missing(gg: &Gguf, i: nat) -> Option<Seq<char>> {
    if has_experts(gg, i) {
        earlier(
            absent(gg, layer_name(i, ".pre_ffw_norm_2.weight"@)),
            earlier(
                absent(gg, layer_name(i, ".post_ffw_norm_1.weight"@)),
                absent(gg, layer_name(i, ".post_ffw_norm_2.weight"@)),
            ),
        )
    } else {
        None
    }
}

/// The first tensor missing for layer `i`.
pub open spec fn layer_missing(gg: &Gguf, i: nat) -> Option<Seq<char>> {
    earlier(
        attention_missing(gg, i),
        earlier(
            mlp_missing(gg, i),
            earlier(
                absent(gg, layer_name(i, ".attn_norm.weight"@)),
                earlier(
                    absent(gg, layer_name(i, ".post_attention_norm.weight"@)),
                    earlier(
                        absent(gg, layer_name(i, ".ffn_norm.weight"@)),
                        earlier(
                            absent(gg, layer_name(i, ".post_ffw_norm.weight"@)),
                            earlier(
                                moe_missing(gg, i),
                                earlier(
                                    sparse_norms_missing(gg, i),
                                    absent(gg, layer_name(i, ".layer_output_scale.weight"@)),
                                ),
                            ),
                        ),
                    ),
                ),
            ),
        ),
    )
}

/// The normalisations around the experts of layer `i` are sure to be loaded, or
/// there are no experts.
pub open spec fn sparse_norms_load(gg: &Gguf, i: nat) -> bool {
    has_experts(gg, i) ==> {
        &&& there(gg, layer_name(i, ".pre_ffw_norm_2.weight"@))
        &&& there(gg, layer_name(i, ".post_ffw_norm_1.weight"@))
        &&& there(gg, layer_name(i, ".post_ffw_norm_2.weight"@))
    }
}

/// The normalisations around the experts of layer `i` that are there are small,
/// or there are no experts.
pub open spec fn sparse_norms_small(gg: &Gguf, i: nat) -> bool {
    has_experts(gg, i) ==> {
        &&& small(gg, layer_name(i, ".pre_ffw_norm_2.weight"@))
        &&& small(gg, layer_name(i, ".post_ffw_norm_1.weight"@))
        &&& small(gg, layer_name(i, ".post_ffw_norm_2.weight"@))
    }
}

/// The tensors for layer `i` that are there are small.
pub open spec fn layer_small(gg: &Gguf, i: nat) -> bool {
    &&& attention_small(gg, i)
    &&& mlp_small(gg, i)
    &&& small(gg, layer_name(i, ".attn_norm.weight"@))
    &&& small(gg, layer_name(i, ".post_attention_norm.weight"@))
    &&& small(gg, layer_name(i, ".ffn_norm.weight"@))
    &&& small(gg, layer_name(i, ".post_ffw_norm.weight"@))
    &&& moe_small(gg, i)
    &&& sparse_norms_small(gg, i)
    &&& small(gg, layer_name(i, ".layer_output_scale.weight"@))
}

/// The tensors for layer `i` are sure to be loaded.
pub open spec fn layer_loads(gg: &Gguf, i: nat, dtype: DType, place: Place) -> bool {
    &&& attention_loads(gg, i)
    &&& mlp_loads(gg, i)
    &&& there(gg, layer_name(i, ".attn_norm.weight"@))
    &&& there(gg, layer_name(i, ".post_attention_norm.weight"@))
    &&& there(gg, layer_name(i, ".ffn_norm.weight"@))
    &&& there(gg, layer_name(i, ".post_ffw_norm.weight"@))
    &&& moe_loads(gg, i, place)
    &&& sparse_norms_load(gg, i)
    &&& there(gg, layer_name(i, ".layer_output_scale.weight"@))
    &&& place == Place::Cpu
    &&& float_type(dtype)
}

/// The layer is layer `i` of a file. The values' own projection is the one of
/// the file, or none.
pub open spec fn is_layer_of(
    w: LayerView,
    gg: &Gguf,
    i: nat,
    s: LayerSettings,
    rotary: RotaryView,
    place: Place,
) -> bool {
    &&& w.attention.q == tensor_at(gg, layer_name(i, ".attn_q.weight"@))
    &&& w.attention.k == tensor_at(gg, layer_name(i, ".attn_k.weight"@))
    &&& own_or_none(w.attention.v, gg, layer_name(i, ".attn_v.weight"@))
    &&& w.attention.o == tensor_at(gg, layer_name(i, ".attn_output.weight"@))
    &&& w.attention.q_norm == norm_of(
        tensor_at(gg, layer_name(i, ".attn_q_norm.weight"@)),
        s.eps,
    )
    &&& w.attention.k_norm == norm_of(
        tensor_at(gg, layer_name(i, ".attn_k_norm.weight"@)),
        s.eps,
    )
    &&& w.attention.n_head == s.n_head
    &&& w.attention.n_kv_head == s.n_kv_head
    &&& w.attention.head_dim == s.head_dim
    &&& w.attention.groups == s.n_head / s.n_kv_head
    &&& w.attention.eps == s.eps
    &&& w.attention.rotary == rotary
    &&& w.attention.dtype == s.dtype
    &&& w.mlp == mlp_of(gg, i, Gate::Gelu)
    &&& w.input_norm == norm_of(tensor_at(gg, layer_name(i, ".attn_norm.weight"@)), s.eps)
    &&& w.post_attention_norm == norm_of(
        tensor_at(gg, layer_name(i, ".post_attention_norm.weight"@)),
        s.eps,
    )
    &&& w.pre_feedforward_norm == norm_of(
        tensor_at(gg, layer_name(i, ".ffn_norm.weight"@)),
        s.eps,
    )
    &&& w.post_feedforward_norm == norm_of(
        tensor_at(gg, layer_name(i, ".post_ffw_norm.weight"@)),
        s.eps,
    )
    &&& w.sparse == sparse_of(gg, i, s, place)
    &&& w.layer_scalar == values_of(
        tensor_at(gg, layer_name(i, ".layer_output_scale.weight"@)),
        place,
        s.dtype,
    )
}

/// The sparse feedforward of layer `i` of a file with its normalisations.
pub open spec fn sparse_of(gg: &Gguf, i: nat, s: LayerSettings, place: Place) -> Option<
    SparseView,
> {
    if has_experts(gg, i) {
        Some(
            SparseView {
                moe: moe_of(
                    gg,
                    i,
                    s.scalar_root_size,
                    s.eps,
                    s.moe_inter,
                    s.num_experts_per_tok,
                    s.dtype,
                    place,
                ),
                pre_norm: norm_of(
                    tensor_at(gg, layer_name(i, ".pre_ffw_norm_2.weight"@)),
                    s.eps,
                ),
                dense_norm: norm_of(
                    tensor_at(gg, layer_name(i, ".post_ffw_norm_1.weight"@)),
                    s.eps,
                ),
                sparse_norm: norm_of(
                    tensor_at(gg, layer_name(i, ".post_ffw_norm_2.weight"@)),
                    s.eps,
                ),
            },
        )
    } else {
        None
    }
}

/// The sparse feedforward of a layer and the normalisations around it.
pub struct Sparse {
    moe: Gemma4Moe,
    pre_norm: RmsNorm,
    dense_norm: RmsNorm,
    sparse_norm: RmsNorm,
}

impl Sparse {
    pub closed spec fn view(&self) -> SparseView {
        SparseView {
            moe: self.moe@,
            pre_norm: self.pre_norm@,
            dense_norm: self.dense_norm@,
            sparse_norm: self.sparse_norm@,
        }
    }

    /// The sum of the dense and the sparse feedforward of a residual.
    fn combine(&self, x: &Tensor, dense: &Tensor, is_prefill: bool) -> (r: Result<
        Tensor,
        ModelError,
    >)
        requires
            tensor_view(*dense).place == tensor_view(*x).place,
        ensures
            ends_layer(r, with_sparse(self@, run_of(*x), run_of(*dense), is_prefill), true),
    {
        proof {
            lemma_routed_sound(
                self@.moe,
                token_rows(run_of(*x), run_of(*x)),
                token_rows(normed(run_of(*x), self@.pre_norm), run_of(*x)),
                is_prefill,
            );
        }
        let (b, seq_len, hidden) = ops::dims3(x)?;
        let dense1 = self.dense_norm.forward(dense)?;
        if hidden == 0 {
            return Err(ModelError::Uneven);
        }
        let rows = match b.checked_mul(seq_len) {
            Some(n) => n,
            None => return Err(ModelError::TooLarge),
        };
        let router_in = ops::reshape2(x, rows, hidden)?;
        let expert_in = ops::reshape2(&self.pre_norm.forward(x)?, rows, hidden)?;
        proof {
            lemma_routed_stands(
                self@.moe,
                run_of(router_in),
                token_rows(run_of(*x), run_of(*x)),
                run_of(expert_in),
                token_rows(normed(run_of(*x), self@.pre_norm), run_of(*x)),
                is_prefill,
            );
        }
        let out = self.moe.forward(&router_in, &expert_in, is_prefill)?;
        let out = ops::reshape3(&out, b, seq_len, hidden)?;
        let moe2 = self.sparse_norm.forward(&out)?;
        ops::plus(&dense1, &moe2)
    }
}

/// A decoder layer.
pub struct DecoderLayer {
    self_attn: Attention,
    mlp: Mlp,
    input_layernorm: RmsNorm,
    post_attention_layernorm: RmsNorm,
    pre_feedforward_layernorm: RmsNorm,
    post_feedforward_layernorm: RmsNorm,
    sparse: Option<Sparse>,
    layer_scalar: Tensor,
}

impl DecoderLayer {
    pub closed spec fn view(&self) -> LayerView {
        LayerView {
            attention: self.self_attn@,
            mlp: self.mlp@,
            input_norm: self.input_layernorm@,
            post_attention_norm: self.post_attention_layernorm@,
            pre_feedforward_norm: self.pre_feedforward_layernorm@,
            post_feedforward_norm: self.post_feedforward_layernorm@,
            sparse: match self.sparse {
                Some(s) => Some(s@),
                None => None,
            },
            layer_scalar: tensor_view(self.layer_scalar),
        }
    }

    /// The keys and values kept from earlier calls.
    pub closed spec fn kept(&self) -> Kept {
        self.self_attn.kept()
    }

    /// Reads the experts of layer `i` and the normalisations around them.
    fn load_sparse(gg: &Gguf, i: usize, s: &LayerSettings, device: &Device) -> (r: Result<
        Option<Sparse>,
        ModelError,
    >)
        ensures
            match r {
                Ok(sparse) => {
                    &&& moe_missing(gg, i as nat) is None
                    &&& sparse_norms_missing(gg, i as nat) is None
                    &&& sparse is Some == has_experts(gg, i as nat)
                    &&& sparse is Some ==> Some(sparse->0@) == sparse_of(
                        gg,
                        i as nat,
                        *s,
                        device_place(*device),
                    )
                },
                Err(e) => {
                    &&& load_error(
                        e,
                        moe_small(gg, i as nat) && sparse_norms_small(gg, i as nat),
                        earlier(moe_missing(gg, i as nat), sparse_norms_missing(gg, i as nat)),
                    )
                    &&& !moe_loads(gg, i as nat, device_place(*device)) || !sparse_norms_load(
                        gg,
                        i as nat,
                    )
                },
            },
    {
        let moe = Gemma4Moe::load(
            gg,
            i,
            s.scalar_root_size,
            s.eps,
            s.moe_inter,
            s.num_experts_per_tok,
            s.dtype,
            device,
        )?;
        match moe {
            None => Ok(None),
            Some(moe) => {
                let pre_norm = load_norm(gg, &name_of(i, ".pre_ffw_norm_2.weight"), s.eps)?;
                let dense_norm = load_norm(gg, &name_of(i, ".post_ffw_norm_1.weight"), s.eps)?;
                let sparse_norm = load_norm(gg, &name_of(i, ".post_ffw_norm_2.weight"), s.eps)?;
                Ok(Some(Sparse { moe, pre_norm, dense_norm, sparse_norm }))
            },
        }
    }

    /// Reads layer `i`.
    pub fn load(gg: &Gguf, i: usize, s: &LayerSettings, rotary_emb: Rotary, device: &Device) -> (r:
        Result<DecoderLayer, ModelError>)
        requires
            s.n_kv_head != 0,
        ensures
            match r {
                Ok(l) => {
                    &&& layer_missing(gg, i as nat) is None
                    &&& l.kept() is None
                    &&& is_layer_of(
                        l@,
                        gg,
                        i as nat,
                        *s,
                        rotary_emb@,
                        device_place(*device),
                    )
                },
                Err(e) => {
                    &&& load_error(e, layer_small(gg, i as nat), layer_missing(gg, i as nat))
                    &&& !layer_loads(gg, i as nat, s.dtype, device_place(*device))
                },
            },
    {
        let self_attn = Attention::load(
            gg,
            i,
            s.n_head,
            s.n_kv_head,
            s.head_dim,
            s.eps,
            rotary_emb,
            s.dtype,
        )?;
        let mlp = Mlp::load(gg, i, Gate::Gelu)?;
        let input_layernorm = load_norm(gg, &name_of(i, ".attn_norm.weight"), s.eps)?;
        let post_attention_layernorm = load_norm(
            gg,
            &name_of(i, ".post_attention_norm.weight"),
            s.eps,
        )?;
        let pre_feedforward_layernorm = load_norm(gg, &name_of(i, ".ffn_norm.weight"), s.eps)?;
        let post_feedforward_layernorm = load_norm(
            gg,
            &name_of(i, ".post_ffw_norm.weight"),
            s.eps,
        )?;
        let sparse = Self::load_sparse(gg, i, s, device)?;
        let layer_scalar = load_values(
            gg,
            &name_of(i, ".layer_output_scale.weight"),
            device,
            s.dtype,
        )?;
        Ok(
            DecoderLayer {
                self_attn,
                mlp,
                input_layernorm,
                post_attention_layernorm,
                pre_feedforward_layernorm,
                post_feedforward_layernorm,
                sparse,
                layer_scalar,
            },
        )
    }

    /// The residual after attention.
    pub fn forward_attn(&mut self, x: &Tensor, mask: Option<&Tensor>, offset: usize) -> (r: Result<
        Tensor,
        ModelError,
    >)
        ensures
            final(self)@ == old(self)@,
            tensor_view(*x).dims.len() != 3 ==> r is Err && final(self).kept() == old(self).kept(),
            match r {
                Ok(_) => final(self).kept() == Some(
                    layer_kept(old(self)@, run_of(*x), offset, old(self).kept()),
                ),
                Err(_) => final(self).kept() == old(self).kept() || final(self).kept() == Some(
                    layer_kept(old(self)@, run_of(*x), offset, old(self).kept()),
                ),
            },
            ends(
                r,
                after_attention(
                    old(self)@,
                    run_of(*x),
                    mask_view(mask),
                    offset,
                    old(self).kept(),
                ),
            ),
    {
        proof {
            reveal(layer_kept);
            lemma_attended_sound(
                self@.attention,
                normed(run_of(*x), self@.input_norm),
                mask_view(mask),
                offset,
                self.kept(),
            );
        }
        let h = self.input_layernorm.forward(x)?;
        proof {
            lemma_attended_stands(
                self@.attention,
                run_of(h),
                normed(run_of(*x), self@.input_norm),
                mask_view(mask),
                offset,
                self.kept(),
            );
        }
        let h = self.self_attn.forward(&h, mask, offset)?;
        let h = self.post_attention_layernorm.forward(&h)?;
        ops::plus(x, &h)
    }

    /// The output of the layer for the residual after attention.
    fn feed_forward(&self, x: &Tensor, is_prefill: bool) -> (r: Result<Tensor, ModelError>)
        ensures
            ends_layer(r, after_feedforward(self@, run_of(*x), is_prefill), self@.sparse is Some),
    {
        let dense = self.mlp.forward(&self.pre_feedforward_layernorm.forward(x)?)?;
        let combined = match &self.sparse {
            None => dense,
            Some(s) => s.combine(x, &dense, is_prefill)?,
        };
        let combined = self.post_feedforward_layernorm.forward(&combined)?;
        let y = ops::plus(x, &combined)?;
        ops::broadcast_mul(&y, &self.layer_scalar)
    }

    /// The output of the layer. A failed call may have kept its keys and
    /// values already.
    pub fn forward(
        &mut self,
        x: &Tensor,
        mask: Option<&Tensor>,
        offset: usize,
        is_prefill: bool,
    ) -> (r: Result<Tensor, ModelError>)
        ensures
            final(self)@ == old(self)@,
            tensor_view(*x).dims.len() != 3 ==> r is Err && final(self).kept() == old(self).kept(),
            match r {
                Ok(_) => final(self).kept() == Some(
                    layer_kept(old(self)@, run_of(*x), offset, old(self).kept()),
                ),
                Err(_) => final(self).kept() == old(self).kept() || final(self).kept() == Some(
                    layer_kept(old(self)@, run_of(*x), offset, old(self).kept()),
                ),
            },
            ends_layer(
                r,
                layer_output(
                    old(self)@,
                    run_of(*x),
                    mask_view(mask),
                    offset,
                    old(self).kept(),
                    is_prefill,
                ),
                old(self)@.sparse is Some,
            ),
    {
        proof {
            reveal(layer_output);
        }
        let residual = self.forward_attn(x, mask, offset)?;
        proof {
            lemma_feedforward_stands(
                self@,
                run_of(residual),
                after_attention(old(self)@, run_of(*x), mask_view(mask), offset, old(self).kept()),
                is_prefill,
            );
        }
        self.feed_forward(&residual, is_prefill)
    }

    /// Forgets the kept keys and values.
    pub fn clear_kv_cache(&mut self)
        ensures
            final(self)@ == old(self)@,
            final(self).kept() is None,
    {
        self.self_attn.clear_kv_cache();
    }
}

/// The parts of a layer without experts agree with rows of `hidden` elements, and
/// its scale is one number.
pub open spec fn layer_shaped(w: LayerView, hidden: usize) -> bool {
    &&& attention_shaped(w.attention, hidden)
    &&& mlp_maps(w.mlp, hidden, qtensor_dims(w.mlp.gate)[0])
    &&& w.input_norm.weight.dims == seq![hidden]
    &&& w.post_attention_norm.weight.dims == seq![hidden]
    &&& w.pre_feedforward_norm.weight.dims == seq![hidden]
    &&& w.post_feedforward_norm.weight.dims == seq![hidden]
    &&& w.sparse is None
    &&& w.layer_scalar.dims == seq![1usize]
}

/// The parts of a layer agree, on the cpu, in single precision.
pub open spec fn layer_maps(w: LayerView, hidden: usize) -> bool {
    &&& layer_shaped(w, hidden)
    &&& attention_maps(w.attention, hidden)
    &&& norms(w.input_norm, hidden)
    &&& norms(w.post_attention_norm, hidden)
    &&& norms(w.pre_feedforward_norm, hidden)
    &&& norms(w.post_feedforward_norm, hidden)
    &&& single_on_cpu(w.layer_scalar)
}

/// A layer that was read on the cpu, in single precision, and whose dims agree,
/// can be run there.
pub proof fn loaded_layers_map(
    w: LayerView,
    gg: &Gguf,
    i: nat,
    s: LayerSettings,
    rotary: RotaryView,
    hidden: usize,
)
    requires
        is_layer_of(w, gg, i, s, rotary, Place::Cpu),
        layer_loads(gg, i, s.dtype, Place::Cpu),
        s.dtype == DType::F32,
        layer_shaped(w, hidden),
        hidden > 0,
    ensures
        layer_maps(w, hidden),
{
    let d = w.attention.head_dim;
    loaded_norms_take_rows(tensor_at(gg, layer_name(i, ".attn_q_norm.weight"@)), s.eps, d);
    loaded_norms_take_rows(tensor_at(gg, layer_name(i, ".attn_k_norm.weight"@)), s.eps, d);
    loaded_norms_take_rows(tensor_at(gg, layer_name(i, ".attn_norm.weight"@)), s.eps, hidden);
    loaded_norms_take_rows(
        tensor_at(gg, layer_name(i, ".post_attention_norm.weight"@)),
        s.eps,
        hidden,
    );
    loaded_norms_take_rows(tensor_at(gg, layer_name(i, ".ffn_norm.weight"@)), s.eps, hidden);
    loaded_norms_take_rows(tensor_at(gg, layer_name(i, ".post_ffw_norm.weight"@)), s.eps, hidden);
}

/// A layer without experts is sure to succeed for a residual that is sure to come
/// out: on the cpu, in single precision, where the dims agree, there are angles
/// for the positions, and what is kept is of the positions before.
pub proof fn layers_are_sure(
    w: LayerView,
    x: Run,
    mask: Option<TensorView>,
    offset: usize,
    kept: Kept,
    is_prefill: bool,
)
    requires
        tidy(x),
        x.dims().len() == 3,
        layer_maps(w, x.dims()[2]),
        offset + x.dims()[1] <= usize::MAX,
        turns(w.attention.rotary, offset + x.dims()[1], w.attention.head_dim),
        offset > 0 ==> kept_maps(w.attention, kept, x.dims()[0], offset),
        covers(mask, x.dims()[1], (offset + x.dims()[1]) as usize),
        layer_output(w, x, mask, offset, kept, is_prefill).sound,
    ensures
        tidy(layer_output(w, x, mask, offset, kept, is_prefill)),
        layer_output(w, x, mask, offset, kept, is_prefill).dims() == x.dims(),
        kept_maps(
            w.attention,
            Some(layer_kept(w, x, offset, kept)),
            x.dims()[0],
            (offset + x.dims()[1]) as usize,
        ),
{
    reveal(layer_output);
    reveal(layer_kept);
    norms_are_sure(x, w.input_norm);
    let h = normed(x, w.input_norm);
    attention_is_sure(w.attention, h, mask, offset, kept);
    let y = attended(w.attention, h, mask, offset, kept);
    norms_are_sure(y, w.post_attention_norm);
    lemma_tidy_paired(Op::Add, x, normed(y, w.post_attention_norm));
    let residual = after_attention(w, x, mask, offset, kept);
    norms_are_sure(residual, w.pre_feedforward_norm);
    let fed_in = normed(residual, w.pre_feedforward_norm);
    feedforwards_are_sure(w.mlp, fed_in, qtensor_dims(w.mlp.gate)[0]);
    let dense = fed(w.mlp, fed_in);
    norms_are_sure(dense, w.post_feedforward_norm);
    lemma_tidy_paired(Op::Add, residual, normed(dense, w.post_feedforward_norm));
    let sum = paired(Op::Add, residual, normed(dense, w.post_feedforward_norm));
    lemma_tidy_scaled(sum, w.layer_scalar);
}

proof fn lemma_tidy_scaled(x: Run, scale: TensorView)
    requires
        tidy(x),
        x.dims().len() > 0,
        single_on_cpu(scale),
        scale.dims == seq![1usize],
    ensures
        tidy(broadcast(Op::BroadcastMul, x, given(scale))),
        broadcast(Op::BroadcastMul, x, given(scale)).dims() == x.dims(),
{
    assert(broadcast_dims(x.dims(), scale.dims) =~= x.dims());
    lemma_nonempty_count(x.dims());
    lemma_fresh(broadcast(Op::BroadcastMul, x, given(scale)));
}

} // verus!
