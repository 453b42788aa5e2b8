//! A decoder layer: a token mixer and a feedforward.

use crate::attention::{covers, mask_view, turns, Kept};
use crate::error::ModelError;
use crate::gguf::Gguf;
use crate::mlp::{
    fed, feedforwards_are_sure, mlp_loads, mlp_maps, mlp_missing, mlp_of, mlp_small, Gate, Mlp,
    MlpView,
};
use crate::nn::{
    absent, earlier, load_error, load_norm, loaded_angles_turn, loaded_norms_take_rows, norm_of,
    normed, norms, norms_are_sure, rotary_loads, rotary_of, rotary_sound, small, tensor_at, there,
    NormView, RmsNorm, Rotary, RotaryView,
};
use crate::qwen35::attention::{
    attended, attention_is_sure, attention_loads, attention_maps, attention_missing, attention_of,
    attention_shaped, attention_small, fresh_start_ignores_kept, kept_after, kept_maps,
    lemma_attended_sound, lemma_attended_stands, AttentionSettings, AttentionView, GatedAttention,
};
use crate::tensor::ops;
use crate::tensor::raw::{device_place, qtensor_dims, tensor_view};
use crate::tensor::run::{ends, paired, run_of, stands_for, zeros_like, Run};
use crate::tensor::sure::{lemma_fresh, lemma_tidy_paired, tidy};
use crate::tensor::view::{Op, Place, TensorView};
use crate::text::{layer_name, name_of};
use candle_core::{DType, Device, Tensor};
use vstd::prelude::*;

verus! {

/// What is known of a layer, but for the keys and values that it keeps.
pub struct LayerView {
    pub input_norm: NormView,
    /// None on the layers that mix no tokens.
    pub attention: Option<AttentionView>,
    pub post_attention_norm: NormView,
    pub mlp: MlpView,
}

/// What the token mixer adds to the residual: attention, or zeros.
pub open spec fn token_mix(
    w: LayerView,
    h: Run,
    mask: Option<TensorView>,
    offset: usize,
    kept: Kept,
) -> Run {
    match w.attention {
        Some(a) => attended(a, h, mask, offset, kept),
        None => zeros_like(h),
    }
}

/// The output of a layer.
#[verifier::opaque]
pub open spec fn layer_output(
    w: LayerView,
    x: Run,
    mask: Option<TensorView>,
    offset: usize,
    kept: Kept,
) -> Run {
    let mixed = paired(Op::Add, x, token_mix(w, normed(x, w.input_norm), mask, offset, kept));
    paired(Op::Add, mixed, fed(w.mlp, normed(mixed, w.post_attention_norm)))
}

/// What a layer keeps after a call: nothing where it mixes no tokens.
#[verifier::opaque]
pub open spec fn layer_kept(w: LayerView, x: Run, offset: usize, kept: Kept) -> Kept {
    match w.attention {
        Some(a) => Some(kept_after(a, normed(x, w.input_norm), offset, kept)),
        None => kept,
    }
}

/// The first tensor missing for layer `i`, with or without attention.
pub open spec fn layer_missing(gg: &Gguf, i: nat, attends: bool) -> Option<Seq<char>> {
    earlier(
        absent(gg, layer_name(i, ".attn_norm.weight"@)),
        earlier(
            absent(gg, layer_name(i, ".post_attention_norm.weight"@)),
            earlier(
                if attends {
                    attention_missing(gg, i)
                } else {
                    None
                },
                mlp_missing(gg, i),
            ),
        ),
    )
}

/// Each step towards layer `i` is one that the operations take.
pub open spec fn layer_sound(
    gg: &Gguf,
    i: nat,
    attends: bool,
    inv_freq: TensorView,
    dtype: DType,
    max_seq_len: u32,
    place: Place,
) -> bool {
    &&& small(gg, layer_name(i, ".attn_norm.weight"@))
    &&& small(gg, layer_name(i, ".post_attention_norm.weight"@))
    &&& attends ==> attention_small(gg, i) && rotary_sound(inv_freq, dtype, max_seq_len, place)
    &&& mlp_small(gg, i)
}

/// Layer `i` is sure to be loaded.
pub open spec fn layer_loads(
    gg: &Gguf,
    i: nat,
    attends: bool,
    inv_freq: TensorView,
    dtype: DType,
    max_seq_len: u32,
    place: Place,
) -> bool {
    &&& there(gg, layer_name(i, ".attn_norm.weight"@))
    &&& there(gg, layer_name(i, ".post_attention_norm.weight"@))
    &&& attends ==> attention_loads(gg, i) && rotary_loads(inv_freq, dtype, max_seq_len, place)
    &&& mlp_loads(gg, i)
}

/// Layer `i` in a file, with or without attention.
pub open spec fn layer_of(
    gg: &Gguf,
    i: nat,
    attends: bool,
    s: AttentionSettings,
    rotary: RotaryView,
) -> LayerView {
    LayerView {
        input_norm: norm_of(tensor_at(gg, layer_name(i, ".attn_norm.weight"@)), s.eps),
        attention: if attends {
            Some(attention_of(gg, i, s, rotary))
        } else {
            None
        },
        post_attention_norm: norm_of(
            tensor_at(gg, layer_name(i, ".post_attention_norm.weight"@)),
            s.eps,
        ),
        mlp: mlp_of(gg, i, Gate::Silu),
    }
}

/// The token mixer of a layer.
pub enum TokenMixer {
    Attn(GatedAttention),
    LinearStub,
}

/// A decoder layer.
pub struct DecoderLayer {
    input_layernorm: RmsNorm,
    mixer: TokenMixer,
    post_attention_layernorm: RmsNorm,
    mlp: Mlp,
}

impl DecoderLayer {
    pub closed spec fn view(&self) -> LayerView {
        LayerView {
            input_norm: self.input_layernorm@,
            attention: match self.mixer {
                TokenMixer::Attn(a) => Some(a@),
                TokenMixer::LinearStub => None,
            },
            post_attention_norm: self.post_attention_layernorm@,
            mlp: self.mlp@,
        }
    }

    /// The keys and values kept from earlier calls.
    pub closed spec fn kept(&self) -> Kept {
        match self.mixer {
            TokenMixer::Attn(a) => a.kept(),
            TokenMixer::LinearStub => None,
        }
    }

    /// Reads layer `i`, with or without attention. The rotary embedding is
    /// made from the inverse frequencies for attention alone.
    pub fn load(
        gg: &Gguf,
        i: usize,
        attends: bool,
        s: &AttentionSettings,
        inv_freq: &Tensor,
        max_seq_len: u32,
        device: &Device,
    ) -> (r: Result<DecoderLayer, ModelError>)
        requires
            attends ==> s.num_kv_heads != 0,
        ensures
            match r {
                Ok(l) => {
                    &&& layer_missing(gg, i as nat, attends) is None
                    &&& l.kept() is None
                    &&& l@ == layer_of(
                        gg,
                        i as nat,
                        attends,
                        *s,
                        rotary_of(
                            tensor_view(*inv_freq),
                            s.dtype,
                            max_seq_len,
                            device_place(*device),
                        ),
                    )
                },
                Err(e) => {
                    &&& load_error(
                        e,
                        layer_sound(
                            gg,
                            i as nat,
                            attends,
                            tensor_view(*inv_freq),
                            s.dtype,
                            max_seq_len,
                            device_place(*device),
                        ),
                        layer_missing(gg, i as nat, attends),
                    )
                    &&& !layer_loads(
                        gg,
                        i as nat,
                        attends,
                        tensor_view(*inv_freq),
                        s.dtype,
                        max_seq_len,
                        device_place(*device),
                    )
                },
            },
    {
        let input_layernorm = load_norm(gg, &name_of(i, ".attn_norm.weight"), s.eps)?;
        let post_attention_layernorm = load_norm(
            gg,
            &name_of(i, ".post_attention_norm.weight"),
            s.eps,
        )?;
        let mixer = if attends {
            let rotary_emb = Rotary::from_inv_freq(inv_freq, s.dtype, max_seq_len, device)?;
            TokenMixer::Attn(GatedAttention::load(gg, i, s, rotary_emb)?)
        } else {
            TokenMixer::LinearStub
        };
        let mlp = Mlp::load(gg, i, Gate::Silu)?;
        Ok(DecoderLayer { input_layernorm, mixer, post_attention_layernorm, mlp })
    }

    /// The output of the layer. A failed call may have kept its keys and
    /// values already.
    pub fn forward(&mut self, x: &Tensor, mask: Option<&Tensor>, offset: usize) -> (r: Result<
        Tensor,
        ModelError,
    >)
        ensures
            final(self)@ == old(self)@,
            tensor_view(*x).dims.len() != 3 ==> final(self).kept() == old(self).kept() && (
            old(self)@.attention is Some ==> r is Err),
            match r {
                Ok(_) => final(self).kept() == layer_kept(
                    old(self)@,
                    run_of(*x),
                    offset,
                    old(self).kept(),
                ),
                Err(_) => final(self).kept() == old(self).kept() || final(self).kept()
                    == layer_kept(old(self)@, run_of(*x), offset, old(self).kept()),
            },
            ends(
                r,
                layer_output(old(self)@, run_of(*x), mask_view(mask), offset, old(self).kept()),
            ),
    {
        proof {
            reveal(layer_output);
            reveal(layer_kept);
            if let Some(a) = self@.attention {
                lemma_attended_sound(
                    a,
                    normed(run_of(*x), self@.input_norm),
                    mask_view(mask),
                    offset,
                    self.kept(),
                );
            }
        }
        let h = self.input_layernorm.forward(x)?;
        proof {
            if let Some(a) = self@.attention {
                lemma_attended_stands(
                    a,
                    run_of(h),
                    normed(run_of(*x), self@.input_norm),
                    mask_view(mask),
                    offset,
                    self.kept(),
                );
            }
        }
        let h = match &mut self.mixer {
            TokenMixer::Attn(a) => a.forward(&h, mask, offset)?,
            TokenMixer::LinearStub => ops::zeros_like(&h)?,
        };
        let x = ops::plus(x, &h)?;
        let h = self.post_attention_layernorm.forward(&x)?;
        let h = self.mlp.forward(&h)?;
        ops::plus(&x, &h)
    }

    /// Forgets the kept keys and values.
    pub fn clear_kv_cache(&mut self)
        ensures
            final(self)@ == old(self)@,
            final(self).kept() is None,
    {
        match &mut self.mixer {
            TokenMixer::Attn(a) => a.clear_kv_cache(),
            TokenMixer::LinearStub => {},
        }
    }
}

/// A layer for a given residual stands for the layer for the run that it came
/// out of.
pub proof fn lemma_layer_stands(
    w: LayerView,
    a: Run,
    b: Run,
    mask: Option<TensorView>,
    offset: usize,
    kept: Kept,
)
    requires
        stands_for(a, b),
    ensures
        stands_for(
            layer_output(w, a, mask, offset, kept),
            layer_output(w, b, mask, offset, kept),
        ),
        layer_kept(w, a, offset, kept) == layer_kept(w, b, offset, kept),
{
    reveal(layer_output);
    reveal(layer_kept);
    if let Some(attention) = w.attention {
        lemma_attended_stands(
            attention,
            normed(a, w.input_norm),
            normed(b, w.input_norm),
            mask,
            offset,
            kept,
        );
    }
}

/// A layer without attention keeps nothing, and its output depends neither on
/// the mask nor on the positions.
pub proof fn stub_layers_ignore_positions(
    w: LayerView,
    x: Run,
    mask: Option<TensorView>,
    offset: usize,
    kept: Kept,
)
    requires
        w.attention is None,
    ensures
        layer_output(w, x, mask, offset, kept) == layer_output(w, x, None, 0, None),
        layer_kept(w, x, offset, kept) == kept,
{
    reveal(layer_output);
    reveal(layer_kept);
}

/// A sequence that starts afresh does not depend on what the layer kept.
pub proof fn fresh_layer(w: LayerView, x: Run, mask: Option<TensorView>, kept: Kept)
    ensures
        layer_output(w, x, mask, 0, kept) == layer_output(w, x, mask, 0, None),
        w.attention is Some ==> layer_kept(w, x, 0, kept) == layer_kept(w, x, 0, None),
{
    reveal(layer_output);
    reveal(layer_kept);
    match w.attention {
        Some(a) => {
            fresh_start_ignores_kept(a, normed(x, w.input_norm), mask, kept);
        },
        None => {},
    }
}

/// The parts of a layer agree with rows of `hidden` elements.
pub open spec fn layer_shaped(w: LayerView, hidden: usize) -> bool {
    &&& w.attention is Some ==> attention_shaped(w.attention->0, hidden)
    &&& mlp_maps(w.mlp, hidden, qtensor_dims(w.mlp.gate)[0])
    &&& w.input_norm.weight.dims == seq![hidden]
    &&& w.post_attention_norm.weight.dims == seq![hidden]
}

/// The parts of a layer agree, on the cpu, in single precision.
pub open spec fn layer_maps(w: LayerView, hidden: usize) -> bool {
    &&& layer_shaped(w, hidden)
    &&& w.attention is Some ==> attention_maps(w.attention->0, hidden)
    &&& norms(w.input_norm, hidden)
    &&& norms(w.post_attention_norm, hidden)
}

/// A layer that was read on the cpu, in single precision, and whose dims agree,
/// can be run there, and has angles for each position of its context.
pub proof fn loaded_layers_map(
    gg: &Gguf,
    i: nat,
    attends: bool,
    s: AttentionSettings,
    inv_freq: TensorView,
    positions: u32,
    hidden: usize,
)
    requires
        layer_loads(gg, i, attends, inv_freq, s.dtype, positions, Place::Cpu),
        s.dtype == DType::F32,
        hidden > 0,
        positions > 0,
        attends ==> s.rope_dim > 0 && 2 * inv_freq.dims[1] == s.rope_dim,
        layer_shaped(
            layer_of(
                gg,
                i,
                attends,
                s,
                rotary_of(inv_freq, s.dtype, positions, Place::Cpu),
            ),
            hidden,
        ),
    ensures
        layer_maps(
            layer_of(
                gg,
                i,
                attends,
                s,
                rotary_of(inv_freq, s.dtype, positions, Place::Cpu),
            ),
            hidden,
        ),
        turns_layer(
            layer_of(
                gg,
                i,
                attends,
                s,
                rotary_of(inv_freq, s.dtype, positions, Place::Cpu),
            ),
            positions as int,
        ),
{
    loaded_norms_take_rows(tensor_at(gg, layer_name(i, ".attn_norm.weight"@)), s.eps, hidden);
    loaded_norms_take_rows(
        tensor_at(gg, layer_name(i, ".post_attention_norm.weight"@)),
        s.eps,
        hidden,
    );
    if attends {
        let d = s.head_dim;
        loaded_norms_take_rows(tensor_at(gg, layer_name(i, ".attn_q_norm.weight"@)), s.eps, d);
        loaded_norms_take_rows(tensor_at(gg, layer_name(i, ".attn_k_norm.weight"@)), s.eps, d);
        loaded_angles_turn(inv_freq, positions);
    }
}

/// A layer has angles for `len` positions, or mixes no tokens.
pub open spec fn turns_layer(w: LayerView, len: int) -> bool {
    w.attention is Some ==> turns(w.attention->0.rotary, len, w.attention->0.rope_dim)
}

/// What a layer kept is of `len` positions of `batch` sequences, or it mixes no
/// tokens.
pub open spec fn kept_layer(w: LayerView, kept: Kept, batch: usize, len: usize) -> bool {
    w.attention is Some ==> kept_maps(w.attention->0, kept, batch, len)
}

/// A layer is sure to succeed for a residual that is sure to come out: on the cpu,
/// in single precision, where the dims agree, there are angles for the positions,
/// and what is kept is of the positions before.
pub proof fn layers_are_sure(
    w: LayerView,
    x: Run,
    mask: Option<TensorView>,
    offset: usize,
    kept: Kept,
)
    requires
        tidy(x),
        x.dims().len() == 3,
        layer_maps(w, x.dims()[2]),
        offset + x.dims()[1] <= usize::MAX,
        turns_layer(w, offset + x.dims()[1]),
        offset > 0 ==> kept_layer(w, kept, x.dims()[0], offset),
        covers(mask, x.dims()[1], (offset + x.dims()[1]) as usize),
        layer_output(w, x, mask, offset, kept).sound,
    ensures
        tidy(layer_output(w, x, mask, offset, kept)),
        layer_output(w, x, mask, offset, kept).dims() == x.dims(),
        kept_layer(
            w,
            layer_kept(w, x, offset, kept),
            x.dims()[0],
            (offset + x.dims()[1]) as usize,
        ),
{
    reveal(layer_output);
    reveal(layer_kept);
    norms_are_sure(x, w.input_norm);
    let h = normed(x, w.input_norm);
    let mix = token_mix(w, h, mask, offset, kept);
    match w.attention {
        Some(a) => attention_is_sure(a, h, mask, offset, kept),
        None => lemma_fresh(mix),
    }
    lemma_tidy_paired(Op::Add, x, mix);
    let mixed = paired(Op::Add, x, mix);
    norms_are_sure(mixed, w.post_attention_norm);
    let fed_in = normed(mixed, w.post_attention_norm);
    feedforwards_are_sure(w.mlp, fed_in, qtensor_dims(w.mlp.gate)[0]);
    lemma_tidy_paired(Op::Add, mixed, fed(w.mlp, fed_in));
}

} // verus!
