//! The model: embeddings, layers, and the logits of the last position.

use crate::attention::{
    holds, last_position, last_positions_are_sure, lemma_last_dims, mask_certain, mask_sound,
    mask_view, mask_view_of, no_kept, run_view, take_last, turns, Kept,
};
use crate::error::ModelError;
use crate::gemma4::attention::{fresh_start_ignores_kept, kept_maps, kept_positions};
use crate::gemma4::config::{config_error, layer_suffixes, model_names, Config};
use crate::gemma4::layer::{
    ends_layer, is_layer_of, layer_kept, layer_loads, layer_maps, layer_missing, layer_output,
    layer_shaped, layer_small, layers_are_sure, lemma_layer_output, lemma_layer_stands,
    loaded_layers_map, DecoderLayer, LayerSettings, LayerView,
};
use crate::gguf::{is_key_error, Gguf};
use crate::mask::{additive_mask, causal_mask, masks_are_sure_on_cpu};
use crate::nn::{
    absent, earlier, is_output_of, load_error, load_linear, load_norm, loaded_angles_turn,
    loaded_norms_take_rows, loads, maps, norm_of, normed, norms, norms_are_sure, own_or_tied,
    projections_are_sure, rotary_loads, rotary_of, rotary_sound, small, tensor_at, there, through,
    NormView, QLinear, RmsNorm, Rotary, RotaryView,
};
use crate::tensor::ops;
use crate::tensor::raw;
use crate::tensor::raw::{device_place, qtensor_dims, tensor_below, tensor_view};
use crate::tensor::run::{
    comes_out, converted, dequantized, embedded, ends_within, given, mapped, refused, run_of, Run,
};
use crate::tensor::sure::{lemma_fresh, lemma_tidy_mapped, tidy, tidy_view};
use crate::tensor::view::{broadcast_dims, indexes_on_cpu, Op, Place, TensorView};
use crate::text::{all_layer_names, layer_name, layer_names_are_listed, lemma_model_names_differ};
use candle_core::quantized::QTensor;
use candle_core::scalar::Scalar;
use candle_core::{DType, Device, Tensor};
use vstd::prelude::*;
use vstd::string::StringExecFns;

verus! {

/// The floating point numbers of a model.
pub struct Floats {
    /// The epsilon of the normalisations.
    pub rms_norm_eps: Scalar,
    /// The square root of the embedding length.
    pub embedding_scale: Scalar,
    /// The inverse of that square root.
    pub scalar_root_size: Scalar,
    pub final_logit_softcapping: Option<Scalar>,
    /// The inverse frequencies of sliding layers, in one row.
    pub sliding_inv_freq: Tensor,
    /// The inverse frequencies of full layers, in one row.
    pub full_inv_freq: Tensor,
}

/// What is known of a model, but for the keys and values that it keeps.
pub struct ModelView {
    pub embeddings: TensorView,
    pub embedding_length: usize,
    pub embedding_scale: Scalar,
    pub layers: Seq<LayerView>,
    pub is_sliding: Seq<bool>,
    pub sliding_window: usize,
    pub norm: NormView,
    pub output: QTensor,
    pub softcap: Option<Scalar>,
    pub place: Place,
    pub dtype: DType,
}

/// The scaled embeddings of tokens.
pub open spec fn embedded_tokens(w: ModelView, input: TensorView) -> Run {
    let xs = embedded(given(w.embeddings), given(input), w.embedding_length);
    converted(mapped(Op::MulScalar(w.embedding_scale), xs), w.dtype)
}

/// The mask for layers with a window, or for those without one; none for a
/// single position, which therefore sees every kept position on both kinds of
/// layers: the window does not act there.
pub open spec fn mask_for(w: ModelView, sliding: bool, seq_len: usize, offset: usize) -> Option<
    Run,
> {
    if seq_len == 1 {
        None
    } else {
        let window = if sliding {
            Some(w.sliding_window)
        } else {
            None
        };
        Some(converted(additive_mask(seq_len, offset, window, w.place), DType::F32))
    }
}

/// The residual after the first `n` layers.
pub open spec fn stream(
    w: ModelView,
    kept: Seq<Kept>,
    input: TensorView,
    offset: usize,
    n: nat,
) -> Run
    decreases n,
{
    if n == 0 {
        embedded_tokens(w, input)
    } else {
        let i = n - 1;
        layer_output(
            w.layers[i],
            stream(w, kept, input, offset, (n - 1) as nat),
            run_view(mask_for(w, w.is_sliding[i], input.dims[1], offset)),
            offset,
            kept[i],
            input.dims[1] > 1,
        )
    }
}

/// What layer `i` keeps after a call.
pub open spec fn kept_by(
    w: ModelView,
    kept: Seq<Kept>,
    input: TensorView,
    offset: usize,
    i: int,
) -> Kept {
    Some(layer_kept(w.layers[i], stream(w, kept, input, offset, i as nat), offset, kept[i]))
}

/// The logits brought within the cap, smoothly.
pub open spec fn capped(logits: Run, softcap: Option<Scalar>) -> Run {
    match softcap {
        None => logits,
        Some(sc) => mapped(
            Op::MulScalar(sc),
            mapped(Op::Tanh, mapped(Op::DivScalar(sc), logits)),
        ),
    }
}

/// The logits of the last position.
pub open spec fn logits(
    w: ModelView,
    kept: Seq<Kept>,
    input: TensorView,
    offset: usize,
) -> Run {
    let xs = stream(w, kept, input, offset, w.layers.len());
    let last = last_position(xs, input.dims[1]);
    capped(through(normed(last, w.norm), w.output), w.softcap)
}

/// Each step towards the masks is one that the operations take.
pub open spec fn masks_sound(w: ModelView, seq_len: usize, offset: usize) -> bool {
    mask_sound(mask_for(w, false, seq_len, offset)) && mask_sound(
        mask_for(w, true, seq_len, offset),
    )
}

/// Each step towards the masks is taken, and sure to succeed.
pub open spec fn masks_certain(w: ModelView, seq_len: usize, offset: usize) -> bool {
    mask_certain(mask_for(w, false, seq_len, offset)) && mask_certain(
        mask_for(w, true, seq_len, offset),
    )
}

/// Each step towards the logits is one that the operations take.
pub open spec fn runs(w: ModelView, kept: Seq<Kept>, input: TensorView, offset: usize) -> bool {
    logits(w, kept, input, offset).sound && masks_sound(w, input.dims[1], offset)
}

/// Some layer has experts.
pub open spec fn has_router(w: ModelView) -> bool {
    exists|i: int| 0 <= i < w.layers.len() && (#[trigger] w.layers[i]).sparse is Some
}

/// The logits are sure to be computed for tokens below the number of embeddings.
pub open spec fn runs_surely(
    w: ModelView,
    kept: Seq<Kept>,
    input: TensorView,
    offset: usize,
) -> bool {
    logits(w, kept, input, offset).certain() && masks_certain(w, input.dims[1], offset)
}

/// The tokens of an input are below the number of embeddings.
pub open spec fn tokens_known(w: ModelView, input: Tensor) -> bool {
    tensor_below(input, w.embeddings.dims[0] as int)
}

/// The error of a run through the layers: where there are experts, on the cpu,
/// their shares may have no order.
pub open spec fn run_error(e: ModelError, w: ModelView, sound: bool) -> bool {
    refused(e, sound) || (e is Unordered && has_router(w) && w.embeddings.place == Place::Cpu)
}

/// The first tensor missing among those of the first `n` layers.
pub open spec fn layers_missing(gg: &Gguf, n: nat) -> Option<Seq<char>>
    decreases n,
{
    if n == 0 {
        None
    } else {
        earlier(layers_missing(gg, (n - 1) as nat), layer_missing(gg, (n - 1) as nat))
    }
}

/// The first tensor missing for a model of `n` layers.
pub open spec fn model_missing(gg: &Gguf, n: nat) -> Option<Seq<char>> {
    earlier(
        absent(gg, "token_embd.weight"@),
        earlier(absent(gg, "output_norm.weight"@), layers_missing(gg, n)),
    )
}

/// The settings of layer `i`.
pub open spec fn layer_settings(c: &Config, f: &Floats, dtype: DType, i: int) -> LayerSettings {
    LayerSettings {
        n_head: c.n_head,
        n_kv_head: c.kv_heads(i),
        head_dim: c.head_dim(i),
        moe_inter: c.moe_inter,
        num_experts_per_tok: c.num_experts_per_tok,
        eps: f.rms_norm_eps,
        scalar_root_size: f.scalar_root_size,
        dtype,
    }
}

/// The rotary embedding of layer `i`.
pub open spec fn layer_rotary(c: &Config, f: &Floats, dtype: DType, place: Place, i: int) ->
    RotaryView {
    rotary_of(layer_table(c, f, i), dtype, c.context_length, place)
}

/// Each step towards layer `i` is one that the operations take.
pub open spec fn layer_sound(
    gg: &Gguf,
    c: &Config,
    f: &Floats,
    dtype: DType,
    place: Place,
    i: int,
) -> bool {
    &&& layer_small(gg, i as nat)
    &&& rotary_sound(layer_table(c, f, i), dtype, c.context_length, place)
}

/// Each step towards the layers is one that the operations take.
pub open spec fn layers_sound(
    gg: &Gguf,
    c: &Config,
    f: &Floats,
    dtype: DType,
    place: Place,
) -> bool {
    forall|i: int|
        0 <= i < c.block_count ==> #[trigger] layer_sound(gg, c, f, dtype, place, i)
}

/// Each step towards the model is one that the operations take.
pub open spec fn model_sound(
    gg: &Gguf,
    c: &Config,
    f: &Floats,
    dtype: DType,
    place: Place,
) -> bool {
    &&& small(gg, "token_embd.weight"@)
    &&& small(gg, "output_norm.weight"@)
    &&& layers_sound(gg, c, f, dtype, place)
}

/// The inverse frequencies of layer `i`.
pub open spec fn layer_table(c: &Config, f: &Floats, i: int) -> TensorView {
    if c.is_sliding@[i] {
        tensor_view(f.sliding_inv_freq)
    } else {
        tensor_view(f.full_inv_freq)
    }
}

/// Layer `i` is sure to be loaded.
pub open spec fn block_loads(
    gg: &Gguf,
    c: &Config,
    f: &Floats,
    dtype: DType,
    place: Place,
    i: int,
) -> bool {
    &&& layer_loads(gg, i as nat, dtype, place)
    &&& rotary_loads(layer_table(c, f, i), dtype, c.context_length, place)
    &&& c.kv_heads(i) != 0
}

/// The layers are sure to be loaded.
pub open spec fn blocks_load(
    gg: &Gguf,
    c: &Config,
    f: &Floats,
    dtype: DType,
    place: Place,
) -> bool {
    forall|i: int|
        0 <= i < c.block_count ==> #[trigger] block_loads(gg, c, f, dtype, place, i)
}

/// The model is sure to be loaded: its tensors are on the cpu, and so is the
/// model.
pub open spec fn model_loads(
    gg: &Gguf,
    c: &Config,
    f: &Floats,
    dtype: DType,
    place: Place,
) -> bool {
    &&& there(gg, "token_embd.weight"@)
    &&& there(gg, "output_norm.weight"@)
    &&& blocks_load(gg, c, f, dtype, place)
    &&& place == Place::Cpu
}

/// The settings are refused: a layer has no heads of keys and values.
pub open spec fn has_headless_layer(c: &Config) -> bool {
    exists|i: int| 0 <= i < c.block_count && #[trigger] c.kv_heads(i) == 0
}

/// The model is the one of a file.
pub open spec fn is_model_of(
    w: ModelView,
    gg: &Gguf,
    c: &Config,
    f: &Floats,
    dtype: DType,
    place: Place,
) -> bool {
    &&& w.embeddings == dequantized(tensor_at(gg, "token_embd.weight"@), place).view
    &&& w.embedding_length == c.embedding_length
    &&& w.embedding_scale == f.embedding_scale
    &&& w.layers.len() == c.block_count
    &&& forall|i: int|
        0 <= i < c.block_count ==> #[trigger] is_layer_of(
            w.layers[i],
            gg,
            i as nat,
            layer_settings(c, f, dtype, i),
            layer_rotary(c, f, dtype, place, i),
            place,
        )
    &&& w.is_sliding == c.is_sliding@
    &&& w.sliding_window == c.sliding_window
    &&& w.norm == norm_of(tensor_at(gg, "output_norm.weight"@), f.rms_norm_eps)
    &&& is_output_of(w.output, gg)
    &&& w.softcap == f.final_logit_softcapping
    &&& w.place == place
    &&& w.dtype == dtype
}

/// A layer and its kind.
struct Block {
    layer: DecoderLayer,
    is_sliding: bool,
}

spec fn layers_of(blocks: Seq<Block>) -> Seq<LayerView> {
    Seq::new(blocks.len(), |i: int| blocks[i].layer@)
}

spec fn kinds_of(blocks: Seq<Block>) -> Seq<bool> {
    Seq::new(blocks.len(), |i: int| blocks[i].is_sliding)
}

spec fn kept_of(blocks: Seq<Block>) -> Seq<Kept> {
    Seq::new(blocks.len(), |i: int| blocks[i].layer.kept())
}

/// A model.
pub struct ModelWeights {
    tok_embeddings: Tensor,
    embedding_length: usize,
    embedding_scale: Scalar,
    blocks: Vec<Block>,
    sliding_window: usize,
    norm: RmsNorm,
    output: QLinear,
    final_logit_softcapping: Option<Scalar>,
    device: Device,
    dtype: DType,
}

impl ModelWeights {
    pub closed spec fn view(&self) -> ModelView {
        ModelView {
            embeddings: tensor_view(self.tok_embeddings),
            embedding_length: self.embedding_length,
            embedding_scale: self.embedding_scale,
            layers: layers_of(self.blocks@),
            is_sliding: kinds_of(self.blocks@),
            sliding_window: self.sliding_window,
            norm: self.norm@,
            output: self.output.weight(),
            softcap: self.final_logit_softcapping,
            place: device_place(self.device),
            dtype: self.dtype,
        }
    }

    /// The keys and values that each layer keeps.
    pub closed spec fn kept(&self) -> Seq<Kept> {
        kept_of(self.blocks@)
    }

    /// Reads the layers.
    fn load_blocks(gg: &Gguf, c: &Config, f: &Floats, device: &Device, dtype: DType) -> (r: Result<
        Vec<Block>,
        ModelError,
    >)
        requires
            c.well_formed(),
        ensures
            match r {
                Ok(blocks) => {
                    &&& layers_missing(gg, c.block_count as nat) is None
                    &&& !has_headless_layer(c)
                    &&& blocks@.len() == c.block_count
                    &&& forall|i: int|
                        0 <= i < c.block_count ==> {
                            &&& (#[trigger] blocks@[i]).is_sliding == c.is_sliding@[i]
                            &&& blocks@[i].layer.kept() is None
                            &&& is_layer_of(
                                blocks@[i].layer@,
                                gg,
                                i as nat,
                                layer_settings(c, f, dtype, i),
                                layer_rotary(c, f, dtype, device_place(*device), i),
                                device_place(*device),
                            )
                        }
                },
                Err(e) => {
                    &&& load_error(
                        e,
                        layers_sound(gg, c, f, dtype, device_place(*device)),
                        layers_missing(gg, c.block_count as nat),
                    ) || (e is BadConfig && has_headless_layer(c))
                    &&& !blocks_load(gg, c, f, dtype, device_place(*device))
                },
            },
    {
        let mut blocks: Vec<Block> = Vec::new();
        let mut i: usize = 0;
        while i < c.block_count
            invariant
                c.well_formed(),
                i <= c.block_count,
                layers_missing(gg, i as nat) is None,
                forall|j: int| 0 <= j < i ==> #[trigger] c.kv_heads(j) != 0,
                blocks@.len() == i,
                forall|j: int|
                    0 <= j < i ==> {
                        &&& (#[trigger] blocks@[j]).is_sliding == c.is_sliding@[j]
                        &&& blocks@[j].layer.kept() is None
                        &&& is_layer_of(
                            blocks@[j].layer@,
                            gg,
                            j as nat,
                            layer_settings(c, f, dtype, j),
                            layer_rotary(c, f, dtype, device_place(*device), j),
                            device_place(*device),
                        )
                    },
            decreases c.block_count - i,
        {
            proof {
                lemma_missing_stays(gg, (i + 1) as nat, c.block_count as nat);
                let all = layers_sound(gg, c, f, dtype, device_place(*device));
                assert(all ==> layer_sound(gg, c, f, dtype, device_place(*device), i as int));
                let sure = blocks_load(gg, c, f, dtype, device_place(*device));
                assert(sure ==> block_loads(gg, c, f, dtype, device_place(*device), i as int));
            }
            let is_sliding = c.is_sliding[i];
            let inv_freq = if is_sliding {
                &f.sliding_inv_freq
            } else {
                &f.full_inv_freq
            };
            let rotary_emb = Rotary::from_inv_freq(inv_freq, dtype, c.context_length, device)?;
            let s = LayerSettings {
                n_head: c.n_head,
                n_kv_head: c.kv_heads_of(i),
                head_dim: c.head_dim_of(i),
                moe_inter: c.moe_inter,
                num_experts_per_tok: c.num_experts_per_tok,
                eps: f.rms_norm_eps,
                scalar_root_size: f.scalar_root_size,
                dtype,
            };
            if s.n_kv_head == 0 {
                assert(c.kv_heads(i as int) == 0);
                return Err(ModelError::BadConfig);
            }
            let layer = DecoderLayer::load(gg, i, &s, rotary_emb, device)?;
            blocks.push(Block { layer, is_sliding });
            i = i + 1;
        }
        Ok(blocks)
    }

    /// Reads a model from a file: its settings from the metadata, then its
    /// tensors.
    pub fn from_gguf(gg: &Gguf, floats: &Floats, device: &Device, dtype: DType) -> (r: Result<
        ModelWeights,
        ModelError,
    >)
        ensures
            match config_error(gg.metadata@) {
                Some(k) => r is Err && is_key_error(r->Err_0, k),
                None => exists|c: Config| #[trigger]
                    c.reads(gg.metadata@) && loaded(
                        r,
                        gg,
                        &c,
                        floats,
                        dtype,
                        device_place(*device),
                    ),
            },
    {
        let config = Config::read(gg)?;
        let r = Self::with_config(gg, &config, floats, device, dtype);
        assert(config.reads(gg.metadata@));
        r
    }

    /// Reads a model with given settings from the tensors of a file. The output
    /// projection falls back to the embeddings.
    pub fn with_config(
        gg: &Gguf,
        config: &Config,
        floats: &Floats,
        device: &Device,
        dtype: DType,
    ) -> (r: Result<ModelWeights, ModelError>)
        requires
            config.well_formed(),
        ensures
            loaded(r, gg, config, floats, dtype, device_place(*device)),
    {
        let embeddings = gg.tensor(&String::from_str("token_embd.weight"))?;
        let tok_embeddings = ops::dequantize(&embeddings, device)?;
        let norm = load_norm(gg, &String::from_str("output_norm.weight"), floats.rms_norm_eps)?;
        let output = own_or_tied(load_linear(gg, &String::from_str("output.weight")), gg)?;
        let blocks = Self::load_blocks(gg, config, floats, device, dtype)?;
        let m = ModelWeights {
            tok_embeddings,
            embedding_length: config.embedding_length,
            embedding_scale: floats.embedding_scale,
            blocks,
            sliding_window: config.sliding_window,
            norm,
            output,
            final_logit_softcapping: floats.final_logit_softcapping,
            device: raw::same_device(device),
            dtype,
        };
        proof {
            assert forall|i: int| 0 <= i < config.block_count implies #[trigger] is_layer_of(
                m@.layers[i],
                gg,
                i as nat,
                layer_settings(config, floats, dtype, i),
                layer_rotary(config, floats, dtype, device_place(*device), i),
                device_place(*device),
            ) by {
                assert(m@.layers[i] == m.blocks@[i].layer@);
            }
            assert(m@.is_sliding =~= config.is_sliding@);
            assert(m.kept() =~= no_kept(config.block_count as nat));
        }
        Ok(m)
    }

    /// The scaled embeddings of tokens.
    fn embed(&self, input: &Tensor) -> (r: Result<Tensor, ModelError>)
        ensures
            ends_within(
                r,
                embedded_tokens(self@, tensor_view(*input)),
                tokens_known(self@, *input),
            ),
    {
        let xs = ops::embedding(&self.tok_embeddings, self.embedding_length, input)?;
        ops::to_dtype(&ops::mul_scalar(&xs, &self.embedding_scale)?, self.dtype)
    }

    /// The mask for layers with a window, or for those without one. A single
    /// position has none, and no window.
    fn mask(&self, seq_len: usize, offset: usize, sliding: bool) -> (r: Result<
        Option<Tensor>,
        ModelError,
    >)
        ensures
            match r {
                Ok(mask) => {
                    &&& mask_view_of(mask) == run_view(mask_for(self@, sliding, seq_len, offset))
                    &&& mask_sound(mask_for(self@, sliding, seq_len, offset))
                },
                Err(e) => {
                    &&& refused(e, mask_sound(mask_for(self@, sliding, seq_len, offset)))
                    &&& !mask_certain(mask_for(self@, sliding, seq_len, offset))
                },
            },
            seq_len == 1 ==> r is Ok,
            self@.place == Place::Cpu && mask_sound(mask_for(self@, sliding, seq_len, offset))
                ==> r is Ok,
    {
        if seq_len == 1 {
            return Ok(None);
        }
        let window = if sliding {
            Some(self.sliding_window)
        } else {
            None
        };
        proof {
            if self@.place == Place::Cpu && mask_sound(mask_for(self@, sliding, seq_len, offset)) {
                masks_are_sure_on_cpu(seq_len, offset, window);
            }
        }
        let mask = causal_mask(seq_len, offset, window, &self.device)?;
        Ok(Some(ops::to_dtype(&mask, DType::F32)?))
    }

    /// Runs layer `idx`.
    fn run_layer(
        &mut self,
        idx: usize,
        xs: &Tensor,
        mask: Option<&Tensor>,
        offset: usize,
        is_prefill: bool,
    ) -> (r: Result<Tensor, ModelError>)
        requires
            idx < old(self)@.layers.len(),
        ensures
            final(self)@ == old(self)@,
            match r {
                Ok(_) => final(self).kept() == old(self).kept().update(
                    idx as int,
                    Some(
                        layer_kept(
                            old(self)@.layers[idx as int],
                            run_of(*xs),
                            offset,
                            old(self).kept()[idx as int],
                        ),
                    ),
                ),
                Err(_) => final(self).kept() == old(self).kept() || final(self).kept() == old(
                    self,
                ).kept().update(
                    idx as int,
                    Some(
                        layer_kept(
                            old(self)@.layers[idx as int],
                            run_of(*xs),
                            offset,
                            old(self).kept()[idx as int],
                        ),
                    ),
                ),
            },
            ends_layer(
                r,
                layer_output(
                    old(self)@.layers[idx as int],
                    run_of(*xs),
                    mask_view(mask),
                    offset,
                    old(self).kept()[idx as int],
                    is_prefill,
                ),
                old(self)@.layers[idx as int].sparse is Some,
            ),
    {
        let ghost before = self.blocks@;
        let r = self.blocks[idx].layer.forward(xs, mask, offset, is_prefill);
        proof {
            let after = self.blocks@;
            assert(layers_of(after) =~= layers_of(before));
            assert(kinds_of(after) =~= kinds_of(before));
            assert(kept_of(after) =~= kept_of(before).update(
                idx as int,
                after[idx as int].layer.kept(),
            ));
            assert(kept_of(before) =~= kept_of(before).update(
                idx as int,
                before[idx as int].layer.kept(),
            ));
        }
        r
    }

    /// Runs the layers.
    fn run_layers(&mut self, input: &Tensor, seq_len: usize, offset: usize) -> (r: Result<
        Tensor,
        ModelError,
    >)
        requires
            tensor_view(*input).dims.len() == 2,
            seq_len == tensor_view(*input).dims[1],
        ensures
            final(self)@ == old(self)@,
            final(self).kept().len() == old(self)@.layers.len(),
            r is Ok ==> {
                &&& comes_out(
                    r->Ok_0,
                    stream(
                        old(self)@,
                        old(self).kept(),
                        tensor_view(*input),
                        offset,
                        old(self)@.layers.len(),
                    ),
                )
                &&& masks_sound(old(self)@, seq_len, offset)
                &&& forall|i: int|
                    0 <= i < old(self)@.layers.len() ==> #[trigger] final(self).kept()[i]
                        == kept_by(
                        old(self)@,
                        old(self).kept(),
                        tensor_view(*input),
                        offset,
                        i,
                    )
            },
            r is Err ==> {
                &&& run_error(
                    r->Err_0,
                    old(self)@,
                    stream(
                        old(self)@,
                        old(self).kept(),
                        tensor_view(*input),
                        offset,
                        old(self)@.layers.len(),
                    ).sound && masks_sound(old(self)@, seq_len, offset),
                )
                &&& !(stream(
                    old(self)@,
                    old(self).kept(),
                    tensor_view(*input),
                    offset,
                    old(self)@.layers.len(),
                ).certain() && masks_certain(old(self)@, seq_len, offset) && tokens_known(
                    old(self)@,
                    *input,
                ))
                &&& forall|i: int|
                    0 <= i < old(self)@.layers.len() ==> #[trigger] final(self).kept()[i] == old(
                        self,
                    ).kept()[i] || final(self).kept()[i] == kept_by(
                        old(self)@,
                        old(self).kept(),
                        tensor_view(*input),
                        offset,
                        i,
                    )
            },
    {
        let ghost w = self@;
        let ghost kept = self.kept();
        let ghost input_view = tensor_view(*input);
        proof {
            lemma_sound_so_far(w, kept, input_view, offset, 0, w.layers.len());
        }
        let mut xs = self.embed(input)?;
        let full_mask = self.mask(seq_len, offset, false)?;
        let sliding_mask = self.mask(seq_len, offset, true)?;
        let mut idx: usize = 0;
        while idx < self.blocks.len()
            invariant
                idx <= self.blocks@.len(),
                self.blocks@.len() == w.layers.len(),
                input_view == tensor_view(*input),
                seq_len == input_view.dims[1],
                self@ == w,
                w == old(self)@,
                kept == old(self).kept(),
                kept.len() == w.layers.len(),
                masks_sound(w, seq_len, offset),
                mask_view_of(full_mask) == run_view(mask_for(w, false, seq_len, offset)),
                mask_view_of(sliding_mask) == run_view(mask_for(w, true, seq_len, offset)),
                comes_out(xs, stream(w, kept, input_view, offset, idx as nat)),
                forall|i: int|
                    0 <= i < idx ==> #[trigger] self.kept()[i] == kept_by(
                        w,
                        kept,
                        input_view,
                        offset,
                        i,
                    ),
                forall|i: int| idx <= i < w.layers.len() ==> #[trigger] self.kept()[i] == kept[i],
            decreases self.blocks@.len() - idx,
        {
            let mask = if self.blocks[idx].is_sliding {
                sliding_mask.as_ref()
            } else {
                full_mask.as_ref()
            };
            proof {
                assert(w.is_sliding[idx as int] == self.blocks@[idx as int].is_sliding);
                lemma_sound_so_far(w, kept, input_view, offset, (idx + 1) as nat, w.layers.len());
                lemma_stream_place(w, kept, input_view, offset, (idx + 1) as nat);
                lemma_layer_stands(
                    w.layers[idx as int],
                    run_of(xs),
                    stream(w, kept, input_view, offset, idx as nat),
                    mask_view(mask),
                    offset,
                    kept[idx as int],
                    seq_len > 1,
                );
            }
            let step = self.run_layer(idx, &xs, mask, offset, seq_len > 1);
            xs = step?;
            idx = idx + 1;
        }
        Ok(xs)
    }

    /// The logits of the last position of `input`, whose tokens start at
    /// `offset`. A failed call may have kept keys and values of its own in some
    /// of the layers.
    pub fn forward(&mut self, input: &Tensor, offset: usize) -> (r: Result<Tensor, ModelError>)
        ensures
            final(self)@ == old(self)@,
            final(self).kept().len() == old(self)@.layers.len(),
            tensor_view(*input).dims.len() != 2 ==> r is Err && r->Err_0 is UnexpectedRank
                && final(self).kept() == old(self).kept(),
            tensor_view(*input).dims.len() == 2 && tensor_view(*input).dims[1] == 0 ==> r is Err
                && r->Err_0 is EmptySequence && final(self).kept() == old(self).kept(),
            match r {
                Ok(y) => {
                    &&& comes_out(
                        y,
                        logits(old(self)@, old(self).kept(), tensor_view(*input), offset),
                    )
                    &&& runs(old(self)@, old(self).kept(), tensor_view(*input), offset)
                    &&& forall|i: int|
                        0 <= i < old(self)@.layers.len() ==> #[trigger] final(self).kept()[i]
                            == kept_by(
                            old(self)@,
                            old(self).kept(),
                            tensor_view(*input),
                            offset,
                            i,
                        )
                },
                Err(e) => {
                    &&& tensor_view(*input).dims.len() == 2 && tensor_view(*input).dims[1] > 0
                        ==> run_error(
                        e,
                        old(self)@,
                        runs(old(self)@, old(self).kept(), tensor_view(*input), offset),
                    )
                    &&& tensor_view(*input).dims.len() == 2 && tensor_view(*input).dims[1] > 0
                        ==> !(runs_surely(
                        old(self)@,
                        old(self).kept(),
                        tensor_view(*input),
                        offset,
                    ) && tokens_known(old(self)@, *input))
                    &&& forall|i: int|
                        0 <= i < old(self)@.layers.len() ==> #[trigger] final(self).kept()[i]
                            == old(self).kept()[i] || final(self).kept()[i] == kept_by(
                            old(self)@,
                            old(self).kept(),
                            tensor_view(*input),
                            offset,
                            i,
                        )
                },
            },
    {
        let (b, seq_len) = ops::dims2(input)?;
        if seq_len == 0 {
            return Err(ModelError::EmptySequence);
        }
        let xs = self.run_layers(input, seq_len, offset)?;
        let xs = take_last(&xs, seq_len)?;
        let logits = self.output.forward(&self.norm.forward(&xs)?)?;
        match &self.final_logit_softcapping {
            None => Ok(logits),
            Some(sc) => {
                let bounded = ops::tanh(&ops::div_scalar(&logits, sc)?)?;
                ops::mul_scalar(&bounded, sc)
            },
        }
    }

    /// Forgets the kept keys and values of every layer.
    pub fn clear_kv_cache(&mut self)
        ensures
            final(self)@ == old(self)@,
            final(self).kept() == no_kept(old(self)@.layers.len()),
    {
        let ghost w = self@;
        let mut i: usize = 0;
        while i < self.blocks.len()
            invariant
                i <= self.blocks@.len(),
                self@ == w,
                w == old(self)@,
                self.blocks@.len() == w.layers.len(),
                forall|j: int| 0 <= j < i ==> (#[trigger] self.blocks@[j]).layer.kept() is None,
            decreases self.blocks@.len() - i,
        {
            let ghost before = self.blocks@;
            self.blocks[i].layer.clear_kv_cache();
            proof {
                assert(layers_of(self.blocks@) =~= layers_of(before));
                assert(kinds_of(self.blocks@) =~= kinds_of(before));
                assert forall|j: int| 0 <= j < i + 1 implies (
                #[trigger] self.blocks@[j]).layer.kept() is None by {
                    if j < i {
                        assert(self.blocks@[j] == before[j]);
                    }
                }
            }
            i = i + 1;
        }
        assert(self.kept() =~= no_kept(w.layers.len()));
    }
}

/// The outcome of reading a model with given settings.
pub open spec fn loaded(
    r: Result<ModelWeights, ModelError>,
    gg: &Gguf,
    c: &Config,
    f: &Floats,
    dtype: DType,
    place: Place,
) -> bool {
    match r {
        Ok(m) => {
            &&& model_missing(gg, c.block_count as nat) is None
            &&& !has_headless_layer(c)
            &&& is_model_of(m@, gg, c, f, dtype, place)
            &&& m.kept() == no_kept(c.block_count as nat)
        },
        Err(e) => {
            &&& load_error(
                e,
                model_sound(gg, c, f, dtype, place),
                model_missing(gg, c.block_count as nat),
            ) || (e is BadConfig && has_headless_layer(c))
            &&& !model_loads(gg, c, f, dtype, place)
        },
    }
}

/// What is missing for some layers is missing for more of them.
proof fn lemma_missing_stays(gg: &Gguf, n: nat, m: nat)
    requires
        n <= m,
    ensures
        layers_missing(gg, n) is Some ==> layers_missing(gg, m) == layers_missing(gg, n),
    decreases m,
{
    if n < m {
        lemma_missing_stays(gg, n, (m - 1) as nat);
    }
}

/// A run through a layer is sound, and sure, only where the run up to it is.
proof fn lemma_sound_so_far(
    w: ModelView,
    kept: Seq<Kept>,
    input: TensorView,
    offset: usize,
    n: nat,
    m: nat,
)
    requires
        n <= m,
    ensures
        stream(w, kept, input, offset, m).sound ==> stream(w, kept, input, offset, n).sound,
        stream(w, kept, input, offset, m).sure ==> stream(w, kept, input, offset, n).sure,
    decreases m,
{
    if n < m {
        lemma_sound_so_far(w, kept, input, offset, n, (m - 1) as nat);
        lemma_layer_output(
            w.layers[m - 1],
            stream(w, kept, input, offset, (m - 1) as nat),
            run_view(mask_for(w, w.is_sliding[m - 1], input.dims[1], offset)),
            offset,
            kept[m - 1],
            input.dims[1] > 1,
        );
    }
}

/// The residual stays where the embeddings are.
proof fn lemma_stream_place(
    w: ModelView,
    kept: Seq<Kept>,
    input: TensorView,
    offset: usize,
    n: nat,
)
    ensures
        stream(w, kept, input, offset, n).place() == w.embeddings.place,
    decreases n,
{
    if n > 0 {
        lemma_stream_place(w, kept, input, offset, (n - 1) as nat);
        lemma_layer_output(
            w.layers[n - 1],
            stream(w, kept, input, offset, (n - 1) as nat),
            run_view(mask_for(w, w.is_sliding[n - 1], input.dims[1], offset)),
            offset,
            kept[n - 1],
            input.dims[1] > 1,
        );
    }
}

/// A sequence that starts afresh does not depend on what the layers kept, and
/// so a call at offset 0 is the same as one after `clear_kv_cache`.
pub proof fn fresh_start(w: ModelView, kept: Seq<Kept>, input: TensorView)
    requires
        kept.len() == w.layers.len(),
    ensures
        logits(w, kept, input, 0) == logits(w, no_kept(w.layers.len()), input, 0),
        forall|i: int|
            0 <= i < w.layers.len() ==> kept_by(w, kept, input, 0, i) == #[trigger] kept_by(
                w,
                no_kept(w.layers.len()),
                input,
                0,
                i,
            ),
{
    let none = no_kept(w.layers.len());
    lemma_fresh_stream(w, kept, input, w.layers.len());
    assert forall|i: int| 0 <= i < w.layers.len() implies kept_by(w, kept, input, 0, i)
        == #[trigger] kept_by(w, none, input, 0, i) by {
        lemma_fresh_stream(w, kept, input, i as nat);
        let x = stream(w, none, input, 0, i as nat);
        reveal(layer_kept);
        fresh_start_ignores_kept(
            w.layers[i].attention,
            normed(x, w.layers[i].input_norm),
            None,
            kept[i],
        );
    }
}

proof fn lemma_fresh_stream(w: ModelView, kept: Seq<Kept>, input: TensorView, n: nat)
    requires
        n <= w.layers.len(),
        kept.len() == w.layers.len(),
    ensures
        stream(w, kept, input, 0, n) == stream(w, no_kept(w.layers.len()), input, 0, n),
    decreases n,
{
    if n > 0 {
        lemma_fresh_stream(w, kept, input, (n - 1) as nat);
        let i = n - 1;
        let x = stream(w, kept, input, 0, (n - 1) as nat);
        reveal(layer_output);
        fresh_start_ignores_kept(
            w.layers[i].attention,
            normed(x, w.layers[i].input_norm),
            run_view(mask_for(w, w.is_sliding[i], input.dims[1], 0)),
            kept[i],
        );
    }
}

/// A single position is attended from without a mask, on every kind of layer:
/// the window of a sliding layer does not act on it.
pub proof fn single_position_has_no_mask(w: ModelView, sliding: bool, offset: usize)
    ensures
        mask_for(w, sliding, 1, offset) is None,
{
}

/// The dims of the residual: (batch, sequence, embedding length).
pub open spec fn residual_dims(w: ModelView, input: TensorView) -> Seq<usize> {
    seq![input.dims[0], input.dims[1], w.embedding_length]
}

/// The scale of each layer can be laid over the residual without more dims or
/// slices, as a single number can.
pub open spec fn scales_fit(w: ModelView, input: TensorView) -> bool {
    forall|i: int|
        0 <= i < w.layers.len() ==> broadcast_dims(
            residual_dims(w, input),
            (#[trigger] w.layers[i]).layer_scalar.dims,
        ) == residual_dims(w, input)
}

/// Where the scales of the layers fit, the residual keeps the dims (batch,
/// sequence, embedding length), and the logits are one row for each sequence,
/// as long as the output projection is high.
pub proof fn logits_shape(w: ModelView, kept: Seq<Kept>, input: TensorView, offset: usize)
    requires
        input.dims.len() == 2,
        input.dims[1] > 0,
        scales_fit(w, input),
    ensures
        stream(w, kept, input, offset, w.layers.len()).dims() == seq![
            input.dims[0],
            input.dims[1],
            w.embedding_length,
        ],
        logits(w, kept, input, offset).dims() == seq![
            input.dims[0],
            qtensor_dims(w.output)[0],
        ],
{
    lemma_stream_dims(w, kept, input, offset, w.layers.len());
    let xs = stream(w, kept, input, offset, w.layers.len());
    lemma_last_dims(xs, input.dims[1]);
    assert(logits(w, kept, input, offset).dims() =~= seq![
        input.dims[0],
        qtensor_dims(w.output)[0],
    ]);
}

proof fn lemma_stream_dims(
    w: ModelView,
    kept: Seq<Kept>,
    input: TensorView,
    offset: usize,
    n: nat,
)
    requires
        n <= w.layers.len(),
        input.dims.len() == 2,
        scales_fit(w, input),
    ensures
        stream(w, kept, input, offset, n).dims() == seq![
            input.dims[0],
            input.dims[1],
            w.embedding_length,
        ],
    decreases n,
{
    let dims = seq![input.dims[0], input.dims[1], w.embedding_length];
    if n == 0 {
        assert(embedded_tokens(w, input).dims() =~= dims);
    } else {
        lemma_stream_dims(w, kept, input, offset, (n - 1) as nat);
        let x = stream(w, kept, input, offset, (n - 1) as nat);
        lemma_layer_output(
            w.layers[n - 1],
            x,
            run_view(mask_for(w, w.is_sliding[n - 1], input.dims[1], offset)),
            offset,
            kept[n - 1],
            input.dims[1] > 1,
        );
    }
}

/// Every layer has kept as many positions as there are before a call, or the
/// sequence starts afresh.
pub open spec fn goes_on(w: ModelView, kept: Seq<Kept>, offset: usize) -> bool {
    offset > 0 ==> forall|i: int| 0 <= i < w.layers.len() ==> holds(#[trigger] kept[i], offset as int)
}

/// Where the scales of the layers fit, every layer keeps the positions before a
/// call and those of the call, and the masks are as wide.
#[verifier::spinoff_prover]
#[verifier::rlimit(40)]
pub proof fn positions_add_up(w: ModelView, kept: Seq<Kept>, input: TensorView, offset: usize)
    requires
        input.dims.len() == 2,
        offset + input.dims[1] <= usize::MAX,
        goes_on(w, kept, offset),
        scales_fit(w, input),
    ensures
        forall|i: int|
            0 <= i < w.layers.len() ==> holds(
                #[trigger] kept_by(w, kept, input, offset, i),
                offset + input.dims[1],
            ),
        forall|sliding: bool|
            input.dims[1] != 1 ==> (#[trigger] mask_for(
                w,
                sliding,
                input.dims[1],
                offset,
            ))->0.dims()[3] == offset + input.dims[1],
{
    assert forall|i: int| 0 <= i < w.layers.len() implies holds(
        #[trigger] kept_by(w, kept, input, offset, i),
        offset + input.dims[1],
    ) by {
        lemma_stream_dims(w, kept, input, offset, i as nat);
        let x = normed(stream(w, kept, input, offset, i as nat), w.layers[i].input_norm);
        reveal(layer_kept);
        kept_positions(w.layers[i].attention, x, offset, kept[i]);
    }
}

/// The layers of a file are read under the listed names alone: files that
/// agree under these names give the same layer, and lack the same tensors.
pub proof fn layers_are_read_under_listed_names(
    a: &Gguf,
    b: &Gguf,
    i: nat,
    w: LayerView,
    s: LayerSettings,
    rotary: RotaryView,
    place: Place,
)
    requires
        forall|j: int|
            0 <= j < layer_suffixes().len() ==> a.named(
                #[trigger] layer_name(i, layer_suffixes()[j]),
            ) == b.named(layer_name(i, layer_suffixes()[j])),
    ensures
        layer_missing(a, i) == layer_missing(b, i),
        is_layer_of(w, a, i, s, rotary, place) == is_layer_of(w, b, i, s, rotary, place),
{
    let names = layer_suffixes();
    assert(names.len() == 22);
    assert forall|j: int| 0 <= j < 22 implies a.named(layer_name(i, #[trigger] names[j]))
        == b.named(layer_name(i, names[j])) by {}
    assert(names[0] == ".attn_q.weight"@ && names[1] == ".attn_k.weight"@ && names[2]
        == ".attn_v.weight"@ && names[3] == ".attn_output.weight"@ && names[4]
        == ".attn_q_norm.weight"@ && names[5] == ".attn_k_norm.weight"@);
    assert(names[6] == ".ffn_gate.weight"@ && names[7] == ".ffn_up.weight"@ && names[8]
        == ".ffn_down.weight"@ && names[9] == ".attn_norm.weight"@ && names[10]
        == ".post_attention_norm.weight"@ && names[11] == ".ffn_norm.weight"@ && names[12]
        == ".post_ffw_norm.weight"@);
    assert(names[13] == ".ffn_gate_up_exps.weight"@ && names[14] == ".ffn_gate_inp.weight"@
        && names[15] == ".ffn_gate_inp.scale"@ && names[16] == ".ffn_down_exps.scale"@
        && names[17] == ".ffn_down_exps.weight"@ && names[18] == ".pre_ffw_norm_2.weight"@
        && names[19] == ".post_ffw_norm_1.weight"@ && names[20] == ".post_ffw_norm_2.weight"@
        && names[21] == ".layer_output_scale.weight"@);
}

/// A model is read under the listed names alone: files that agree under these
/// names give the same model, and lack the same tensors.
pub proof fn models_are_read_under_listed_names(
    a: &Gguf,
    b: &Gguf,
    w: ModelView,
    c: &Config,
    f: &Floats,
    dtype: DType,
    place: Place,
)
    requires
        forall|name: Seq<char>| #[trigger]
            model_names(c.block_count as nat).contains(name) ==> a.named(name) == b.named(name),
    ensures
        model_missing(a, c.block_count as nat) == model_missing(b, c.block_count as nat),
        is_model_of(w, a, c, f, dtype, place) == is_model_of(w, b, c, f, dtype, place),
{
    let names = model_names(c.block_count as nat);
    assert(names[0] == "token_embd.weight"@ && names[1] == "output_norm.weight"@ && names[2]
        == "output.weight"@);
    assert(names.contains("token_embd.weight"@) && names.contains("output_norm.weight"@)
        && names.contains("output.weight"@));
    assert forall|i: int, j: int|
        0 <= i < c.block_count && 0 <= j < layer_suffixes().len() implies a.named(
        #[trigger] layer_name(i as nat, layer_suffixes()[j]),
    ) == b.named(layer_name(i as nat, layer_suffixes()[j])) by {
        let rest = all_layer_names(layer_suffixes(), c.block_count as nat);
        let name = layer_name(i as nat, layer_suffixes()[j]);
        layer_names_are_listed(layer_suffixes(), c.block_count as nat, i as nat, j);
        let at = choose|k: int| 0 <= k < rest.len() && #[trigger] rest[k] == name;
        assert(names[3 + at] == name);
        assert(names.contains(name));
    }
    lemma_same_missing(a, b, c.block_count as nat);
    if is_model_of(w, a, c, f, dtype, place) {
        lemma_same_model(a, b, w, c, f, dtype, place);
    }
    if is_model_of(w, b, c, f, dtype, place) {
        lemma_same_model(b, a, w, c, f, dtype, place);
    }
}

/// The model of a file is that of a file that agrees with it under the listed
/// names and has the same output projection.
proof fn lemma_same_model(
    a: &Gguf,
    b: &Gguf,
    w: ModelView,
    c: &Config,
    f: &Floats,
    dtype: DType,
    place: Place,
)
    requires
        is_model_of(w, a, c, f, dtype, place),
        a.named("token_embd.weight"@) == b.named("token_embd.weight"@),
        a.named("output_norm.weight"@) == b.named("output_norm.weight"@),
        is_output_of(w.output, b),
        forall|i: int, j: int|
            0 <= i < c.block_count && 0 <= j < layer_suffixes().len() ==> a.named(
                #[trigger] layer_name(i as nat, layer_suffixes()[j]),
            ) == b.named(layer_name(i as nat, layer_suffixes()[j])),
    ensures
        is_model_of(w, b, c, f, dtype, place),
{
    assert forall|i: int| 0 <= i < c.block_count implies #[trigger] is_layer_of(
        w.layers[i],
        b,
        i as nat,
        layer_settings(c, f, dtype, i),
        layer_rotary(c, f, dtype, place, i),
        place,
    ) by {
        assert(is_layer_of(
            w.layers[i],
            a,
            i as nat,
            layer_settings(c, f, dtype, i),
            layer_rotary(c, f, dtype, place, i),
            place,
        ));
        layers_are_read_under_listed_names(
            a,
            b,
            i as nat,
            w.layers[i],
            layer_settings(c, f, dtype, i),
            layer_rotary(c, f, dtype, place, i),
            place,
        );
    }
}

/// Files that agree under the names of some layers lack the same tensors of
/// these.
proof fn lemma_same_missing(a: &Gguf, b: &Gguf, n: nat)
    requires
        forall|i: int, j: int|
            0 <= i < n && 0 <= j < layer_suffixes().len() ==> a.named(
                #[trigger] layer_name(i as nat, layer_suffixes()[j]),
            ) == b.named(layer_name(i as nat, layer_suffixes()[j])),
    ensures
        layers_missing(a, n) == layers_missing(b, n),
    decreases n,
{
    if n > 0 {
        let i = n - 1;
        lemma_same_missing(a, b, (n - 1) as nat);
        assert forall|j: int| 0 <= j < layer_suffixes().len() implies a.named(
            #[trigger] layer_name(i as nat, layer_suffixes()[j]),
        ) == b.named(layer_name(i as nat, layer_suffixes()[j])) by {}
        layers_are_read_under_listed_names(
            a,
            b,
            i as nat,
            arbitrary::<LayerView>(),
            arbitrary::<LayerSettings>(),
            arbitrary::<RotaryView>(),
            Place::Cpu,
        );
    }
}

/// The values' own projections that are in a file are sure to be loaded.
pub open spec fn own_values_load(gg: &Gguf, n: nat) -> bool {
    forall|i: int|
        0 <= i < n && (#[trigger] gg.named(layer_name(i as nat, ".attn_v.weight"@))) is Some
            ==> loads(tensor_at(gg, layer_name(i as nat, ".attn_v.weight"@)))
}

/// A file without an output projection has one model.
proof fn lemma_one_model(
    gg: &Gguf,
    c: &Config,
    f: &Floats,
    dtype: DType,
    place: Place,
    v: ModelView,
    w: ModelView,
)
    requires
        gg.named("output.weight"@) is None,
        own_values_load(gg, c.block_count as nat),
        is_model_of(v, gg, c, f, dtype, place),
        is_model_of(w, gg, c, f, dtype, place),
    ensures
        v == w,
{
    assert forall|i: int| 0 <= i < c.block_count implies v.layers[i] == w.layers[i] by {
        let s = layer_settings(c, f, dtype, i);
        let rotary = layer_rotary(c, f, dtype, place, i);
        assert(is_layer_of(v.layers[i], gg, i as nat, s, rotary, place));
        assert(is_layer_of(w.layers[i], gg, i as nat, s, rotary, place));
        let own = gg.named(layer_name(i as nat, ".attn_v.weight"@));
        assert(v.layers[i].attention.v == w.layers[i].attention.v);
    }
    assert(v.layers =~= w.layers);
}

/// Without the embeddings there is no model, with or without an output
/// projection.
pub proof fn embeddings_are_needed(gg: &Gguf, n: nat)
    requires
        gg.named("token_embd.weight"@) is None,
    ensures
        model_missing(gg, n) == Some("token_embd.weight"@),
{
}

/// Tied embeddings: a file without an output projection is read as one whose
/// output projection is the tensor of the embeddings. Both lack the same
/// tensors, the one is sure to be loaded where the other is, and where what may
/// be left out loads, the models are the same, and so are their logits and what
/// they keep, call by call.
pub proof fn tied_output(
    a: &Gguf,
    b: &Gguf,
    c: &Config,
    f: &Floats,
    dtype: DType,
    place: Place,
    v: ModelView,
    w: ModelView,
)
    requires
        a.named("output.weight"@) is None,
        a.named("token_embd.weight"@) is Some,
        b.named("output.weight"@) == a.named("token_embd.weight"@),
        forall|name: Seq<char>| name != "output.weight"@ ==> #[trigger] b.named(name) == a.named(
            name,
        ),
    ensures
        model_missing(b, c.block_count as nat) == model_missing(a, c.block_count as nat),
        model_loads(b, c, f, dtype, place) == model_loads(a, c, f, dtype, place),
        is_model_of(w, b, c, f, dtype, place) == is_model_of(w, a, c, f, dtype, place),
        own_values_load(a, c.block_count as nat) && is_model_of(v, a, c, f, dtype, place)
            && is_model_of(w, b, c, f, dtype, place) ==> {
            &&& v == w
            &&& forall|kept: Seq<Kept>, input: TensorView, offset: usize|
                logits(v, kept, input, offset) == #[trigger] logits(w, kept, input, offset)
            &&& forall|kept: Seq<Kept>, input: TensorView, offset: usize, i: int|
                kept_by(v, kept, input, offset, i) == #[trigger] kept_by(w, kept, input, offset, i)
        },
{
    let n = c.block_count as nat;
    lemma_model_names_differ(0, Seq::empty());
    assert forall|i: nat, rest: Seq<char>| b.named(#[trigger] layer_name(i, rest)) == a.named(
        layer_name(i, rest),
    ) by {
        lemma_model_names_differ(i, rest);
    }
    lemma_same_missing(a, b, n);
    assert forall|i: int| 0 <= i < n implies #[trigger] block_loads(b, c, f, dtype, place, i)
        == block_loads(a, c, f, dtype, place, i) by {}
    if blocks_load(a, c, f, dtype, place) {
        assert forall|i: int| 0 <= i < n implies #[trigger] block_loads(
            b,
            c,
            f,
            dtype,
            place,
            i,
        ) by {
            assert(block_loads(a, c, f, dtype, place, i));
        }
    }
    if blocks_load(b, c, f, dtype, place) {
        assert forall|i: int| 0 <= i < n implies #[trigger] block_loads(
            a,
            c,
            f,
            dtype,
            place,
            i,
        ) by {
            assert(block_loads(b, c, f, dtype, place, i));
        }
    }
    if is_model_of(w, a, c, f, dtype, place) {
        lemma_same_model(a, b, w, c, f, dtype, place);
    }
    if is_model_of(w, b, c, f, dtype, place) {
        lemma_same_model(b, a, w, c, f, dtype, place);
    }
    if own_values_load(a, n) && is_model_of(v, a, c, f, dtype, place) && is_model_of(
        w,
        a,
        c,
        f,
        dtype,
        place,
    ) {
        lemma_one_model(a, c, f, dtype, place, v, w);
    }
}

/// What each layer keeps after a call.
pub open spec fn kept_by_all(w: ModelView, kept: Seq<Kept>, input: TensorView, offset: usize) -> Seq<
    Kept,
> {
    Seq::new(w.layers.len(), |i: int| kept_by(w, kept, input, offset, i))
}

/// A prompt fed in two pieces: where the scales of the layers fit, the second
/// call gives logits of the dims that the whole prompt gives, and leaves as many
/// positions kept in every layer. The masks of the pieces are the rows of that
/// of the whole (`pieces_see_the_same`), but for pieces of a single position.
pub proof fn pieces_end_like_the_whole(
    w: ModelView,
    kept: Seq<Kept>,
    whole: TensorView,
    first: TensorView,
    rest: TensorView,
)
    requires
        whole.dims.len() == 2,
        first.dims.len() == 2,
        rest.dims.len() == 2,
        first.dims[0] == whole.dims[0] && rest.dims[0] == whole.dims[0],
        first.dims[1] > 0 && rest.dims[1] > 0,
        first.dims[1] + rest.dims[1] == whole.dims[1],
        scales_fit(w, whole) && scales_fit(w, first) && scales_fit(w, rest),
    ensures
        ({
            let then = kept_by_all(w, kept, first, 0);
            &&& logits(w, then, rest, first.dims[1]).dims() == logits(w, kept, whole, 0).dims()
            &&& forall|i: int|
                0 <= i < w.layers.len() ==> {
                    &&& holds(
                        #[trigger] kept_by(w, then, rest, first.dims[1], i),
                        whole.dims[1] as int,
                    )
                    &&& holds(kept_by(w, kept, whole, 0, i), whole.dims[1] as int)
                }
        }),
{
    let then = kept_by_all(w, kept, first, 0);
    positions_add_up(w, kept, first, 0);
    assert(goes_on(w, then, first.dims[1])) by {
        assert forall|i: int| 0 <= i < w.layers.len() implies holds(
            #[trigger] then[i],
            first.dims[1] as int,
        ) by {
            assert(then[i] == kept_by(w, kept, first, 0, i));
        }
    }
    positions_add_up(w, then, rest, first.dims[1]);
    positions_add_up(w, kept, whole, 0);
    logits_shape(w, then, rest, first.dims[1]);
    logits_shape(w, kept, whole, 0);
    assert forall|i: int| 0 <= i < w.layers.len() implies holds(
        #[trigger] kept_by(w, then, rest, first.dims[1], i),
        whole.dims[1] as int,
    ) && holds(kept_by(w, kept, whole, 0, i), whole.dims[1] as int) by {}
}

/// The parts of a model without experts agree with each other.
pub open spec fn model_shaped(w: ModelView) -> bool {
    &&& w.embedding_length > 0
    &&& w.embeddings.dims.len() == 2
    &&& w.embeddings.dims[0] > 0
    &&& w.embeddings.dims[1] == w.embedding_length
    &&& forall|i: int|
        0 <= i < w.layers.len() ==> layer_shaped(#[trigger] w.layers[i], w.embedding_length)
    &&& w.norm.weight.dims == seq![w.embedding_length]
    &&& maps(w.output, w.embedding_length, qtensor_dims(w.output)[0])
}

/// The parts of a model agree, on the cpu, in single precision.
pub open spec fn model_maps(w: ModelView) -> bool {
    &&& model_shaped(w)
    &&& w.place == Place::Cpu
    &&& w.dtype == DType::F32
    &&& tidy_view(w.embeddings)
    &&& forall|i: int|
        0 <= i < w.layers.len() ==> layer_maps(#[trigger] w.layers[i], w.embedding_length)
    &&& norms(w.norm, w.embedding_length)
}

/// The inverse frequencies of each layer are half as many as the elements of its
/// heads.
pub open spec fn tables_fit(c: &Config, f: &Floats) -> bool {
    forall|i: int|
        0 <= i < c.block_count ==> {
            &&& 2 * (#[trigger] layer_table(c, f, i)).dims[1] == c.head_dim(i)
            &&& c.head_dim(i) > 0
        }
}

/// A model that was read on the cpu, in single precision, and whose dims agree,
/// can be run there, and has angles for each position of its context.
pub proof fn loaded_models_map(w: ModelView, gg: &Gguf, c: &Config, f: &Floats)
    requires
        is_model_of(w, gg, c, f, DType::F32, Place::Cpu),
        model_loads(gg, c, f, DType::F32, Place::Cpu),
        model_shaped(w),
        tables_fit(c, f),
        c.context_length > 0,
    ensures
        model_maps(w),
        turns_layers(w, c.context_length as int),
{
    loaded_norms_take_rows(
        tensor_at(gg, "output_norm.weight"@),
        f.rms_norm_eps,
        w.embedding_length,
    );
    lemma_fresh(given(w.embeddings));
    assert forall|i: int| 0 <= i < w.layers.len() implies {
        &&& layer_maps(#[trigger] w.layers[i], w.embedding_length)
        &&& turns(
            w.layers[i].attention.rotary,
            c.context_length as int,
            w.layers[i].attention.head_dim,
        )
    } by {
        assert(block_loads(gg, c, f, DType::F32, Place::Cpu, i));
        assert(layer_shaped(w.layers[i], w.embedding_length));
        assert(is_layer_of(
            w.layers[i],
            gg,
            i as nat,
            layer_settings(c, f, DType::F32, i),
            layer_rotary(c, f, DType::F32, Place::Cpu, i),
            Place::Cpu,
        ));
        loaded_layers_map(
            w.layers[i],
            gg,
            i as nat,
            layer_settings(c, f, DType::F32, i),
            layer_rotary(c, f, DType::F32, Place::Cpu, i),
            w.embedding_length,
        );
        loaded_angles_turn(layer_table(c, f, i), c.context_length);
    }
}

/// Each layer has angles for `len` positions.
pub open spec fn turns_layers(w: ModelView, len: int) -> bool {
    forall|i: int|
        0 <= i < w.layers.len() ==> turns(
            (#[trigger] w.layers[i]).attention.rotary,
            len,
            w.layers[i].attention.head_dim,
        )
}

/// What each layer kept is of `len` positions of `batch` sequences.
pub open spec fn kept_layers(w: ModelView, kept: Seq<Kept>, batch: usize, len: usize) -> bool {
    forall|i: int|
        0 <= i < w.layers.len() ==> kept_maps(
            (#[trigger] w.layers[i]).attention,
            kept[i],
            batch,
            len,
        )
}

/// Tokens of a call, on the cpu: one sequence, or one position of several.
pub open spec fn tokens(input: TensorView) -> bool {
    &&& indexes_on_cpu(input)
    &&& input.dims.len() == 2
    &&& input.dims[0] > 0
    &&& input.dims[1] > 0
    &&& input.dims[0] == 1 || input.dims[1] == 1
}

/// A model without experts is sure to succeed on the cpu, in single precision, for
/// one sequence or one position of several: where the dims agree, there are angles
/// for the positions, and what is kept is of the positions before. Each layer then
/// keeps the positions of the call, too, so that the next call succeeds as well.
pub proof fn calls_are_sure(w: ModelView, kept: Seq<Kept>, input: TensorView, offset: usize)
    requires
        model_maps(w),
        tokens(input),
        offset + input.dims[1] <= usize::MAX,
        turns_layers(w, offset + input.dims[1]),
        offset > 0 ==> kept_layers(w, kept, input.dims[0], offset),
        runs(w, kept, input, offset),
    ensures
        runs_surely(w, kept, input, offset),
        forall|i: int|
            0 <= i < w.layers.len() ==> kept_maps(
                w.layers[i].attention,
                #[trigger] kept_by(w, kept, input, offset, i),
                input.dims[0],
                (offset + input.dims[1]) as usize,
            ),
{
    let l = input.dims[1];
    if l != 1 {
        masks_are_sure_on_cpu(l, offset, None);
        masks_are_sure_on_cpu(l, offset, Some(w.sliding_window));
    }
    lemma_tidy_stream(w, kept, input, offset, w.layers.len());
    let xs = stream(w, kept, input, offset, w.layers.len());
    let last = last_position(xs, l);
    lemma_last_dims(xs, l);
    last_positions_are_sure(xs, l);
    norms_are_sure(last, w.norm);
    let all = through(normed(last, w.norm), w.output);
    projections_are_sure(normed(last, w.norm), w.output, qtensor_dims(w.output)[0]);
    if let Some(sc) = w.softcap {
        lemma_tidy_mapped(Op::DivScalar(sc), all);
        lemma_tidy_mapped(Op::Tanh, mapped(Op::DivScalar(sc), all));
        lemma_tidy_mapped(
            Op::MulScalar(sc),
            mapped(Op::Tanh, mapped(Op::DivScalar(sc), all)),
        );
    }
    assert forall|i: int| 0 <= i < w.layers.len() implies kept_maps(
        w.layers[i].attention,
        #[trigger] kept_by(w, kept, input, offset, i),
        input.dims[0],
        (offset + l) as usize,
    ) by {
        lemma_tidy_layer(w, kept, input, offset, i);
    }
}

proof fn lemma_tidy_layer(
    w: ModelView,
    kept: Seq<Kept>,
    input: TensorView,
    offset: usize,
    i: int,
)
    requires
        0 <= i < w.layers.len(),
        model_maps(w),
        tokens(input),
        offset + input.dims[1] <= usize::MAX,
        turns_layers(w, offset + input.dims[1]),
        offset > 0 ==> kept_layers(w, kept, input.dims[0], offset),
        runs(w, kept, input, offset),
    ensures
        tidy(stream(w, kept, input, offset, (i + 1) as nat)),
        stream(w, kept, input, offset, (i + 1) as nat).dims() == residual_dims(w, input),
        kept_maps(
            w.layers[i].attention,
            kept_by(w, kept, input, offset, i),
            input.dims[0],
            (offset + input.dims[1]) as usize,
        ),
    decreases i, 1int,
{
    lemma_tidy_stream(w, kept, input, offset, i as nat);
    lemma_sound_so_far(w, kept, input, offset, (i + 1) as nat, w.layers.len());
    assert(layer_maps(w.layers[i], w.embedding_length));
    layers_are_sure(
        w.layers[i],
        stream(w, kept, input, offset, i as nat),
        run_view(mask_for(w, w.is_sliding[i], input.dims[1], offset)),
        offset,
        kept[i],
        input.dims[1] > 1,
    );
}

proof fn lemma_tidy_stream(
    w: ModelView,
    kept: Seq<Kept>,
    input: TensorView,
    offset: usize,
    n: nat,
)
    requires
        n <= w.layers.len(),
        model_maps(w),
        tokens(input),
        offset + input.dims[1] <= usize::MAX,
        turns_layers(w, offset + input.dims[1]),
        offset > 0 ==> kept_layers(w, kept, input.dims[0], offset),
        runs(w, kept, input, offset),
    ensures
        tidy(stream(w, kept, input, offset, n)),
        stream(w, kept, input, offset, n).dims() == residual_dims(w, input),
    decreases n, 0int,
{
    if n == 0 {
        lemma_sound_so_far(w, kept, input, offset, 0, w.layers.len());
        let xs = embedded(given(w.embeddings), given(input), w.embedding_length);
        assert(xs.dims() =~= residual_dims(w, input));
        assert(w.embeddings.dims[1] > 0);
        lemma_fresh(xs);
        lemma_tidy_mapped(Op::MulScalar(w.embedding_scale), xs);
    } else {
        lemma_tidy_layer(w, kept, input, offset, n - 1);
    }
}

} // verus!
