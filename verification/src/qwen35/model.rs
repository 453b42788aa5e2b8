//! The model: embeddings, layers, and the logits of the last position.

use crate::attention::{
    holds, last_position, last_positions_are_sure, lemma_last_dims, mask_certain, mask_sound,
    mask_view, mask_view_of, no_kept, run_view, take_last, Kept,
};
use crate::error::ModelError;
use crate::gguf::{is_key_error, Gguf};
use crate::mask::{additive_mask, causal_mask, masks_are_sure_on_cpu};
use crate::nn::{
    absent, earlier, is_output_of, load_error, load_linear, load_norm, loaded_norms_take_rows, maps,
    norm_of, normed, norms, norms_are_sure, own_or_tied, projections_are_sure, rotary_of, small,
    tensor_at, there, through, NormView, QLinear, RmsNorm, RotaryView,
};
use crate::qwen35::attention::{kept_positions, AttentionSettings};
use crate::qwen35::config::{config_error, layer_suffixes, model_names, Config};
use crate::qwen35::layer::{
    fresh_layer, kept_layer, layer_kept, layer_loads, layer_maps, layer_missing, layer_of,
    layer_output, layer_shaped, layer_sound, layers_are_sure, lemma_layer_stands, loaded_layers_map,
    turns_layer, DecoderLayer, LayerView,
};
use crate::tensor::ops;
use crate::tensor::raw;
use crate::tensor::raw::{device_place, qtensor_dims, tensor_below, tensor_view};
use crate::tensor::run::{
    comes_out, dequantized, embedded, ends, given, only_if, refused, run_of, stands_for, Run,
};
use crate::tensor::sure::{lemma_fresh, tidy, tidy_view};
use crate::tensor::view::{indexes_on_cpu, Place, TensorView};
use crate::text::{all_layer_names, layer_name, layer_names_are_listed, lemma_model_names_differ};
use candle_core::quantized::QTensor;
use candle_core::scalar::Scalar;
use candle_core::{DType, Device, Tensor};
use vstd::prelude::*;
use vstd::string::StringExecFns;

verus! {

/// The floating point numbers of a model.
pub struct Floats {
    /// The epsilon of the normalisations.
    pub rms_norm_eps: Scalar,
    /// The inverse square root of the head size.
    pub attention_scale: Scalar,
    /// The inverse frequencies of the rotary embedding, in one row.
    pub inv_freq: Tensor,
}

/// What is known of a model, but for the keys and values that it keeps.
pub struct ModelView {
    pub embeddings: TensorView,
    pub embedding_length: usize,
    pub layers: Seq<LayerView>,
    pub norm: NormView,
    pub output: QTensor,
    pub place: Place,
}

/// The mask of a call; none for a single position.
pub open spec fn mask_for(w: ModelView, seq_len: usize, offset: usize) -> Option<Run> {
    if seq_len == 1 {
        None
    } else {
        Some(additive_mask(seq_len, offset, None, w.place))
    }
}

/// The residual after the first `n` layers.
pub open spec fn stream(
    w: ModelView,
    kept: Seq<Kept>,
    input: TensorView,
    offset: usize,
    n: nat,
) -> Run
    decreases n,
{
    if n == 0 {
        embedded(given(w.embeddings), given(input), w.embedding_length)
    } else {
        layer_output(
            w.layers[n - 1],
            stream(w, kept, input, offset, (n - 1) as nat),
            run_view(mask_for(w, input.dims[1], offset)),
            offset,
            kept[n - 1],
        )
    }
}

/// What layer `i` keeps after a call.
pub open spec fn kept_by(
    w: ModelView,
    kept: Seq<Kept>,
    input: TensorView,
    offset: usize,
    i: int,
) -> Kept {
    layer_kept(w.layers[i], stream(w, kept, input, offset, i as nat), offset, kept[i])
}

/// The logits of the last position.
pub open spec fn logits(
    w: ModelView,
    kept: Seq<Kept>,
    input: TensorView,
    offset: usize,
) -> Run {
    let xs = stream(w, kept, input, offset, w.layers.len());
    through(normed(last_position(xs, input.dims[1]), w.norm), w.output)
}

/// Each step towards the logits is one that the operations take.
pub open spec fn runs(w: ModelView, kept: Seq<Kept>, input: TensorView, offset: usize) -> bool {
    logits(w, kept, input, offset).sound && mask_sound(mask_for(w, input.dims[1], offset))
}

/// The logits are sure to be computed for tokens below the number of embeddings.
pub open spec fn runs_surely(
    w: ModelView,
    kept: Seq<Kept>,
    input: TensorView,
    offset: usize,
) -> bool {
    logits(w, kept, input, offset).certain() && mask_certain(
        mask_for(w, input.dims[1], offset),
    )
}

/// The tokens of an input are below the number of embeddings.
pub open spec fn tokens_known(w: ModelView, input: Tensor) -> bool {
    tensor_below(input, w.embeddings.dims[0] as int)
}

/// The run of one layer for a given residual.
pub open spec fn debug_run(
    w: ModelView,
    kept: Seq<Kept>,
    hidden: TensorView,
    layer_idx: int,
    offset: usize,
) -> Run {
    let mask = mask_for(w, hidden.dims[1], offset);
    only_if(
        layer_output(
            w.layers[layer_idx],
            given(hidden),
            run_view(mask),
            offset,
            kept[layer_idx],
        ),
        mask_sound(mask),
    )
}

/// What the layers keep after the run of one of them for a given residual.
pub open spec fn debug_kept(
    w: ModelView,
    kept: Seq<Kept>,
    hidden: TensorView,
    layer_idx: int,
    offset: usize,
) -> Seq<Kept> {
    kept.update(
        layer_idx,
        layer_kept(w.layers[layer_idx], given(hidden), offset, kept[layer_idx]),
    )
}

/// The residual, and what the layers keep, after the first `n` layers were run
/// one by one, each for the residual that the one before it gave, from the
/// embeddings on.
pub open spec fn debugged(
    w: ModelView,
    kept: Seq<Kept>,
    input: TensorView,
    offset: usize,
    n: nat,
) -> (Run, Seq<Kept>)
    decreases n,
{
    if n == 0 {
        (embedded(given(w.embeddings), given(input), w.embedding_length), kept)
    } else {
        let (h, so_far) = debugged(w, kept, input, offset, (n - 1) as nat);
        let step = debug_run(w, so_far, h.view, n - 1, offset);
        (
            Run { sound: h.sound && step.sound, sure: h.sure && step.sure, ..step },
            debug_kept(w, so_far, h.view, n - 1, offset),
        )
    }
}

/// The first tensor missing among those of the first `n` layers.
pub open spec fn layers_missing(gg: &Gguf, c: &Config, n: nat) -> Option<Seq<char>>
    decreases n,
{
    if n == 0 {
        None
    } else {
        earlier(
            layers_missing(gg, c, (n - 1) as nat),
            layer_missing(gg, (n - 1) as nat, c.attends(n - 1)),
        )
    }
}

/// The first tensor missing for a model.
pub open spec fn model_missing(gg: &Gguf, c: &Config) -> Option<Seq<char>> {
    earlier(
        absent(gg, "token_embd.weight"@),
        earlier(
            absent(gg, "output_norm.weight"@),
            layers_missing(gg, c, c.block_count as nat),
        ),
    )
}

/// The settings of attention.
pub open spec fn attention_settings(c: &Config, f: &Floats, dtype: DType) -> AttentionSettings {
    AttentionSettings {
        num_heads: c.num_heads,
        num_kv_heads: c.num_kv_heads,
        head_dim: c.head_dim,
        rope_dim: c.rope_dim,
        eps: f.rms_norm_eps,
        scale: f.attention_scale,
        dtype,
    }
}

/// Each step towards layer `i` is one that the operations take.
pub open spec fn layer_runs(
    gg: &Gguf,
    c: &Config,
    f: &Floats,
    dtype: DType,
    place: Place,
    i: int,
) -> bool {
    layer_sound(
        gg,
        i as nat,
        c.attends(i),
        tensor_view(f.inv_freq),
        dtype,
        c.context_length,
        place,
    )
}

/// Each step towards the layers is one that the operations take.
pub open spec fn layers_sound(
    gg: &Gguf,
    c: &Config,
    f: &Floats,
    dtype: DType,
    place: Place,
) -> bool {
    forall|i: int| 0 <= i < c.block_count ==> #[trigger] layer_runs(gg, c, f, dtype, place, i)
}

/// Each step towards the model is one that the operations take.
pub open spec fn model_sound(
    gg: &Gguf,
    c: &Config,
    f: &Floats,
    dtype: DType,
    place: Place,
) -> bool {
    &&& small(gg, "token_embd.weight"@)
    &&& small(gg, "output_norm.weight"@)
    &&& layers_sound(gg, c, f, dtype, place)
}

/// Layer `i` is sure to be loaded.
pub open spec fn block_loads(
    gg: &Gguf,
    c: &Config,
    f: &Floats,
    dtype: DType,
    place: Place,
    i: int,
) -> bool {
    layer_loads(
        gg,
        i as nat,
        c.attends(i),
        tensor_view(f.inv_freq),
        dtype,
        c.context_length,
        place,
    )
}

/// The layers are sure to be loaded.
pub open spec fn blocks_load(
    gg: &Gguf,
    c: &Config,
    f: &Floats,
    dtype: DType,
    place: Place,
) -> bool {
    forall|i: int|
        0 <= i < c.block_count ==> #[trigger] block_loads(gg, c, f, dtype, place, i)
}

/// The model is sure to be loaded: its tensors are on the cpu, and so is the
/// model.
pub open spec fn model_loads(
    gg: &Gguf,
    c: &Config,
    f: &Floats,
    dtype: DType,
    place: Place,
) -> bool {
    &&& there(gg, "token_embd.weight"@)
    &&& there(gg, "output_norm.weight"@)
    &&& blocks_load(gg, c, f, dtype, place)
    &&& !bad_config(c)
    &&& place == Place::Cpu
}

/// No model has these settings: layers without an interval of attention, or
/// attention without heads of keys and values.
pub open spec fn bad_config(c: &Config) -> bool {
    c.block_count > 0 && (c.full_attention_interval == 0 || (c.num_kv_heads == 0
        && c.full_attention_interval <= c.block_count))
}

/// The model is the one of a file.
pub open spec fn is_model_of(
    w: ModelView,
    gg: &Gguf,
    c: &Config,
    f: &Floats,
    dtype: DType,
    place: Place,
) -> bool {
    &&& w.embeddings == dequantized(tensor_at(gg, "token_embd.weight"@), place).view
    &&& w.embedding_length == c.embedding_length
    &&& w.layers == Seq::new(
        c.block_count as nat,
        |i: int|
            layer_of(
                gg,
                i as nat,
                c.attends(i),
                attention_settings(c, f, dtype),
                rotary_of(tensor_view(f.inv_freq), dtype, c.context_length, place),
            ),
    )
    &&& w.norm == norm_of(tensor_at(gg, "output_norm.weight"@), f.rms_norm_eps)
    &&& is_output_of(w.output, gg)
    &&& w.place == place
}

spec fn layers_of(layers: Seq<DecoderLayer>) -> Seq<LayerView> {
    Seq::new(layers.len(), |i: int| layers[i]@)
}

spec fn kept_of(layers: Seq<DecoderLayer>) -> Seq<Kept> {
    Seq::new(layers.len(), |i: int| layers[i].kept())
}

/// A model.
pub struct ModelWeights {
    tok_embeddings: Tensor,
    embedding_length: usize,
    layers: Vec<DecoderLayer>,
    norm: RmsNorm,
    output: QLinear,
    device: Device,
}

impl ModelWeights {
    pub closed spec fn view(&self) -> ModelView {
        ModelView {
            embeddings: tensor_view(self.tok_embeddings),
            embedding_length: self.embedding_length,
            layers: layers_of(self.layers@),
            norm: self.norm@,
            output: self.output.weight(),
            place: device_place(self.device),
        }
    }

    /// The keys and values that each layer keeps.
    pub closed spec fn kept(&self) -> Seq<Kept> {
        kept_of(self.layers@)
    }

    /// Reads the layers.
    fn load_layers(gg: &Gguf, c: &Config, f: &Floats, device: &Device, dtype: DType) -> (r: Result<
        Vec<DecoderLayer>,
        ModelError,
    >)
        requires
            !bad_config(c),
        ensures
            match r {
                Ok(layers) => {
                    &&& layers_missing(gg, c, c.block_count as nat) is None
                    &&& layers@.len() == c.block_count
                    &&& forall|i: int|
                        0 <= i < c.block_count ==> {
                            &&& (#[trigger] layers@[i]).kept() is None
                            &&& layers@[i]@ == layer_of(
                                gg,
                                i as nat,
                                c.attends(i),
                                attention_settings(c, f, dtype),
                                rotary_of(
                                    tensor_view(f.inv_freq),
                                    dtype,
                                    c.context_length,
                                    device_place(*device),
                                ),
                            )
                        }
                },
                Err(e) => {
                    &&& load_error(
                        e,
                        layers_sound(gg, c, f, dtype, device_place(*device)),
                        layers_missing(gg, c, c.block_count as nat),
                    )
                    &&& !blocks_load(gg, c, f, dtype, device_place(*device))
                },
            },
    {
        let s = AttentionSettings {
            num_heads: c.num_heads,
            num_kv_heads: c.num_kv_heads,
            head_dim: c.head_dim,
            rope_dim: c.rope_dim,
            eps: f.rms_norm_eps,
            scale: f.attention_scale,
            dtype,
        };
        let mut layers: Vec<DecoderLayer> = Vec::new();
        let mut i: usize = 0;
        while i < c.block_count
            invariant
                !bad_config(c),
                s == attention_settings(c, f, dtype),
                i <= c.block_count,
                layers_missing(gg, c, i as nat) is None,
                layers@.len() == i,
                forall|j: int|
                    0 <= j < i ==> {
                        &&& (#[trigger] layers@[j]).kept() is None
                        &&& layers@[j]@ == layer_of(
                            gg,
                            j as nat,
                            c.attends(j),
                            s,
                            rotary_of(
                                tensor_view(f.inv_freq),
                                dtype,
                                c.context_length,
                                device_place(*device),
                            ),
                        )
                    },
            decreases c.block_count - i,
        {
            let attends = (i + 1) % c.full_attention_interval == 0;
            proof {
                lemma_missing_stays(gg, c, (i + 1) as nat, c.block_count as nat);
                let all = layers_sound(gg, c, f, dtype, device_place(*device));
                assert(all ==> layer_runs(gg, c, f, dtype, device_place(*device), i as int));
                let sure = blocks_load(gg, c, f, dtype, device_place(*device));
                assert(sure ==> block_loads(gg, c, f, dtype, device_place(*device), i as int));
                if attends && c.full_attention_interval > i + 1 {
                    vstd::arithmetic::div_mod::lemma_small_mod(
                        (i + 1) as nat,
                        c.full_attention_interval as nat,
                    );
                }
            }
            let layer = DecoderLayer::load(
                gg,
                i,
                attends,
                &s,
                &f.inv_freq,
                c.context_length,
                device,
            )?;
            layers.push(layer);
            i = i + 1;
        }
        Ok(layers)
    }

    /// Reads a model from a file: its settings from the metadata, then its
    /// tensors.
    pub fn from_gguf(gg: &Gguf, floats: &Floats, device: &Device, dtype: DType) -> (r: Result<
        ModelWeights,
        ModelError,
    >)
        ensures
            match config_error(gg.metadata@) {
                Some(k) => r is Err && is_key_error(r->Err_0, k),
                None => exists|c: Config| #[trigger]
                    c.reads(gg.metadata@) && loaded(
                        r,
                        gg,
                        &c,
                        floats,
                        dtype,
                        device_place(*device),
                    ),
            },
    {
        let config = Config::read(gg)?;
        let r = Self::with_config(gg, &config, floats, device, dtype);
        assert(config.reads(gg.metadata@));
        r
    }

    /// Reads a model with given settings from the tensors of a file. The output
    /// projection falls back to the embeddings.
    pub fn with_config(
        gg: &Gguf,
        config: &Config,
        floats: &Floats,
        device: &Device,
        dtype: DType,
    ) -> (r: Result<ModelWeights, ModelError>)
        ensures
            loaded(r, gg, config, floats, dtype, device_place(*device)),
    {
        let embeddings = gg.tensor(&String::from_str("token_embd.weight"))?;
        let tok_embeddings = ops::dequantize(&embeddings, device)?;
        let norm = load_norm(gg, &String::from_str("output_norm.weight"), floats.rms_norm_eps)?;
        let output = own_or_tied(load_linear(gg, &String::from_str("output.weight")), gg)?;
        if config.block_count > 0 && (config.full_attention_interval == 0 || (config.num_kv_heads
            == 0 && config.full_attention_interval <= config.block_count)) {
            return Err(ModelError::BadConfig);
        }
        let layers = Self::load_layers(gg, config, floats, device, dtype)?;
        let m = ModelWeights {
            tok_embeddings,
            embedding_length: config.embedding_length,
            layers,
            norm,
            output,
            device: raw::same_device(device),
        };
        proof {
            let place = device_place(*device);
            assert(m@.layers =~= Seq::new(
                config.block_count as nat,
                |i: int|
                    layer_of(
                        gg,
                        i as nat,
                        config.attends(i),
                        attention_settings(config, floats, dtype),
                        rotary_of(
                            tensor_view(floats.inv_freq),
                            dtype,
                            config.context_length,
                            place,
                        ),
                    ),
            ));
            assert(m.kept() =~= no_kept(config.block_count as nat));
        }
        Ok(m)
    }

    /// The mask of a call; none for a single position.
    fn mask(&self, seq_len: usize, offset: usize) -> (r: Result<Option<Tensor>, ModelError>)
        ensures
            match r {
                Ok(mask) => {
                    &&& mask_view_of(mask) == run_view(mask_for(self@, seq_len, offset))
                    &&& mask_sound(mask_for(self@, seq_len, offset))
                },
                Err(e) => {
                    &&& refused(e, mask_sound(mask_for(self@, seq_len, offset)))
                    &&& !mask_certain(mask_for(self@, seq_len, offset))
                },
            },
            seq_len == 1 ==> r is Ok,
            self@.place == Place::Cpu && mask_sound(mask_for(self@, seq_len, offset)) ==> r is Ok,
    {
        if seq_len == 1 {
            return Ok(None);
        }
        proof {
            if self@.place == Place::Cpu && mask_sound(mask_for(self@, seq_len, offset)) {
                masks_are_sure_on_cpu(seq_len, offset, None);
            }
        }
        Ok(Some(causal_mask(seq_len, offset, None, &self.device)?))
    }

    /// Runs layer `idx`.
    fn run_layer(&mut self, idx: usize, xs: &Tensor, mask: Option<&Tensor>, offset: usize) -> (r:
        Result<Tensor, ModelError>)
        requires
            idx < old(self)@.layers.len(),
        ensures
            final(self)@ == old(self)@,
            match r {
                Ok(_) => final(self).kept() == old(self).kept().update(
                    idx as int,
                    layer_kept(
                        old(self)@.layers[idx as int],
                        run_of(*xs),
                        offset,
                        old(self).kept()[idx as int],
                    ),
                ),
                Err(_) => final(self).kept() == old(self).kept() || final(self).kept() == old(
                    self,
                ).kept().update(
                    idx as int,
                    layer_kept(
                        old(self)@.layers[idx as int],
                        run_of(*xs),
                        offset,
                        old(self).kept()[idx as int],
                    ),
                ),
            },
            ends(
                r,
                layer_output(
                    old(self)@.layers[idx as int],
                    run_of(*xs),
                    mask_view(mask),
                    offset,
                    old(self).kept()[idx as int],
                ),
            ),
    {
        let ghost before = self.layers@;
        let r = self.layers[idx].forward(xs, mask, offset);
        proof {
            let after = self.layers@;
            assert(layers_of(after) =~= layers_of(before));
            assert(kept_of(after) =~= kept_of(before).update(
                idx as int,
                after[idx as int].kept(),
            ));
            assert(kept_of(before) =~= kept_of(before).update(
                idx as int,
                before[idx as int].kept(),
            ));
        }
        r
    }

    /// Runs the layers.
    fn run_layers(&mut self, input: &Tensor, seq_len: usize, offset: usize) -> (r: Result<
        Tensor,
        ModelError,
    >)
        requires
            tensor_view(*input).dims.len() == 2,
            seq_len == tensor_view(*input).dims[1],
        ensures
            final(self)@ == old(self)@,
            final(self).kept().len() == old(self)@.layers.len(),
            r is Ok ==> {
                &&& comes_out(
                    r->Ok_0,
                    stream(
                        old(self)@,
                        old(self).kept(),
                        tensor_view(*input),
                        offset,
                        old(self)@.layers.len(),
                    ),
                )
                &&& mask_sound(mask_for(old(self)@, seq_len, offset))
                &&& forall|i: int|
                    0 <= i < old(self)@.layers.len() ==> #[trigger] final(self).kept()[i]
                        == kept_by(
                        old(self)@,
                        old(self).kept(),
                        tensor_view(*input),
                        offset,
                        i,
                    )
            },
            r is Err ==> {
                &&& refused(
                    r->Err_0,
                    stream(
                        old(self)@,
                        old(self).kept(),
                        tensor_view(*input),
                        offset,
                        old(self)@.layers.len(),
                    ).sound && mask_sound(mask_for(old(self)@, seq_len, offset)),
                )
                &&& !(stream(
                    old(self)@,
                    old(self).kept(),
                    tensor_view(*input),
                    offset,
                    old(self)@.layers.len(),
                ).certain() && mask_certain(mask_for(old(self)@, seq_len, offset))
                    && tokens_known(old(self)@, *input))
                &&& forall|i: int|
                    0 <= i < old(self)@.layers.len() ==> #[trigger] final(self).kept()[i] == old(
                        self,
                    ).kept()[i] || final(self).kept()[i] == kept_by(
                        old(self)@,
                        old(self).kept(),
                        tensor_view(*input),
                        offset,
                        i,
                    )
            },
    {
        let ghost w = self@;
        let ghost kept = self.kept();
        let ghost input_view = tensor_view(*input);
        proof {
            lemma_sound_so_far(w, kept, input_view, offset, 0, w.layers.len());
        }
        let mut xs = ops::embedding(&self.tok_embeddings, self.embedding_length, input)?;
        let mask = self.mask(seq_len, offset)?;
        let mut idx: usize = 0;
        while idx < self.layers.len()
            invariant
                idx <= self.layers@.len(),
                self.layers@.len() == w.layers.len(),
                input_view == tensor_view(*input),
                seq_len == input_view.dims[1],
                self@ == w,
                w == old(self)@,
                kept == old(self).kept(),
                kept.len() == w.layers.len(),
                mask_sound(mask_for(w, seq_len, offset)),
                mask_view_of(mask) == run_view(mask_for(w, seq_len, offset)),
                comes_out(xs, stream(w, kept, input_view, offset, idx as nat)),
                forall|i: int|
                    0 <= i < idx ==> #[trigger] self.kept()[i] == kept_by(
                        w,
                        kept,
                        input_view,
                        offset,
                        i,
                    ),
                forall|i: int| idx <= i < w.layers.len() ==> #[trigger] self.kept()[i] == kept[i],
            decreases self.layers@.len() - idx,
        {
            proof {
                lemma_sound_so_far(w, kept, input_view, offset, (idx + 1) as nat, w.layers.len());
                lemma_layer_stands(
                    w.layers[idx as int],
                    run_of(xs),
                    stream(w, kept, input_view, offset, idx as nat),
                    run_view(mask_for(w, seq_len, offset)),
                    offset,
                    kept[idx as int],
                );
            }
            let step = self.run_layer(idx, &xs, mask.as_ref(), offset);
            xs = step?;
            idx = idx + 1;
        }
        Ok(xs)
    }

    /// The logits of the last position of `input`, whose tokens start at
    /// `offset`. A failed call may have kept keys and values of its own in some
    /// of the layers.
    pub fn forward(&mut self, input: &Tensor, offset: usize) -> (r: Result<Tensor, ModelError>)
        ensures
            final(self)@ == old(self)@,
            final(self).kept().len() == old(self)@.layers.len(),
            tensor_view(*input).dims.len() != 2 ==> r is Err && r->Err_0 is UnexpectedRank
                && final(self).kept() == old(self).kept(),
            tensor_view(*input).dims.len() == 2 && tensor_view(*input).dims[1] == 0 ==> r is Err
                && r->Err_0 is EmptySequence && final(self).kept() == old(self).kept(),
            match r {
                Ok(y) => {
                    &&& comes_out(
                        y,
                        logits(old(self)@, old(self).kept(), tensor_view(*input), offset),
                    )
                    &&& runs(old(self)@, old(self).kept(), tensor_view(*input), offset)
                    &&& forall|i: int|
                        0 <= i < old(self)@.layers.len() ==> #[trigger] final(self).kept()[i]
                            == kept_by(
                            old(self)@,
                            old(self).kept(),
                            tensor_view(*input),
                            offset,
                            i,
                        )
                },
                Err(e) => {
                    &&& tensor_view(*input).dims.len() == 2 && tensor_view(*input).dims[1] > 0
                        ==> refused(
                        e,
                        runs(old(self)@, old(self).kept(), tensor_view(*input), offset),
                    )
                    &&& tensor_view(*input).dims.len() == 2 && tensor_view(*input).dims[1] > 0
                        ==> !(runs_surely(
                        old(self)@,
                        old(self).kept(),
                        tensor_view(*input),
                        offset,
                    ) && tokens_known(old(self)@, *input))
                    &&& forall|i: int|
                        0 <= i < old(self)@.layers.len() ==> #[trigger] final(self).kept()[i]
                            == old(self).kept()[i] || final(self).kept()[i] == kept_by(
                            old(self)@,
                            old(self).kept(),
                            tensor_view(*input),
                            offset,
                            i,
                        )
                },
            },
    {
        let (b, seq_len) = ops::dims2(input)?;
        if seq_len == 0 {
            return Err(ModelError::EmptySequence);
        }
        let xs = self.run_layers(input, seq_len, offset)?;
        let xs = take_last(&xs, seq_len)?;
        self.output.forward(&self.norm.forward(&xs)?)
    }

    /// The output of one layer for a given residual, whose positions start at
    /// `offset`.
    pub fn debug_layer(&mut self, hidden: &Tensor, layer_idx: usize, offset: usize) -> (r: Result<
        Tensor,
        ModelError,
    >)
        ensures
            final(self)@ == old(self)@,
            tensor_view(*hidden).dims.len() != 3 ==> r is Err && r->Err_0 is UnexpectedRank
                && final(self).kept() == old(self).kept(),
            tensor_view(*hidden).dims.len() == 3 && layer_idx >= old(self)@.layers.len() ==> {
                &&& r is Err && r->Err_0 == ModelError::NoSuchLayer(layer_idx)
                &&& final(self).kept() == old(self).kept()
            },
            match r {
                Ok(y) => {
                    &&& layer_idx < old(self)@.layers.len()
                    &&& comes_out(
                        y,
                        debug_run(
                            old(self)@,
                            old(self).kept(),
                            tensor_view(*hidden),
                            layer_idx as int,
                            offset,
                        ),
                    )
                    &&& final(self).kept() == debug_kept(
                        old(self)@,
                        old(self).kept(),
                        tensor_view(*hidden),
                        layer_idx as int,
                        offset,
                    )
                },
                Err(e) => {
                    &&& tensor_view(*hidden).dims.len() == 3 && layer_idx
                        < old(self)@.layers.len() ==> refused(
                        e,
                        debug_run(
                            old(self)@,
                            old(self).kept(),
                            tensor_view(*hidden),
                            layer_idx as int,
                            offset,
                        ).sound,
                    )
                    &&& tensor_view(*hidden).dims.len() == 3 && layer_idx
                        < old(self)@.layers.len() ==> !(debug_run(
                        old(self)@,
                        old(self).kept(),
                        tensor_view(*hidden),
                        layer_idx as int,
                        offset,
                    ).certain() && mask_certain(
                        mask_for(old(self)@, tensor_view(*hidden).dims[1], offset),
                    ))
                    &&& final(self).kept() == old(self).kept() || (layer_idx
                        < old(self)@.layers.len() && final(self).kept() == debug_kept(
                        old(self)@,
                        old(self).kept(),
                        tensor_view(*hidden),
                        layer_idx as int,
                        offset,
                    ))
                },
            },
    {
        let (b, seq_len, d) = ops::dims3(hidden)?;
        if layer_idx >= self.layers.len() {
            return Err(ModelError::NoSuchLayer(layer_idx));
        }
        let mask = self.mask(seq_len, offset)?;
        self.run_layer(layer_idx, hidden, mask.as_ref(), offset)
    }

    /// Forgets the kept keys and values of every layer.
    pub fn clear_kv_cache(&mut self)
        ensures
            final(self)@ == old(self)@,
            final(self).kept() == no_kept(old(self)@.layers.len()),
    {
        let ghost w = self@;
        let mut i: usize = 0;
        while i < self.layers.len()
            invariant
                i <= self.layers@.len(),
                self@ == w,
                w == old(self)@,
                self.layers@.len() == w.layers.len(),
                forall|j: int| 0 <= j < i ==> (#[trigger] self.layers@[j]).kept() is None,
            decreases self.layers@.len() - i,
        {
            let ghost before = self.layers@;
            self.layers[i].clear_kv_cache();
            proof {
                assert(layers_of(self.layers@) =~= layers_of(before));
                assert forall|j: int| 0 <= j < i + 1 implies (
                #[trigger] self.layers@[j]).kept() is None by {
                    if j < i {
                        assert(self.layers@[j] == before[j]);
                    }
                }
            }
            i = i + 1;
        }
        assert(self.kept() =~= no_kept(w.layers.len()));
    }
}

/// The outcome of reading a model with given settings.
pub open spec fn loaded(
    r: Result<ModelWeights, ModelError>,
    gg: &Gguf,
    c: &Config,
    f: &Floats,
    dtype: DType,
    place: Place,
) -> bool {
    match r {
        Ok(m) => {
            &&& model_missing(gg, c) is None
            &&& !bad_config(c)
            &&& is_model_of(m@, gg, c, f, dtype, place)
            &&& m.kept() == no_kept(c.block_count as nat)
        },
        Err(e) => {
            &&& load_error(e, model_sound(gg, c, f, dtype, place), model_missing(gg, c)) || (
            e is BadConfig && bad_config(c))
            &&& !model_loads(gg, c, f, dtype, place)
        },
    }
}

/// What is missing for some layers is missing for more of them.
proof fn lemma_missing_stays(gg: &Gguf, c: &Config, n: nat, m: nat)
    requires
        n <= m,
    ensures
        layers_missing(gg, c, n) is Some ==> layers_missing(gg, c, m) == layers_missing(gg, c, n),
    decreases m,
{
    if n < m {
        lemma_missing_stays(gg, c, n, (m - 1) as nat);
    }
}

/// A run through a layer is sound, and sure, only where the run up to it is.
proof fn lemma_sound_so_far(
    w: ModelView,
    kept: Seq<Kept>,
    input: TensorView,
    offset: usize,
    n: nat,
    m: nat,
)
    requires
        n <= m,
    ensures
        stream(w, kept, input, offset, m).sound ==> stream(w, kept, input, offset, n).sound,
        stream(w, kept, input, offset, m).sure ==> stream(w, kept, input, offset, n).sure,
    decreases m,
{
    if n < m {
        lemma_sound_so_far(w, kept, input, offset, n, (m - 1) as nat);
        reveal(layer_output);
    }
}

/// A sequence that starts afresh does not depend on what the layers kept, and
/// so a call at offset 0 gives the same logits as one after `clear_kv_cache`.
/// The layers with attention keep the same, too.
pub proof fn fresh_start(w: ModelView, kept: Seq<Kept>, input: TensorView)
    requires
        kept.len() == w.layers.len(),
    ensures
        logits(w, kept, input, 0) == logits(w, no_kept(w.layers.len()), input, 0),
        forall|i: int|
            0 <= i < w.layers.len() && w.layers[i].attention is Some ==> kept_by(
                w,
                kept,
                input,
                0,
                i,
            ) == #[trigger] kept_by(w, no_kept(w.layers.len()), input, 0, i),
{
    let none = no_kept(w.layers.len());
    lemma_fresh_stream(w, kept, input, w.layers.len());
    assert forall|i: int|
        0 <= i < w.layers.len() && w.layers[i].attention is Some implies kept_by(
        w,
        kept,
        input,
        0,
        i,
    ) == #[trigger] kept_by(w, none, input, 0, i) by {
        lemma_fresh_stream(w, kept, input, i as nat);
        fresh_layer(w.layers[i], stream(w, none, input, 0, i as nat), None, kept[i]);
    }
}

proof fn lemma_fresh_stream(w: ModelView, kept: Seq<Kept>, input: TensorView, n: nat)
    requires
        n <= w.layers.len(),
        kept.len() == w.layers.len(),
    ensures
        stream(w, kept, input, 0, n) == stream(w, no_kept(w.layers.len()), input, 0, n),
    decreases n,
{
    if n > 0 {
        lemma_fresh_stream(w, kept, input, (n - 1) as nat);
        fresh_layer(
            w.layers[n - 1],
            stream(w, kept, input, 0, (n - 1) as nat),
            run_view(mask_for(w, input.dims[1], 0)),
            kept[n - 1],
        );
    }
}

/// The residual keeps the dims (batch, sequence, embedding length), and the
/// logits are one row for each sequence, as long as the output projection is
/// high.
pub proof fn logits_shape(w: ModelView, kept: Seq<Kept>, input: TensorView, offset: usize)
    requires
        input.dims.len() == 2,
        input.dims[1] > 0,
    ensures
        stream(w, kept, input, offset, w.layers.len()).dims() == seq![
            input.dims[0],
            input.dims[1],
            w.embedding_length,
        ],
        logits(w, kept, input, offset).dims() == seq![
            input.dims[0],
            qtensor_dims(w.output)[0],
        ],
{
    lemma_stream_dims(w, kept, input, offset, w.layers.len());
    let xs = stream(w, kept, input, offset, w.layers.len());
    lemma_last_dims(xs, input.dims[1]);
    assert(logits(w, kept, input, offset).dims() =~= seq![
        input.dims[0],
        qtensor_dims(w.output)[0],
    ]);
}

proof fn lemma_stream_dims(
    w: ModelView,
    kept: Seq<Kept>,
    input: TensorView,
    offset: usize,
    n: nat,
)
    requires
        n <= w.layers.len(),
        input.dims.len() == 2,
    ensures
        stream(w, kept, input, offset, n).dims() == seq![
            input.dims[0],
            input.dims[1],
            w.embedding_length,
        ],
    decreases n,
{
    if n == 0 {
        assert(embedded(given(w.embeddings), given(input), w.embedding_length).dims() =~= seq![
            input.dims[0],
            input.dims[1],
            w.embedding_length,
        ]);
    } else {
        lemma_stream_dims(w, kept, input, offset, (n - 1) as nat);
        reveal(layer_output);
    }
}

/// Every layer with attention has kept as many positions as there are before a
/// call, or the sequence starts afresh.
pub open spec fn goes_on(w: ModelView, kept: Seq<Kept>, offset: usize) -> bool {
    offset > 0 ==> forall|i: int|
        0 <= i < w.layers.len() && w.layers[i].attention is Some ==> holds(
            #[trigger] kept[i],
            offset as int,
        )
}

/// Every layer with attention keeps the positions before a call and those of
/// the call, and the mask is as wide.
#[verifier::spinoff_prover]
#[verifier::rlimit(40)]
pub proof fn positions_add_up(w: ModelView, kept: Seq<Kept>, input: TensorView, offset: usize)
    requires
        input.dims.len() == 2,
        offset + input.dims[1] <= usize::MAX,
        goes_on(w, kept, offset),
        forall|i: int|
            0 <= i < w.layers.len() && (#[trigger] w.layers[i]).attention is Some
                ==> w.layers[i].attention->0.rope_dim <= w.layers[i].attention->0.head_dim,
    ensures
        forall|i: int|
            0 <= i < w.layers.len() && w.layers[i].attention is Some ==> holds(
                #[trigger] kept_by(w, kept, input, offset, i),
                offset + input.dims[1],
            ),
        input.dims[1] != 1 ==> mask_for(w, input.dims[1], offset)->0.dims()[3] == offset
            + input.dims[1],
{
    assert forall|i: int|
        0 <= i < w.layers.len() && w.layers[i].attention is Some implies holds(
        #[trigger] kept_by(w, kept, input, offset, i),
        offset + input.dims[1],
    ) by {
        lemma_stream_dims(w, kept, input, offset, i as nat);
        let x = normed(stream(w, kept, input, offset, i as nat), w.layers[i].input_norm);
        reveal(layer_kept);
        kept_positions(w.layers[i].attention->0, x, offset, kept[i]);
    }
}

/// The layers of a file are read under the listed names alone: files that
/// agree under these names give the same layer, and lack the same tensors.
pub proof fn layers_are_read_under_listed_names(
    a: &Gguf,
    b: &Gguf,
    i: nat,
    attends: bool,
    s: AttentionSettings,
    rotary: RotaryView,
)
    requires
        forall|j: int|
            0 <= j < layer_suffixes().len() ==> a.named(
                #[trigger] layer_name(i, layer_suffixes()[j]),
            ) == b.named(layer_name(i, layer_suffixes()[j])),
    ensures
        layer_missing(a, i, attends) == layer_missing(b, i, attends),
        layer_of(a, i, attends, s, rotary) == layer_of(b, i, attends, s, rotary),
{
    let names = layer_suffixes();
    assert forall|j: int| 0 <= j < 11 implies a.named(layer_name(i, #[trigger] names[j]))
        == b.named(layer_name(i, names[j])) by {}
    assert(names[0] == ".attn_norm.weight"@ && names[1] == ".post_attention_norm.weight"@
        && names[2] == ".attn_q.weight"@ && names[3] == ".attn_k.weight"@ && names[4]
        == ".attn_v.weight"@ && names[5] == ".attn_output.weight"@);
    assert(names[6] == ".attn_q_norm.weight"@ && names[7] == ".attn_k_norm.weight"@ && names[8]
        == ".ffn_gate.weight"@ && names[9] == ".ffn_up.weight"@ && names[10]
        == ".ffn_down.weight"@);
}

/// A model is read under the listed names alone: files that agree under these
/// names give the same model, and lack the same tensors.
pub proof fn models_are_read_under_listed_names(
    a: &Gguf,
    b: &Gguf,
    w: ModelView,
    c: &Config,
    f: &Floats,
    dtype: DType,
    place: Place,
)
    requires
        forall|name: Seq<char>| #[trigger]
            model_names(c.block_count as nat).contains(name) ==> a.named(name) == b.named(name),
    ensures
        model_missing(a, c) == model_missing(b, c),
        is_model_of(w, a, c, f, dtype, place) == is_model_of(w, b, c, f, dtype, place),
{
    let names = model_names(c.block_count as nat);
    assert(names[0] == "token_embd.weight"@ && names[1] == "output_norm.weight"@ && names[2]
        == "output.weight"@);
    assert(names.contains("token_embd.weight"@) && names.contains("output_norm.weight"@)
        && names.contains("output.weight"@));
    assert forall|i: int, j: int|
        0 <= i < c.block_count && 0 <= j < layer_suffixes().len() implies a.named(
        #[trigger] layer_name(i as nat, layer_suffixes()[j]),
    ) == b.named(layer_name(i as nat, layer_suffixes()[j])) by {
        let rest = all_layer_names(layer_suffixes(), c.block_count as nat);
        let name = layer_name(i as nat, layer_suffixes()[j]);
        layer_names_are_listed(layer_suffixes(), c.block_count as nat, i as nat, j);
        let at = choose|k: int| 0 <= k < rest.len() && #[trigger] rest[k] == name;
        assert(names[3 + at] == name);
        assert(names.contains(name));
    }
    lemma_same_missing(a, b, c, c.block_count as nat);
    let s = attention_settings(c, f, dtype);
    let rotary = rotary_of(tensor_view(f.inv_freq), dtype, c.context_length, place);
    let layers_a = Seq::new(
        c.block_count as nat,
        |i: int| layer_of(a, i as nat, c.attends(i), s, rotary),
    );
    let layers_b = Seq::new(
        c.block_count as nat,
        |i: int| layer_of(b, i as nat, c.attends(i), s, rotary),
    );
    assert forall|i: int| 0 <= i < c.block_count implies layers_a[i] == layers_b[i] by {
        layers_are_read_under_listed_names(a, b, i as nat, c.attends(i), s, rotary);
    }
    assert(layers_a =~= layers_b);
}

/// Files that agree under the names of some layers lack the same tensors of
/// these.
proof fn lemma_same_missing(a: &Gguf, b: &Gguf, c: &Config, n: nat)
    requires
        forall|i: int, j: int|
            0 <= i < n && 0 <= j < layer_suffixes().len() ==> a.named(
                #[trigger] layer_name(i as nat, layer_suffixes()[j]),
            ) == b.named(layer_name(i as nat, layer_suffixes()[j])),
    ensures
        layers_missing(a, c, n) == layers_missing(b, c, n),
    decreases n,
{
    if n > 0 {
        let i = n - 1;
        lemma_same_missing(a, b, c, (n - 1) as nat);
        assert forall|j: int| 0 <= j < layer_suffixes().len() implies a.named(
            #[trigger] layer_name(i as nat, layer_suffixes()[j]),
        ) == b.named(layer_name(i as nat, layer_suffixes()[j])) by {}
        let s = arbitrary::<AttentionSettings>();
        let rotary = arbitrary::<RotaryView>();
        layers_are_read_under_listed_names(a, b, i as nat, c.attends(i), s, rotary);
    }
}

/// Running the layers one by one through `debug_layer` is running the model:
/// where the run is sound, the residuals have the dims of the embeddings, after
/// all layers they give the logits of `forward`, and each layer keeps what it
/// keeps in `forward`; those not yet run keep what they kept. The calls are sure
/// to succeed where `forward` is.
pub proof fn layers_one_by_one(
    w: ModelView,
    kept: Seq<Kept>,
    input: TensorView,
    offset: usize,
    n: nat,
)
    requires
        input.dims.len() == 2,
        kept.len() == w.layers.len(),
        n <= w.layers.len(),
        runs(w, kept, input, offset),
    ensures
        ({
            let (h, after) = debugged(w, kept, input, offset, n);
            &&& stands_for(h, stream(w, kept, input, offset, n))
            &&& h.sound
            &&& h.dims() == seq![input.dims[0], input.dims[1], w.embedding_length]
            &&& after.len() == kept.len()
            &&& forall|i: int|
                0 <= i < n ==> #[trigger] after[i] == kept_by(w, kept, input, offset, i)
            &&& forall|i: int| n <= i < w.layers.len() ==> #[trigger] after[i] == kept[i]
            &&& n == w.layers.len() ==> stands_for(
                through(normed(last_position(h, input.dims[1]), w.norm), w.output),
                logits(w, kept, input, offset),
            )
        }),
    decreases n,
{
    lemma_sound_so_far(w, kept, input, offset, n, w.layers.len());
    lemma_stream_dims(w, kept, input, offset, n);
    if n > 0 {
        layers_one_by_one(w, kept, input, offset, (n - 1) as nat);
        let (h, so_far) = debugged(w, kept, input, offset, (n - 1) as nat);
        lemma_sound_so_far(w, kept, input, offset, (n - 1) as nat, n);
        lemma_layer_stands(
            w.layers[n - 1],
            given(h.view),
            stream(w, kept, input, offset, (n - 1) as nat),
            run_view(mask_for(w, input.dims[1], offset)),
            offset,
            kept[n - 1],
        );
    }
}

/// Without the embeddings there is no model, with or without an output
/// projection.
pub proof fn embeddings_are_needed(gg: &Gguf, c: &Config)
    requires
        gg.named("token_embd.weight"@) is None,
    ensures
        model_missing(gg, c) == Some("token_embd.weight"@),
{
}

/// Tied embeddings: a file without an output projection is read as one whose
/// output projection is the tensor of the embeddings. Both lack the same
/// tensors, the one is sure to be loaded where the other is, and the models are
/// the same, and so are their logits and what they keep, call by call.
pub proof fn tied_output(
    a: &Gguf,
    b: &Gguf,
    c: &Config,
    f: &Floats,
    dtype: DType,
    place: Place,
    v: ModelView,
    w: ModelView,
)
    requires
        a.named("output.weight"@) is None,
        a.named("token_embd.weight"@) is Some,
        b.named("output.weight"@) == a.named("token_embd.weight"@),
        forall|name: Seq<char>| name != "output.weight"@ ==> #[trigger] b.named(name) == a.named(
            name,
        ),
    ensures
        model_missing(b, c) == model_missing(a, c),
        model_loads(b, c, f, dtype, place) == model_loads(a, c, f, dtype, place),
        is_model_of(w, b, c, f, dtype, place) == is_model_of(w, a, c, f, dtype, place),
        is_model_of(v, a, c, f, dtype, place) && is_model_of(w, b, c, f, dtype, place) ==> {
            &&& v == w
            &&& forall|kept: Seq<Kept>, input: TensorView, offset: usize|
                logits(v, kept, input, offset) == #[trigger] logits(w, kept, input, offset)
            &&& forall|kept: Seq<Kept>, input: TensorView, offset: usize, i: int|
                kept_by(v, kept, input, offset, i) == #[trigger] kept_by(w, kept, input, offset, i)
        },
{
    let n = c.block_count as nat;
    lemma_model_names_differ(0, Seq::empty());
    assert forall|i: nat, rest: Seq<char>| b.named(#[trigger] layer_name(i, rest)) == a.named(
        layer_name(i, rest),
    ) by {
        lemma_model_names_differ(i, rest);
    }
    lemma_same_missing(a, b, c, n);
    assert forall|i: int| 0 <= i < n implies #[trigger] block_loads(b, c, f, dtype, place, i)
        == block_loads(a, c, f, dtype, place, i) by {}
    if blocks_load(a, c, f, dtype, place) {
        assert forall|i: int| 0 <= i < n implies #[trigger] block_loads(
            b,
            c,
            f,
            dtype,
            place,
            i,
        ) by {
            assert(block_loads(a, c, f, dtype, place, i));
        }
    }
    if blocks_load(b, c, f, dtype, place) {
        assert forall|i: int| 0 <= i < n implies #[trigger] block_loads(
            a,
            c,
            f,
            dtype,
            place,
            i,
        ) by {
            assert(block_loads(b, c, f, dtype, place, i));
        }
    }
    let s = attention_settings(c, f, dtype);
    let rotary = rotary_of(tensor_view(f.inv_freq), dtype, c.context_length, place);
    assert(Seq::new(n, |i: int| layer_of(a, i as nat, c.attends(i), s, rotary)) =~= Seq::new(
        n,
        |i: int| layer_of(b, i as nat, c.attends(i), s, rotary),
    )) by {
        assert forall|i: int| 0 <= i < n implies layer_of(a, i as nat, c.attends(i), s, rotary)
            == #[trigger] layer_of(b, i as nat, c.attends(i), s, rotary) by {
            layers_are_read_under_listed_names(a, b, i as nat, c.attends(i), s, rotary);
        }
    }
}

/// What each layer keeps after a call.
pub open spec fn kept_by_all(w: ModelView, kept: Seq<Kept>, input: TensorView, offset: usize) -> Seq<
    Kept,
> {
    Seq::new(w.layers.len(), |i: int| kept_by(w, kept, input, offset, i))
}

/// A prompt fed in two pieces: the second call gives logits of the dims that the
/// whole prompt gives, and leaves as many positions kept in every layer with
/// attention. The masks of the pieces are the rows of that of the whole
/// (`pieces_see_the_same`); a piece of a single position sees all that is kept.
pub proof fn pieces_end_like_the_whole(
    w: ModelView,
    kept: Seq<Kept>,
    whole: TensorView,
    first: TensorView,
    rest: TensorView,
)
    requires
        whole.dims.len() == 2,
        first.dims.len() == 2,
        rest.dims.len() == 2,
        first.dims[0] == whole.dims[0] && rest.dims[0] == whole.dims[0],
        first.dims[1] > 0 && rest.dims[1] > 0,
        first.dims[1] + rest.dims[1] == whole.dims[1],
        forall|i: int|
            0 <= i < w.layers.len() && (#[trigger] w.layers[i]).attention is Some
                ==> w.layers[i].attention->0.rope_dim <= w.layers[i].attention->0.head_dim,
    ensures
        ({
            let then = kept_by_all(w, kept, first, 0);
            &&& logits(w, then, rest, first.dims[1]).dims() == logits(w, kept, whole, 0).dims()
            &&& forall|i: int|
                0 <= i < w.layers.len() && w.layers[i].attention is Some ==> {
                    &&& holds(
                        #[trigger] kept_by(w, then, rest, first.dims[1], i),
                        whole.dims[1] as int,
                    )
                    &&& holds(kept_by(w, kept, whole, 0, i), whole.dims[1] as int)
                }
        }),
{
    let then = kept_by_all(w, kept, first, 0);
    positions_add_up(w, kept, first, 0);
    assert(goes_on(w, then, first.dims[1])) by {
        assert forall|i: int| 0 <= i < w.layers.len() && w.layers[i].attention is Some implies holds(
            #[trigger] then[i],
            first.dims[1] as int,
        ) by {
            assert(then[i] == kept_by(w, kept, first, 0, i));
        }
    }
    positions_add_up(w, then, rest, first.dims[1]);
    positions_add_up(w, kept, whole, 0);
    logits_shape(w, then, rest, first.dims[1]);
    logits_shape(w, kept, whole, 0);
    assert forall|i: int| 0 <= i < w.layers.len() && w.layers[i].attention is Some implies holds(
        #[trigger] kept_by(w, then, rest, first.dims[1], i),
        whole.dims[1] as int,
    ) && holds(kept_by(w, kept, whole, 0, i), whole.dims[1] as int) by {}
}

/// The parts of a model agree with each other.
pub open spec fn model_shaped(w: ModelView) -> bool {
    &&& w.embedding_length > 0
    &&& w.embeddings.dims.len() == 2
    &&& w.embeddings.dims[0] > 0
    &&& w.embeddings.dims[1] == w.embedding_length
    &&& forall|i: int|
        0 <= i < w.layers.len() ==> layer_shaped(#[trigger] w.layers[i], w.embedding_length)
    &&& w.norm.weight.dims == seq![w.embedding_length]
    &&& maps(w.output, w.embedding_length, qtensor_dims(w.output)[0])
}

/// The parts of a model agree, on the cpu, in single precision.
pub open spec fn model_maps(w: ModelView) -> bool {
    &&& model_shaped(w)
    &&& w.place == Place::Cpu
    &&& tidy_view(w.embeddings)
    &&& forall|i: int|
        0 <= i < w.layers.len() ==> layer_maps(#[trigger] w.layers[i], w.embedding_length)
    &&& norms(w.norm, w.embedding_length)
}

/// A model that was read on the cpu, in single precision, and whose dims agree,
/// can be run there, and has angles for each position of its context.
pub proof fn loaded_models_map(w: ModelView, gg: &Gguf, c: &Config, f: &Floats)
    requires
        is_model_of(w, gg, c, f, DType::F32, Place::Cpu),
        model_loads(gg, c, f, DType::F32, Place::Cpu),
        model_shaped(w),
        c.rope_dim > 0,
        2 * tensor_view(f.inv_freq).dims[1] == c.rope_dim,
        c.context_length > 0,
    ensures
        model_maps(w),
        turns_layers(w, c.context_length as int),
{
    loaded_norms_take_rows(
        tensor_at(gg, "output_norm.weight"@),
        f.rms_norm_eps,
        w.embedding_length,
    );
    lemma_fresh(given(w.embeddings));
    assert forall|i: int| 0 <= i < w.layers.len() implies {
        &&& layer_maps(#[trigger] w.layers[i], w.embedding_length)
        &&& turns_layer(w.layers[i], c.context_length as int)
    } by {
        assert(block_loads(gg, c, f, DType::F32, Place::Cpu, i));
        assert(layer_shaped(w.layers[i], w.embedding_length));
        loaded_layers_map(
            gg,
            i as nat,
            c.attends(i),
            attention_settings(c, f, DType::F32),
            tensor_view(f.inv_freq),
            c.context_length,
            w.embedding_length,
        );
    }
}

/// Each layer has angles for `len` positions.
pub open spec fn turns_layers(w: ModelView, len: int) -> bool {
    forall|i: int| 0 <= i < w.layers.len() ==> turns_layer(#[trigger] w.layers[i], len)
}

/// What each layer kept is of `len` positions of `batch` sequences.
pub open spec fn kept_layers(w: ModelView, kept: Seq<Kept>, batch: usize, len: usize) -> bool {
    forall|i: int|
        0 <= i < w.layers.len() ==> kept_layer(#[trigger] w.layers[i], kept[i], batch, len)
}

/// Tokens of a call, on the cpu: one sequence, or one position of several.
pub open spec fn tokens(input: TensorView) -> bool {
    &&& indexes_on_cpu(input)
    &&& input.dims.len() == 2
    &&& input.dims[0] > 0
    &&& input.dims[1] > 0
    &&& input.dims[0] == 1 || input.dims[1] == 1
}

/// A model is sure to succeed on the cpu, in single precision, for one sequence or
/// one position of several: where the dims agree, there are angles for the
/// positions, and what is kept is of the positions before. Each layer then keeps
/// the positions of the call, too, so that the next call succeeds as well.
pub proof fn calls_are_sure(w: ModelView, kept: Seq<Kept>, input: TensorView, offset: usize)
    requires
        model_maps(w),
        tokens(input),
        offset + input.dims[1] <= usize::MAX,
        turns_layers(w, offset + input.dims[1]),
        offset > 0 ==> kept_layers(w, kept, input.dims[0], offset),
        runs(w, kept, input, offset),
    ensures
        runs_surely(w, kept, input, offset),
        forall|i: int|
            0 <= i < w.layers.len() ==> kept_layer(
                w.layers[i],
                #[trigger] kept_by(w, kept, input, offset, i),
                input.dims[0],
                (offset + input.dims[1]) as usize,
            ),
{
    let l = input.dims[1];
    if l != 1 {
        masks_are_sure_on_cpu(l, offset, None);
    }
    lemma_tidy_stream(w, kept, input, offset, w.layers.len());
    let xs = stream(w, kept, input, offset, w.layers.len());
    let last = last_position(xs, l);
    logits_shape(w, kept, input, offset);
    lemma_last_dims(xs, l);
    last_positions_are_sure(xs, l);
    norms_are_sure(last, w.norm);
    projections_are_sure(normed(last, w.norm), w.output, qtensor_dims(w.output)[0]);
    assert forall|i: int| 0 <= i < w.layers.len() implies kept_layer(
        w.layers[i],
        #[trigger] kept_by(w, kept, input, offset, i),
        input.dims[0],
        (offset + l) as usize,
    ) by {
        lemma_tidy_layer(w, kept, input, offset, i);
    }
}

proof fn lemma_tidy_layer(
    w: ModelView,
    kept: Seq<Kept>,
    input: TensorView,
    offset: usize,
    i: int,
)
    requires
        0 <= i < w.layers.len(),
        model_maps(w),
        tokens(input),
        offset + input.dims[1] <= usize::MAX,
        turns_layers(w, offset + input.dims[1]),
        offset > 0 ==> kept_layers(w, kept, input.dims[0], offset),
        runs(w, kept, input, offset),
    ensures
        tidy(stream(w, kept, input, offset, (i + 1) as nat)),
        stream(w, kept, input, offset, (i + 1) as nat).dims() == seq![
            input.dims[0],
            input.dims[1],
            w.embedding_length,
        ],
        kept_layer(
            w.layers[i],
            kept_by(w, kept, input, offset, i),
            input.dims[0],
            (offset + input.dims[1]) as usize,
        ),
    decreases i, 1int,
{
    lemma_tidy_stream(w, kept, input, offset, i as nat);
    lemma_sound_so_far(w, kept, input, offset, (i + 1) as nat, w.layers.len());
    assert(layer_maps(w.layers[i], w.embedding_length));
    layers_are_sure(
        w.layers[i],
        stream(w, kept, input, offset, i as nat),
        run_view(mask_for(w, input.dims[1], offset)),
        offset,
        kept[i],
    );
}

proof fn lemma_tidy_stream(
    w: ModelView,
    kept: Seq<Kept>,
    input: TensorView,
    offset: usize,
    n: nat,
)
    requires
        n <= w.layers.len(),
        model_maps(w),
        tokens(input),
        offset + input.dims[1] <= usize::MAX,
        turns_layers(w, offset + input.dims[1]),
        offset > 0 ==> kept_layers(w, kept, input.dims[0], offset),
        runs(w, kept, input, offset),
    ensures
        tidy(stream(w, kept, input, offset, n)),
        stream(w, kept, input, offset, n).dims() == seq![
            input.dims[0],
            input.dims[1],
            w.embedding_length,
        ],
    decreases n, 0int,
{
    if n == 0 {
        lemma_sound_so_far(w, kept, input, offset, 0, w.layers.len());
        let xs = embedded(given(w.embeddings), given(input), w.embedding_length);
        assert(xs.dims() =~= seq![input.dims[0], input.dims[1], w.embedding_length]);
        assert(w.embeddings.dims[1] > 0);
        lemma_fresh(xs);
    } else {
        lemma_tidy_layer(w, kept, input, offset, n - 1);
    }
}

} // verus!
