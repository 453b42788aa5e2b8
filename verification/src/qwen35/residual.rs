//! What the layers make of the residual and which logits come out, number by number,
//! in the names that the file gives to the tensors.

use crate::attention::{last_position, run_view, Kept};
use crate::formula::{
    embedding, embeddings_by_row, feedforward, feedforwards_by_row, file_norms_by_row, kept_keys,
    kept_values, last_rows, mask_number, mask_row, masks_by_position, matrix_norms_by_row,
    matrix_projections_by_row, norms_by_row, norms_in_file, projection, row2, row3, rows3, rows4,
    scaled_by, sums, sums_by_row,
};
use crate::gguf::Gguf;
use crate::mlp::{fed, missing_feedforwards_in_order, mlp_maps, mlp_missing, mlp_names, Gate};
use crate::nn::{
    absent, earlier, first_missing, lemma_first_missing, lemma_missing_one, loads, norm_of, normed,
    rotary_of, tensor_at, RotaryView,
};
use crate::qwen35::attention::{
    attended, attention_missing, attention_shaped, AttentionSettings, AttentionView,
};
use crate::qwen35::config::Config;
use crate::qwen35::layer::{layer_kept, layer_missing, layer_of, layer_output, token_mix, LayerView};
use crate::qwen35::meaning::{asked, attention_by_row, kept_by_row, keys, output, values};
use crate::qwen35::model::{
    is_model_of, layers_missing, logits, mask_for, model_missing, runs, stream, Floats, ModelView,
};
use crate::tensor::element::{cast, element, element_zeros, Num};
use crate::tensor::raw::{qtensor_dims, tensor_view};
use crate::tensor::run::{dequantized, embedded, given, paired, Run};
use crate::tensor::view::{Op, Place, TensorView};
use crate::text::layer_name;
use candle_core::quantized::QTensor;
use candle_core::DType;
use vstd::prelude::*;

verus! {

/// The tensor of layer `i` with a name.
pub open spec fn named(gg: &Gguf, i: nat, name: Seq<char>) -> QTensor {
    tensor_at(gg, layer_name(i, name))
}

/// The attention of layer `i`, in the names of the file.
pub open spec fn attention_named(
    gg: &Gguf,
    i: nat,
    s: AttentionSettings,
    rotary: RotaryView,
) -> AttentionView {
    AttentionView {
        q: named(gg, i, ".attn_q.weight"@),
        k: named(gg, i, ".attn_k.weight"@),
        v: named(gg, i, ".attn_v.weight"@),
        o: named(gg, i, ".attn_output.weight"@),
        q_norm: norm_of(named(gg, i, ".attn_q_norm.weight"@), s.eps),
        k_norm: norm_of(named(gg, i, ".attn_k_norm.weight"@), s.eps),
        num_heads: s.num_heads,
        num_kv_heads: s.num_kv_heads,
        groups: s.num_heads / s.num_kv_heads,
        head_dim: s.head_dim,
        rope_dim: s.rope_dim,
        rotary,
        scale: s.scale,
        dtype: s.dtype,
    }
}

/// Row `l` of a sequence after the token mixer: attention reads the rows normalised by
/// `attn_norm`, and what it makes of them is added; without attention zeros are.
pub open spec fn mixed_row(
    gg: &Gguf,
    i: nat,
    attends: bool,
    s: AttentionSettings,
    rotary: RotaryView,
    rows: Seq<Seq<Num>>,
    dtype: DType,
    mask: Option<TensorView>,
    offset: usize,
    kept: Kept,
    b: int,
    l: int,
) -> Seq<Num> {
    let n = Seq::new(
        rows.len(),
        |t: int| scaled_by(named(gg, i, ".attn_norm.weight"@), s.eps, rows[t]),
    );
    sums(
        rows[l],
        if attends {
            output(attention_named(gg, i, s, rotary), n, dtype, mask, offset, kept, b, l)
        } else {
            Seq::new(rows[l].len(), |j: int| Num::Zero)
        },
    )
}

/// Row `l` of a sequence after a layer: the feedforward of what the token mixer left,
/// normalised by `post_attention_norm`, is added to it.
pub open spec fn layer_row(
    gg: &Gguf,
    i: nat,
    attends: bool,
    s: AttentionSettings,
    rotary: RotaryView,
    rows: Seq<Seq<Num>>,
    dtype: DType,
    mask: Option<TensorView>,
    offset: usize,
    kept: Kept,
    b: int,
    l: int,
) -> Seq<Num> {
    let m = mixed_row(gg, i, attends, s, rotary, rows, dtype, mask, offset, kept, b, l);
    let gate = named(gg, i, ".ffn_gate.weight"@);
    sums(
        m,
        feedforward(
            gate,
            named(gg, i, ".ffn_up.weight"@),
            named(gg, i, ".ffn_down.weight"@),
            Gate::Silu,
            qtensor_dims(gate)[0] as nat,
            m.len(),
            scaled_by(named(gg, i, ".post_attention_norm.weight"@), s.eps, m),
        ),
    )
}

/// A layer agrees with rows of `hidden` numbers, has angles for its heads, and has kept
/// the keys and values of the positions before.
pub open spec fn layer_fits(
    w: LayerView,
    kept: Kept,
    batch: usize,
    offset: usize,
    hidden: usize,
) -> bool {
    &&& mlp_maps(w.mlp, hidden, qtensor_dims(w.mlp.gate)[0])
    &&& w.attention is Some ==> {
        let a = w.attention->0;
        &&& attention_shaped(a, hidden)
        &&& a.groups > 0
        &&& a.rotary.cos.dims.len() == 2
        &&& a.rotary.sin.dims.len() == 2
        &&& a.rotary.cos.dims[1] * 2 == a.rope_dim
        &&& a.rotary.sin.dims[1] * 2 == a.rope_dim
        &&& offset > 0 ==> kept is Some && kept_keys(kept).dims == seq![
            batch,
            a.num_kv_heads,
            offset,
            a.head_dim,
        ] && kept_values(kept).dims == kept_keys(kept).dims
    }
}

/// What a call of a layer is asked for.
pub open spec fn layer_asked(
    w: LayerView,
    x: Run,
    mask: Option<TensorView>,
    offset: usize,
    kept: Kept,
) -> bool {
    &&& x.dims().len() == 3
    &&& layer_fits(w, kept, x.dims()[0], offset, x.dims()[2])
    &&& offset + x.dims()[1] <= usize::MAX
    &&& mask is Some ==> mask->0.dims == seq![
        1,
        1,
        x.dims()[1],
        (offset + x.dims()[1]) as usize,
    ]
    &&& layer_output(w, x, mask, offset, kept).sound
}

/// The output of a layer, row by row, in the names of the file. Each sequence gives its
/// own rows.
pub proof fn layers_by_row(
    gg: &Gguf,
    i: nat,
    attends: bool,
    s: AttentionSettings,
    rotary: RotaryView,
    x: Run,
    mask: Option<TensorView>,
    offset: usize,
    kept: Kept,
    b: int,
    l: int,
)
    requires
        s.num_kv_heads > 0,
        layer_asked(layer_of(gg, i, attends, s, rotary), x, mask, offset, kept),
        0 <= b < x.dims()[0],
        0 <= l < x.dims()[1],
    ensures
        ({
            let w = layer_of(gg, i, attends, s, rotary);
            let y = layer_output(w, x, mask, offset, kept);
            &&& y.dims() == x.dims()
            &&& row3(y, b, l) == layer_row(
                gg,
                i,
                attends,
                s,
                rotary,
                rows3(x, b),
                x.dtype(),
                mask,
                offset,
                kept,
                b,
                l,
            )
        }),
{
    reveal(layer_output);
    let w = layer_of(gg, i, attends, s, rotary);
    let rows = rows3(x, b);
    let first = named(gg, i, ".attn_norm.weight"@);
    let second = named(gg, i, ".post_attention_norm.weight"@);
    let n = normed(x, w.input_norm);
    let mix = token_mix(w, n, mask, offset, kept);
    let m = paired(Op::Add, x, mix);
    let f = normed(m, w.post_attention_norm);
    file_norms_by_row(x, first, s.eps, b);
    let want = Seq::new(rows.len(), |t: int| scaled_by(first, s.eps, rows[t]));
    assert forall|t: int| 0 <= t < rows.len() implies #[trigger] rows3(n, b)[t] == want[t] by {
        assert(rows[t] == row3(x, b, t));
    }
    assert(rows3(n, b) =~= want);
    assert(rows[l] == row3(x, b, l));
    if attends {
        let a = attention_named(gg, i, s, rotary);
        assert(w.attention == Some(a));
        assert(mix.dims() =~= x.dims()) by {
            reveal(attended);
        }
        attention_by_row(a, n, mask, offset, kept, b, l);
    } else {
        assert forall|j: int| 0 <= j < x.dims()[2] implies #[trigger] mix.at3(b, l, j)
            == Num::Zero by {
            element_zeros(n.dims(), n.dtype(), n.place(), seq![b, l, j]);
        }
        assert(row3(mix, b, l) =~= Seq::new(rows[l].len(), |j: int| Num::Zero));
    }
    sums_by_row(x, mix, b, l);
    norms_by_row(m, w.post_attention_norm, b, l);
    norms_in_file(second, s.eps, row3(m, b, l));
    feedforwards_by_row(w.mlp, f, b, l);
    sums_by_row(m, fed(w.mlp, f), b, l);
}

/// The settings of attention, as a model has them.
pub open spec fn settings_named(c: &Config, f: &Floats, dtype: DType) -> AttentionSettings {
    AttentionSettings {
        num_heads: c.num_heads,
        num_kv_heads: c.num_kv_heads,
        head_dim: c.head_dim,
        rope_dim: c.rope_dim,
        eps: f.rms_norm_eps,
        scale: f.attention_scale,
        dtype,
    }
}

/// The rows of sequence `b` after the first `n` layers, from the embeddings of its
/// tokens on. Of every `full_attention_interval` layers the last one has attention.
pub open spec fn stream_rows(
    gg: &Gguf,
    c: &Config,
    f: &Floats,
    dtype: DType,
    place: Place,
    mask: Option<TensorView>,
    kept: Seq<Kept>,
    input: TensorView,
    offset: usize,
    n: nat,
    b: int,
) -> Seq<Seq<Num>>
    decreases n,
{
    if n == 0 {
        let q = tensor_at(gg, "token_embd.weight"@);
        Seq::new(
            input.dims[1] as nat,
            |l: int|
                embedding(
                    q,
                    qtensor_dims(q)[0] as nat,
                    c.embedding_length as nat,
                    element(input, seq![b, l]),
                ),
        )
    } else {
        let rows = stream_rows(
            gg,
            c,
            f,
            dtype,
            place,
            mask,
            kept,
            input,
            offset,
            (n - 1) as nat,
            b,
        );
        Seq::new(
            input.dims[1] as nat,
            |l: int|
                layer_row(
                    gg,
                    (n - 1) as nat,
                    n as int % c.full_attention_interval as int == 0,
                    settings_named(c, f, dtype),
                    rotary_of(tensor_view(f.inv_freq), dtype, c.context_length, place),
                    rows,
                    DType::F32,
                    mask,
                    offset,
                    kept[n - 1],
                    b,
                    l,
                ),
        )
    }
}

/// What a call of a model is asked for.
pub open spec fn model_asked(
    w: ModelView,
    kept: Seq<Kept>,
    input: TensorView,
    offset: usize,
) -> bool {
    &&& input.dims.len() == 2
    &&& input.dims[1] > 0
    &&& offset + input.dims[1] <= usize::MAX
    &&& forall|i: int|
        0 <= i < w.layers.len() ==> layer_fits(
            #[trigger] w.layers[i],
            kept[i],
            input.dims[0],
            offset,
            w.embedding_length,
        )
    &&& runs(w, kept, input, offset)
}

/// The residual is sound only where it is up to each layer.
proof fn lemma_stream_sound(
    w: ModelView,
    kept: Seq<Kept>,
    input: TensorView,
    offset: usize,
    n: nat,
    m: nat,
)
    requires
        n <= m,
        stream(w, kept, input, offset, m).sound,
    ensures
        stream(w, kept, input, offset, n).sound,
    decreases m,
{
    if n < m {
        reveal(layer_output);
        lemma_stream_sound(w, kept, input, offset, n, (m - 1) as nat);
    }
}

/// The residual after the first layers, row by row.
pub proof fn streams_by_row(
    w: ModelView,
    gg: &Gguf,
    c: &Config,
    f: &Floats,
    dtype: DType,
    place: Place,
    kept: Seq<Kept>,
    input: TensorView,
    offset: usize,
    n: nat,
    b: int,
)
    requires
        is_model_of(w, gg, c, f, dtype, place),
        c.num_kv_heads > 0,
        model_asked(w, kept, input, offset),
        n <= w.layers.len(),
        0 <= b < input.dims[0],
    ensures
        ({
            let x = stream(w, kept, input, offset, n);
            &&& x.dims() == seq![input.dims[0], input.dims[1], c.embedding_length]
            &&& x.dtype() == DType::F32
            &&& rows3(x, b) == stream_rows(
                gg,
                c,
                f,
                dtype,
                place,
                run_view(mask_for(w, input.dims[1], offset)),
                kept,
                input,
                offset,
                n,
                b,
            )
        }),
    decreases n,
{
    let mask = run_view(mask_for(w, input.dims[1], offset));
    let x = stream(w, kept, input, offset, n);
    let len = input.dims[1];
    let want = stream_rows(gg, c, f, dtype, place, mask, kept, input, offset, n, b);
    if n == 0 {
        let q = tensor_at(gg, "token_embd.weight"@);
        embeddings_by_row(q, place, input, c.embedding_length, b, 0);
        assert(x.view == embedded(
            dequantized(q, place),
            given(input),
            c.embedding_length,
        ).view);
        assert forall|l: int| 0 <= l < len implies #[trigger] row3(x, b, l) == want[l] by {
            embeddings_by_row(q, place, input, c.embedding_length, b, l);
        }
        assert(rows3(x, b) =~= want);
    } else {
        let m = (n - 1) as nat;
        let before = stream(w, kept, input, offset, m);
        streams_by_row(w, gg, c, f, dtype, place, kept, input, offset, m, b);
        let s = settings_named(c, f, dtype);
        let rotary = rotary_of(tensor_view(f.inv_freq), dtype, c.context_length, place);
        let attends = n as int % c.full_attention_interval as int == 0;
        assert(w.layers[n - 1] == layer_of(gg, m, attends, s, rotary));
        assert(stream(w, kept, input, offset, w.layers.len()).sound);
        lemma_stream_sound(w, kept, input, offset, n, w.layers.len());
        if mask is Some {
            assert(mask->0.dims =~= seq![1, 1, len, (offset + len) as usize]);
        }
        assert(layer_asked(w.layers[n - 1], before, mask, offset, kept[n - 1]));
        layers_by_row(gg, m, attends, s, rotary, before, mask, offset, kept[n - 1], b, 0);
        assert(x.dtype() == before.dtype()) by {
            reveal(layer_output);
        }
        assert forall|l: int| 0 <= l < len implies #[trigger] row3(x, b, l) == want[l] by {
            layers_by_row(gg, m, attends, s, rotary, before, mask, offset, kept[n - 1], b, l);
        }
        assert(rows3(x, b) =~= want);
    }
}

/// The logits of a sequence: its last row after all layers, normalised by
/// `output_norm` and projected by `output`, or by the embeddings where there is no
/// such tensor.
pub proof fn logits_by_row(
    w: ModelView,
    gg: &Gguf,
    c: &Config,
    f: &Floats,
    dtype: DType,
    place: Place,
    kept: Seq<Kept>,
    input: TensorView,
    offset: usize,
    b: int,
)
    requires
        is_model_of(w, gg, c, f, dtype, place),
        c.num_kv_heads > 0,
        model_asked(w, kept, input, offset),
        0 <= b < input.dims[0],
    ensures
        ({
            let own = gg.named("output.weight"@);
            &&& own is None ==> w.output == tensor_at(gg, "token_embd.weight"@)
            &&& own is Some && loads(*own->0) ==> w.output == *own->0
        }),
        row2(logits(w, kept, input, offset), b) == projection(
            w.output,
            qtensor_dims(w.output)[0] as nat,
            scaled_by(
                tensor_at(gg, "output_norm.weight"@),
                f.rms_norm_eps,
                stream_rows(
                    gg,
                    c,
                    f,
                    dtype,
                    place,
                    run_view(mask_for(w, input.dims[1], offset)),
                    kept,
                    input,
                    offset,
                    c.block_count as nat,
                    b,
                )[input.dims[1] - 1],
            ),
        ),
{
    let n = c.block_count as nat;
    let len = input.dims[1];
    let xs = stream(w, kept, input, offset, n);
    streams_by_row(w, gg, c, f, dtype, place, kept, input, offset, n, b);
    let last = last_position(xs, len);
    last_rows(xs, len, b);
    assert(rows3(xs, b)[len - 1] == row3(xs, b, len - 1));
    matrix_norms_by_row(last, w.norm, b);
    norms_in_file(tensor_at(gg, "output_norm.weight"@), f.rms_norm_eps, row2(last, b));
    matrix_projections_by_row(normed(last, w.norm), w.output, b);
}

/// The mask of a call, which is one for all layers: a position sees those up to its
/// own. A single position has none, and sees all.
pub proof fn masks_by_row(w: ModelView, seq_len: usize, offset: usize, l: int, dtype: DType)
    requires
        0 <= l < seq_len,
        seq_len + offset <= usize::MAX,
    ensures
        ({
            let mask = mask_row(run_view(mask_for(w, seq_len, offset)), l, dtype);
            if seq_len == 1 {
                mask is None
            } else {
                mask == Some(
                    Seq::new(
                        (seq_len + offset) as nat,
                        |t: int| cast(mask_number(offset + l, t, None), DType::F32, dtype),
                    ),
                )
            }
        }),
{
    if seq_len != 1 {
        let m = run_view(mask_for(w, seq_len, offset))->0;
        let r = mask_row(Some(m), l, dtype)->0;
        let want = Seq::new(
            (seq_len + offset) as nat,
            |t: int| cast(mask_number(offset + l, t, None), DType::F32, dtype),
        );
        masks_by_position(seq_len, offset, None, w.place, l, 0);
        assert forall|t: int| 0 <= t < seq_len + offset implies #[trigger] r[t] == want[t] by {
            masks_by_position(seq_len, offset, None, w.place, l, t);
        }
        assert(r =~= want);
    }
}

/// The names of the tensors of the attention of layer `i`, in the order in which they
/// are read.
pub open spec fn attention_names(i: nat) -> Seq<Seq<char>> {
    seq![
        layer_name(i, ".attn_q.weight"@),
        layer_name(i, ".attn_k.weight"@),
        layer_name(i, ".attn_v.weight"@),
        layer_name(i, ".attn_output.weight"@),
        layer_name(i, ".attn_q_norm.weight"@),
        layer_name(i, ".attn_k_norm.weight"@),
    ]
}

/// The names of the tensors of layer `i`, in the order in which they are read.
pub open spec fn layer_tensors(i: nat, attends: bool) -> Seq<Seq<char>> {
    seq![
        layer_name(i, ".attn_norm.weight"@),
        layer_name(i, ".post_attention_norm.weight"@),
    ] + (if attends {
        attention_names(i)
    } else {
        Seq::empty()
    }) + mlp_names(i)
}

/// The tensor that is missing for attention is the first in order.
pub proof fn missing_attention_in_order(gg: &Gguf, i: nat)
    ensures
        first_missing(gg, attention_names(i), attention_missing(gg, i)),
{
    let q = layer_name(i, ".attn_q.weight"@);
    let k = layer_name(i, ".attn_k.weight"@);
    let v = layer_name(i, ".attn_v.weight"@);
    let o = layer_name(i, ".attn_output.weight"@);
    let qn = layer_name(i, ".attn_q_norm.weight"@);
    let kn = layer_name(i, ".attn_k_norm.weight"@);
    lemma_missing_one(gg, q);
    lemma_missing_one(gg, k);
    lemma_missing_one(gg, v);
    lemma_missing_one(gg, o);
    lemma_missing_one(gg, qn);
    lemma_missing_one(gg, kn);
    let m5 = earlier(absent(gg, qn), absent(gg, kn));
    let m4 = earlier(absent(gg, o), m5);
    let m3 = earlier(absent(gg, v), m4);
    let m2 = earlier(absent(gg, k), m3);
    let n5 = seq![qn] + seq![kn];
    let n4 = seq![o] + n5;
    let n3 = seq![v] + n4;
    let n2 = seq![k] + n3;
    lemma_first_missing(gg, seq![qn], seq![kn], absent(gg, qn), absent(gg, kn));
    lemma_first_missing(gg, seq![o], n5, absent(gg, o), m5);
    lemma_first_missing(gg, seq![v], n4, absent(gg, v), m4);
    lemma_first_missing(gg, seq![k], n3, absent(gg, k), m3);
    lemma_first_missing(gg, seq![q], n2, absent(gg, q), m2);
    assert(seq![q] + n2 =~= attention_names(i));
}

/// The tensor that is missing for a layer is the first in order.
pub proof fn missing_tensors_in_order(gg: &Gguf, i: nat, attends: bool)
    ensures
        first_missing(gg, layer_tensors(i, attends), layer_missing(gg, i, attends)),
{
    let a = layer_name(i, ".attn_norm.weight"@);
    let b = layer_name(i, ".post_attention_norm.weight"@);
    let c = if attends {
        attention_names(i)
    } else {
        Seq::empty()
    };
    let mc = if attends {
        attention_missing(gg, i)
    } else {
        None
    };
    missing_attention_in_order(gg, i);
    missing_feedforwards_in_order(gg, i);
    lemma_missing_one(gg, a);
    lemma_missing_one(gg, b);
    let md = mlp_missing(gg, i);
    lemma_first_missing(gg, c, mlp_names(i), mc, md);
    let m2 = earlier(mc, md);
    let n2 = c + mlp_names(i);
    lemma_first_missing(gg, seq![b], n2, absent(gg, b), m2);
    lemma_first_missing(gg, seq![a], seq![b] + n2, absent(gg, a), earlier(absent(gg, b), m2));
    assert(seq![a] + (seq![b] + n2) =~= layer_tensors(i, attends));
}

/// The names of the tensors of the first `n` layers, layer by layer.
pub open spec fn layers_tensors(c: &Config, n: nat) -> Seq<Seq<char>>
    decreases n,
{
    if n == 0 {
        Seq::empty()
    } else {
        layers_tensors(c, (n - 1) as nat) + layer_tensors(
            (n - 1) as nat,
            n as int % c.full_attention_interval as int == 0,
        )
    }
}

/// The tensor that is missing for the first layers is the first in order.
proof fn lemma_missing_layers(gg: &Gguf, c: &Config, n: nat)
    ensures
        first_missing(gg, layers_tensors(c, n), layers_missing(gg, c, n)),
    decreases n,
{
    if n > 0 {
        let m = (n - 1) as nat;
        let attends = n as int % c.full_attention_interval as int == 0;
        lemma_missing_layers(gg, c, m);
        missing_tensors_in_order(gg, m, attends);
        lemma_first_missing(
            gg,
            layers_tensors(c, m),
            layer_tensors(m, attends),
            layers_missing(gg, c, m),
            layer_missing(gg, m, attends),
        );
    }
}

/// The tensor that is missing for a model is the first in the order in which they are
/// read: the embeddings, the normalisation of the output, the layers.
pub proof fn missing_models_in_order(gg: &Gguf, c: &Config)
    ensures
        first_missing(
            gg,
            seq!["token_embd.weight"@, "output_norm.weight"@] + layers_tensors(
                c,
                c.block_count as nat,
            ),
            model_missing(gg, c),
        ),
{
    let a = "token_embd.weight"@;
    let b = "output_norm.weight"@;
    let n = layers_tensors(c, c.block_count as nat);
    let m = layers_missing(gg, c, c.block_count as nat);
    lemma_missing_layers(gg, c, c.block_count as nat);
    lemma_missing_one(gg, a);
    lemma_missing_one(gg, b);
    lemma_first_missing(gg, seq![b], n, absent(gg, b), m);
    lemma_first_missing(gg, seq![a], seq![b] + n, absent(gg, a), earlier(absent(gg, b), m));
    assert(seq![a] + (seq![b] + n) =~= seq![a, b] + n);
}

/// What a layer with attention keeps: for each head of each sequence the keys and values
/// kept before, then those of the positions of the call, each from the row of that
/// position, normalised by `attn_norm`. A layer without attention keeps nothing new.
pub proof fn layers_keep_rows(
    gg: &Gguf,
    i: nat,
    s: AttentionSettings,
    rotary: RotaryView,
    x: Run,
    mask: Option<TensorView>,
    offset: usize,
    kept: Kept,
    b: int,
    g: int,
)
    requires
        s.num_kv_heads > 0,
        layer_asked(layer_of(gg, i, true, s, rotary), x, mask, offset, kept),
        0 <= b < x.dims()[0],
        0 <= g < s.num_kv_heads,
    ensures
        ({
            let after = layer_kept(layer_of(gg, i, true, s, rotary), x, offset, kept);
            let a = attention_named(gg, i, s, rotary);
            let n = Seq::new(
                x.dims()[1] as nat,
                |t: int| scaled_by(named(gg, i, ".attn_norm.weight"@), s.eps, row3(x, b, t)),
            );
            &&& after is Some
            &&& rows4(given(kept_keys(after)), b, g) == keys(
                a,
                n,
                x.dtype(),
                offset,
                kept,
                b,
                g,
            )
            &&& rows4(given(kept_values(after)), b, g) == values(
                a,
                n,
                x.dtype(),
                offset,
                kept,
                b,
                g,
            )
        }),
        layer_kept(layer_of(gg, i, false, s, rotary), x, offset, kept) == kept,
{
    reveal(layer_kept);
    let w = layer_of(gg, i, true, s, rotary);
    let a = attention_named(gg, i, s, rotary);
    assert(w.attention == Some(a));
    let n = normed(x, w.input_norm);
    assert(asked(a, n, mask, offset, kept)) by {
        reveal(layer_output);
    }
    file_norms_by_row(x, named(gg, i, ".attn_norm.weight"@), s.eps, b);
    kept_by_row(a, n, mask, offset, kept, b, g);
}

} // verus!
