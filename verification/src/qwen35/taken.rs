//! Which calls of a model are taken: every step of them is one that the operations
//! take.

use crate::attention::{last_position, lemma_last_dims, rotate, run_view, Kept};
use crate::dtype::float_type;
use crate::formula::{kept_keys, kept_values, readings};
use crate::gguf::Gguf;
use crate::nn::{normed, there, through};
use crate::qwen35::attention::{
    all_keys_values, attended, attention_shaped, context, gates, kv_heads, new_keys, new_values,
    partly_rotated, queries, queries_and_gates, read_values, width, AttentionView,
};
use crate::qwen35::config::Config;
use crate::qwen35::layer::{layer_output, token_mix, LayerView};
use crate::qwen35::model::{
    bad_config, block_loads, calls_are_sure, kept_layers, mask_for, model_loads, model_maps, runs,
    runs_surely, stream, tokens, turns_layers, Floats, ModelView,
};
use crate::qwen35::residual::layer_tensors;
use crate::shape::fits;
use crate::taken::{
    embeddings_are_taken, feedforward_takes, feedforwards_are_taken, joins_are_taken,
    kept_are_taken, lemma_below, lemma_nonzero_products, lemma_product_bound, masks_are_taken,
    norms_are_taken, projections_are_taken, readings_are_taken, rotations_are_taken,
    tables_are_taken, tables_fit, takes_rows,
};
use crate::tensor::raw::{qtensor_dims, tensor_view};
use crate::tensor::run::{converted, mapped, narrowed, paired, reshaped, stored, transposed, Run};
use crate::tensor::view::{single_on_cpu, Op, Place, TensorView};
use crate::text::layer_name;
use candle_core::quantized::QTensor;
use candle_core::DType;
use vstd::prelude::*;

verus! {

/// Rotating a part of heads that come out is taken.
pub proof fn partial_rotations_are_taken(w: AttentionView, x: Run, offset: usize, to: int)
    requires
        x.sound,
        x.dims().len() == 4,
        1 <= x.dims()[0],
        1 <= x.dims()[1],
        1 <= x.dims()[2],
        1 <= w.rope_dim <= x.dims()[3] <= to,
        x.dims()[0] * x.dims()[1] * x.dims()[2] * to <= usize::MAX,
        tables_fit(w.rotary, w.rope_dim),
    ensures
        partly_rotated(w, x, offset).sound,
        partly_rotated(w, x, offset).dims() == x.dims(),
{
    let a = x.dims()[0];
    let b = x.dims()[1];
    let c = x.dims()[2];
    let d = x.dims()[3];
    let rope = w.rope_dim;
    let rest = (d - rope) as usize;
    let part = narrowed(x, 3, 0, rope);
    let front = stored(part);
    let turned = rotate(w.rotary, front, offset, c);
    let passed = narrowed(x, 3, rope, rest);
    lemma_below(a, b, c, rope, a as int, b as int, c as int, to);
    lemma_below(a, b, c, rest, a as int, b as int, c as int, to);
    lemma_below(a, b, c, d, a as int, b as int, c as int, to);
    assert(x.dims() =~= seq![a, b, c, d]);
    assert(part.dims() =~= seq![a, b, c, rope]);
    assert(passed.dims() =~= seq![a, b, c, rest]);
    rotations_are_taken(w.rotary, front, offset, c);
    assert(turned.dims().update(3, (rope + rest) as usize) =~= x.dims());
    joins_are_taken(turned, passed, 3);
}

/// The matrices, normalisations and tables of attention can be taken for rows of
/// `hidden` numbers of an element type, in a place.
pub open spec fn attention_takes(
    w: AttentionView,
    place: Place,
    dtype: DType,
    hidden: usize,
) -> bool {
    &&& attention_shaped(w, hidden)
    &&& takes_rows(w.q, place, dtype, hidden, (2 * (w.num_heads * w.head_dim)) as usize)
    &&& takes_rows(w.k, place, dtype, hidden, (w.num_kv_heads * w.head_dim) as usize)
    &&& takes_rows(w.v, place, dtype, hidden, (w.num_kv_heads * w.head_dim) as usize)
    &&& takes_rows(w.o, place, dtype, width(w), hidden)
    &&& w.rope_dim > 0
    &&& tables_fit(w.rotary, w.rope_dim)
    &&& float_type(w.dtype)
    &&& float_type(dtype)
}

/// The keys and values of the positions before a call are kept.
pub open spec fn kept_fits(w: AttentionView, kept: Kept, batch: usize, offset: usize) -> bool {
    offset > 0 ==> kept is Some && kept_keys(kept).dims == seq![
        batch,
        w.num_kv_heads,
        offset,
        w.head_dim,
    ] && kept_values(kept).dims == kept_keys(kept).dims
}

/// What is kept, read and scored is counted by a `usize`.
pub open spec fn attention_counted(
    w: AttentionView,
    batch: usize,
    len: usize,
    offset: usize,
) -> bool {
    let all = offset + len;
    &&& all <= usize::MAX
    &&& batch * w.num_heads * all * (2 * w.head_dim + all) <= usize::MAX
}

/// The numbers of heads that attention has.
proof fn lemma_heads(w: AttentionView, hidden: usize)
    requires
        attention_shaped(w, hidden),
        qtensor_dims(w.q)[0] > 0,
    ensures
        w.num_heads > 0,
        w.groups > 0,
        w.num_kv_heads <= w.num_heads,
{
    if w.num_heads == 0 {
        assert(w.num_heads * w.head_dim == 0) by (nonlinear_arith)
            requires
                w.num_heads == 0,
        ;
    }
    assert(w.groups > 0 && w.num_kv_heads <= w.num_heads) by (nonlinear_arith)
        requires
            w.num_kv_heads * w.groups == w.num_heads,
            w.num_heads > 0,
            w.num_kv_heads >= 0,
            w.groups >= 0,
    ;
}

/// The queries and gates of a residual that comes out are taken.
proof fn lemma_queries_taken(w: AttentionView, x: Run, offset: usize)
    requires
        x.sound,
        x.dims().len() == 3,
        1 <= x.dims()[0],
        1 <= x.dims()[1],
        fits(x.dims()),
        attention_takes(w, x.place(), x.dtype(), x.dims()[2]),
        attention_counted(w, x.dims()[0], x.dims()[1], offset),
    ensures
        queries(w, x, offset).sound,
        queries(w, x, offset).dims() == seq![x.dims()[0], w.num_heads, x.dims()[1], w.head_dim],
        queries(w, x, offset).dtype() == w.dtype,
        gates(w, x).sound,
        gates(w, x).dims() == seq![x.dims()[0], x.dims()[1], width(w)],
        gates(w, x).dtype() == x.dtype(),
{
    let b = x.dims()[0];
    let l = x.dims()[1];
    let h = w.num_heads;
    let d = w.head_dim;
    let t = offset + l;
    let to = 2 * d + t;
    lemma_heads(w, x.dims()[2]);
    assert(2 * d <= usize::MAX) by (nonlinear_arith)
        requires
            2 * (h * d) <= usize::MAX,
            h >= 1,
            d >= 0,
    ;
    let dd = (2 * d) as usize;
    lemma_product_bound(b as int, h as int, b as int, h as int);
    lemma_product_bound(b * h, l as int, b * h, t);
    lemma_product_bound(b * h * l, to, b * h * t, to);
    lemma_below(b, h, l, dd, b as int, h as int, l as int, to);
    lemma_below(b, h, l, d, b as int, h as int, l as int, to);
    let rows = (2 * (h * d)) as usize;
    assert(h * dd == rows) by (nonlinear_arith)
        requires
            dd == 2 * d,
            rows == 2 * (h * d),
    ;
    assert(x.dims().update(2, rows) =~= seq![b, l, rows]);
    projections_are_taken(x, w.q, rows);
    let qg = queries_and_gates(w, x);
    let cut = narrowed(qg, 3, 0, d);
    let swapped = transposed(cut, 1, 2);
    assert(swapped.dims() =~= seq![b, h, l, d]);
    let q = stored(swapped);
    lemma_nonzero_products(d, 0, 0, 0);
    norms_are_taken(q, w.q_norm);
    let c = converted(normed(q, w.q_norm), w.dtype);
    partial_rotations_are_taken(w, c, offset, to);
    let rest = narrowed(qg, 3, d, d);
    assert(rest.dims() =~= seq![b, l, h, d]);
}

/// A projection to keys or values split into heads is taken.
proof fn lemma_kv_heads_taken(w: AttentionView, x: Run, weight: QTensor, to: int)
    requires
        x.sound,
        x.dims().len() == 3,
        1 <= x.dims()[0],
        1 <= x.dims()[1],
        fits(x.dims()),
        1 <= w.num_kv_heads,
        w.head_dim <= to,
        1 <= to,
        x.dims()[0] * w.num_kv_heads * x.dims()[1] * to <= usize::MAX,
        takes_rows(
            weight,
            x.place(),
            x.dtype(),
            x.dims()[2],
            (w.num_kv_heads * w.head_dim) as usize,
        ),
    ensures
        kv_heads(w, x, weight).sound,
        kv_heads(w, x, weight).dims() == seq![
            x.dims()[0],
            w.num_kv_heads,
            x.dims()[1],
            w.head_dim,
        ],
        fits(kv_heads(w, x, weight).dims()),
{
    let b = x.dims()[0];
    let l = x.dims()[1];
    let g = w.num_kv_heads;
    let d = w.head_dim;
    lemma_below(b, g, l, d, b as int, g as int, l as int, to);
    let rows = (g * d) as usize;
    assert(x.dims().update(2, rows) =~= seq![b, l, rows]);
    projections_are_taken(x, weight, rows);
    let r = reshaped(through(x, weight), seq![b, l, g, d]);
    assert(transposed(r, 1, 2).dims() =~= seq![b, g, l, d]);
}

/// The keys and values of a call, behind those kept, are taken.
proof fn lemma_keys_values_taken(w: AttentionView, x: Run, offset: usize, kept: Kept)
    requires
        x.sound,
        x.dims().len() == 3,
        1 <= x.dims()[0],
        1 <= x.dims()[1],
        fits(x.dims()),
        attention_takes(w, x.place(), x.dtype(), x.dims()[2]),
        attention_counted(w, x.dims()[0], x.dims()[1], offset),
        kept_fits(w, kept, x.dims()[0], offset),
    ensures
        ({
            let (k, v) = all_keys_values(w, x, offset, kept);
            let dims = seq![
                x.dims()[0],
                w.num_kv_heads,
                (offset + x.dims()[1]) as usize,
                w.head_dim,
            ];
            &&& k.sound && v.sound
            &&& k.dims() == dims && v.dims() == dims
        }),
{
    let b = x.dims()[0];
    let l = x.dims()[1];
    let h = w.num_heads;
    let g = w.num_kv_heads;
    let d = w.head_dim;
    let t = offset + l;
    let to = 2 * d + t;
    lemma_heads(w, x.dims()[2]);
    lemma_product_bound(b as int, g as int, b as int, h as int);
    lemma_product_bound(b * g, t, b * h, t);
    lemma_product_bound(b * g * t, to, b * h * t, to);
    lemma_product_bound(b * g, l as int, b * g, t);
    lemma_product_bound(b * g * l, to, b * g * t, to);
    lemma_kv_heads_taken(w, x, w.k, to);
    lemma_kv_heads_taken(w, x, w.v, to);
    let k = kv_heads(w, x, w.k);
    lemma_nonzero_products(d, 0, 0, 0);
    norms_are_taken(k, w.k_norm);
    let c = converted(normed(k, w.k_norm), w.dtype);
    partial_rotations_are_taken(w, c, offset, to);
    let nk = new_keys(w, x, offset);
    let nv = new_values(w, x);
    if offset > 0 {
        let (kc, vc) = kept->0;
        assert(kc.dims =~= nk.dims().update(2, offset));
        assert(vc.dims =~= nv.dims().update(2, offset));
    }
    kept_are_taken(kept, nk, nv, offset, to);
    let (ks, vs) = all_keys_values(w, x, offset, kept);
    assert(ks.dims() =~= seq![b, g, t as usize, d]);
    assert(vs.dims() =~= seq![b, g, t as usize, d]);
}

/// Attention is taken for a residual that comes out: where its matrices can be taken,
/// what is kept is of the positions before, the mask is as wide as the positions, and
/// what is kept, read and scored is counted by a `usize`.
pub proof fn attention_is_taken(
    w: AttentionView,
    x: Run,
    mask: Option<TensorView>,
    offset: usize,
    kept: Kept,
)
    requires
        x.sound,
        x.dims().len() == 3,
        1 <= x.dims()[0],
        1 <= x.dims()[1],
        fits(x.dims()),
        attention_takes(w, x.place(), x.dtype(), x.dims()[2]),
        attention_counted(w, x.dims()[0], x.dims()[1], offset),
        kept_fits(w, kept, x.dims()[0], offset),
        mask is Some ==> mask->0.dims == seq![
            1,
            1,
            x.dims()[1],
            (offset + x.dims()[1]) as usize,
        ],
    ensures
        attended(w, x, mask, offset, kept).sound,
        attended(w, x, mask, offset, kept).dims() == x.dims(),
        attended(w, x, mask, offset, kept).dtype() == x.dtype(),
{
    reveal(attended);
    let b = x.dims()[0];
    let l = x.dims()[1];
    let h = w.num_heads;
    let d = w.head_dim;
    let t = offset + l;
    let to = 2 * d + t;
    lemma_heads(w, x.dims()[2]);
    lemma_queries_taken(w, x, offset);
    lemma_keys_values_taken(w, x, offset, kept);
    let q = queries(w, x, offset);
    let (k, v) = all_keys_values(w, x, offset, kept);
    readings_are_taken(q, k, v, w.groups, Some(w.scale), mask, to);
    let ctx = read_values(w, q, k, v, mask);
    assert(ctx == readings(q, k, v, w.groups, Some(w.scale), mask));
    lemma_product_bound(b as int, h as int, b as int, h as int);
    lemma_product_bound(b * h, l as int, b * h, t);
    lemma_product_bound(b * h * l, to, b * h * t, to);
    lemma_below(b, h, l, d, b as int, h as int, l as int, to);
    let turned = transposed(ctx, 1, 2);
    assert(turned.dims() =~= seq![b, l, h, d]);
    let c = context(w, x, mask, offset, kept);
    let gated = paired(Op::Mul, c, mapped(Op::Sigmoid, gates(w, x)));
    assert(gated.dims() =~= seq![b, l, width(w)]);
    assert(gated.dims().update(2, x.dims()[2]) =~= x.dims());
    projections_are_taken(gated, w.o, x.dims()[2]);
    assert(attended(w, x, mask, offset, kept).dims() =~= x.dims());
}

/// A layer can be taken for rows of `hidden` numbers, has kept the positions before,
/// and what it computes is counted by a `usize`.
pub open spec fn layer_takes(
    w: LayerView,
    kept: Kept,
    place: Place,
    dtype: DType,
    dims: Seq<usize>,
    offset: usize,
) -> bool {
    let inner = qtensor_dims(w.mlp.gate)[0];
    &&& feedforward_takes(w.mlp, place, dtype, dims[2], inner)
    &&& dims[0] * dims[1] * inner <= usize::MAX
    &&& w.input_norm.weight.dims == seq![dims[2]]
    &&& w.post_attention_norm.weight.dims == seq![dims[2]]
    &&& w.attention is Some ==> {
        let a = w.attention->0;
        &&& attention_takes(a, place, dtype, dims[2])
        &&& attention_counted(a, dims[0], dims[1], offset)
        &&& kept_fits(a, kept, dims[0], offset)
    }
}

/// A layer is taken for a residual that comes out.
pub proof fn layers_are_taken(
    w: LayerView,
    x: Run,
    mask: Option<TensorView>,
    offset: usize,
    kept: Kept,
)
    requires
        x.sound,
        x.dims().len() == 3,
        1 <= x.dims()[0],
        1 <= x.dims()[1],
        1 <= x.dims()[2],
        fits(x.dims()),
        layer_takes(w, kept, x.place(), x.dtype(), x.dims(), offset),
        mask is Some ==> mask->0.dims == seq![
            1,
            1,
            x.dims()[1],
            (offset + x.dims()[1]) as usize,
        ],
    ensures
        layer_output(w, x, mask, offset, kept).sound,
        layer_output(w, x, mask, offset, kept).dims() == x.dims(),
        layer_output(w, x, mask, offset, kept).dtype() == x.dtype(),
        layer_output(w, x, mask, offset, kept).place() == x.place(),
{
    reveal(layer_output);
    let inner = qtensor_dims(w.mlp.gate)[0];
    let n = normed(x, w.input_norm);
    lemma_nonzero_products(x.dims()[2], 0, 0, 0);
    norms_are_taken(x, w.input_norm);
    if let Some(a) = w.attention {
        attention_is_taken(a, n, mask, offset, kept);
    }
    let m = paired(Op::Add, x, token_mix(w, n, mask, offset, kept));
    norms_are_taken(m, w.post_attention_norm);
    lemma_nonzero_products(x.dims()[0], x.dims()[1], inner, 0);
    feedforwards_are_taken(w.mlp, normed(m, w.post_attention_norm), inner);
}

/// A call can be taken by a model: its tokens, the residual, the scores, the mask and
/// the logits are counted by a `usize`, and each layer can be taken and has kept the
/// positions before.
pub open spec fn model_takes(
    w: ModelView,
    kept: Seq<Kept>,
    input: TensorView,
    offset: usize,
) -> bool {
    let dims = seq![input.dims[0], input.dims[1], w.embedding_length];
    let place = w.embeddings.place;
    let dtype = w.embeddings.dtype;
    &&& input.dims.len() == 2
    &&& 1 <= input.dims[0]
    &&& 1 <= input.dims[1]
    &&& 1 <= w.embedding_length
    &&& input.dims[0] * input.dims[1] * w.embedding_length <= usize::MAX
    &&& w.embeddings.dims.len() == 2
    &&& w.embeddings.dims[1] == w.embedding_length
    &&& fits(w.embeddings.dims)
    &&& offset + input.dims[1] <= usize::MAX
    &&& input.dims[1] * (input.dims[1] + offset) <= usize::MAX
    &&& forall|i: int|
        0 <= i < w.layers.len() ==> layer_takes(
            #[trigger] w.layers[i],
            kept[i],
            place,
            dtype,
            dims,
            offset,
        )
    &&& w.norm.weight.dims == seq![w.embedding_length]
    &&& takes_rows(w.output, place, dtype, w.embedding_length, qtensor_dims(w.output)[0])
    &&& input.dims[0] * qtensor_dims(w.output)[0] <= usize::MAX
}

/// The residual is taken after each layer.
proof fn lemma_stream_taken(
    w: ModelView,
    kept: Seq<Kept>,
    input: TensorView,
    offset: usize,
    n: nat,
)
    requires
        model_takes(w, kept, input, offset),
        n <= w.layers.len(),
    ensures
        ({
            let x = stream(w, kept, input, offset, n);
            &&& x.sound
            &&& x.dims() == seq![input.dims[0], input.dims[1], w.embedding_length]
            &&& x.dtype() == w.embeddings.dtype
            &&& x.place() == w.embeddings.place
            &&& fits(x.dims())
        }),
    decreases n,
{
    embeddings_are_taken(w.embeddings, input);
    if n > 0 {
        lemma_stream_taken(w, kept, input, offset, (n - 1) as nat);
        let mask = run_view(mask_for(w, input.dims[1], offset));
        if mask is Some {
            assert(mask->0.dims =~= seq![
                1,
                1,
                input.dims[1],
                (offset + input.dims[1]) as usize,
            ]);
        }
        layers_are_taken(
            w.layers[n - 1],
            stream(w, kept, input, offset, (n - 1) as nat),
            mask,
            offset,
            kept[n - 1],
        );
    }
}

/// A call that a model can take is taken, up to the logits: none of its steps is
/// refused.
pub proof fn calls_are_taken(w: ModelView, kept: Seq<Kept>, input: TensorView, offset: usize)
    requires
        model_takes(w, kept, input, offset),
    ensures
        runs(w, kept, input, offset),
{
    let len = input.dims[1];
    let n = w.layers.len();
    let rows = qtensor_dims(w.output)[0];
    lemma_stream_taken(w, kept, input, offset, n);
    let xs = stream(w, kept, input, offset, n);
    let last = last_position(xs, len);
    lemma_last_dims(xs, len);
    let b = input.dims[0];
    let d = w.embedding_length;
    lemma_nonzero_products(b, d, 0, 0);
    lemma_nonzero_products(d, 0, 0, 0);
    lemma_nonzero_products(b, rows, 0, 0);
    lemma_nonzero_products(b, len, d, 0);
    assert(b * d <= b * len * d) by (nonlinear_arith)
        requires
            len >= 1,
            b >= 1,
            d >= 1,
    ;
    norms_are_taken(last, w.norm);
    assert(last.dims().update(1, rows) =~= seq![b, rows]);
    projections_are_taken(normed(last, w.norm), w.output, rows);
    if len != 1 {
        lemma_nonzero_products(len, (len + offset) as usize, 0, 0);
        masks_are_taken(len, offset, None, w.place);
    }
}

/// There is a tensor that can be loaded under each name of a list.
pub open spec fn all_there(gg: &Gguf, names: Seq<Seq<char>>) -> bool {
    forall|k: int| 0 <= k < names.len() ==> there(gg, #[trigger] names[k])
}

/// Each tensor of layer `i` is there.
pub open spec fn layer_there(gg: &Gguf, c: &Config, i: int) -> bool {
    all_there(gg, layer_tensors(i as nat, (i + 1) % c.full_attention_interval as int == 0))
}

/// A file with each tensor of a model, on the cpu, is sure to be loaded there, where the
/// tables of angles fit and the settings are those of a model.
pub proof fn complete_files_load(gg: &Gguf, c: &Config, f: &Floats, dtype: DType)
    requires
        there(gg, "token_embd.weight"@),
        there(gg, "output_norm.weight"@),
        forall|i: int| 0 <= i < c.block_count ==> #[trigger] layer_there(gg, c, i),
        c.block_count > 0 ==> c.full_attention_interval > 0 && c.num_kv_heads > 0,
        float_type(dtype),
        single_on_cpu(tensor_view(f.inv_freq)),
        tensor_view(f.inv_freq).dims.len() == 2,
        tensor_view(f.inv_freq).dims[0] == 1,
        1 <= tensor_view(f.inv_freq).dims[1],
        1 <= c.context_length,
        c.context_length * tensor_view(f.inv_freq).dims[1] <= usize::MAX,
    ensures
        model_loads(gg, c, f, dtype, Place::Cpu),
{
    tables_are_taken(tensor_view(f.inv_freq), dtype, c.context_length, Place::Cpu);
    assert forall|i: int| 0 <= i < c.block_count implies #[trigger] block_loads(
        gg,
        c,
        f,
        dtype,
        Place::Cpu,
        i,
    ) by {
        let m = i as nat;
        let attends = (i + 1) % c.full_attention_interval as int == 0;
        let n = layer_tensors(m, attends);
        assert(layer_there(gg, c, i));
        assert(n[0] == layer_name(m, ".attn_norm.weight"@));
        assert(n[1] == layer_name(m, ".post_attention_norm.weight"@));
        if attends {
            assert(n[2] == layer_name(m, ".attn_q.weight"@));
            assert(n[3] == layer_name(m, ".attn_k.weight"@));
            assert(n[4] == layer_name(m, ".attn_v.weight"@));
            assert(n[5] == layer_name(m, ".attn_output.weight"@));
            assert(n[6] == layer_name(m, ".attn_q_norm.weight"@));
            assert(n[7] == layer_name(m, ".attn_k_norm.weight"@));
            assert(n[8] == layer_name(m, ".ffn_gate.weight"@));
            assert(n[9] == layer_name(m, ".ffn_up.weight"@));
            assert(n[10] == layer_name(m, ".ffn_down.weight"@));
        } else {
            assert(n[2] == layer_name(m, ".ffn_gate.weight"@));
            assert(n[3] == layer_name(m, ".ffn_up.weight"@));
            assert(n[4] == layer_name(m, ".ffn_down.weight"@));
        }
    }
}

/// No model has the settings exactly where some layer would have attention without heads
/// of keys and values, or it cannot be told which layers have attention.
pub proof fn bad_settings(c: &Config)
    ensures
        bad_config(c) <==> {
            ||| c.block_count > 0 && c.full_attention_interval == 0
            ||| c.num_kv_heads == 0 && exists|i: int|
                0 <= i < c.block_count && #[trigger] c.attends(i)
        },
{
    let n = c.full_attention_interval as int;
    if n > 0 {
        if n <= c.block_count {
            assert(n % n == 0) by (nonlinear_arith)
                requires
                    n > 0,
            ;
            assert(c.attends(n - 1));
        }
        assert forall|i: int| 0 <= i < c.block_count && #[trigger] c.attends(i) implies n
            <= c.block_count by {
            if i + 1 < n {
                assert((i + 1) % n == i + 1) by (nonlinear_arith)
                    requires
                        0 <= i + 1 < n,
                ;
            }
        }
    }
}

/// A call of a model on the cpu, in single precision, for one sequence or one position of
/// several, is taken and sure to succeed, where its dims agree and are counted by a
/// `usize`, there are angles for its positions, and what is kept is of the positions
/// before.
pub proof fn calls_succeed(w: ModelView, kept: Seq<Kept>, input: TensorView, offset: usize)
    requires
        model_takes(w, kept, input, offset),
        model_maps(w),
        tokens(input),
        turns_layers(w, offset + input.dims[1]),
        offset > 0 ==> kept_layers(w, kept, input.dims[0], offset),
    ensures
        runs(w, kept, input, offset),
        runs_surely(w, kept, input, offset),
{
    calls_are_taken(w, kept, input, offset);
    calls_are_sure(w, kept, input, offset);
}

} // verus!
