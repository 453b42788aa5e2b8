//! Which calls of a model are taken: every step of them is one that the operations
//! take.

use crate::attention::{last_position, lemma_last_dims, run_view, Kept};
use crate::dtype::float_type;
use crate::formula::{kept_keys, kept_values, readings};
use crate::gemma4::attention::{
    all_keys_values, attended, attention_shaped, heads_of, new_keys, new_values, plain_queries,
    queries, raw_keys, raw_values, read_values, AttentionView,
};
use crate::gemma4::config::Config;
use crate::gemma4::experts::moe_shaped;
use crate::gemma4::layer::{
    after_attention, after_feedforward, combined, layer_output, token_rows, with_sparse, LayerView,
    SparseView,
};
use crate::gemma4::model::{
    block_loads, calls_are_sure, capped, embedded_tokens, has_headless_layer, kept_layers, mask_for,
    model_loads, model_maps, runs, runs_surely, stream, tokens, turns_layers, Floats, ModelView,
};
use crate::gemma4::moe::{
    expert_outputs, expert_probs, flat, has_experts, pick_weights, picked, routed, MoeView,
};
use crate::gemma4::residual::layer_tensors;
use crate::gguf::Gguf;
use crate::mlp::fed;
use crate::nn::{normed, there, through, unscaled_norm};
use crate::shape::{elem_count, fits, lemma_matrix_count, nonzero_product};
use crate::taken::{
    at_least_one, embeddings_are_taken, feedforward_takes, feedforwards_are_taken, kept_are_taken,
    lemma_below, lemma_nonzero_products, lemma_product_bound, masks_are_taken, norms_are_taken,
    projections_are_taken, readings_are_taken, rotations_are_taken, tables_are_taken, tables_fit,
    takes_rows,
};
use crate::tensor::raw::{qtensor_dims, tensor_view};
use crate::tensor::run::{
    broadcast, converted, expert_products, gathered, given, linear, mapped, narrowed,
    ordered_indexes, paired, reduced, reshaped, selected, sorted, stored, transposed, Run,
};
use crate::tensor::view::{broadcast_dims, single_on_cpu, Op, Place, TensorView};
use crate::text::layer_name;
use candle_core::quantized::QTensor;
use candle_core::scalar::Scalar;
use candle_core::DType;
use vstd::prelude::*;

verus! {

/// The matrices, normalisations and tables of attention can be taken for rows of
/// `hidden` numbers of an element type, in a place.
pub open spec fn attention_takes(
    w: AttentionView,
    place: Place,
    dtype: DType,
    hidden: usize,
) -> bool {
    let kv = (w.n_kv_head * w.head_dim) as usize;
    &&& attention_shaped(w, hidden)
    &&& takes_rows(w.q, place, dtype, hidden, (w.n_head * w.head_dim) as usize)
    &&& takes_rows(w.k, place, dtype, hidden, kv)
    &&& w.v is Some ==> takes_rows(w.v->0, place, dtype, hidden, kv)
    &&& takes_rows(w.o, place, dtype, (w.n_head * w.head_dim) as usize, hidden)
    &&& tables_fit(w.rotary, w.head_dim)
    &&& float_type(w.dtype)
    &&& float_type(dtype)
}

/// The keys and values of the positions before a call are kept.
pub open spec fn kept_fits(w: AttentionView, kept: Kept, batch: usize, offset: usize) -> bool {
    offset > 0 ==> kept is Some && kept_keys(kept).dims == seq![
        batch,
        w.n_kv_head,
        offset,
        w.head_dim,
    ] && kept_values(kept).dims == kept_keys(kept).dims
}

/// What is kept, read and scored is counted by a `usize`.
pub open spec fn attention_counted(
    w: AttentionView,
    batch: usize,
    len: usize,
    offset: usize,
) -> bool {
    let all = offset + len;
    &&& all <= usize::MAX
    &&& batch * w.n_head * all * (w.head_dim + all) <= usize::MAX
}

/// The numbers of heads that attention has.
proof fn lemma_heads(w: AttentionView, hidden: usize)
    requires
        attention_shaped(w, hidden),
        qtensor_dims(w.q)[0] > 0,
    ensures
        w.n_head > 0,
        w.groups > 0,
        w.n_kv_head <= w.n_head,
{
    if w.n_head == 0 {
        assert(w.n_head * w.head_dim == 0) by (nonlinear_arith)
            requires
                w.n_head == 0,
        ;
    }
    assert(w.groups > 0 && w.n_kv_head <= w.n_head) by (nonlinear_arith)
        requires
            w.n_kv_head * w.groups == w.n_head,
            w.n_head > 0,
            w.n_kv_head >= 0,
            w.groups >= 0,
    ;
}

/// A projection split into heads is taken.
proof fn lemma_heads_taken(w: AttentionView, x: Run, weight: QTensor, n: usize, to: int)
    requires
        x.sound,
        x.dims().len() == 3,
        1 <= x.dims()[0],
        1 <= x.dims()[1],
        fits(x.dims()),
        1 <= n,
        w.head_dim <= to,
        1 <= to,
        x.dims()[0] * n * x.dims()[1] * to <= usize::MAX,
        takes_rows(weight, x.place(), x.dtype(), x.dims()[2], (n * w.head_dim) as usize),
    ensures
        heads_of(w, x, through(x, weight), n).sound,
        heads_of(w, x, through(x, weight), n).dims() == seq![
            x.dims()[0],
            n,
            x.dims()[1],
            w.head_dim,
        ],
        fits(heads_of(w, x, through(x, weight), n).dims()),
{
    let b = x.dims()[0];
    let l = x.dims()[1];
    let d = w.head_dim;
    lemma_below(b, n, l, d, b as int, n as int, l as int, to);
    let rows = (n * d) as usize;
    assert(x.dims().update(2, rows) =~= seq![b, l, rows]);
    projections_are_taken(x, weight, rows);
    let r = reshaped(through(x, weight), seq![b, l, n, d]);
    assert(transposed(r, 1, 2).dims() =~= seq![b, n, l, d]);
}

/// Rows of the outcome of a normalisation without weights are taken.
proof fn lemma_unscaled_taken(x: Run, eps: Scalar)
    requires
        x.sound,
        x.dims().len() == 4,
        fits(x.dims()),
        1 <= x.dims()[3],
    ensures
        unscaled_norm(x, eps).sound,
        unscaled_norm(x, eps).dims() == x.dims(),
{
    let f = converted(x, DType::F32);
    let mean = reduced(Op::MeanKeepdim(3), mapped(Op::Sqr, f), 3);
    let rms = mapped(Op::Sqrt, mapped(Op::AddScalar(eps), mean));
    let (a, b, c, d) = (x.dims()[0], x.dims()[1], x.dims()[2], x.dims()[3]);
    assert(x.dims() =~= seq![a, b, c, d]);
    assert(mean.dims() =~= seq![a, b, c, 1]);
    lemma_nonzero_products(a, b, c, d);
    lemma_nonzero_products(a, b, c, 1);
    let p = nonzero_product(seq![a, b, c]);
    assert(p * 1 <= p * d) by (nonlinear_arith)
        requires
            p >= 0,
            d >= 1,
    ;
    assert(broadcast_dims(f.dims(), rms.dims()) =~= x.dims());
    assert(broadcast(Op::BroadcastDiv, f, rms).sound);
}

/// The queries, and the keys and values of a call, behind those kept, are taken.
proof fn lemma_heads_of_call_taken(w: AttentionView, x: Run, offset: usize, kept: Kept)
    requires
        x.sound,
        x.dims().len() == 3,
        1 <= x.dims()[0],
        1 <= x.dims()[1],
        fits(x.dims()),
        attention_takes(w, x.place(), x.dtype(), x.dims()[2]),
        attention_counted(w, x.dims()[0], x.dims()[1], offset),
        kept_fits(w, kept, x.dims()[0], offset),
    ensures
        ({
            let (k, v) = all_keys_values(w, x, offset, kept);
            let q = queries(w, x, offset);
            let dims = seq![
                x.dims()[0],
                w.n_kv_head,
                (offset + x.dims()[1]) as usize,
                w.head_dim,
            ];
            &&& q.sound
            &&& q.dims() == seq![x.dims()[0], w.n_head, x.dims()[1], w.head_dim]
            &&& q.dtype() == w.dtype
            &&& k.sound && v.sound
            &&& k.dims() == dims && v.dims() == dims
        }),
{
    let b = x.dims()[0];
    let l = x.dims()[1];
    let h = w.n_head;
    let g = w.n_kv_head;
    let d = w.head_dim;
    let t = offset + l;
    let to = d + t;
    lemma_heads(w, x.dims()[2]);
    lemma_product_bound(b as int, h as int, b as int, h as int);
    lemma_product_bound(b * h, l as int, b * h, t);
    lemma_product_bound(b * h * l, to, b * h * t, to);
    lemma_product_bound(b as int, g as int, b as int, h as int);
    lemma_product_bound(b * g, t, b * h, t);
    lemma_product_bound(b * g * t, to, b * h * t, to);
    lemma_product_bound(b * g, l as int, b * g, t);
    lemma_product_bound(b * g * l, to, b * g * t, to);
    lemma_nonzero_products(d, 0, 0, 0);
    lemma_below(b, h, l, d, b as int, h as int, l as int, to);
    lemma_heads_taken(w, x, w.q, h, to);
    norms_are_taken(heads_of(w, x, through(x, w.q), h), w.q_norm);
    let q = plain_queries(w, x);
    rotations_are_taken(w.rotary, stored(q), offset, l);
    lemma_heads_taken(w, x, w.k, g, to);
    let k = heads_of(w, x, raw_keys(w, x), g);
    norms_are_taken(k, w.k_norm);
    let c = converted(normed(k, w.k_norm), w.dtype);
    rotations_are_taken(w.rotary, stored(c), offset, l);
    if let Some(own) = w.v {
        lemma_heads_taken(w, x, own, g, to);
    }
    let v = heads_of(w, x, raw_values(w, x), g);
    lemma_unscaled_taken(v, w.eps);
    let nk = new_keys(w, x, offset);
    let nv = new_values(w, x);
    if offset > 0 {
        let (kc, vc) = kept->0;
        assert(kc.dims =~= nk.dims().update(2, offset));
        assert(vc.dims =~= nv.dims().update(2, offset));
    }
    kept_are_taken(kept, nk, nv, offset, to);
    let (ks, vs) = all_keys_values(w, x, offset, kept);
    assert(ks.dims() =~= seq![b, g, t as usize, d]);
    assert(vs.dims() =~= seq![b, g, t as usize, d]);
}

/// Attention is taken for a residual that comes out: where its matrices can be taken,
/// what is kept is of the positions before, the mask is as wide as the positions, and
/// what is kept, read and scored is counted by a `usize`.
pub proof fn attention_is_taken(
    w: AttentionView,
    x: Run,
    mask: Option<TensorView>,
    offset: usize,
    kept: Kept,
)
    requires
        x.sound,
        x.dims().len() == 3,
        1 <= x.dims()[0],
        1 <= x.dims()[1],
        fits(x.dims()),
        attention_takes(w, x.place(), x.dtype(), x.dims()[2]),
        attention_counted(w, x.dims()[0], x.dims()[1], offset),
        kept_fits(w, kept, x.dims()[0], offset),
        mask is Some ==> mask->0.dims == seq![
            1,
            1,
            x.dims()[1],
            (offset + x.dims()[1]) as usize,
        ],
    ensures
        attended(w, x, mask, offset, kept).sound,
        attended(w, x, mask, offset, kept).dims() == x.dims(),
        attended(w, x, mask, offset, kept).dtype() == x.dtype(),
{
    reveal(attended);
    let b = x.dims()[0];
    let l = x.dims()[1];
    let h = w.n_head;
    let d = w.head_dim;
    let t = offset + l;
    let to = d + t;
    let wide = (h * d) as usize;
    lemma_heads(w, x.dims()[2]);
    lemma_heads_of_call_taken(w, x, offset, kept);
    let q = queries(w, x, offset);
    let (k, v) = all_keys_values(w, x, offset, kept);
    readings_are_taken(q, k, v, w.groups, None, mask, to);
    let ctx = read_values(w, q, k, v, mask);
    assert(ctx == readings(q, k, v, w.groups, None, mask));
    lemma_product_bound(b as int, h as int, b as int, h as int);
    lemma_product_bound(b * h, l as int, b * h, t);
    lemma_product_bound(b * h * l, to, b * h * t, to);
    lemma_below(b, h, l, d, b as int, h as int, l as int, to);
    let turned = transposed(ctx, 1, 2);
    assert(turned.dims() =~= seq![b, l, h, d]);
    let flat = converted(reshaped(turned, seq![b, l, wide]), x.dtype());
    assert(flat.dims().update(2, x.dims()[2]) =~= x.dims());
    projections_are_taken(flat, w.o, x.dims()[2]);
    assert(attended(w, x, mask, offset, kept).dims() =~= x.dims());
}

/// The tensors of the experts can be taken for rows of `hidden` numbers: their matrices
/// are for as many, in eights.
pub open spec fn experts_take(w: MoeView, hidden: usize) -> bool {
    &&& moe_shaped(w, hidden)
    &&& hidden % 8 == 0
    &&& w.moe_inter % 8 == 0
    &&& w.moe_inter > 0
    &&& qtensor_dims(w.gate_up_exps)[2] == hidden
    &&& qtensor_dims(w.down_exps)[2] == w.moe_inter
    &&& w.router_proj.dims[0] > 0
    &&& fits(w.router_proj.dims)
    &&& float_type(w.dtype)
}

/// What the experts picked for some tokens compute is counted by a `usize`.
pub open spec fn experts_counted(w: MoeView, tokens: int, hidden: usize) -> bool {
    let k = w.num_experts_per_tok;
    tokens * k * k * (hidden + 2 * w.moe_inter + w.router_proj.dims[0]) <= usize::MAX
}

/// Matrices whose rows and columns are at most those of which the product is a `usize`
/// fit.
proof fn lemma_matrix_below(a: usize, b: usize, to_a: int, to_b: int)
    requires
        a <= to_a,
        b <= to_b,
        1 <= to_a,
        1 <= to_b,
        to_a * to_b <= usize::MAX,
    ensures
        fits(seq![a, b]),
        a * b <= usize::MAX,
        fits(seq![a]),
        fits(seq![b]),
{
    lemma_nonzero_products(a, b, 0, 0);
    lemma_nonzero_products(b, a, 0, 0);
    lemma_product_bound(at_least_one(a as int), at_least_one(b as int), to_a, to_b);
    lemma_product_bound(a as int, b as int, to_a, to_b);
    lemma_product_bound(at_least_one(a as int), 1, to_a, to_b);
    lemma_product_bound(1, at_least_one(b as int), to_a, to_b);
}

/// The products that the picks of experts are counted by.
proof fn lemma_picks_counted(w: MoeView, tokens: usize, hidden: usize)
    requires
        1 <= tokens,
        1 <= w.num_experts_per_tok,
        experts_counted(w, tokens as int, hidden),
        1 <= hidden,
    ensures
        ({
            let k = w.num_experts_per_tok;
            let to = hidden + 2 * w.moe_inter + w.router_proj.dims[0];
            &&& 1 <= tokens * k <= usize::MAX
            &&& tokens * to <= usize::MAX
            &&& tokens * k * to <= usize::MAX
            &&& tokens * k * k * to <= usize::MAX
            &&& 1 <= tokens * k * k <= usize::MAX
        }),
{
    let k = w.num_experts_per_tok;
    let to = hidden + 2 * w.moe_inter + w.router_proj.dims[0];
    let tk = tokens * k;
    assert(tokens <= tk && tk <= tk * k && 1 <= tk) by (nonlinear_arith)
        requires
            tk == tokens * k,
            tokens >= 1,
            k >= 1,
    ;
    lemma_product_bound(tk, to, tk * k, to);
    lemma_product_bound(tokens as int, to, tk, to);
    lemma_product_bound(tk * k, 1, tk * k, to);
}

/// The shares of the experts, and the weights of those picked, are taken.
proof fn lemma_routes_taken(w: MoeView, rows: Run)
    requires
        rows.sound,
        rows.dims().len() == 2,
        1 <= rows.dims()[0],
        1 <= rows.dims()[1],
        experts_take(w, rows.dims()[1]),
        experts_counted(w, rows.dims()[0] as int, rows.dims()[1]),
    ensures
        pick_weights(w, rows).sound,
        pick_weights(w, rows).dims() == seq![rows.dims()[0], w.num_experts_per_tok],
        picked(w, rows).sound,
        picked(w, rows).dims() == seq![rows.dims()[0], w.num_experts_per_tok],
{
    let t = rows.dims()[0];
    let d = rows.dims()[1];
    let k = w.num_experts_per_tok;
    let n = w.router_proj.dims[0];
    let to = d + 2 * w.moe_inter + n;
    lemma_picks_counted(w, t, d);
    assert(rows.dims() =~= seq![t, d]);
    lemma_matrix_below(t, d, t as int, to);
    lemma_matrix_below(t, 1, t as int, to);
    lemma_matrix_below(t, n, t as int, to);
    lemma_matrix_below(t, k, t as int, k as int);
    let f = converted(rows, DType::F32);
    let mean = reduced(Op::MeanKeepdim(1), mapped(Op::Sqr, f), 1);
    let rms = mapped(Op::Sqrt, mapped(Op::AddScalar(w.eps), mean));
    assert(mean.dims() =~= seq![t, 1]);
    assert(broadcast_dims(f.dims(), rms.dims()) =~= rows.dims());
    let u = unscaled_norm(f, w.eps);
    assert(u.dims() =~= rows.dims());
    assert(u.sound) by {
        assert(converted(f, DType::F32).dims() =~= rows.dims());
        assert(reduced(Op::MeanKeepdim(1), mapped(Op::Sqr, converted(f, DType::F32)), 1).dims()
            =~= seq![t, 1]);
    }
    assert(broadcast_dims(u.dims(), w.router_scale.dims) =~= rows.dims());
    let s = broadcast(Op::BroadcastMul, u, given(w.router_scale));
    assert(s.sound);
    let m = mapped(Op::MulScalar(w.scalar_root_size), s);
    let z = linear(m, given(w.router_proj));
    assert(z.dims() =~= seq![t, n]);
    let probs = expert_probs(w, rows);
    assert(probs.sound);
    let idx = picked(w, rows);
    assert(idx.dims() =~= seq![t, k]);
    assert(idx.sound);
    let share = gathered(probs, idx, 1);
    let total = reduced(Op::SumKeepdim(1), share, 1);
    assert(total.dims() =~= seq![t, 1]);
    assert(broadcast_dims(share.dims(), total.dims()) =~= seq![t, k]);
    lemma_matrix_count(t, k);
    let tk = (t * k) as usize;
    lemma_nonzero_products(tk, 0, 0, 0);
    let one = flat(idx);
    assert(one.dims() =~= seq![tk]);
    lemma_nonzero_products(n, 0, 0, 0);
    let scale = selected(given(w.per_expert_scale), one, 0);
    assert(scale.dims() =~= seq![tk]);
}

/// The sparse feedforward of tokens is taken.
pub proof fn mixtures_are_taken(w: MoeView, router_in: Run, expert_in: Run, is_prefill: bool)
    requires
        router_in.sound,
        expert_in.sound,
        router_in.dims().len() == 2,
        expert_in.dims() == router_in.dims(),
        1 <= router_in.dims()[0],
        1 <= router_in.dims()[1],
        experts_take(w, router_in.dims()[1]),
        experts_counted(w, router_in.dims()[0] as int, router_in.dims()[1]),
    ensures
        routed(w, router_in, expert_in, is_prefill).sound,
        routed(w, router_in, expert_in, is_prefill).dims() == router_in.dims(),
{
    reveal(routed);
    let t = router_in.dims()[0];
    let d = router_in.dims()[1];
    let k = w.num_experts_per_tok;
    let inter = w.moe_inter;
    let to = d + 2 * inter + w.router_proj.dims[0];
    let tk = (t * k) as usize;
    lemma_picks_counted(w, t, d);
    lemma_routes_taken(w, router_in);
    lemma_matrix_below(t, d, t as int, to);
    lemma_matrix_below(t, (2 * inter) as usize, t as int, to);
    lemma_matrix_below(tk, (2 * inter) as usize, tk as int, to);
    lemma_matrix_below(tk, inter, tk as int, to);
    lemma_matrix_below(tk, d, tk as int, to);
    lemma_matrix_below((t * k * k) as usize, d, t * k * k, to);
    lemma_matrix_count(t, k);
    assert(expert_in.dims() =~= seq![t, d]);
    let idx = picked(w, router_in);
    let ws = pick_weights(w, router_in);
    let one = flat(idx);
    lemma_nonzero_products(tk, 0, 0, 0);
    lemma_matrix_below(t, k, t as int, k as int);
    assert(one.dims() =~= seq![tk]);
    let ids = sorted(one, true);
    let order = ordered_indexes(one, true);
    let xs = converted(expert_in, DType::F32);
    let gate_up = expert_products(xs, w.gate_up_exps, None, order, ids, k, is_prefill, DType::BF16);
    assert(gate_up.sound);
    let gate = narrowed(gate_up, 1, 0, inter);
    let up = narrowed(gate_up, 1, inter, inter);
    assert(gate.dims() =~= seq![tk, inter]);
    assert(up.dims() =~= seq![tk, inter]);
    let inner = paired(Op::Mul, up, mapped(Op::Gelu, gate));
    assert(inner.sound);
    let out = expert_outputs(w, expert_in, idx, ws, is_prefill);
    assert(out.sound);
    assert(out.dims() =~= seq![tk, d]);
    lemma_matrix_count(tk, d);
    let count = elem_count(out.dims());
    assert(count == k * (t * d) && 0 < t * d) by (nonlinear_arith)
        requires
            count == tk * d,
            tk == t * k,
            t >= 1,
            d >= 1,
    ;
    assert((t * d) * k == k * (t * d)) by (nonlinear_arith);
    vstd::arithmetic::div_mod::lemma_div_multiples_vanish(k as int, t * d);
    vstd::arithmetic::div_mod::lemma_mod_multiples_basic(k as int, t * d);
    lemma_nonzero_products(t, k, d, 0);
    let parted = reshaped(out, seq![t, k, d]);
    assert(parted.dims().remove(1) =~= seq![t, d]);
}

/// A layer can be taken for rows of `hidden` numbers, has kept the positions before, and
/// what it computes is counted by a `usize`.
pub open spec fn layer_takes(
    w: LayerView,
    kept: Kept,
    place: Place,
    dtype: DType,
    dims: Seq<usize>,
    offset: usize,
) -> bool {
    let inner = qtensor_dims(w.mlp.gate)[0];
    &&& feedforward_takes(w.mlp, place, dtype, dims[2], inner)
    &&& dims[0] * dims[1] * inner <= usize::MAX
    &&& w.input_norm.weight.dims == seq![dims[2]]
    &&& w.post_attention_norm.weight.dims == seq![dims[2]]
    &&& w.pre_feedforward_norm.weight.dims == seq![dims[2]]
    &&& w.post_feedforward_norm.weight.dims == seq![dims[2]]
    &&& w.layer_scalar.dims == seq![1usize]
    &&& w.sparse is Some ==> {
        let s = w.sparse->0;
        &&& experts_take(s.moe, dims[2])
        &&& experts_counted(s.moe, dims[0] * dims[1], dims[2])
        &&& s.pre_norm.weight.dims == seq![dims[2]]
        &&& s.dense_norm.weight.dims == seq![dims[2]]
        &&& s.sparse_norm.weight.dims == seq![dims[2]]
    }
    &&& attention_takes(w.attention, place, dtype, dims[2])
    &&& attention_counted(w.attention, dims[0], dims[1], offset)
    &&& kept_fits(w.attention, kept, dims[0], offset)
}

/// The sum of the dense and the sparse feedforward is taken.
proof fn lemma_sparse_taken(s: SparseView, x: Run, dense: Run, is_prefill: bool)
    requires
        x.sound,
        dense.sound,
        x.dims().len() == 3,
        dense.dims() == x.dims(),
        dense.dtype() == x.dtype(),
        float_type(x.dtype()),
        1 <= x.dims()[0],
        1 <= x.dims()[1],
        1 <= x.dims()[2],
        fits(x.dims()),
        experts_take(s.moe, x.dims()[2]),
        experts_counted(s.moe, x.dims()[0] * x.dims()[1], x.dims()[2]),
        s.pre_norm.weight.dims == seq![x.dims()[2]],
        s.dense_norm.weight.dims == seq![x.dims()[2]],
        s.sparse_norm.weight.dims == seq![x.dims()[2]],
    ensures
        with_sparse(s, x, dense, is_prefill).sound,
        with_sparse(s, x, dense, is_prefill).dims() == x.dims(),
{
    let b = x.dims()[0];
    let l = x.dims()[1];
    let d = x.dims()[2];
    assert(x.dims() =~= seq![b, l, d]);
    lemma_nonzero_products(d, 0, 0, 0);
    lemma_nonzero_products(b, l, d, 0);
    assert(1 <= b * l <= b * l * d) by (nonlinear_arith)
        requires
            b >= 1,
            l >= 1,
            d >= 1,
    ;
    let n = (b * l) as usize;
    lemma_nonzero_products(n, d, 0, 0);
    norms_are_taken(x, s.pre_norm);
    let e = normed(x, s.pre_norm);
    let router_in = token_rows(x, x);
    let expert_in = token_rows(e, x);
    assert(router_in.dims() =~= seq![n, d]);
    assert(expert_in.dims() =~= seq![n, d]);
    mixtures_are_taken(s.moe, router_in, expert_in, is_prefill);
    let out = routed(s.moe, router_in, expert_in, is_prefill);
    let shaped = reshaped(out, x.dims());
    norms_are_taken(dense, s.dense_norm);
    norms_are_taken(shaped, s.sparse_norm);
}

/// A layer is taken for a residual that comes out.
pub proof fn layers_are_taken(
    w: LayerView,
    x: Run,
    mask: Option<TensorView>,
    offset: usize,
    kept: Kept,
    is_prefill: bool,
)
    requires
        x.sound,
        x.dims().len() == 3,
        1 <= x.dims()[0],
        1 <= x.dims()[1],
        1 <= x.dims()[2],
        fits(x.dims()),
        layer_takes(w, kept, x.place(), x.dtype(), x.dims(), offset),
        mask is Some ==> mask->0.dims == seq![
            1,
            1,
            x.dims()[1],
            (offset + x.dims()[1]) as usize,
        ],
    ensures
        layer_output(w, x, mask, offset, kept, is_prefill).sound,
        layer_output(w, x, mask, offset, kept, is_prefill).dims() == x.dims(),
        layer_output(w, x, mask, offset, kept, is_prefill).dtype() == x.dtype(),
        layer_output(w, x, mask, offset, kept, is_prefill).place() == x.place(),
{
    reveal(layer_output);
    let inner = qtensor_dims(w.mlp.gate)[0];
    let n = normed(x, w.input_norm);
    lemma_nonzero_products(x.dims()[2], 0, 0, 0);
    lemma_nonzero_products(1, 0, 0, 0);
    norms_are_taken(x, w.input_norm);
    attention_is_taken(w.attention, n, mask, offset, kept);
    let y = attended(w.attention, n, mask, offset, kept);
    norms_are_taken(y, w.post_attention_norm);
    let a = after_attention(w, x, mask, offset, kept);
    norms_are_taken(a, w.pre_feedforward_norm);
    lemma_nonzero_products(x.dims()[0], x.dims()[1], inner, 0);
    let f = normed(a, w.pre_feedforward_norm);
    feedforwards_are_taken(w.mlp, f, inner);
    let c = combined(w, a, is_prefill);
    let dense = fed(w.mlp, f);
    if let Some(s) = w.sparse {
        lemma_sparse_taken(s, a, dense, is_prefill);
    }
    norms_are_taken(c, w.post_feedforward_norm);
    assert(broadcast_dims(x.dims(), w.layer_scalar.dims) =~= x.dims());
    assert(after_feedforward(w, a, is_prefill).dims() =~= x.dims());
}

/// A call can be taken by a model: its tokens, the residual, the scores, the mask and
/// the logits are counted by a `usize`, and each layer can be taken and has kept the
/// positions before.
pub open spec fn model_takes(
    w: ModelView,
    kept: Seq<Kept>,
    input: TensorView,
    offset: usize,
) -> bool {
    let dims = seq![input.dims[0], input.dims[1], w.embedding_length];
    let place = w.embeddings.place;
    &&& input.dims.len() == 2
    &&& 1 <= input.dims[0]
    &&& 1 <= input.dims[1]
    &&& 1 <= w.embedding_length
    &&& input.dims[0] * input.dims[1] * w.embedding_length <= usize::MAX
    &&& w.embeddings.dims.len() == 2
    &&& w.embeddings.dims[1] == w.embedding_length
    &&& fits(w.embeddings.dims)
    &&& float_type(w.embeddings.dtype)
    &&& float_type(w.dtype)
    &&& offset + input.dims[1] <= usize::MAX
    &&& input.dims[1] * (input.dims[1] + offset) <= usize::MAX
    &&& forall|i: int|
        0 <= i < w.layers.len() ==> layer_takes(
            #[trigger] w.layers[i],
            kept[i],
            place,
            w.dtype,
            dims,
            offset,
        )
    &&& w.norm.weight.dims == seq![w.embedding_length]
    &&& takes_rows(w.output, place, w.dtype, w.embedding_length, qtensor_dims(w.output)[0])
    &&& input.dims[0] * qtensor_dims(w.output)[0] <= usize::MAX
}

/// The residual is taken after each layer.
proof fn lemma_stream_taken(
    w: ModelView,
    kept: Seq<Kept>,
    input: TensorView,
    offset: usize,
    n: nat,
)
    requires
        model_takes(w, kept, input, offset),
        n <= w.layers.len(),
    ensures
        ({
            let x = stream(w, kept, input, offset, n);
            &&& x.sound
            &&& x.dims() == seq![input.dims[0], input.dims[1], w.embedding_length]
            &&& x.dtype() == w.dtype
            &&& x.place() == w.embeddings.place
            &&& fits(x.dims())
        }),
    decreases n,
{
    if n == 0 {
        embeddings_are_taken(w.embeddings, input);
        assert(embedded_tokens(w, input) == stream(w, kept, input, offset, 0));
    } else {
        lemma_stream_taken(w, kept, input, offset, (n - 1) as nat);
        let mask = run_view(mask_for(w, w.is_sliding[n - 1], input.dims[1], offset));
        if mask is Some {
            assert(mask->0.dims =~= seq![
                1,
                1,
                input.dims[1],
                (offset + input.dims[1]) as usize,
            ]);
        }
        layers_are_taken(
            w.layers[n - 1],
            stream(w, kept, input, offset, (n - 1) as nat),
            mask,
            offset,
            kept[n - 1],
            input.dims[1] > 1,
        );
    }
}

/// A call that a model can take is taken, up to the logits: none of its steps is
/// refused.
pub proof fn calls_are_taken(w: ModelView, kept: Seq<Kept>, input: TensorView, offset: usize)
    requires
        model_takes(w, kept, input, offset),
    ensures
        runs(w, kept, input, offset),
{
    let len = input.dims[1];
    let n = w.layers.len();
    let rows = qtensor_dims(w.output)[0];
    lemma_stream_taken(w, kept, input, offset, n);
    let xs = stream(w, kept, input, offset, n);
    let last = last_position(xs, len);
    lemma_last_dims(xs, len);
    let b = input.dims[0];
    let d = w.embedding_length;
    lemma_nonzero_products(b, d, 0, 0);
    lemma_nonzero_products(d, 0, 0, 0);
    lemma_nonzero_products(b, rows, 0, 0);
    lemma_nonzero_products(b, len, d, 0);
    assert(b * d <= b * len * d) by (nonlinear_arith)
        requires
            len >= 1,
            b >= 1,
            d >= 1,
    ;
    norms_are_taken(last, w.norm);
    assert(last.dims().update(1, rows) =~= seq![b, rows]);
    projections_are_taken(normed(last, w.norm), w.output, rows);
    let plain = through(normed(last, w.norm), w.output);
    assert(capped(plain, w.softcap).sound);
    if len != 1 {
        lemma_nonzero_products(len, (len + offset) as usize, 0, 0);
        masks_are_taken(len, offset, None, w.place);
        masks_are_taken(len, offset, Some(w.sliding_window), w.place);
    }
}

/// There is a tensor that can be loaded under each name of a list.
pub open spec fn all_there(gg: &Gguf, names: Seq<Seq<char>>) -> bool {
    forall|k: int| 0 <= k < names.len() ==> there(gg, #[trigger] names[k])
}

/// Inverse frequencies on the cpu, in single precision, whose tables fit.
pub open spec fn frequencies_fit(t: TensorView, positions: u32) -> bool {
    &&& single_on_cpu(t)
    &&& t.dims.len() == 2
    &&& t.dims[0] == 1
    &&& 1 <= t.dims[1]
    &&& positions * t.dims[1] <= usize::MAX
}

/// A file with each tensor of a model, on the cpu, is sure to be loaded there, where the
/// tables of angles fit and no layer is said to have no heads of keys and values.
pub proof fn complete_files_load(gg: &Gguf, c: &Config, f: &Floats, dtype: DType)
    requires
        there(gg, "token_embd.weight"@),
        there(gg, "output_norm.weight"@),
        forall|i: int|
            0 <= i < c.block_count ==> all_there(
                gg,
                #[trigger] layer_tensors(i as nat, has_experts(gg, i as nat)),
            ),
        forall|i: int| 0 <= i < c.head_count_kv@.len() ==> #[trigger] c.head_count_kv@[i] > 0,
        float_type(dtype),
        1 <= c.context_length,
        frequencies_fit(tensor_view(f.sliding_inv_freq), c.context_length),
        frequencies_fit(tensor_view(f.full_inv_freq), c.context_length),
    ensures
        model_loads(gg, c, f, dtype, Place::Cpu),
        !has_headless_layer(c),
{
    tables_are_taken(tensor_view(f.sliding_inv_freq), dtype, c.context_length, Place::Cpu);
    tables_are_taken(tensor_view(f.full_inv_freq), dtype, c.context_length, Place::Cpu);
    assert forall|i: int| 0 <= i < c.block_count implies #[trigger] block_loads(
        gg,
        c,
        f,
        dtype,
        Place::Cpu,
        i,
    ) by {
        let m = i as nat;
        let n = layer_tensors(m, has_experts(gg, m));
        assert(n[0] == layer_name(m, ".attn_q.weight"@));
        assert(n[1] == layer_name(m, ".attn_k.weight"@));
        assert(n[2] == layer_name(m, ".attn_output.weight"@));
        assert(n[3] == layer_name(m, ".attn_q_norm.weight"@));
        assert(n[4] == layer_name(m, ".attn_k_norm.weight"@));
        assert(n[5] == layer_name(m, ".ffn_gate.weight"@));
        assert(n[6] == layer_name(m, ".ffn_up.weight"@));
        assert(n[7] == layer_name(m, ".ffn_down.weight"@));
        assert(n[8] == layer_name(m, ".attn_norm.weight"@));
        assert(n[9] == layer_name(m, ".post_attention_norm.weight"@));
        assert(n[10] == layer_name(m, ".ffn_norm.weight"@));
        assert(n[11] == layer_name(m, ".post_ffw_norm.weight"@));
        if has_experts(gg, m) {
            assert(n[12] == layer_name(m, ".ffn_gate_inp.weight"@));
            assert(n[13] == layer_name(m, ".ffn_gate_inp.scale"@));
            assert(n[14] == layer_name(m, ".ffn_down_exps.scale"@));
            assert(n[15] == layer_name(m, ".ffn_down_exps.weight"@));
            assert(n[16] == layer_name(m, ".pre_ffw_norm_2.weight"@));
            assert(n[17] == layer_name(m, ".post_ffw_norm_1.weight"@));
            assert(n[18] == layer_name(m, ".post_ffw_norm_2.weight"@));
            assert(n[19] == layer_name(m, ".layer_output_scale.weight"@));
        } else {
            assert(n[12] == layer_name(m, ".layer_output_scale.weight"@));
        }
        if i < c.head_count_kv@.len() {
            assert(c.head_count_kv@[i] > 0);
        }
    }
    assert forall|i: int| 0 <= i < c.block_count implies #[trigger] c.kv_heads(i) != 0 by {
        if i < c.head_count_kv@.len() {
            assert(c.head_count_kv@[i] > 0);
        }
    }
}

/// A call of a model without experts on the cpu, in single precision, for one sequence or
/// one position of several, is taken and sure to succeed, where its dims agree and are
/// counted by a `usize`, there are angles for its positions, and what is kept is of the
/// positions before.
pub proof fn calls_succeed(w: ModelView, kept: Seq<Kept>, input: TensorView, offset: usize)
    requires
        model_takes(w, kept, input, offset),
        model_maps(w),
        tokens(input),
        turns_layers(w, offset + input.dims[1]),
        offset > 0 ==> kept_layers(w, kept, input.dims[0], offset),
    ensures
        runs(w, kept, input, offset),
        runs_surely(w, kept, input, offset),
{
    calls_are_taken(w, kept, input, offset);
    calls_are_sure(w, kept, input, offset);
}

} // verus!
