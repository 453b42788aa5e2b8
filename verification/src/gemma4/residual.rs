//! What a layer makes of the residual, number by number, in the names that the file
//! gives to the tensors of the layer.

use crate::attention::{last_position, run_view, Kept};
use crate::formula::{
    against, all_rows, embedding, embeddings_by_row, feedforward, feedforwards_by_row,
    file_norms_by_row, kept_keys, kept_values, last_rows, lemma_place, mask_number, mask_row,
    masks_by_position, matrix_norms_by_row, matrix_projections_by_row, norms_by_row, norms_in_file,
    one_behind_the_other, row2, row3, rows2, rows3, rows4, scaled_by, sums, sums_by_row,
};
use crate::gemma4::attention::{attended, attention_missing, attention_shaped, AttentionView};
use crate::gemma4::config::Config;
use crate::gemma4::experts::{mixture, mixtures_by_row, moe_shaped};
use crate::gemma4::layer::{
    after_attention, after_feedforward, combined, is_layer_of, layer_kept, layer_missing,
    layer_output, lemma_layer_output, sparse_norms_missing, token_rows, with_sparse, LayerSettings,
    LayerView,
};
use crate::gemma4::meaning::{asked, attention_by_row, kept_by_row, keys, output, values};
use crate::gemma4::model::{
    embedded_tokens, is_model_of, layer_rotary, layer_settings, layers_missing, logits, mask_for,
    model_missing, runs, stream, Floats, ModelView,
};
use crate::gemma4::moe::{has_experts, moe_missing, routed, MoeView};
use crate::gguf::Gguf;
use crate::mask::additive_mask;
use crate::mlp::{fed, missing_feedforwards_in_order, mlp_maps, mlp_missing, mlp_names, Gate};
use crate::nn::{
    absent, earlier, first_missing, lemma_first_missing, lemma_missing_one, loads, norm_of, normed,
    rotary_of, tensor_at, through, values_of, RotaryView,
};
use crate::tensor::element::{
    cast, element, element_broadcast, element_converted, element_dequantized, element_mapped,
    element_reshaped, laid_over, lemma_nth2, lemma_nth3, one, plus, times, valid, Num,
};
use crate::tensor::raw::{qtensor_dims, tensor_view};
use crate::tensor::run::{dequantized, embedded, given, mapped, paired, reshaped, Run};
use crate::tensor::view::{broadcast_dims, Op, Place, TensorView};
use crate::text::layer_name;
use candle_core::quantized::QTensor;
use candle_core::scalar::Scalar;
use candle_core::DType;
use vstd::prelude::*;

verus! {

/// The tensor of layer `i` with a name.
pub open spec fn named(gg: &Gguf, i: nat, name: Seq<char>) -> QTensor {
    tensor_at(gg, layer_name(i, name))
}

/// The attention of layer `i`, in the names of the file.
pub open spec fn attention_named(
    gg: &Gguf,
    i: nat,
    s: LayerSettings,
    rotary: RotaryView,
    v: Option<QTensor>,
) -> AttentionView {
    AttentionView {
        q: named(gg, i, ".attn_q.weight"@),
        k: named(gg, i, ".attn_k.weight"@),
        v,
        o: named(gg, i, ".attn_output.weight"@),
        q_norm: norm_of(named(gg, i, ".attn_q_norm.weight"@), s.eps),
        k_norm: norm_of(named(gg, i, ".attn_k_norm.weight"@), s.eps),
        n_head: s.n_head,
        n_kv_head: s.n_kv_head,
        head_dim: s.head_dim,
        groups: s.n_head / s.n_kv_head,
        eps: s.eps,
        rotary,
        dtype: s.dtype,
    }
}

/// The experts of layer `i`, in the names of the file.
pub open spec fn experts_named(gg: &Gguf, i: nat, s: LayerSettings, place: Place) -> MoeView {
    MoeView {
        router_proj: values_of(named(gg, i, ".ffn_gate_inp.weight"@), place, DType::F32),
        router_scale: values_of(named(gg, i, ".ffn_gate_inp.scale"@), place, DType::F32),
        per_expert_scale: values_of(named(gg, i, ".ffn_down_exps.scale"@), place, DType::F32),
        scalar_root_size: s.scalar_root_size,
        eps: s.eps,
        gate_up_exps: named(gg, i, ".ffn_gate_up_exps.weight"@),
        down_exps: named(gg, i, ".ffn_down_exps.weight"@),
        moe_inter: s.moe_inter,
        num_experts_per_tok: s.num_experts_per_tok,
        dtype: s.dtype,
    }
}

/// Row `l` of a sequence after attention: attention reads the rows normalised by
/// `attn_norm`, and what it makes of them is normalised by `post_attention_norm` and
/// added.
pub open spec fn attended_row(
    gg: &Gguf,
    i: nat,
    s: LayerSettings,
    rotary: RotaryView,
    v: Option<QTensor>,
    rows: Seq<Seq<Num>>,
    dtype: DType,
    mask: Option<TensorView>,
    offset: usize,
    kept: Kept,
    b: int,
    l: int,
) -> Seq<Num> {
    let n = Seq::new(
        rows.len(),
        |t: int| scaled_by(named(gg, i, ".attn_norm.weight"@), s.eps, rows[t]),
    );
    let a = attention_named(gg, i, s, rotary, v);
    sums(
        rows[l],
        scaled_by(
            named(gg, i, ".post_attention_norm.weight"@),
            s.eps,
            output(a, n, dtype, mask, offset, kept, b, l),
        ),
    )
}

/// The dense feedforward of a row, which is normalised by `ffn_norm`.
pub open spec fn dense_row(gg: &Gguf, i: nat, s: LayerSettings, r: Seq<Num>) -> Seq<Num> {
    let gate = named(gg, i, ".ffn_gate.weight"@);
    feedforward(
        gate,
        named(gg, i, ".ffn_up.weight"@),
        named(gg, i, ".ffn_down.weight"@),
        Gate::Gelu,
        qtensor_dims(gate)[0] as nat,
        r.len(),
        scaled_by(named(gg, i, ".ffn_norm.weight"@), s.eps, r),
    )
}

/// The sparse feedforward of token `t`: the router reads the rows themselves, the
/// experts read them normalised by `pre_ffw_norm_2`.
pub open spec fn sparse_row(
    gg: &Gguf,
    i: nat,
    s: LayerSettings,
    place: Place,
    tokens: Seq<Seq<Num>>,
    dtype: DType,
    is_prefill: bool,
    t: int,
) -> Seq<Num> {
    let n = Seq::new(
        tokens.len(),
        |u: int| scaled_by(named(gg, i, ".pre_ffw_norm_2.weight"@), s.eps, tokens[u]),
    );
    Seq::new(
        tokens[t].len(),
        |c: int| mixture(experts_named(gg, i, s, place), tokens, dtype, n, dtype, is_prefill, t, c),
    )
}

/// The feedforwards of token `t`: with experts the dense one is normalised by
/// `post_ffw_norm_1`, the sparse one by `post_ffw_norm_2`, and they are added.
pub open spec fn fed_row(
    gg: &Gguf,
    i: nat,
    s: LayerSettings,
    place: Place,
    tokens: Seq<Seq<Num>>,
    dtype: DType,
    is_prefill: bool,
    t: int,
) -> Seq<Num> {
    let dense = dense_row(gg, i, s, tokens[t]);
    if has_experts(gg, i) {
        sums(
            scaled_by(named(gg, i, ".post_ffw_norm_1.weight"@), s.eps, dense),
            scaled_by(
                named(gg, i, ".post_ffw_norm_2.weight"@),
                s.eps,
                sparse_row(gg, i, s, place, tokens, dtype, is_prefill, t),
            ),
        )
    } else {
        dense
    }
}

/// The factor of number `j` of position `l` of sequence `b` in the output of a layer:
/// that of `layer_output_scale`.
pub open spec fn factor(gg: &Gguf, i: nat, s: LayerSettings, b: int, l: int, j: int) -> Num {
    let q = named(gg, i, ".layer_output_scale.weight"@);
    cast(Num::Weight(q, laid_over(qtensor_dims(q), seq![b, l, j])), DType::F32, s.dtype)
}

/// Row `l` of sequence `b` after a layer, given the rows of all sequences before it:
/// the feedforwards are normalised by `post_ffw_norm` and added to what attention left,
/// and the sum is scaled.
pub open spec fn layer_row(
    gg: &Gguf,
    i: nat,
    s: LayerSettings,
    rotary: RotaryView,
    place: Place,
    v: Option<QTensor>,
    all: Seq<Seq<Seq<Num>>>,
    dtype: DType,
    mask: Option<TensorView>,
    offset: usize,
    kept: Kept,
    is_prefill: bool,
    b: int,
    l: int,
) -> Seq<Num> {
    let len = all[b].len() as int;
    let after = Seq::new(
        all.len(),
        |c: int|
            Seq::new(
                len as nat,
                |t: int|
                    attended_row(gg, i, s, rotary, v, all[c], dtype, mask, offset, kept, c, t),
            ),
    );
    let tokens = one_behind_the_other(after, len);
    let fed = scaled_by(
        named(gg, i, ".post_ffw_norm.weight"@),
        s.eps,
        fed_row(gg, i, s, place, tokens, dtype, is_prefill, b * len + l),
    );
    Seq::new(
        all[b][l].len(),
        |j: int| times(plus(after[b][l][j], fed[j]), factor(gg, i, s, b, l, j)),
    )
}

/// What a call of a layer is asked for: what attention is asked for, and feedforwards
/// and a scale for rows of as many numbers.
pub open spec fn layer_asked(
    w: LayerView,
    x: Run,
    mask: Option<TensorView>,
    offset: usize,
    kept: Kept,
) -> bool {
    &&& x.dims().len() == 3
    &&& x.dims()[0] * x.dims()[1] <= usize::MAX
    &&& asked(w.attention, normed(x, w.input_norm), mask, offset, kept)
    &&& mlp_maps(w.mlp, x.dims()[2], qtensor_dims(w.mlp.gate)[0])
    &&& w.sparse is Some ==> {
        let moe = w.sparse->0.moe;
        &&& moe_shaped(moe, x.dims()[2])
        &&& x.dims()[0] * x.dims()[1] * moe.num_experts_per_tok <= usize::MAX
    }
    &&& broadcast_dims(x.dims(), w.layer_scalar.dims) == x.dims()
    &&& w.layer_scalar.dims.len() <= 3
}

/// The attention of a layer of a file is the one that its names give.
proof fn lemma_attention_named(
    w: LayerView,
    gg: &Gguf,
    i: nat,
    s: LayerSettings,
    rotary: RotaryView,
    place: Place,
)
    requires
        is_layer_of(w, gg, i, s, rotary, place),
    ensures
        w.attention == attention_named(gg, i, s, rotary, w.attention.v),
        w.sparse is Some ==> w.sparse->0.moe == experts_named(gg, i, s, place),
{
}

/// The residual after attention, row by row.
pub proof fn attended_rows(
    w: LayerView,
    gg: &Gguf,
    i: nat,
    s: LayerSettings,
    rotary: RotaryView,
    place: Place,
    x: Run,
    mask: Option<TensorView>,
    offset: usize,
    kept: Kept,
    b: int,
    l: int,
)
    requires
        is_layer_of(w, gg, i, s, rotary, place),
        x.dims().len() == 3,
        asked(w.attention, normed(x, w.input_norm), mask, offset, kept),
        0 <= b < x.dims()[0],
        0 <= l < x.dims()[1],
    ensures
        after_attention(w, x, mask, offset, kept).dims() == x.dims(),
        row3(after_attention(w, x, mask, offset, kept), b, l) == attended_row(
            gg,
            i,
            s,
            rotary,
            w.attention.v,
            rows3(x, b),
            x.dtype(),
            mask,
            offset,
            kept,
            b,
            l,
        ),
{
    lemma_attention_named(w, gg, i, s, rotary, place);
    let n = normed(x, w.input_norm);
    let y = attended(w.attention, n, mask, offset, kept);
    let post = named(gg, i, ".post_attention_norm.weight"@);
    let first = named(gg, i, ".attn_norm.weight"@);
    assert(y.dims() =~= x.dims()) by {
        reveal(attended);
    }
    file_norms_by_row(x, first, s.eps, b);
    let rows = rows3(x, b);
    let want = Seq::new(rows.len(), |t: int| scaled_by(first, s.eps, rows[t]));
    assert forall|t: int| 0 <= t < rows.len() implies #[trigger] rows3(n, b)[t] == want[t] by {
        assert(rows[t] == row3(x, b, t));
    }
    assert(rows3(n, b) =~= want);
    attention_by_row(w.attention, n, mask, offset, kept, b, l);
    norms_by_row(y, w.post_attention_norm, b, l);
    norms_in_file(post, s.eps, row3(y, b, l));
    sums_by_row(x, normed(y, w.post_attention_norm), b, l);
}

/// A row for each token: the rows of all sequences, one sequence behind the other.
pub proof fn tokens_by_row(x: Run, residual: Run)
    requires
        x.dims().len() == 3,
        residual.dims() == x.dims(),
        x.dims()[0] * x.dims()[1] <= usize::MAX,
    ensures
        token_rows(x, residual).dims() == seq![
            (x.dims()[0] * x.dims()[1]) as usize,
            x.dims()[2],
        ],
        rows2(token_rows(x, residual)) == one_behind_the_other(
            all_rows(x),
            x.dims()[1] as int,
        ),
{
    let batch = x.dims()[0];
    let len = x.dims()[1];
    let hidden = x.dims()[2];
    let n = (batch * len) as usize;
    let y = token_rows(x, residual);
    let want = one_behind_the_other(all_rows(x), len as int);
    assert(x.dims() =~= seq![batch, len, hidden]);
    assert(y.dims() =~= seq![n, hidden]);
    assert forall|t: int| 0 <= t < n implies #[trigger] row2(y, t) == want[t] by {
        assert(len > 0) by (nonlinear_arith)
            requires
                0 <= t < batch * len,
        ;
        lemma_place(t, batch as int, len as int);
        let b = t / len as int;
        let l = t % len as int;
        assert forall|j: int| 0 <= j < hidden implies #[trigger] y.at2(t, j) == x.at3(b, l, j) by {
            lemma_nth2(n, hidden, t, j);
            lemma_nth3(batch, len, hidden, b, l, j);
            assert(valid(x.dims(), seq![b, l, j]));
            element_reshaped(x.view, seq![n, hidden], seq![t, j], seq![b, l, j]);
        }
        assert(row2(y, t) =~= row3(x, b, l));
        assert(all_rows(x)[b][l] == row3(x, b, l));
    }
    assert(rows2(y) =~= want);
}

/// The feedforwards of a residual, row by row.
pub proof fn fed_rows(
    w: LayerView,
    gg: &Gguf,
    i: nat,
    s: LayerSettings,
    rotary: RotaryView,
    place: Place,
    x: Run,
    is_prefill: bool,
    b: int,
    l: int,
)
    requires
        is_layer_of(w, gg, i, s, rotary, place),
        x.dims().len() == 3,
        x.dims()[0] * x.dims()[1] <= usize::MAX,
        mlp_maps(w.mlp, x.dims()[2], qtensor_dims(w.mlp.gate)[0]),
        w.sparse is Some ==> {
            let moe = w.sparse->0.moe;
            &&& moe_shaped(moe, x.dims()[2])
            &&& x.dims()[0] * x.dims()[1] * moe.num_experts_per_tok <= usize::MAX
        },
        0 <= b < x.dims()[0],
        0 <= l < x.dims()[1],
    ensures
        combined(w, x, is_prefill).dims() == x.dims(),
        row3(combined(w, x, is_prefill), b, l) == fed_row(
            gg,
            i,
            s,
            place,
            one_behind_the_other(all_rows(x), x.dims()[1] as int),
            x.dtype(),
            is_prefill,
            b * x.dims()[1] + l,
        ),
{
    lemma_attention_named(w, gg, i, s, rotary, place);
    let batch = x.dims()[0];
    let len = x.dims()[1];
    let hidden = x.dims()[2];
    let n = (batch * len) as usize;
    let t = b * len + l;
    assert(x.dims() =~= seq![batch, len, hidden]);
    vstd::arithmetic::div_mod::lemma_fundamental_div_mod_converse(t, len as int, b, l);
    assert(0 <= t < batch * len) by (nonlinear_arith)
        requires
            0 <= b < batch,
            0 <= l < len,
            t == b * len + l,
    ;
    let tokens = one_behind_the_other(all_rows(x), len as int);
    assert(tokens[t] == row3(x, b, l)) by {
        assert(all_rows(x)[b][l] == row3(x, b, l));
    }
    let r = tokens[t];
    let before = named(gg, i, ".ffn_norm.weight"@);
    let f = normed(x, w.pre_feedforward_norm);
    let dense = fed(w.mlp, f);
    norms_by_row(x, w.pre_feedforward_norm, b, l);
    norms_in_file(before, s.eps, r);
    feedforwards_by_row(w.mlp, f, b, l);
    assert(dense.dims() =~= x.dims());
    assert(row3(dense, b, l) == dense_row(gg, i, s, r));
    if let Some(sp) = w.sparse {
        let first = named(gg, i, ".post_ffw_norm_1.weight"@);
        let second = named(gg, i, ".post_ffw_norm_2.weight"@);
        let pre = named(gg, i, ".pre_ffw_norm_2.weight"@);
        let e = normed(x, sp.pre_norm);
        let router_in = token_rows(x, x);
        let expert_in = token_rows(e, x);
        let out = routed(sp.moe, router_in, expert_in, is_prefill);
        let shaped = reshaped(out, x.dims());
        let want = sparse_row(gg, i, s, place, tokens, x.dtype(), is_prefill, t);
        tokens_by_row(x, x);
        tokens_by_row(e, x);
        let ns = Seq::new(tokens.len(), |u: int| scaled_by(pre, s.eps, tokens[u]));
        assert forall|u: int| 0 <= u < n implies #[trigger] rows2(expert_in)[u] == ns[u] by {
            lemma_place(u, batch as int, len as int);
            let c = u / len as int;
            let m = u % len as int;
            file_norms_by_row(x, pre, s.eps, c);
            assert(all_rows(e)[c][m] == rows3(e, c)[m]);
            assert(all_rows(x)[c][m] == row3(x, c, m));
        }
        assert(rows2(expert_in) =~= ns);
        assert forall|c: int| 0 <= c < hidden implies #[trigger] shaped.at3(b, l, c) == want[c] by {
            mixtures_by_row(sp.moe, router_in, expert_in, is_prefill, t, c);
            lemma_nth2(n, hidden, t, c);
            lemma_nth3(batch, len, hidden, b, l, c);
            assert(valid(out.dims(), seq![t, c]));
            element_reshaped(out.view, x.dims(), seq![b, l, c], seq![t, c]);
        }
        assert(row3(shaped, b, l) =~= want);
        norms_by_row(dense, sp.dense_norm, b, l);
        norms_in_file(first, s.eps, row3(dense, b, l));
        norms_by_row(shaped, sp.sparse_norm, b, l);
        norms_in_file(second, s.eps, want);
        sums_by_row(normed(dense, sp.dense_norm), normed(shaped, sp.sparse_norm), b, l);
        let y = with_sparse(sp, x, dense, is_prefill);
        assert(row3(y, b, l) =~= row3(
            paired(Op::Add, normed(dense, sp.dense_norm), normed(shaped, sp.sparse_norm)),
            b,
            l,
        ));
        assert(y.dims() =~= x.dims());
    }
}

/// The output of a layer, row by row, in the names of the file.
pub proof fn layers_by_row(
    w: LayerView,
    gg: &Gguf,
    i: nat,
    s: LayerSettings,
    rotary: RotaryView,
    place: Place,
    x: Run,
    mask: Option<TensorView>,
    offset: usize,
    kept: Kept,
    is_prefill: bool,
    b: int,
    l: int,
)
    requires
        is_layer_of(w, gg, i, s, rotary, place),
        layer_asked(w, x, mask, offset, kept),
        0 <= b < x.dims()[0],
        0 <= l < x.dims()[1],
    ensures
        layer_output(w, x, mask, offset, kept, is_prefill).dims() == x.dims(),
        row3(layer_output(w, x, mask, offset, kept, is_prefill), b, l) == layer_row(
            gg,
            i,
            s,
            rotary,
            place,
            w.attention.v,
            all_rows(x),
            x.dtype(),
            mask,
            offset,
            kept,
            is_prefill,
            b,
            l,
        ),
{
    reveal(layer_output);
    let batch = x.dims()[0];
    let len = x.dims()[1];
    let hidden = x.dims()[2];
    let v = w.attention.v;
    let all = all_rows(x);
    let a = after_attention(w, x, mask, offset, kept);
    let c = combined(w, a, is_prefill);
    let n = normed(c, w.post_feedforward_norm);
    let sum = paired(Op::Add, a, n);
    let y = after_feedforward(w, a, is_prefill);
    let post = named(gg, i, ".post_ffw_norm.weight"@);
    let after = Seq::new(
        all.len(),
        |c: int|
            Seq::new(
                all[b].len(),
                |t: int|
                    attended_row(
                        gg,
                        i,
                        s,
                        rotary,
                        v,
                        all[c],
                        x.dtype(),
                        mask,
                        offset,
                        kept,
                        c,
                        t,
                    ),
            ),
    );
    attended_rows(w, gg, i, s, rotary, place, x, mask, offset, kept, b, l);
    assert forall|c: int| 0 <= c < batch implies #[trigger] all_rows(a)[c] == after[c] by {
        assert forall|t: int| 0 <= t < len implies #[trigger] all_rows(a)[c][t] == after[c][t] by {
            attended_rows(w, gg, i, s, rotary, place, x, mask, offset, kept, c, t);
            assert(all_rows(a)[c][t] == row3(a, c, t));
            assert(all[c] == rows3(x, c));
        }
        assert(all_rows(a)[c] =~= after[c]);
    }
    assert(all_rows(a) =~= after);
    assert(after[b][l] == row3(a, b, l));
    fed_rows(w, gg, i, s, rotary, place, a, is_prefill, b, l);
    norms_by_row(c, w.post_feedforward_norm, b, l);
    norms_in_file(post, s.eps, row3(c, b, l));
    sums_by_row(a, n, b, l);
    let q = named(gg, i, ".layer_output_scale.weight"@);
    let want = layer_row(
        gg,
        i,
        s,
        rotary,
        place,
        v,
        all,
        x.dtype(),
        mask,
        offset,
        kept,
        is_prefill,
        b,
        l,
    );
    assert(all[b][l] == row3(x, b, l));
    assert forall|j: int| 0 <= j < hidden implies #[trigger] y.at3(b, l, j) == want[j] by {
        let at = seq![b, l, j];
        element_broadcast(Op::BroadcastMul, sum.view, w.layer_scalar, at);
        assert(laid_over(sum.dims(), at) =~= at);
        element_converted(dequantized(q, place).view, s.dtype, laid_over(w.layer_scalar.dims, at));
        element_dequantized(q, qtensor_dims(q), place, laid_over(w.layer_scalar.dims, at));
        assert(row3(sum, b, l)[j] == sum.at3(b, l, j));
    }
    assert(y.dims() =~= x.dims());
    assert(row3(y, b, l) =~= want);
}

/// The settings of layer `i`, as a model has them: layers with a window have heads of
/// another size, and where the file does not say how many heads of keys and values a
/// layer has, it has 8 with a window and 2 without.
pub open spec fn settings_named(c: &Config, f: &Floats, dtype: DType, i: int) -> LayerSettings {
    let sliding = c.is_sliding@[i];
    LayerSettings {
        n_head: c.n_head,
        n_kv_head: if i < c.head_count_kv@.len() {
            c.head_count_kv@[i]
        } else if sliding {
            8
        } else {
            2
        },
        head_dim: if sliding {
            c.key_length_swa
        } else {
            c.key_length
        },
        moe_inter: c.moe_inter,
        num_experts_per_tok: c.num_experts_per_tok,
        eps: f.rms_norm_eps,
        scalar_root_size: f.scalar_root_size,
        dtype,
    }
}

/// The rotary embedding of layer `i`: of the inverse frequencies for layers with a
/// window, or of those for layers without one.
pub open spec fn rotary_named(c: &Config, f: &Floats, dtype: DType, place: Place, i: int) ->
    RotaryView {
    let inv_freq = if c.is_sliding@[i] {
        tensor_view(f.sliding_inv_freq)
    } else {
        tensor_view(f.full_inv_freq)
    };
    rotary_of(inv_freq, dtype, c.context_length, place)
}

/// The embedding of a token, scaled.
pub open spec fn token_row(gg: &Gguf, c: &Config, f: &Floats, dtype: DType, token: Num) -> Seq<
    Num,
> {
    let q = tensor_at(gg, "token_embd.weight"@);
    let e = embedding(q, qtensor_dims(q)[0] as nat, c.embedding_length as nat, token);
    Seq::new(
        e.len(),
        |j: int| cast(one(Op::MulScalar(f.embedding_scale), e[j]), DType::F32, dtype),
    )
}

/// The rows of all sequences after the first `n` layers, from the scaled embeddings of
/// their tokens on. Layers with a window have the one mask, the others the other.
pub open spec fn stream_rows(
    gg: &Gguf,
    c: &Config,
    f: &Floats,
    dtype: DType,
    place: Place,
    vs: Seq<Option<QTensor>>,
    sliding_mask: Option<TensorView>,
    full_mask: Option<TensorView>,
    kept: Seq<Kept>,
    input: TensorView,
    offset: usize,
    n: nat,
) -> Seq<Seq<Seq<Num>>>
    decreases n,
{
    if n == 0 {
        Seq::new(
            input.dims[0] as nat,
            |b: int|
                Seq::new(
                    input.dims[1] as nat,
                    |l: int| token_row(gg, c, f, dtype, element(input, seq![b, l])),
                ),
        )
    } else {
        let i = n - 1;
        let all = stream_rows(
            gg,
            c,
            f,
            dtype,
            place,
            vs,
            sliding_mask,
            full_mask,
            kept,
            input,
            offset,
            i as nat,
        );
        let mask = if c.is_sliding@[i] {
            sliding_mask
        } else {
            full_mask
        };
        Seq::new(
            input.dims[0] as nat,
            |b: int|
                Seq::new(
                    input.dims[1] as nat,
                    |l: int|
                        layer_row(
                            gg,
                            i as nat,
                            settings_named(c, f, dtype, i),
                            rotary_named(c, f, dtype, place, i),
                            place,
                            vs[i],
                            all,
                            dtype,
                            mask,
                            offset,
                            kept[i],
                            input.dims[1] > 1,
                            b,
                            l,
                        ),
                ),
        )
    }
}

/// A layer agrees with residuals of the given dims, has angles for its heads, and has
/// kept the keys and values of the positions before.
pub open spec fn layer_fits(w: LayerView, kept: Kept, dims: Seq<usize>, offset: usize) -> bool {
    let a = w.attention;
    &&& attention_shaped(a, dims[2])
    &&& a.groups > 0
    &&& a.rotary.cos.dims.len() == 2
    &&& a.rotary.sin.dims.len() == 2
    &&& a.rotary.cos.dims[1] * 2 == a.head_dim
    &&& a.rotary.sin.dims[1] * 2 == a.head_dim
    &&& offset > 0 ==> kept is Some && kept_keys(kept).dims == seq![
        dims[0],
        a.n_kv_head,
        offset,
        a.head_dim,
    ] && kept_values(kept).dims == kept_keys(kept).dims
    &&& mlp_maps(w.mlp, dims[2], qtensor_dims(w.mlp.gate)[0])
    &&& w.sparse is Some ==> {
        let moe = w.sparse->0.moe;
        &&& moe_shaped(moe, dims[2])
        &&& dims[0] * dims[1] * moe.num_experts_per_tok <= usize::MAX
    }
    &&& broadcast_dims(dims, w.layer_scalar.dims) == dims
    &&& w.layer_scalar.dims.len() <= 3
}

/// What a call of a model is asked for.
pub open spec fn model_asked(
    w: ModelView,
    kept: Seq<Kept>,
    input: TensorView,
    offset: usize,
) -> bool {
    &&& input.dims.len() == 2
    &&& input.dims[0] > 0
    &&& input.dims[1] > 0
    &&& input.dims[0] * input.dims[1] <= usize::MAX
    &&& offset + input.dims[1] <= usize::MAX
    &&& forall|i: int|
        0 <= i < w.layers.len() ==> layer_fits(
            #[trigger] w.layers[i],
            kept[i],
            seq![input.dims[0], input.dims[1], w.embedding_length],
            offset,
        )
    &&& runs(w, kept, input, offset)
}

/// The residual is sound only where it is up to each layer.
proof fn lemma_stream_sound(
    w: ModelView,
    kept: Seq<Kept>,
    input: TensorView,
    offset: usize,
    n: nat,
    m: nat,
)
    requires
        n <= m,
        stream(w, kept, input, offset, m).sound,
    ensures
        stream(w, kept, input, offset, n).sound,
    decreases m,
{
    if n < m {
        lemma_layer_output(
            w.layers[m - 1],
            stream(w, kept, input, offset, (m - 1) as nat),
            run_view(mask_for(w, w.is_sliding[m - 1], input.dims[1], offset)),
            offset,
            kept[m - 1],
            input.dims[1] > 1,
        );
        lemma_stream_sound(w, kept, input, offset, n, (m - 1) as nat);
    }
}

/// A layer is sound only where its attention is.
proof fn lemma_attention_sound(
    w: LayerView,
    x: Run,
    mask: Option<TensorView>,
    offset: usize,
    kept: Kept,
    is_prefill: bool,
)
    requires
        layer_output(w, x, mask, offset, kept, is_prefill).sound,
    ensures
        attended(w.attention, normed(x, w.input_norm), mask, offset, kept).sound,
{
    reveal(layer_output);
}

/// The embeddings of the tokens, row by row.
proof fn lemma_token_rows(
    w: ModelView,
    gg: &Gguf,
    c: &Config,
    f: &Floats,
    dtype: DType,
    place: Place,
    input: TensorView,
    b: int,
    l: int,
)
    requires
        is_model_of(w, gg, c, f, dtype, place),
        input.dims.len() == 2,
    ensures
        embedded_tokens(w, input).dims() == seq![
            input.dims[0],
            input.dims[1],
            c.embedding_length,
        ],
        embedded_tokens(w, input).dtype() == dtype,
        row3(embedded_tokens(w, input), b, l) == token_row(
            gg,
            c,
            f,
            dtype,
            element(input, seq![b, l]),
        ),
{
    let q = tensor_at(gg, "token_embd.weight"@);
    let table = dequantized(q, place);
    let e = embedded(given(w.embeddings), given(input), w.embedding_length);
    let m = mapped(Op::MulScalar(f.embedding_scale), e);
    let y = embedded_tokens(w, input);
    embeddings_by_row(q, place, input, c.embedding_length, b, l);
    assert(e.view == embedded(table, given(input), c.embedding_length).view);
    let want = token_row(gg, c, f, dtype, element(input, seq![b, l]));
    assert(row3(e, b, l) =~= row3(embedded(table, given(input), c.embedding_length), b, l));
    assert forall|j: int| 0 <= j < c.embedding_length implies #[trigger] y.at3(b, l, j)
        == want[j] by {
        element_converted(m.view, dtype, seq![b, l, j]);
        element_mapped(Op::MulScalar(f.embedding_scale), e.view, seq![b, l, j]);
        assert(row3(e, b, l)[j] == e.at3(b, l, j));
    }
    assert(row3(y, b, l) =~= want);
}

/// The residual after the first layers, row by row.
pub proof fn streams_by_row(
    w: ModelView,
    gg: &Gguf,
    c: &Config,
    f: &Floats,
    dtype: DType,
    place: Place,
    kept: Seq<Kept>,
    input: TensorView,
    offset: usize,
    n: nat,
)
    requires
        is_model_of(w, gg, c, f, dtype, place),
        model_asked(w, kept, input, offset),
        n <= w.layers.len(),
    ensures
        ({
            let x = stream(w, kept, input, offset, n);
            &&& x.dims() == seq![input.dims[0], input.dims[1], c.embedding_length]
            &&& x.dtype() == dtype
            &&& all_rows(x) == stream_rows(
                gg,
                c,
                f,
                dtype,
                place,
                Seq::new(w.layers.len(), |i: int| w.layers[i].attention.v),
                run_view(mask_for(w, true, input.dims[1], offset)),
                run_view(mask_for(w, false, input.dims[1], offset)),
                kept,
                input,
                offset,
                n,
            )
        }),
    decreases n,
{
    let vs = Seq::new(w.layers.len(), |i: int| w.layers[i].attention.v);
    let sm = run_view(mask_for(w, true, input.dims[1], offset));
    let fm = run_view(mask_for(w, false, input.dims[1], offset));
    let x = stream(w, kept, input, offset, n);
    let batch = input.dims[0];
    let len = input.dims[1];
    let want = stream_rows(gg, c, f, dtype, place, vs, sm, fm, kept, input, offset, n);
    let all = all_rows(x);
    if n == 0 {
        lemma_token_rows(w, gg, c, f, dtype, place, input, 0, 0);
        assert forall|b: int| 0 <= b < batch implies #[trigger] all[b] == want[b] by {
            assert forall|l: int| 0 <= l < len implies #[trigger] all[b][l] == want[b][l] by {
                lemma_token_rows(w, gg, c, f, dtype, place, input, b, l);
                assert(all[b][l] == row3(x, b, l));
            }
            assert(all[b] =~= want[b]);
        }
        assert(all =~= want);
    } else {
        let i = n - 1;
        let layer = w.layers[i];
        let before = stream(w, kept, input, offset, i as nat);
        let s = settings_named(c, f, dtype, i);
        let rotary = rotary_named(c, f, dtype, place, i);
        let sliding = c.is_sliding@[i];
        let mask = if sliding {
            sm
        } else {
            fm
        };
        streams_by_row(w, gg, c, f, dtype, place, kept, input, offset, i as nat);
        assert(is_layer_of(
            w.layers[i],
            gg,
            i as nat,
            layer_settings(c, f, dtype, i),
            layer_rotary(c, f, dtype, place, i),
            place,
        ));
        assert(stream(w, kept, input, offset, w.layers.len()).sound);
        lemma_stream_sound(w, kept, input, offset, n, w.layers.len());
        lemma_attention_sound(layer, before, mask, offset, kept[i], len > 1);
        if mask is Some {
            assert(mask->0.dims =~= seq![1, 1, len, (offset + len) as usize]);
        }
        let dims = seq![batch, len, w.embedding_length];
        assert(layer_fits(layer, kept[i], dims, offset));
        assert(before.dims() =~= dims);
        assert(layer_asked(layer, before, mask, offset, kept[i]));
        layers_by_row(
            layer,
            gg,
            i as nat,
            s,
            rotary,
            place,
            before,
            mask,
            offset,
            kept[i],
            len > 1,
            0,
            0,
        );
        assert(x.dtype() == before.dtype()) by {
            reveal(layer_output);
        }
        assert forall|b: int| 0 <= b < batch implies #[trigger] all[b] == want[b] by {
            assert forall|l: int| 0 <= l < len implies #[trigger] all[b][l] == want[b][l] by {
                layers_by_row(
                    layer,
                    gg,
                    i as nat,
                    s,
                    rotary,
                    place,
                    before,
                    mask,
                    offset,
                    kept[i],
                    len > 1,
                    b,
                    l,
                );
                assert(all[b][l] == row3(x, b, l));
            }
            assert(all[b] =~= want[b]);
        }
        assert(all =~= want);
    }
}

/// The logits brought within a cap: the cap times the hyperbolic tangent of the logits
/// over the cap.
pub open spec fn capped_number(a: Num, cap: Option<Scalar>) -> Num {
    match cap {
        Some(sc) => one(Op::MulScalar(sc), one(Op::Tanh, one(Op::DivScalar(sc), a))),
        None => a,
    }
}

/// The logits of a sequence: its last row after all layers, normalised by
/// `output_norm`, projected by `output`, or by the embeddings where there is no such
/// tensor, and brought within the cap.
pub proof fn logits_by_row(
    w: ModelView,
    gg: &Gguf,
    c: &Config,
    f: &Floats,
    dtype: DType,
    place: Place,
    kept: Seq<Kept>,
    input: TensorView,
    offset: usize,
    b: int,
)
    requires
        is_model_of(w, gg, c, f, dtype, place),
        model_asked(w, kept, input, offset),
        0 <= b < input.dims[0],
    ensures
        ({
            let own = gg.named("output.weight"@);
            &&& own is None ==> w.output == tensor_at(gg, "token_embd.weight"@)
            &&& own is Some && loads(*own->0) ==> w.output == *own->0
        }),
        ({
            let rows = stream_rows(
                gg,
                c,
                f,
                dtype,
                place,
                Seq::new(w.layers.len(), |i: int| w.layers[i].attention.v),
                run_view(mask_for(w, true, input.dims[1], offset)),
                run_view(mask_for(w, false, input.dims[1], offset)),
                kept,
                input,
                offset,
                c.block_count as nat,
            )[b];
            let last = scaled_by(
                tensor_at(gg, "output_norm.weight"@),
                f.rms_norm_eps,
                rows[input.dims[1] - 1],
            );
            row2(logits(w, kept, input, offset), b) == Seq::new(
                qtensor_dims(w.output)[0] as nat,
                |v: int| capped_number(against(w.output, v, last), f.final_logit_softcapping),
            )
        }),
{
    let n = c.block_count as nat;
    let len = input.dims[1];
    let xs = stream(w, kept, input, offset, n);
    streams_by_row(w, gg, c, f, dtype, place, kept, input, offset, n);
    let last = last_position(xs, len);
    last_rows(xs, len, b);
    assert(all_rows(xs)[b][len - 1] == row3(xs, b, len - 1));
    matrix_norms_by_row(last, w.norm, b);
    norms_in_file(tensor_at(gg, "output_norm.weight"@), f.rms_norm_eps, row2(last, b));
    let plain = through(normed(last, w.norm), w.output);
    matrix_projections_by_row(normed(last, w.norm), w.output, b);
    let y = logits(w, kept, input, offset);
    let r = row2(normed(last, w.norm), b);
    let want = Seq::new(
        qtensor_dims(w.output)[0] as nat,
        |v: int| capped_number(against(w.output, v, r), f.final_logit_softcapping),
    );
    assert forall|v: int| 0 <= v < want.len() implies #[trigger] y.at2(b, v) == want[v] by {
        assert(row2(plain, b)[v] == plain.at2(b, v));
        if let Some(sc) = w.softcap {
            let d = mapped(Op::DivScalar(sc), plain);
            let t = mapped(Op::Tanh, d);
            element_mapped(Op::DivScalar(sc), plain.view, seq![b, v]);
            element_mapped(Op::Tanh, d.view, seq![b, v]);
            element_mapped(Op::MulScalar(sc), t.view, seq![b, v]);
        }
    }
    assert(row2(y, b) =~= want);
}

/// The values of a layer have a projection of their own where the file has one that can
/// be loaded; where it has none, they are projected as the keys are.
pub proof fn own_values(
    w: LayerView,
    gg: &Gguf,
    i: nat,
    s: LayerSettings,
    rotary: RotaryView,
    place: Place,
)
    requires
        is_layer_of(w, gg, i, s, rotary, place),
    ensures
        ({
            let own = gg.named(layer_name(i, ".attn_v.weight"@));
            &&& own is None ==> w.attention.v is None
            &&& own is Some && loads(*own->0) ==> w.attention.v == Some(*own->0)
        }),
{
}

/// The masks of a call: on layers with a window a position sees those up to its own
/// that are less than the window away, on the others all of them. A single position
/// has none, and sees all.
pub proof fn masks_by_row(
    w: ModelView,
    sliding: bool,
    seq_len: usize,
    offset: usize,
    l: int,
    dtype: DType,
)
    requires
        0 <= l < seq_len,
        seq_len + offset <= usize::MAX,
    ensures
        ({
            let mask = mask_row(run_view(mask_for(w, sliding, seq_len, offset)), l, dtype);
            let window = if sliding {
                Some(w.sliding_window)
            } else {
                None
            };
            if seq_len == 1 {
                mask is None
            } else {
                mask == Some(
                    Seq::new(
                        (seq_len + offset) as nat,
                        |t: int| cast(mask_number(offset + l, t, window), DType::F32, dtype),
                    ),
                )
            }
        }),
{
    if seq_len != 1 {
        let window = if sliding {
            Some(w.sliding_window)
        } else {
            None
        };
        let plain = additive_mask(seq_len, offset, window, w.place);
        let m = run_view(mask_for(w, sliding, seq_len, offset))->0;
        let r = mask_row(Some(m), l, dtype)->0;
        let want = Seq::new(
            (seq_len + offset) as nat,
            |t: int| cast(mask_number(offset + l, t, window), DType::F32, dtype),
        );
        masks_by_position(seq_len, offset, window, w.place, l, 0);
        assert forall|t: int| 0 <= t < seq_len + offset implies #[trigger] r[t] == want[t] by {
            masks_by_position(seq_len, offset, window, w.place, l, t);
            element_converted(plain.view, DType::F32, seq![0, 0, l, t]);
        }
        assert(r =~= want);
    }
}

/// The names of the tensors of layer `i` that have to be there, in the order in which
/// they are read. Those of the experts are read where there is a first matrix of the
/// experts.
pub open spec fn layer_tensors(i: nat, experts: bool) -> Seq<Seq<char>> {
    seq![
        layer_name(i, ".attn_q.weight"@),
        layer_name(i, ".attn_k.weight"@),
        layer_name(i, ".attn_output.weight"@),
        layer_name(i, ".attn_q_norm.weight"@),
        layer_name(i, ".attn_k_norm.weight"@),
        layer_name(i, ".ffn_gate.weight"@),
        layer_name(i, ".ffn_up.weight"@),
        layer_name(i, ".ffn_down.weight"@),
        layer_name(i, ".attn_norm.weight"@),
        layer_name(i, ".post_attention_norm.weight"@),
        layer_name(i, ".ffn_norm.weight"@),
        layer_name(i, ".post_ffw_norm.weight"@),
    ] + (if experts {
        seq![
            layer_name(i, ".ffn_gate_inp.weight"@),
            layer_name(i, ".ffn_gate_inp.scale"@),
            layer_name(i, ".ffn_down_exps.scale"@),
            layer_name(i, ".ffn_down_exps.weight"@),
            layer_name(i, ".pre_ffw_norm_2.weight"@),
            layer_name(i, ".post_ffw_norm_1.weight"@),
            layer_name(i, ".post_ffw_norm_2.weight"@),
        ]
    } else {
        Seq::empty()
    }) + seq![layer_name(i, ".layer_output_scale.weight"@)]
}

/// The first missing of a list, of which the first is asked for, then the others.
proof fn lemma_missing_then(
    gg: &Gguf,
    name: Seq<char>,
    names: Seq<Seq<char>>,
    missing: Option<Seq<char>>,
)
    requires
        first_missing(gg, names, missing),
    ensures
        first_missing(gg, seq![name] + names, earlier(absent(gg, name), missing)),
{
    lemma_missing_one(gg, name);
    lemma_first_missing(gg, seq![name], names, absent(gg, name), missing);
}

/// The tensor that is missing for attention is the first in order.
proof fn lemma_missing_attention(gg: &Gguf, i: nat)
    ensures
        first_missing(gg, layer_tensors(i, false).take(5), attention_missing(gg, i)),
{
    let n = layer_tensors(i, false);
    lemma_missing_one(gg, n[4]);
    let m3 = earlier(absent(gg, n[3]), absent(gg, n[4]));
    let m2 = earlier(absent(gg, n[2]), m3);
    let m1 = earlier(absent(gg, n[1]), m2);
    lemma_missing_then(gg, n[3], seq![n[4]], absent(gg, n[4]));
    lemma_missing_then(gg, n[2], seq![n[3]] + seq![n[4]], m3);
    lemma_missing_then(gg, n[1], seq![n[2]] + (seq![n[3]] + seq![n[4]]), m2);
    lemma_missing_then(gg, n[0], seq![n[1]] + (seq![n[2]] + (seq![n[3]] + seq![n[4]])), m1);
    assert(seq![n[0]] + (seq![n[1]] + (seq![n[2]] + (seq![n[3]] + seq![n[4]]))) =~= n.take(5));
}

/// The tensor that is missing for the experts and the normalisations around them is the
/// first in order.
proof fn lemma_missing_experts(gg: &Gguf, i: nat)
    requires
        has_experts(gg, i),
    ensures
        first_missing(
            gg,
            layer_tensors(i, true).subrange(12, 19),
            earlier(moe_missing(gg, i), sparse_norms_missing(gg, i)),
        ),
{
    let n = layer_tensors(i, true);
    lemma_missing_one(gg, n[15]);
    lemma_missing_then(gg, n[14], seq![n[15]], absent(gg, n[15]));
    let m14 = earlier(absent(gg, n[14]), absent(gg, n[15]));
    let s14 = seq![n[14]] + seq![n[15]];
    lemma_missing_then(gg, n[13], s14, m14);
    lemma_missing_then(gg, n[12], seq![n[13]] + s14, earlier(absent(gg, n[13]), m14));
    lemma_missing_one(gg, n[18]);
    lemma_missing_then(gg, n[17], seq![n[18]], absent(gg, n[18]));
    let m17 = earlier(absent(gg, n[17]), absent(gg, n[18]));
    let s17 = seq![n[17]] + seq![n[18]];
    lemma_missing_then(gg, n[16], s17, m17);
    let a = seq![n[12]] + (seq![n[13]] + s14);
    let b = seq![n[16]] + s17;
    lemma_first_missing(gg, a, b, moe_missing(gg, i), sparse_norms_missing(gg, i));
    assert(a + b =~= n.subrange(12, 19));
}

/// The tensor that is missing for a layer is the first in order.
pub proof fn missing_tensors_in_order(gg: &Gguf, i: nat)
    ensures
        first_missing(gg, layer_tensors(i, has_experts(gg, i)), layer_missing(gg, i)),
{
    let experts = has_experts(gg, i);
    let n = layer_tensors(i, experts);
    let scale = layer_name(i, ".layer_output_scale.weight"@);
    let inner = n.subrange(12, n.len() - 1);
    let mi = earlier(moe_missing(gg, i), sparse_norms_missing(gg, i));
    lemma_missing_one(gg, scale);
    if experts {
        lemma_missing_experts(gg, i);
    }
    assert(first_missing(gg, inner, mi));
    lemma_first_missing(gg, inner, seq![scale], mi, absent(gg, scale));
    let m12 = earlier(mi, absent(gg, scale));
    let s12 = inner + seq![scale];
    lemma_missing_then(gg, n[11], s12, m12);
    let m11 = earlier(absent(gg, n[11]), m12);
    let s11 = seq![n[11]] + s12;
    lemma_missing_then(gg, n[10], s11, m11);
    let m10 = earlier(absent(gg, n[10]), m11);
    let s10 = seq![n[10]] + s11;
    lemma_missing_then(gg, n[9], s10, m10);
    let m9 = earlier(absent(gg, n[9]), m10);
    let s9 = seq![n[9]] + s10;
    lemma_missing_then(gg, n[8], s9, m9);
    let m8 = earlier(absent(gg, n[8]), m9);
    let s8 = seq![n[8]] + s9;
    missing_feedforwards_in_order(gg, i);
    lemma_first_missing(gg, mlp_names(i), s8, mlp_missing(gg, i), m8);
    let m5 = earlier(mlp_missing(gg, i), m8);
    let s5 = mlp_names(i) + s8;
    lemma_missing_attention(gg, i);
    let first = layer_tensors(i, false).take(5);
    lemma_first_missing(gg, first, s5, attention_missing(gg, i), m5);
    assert(first + s5 =~= n);
    assert(layer_missing(gg, i) == earlier(attention_missing(gg, i), m5));
}

/// The names of the tensors of the first `n` layers of a file, layer by layer.
pub open spec fn layers_tensors(gg: &Gguf, n: nat) -> Seq<Seq<char>>
    decreases n,
{
    if n == 0 {
        Seq::empty()
    } else {
        layers_tensors(gg, (n - 1) as nat) + layer_tensors(
            (n - 1) as nat,
            has_experts(gg, (n - 1) as nat),
        )
    }
}

/// The tensor that is missing for the first layers is the first in order.
proof fn lemma_missing_layers(gg: &Gguf, n: nat)
    ensures
        first_missing(gg, layers_tensors(gg, n), layers_missing(gg, n)),
    decreases n,
{
    if n > 0 {
        let m = (n - 1) as nat;
        lemma_missing_layers(gg, m);
        missing_tensors_in_order(gg, m);
        lemma_first_missing(
            gg,
            layers_tensors(gg, m),
            layer_tensors(m, has_experts(gg, m)),
            layers_missing(gg, m),
            layer_missing(gg, m),
        );
    }
}

/// The tensor that is missing for a model is the first in the order in which they are
/// read: the embeddings, the normalisation of the output, the layers.
pub proof fn missing_models_in_order(gg: &Gguf, n: nat)
    ensures
        first_missing(
            gg,
            seq!["token_embd.weight"@, "output_norm.weight"@] + layers_tensors(gg, n),
            model_missing(gg, n),
        ),
{
    let a = "token_embd.weight"@;
    let b = "output_norm.weight"@;
    let s = layers_tensors(gg, n);
    let m = layers_missing(gg, n);
    lemma_missing_layers(gg, n);
    lemma_missing_then(gg, b, s, m);
    lemma_missing_then(gg, a, seq![b] + s, earlier(absent(gg, b), m));
    assert(seq![a] + (seq![b] + s) =~= seq![a, b] + s);
}

/// What a layer keeps: for each head of each sequence the keys and values kept before,
/// then those of the positions of the call, each from the row of that position,
/// normalised by `attn_norm`.
pub proof fn layers_keep_rows(
    w: LayerView,
    gg: &Gguf,
    i: nat,
    s: LayerSettings,
    rotary: RotaryView,
    place: Place,
    x: Run,
    mask: Option<TensorView>,
    offset: usize,
    kept: Kept,
    b: int,
    g: int,
)
    requires
        is_layer_of(w, gg, i, s, rotary, place),
        layer_asked(w, x, mask, offset, kept),
        0 <= b < x.dims()[0],
        0 <= g < s.n_kv_head,
    ensures
        ({
            let (k, v) = layer_kept(w, x, offset, kept);
            let a = attention_named(gg, i, s, rotary, w.attention.v);
            let n = Seq::new(
                x.dims()[1] as nat,
                |t: int| scaled_by(named(gg, i, ".attn_norm.weight"@), s.eps, row3(x, b, t)),
            );
            &&& rows4(given(k), b, g) == keys(a, n, x.dtype(), offset, kept, b, g)
            &&& rows4(given(v), b, g) == values(a, n, x.dtype(), offset, kept, b, g)
        }),
{
    reveal(layer_kept);
    lemma_attention_named(w, gg, i, s, rotary, place);
    file_norms_by_row(x, named(gg, i, ".attn_norm.weight"@), s.eps, b);
    kept_by_row(w.attention, normed(x, w.input_norm), mask, offset, kept, b, g);
}

} // verus!
