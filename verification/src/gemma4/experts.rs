//! What the sparse feedforward computes, number by number.

use crate::formula::{
    cast_row, lemma_place, lemma_row2, matrix_converted_by_row, matrix_unscaled_norms_by_row, row2,
    rows2, unscaled,
};
use crate::gemma4::moe::{
    expert_outputs, expert_probs, flat, mixed, pick_weights, picked, routed, MoeView,
};
use crate::nn::unscaled_norm;
use crate::shape::{elem_count, lemma_matrix_count};
use crate::tensor::element::{
    cast, element, element_broadcast, element_converted, element_linear, element_mapped,
    element_multiplied, element_narrowed, element_picked, element_picked_product, element_reduced,
    element_reshaped, element_softmax, element_sorted, element_stored, element_summed, laid_over,
    lemma_index_of_nth, lemma_nth1, lemma_nth2, lemma_nth3, listed, one, over, row, times, valid,
    Num,
};
use crate::tensor::raw::qtensor_dims;
use crate::tensor::run::{
    broadcast, converted, expert_products, gathered, given, linear, mapped, narrowed,
    ordered_indexes, paired, reduced, reshaped, selected, sorted, summed, Run,
};
use crate::tensor::view::{broadcast_dims, Op};
use candle_core::quantized::QTensor;
use candle_core::DType;
use vstd::prelude::*;

verus! {

/// What the router makes of a row before it looks at the experts: over the root of its
/// mean square, times the scales of the router, times its scale of all numbers.
pub open spec fn router_row(w: MoeView, r: Seq<Num>, dtype: DType) -> Seq<Num> {
    let n = unscaled(cast_row(r, dtype, DType::F32), DType::F32, w.eps);
    Seq::new(
        r.len(),
        |j: int|
            one(
                Op::MulScalar(w.scalar_root_size),
                times(n[j], element(w.router_scale, seq![j])),
            ),
    )
}

/// The score of expert `e` for a row.
pub open spec fn expert_score(w: MoeView, r: Seq<Num>, dtype: DType, e: int) -> Num {
    Num::Dot(
        router_row(w, r, dtype),
        Seq::new(r.len(), |j: int| element(w.router_proj, seq![e, j])),
    )
}

/// The shares of the experts in a row: the softmax of their scores.
pub open spec fn shares(w: MoeView, r: Seq<Num>, dtype: DType) -> Seq<Num> {
    let n = w.router_proj.dims[0] as nat;
    let scores = Seq::new(n, |e: int| expert_score(w, r, dtype, e));
    Seq::new(n, |e: int| Num::InRow(Op::SoftmaxLastDim, scores, e))
}

/// The expert with the share of rank `k`, from the largest on.
pub open spec fn pick(w: MoeView, r: Seq<Num>, dtype: DType, k: int) -> Num {
    Num::InRow(Op::ArgSortLastDim(false), shares(w, r, dtype), k)
}

/// The share of a picked expert.
pub open spec fn share(w: MoeView, r: Seq<Num>, dtype: DType, k: int) -> Num {
    Num::Pick(shares(w, r, dtype), Box::new(pick(w, r, dtype, k)))
}

/// The weight of a picked expert: its share, over the sum of the shares of those
/// picked, times its scale.
pub open spec fn weight(w: MoeView, r: Seq<Num>, dtype: DType, k: int) -> Num {
    let all = Num::Sum(
        Seq::new(w.num_experts_per_tok as nat, |i: int| share(w, r, dtype, i)),
    );
    times(
        over(share(w, r, dtype, k), all),
        Num::Pick(listed(w.per_expert_scale), Box::new(pick(w, r, dtype, k))),
    )
}

/// The experts picked for all rows, one row behind the other.
pub open spec fn all_picks(w: MoeView, rows: Seq<Seq<Num>>, dtype: DType) -> Seq<Num> {
    let k = w.num_experts_per_tok as int;
    Seq::new((rows.len() * k) as nat, |p: int| pick(w, rows[p / k], dtype, p % k))
}

/// The expert of pick `p`: the one in the order of the experts that stands where `p`
/// stands among the picks in that order.
pub open spec fn expert_of(picks: Seq<Num>, p: int) -> Num {
    Num::Beside(
        Seq::new(picks.len(), |i: int| Num::InRow(Op::ArgSortLastDim(true), picks, i)),
        Seq::new(picks.len(), |i: int| Num::InRow(Op::SortLastDim(true), picks, i)),
        p,
    )
}

/// The product of a row with row `o` of the matrix of an expert, in brain floating
/// point.
pub open spec fn by_expert(
    experts: QTensor,
    expert: Num,
    o: int,
    r: Seq<Num>,
    is_prefill: bool,
) -> Num {
    Num::DotIn(experts, Box::new(expert), o, r, DType::BF16, is_prefill)
}

/// What an expert makes of a row: of the rows of its first matrix the first
/// `moe_inter` give gates, which alone are activated, the others are multiplied with
/// them; the products go through its second matrix. The matrices multiply in brain
/// floating point.
pub open spec fn expert_row(
    w: MoeView,
    expert: Num,
    r: Seq<Num>,
    dtype: DType,
    is_prefill: bool,
) -> Seq<Num> {
    let x = cast_row(r, dtype, DType::F32);
    let n = w.moe_inter as int;
    let inner = Seq::new(
        n as nat,
        |j: int|
            times(
                by_expert(w.gate_up_exps, expert, n + j, x, is_prefill),
                one(Op::Gelu, by_expert(w.gate_up_exps, expert, j, x, is_prefill)),
            ),
    );
    Seq::new(r.len(), |c: int| by_expert(w.down_exps, expert, c, inner, is_prefill))
}

/// Number `c` of what the experts picked for token `t` make of its row: the sum of
/// their outputs, each times its weight.
pub open spec fn mixture(
    w: MoeView,
    router_in: Seq<Seq<Num>>,
    router_dtype: DType,
    expert_in: Seq<Seq<Num>>,
    expert_dtype: DType,
    is_prefill: bool,
    t: int,
    c: int,
) -> Num {
    let k = w.num_experts_per_tok as int;
    let picks = all_picks(w, router_in, router_dtype);
    let outputs = Seq::new(
        k as nat,
        |i: int|
            times(
                expert_row(
                    w,
                    expert_of(picks, t * k + i),
                    expert_in[t],
                    expert_dtype,
                    is_prefill,
                )[c],
                weight(w, router_in[t], router_dtype, i),
            ),
    );
    cast(Num::Sum(outputs), DType::F32, w.dtype)
}

/// The tensors of the sparse feedforward agree with rows of `hidden` numbers.
pub open spec fn moe_shaped(w: MoeView, hidden: usize) -> bool {
    let n = w.router_proj.dims[0];
    &&& w.router_proj.dims == seq![n, hidden]
    &&& w.router_scale.dims == seq![hidden]
    &&& w.per_expert_scale.dims == seq![n]
    &&& w.num_experts_per_tok > 0
    &&& w.moe_inter * 2 <= usize::MAX
    &&& qtensor_dims(w.gate_up_exps).len() == 3
    &&& qtensor_dims(w.gate_up_exps)[1] == w.moe_inter * 2
    &&& qtensor_dims(w.down_exps).len() == 3
    &&& qtensor_dims(w.down_exps)[1] == hidden
}

/// The shares of the experts in a row are those that the row gives.
pub proof fn shares_by_row(w: MoeView, rows: Run, t: int)
    requires
        rows.dims().len() == 2,
        moe_shaped(w, rows.dims()[1]),
        0 <= t < rows.dims()[0],
    ensures
        expert_probs(w, rows).dims() == seq![rows.dims()[0], w.router_proj.dims[0]],
        row2(expert_probs(w, rows), t) == shares(w, row2(rows, t), rows.dtype()),
{
    let hidden = rows.dims()[1];
    let n = w.router_proj.dims[0];
    let r = row2(rows, t);
    let f = converted(rows, DType::F32);
    let u = unscaled_norm(f, w.eps);
    let s = broadcast(Op::BroadcastMul, u, given(w.router_scale));
    let m = mapped(Op::MulScalar(w.scalar_root_size), s);
    let z = linear(m, given(w.router_proj));
    let y = expert_probs(w, rows);
    matrix_converted_by_row(rows, DType::F32, t);
    matrix_unscaled_norms_by_row(f, w.eps, t);
    assert(broadcast_dims(u.dims(), w.router_scale.dims) =~= rows.dims());
    assert(z.dims() =~= seq![rows.dims()[0], n]);
    let want = router_row(w, r, rows.dtype());
    assert forall|j: int| 0 <= j < hidden implies #[trigger] m.at2(t, j) == want[j] by {
        let at = seq![t, j];
        element_mapped(Op::MulScalar(w.scalar_root_size), s.view, at);
        element_broadcast(Op::BroadcastMul, u.view, w.router_scale, at);
        assert(laid_over(u.dims(), at) =~= at);
        assert(laid_over(w.router_scale.dims, at) =~= seq![j]);
        assert(row2(u, t)[j] == u.at2(t, j));
    }
    assert(row2(m, t) =~= want);
    let scores = Seq::new(n as nat, |e: int| expert_score(w, r, rows.dtype(), e));
    assert forall|e: int| 0 <= e < n implies #[trigger] z.at2(t, e) == scores[e] by {
        element_linear(m.view, w.router_proj, seq![t, e]);
        lemma_row2(m, t, e);
        assert(Seq::new(
            m.dims().last() as nat,
            |j: int| element(w.router_proj, seq![seq![t, e][1], j]),
        ) =~= Seq::new(r.len(), |j: int| element(w.router_proj, seq![e, j])));
    }
    assert(row2(z, t) =~= scores);
    assert forall|e: int| 0 <= e < n implies #[trigger] y.at2(t, e) == Num::InRow(
        Op::SoftmaxLastDim,
        scores,
        e,
    ) by {
        element_softmax(z.view, seq![t, e]);
        lemma_row2(z, t, e);
    }
    assert(row2(y, t) =~= shares(w, r, rows.dtype()));
}

/// The experts picked for a row are those with the largest shares in it.
pub proof fn picks_by_row(w: MoeView, rows: Run, t: int, k: int)
    requires
        rows.dims().len() == 2,
        moe_shaped(w, rows.dims()[1]),
        0 <= t < rows.dims()[0],
    ensures
        picked(w, rows).dims() == seq![rows.dims()[0], w.num_experts_per_tok],
        picked(w, rows).at2(t, k) == pick(w, row2(rows, t), rows.dtype(), k),
{
    let y = expert_probs(w, rows);
    let o = ordered_indexes(y, false);
    let c = narrowed(o, 1, 0, w.num_experts_per_tok);
    shares_by_row(w, rows, t);
    assert(picked(w, rows).dims() =~= seq![rows.dims()[0], w.num_experts_per_tok]);
    element_stored(c.view, seq![t, k]);
    element_narrowed(o.view, 1, 0, w.num_experts_per_tok, seq![t, k]);
    assert(seq![t, k].update(1, k + 0) =~= seq![t, k]);
    element_sorted(y.view, false, seq![t, k]);
    lemma_row2(y, t, k);
}

/// The picks of all rows, in one dim.
proof fn lemma_flat_picks(w: MoeView, rows: Run)
    requires
        rows.dims().len() == 2,
        moe_shaped(w, rows.dims()[1]),
        rows.dims()[0] > 0,
        rows.dims()[0] * w.num_experts_per_tok <= usize::MAX,
    ensures
        flat(picked(w, rows)).dims() == seq![(rows.dims()[0] * w.num_experts_per_tok) as usize],
        listed(flat(picked(w, rows)).view) == all_picks(w, rows2(rows), rows.dtype()),
{
    let k = w.num_experts_per_tok;
    let tokens = rows.dims()[0];
    let idx = picked(w, rows);
    let y = flat(idx);
    picks_by_row(w, rows, 0, 0);
    lemma_matrix_count(tokens, k);
    assert(idx.dims() =~= seq![tokens, k]);
    let n = (tokens * k) as usize;
    assert(y.dims() =~= seq![n]);
    let want = all_picks(w, rows2(rows), rows.dtype());
    assert forall|p: int| 0 <= p < n implies #[trigger] element(y.view, seq![p]) == want[p] by {
        lemma_place(p, tokens as int, k as int);
        let source = seq![p / k as int, p % k as int];
        lemma_nth1(n, p);
        lemma_nth2(tokens, k, p / k as int, p % k as int);
        assert(valid(idx.dims(), source));
        element_reshaped(idx.view, seq![n], seq![p], source);
        picks_by_row(w, rows, p / k as int, p % k as int);
    }
    assert(listed(y.view) =~= want);
}

/// The weights of the experts picked for a row.
pub proof fn weights_by_row(w: MoeView, rows: Run, t: int, k: int)
    requires
        rows.dims().len() == 2,
        moe_shaped(w, rows.dims()[1]),
        0 <= t < rows.dims()[0],
        rows.dims()[0] * w.num_experts_per_tok <= usize::MAX,
        0 <= k < w.num_experts_per_tok,
    ensures
        pick_weights(w, rows).dims() == seq![rows.dims()[0], w.num_experts_per_tok],
        pick_weights(w, rows).at2(t, k) == weight(w, row2(rows, t), rows.dtype(), k),
{
    let top = w.num_experts_per_tok;
    let tokens = rows.dims()[0];
    let r = row2(rows, t);
    let dtype = rows.dtype();
    let n = (tokens * top) as usize;
    let probs = expert_probs(w, rows);
    let idx = picked(w, rows);
    let plain = gathered(probs, idx, 1);
    let total = reduced(Op::SumKeepdim(1), plain, 1);
    let part = broadcast(Op::BroadcastDiv, plain, total);
    let chosen = selected(given(w.per_expert_scale), flat(idx), 0);
    let scale = reshaped(chosen, idx.dims());
    shares_by_row(w, rows, t);
    picks_by_row(w, rows, t, k);
    lemma_flat_picks(w, rows);
    assert(total.dims() =~= seq![tokens, 1usize]);
    assert(broadcast_dims(plain.dims(), total.dims()) =~= seq![tokens, top]);
    assert(chosen.dims() =~= seq![n]);
    assert forall|i: int| 0 <= i < top implies #[trigger] plain.at2(t, i) == share(w, r, dtype, i)
        by {
        picks_by_row(w, rows, t, i);
        element_picked(probs.view, idx.view, 1, seq![t, i]);
        let s = Seq::new(
            probs.dims()[1] as nat,
            |j: int| element(probs.view, seq![t, i].update(1, j)),
        );
        assert forall|j: int| 0 <= j < s.len() implies #[trigger] s[j] == shares(w, r, dtype)[j] by {
            assert(seq![t, i].update(1, j) =~= seq![t, j]);
            assert(row2(probs, t)[j] == probs.at2(t, j));
        }
        assert(s =~= shares(w, r, dtype));
    }
    let at = seq![t, k];
    element_multiplied(part.view, scale.view, at);
    element_broadcast(Op::BroadcastDiv, plain.view, total.view, at);
    assert(laid_over(plain.dims(), at) =~= at);
    assert(laid_over(total.dims(), at) =~= seq![t, 0int]);
    element_reduced(plain.view, 1, seq![t, 0int]);
    let added = Seq::new(
        plain.dims()[1] as nat,
        |j: int| element(plain.view, seq![t, 0int].update(1, j)),
    );
    let all = Seq::new(top as nat, |i: int| share(w, r, dtype, i));
    assert forall|j: int| 0 <= j < top implies #[trigger] added[j] == all[j] by {
        assert(seq![t, 0int].update(1, j) =~= seq![t, j]);
        assert(plain.at2(t, j) == share(w, r, dtype, j));
    }
    assert(added =~= all);
    let p = t * top + k;
    assert(0 <= p < tokens * top && p / top as int == t && p % top as int == k) by {
        lemma_pick_place(t, k, tokens as int, top as int);
    }
    lemma_nth1(n, p);
    lemma_nth2(tokens, top, t, k);
    assert(valid(chosen.dims(), seq![p]));
    element_reshaped(chosen.view, idx.dims(), at, seq![p]);
    element_picked(w.per_expert_scale, flat(idx).view, 0, seq![p]);
    let scales = Seq::new(
        w.per_expert_scale.dims[0] as nat,
        |j: int| element(w.per_expert_scale, seq![p].update(0, j)),
    );
    assert forall|j: int| 0 <= j < scales.len() implies #[trigger] scales[j]
        == listed(w.per_expert_scale)[j] by {
        assert(seq![p].update(0, j) =~= seq![j]);
    }
    assert(scales =~= listed(w.per_expert_scale));
    assert(seq![seq![p][0]] =~= seq![p]);
    assert(listed(flat(idx).view)[p] == all_picks(w, rows2(rows), rows.dtype())[p]);
    assert(plain.at2(t, k) == share(w, r, dtype, k));
    assert(part.at2(t, k) == over(share(w, r, dtype, k), Num::Sum(all)));
    assert(scale.at2(t, k) == Num::Pick(
        listed(w.per_expert_scale),
        Box::new(pick(w, r, dtype, k)),
    ));
}

/// Pick `k` of row `t` is pick `t * top + k` of all.
proof fn lemma_pick_place(t: int, k: int, tokens: int, top: int)
    requires
        0 <= t < tokens,
        0 <= k < top,
    ensures
        0 <= t * top + k < tokens * top,
        (t * top + k) / top == t,
        (t * top + k) % top == k,
{
    vstd::arithmetic::div_mod::lemma_fundamental_div_mod_converse(t * top + k, top, t, k);
    assert(0 <= t * top + k < tokens * top) by (nonlinear_arith)
        requires
            0 <= t < tokens,
            0 <= k < top,
    ;
}

/// The output of an expert for a pick is what that expert makes of the row of the
/// token that it was picked for, times the weight of the pick.
pub proof fn outputs_by_pick(
    w: MoeView,
    router_in: Run,
    expert_in: Run,
    is_prefill: bool,
    t: int,
    k: int,
    c: int,
)
    requires
        router_in.dims().len() == 2,
        expert_in.dims() == router_in.dims(),
        moe_shaped(w, router_in.dims()[1]),
        0 <= t < router_in.dims()[0],
        router_in.dims()[0] * w.num_experts_per_tok <= usize::MAX,
        0 <= k < w.num_experts_per_tok,
        0 <= c < router_in.dims()[1],
    ensures
        ({
            let outputs = expert_outputs(
                w,
                expert_in,
                picked(w, router_in),
                pick_weights(w, router_in),
                is_prefill,
            );
            let top = w.num_experts_per_tok;
            let p = t * top + k;
            &&& outputs.dims() == seq![
                (router_in.dims()[0] * top) as usize,
                router_in.dims()[1],
            ]
            &&& outputs.at2(p, c) == times(
                expert_row(
                    w,
                    expert_of(all_picks(w, rows2(router_in), router_in.dtype()), p),
                    row2(expert_in, t),
                    expert_in.dtype(),
                    is_prefill,
                )[c],
                weight(w, row2(router_in, t), router_in.dtype(), k),
            )
        }),
{
    let top = w.num_experts_per_tok;
    let inter = w.moe_inter;
    let tokens = router_in.dims()[0];
    let n = (tokens * top) as usize;
    let p = t * top + k;
    let idx = picked(w, router_in);
    let ws = pick_weights(w, router_in);
    let xs = converted(expert_in, DType::F32);
    let ids = sorted(flat(idx), true);
    let order = ordered_indexes(flat(idx), true);
    let gate_up = expert_products(xs, w.gate_up_exps, None, order, ids, top, is_prefill, DType::BF16);
    let gate = narrowed(gate_up, 1, 0, inter);
    let up = narrowed(gate_up, 1, inter, inter);
    let act = mapped(Op::Gelu, gate);
    let inner = paired(Op::Mul, up, act);
    let out = expert_products(inner, w.down_exps, Some(ws), order, ids, top, is_prefill, DType::BF16);
    let picks = all_picks(w, rows2(router_in), router_in.dtype());
    let expert = expert_of(picks, p);
    lemma_pick_place(t, k, tokens as int, top as int);
    lemma_flat_picks(w, router_in);
    assert(flat(idx).dims() =~= seq![n]);
    assert forall|i: int| 0 <= i < n implies #[trigger] element(order.view, seq![i]) == Num::InRow(
        Op::ArgSortLastDim(true),
        picks,
        i,
    ) && element(ids.view, seq![i]) == Num::InRow(Op::SortLastDim(true), picks, i) by {
        element_sorted(flat(idx).view, true, seq![i]);
        let row = row(flat(idx).view, seq![i]);
        assert forall|j: int| 0 <= j < n implies #[trigger] row[j] == picks[j] by {
            assert(seq![i].update(0, j) =~= seq![j]);
            assert(listed(flat(idx).view)[j] == picks[j]);
        }
        assert(row =~= picks);
    }
    assert(listed(order.view) =~= Seq::new(
        picks.len(),
        |i: int| Num::InRow(Op::ArgSortLastDim(true), picks, i),
    ));
    assert forall|i: int| 0 <= i < n implies #[trigger] listed(ids.view)[i] == Num::InRow(
        Op::SortLastDim(true),
        picks,
        i,
    ) by {
        assert(element(order.view, seq![i]) == Num::InRow(Op::ArgSortLastDim(true), picks, i));
    }
    assert(listed(ids.view) =~= Seq::new(
        picks.len(),
        |i: int| Num::InRow(Op::SortLastDim(true), picks, i),
    ));
    assert(Num::Beside(listed(order.view), listed(ids.view), p) == expert);
    matrix_converted_by_row(expert_in, DType::F32, t);
    let x = cast_row(row2(expert_in, t), expert_in.dtype(), DType::F32);
    assert forall|o: int| #[trigger] gate_up.at2(p, o) == by_expert(
        w.gate_up_exps,
        expert,
        o,
        x,
        is_prefill,
    ) by {
        element_picked_product(
            xs.view,
            w.gate_up_exps,
            qtensor_dims(w.gate_up_exps)[1],
            None,
            order.view,
            ids.view,
            top,
            is_prefill,
            DType::BF16,
            p,
            o,
        );
        let r = Seq::new(xs.dims()[1] as nat, |j: int| element(xs.view, seq![t, j]));
        assert forall|j: int| 0 <= j < r.len() implies #[trigger] r[j] == x[j] by {
            assert(row2(xs, t)[j] == xs.at2(t, j));
        }
        assert(r =~= x);
    }
    let want = Seq::new(
        inter as nat,
        |j: int|
            times(
                by_expert(w.gate_up_exps, expert, inter + j, x, is_prefill),
                one(Op::Gelu, by_expert(w.gate_up_exps, expert, j, x, is_prefill)),
            ),
    );
    assert forall|j: int| 0 <= j < inter implies #[trigger] inner.at2(p, j) == want[j] by {
        let at = seq![p, j];
        element_multiplied(up.view, act.view, at);
        element_mapped(Op::Gelu, gate.view, at);
        element_narrowed(gate_up.view, 1, 0, inter, at);
        element_narrowed(gate_up.view, 1, inter, inter, at);
        assert(at.update(1, j + 0) =~= seq![p, j]);
        assert(at.update(1, j + inter) =~= seq![p, j + inter]);
        assert(gate_up.at2(p, j) == by_expert(w.gate_up_exps, expert, j, x, is_prefill));
        assert(gate_up.at2(p, j + inter) == by_expert(
            w.gate_up_exps,
            expert,
            j + inter,
            x,
            is_prefill,
        ));
    }
    element_picked_product(
        inner.view,
        w.down_exps,
        qtensor_dims(w.down_exps)[1],
        Some(ws.view),
        order.view,
        ids.view,
        top,
        is_prefill,
        DType::BF16,
        p,
        c,
    );
    let r = Seq::new(inner.dims()[1] as nat, |j: int| element(inner.view, seq![p, j]));
    assert forall|j: int| 0 <= j < r.len() implies #[trigger] r[j] == want[j] by {
        assert(inner.at2(p, j) == want[j]);
    }
    assert(r =~= want);
    weights_by_row(w, router_in, t, k);
    lemma_nth2(tokens, top, t, k);
    assert(valid(ws.dims(), seq![t, k]));
    lemma_index_of_nth(ws.dims(), seq![t, k]);
    assert(out.dims() =~= seq![n, router_in.dims()[1]]);
}

/// The sparse feedforward of a token: the outputs of the experts picked for its row,
/// each weighted, added up.
pub proof fn mixtures_by_row(
    w: MoeView,
    router_in: Run,
    expert_in: Run,
    is_prefill: bool,
    t: int,
    c: int,
)
    requires
        router_in.dims().len() == 2,
        expert_in.dims() == router_in.dims(),
        moe_shaped(w, router_in.dims()[1]),
        0 <= t < router_in.dims()[0],
        0 <= c < router_in.dims()[1],
        router_in.dims()[0] * w.num_experts_per_tok <= usize::MAX,
    ensures
        routed(w, router_in, expert_in, is_prefill).dims() == router_in.dims(),
        routed(w, router_in, expert_in, is_prefill).at2(t, c) == mixture(
            w,
            rows2(router_in),
            router_in.dtype(),
            rows2(expert_in),
            expert_in.dtype(),
            is_prefill,
            t,
            c,
        ),
{
    reveal(routed);
    let top = w.num_experts_per_tok;
    let tokens = router_in.dims()[0];
    let hidden = router_in.dims()[1];
    let outputs = expert_outputs(
        w,
        expert_in,
        picked(w, router_in),
        pick_weights(w, router_in),
        is_prefill,
    );
    outputs_by_pick(w, router_in, expert_in, is_prefill, t, 0, c);
    let n = (tokens * top) as usize;
    lemma_matrix_count(n, hidden);
    let count = elem_count(outputs.dims());
    assert(count / (tokens * hidden) == top) by {
        assert(count == top * (tokens * hidden) && tokens * hidden > 0) by (nonlinear_arith)
            requires
                count == (tokens * top) * hidden,
                tokens > 0,
                hidden > 0,
        ;
        vstd::arithmetic::div_mod::lemma_div_multiples_vanish(top as int, tokens * hidden);
        assert((tokens * hidden) * top == top * (tokens * hidden)) by (nonlinear_arith);
    }
    let parted = reshaped(outputs, seq![tokens, top, hidden]);
    let added = summed(parted, 1);
    let y = mixed(w, expert_in, outputs);
    assert(parted.dims().remove(1) =~= seq![tokens, hidden]);
    assert(y.dims() =~= router_in.dims());
    element_converted(added.view, w.dtype, seq![t, c]);
    element_summed(parted.view, 1, seq![t, c]);
    let sum = Seq::new(
        parted.dims()[1] as nat,
        |j: int| element(parted.view, seq![t, c].insert(1, j)),
    );
    let picks = all_picks(w, rows2(router_in), router_in.dtype());
    let want = Seq::new(
        top as nat,
        |i: int|
            times(
                expert_row(
                    w,
                    expert_of(picks, t * top + i),
                    rows2(expert_in)[t],
                    expert_in.dtype(),
                    is_prefill,
                )[c],
                weight(w, rows2(router_in)[t], router_in.dtype(), i),
            ),
    );
    assert(rows2(expert_in)[t] == row2(expert_in, t));
    assert(rows2(router_in)[t] == row2(router_in, t));
    assert forall|i: int| 0 <= i < top implies #[trigger] sum[i] == want[i] by {
        let p = t * top + i;
        assert(seq![t, c].insert(1, i) =~= seq![t, i, c]);
        lemma_pick_place(t, i, tokens as int, top as int);
        lemma_nth3(tokens, top, hidden, t, i, c);
        lemma_nth2(n, hidden, p, c);
        assert(valid(outputs.dims(), seq![p, c]));
        element_reshaped(outputs.view, seq![tokens, top, hidden], seq![t, i, c], seq![p, c]);
        outputs_by_pick(w, router_in, expert_in, is_prefill, t, i, c);
    }
    assert(sum =~= want);
}

} // verus!
