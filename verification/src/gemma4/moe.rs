//! The sparse feedforward: a router and the experts that it picks.

use crate::dtype::float_type;
use crate::error::ModelError;
use crate::gguf::Gguf;
use crate::nn::{
    absent, earlier, load_error, load_values, rms_no_scale, small, tensor_at, there, unscaled_norm,
    unscaled_norms_are_sure, values_of,
};
use crate::shape::{
    count_elems, elem_count, fits_usize, lemma_elem_count_bound, lemma_matrix_count,
    lemma_row_count, lemma_row_major,
};
use crate::tensor::ops;
use crate::tensor::ops::keeps_below;
use crate::tensor::raw;
use crate::tensor::raw::{device_place, tensor_ordered, tensor_view};
use crate::tensor::run::{
    broadcast, converted, ends, expert_products, gathered, given, linear, mapped, narrowed, only_if,
    ordered_indexes, paired, reduced, refused, reshaped, run_of, selected, sorted, stands_for,
    stored, summed, Run,
};
use crate::tensor::sure::{
    lemma_count3, lemma_fresh, lemma_nonempty_count, lemma_tidy_mapped, tidy, tidy_view,
};
use crate::tensor::view::{broadcast_dims, broadcast_sure, single_on_cpu, Op, Place, TensorView};
use crate::text::{layer_name, name_of};
use candle_core::quantized::QTensor;
use candle_core::scalar::Scalar;
use candle_core::{DType, Device, Tensor};
use std::sync::Arc;
use vstd::prelude::*;

verus! {

/// What is known of the sparse feedforward of a layer.
pub struct MoeView {
    /// (experts, hidden).
    pub router_proj: TensorView,
    /// (hidden).
    pub router_scale: TensorView,
    /// (experts).
    pub per_expert_scale: TensorView,
    pub scalar_root_size: Scalar,
    pub eps: Scalar,
    /// (experts, 2 * inner, hidden).
    pub gate_up_exps: QTensor,
    /// (experts, hidden, inner).
    pub down_exps: QTensor,
    pub moe_inter: usize,
    pub num_experts_per_tok: usize,
    pub dtype: DType,
}

/// The share of each expert in each row.
pub open spec fn expert_probs(w: MoeView, rows: Run) -> Run {
    let h = unscaled_norm(converted(rows, DType::F32), w.eps);
    let h = broadcast(Op::BroadcastMul, h, given(w.router_scale));
    let h = mapped(Op::MulScalar(w.scalar_root_size), h);
    mapped(Op::SoftmaxLastDim, linear(h, given(w.router_proj)))
}

/// The experts picked for each row: those with the largest shares.
pub open spec fn picked(w: MoeView, rows: Run) -> Run {
    stored(
        narrowed(ordered_indexes(expert_probs(w, rows), false), 1, 0, w.num_experts_per_tok),
    )
}

/// A tensor in one dim.
pub open spec fn flat(x: Run) -> Run {
    reshaped(x, seq![elem_count(x.dims()) as usize])
}

/// The weights of the picked experts: their shares, over the sum of them,
/// times the scales of the experts.
pub open spec fn pick_weights(w: MoeView, rows: Run) -> Run {
    let idx = picked(w, rows);
    let share = gathered(expert_probs(w, rows), idx, 1);
    let share = broadcast(
        Op::BroadcastDiv,
        share,
        reduced(Op::SumKeepdim(1), share, 1),
    );
    let scale = reshaped(selected(given(w.per_expert_scale), flat(idx), 0), idx.dims());
    paired(Op::Mul, share, scale)
}

/// The outputs of the picked experts, one for each pick.
pub open spec fn expert_outputs(
    w: MoeView,
    rows: Run,
    idx: Run,
    weights: Run,
    is_prefill: bool,
) -> Run {
    let xs = converted(rows, DType::F32);
    let expert_ids = sorted(flat(idx), true);
    let token_ids = ordered_indexes(flat(idx), true);
    let gate_up = expert_products(
        xs,
        w.gate_up_exps,
        None,
        token_ids,
        expert_ids,
        w.num_experts_per_tok,
        is_prefill,
        DType::BF16,
    );
    let gate = narrowed(gate_up, 1, 0, w.moe_inter);
    let up = narrowed(gate_up, 1, w.moe_inter, w.moe_inter);
    expert_products(
        paired(Op::Mul, up, mapped(Op::Gelu, gate)),
        w.down_exps,
        Some(weights),
        token_ids,
        expert_ids,
        w.num_experts_per_tok,
        is_prefill,
        DType::BF16,
    )
}

/// The outputs of the experts of each row, (tokens, hidden), added up. They
/// are as many for each row.
pub open spec fn mixed(w: MoeView, rows: Run, outputs: Run) -> Run {
    let tokens = rows.dims()[0];
    let hidden = rows.dims()[1];
    let count = elem_count(outputs.dims());
    let picks = count / (tokens * hidden);
    let parted = reshaped(outputs, seq![tokens, picks as usize, hidden]);
    let even = {
        &&& rows.sound
        &&& rows.dims().len() == 2
        &&& 0 < tokens * hidden <= usize::MAX
        &&& count % (tokens * hidden) == 0
    };
    converted(summed(only_if(parted, even), 1), w.dtype)
}

/// The output of the sparse feedforward. The router reads `router_in`, the
/// experts read `expert_in`, both (tokens, hidden).
#[verifier::opaque]
pub open spec fn routed(w: MoeView, router_in: Run, expert_in: Run, is_prefill: bool) -> Run {
    let outputs = expert_outputs(
        w,
        expert_in,
        picked(w, router_in),
        pick_weights(w, router_in),
        is_prefill,
    );
    mixed(w, expert_in, outputs)
}

/// There is a scale for each expert that the router knows, and no other.
pub open spec fn scaled_alike(w: MoeView) -> bool {
    w.per_expert_scale.dims[0] == w.router_proj.dims[0]
}

/// Shares of experts, on the cpu, that have no order.
pub open spec fn unordered(shares: Run) -> bool {
    shares.place() == Place::Cpu && exists|t: Tensor| #[trigger]
        tensor_view(t) == shares.view && !tensor_ordered(t)
}

/// The error of a run with a router that reads `router_in`: of a run that is not
/// certain, or of scales for other experts; on the cpu the shares of the experts
/// may have no order.
pub open spec fn unrouted(e: ModelError, w: MoeView, router_in: Run, run: Run) -> bool {
    ||| refused(e, run.sound) && !(run.certain() && scaled_alike(w))
    ||| e is Unordered && unordered(expert_probs(w, router_in))
}

/// The outcome of a run with a router that reads `router_in`.
pub open spec fn ends_routed(
    r: Result<Tensor, ModelError>,
    w: MoeView,
    router_in: Run,
    run: Run,
) -> bool {
    match r {
        Ok(_) => ends(r, run),
        Err(e) => unrouted(e, w, router_in, run),
    }
}

/// There are experts in layer `i`.
pub open spec fn has_experts(gg: &Gguf, i: nat) -> bool {
    gg.named(layer_name(i, ".ffn_gate_up_exps.weight"@)) is Some
}

/// The first tensor missing for the experts of layer `i`, where it has any.
pub open spec fn moe_missing(gg: &Gguf, i: nat) -> Option<Seq<char>> {
    if has_experts(gg, i) {
        earlier(
            absent(gg, layer_name(i, ".ffn_gate_inp.weight"@)),
            earlier(
                absent(gg, layer_name(i, ".ffn_gate_inp.scale"@)),
                earlier(
                    absent(gg, layer_name(i, ".ffn_down_exps.scale"@)),
                    absent(gg, layer_name(i, ".ffn_down_exps.weight"@)),
                ),
            ),
        )
    } else {
        None
    }
}

/// The tensors for the experts of layer `i` that are read at once are small, or
/// there are no experts.
pub open spec fn moe_small(gg: &Gguf, i: nat) -> bool {
    has_experts(gg, i) ==> {
        &&& small(gg, layer_name(i, ".ffn_gate_inp.weight"@))
        &&& small(gg, layer_name(i, ".ffn_gate_inp.scale"@))
        &&& small(gg, layer_name(i, ".ffn_down_exps.scale"@))
    }
}

/// The tensors for the experts of layer `i` are sure to be loaded, or there
/// are no experts.
pub open spec fn moe_loads(gg: &Gguf, i: nat, place: Place) -> bool {
    has_experts(gg, i) ==> {
        &&& place == Place::Cpu
        &&& there(gg, layer_name(i, ".ffn_gate_inp.weight"@))
        &&& there(gg, layer_name(i, ".ffn_gate_inp.scale"@))
        &&& there(gg, layer_name(i, ".ffn_down_exps.scale"@))
        &&& gg.named(layer_name(i, ".ffn_down_exps.weight"@)) is Some
    }
}

/// The sparse feedforward of layer `i` in a file.
pub open spec fn moe_of(
    gg: &Gguf,
    i: nat,
    scalar_root_size: Scalar,
    eps: Scalar,
    moe_inter: usize,
    num_experts_per_tok: usize,
    dtype: DType,
    place: Place,
) -> MoeView {
    MoeView {
        router_proj: values_of(
            tensor_at(gg, layer_name(i, ".ffn_gate_inp.weight"@)),
            place,
            DType::F32,
        ),
        router_scale: values_of(
            tensor_at(gg, layer_name(i, ".ffn_gate_inp.scale"@)),
            place,
            DType::F32,
        ),
        per_expert_scale: values_of(
            tensor_at(gg, layer_name(i, ".ffn_down_exps.scale"@)),
            place,
            DType::F32,
        ),
        scalar_root_size,
        eps,
        gate_up_exps: tensor_at(gg, layer_name(i, ".ffn_gate_up_exps.weight"@)),
        down_exps: tensor_at(gg, layer_name(i, ".ffn_down_exps.weight"@)),
        moe_inter,
        num_experts_per_tok,
        dtype,
    }
}

/// The sparse feedforward of a layer.
pub struct Gemma4Moe {
    router_proj: Tensor,
    router_scale: Tensor,
    per_expert_scale: Tensor,
    scalar_root_size: Scalar,
    eps: Scalar,
    gate_up_exps: Arc<QTensor>,
    down_exps: Arc<QTensor>,
    moe_inter: usize,
    num_experts_per_tok: usize,
    dtype: DType,
}

impl Gemma4Moe {
    pub closed spec fn view(&self) -> MoeView {
        MoeView {
            router_proj: tensor_view(self.router_proj),
            router_scale: tensor_view(self.router_scale),
            per_expert_scale: tensor_view(self.per_expert_scale),
            scalar_root_size: self.scalar_root_size,
            eps: self.eps,
            gate_up_exps: *self.gate_up_exps,
            down_exps: *self.down_exps,
            moe_inter: self.moe_inter,
            num_experts_per_tok: self.num_experts_per_tok,
            dtype: self.dtype,
        }
    }

    /// Reads the sparse feedforward of layer `i`; none where the layer has no
    /// experts.
    pub fn load(
        gg: &Gguf,
        i: usize,
        scalar_root_size: Scalar,
        eps: Scalar,
        moe_inter: usize,
        num_experts_per_tok: usize,
        dtype: DType,
        device: &Device,
    ) -> (r: Result<Option<Gemma4Moe>, ModelError>)
        ensures
            match r {
                Ok(None) => !has_experts(gg, i as nat),
                Ok(Some(m)) => {
                    &&& has_experts(gg, i as nat)
                    &&& moe_missing(gg, i as nat) is None
                    &&& m@ == moe_of(
                        gg,
                        i as nat,
                        scalar_root_size,
                        eps,
                        moe_inter,
                        num_experts_per_tok,
                        dtype,
                        device_place(*device),
                    )
                },
                Err(e) => {
                    &&& load_error(e, moe_small(gg, i as nat), moe_missing(gg, i as nat))
                    &&& !moe_loads(gg, i as nat, device_place(*device))
                },
            },
    {
        let gate_up_exps = match gg.tensor(&name_of(i, ".ffn_gate_up_exps.weight")) {
            Ok(t) => t,
            Err(_) => return Ok(None),
        };
        let router_proj = load_values(
            gg,
            &name_of(i, ".ffn_gate_inp.weight"),
            device,
            DType::F32,
        )?;
        let router_scale = load_values(
            gg,
            &name_of(i, ".ffn_gate_inp.scale"),
            device,
            DType::F32,
        )?;
        let per_expert_scale = load_values(
            gg,
            &name_of(i, ".ffn_down_exps.scale"),
            device,
            DType::F32,
        )?;
        let down_exps = gg.tensor(&name_of(i, ".ffn_down_exps.weight"))?;
        Ok(
            Some(
                Gemma4Moe {
                    router_proj,
                    router_scale,
                    per_expert_scale,
                    scalar_root_size,
                    eps,
                    gate_up_exps,
                    down_exps,
                    moe_inter,
                    num_experts_per_tok,
                    dtype,
                },
            ),
        )
    }

    /// A tensor in one dim.
    fn flatten(x: &Tensor) -> (r: Result<Tensor, ModelError>)
        ensures
            ends(r, flat(run_of(*x))),
            keeps_below(*x, r),
    {
        let d = raw::dims(x);
        if !fits_usize(&d) {
            return Err(ModelError::TooLarge);
        }
        let n = count_elems(&d);
        let dims = vec![n];
        assert(dims@ =~= seq![n]);
        ops::reshape(x, dims)
    }

    /// The experts picked for each row of `router_in`, and their weights.
    pub fn route(&self, router_in: &Tensor) -> (r: Result<(Tensor, Tensor), ModelError>)
        ensures
            match r {
                Ok((idx, weights)) => {
                    &&& ends(Ok(idx), picked(self@, run_of(*router_in)))
                    &&& ends(Ok(weights), pick_weights(self@, run_of(*router_in)))
                },
                Err(e) => unrouted(
                    e,
                    self@,
                    run_of(*router_in),
                    pick_weights(self@, run_of(*router_in)),
                ),
            },
    {
        let h = rms_no_scale(&ops::to_dtype(router_in, DType::F32)?, &self.eps)?;
        let h = ops::broadcast_mul(&h, &self.router_scale)?;
        let h = ops::mul_scalar(&h, &self.scalar_root_size)?;
        let scores = ops::linear_rows(&h, &self.router_proj)?;
        let probs = ops::softmax_last_dim(&scores)?;
        let order = ops::arg_sort_last_dim(&probs, false)?;
        let topk_idx = ops::contiguous(&ops::narrow(&order, 1, 0, self.num_experts_per_tok)?)?;
        let topk_w = ops::gather(&probs, &topk_idx, 1)?;
        let topk_w = ops::broadcast_div(&topk_w, &ops::sum_keepdim(&topk_w, 1)?)?;
        let pes = ops::index_select(&self.per_expert_scale, &Self::flatten(&topk_idx)?, 0)?;
        let pes = ops::reshape(&pes, raw::dims(&topk_idx))?;
        let topk_w = ops::times(&topk_w, &pes)?;
        Ok((topk_idx, topk_w))
    }

    /// The outputs of the picked experts, one for each pick.
    fn run_experts(&self, xs: &Tensor, topk_idx: &Tensor, topk_w: Tensor, is_prefill: bool) -> (r:
        Result<Tensor, ModelError>)
        requires
            tensor_view(*topk_idx).dtype == DType::U32,
        ensures
            ends(
                r,
                expert_outputs(
                    self@,
                    run_of(*xs),
                    run_of(*topk_idx),
                    run_of(topk_w),
                    is_prefill,
                ),
            ),
    {
        let k = self.num_experts_per_tok;
        let xs = ops::to_dtype(xs, DType::F32)?;
        let (expert_ids, sorted_token_ids) = ops::sort_last_dim(&Self::flatten(topk_idx)?, true)?;
        let gate_up = ops::moe_gemm(
            &xs,
            &self.gate_up_exps,
            &None,
            &sorted_token_ids,
            &expert_ids,
            k,
            is_prefill,
            DType::BF16,
        )?;
        let gate = ops::narrow(&gate_up, 1, 0, self.moe_inter)?;
        let up = ops::narrow(&gate_up, 1, self.moe_inter, self.moe_inter)?;
        let down_in = ops::times(&up, &ops::gelu(&gate)?)?;
        ops::moe_gemm(
            &down_in,
            &self.down_exps,
            &Some(topk_w),
            &sorted_token_ids,
            &expert_ids,
            k,
            is_prefill,
            DType::BF16,
        )
    }

    /// The outputs of the experts of each row of `expert_in` added up.
    pub fn mix(&self, expert_in: &Tensor, outputs: &Tensor) -> (r: Result<Tensor, ModelError>)
        ensures
            ends(r, mixed(
                self@,
                run_of(*expert_in),
                run_of(*outputs),
            )),
    {
        let (num_tokens, hidden) = ops::dims2(expert_in)?;
        let d = raw::dims(outputs);
        if !fits_usize(&d) {
            return Err(ModelError::TooLarge);
        }
        let n = count_elems(&d);
        let row = match num_tokens.checked_mul(hidden) {
            Some(p) => p,
            None => return Err(ModelError::TooLarge),
        };
        if row == 0 || n % row != 0 {
            return Err(ModelError::Uneven);
        }
        let ys = ops::reshape3(outputs, num_tokens, n / row, hidden)?;
        ops::to_dtype(&ops::sum(&ys, 1)?, self.dtype)
    }

    /// The output of the sparse feedforward.
    pub fn forward(&self, router_in: &Tensor, expert_in: &Tensor, is_prefill: bool) -> (r: Result<
        Tensor,
        ModelError,
    >)
        ensures
            ends_routed(
                r,
                self@,
                run_of(*router_in),
                routed(self@, run_of(*router_in), run_of(*expert_in), is_prefill),
            ),
    {
        proof {
            reveal(routed);
        }
        let (topk_idx, topk_w) = self.route(router_in)?;
        let ys = self.run_experts(expert_in, &topk_idx, topk_w, is_prefill)?;
        self.mix(expert_in, &ys)
    }
}

/// The sparse feedforward is sound only where the runs up to it are, and never
/// sure.
pub proof fn lemma_routed_sound(w: MoeView, router_in: Run, expert_in: Run, is_prefill: bool)
    ensures
        routed(w, router_in, expert_in, is_prefill).sound ==> router_in.sound && expert_in.sound,
        !routed(w, router_in, expert_in, is_prefill).sure,
{
    reveal(routed);
}

/// The sparse feedforward of given tensors stands for that of the runs that they
/// came out of.
pub proof fn lemma_routed_stands(
    w: MoeView,
    a: Run,
    b: Run,
    c: Run,
    d: Run,
    is_prefill: bool,
)
    requires
        stands_for(a, b),
        stands_for(c, d),
    ensures
        stands_for(routed(w, a, c, is_prefill), routed(w, b, d, is_prefill)),
        expert_probs(w, a).view == expert_probs(w, b).view,
{
    reveal(routed);
}

/// The router agrees with rows of `hidden` elements, on the cpu, in single
/// precision, and knows as many experts as it picks, or more.
pub open spec fn router_maps(w: MoeView, hidden: usize) -> bool {
    &&& tidy_view(w.router_proj)
    &&& w.router_proj.dims.len() == 2
    &&& w.router_proj.dims[1] == hidden
    &&& single_on_cpu(w.router_scale)
    &&& w.router_scale.dims == seq![hidden]
    &&& tidy_view(w.per_expert_scale)
    &&& w.per_expert_scale.dims == seq![w.router_proj.dims[0]]
    &&& 0 < w.num_experts_per_tok <= w.router_proj.dims[0]
}

/// Routing rows that are sure to come out is sure to succeed: on the cpu, where the
/// dims agree and the shares of the experts have an order.
pub proof fn routes_are_sure(w: MoeView, rows: Run)
    requires
        tidy(rows),
        rows.dims().len() == 2,
        router_maps(w, rows.dims()[1]),
        pick_weights(w, rows).sound,
    ensures
        pick_weights(w, rows).certain(),
        scaled_alike(w),
        forall|e: ModelError| #[trigger]
            unrouted(e, w, rows, pick_weights(w, rows)) ==> e is Unordered && unordered(
                expert_probs(w, rows),
            ),
{
    let t = rows.dims()[0];
    let n = w.router_proj.dims[0];
    let k = w.num_experts_per_tok;
    lemma_tidy_probs(w, rows);
    let probs = expert_probs(w, rows);
    let order = ordered_indexes(probs, false);
    let cut = narrowed(order, 1, 0, k);
    assert(cut.dims() =~= seq![t, k]);
    let idx = picked(w, rows);
    lemma_row_major(idx.dims());
    let share = gathered(probs, idx, 1);
    assert(idx.dims()[0] == t && idx.dims()[1] == k);
    lemma_fresh(share);
    let total = reduced(Op::SumKeepdim(1), share, 1);
    assert(total.dims() =~= seq![t, 1usize]);
    assert(broadcast_dims(share.dims(), total.dims()) =~= seq![t, k]);
    assert(broadcast_sure(share.view, total.view)) by {
        assert(share.dims()[0] == total.dims()[0]);
    }
    lemma_matrix_count(t, k);
    lemma_elem_count_bound(idx.dims());
    let one = flat(idx);
    lemma_row_count((t * k) as usize);
    let scale = selected(given(w.per_expert_scale), one, 0);
    assert(scale.dims() =~= seq![(t * k) as usize]);
}

/// The shares of the experts are sure to come out.
proof fn lemma_tidy_probs(w: MoeView, rows: Run)
    requires
        tidy(rows),
        rows.dims().len() == 2,
        router_maps(w, rows.dims()[1]),
        expert_probs(w, rows).sound,
    ensures
        tidy(expert_probs(w, rows)),
        expert_probs(w, rows).dims() == seq![rows.dims()[0], w.router_proj.dims[0]],
{
    let x = converted(rows, DType::F32);
    let h = unscaled_norm(x, w.eps);
    unscaled_norms_are_sure(x, w.eps);
    let s = broadcast(Op::BroadcastMul, h, given(w.router_scale));
    assert(broadcast_dims(h.dims(), w.router_scale.dims) =~= h.dims());
    lemma_nonempty_count(h.dims());
    lemma_fresh(s);
    lemma_tidy_mapped(Op::MulScalar(w.scalar_root_size), s);
    let m = mapped(Op::MulScalar(w.scalar_root_size), s);
    let scores = linear(m, given(w.router_proj));
    assert(scores.dims() =~= seq![rows.dims()[0], w.router_proj.dims[0]]);
    lemma_fresh(scores);
    lemma_tidy_mapped(Op::SoftmaxLastDim, scores);
}

/// Adding up outputs in single precision on the cpu is sure to succeed, where they
/// are as many for each row.
pub proof fn mixes_are_sure(w: MoeView, rows: Run, outputs: Run)
    requires
        outputs.sure,
        single_on_cpu(outputs.view),
        float_type(w.dtype),
        mixed(w, rows, outputs).sound,
    ensures
        mixed(w, rows, outputs).certain(),
        mixed(w, rows, outputs).dims() == rows.dims(),
{
    let t = rows.dims()[0];
    let h = rows.dims()[1];
    let count = elem_count(outputs.dims());
    let picks = count / (t * h);
    lemma_elem_count_bound(outputs.dims());
    assert(0 <= picks <= count && t * picks * h == count) by (nonlinear_arith)
        requires
            0 < t * h,
            0 <= count,
            picks == count / (t * h),
            count % (t * h) == 0,
    ;
    lemma_count3(t, picks as usize, h);
    let parted = reshaped(outputs, seq![t, picks as usize, h]);
    assert(parted.dims().remove(1) =~= seq![t, h]);
    assert(rows.dims() =~= seq![t, h]);
}

} // verus!
