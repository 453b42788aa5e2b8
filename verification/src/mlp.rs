//! The gated feedforward of a layer.

use crate::error::ModelError;
use crate::gguf::Gguf;
use crate::nn::{
    absent, earlier, first_missing, lemma_first_missing, lemma_missing_one, load_error, load_linear,
    maps, projections_are_sure, small, tensor_at, there, through, QLinear,
};
use crate::tensor::ops;
use crate::tensor::run::{ends, mapped, paired, run_of, Run};
use crate::tensor::sure::{lemma_tidy_mapped, lemma_tidy_paired, tidy};
use crate::tensor::view::Op;
use crate::text::{layer_name, name_of};
use candle_core::quantized::QTensor;
use candle_core::Tensor;
use vstd::prelude::*;

verus! {

/// The activation of the gating projection.
#[derive(Clone, Copy, Debug, PartialEq, Eq, Structural)]
pub enum Gate {
    Gelu,
    Silu,
}

/// What is known of a feedforward.
pub struct MlpView {
    pub gate: QTensor,
    pub up: QTensor,
    pub down: QTensor,
    pub act: Gate,
}

/// The activation of the gating projection.
pub open spec fn activated(x: Run, act: Gate) -> Run {
    match act {
        Gate::Gelu => mapped(Op::Gelu, x),
        Gate::Silu => mapped(Op::Silu, x),
    }
}

/// The output of the feedforward: the projection of the products of the
/// activated gate and the other half.
pub open spec fn fed(w: MlpView, x: Run) -> Run {
    through(paired(Op::Mul, activated(through(x, w.gate), w.act), through(x, w.up)), w.down)
}

/// The first tensor missing for the feedforward of layer `i`.
pub open spec fn mlp_missing(gg: &Gguf, i: nat) -> Option<Seq<char>> {
    earlier(
        absent(gg, layer_name(i, ".ffn_gate.weight"@)),
        earlier(
            absent(gg, layer_name(i, ".ffn_up.weight"@)),
            absent(gg, layer_name(i, ".ffn_down.weight"@)),
        ),
    )
}

/// The tensors for the feedforward of layer `i` that are there are small.
pub open spec fn mlp_small(gg: &Gguf, i: nat) -> bool {
    &&& small(gg, layer_name(i, ".ffn_gate.weight"@))
    &&& small(gg, layer_name(i, ".ffn_up.weight"@))
    &&& small(gg, layer_name(i, ".ffn_down.weight"@))
}

/// The tensors for the feedforward of layer `i` are sure to be loaded.
pub open spec fn mlp_loads(gg: &Gguf, i: nat) -> bool {
    &&& there(gg, layer_name(i, ".ffn_gate.weight"@))
    &&& there(gg, layer_name(i, ".ffn_up.weight"@))
    &&& there(gg, layer_name(i, ".ffn_down.weight"@))
}

/// The feedforward of layer `i` in a file.
pub open spec fn mlp_of(gg: &Gguf, i: nat, act: Gate) -> MlpView {
    MlpView {
        gate: tensor_at(gg, layer_name(i, ".ffn_gate.weight"@)),
        up: tensor_at(gg, layer_name(i, ".ffn_up.weight"@)),
        down: tensor_at(gg, layer_name(i, ".ffn_down.weight"@)),
        act,
    }
}

/// A gated feedforward.
pub struct Mlp {
    gate_proj: QLinear,
    up_proj: QLinear,
    down_proj: QLinear,
    act: Gate,
}

impl Mlp {
    pub closed spec fn view(&self) -> MlpView {
        MlpView {
            gate: self.gate_proj.weight(),
            up: self.up_proj.weight(),
            down: self.down_proj.weight(),
            act: self.act,
        }
    }

    /// Reads the feedforward of layer `i`.
    pub fn load(gg: &Gguf, i: usize, act: Gate) -> (r: Result<Mlp, ModelError>)
        ensures
            match r {
                Ok(m) => mlp_missing(gg, i as nat) is None && m@ == mlp_of(gg, i as nat, act),
                Err(e) => load_error(e, mlp_small(gg, i as nat), mlp_missing(gg, i as nat))
                    && !mlp_loads(gg, i as nat),
            },
    {
        let gate_proj = load_linear(gg, &name_of(i, ".ffn_gate.weight"))?;
        let up_proj = load_linear(gg, &name_of(i, ".ffn_up.weight"))?;
        let down_proj = load_linear(gg, &name_of(i, ".ffn_down.weight"))?;
        Ok(Mlp { gate_proj, up_proj, down_proj, act })
    }

    /// The output of the feedforward.
    pub fn forward(&self, x: &Tensor) -> (r: Result<Tensor, ModelError>)
        ensures
            ends(r, fed(self@, run_of(*x))),
    {
        let gate = self.gate_proj.forward(x)?;
        let gate = match self.act {
            Gate::Gelu => ops::gelu(&gate)?,
            Gate::Silu => ops::silu(&gate)?,
        };
        let up = self.up_proj.forward(x)?;
        self.down_proj.forward(&ops::times(&gate, &up)?)
    }
}

/// The projections of a feedforward take rows of `hidden` elements to rows of
/// `inner` elements and back.
pub open spec fn mlp_maps(w: MlpView, hidden: usize, inner: usize) -> bool {
    &&& maps(w.gate, hidden, inner)
    &&& maps(w.up, hidden, inner)
    &&& maps(w.down, inner, hidden)
}

/// A feedforward of a tensor that is sure to come out is sure to succeed, where
/// the dims agree, and keeps the dims.
pub proof fn feedforwards_are_sure(w: MlpView, x: Run, inner: usize)
    requires
        tidy(x),
        2 <= x.dims().len() <= 4,
        mlp_maps(w, x.dims().last(), inner),
        fed(w, x).sound,
    ensures
        tidy(fed(w, x)),
        fed(w, x).dims() == x.dims(),
{
    let g = through(x, w.gate);
    let u = through(x, w.up);
    projections_are_sure(x, w.gate, inner);
    projections_are_sure(x, w.up, inner);
    lemma_tidy_mapped(Op::Gelu, g);
    lemma_tidy_mapped(Op::Silu, g);
    let y = paired(Op::Mul, activated(g, w.act), u);
    lemma_tidy_paired(Op::Mul, activated(g, w.act), u);
    projections_are_sure(y, w.down, x.dims().last());
    assert(fed(w, x).dims() =~= x.dims());
}

/// The names of the tensors of the feedforward of layer `i`, in the order in which
/// they are read.
pub open spec fn mlp_names(i: nat) -> Seq<Seq<char>> {
    seq![
        layer_name(i, ".ffn_gate.weight"@),
        layer_name(i, ".ffn_up.weight"@),
        layer_name(i, ".ffn_down.weight"@),
    ]
}

/// The tensor that is missing for a feedforward is the first in order.
pub proof fn missing_feedforwards_in_order(gg: &Gguf, i: nat)
    ensures
        first_missing(gg, mlp_names(i), mlp_missing(gg, i)),
{
    let a = layer_name(i, ".ffn_gate.weight"@);
    let b = layer_name(i, ".ffn_up.weight"@);
    let c = layer_name(i, ".ffn_down.weight"@);
    lemma_missing_one(gg, a);
    lemma_missing_one(gg, b);
    lemma_missing_one(gg, c);
    lemma_first_missing(gg, seq![b], seq![c], absent(gg, b), absent(gg, c));
    lemma_first_missing(
        gg,
        seq![a],
        seq![b] + seq![c],
        absent(gg, a),
        earlier(absent(gg, b), absent(gg, c)),
    );
    assert(seq![a] + (seq![b] + seq![c]) =~= mlp_names(i));
}

} // verus!
