//! The Qwen 3.5 hybrid text decoder.
//!
//! Every few layers one has gated full attention, with a rotary embedding of a
//! part of each head and an output gate; the other layers have no token mixer
//! and add nothing to the residual before their feedforward.

pub mod attention;
pub mod config;
pub mod layer;
pub mod meaning;
pub mod model;
pub mod residual;
pub mod taken;
