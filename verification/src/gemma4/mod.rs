//! The Gemma 4 text decoder.
//!
//! Layers interleave two kinds of attention: sliding ones, which see a window
//! of the last positions, and full ones, with a larger head, fewer heads of
//! keys and values, a proportional rotary embedding, and values that are the
//! projected keys. Each layer runs a dense feedforward and, where there are
//! experts, a sparse one beside it.

pub mod attention;
pub mod moe;
pub mod residual;
pub mod taken;
pub mod layer;
pub mod meaning;
pub mod config;
pub mod experts;
pub mod model;
