//! Tensors: what is known of one, the operations of candle, the same
//! operations for every tensor, and runs of them.

pub mod element;
pub mod ops;
pub mod raw;
pub mod run;
pub mod sure;
pub mod view;
