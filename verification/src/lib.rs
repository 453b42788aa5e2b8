//! Attention for quantised language models on candle tensors: the launch
//! parameters of the flash-attention kernels, and the Gemma 4 and Qwen 3.5
//! decoders read from GGUF files.

pub mod attention;
pub mod dtype;
pub mod error;
pub mod flash;
pub mod formula;
pub mod gemma4;
pub mod gguf;
pub mod mask;
pub mod math;
pub mod mlp;
pub mod nn;
pub mod qwen35;
pub mod shape;
pub mod taken;
pub mod tensor;
pub mod text;
