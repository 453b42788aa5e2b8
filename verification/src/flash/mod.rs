//! Planning of flash attention launches on plain descriptors.

pub mod dense;
pub mod desc;
pub mod error;
pub mod meaning;
pub mod params;
pub mod refusal;
pub mod splitkv;
pub mod varlen;
pub mod window;
