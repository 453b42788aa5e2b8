[package]
name = "candle_attention"
version = "0.1.0"
edition = "2021"
publish = false

[dependencies]
candle-core = "=0.11.1"
candle-nn = "=0.11.1"
half = "=2.7.1"
