# candle_attention

Verified logic around attention on [candle](https://github.com/huggingface/candle)
tensors:

- planning the launches of the flash attention kernels, for sequences of one
  length and for packed sequences of different lengths, with the heuristic that
  splits the keys and values of a launch over several blocks;
- two quantised decoders that are read from GGUF files, Gemma 4 and Qwen 3.5.

## Layout

- `src/flash/`: what a launch is given, as plain numbers. Shapes and strides are
  checked, windows and head sizes rounded, the number of splits chosen.
- `src/tensor/`: the operations of candle that the decoders use. `raw.rs` holds
  what is taken for granted of candle, one function for each operation; `ops.rs`
  holds the same operations with the checks that keep them from panicking;
  `view.rs` and `run.rs` hold the terms that the contracts are written in;
  `sure.rs` says which runs of operations are sure to succeed.
- `src/gguf.rs`, `src/text.rs`: the metadata and tensors of a file, by name.
- `src/nn.rs`, `src/attention.rs`, `src/mlp.rs`, `src/mask.rs`: what the decoders
  share.
- `src/gemma4/`, `src/qwen35/`: the decoders.
- `app/`: reading files, floating point tables, and the kernels themselves.

## What a contract says of a tensor

The elements of a tensor are floating point numbers and are not modelled. What is
known of a tensor is its dims and strides, its element type, the kind of device
that it lives on, and the term of operations and given tensors that it was made
by. A contract of a decoder states that term exactly, so that two results with
equal terms were computed by the same operations from the same tensors.

## When a call succeeds

A call is refused with an error of the library where candle would panic, and may
fail with an error of candle where candle fails. On the cpu, in single precision,
candle fails by dims, strides and element types alone, and for indexes by their
values; a run of operations for which none of them can fail is called certain, and
the contracts state that such a call succeeds. The laws `calls_are_sure`,
`layers_are_sure` and `attention_is_sure` say for which weights, tokens and kept
keys and values that is so, and `loaded_models_map` that a model read from a file
is among them where the dims of its tensors agree. Off the cpu, and in other
precisions, nothing is said of when candle fails.
