//! Why a launch is refused.

use candle_core::DType;
use vstd::prelude::*;

verus! {

/// The tensors that take part in a launch.
#[derive(Clone, Copy, Debug, PartialEq, Eq, Structural)]
pub enum Operand {
    Q,
    K,
    V,
    SeqlensQ,
    SeqlensK,
    BlockTable,
    MmPrefixRanges,
    AlibiSlopes,
}

/// The reason for which a launch is refused.
#[derive(Clone, Copy, Debug, PartialEq)]
pub enum FlashError {
    /// The operand is on another device than q.
    DeviceMismatch(Operand),
    /// The tensors are on the cpu.
    NoCpuSupport,
    /// The tensors are on a metal device.
    NoMetalImplementation,
    /// q is neither f16 nor bf16.
    UnsupportedDType(DType),
    /// The operand does not have the element type that the kernel reads.
    UnexpectedDType { operand: Operand, expected: DType, got: DType },
    /// The operand has to be a cuda tensor.
    NotCuda(Operand),
    /// The operand has to be contiguous.
    NotContiguous(Operand),
    /// The operand has another number of dims than the kernel reads.
    UnexpectedNumDims { operand: Operand, wanted: usize, rank: usize },
    /// The ranks of q, k and v.
    Rank { q: usize, k: usize, v: usize },
    /// The ranks of k and v, with a block table.
    PagedRank { k: usize, v: usize },
    /// The last dim of the operand has to be contiguous.
    LastDimNotContiguous(Operand),
    /// The shapes of the two operands do not agree.
    ShapeMismatch(Operand, Operand),
    /// A block table needs a page block size.
    MissingPageBlockSize,
    /// The page block size given is not the one of k.
    PageBlockSizeMismatch { given: usize, k: usize },
    /// The page block size is no multiple of 32.
    PageBlockSizeNotMultiple(usize),
    /// The head size is above 512, with a block table.
    PagedHeadTooLarge(usize),
    /// The head size is above 512.
    HeadTooLarge(usize),
    /// The head size is no multiple of 8.
    HeadNotMultiple(usize),
    /// The k/v heads do not divide the heads in q.
    HeadCounts { q: usize, kv: usize },
    /// There are fewer than two cumulative lengths.
    TooFewSeqlens(usize),
    /// The numbers of cumulative lengths differ.
    SeqlensDiffer { q: usize, k: usize },
    /// The prefix ranges are not (batch, ranges, 2).
    PrefixRangesShape { batch_size: usize },
    /// The prefix ranges are not i32.
    PrefixRangesDType(DType),
    /// The alibi slopes are not f32.
    AlibiDType(DType),
    /// The alibi slopes are not one per head.
    AlibiShape { num_heads: usize, slopes: usize },
    /// The block table is neither u32 nor i32.
    BlockTableDType(DType),
}

} // verus!
