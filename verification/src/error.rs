//! Why a model cannot be read or run.

use vstd::prelude::*;

verus! {

/// `candle_core::Error`: why an operation of candle failed.
#[verifier::external_type_specification]
#[verifier::external_body]
pub struct ExError(candle_core::Error);

/// Why a model cannot be read or run.
#[derive(Debug)]
pub enum ModelError {
    /// An operation of candle failed.
    Candle(candle_core::Error),
    /// A product of dims is not a `usize`.
    TooLarge,
    /// A tensor has another number of dims than expected.
    UnexpectedRank { expected: usize, rank: usize },
    /// A tensor has no elements along a dim that an operation works on.
    EmptyDim,
    /// The elements of a tensor cannot be split into equal parts.
    Uneven,
    /// A tensor does not hold floating point numbers.
    NotFloat,
    /// A tensor lives on another kind of device than a weight.
    PlaceMismatch,
    /// The rows of a quantised matrix whose blocks are read in pairs hold an odd
    /// number of blocks.
    OddBlocks,
    /// A tensor to be sorted holds a value that has no order.
    Unordered,
    /// The activations do not have the dims that the experts take.
    ExpertShape,
    /// There is no such layer.
    NoSuchLayer(usize),
    /// A sequence without tokens.
    EmptySequence,
    /// A metadata key that is not there.
    MissingKey(String),
    /// A metadata value of another type than expected.
    WrongType(String),
    /// A tensor that is not there.
    MissingTensor(String),
    /// A configuration that no model has.
    BadConfig,
}

impl ModelError {
    /// The error of an operation on tensors, not of what a file holds.
    pub open spec fn of_operation(self) -> bool {
        match self {
            ModelError::Candle(_) => true,
            ModelError::TooLarge => true,
            ModelError::UnexpectedRank { .. } => true,
            ModelError::EmptyDim => true,
            ModelError::Uneven => true,
            ModelError::NotFloat => true,
            ModelError::PlaceMismatch => true,
            ModelError::OddBlocks => true,
            ModelError::Unordered => true,
            ModelError::ExpertShape => true,
            _ => false,
        }
    }
}

} // verus!
