//! The element types of tensors.

use candle_core::DType;
use vstd::prelude::*;

verus! {

/// `candle_core::DType`: the enum with its variants as they stand.
#[verifier::external_type_specification]
pub struct ExDType(candle_core::DType);

/// `candle_core::quantized::GgmlDType`: the enum with its variants as they stand.
#[verifier::external_type_specification]
pub struct ExGgmlDType(candle_core::quantized::GgmlDType);

/// The element types of floating point numbers.
pub open spec fn float_type(d: DType) -> bool {
    d == DType::BF16 || d == DType::F16 || d == DType::F32 || d == DType::F64 || d == DType::F8E4M3
}

/// Whether the elements are floating point numbers.
pub fn is_float(d: DType) -> (r: bool)
    ensures
        r == float_type(d),
{
    match d {
        DType::BF16 | DType::F16 | DType::F32 | DType::F64 | DType::F8E4M3 => true,
        _ => false,
    }
}

/// Whether the element type is half precision.
pub fn is_f16(d: DType) -> (r: bool)
    ensures
        r == (d == DType::F16),
{
    match d {
        DType::F16 => true,
        _ => false,
    }
}

/// Whether the element type is brain floating point.
pub fn is_bf16(d: DType) -> (r: bool)
    ensures
        r == (d == DType::BF16),
{
    match d {
        DType::BF16 => true,
        _ => false,
    }
}

/// Whether the element type is single precision.
pub fn is_f32(d: DType) -> (r: bool)
    ensures
        r == (d == DType::F32),
{
    match d {
        DType::F32 => true,
        _ => false,
    }
}

/// Whether the element type is an unsigned integer of 32 bits.
pub fn is_u32(d: DType) -> (r: bool)
    ensures
        r == (d == DType::U32),
{
    match d {
        DType::U32 => true,
        _ => false,
    }
}

/// Whether the element type is a signed integer of 32 bits.
pub fn is_i32(d: DType) -> (r: bool)
    ensures
        r == (d == DType::I32),
{
    match d {
        DType::I32 => true,
        _ => false,
    }
}

} // verus!
