//! Scalar lane semantics for the binary-operator subsystem.
//!
//! Numeric operations follow the native machine semantics: integer add,
//! subtract, multiply and the shifts wrap, with a shift amount taken modulo
//! the bit width; a division or remainder with no representable result
//! (zero divisor, or the most negative value divided by minus one) fails
//! with `DivisionByZero` rather than trapping.

use vstd::bytes::*;
use vstd::prelude::*;

use crate::error::Error;
use crate::ir::{BinOp, ScalarKind};
use crate::value::PodValue;

verus! {

/// The operators defined for each scalar kind.  Integers take the
/// arithmetic, bitwise and shift operators; floats take only arithmetic
/// (evaluated by the host); bools take the bitwise operators and
/// (in)equality on their one-byte encoding.
pub open spec fn op_supported(kind: ScalarKind, op: BinOp) -> bool {
    match kind {
        ScalarKind::Sint | ScalarKind::Uint => match op {
            BinOp::Add | BinOp::Subtract | BinOp::Multiply | BinOp::Divide | BinOp::Modulo
                | BinOp::And | BinOp::ExclusiveOr | BinOp::InclusiveOr | BinOp::ShiftLeft
                | BinOp::ShiftRight => true,
            _ => false,
        },
        ScalarKind::Float => match op {
            BinOp::Add | BinOp::Subtract | BinOp::Multiply | BinOp::Divide | BinOp::Modulo => true,
            _ => false,
        },
        ScalarKind::Bool => match op {
            BinOp::And | BinOp::ExclusiveOr | BinOp::InclusiveOr | BinOp::Equal
                | BinOp::NotEqual => true,
            _ => false,
        },
    }
}

/// Executable check for [`op_supported`].
pub fn is_op_supported(kind: &ScalarKind, op: &BinOp) -> (b: bool)
    ensures
        b == op_supported(*kind, *op),
{
    match kind {
        ScalarKind::Sint | ScalarKind::Uint => match op {
            BinOp::Add | BinOp::Subtract | BinOp::Multiply | BinOp::Divide | BinOp::Modulo
                | BinOp::And | BinOp::ExclusiveOr | BinOp::InclusiveOr | BinOp::ShiftLeft
                | BinOp::ShiftRight => true,
            _ => false,
        },
        ScalarKind::Float => match op {
            BinOp::Add | BinOp::Subtract | BinOp::Multiply | BinOp::Divide | BinOp::Modulo => true,
            _ => false,
        },
        ScalarKind::Bool => match op {
            BinOp::And | BinOp::ExclusiveOr | BinOp::InclusiveOr | BinOp::Equal
                | BinOp::NotEqual => true,
            _ => false,
        },
    }
}

/// A supported operator applied to two 32-bit signed integers.
pub open spec fn spec_sint_op(op: BinOp, a: i32, b: i32) -> Result<i32, Error>
    recommends
        op_supported(ScalarKind::Sint, op),
{
    match op {
        BinOp::Add => Ok(a.wrapping_add(b)),
        BinOp::Subtract => Ok(a.wrapping_sub(b)),
        BinOp::Multiply => Ok(a.wrapping_mul(b)),
        BinOp::Divide => match a.checked_div(b) {
            Some(q) => Ok(q),
            None => Err(Error::DivisionByZero),
        },
        BinOp::Modulo => match a.checked_rem(b) {
            Some(m) => Ok(m),
            None => Err(Error::DivisionByZero),
        },
        BinOp::And => Ok(a & b),
        BinOp::ExclusiveOr => Ok(a ^ b),
        BinOp::InclusiveOr => Ok(a | b),
        BinOp::ShiftLeft => Ok(a.wrapping_shl(b as u32)),
        BinOp::ShiftRight => Ok(a.wrapping_shr(b as u32)),
        _ => Err(Error::UnsupportedOperator(op)),
    }
}

/// A supported operator applied to two 32-bit unsigned integers.
pub open spec fn spec_uint_op(op: BinOp, a: u32, b: u32) -> Result<u32, Error>
    recommends
        op_supported(ScalarKind::Uint, op),
{
    match op {
        BinOp::Add => Ok(a.wrapping_add(b)),
        BinOp::Subtract => Ok(a.wrapping_sub(b)),
        BinOp::Multiply => Ok(a.wrapping_mul(b)),
        BinOp::Divide => match a.checked_div(b) {
            Some(q) => Ok(q),
            None => Err(Error::DivisionByZero),
        },
        BinOp::Modulo => match a.checked_rem(b) {
            Some(m) => Ok(m),
            None => Err(Error::DivisionByZero),
        },
        BinOp::And => Ok(a & b),
        BinOp::ExclusiveOr => Ok(a ^ b),
        BinOp::InclusiveOr => Ok(a | b),
        BinOp::ShiftLeft => Ok(a.wrapping_shl(b)),
        BinOp::ShiftRight => Ok(a.wrapping_shr(b)),
        _ => Err(Error::UnsupportedOperator(op)),
    }
}

/// A supported operator applied to two bool-as-byte values: bitwise on the
/// encoding, with equality yielding `1` or `0`.
pub open spec fn spec_bool_op(op: BinOp, a: u8, b: u8) -> Result<u8, Error>
    recommends
        op_supported(ScalarKind::Bool, op),
{
    match op {
        BinOp::And => Ok(a & b),
        BinOp::ExclusiveOr => Ok(a ^ b),
        BinOp::InclusiveOr => Ok(a | b),
        BinOp::Equal => Ok(if a == b { 1u8 } else { 0u8 }),
        BinOp::NotEqual => Ok(if a == b { 0u8 } else { 1u8 }),
        _ => Err(Error::UnsupportedOperator(op)),
    }
}

/// A supported operator applied to two decoded lanes of the same integer
/// or bool shape.  Float lanes never reach this function: the host
/// evaluates them.
pub open spec fn spec_pod_op(op: BinOp, a: PodValue, b: PodValue) -> Result<PodValue, Error>
    recommends
        a.spec_kind() == b.spec_kind(),
{
    match (a, b) {
        (PodValue::I32(x), PodValue::I32(y)) => match spec_sint_op(op, x, y) {
            Ok(v) => Ok(PodValue::I32(v)),
            Err(e) => Err(e),
        },
        (PodValue::U32(x), PodValue::U32(y)) => match spec_uint_op(op, x, y) {
            Ok(v) => Ok(PodValue::U32(v)),
            Err(e) => Err(e),
        },
        (PodValue::U8(x), PodValue::U8(y)) => match spec_bool_op(op, x, y) {
            Ok(v) => Ok(PodValue::U8(v)),
            Err(e) => Err(e),
        },
        _ => Err(Error::UnsupportedOperator(op)),
    }
}

/// Executable form of [`spec_pod_op`].
pub fn pod_op(op: &BinOp, a: &PodValue, b: &PodValue) -> (out: Result<PodValue, Error>)
    ensures
        out == spec_pod_op(*op, *a, *b),
{
    match (a, b) {
        (PodValue::I32(x), PodValue::I32(y)) => match op {
            BinOp::Add => Ok(PodValue::I32(x.wrapping_add(*y))),
            BinOp::Subtract => Ok(PodValue::I32(x.wrapping_sub(*y))),
            BinOp::Multiply => Ok(PodValue::I32(x.wrapping_mul(*y))),
            BinOp::Divide => match x.checked_div(*y) {
                Some(q) => Ok(PodValue::I32(q)),
                None => Err(Error::DivisionByZero),
            },
            BinOp::Modulo => match x.checked_rem(*y) {
                Some(m) => Ok(PodValue::I32(m)),
                None => Err(Error::DivisionByZero),
            },
            BinOp::And => Ok(PodValue::I32(*x & *y)),
            BinOp::ExclusiveOr => Ok(PodValue::I32(*x ^ *y)),
            BinOp::InclusiveOr => Ok(PodValue::I32(*x | *y)),
            BinOp::ShiftLeft => Ok(PodValue::I32(x.wrapping_shl(*y as u32))),
            BinOp::ShiftRight => Ok(PodValue::I32(x.wrapping_shr(*y as u32))),
            _ => Err(Error::UnsupportedOperator(*op)),
        },
        (PodValue::U32(x), PodValue::U32(y)) => match op {
            BinOp::Add => Ok(PodValue::U32(x.wrapping_add(*y))),
            BinOp::Subtract => Ok(PodValue::U32(x.wrapping_sub(*y))),
            BinOp::Multiply => Ok(PodValue::U32(x.wrapping_mul(*y))),
            BinOp::Divide => match x.checked_div(*y) {
                Some(q) => Ok(PodValue::U32(q)),
                None => Err(Error::DivisionByZero),
            },
            BinOp::Modulo => match x.checked_rem(*y) {
                Some(m) => Ok(PodValue::U32(m)),
                None => Err(Error::DivisionByZero),
            },
            BinOp::And => Ok(PodValue::U32(*x & *y)),
            BinOp::ExclusiveOr => Ok(PodValue::U32(*x ^ *y)),
            BinOp::InclusiveOr => Ok(PodValue::U32(*x | *y)),
            BinOp::ShiftLeft => Ok(PodValue::U32(x.wrapping_shl(*y))),
            BinOp::ShiftRight => Ok(PodValue::U32(x.wrapping_shr(*y))),
            _ => Err(Error::UnsupportedOperator(*op)),
        },
        (PodValue::U8(x), PodValue::U8(y)) => match op {
            BinOp::And => Ok(PodValue::U8(*x & *y)),
            BinOp::ExclusiveOr => Ok(PodValue::U8(*x ^ *y)),
            BinOp::InclusiveOr => Ok(PodValue::U8(*x | *y)),
            BinOp::Equal => Ok(PodValue::U8(if *x == *y { 1 } else { 0 })),
            BinOp::NotEqual => Ok(PodValue::U8(if *x == *y { 0 } else { 1 })),
            _ => Err(Error::UnsupportedOperator(*op)),
        },
        _ => Err(Error::UnsupportedOperator(*op)),
    }
}

/// The bytes of lane `i` in a buffer of lanes `width` bytes wide.
pub open spec fn lane_of(data: Seq<u8>, i: int, width: nat) -> Seq<u8> {
    data.subrange(i * width, i * width + width)
}

/// The bit pattern held by a float lane encoding of the given width (4 or
/// 8 bytes), widened into the low bits of a `u64`.
pub open spec fn spec_lane_bits(width: u8, lane: Seq<u8>) -> u64
    recommends
        lane.len() == width,
        width == 4 || width == 8,
{
    if width == 4 {
        spec_u32_from_le_bytes(lane) as u64
    } else {
        spec_u64_from_le_bytes(lane)
    }
}

/// The float lane encoding of a host answer: the low `width` bytes of the
/// bit pattern, little endian.
pub open spec fn spec_bits_lane(width: u8, bits: u64) -> Seq<u8>
    recommends
        width == 4 || width == 8,
{
    if width == 4 {
        spec_u32_to_le_bytes(bits as u32)
    } else {
        spec_u64_to_le_bytes(bits)
    }
}

} // verus!
