//! The error taxonomy of the interpreter.
//!
//! Every failure aborts the evaluation in progress and is surfaced to the
//! caller; nothing is retried or silently defaulted.

use vstd::prelude::*;

use crate::ir::{BinOp, TypeDesc};

verus! {

/// The category of IR node (or scalar shape) that the interpreter does not
/// cover; reported by [`Error::Unimplemented`] so that the gap is explicit
/// rather than silently producing a wrong value.
#[derive(Clone, Copy, Debug, PartialEq, Eq, Structural)]
pub enum NodeKind {
    /// An expression node kind outside the supported set.
    Expression,
    /// A statement node kind outside the supported set.
    Statement,
    /// A scalar kind/width combination outside the supported set.
    Shape,
}

/// What a [`Error::TypeMismatch`] disagrees about.
#[derive(Clone, Copy, Debug, PartialEq, Eq, Structural)]
pub enum TypeMismatchKind {
    /// Two operand descriptors that do not agree in shape, kind and
    /// width.
    Operands(TypeDesc, TypeDesc),
    /// A buffer of `len` bytes read or written as a shape of `size`
    /// bytes.
    Buffer { len: usize, size: usize },
}

/// Everything that can go wrong while running an entry point.
#[derive(Clone, Copy, Debug, PartialEq, Eq, Structural)]
pub enum Error {
    /// No entry point in the module matches the requested shader stage.
    NoEntryPoint,
    /// An entry-point argument has no name the interpreter could bind.
    UnnamedArgument,
    /// A supplied textual argument value does not parse under the declared
    /// type descriptor.
    ArgumentParseFailure,
    /// A supplied textual argument value does not fill the declared type:
    /// for a vector argument, the number of comma-separated tokens (the
    /// first payload) differs from the declared lane count (the second).
    ArgumentSizeMismatch(usize, usize),
    /// An expression references a variable that the active scope does not
    /// bind.
    UnboundVariable,
    /// An expression needs a variable but no scope is active.
    MissingScope,
    /// Two byte sizes that must agree do not: a binary operator's operand
    /// buffer lengths, or a compose's concatenated size against the size
    /// its target type declares.
    SizeMismatch(usize, usize),
    /// Operand type descriptors disagree in shape, kind or width, or a
    /// buffer is reinterpreted at a size that does not match its length.
    TypeMismatch(TypeMismatchKind),
    /// An offset-based buffer access reaches beyond the buffer.
    OutOfRange,
    /// The operator is not defined for the operand kind.
    UnsupportedOperator(BinOp),
    /// An integer division or remainder whose result the machine cannot
    /// represent: a zero divisor, or the most negative value divided by
    /// minus one.
    DivisionByZero,
    /// A node kind or scalar shape that this interpreter deliberately does
    /// not cover yet.
    Unimplemented(NodeKind),
}

impl Error {
    /// A short fixed description, for callers that report failures as text.
    pub fn describe(&self) -> (r: &'static str)
        ensures
            r@ == self.describe_spec(),
    {
        match self {
            Error::NoEntryPoint => "no entry point found for the requested stage",
            Error::UnnamedArgument => "argument has no name",
            Error::ArgumentParseFailure => "argument value does not parse",
            Error::ArgumentSizeMismatch(_, _) => "argument value does not match the declared size",
            Error::UnboundVariable => "variable not found",
            Error::MissingScope => "no scope found",
            Error::SizeMismatch(_, _) => "byte sizes differ",
            Error::TypeMismatch(_) => "types do not match",
            Error::OutOfRange => "access out of range",
            Error::UnsupportedOperator(_) => "operator not supported for this kind",
            Error::DivisionByZero => "integer division has no representable result",
            Error::Unimplemented(_) => "node kind not implemented",
        }
    }

    /// The text that [`Error::describe`] returns.
    pub open spec fn describe_spec(self) -> Seq<char> {
        match self {
            Error::NoEntryPoint => "no entry point found for the requested stage"@,
            Error::UnnamedArgument => "argument has no name"@,
            Error::ArgumentParseFailure => "argument value does not parse"@,
            Error::ArgumentSizeMismatch(_, _) => "argument value does not match the declared size"@,
            Error::UnboundVariable => "variable not found"@,
            Error::MissingScope => "no scope found"@,
            Error::SizeMismatch(_, _) => "byte sizes differ"@,
            Error::TypeMismatch(_) => "types do not match"@,
            Error::OutOfRange => "access out of range"@,
            Error::UnsupportedOperator(_) => "operator not supported for this kind"@,
            Error::DivisionByZero => "integer division has no representable result"@,
            Error::Unimplemented(_) => "node kind not implemented"@,
        }
    }
}

} // verus!
