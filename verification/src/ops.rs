use vstd::prelude::*;

verus! {

/// The operators with one operand.
#[derive(Debug, Clone, Copy, PartialEq, Eq, Structural)]
pub enum UnaryOp {
    /// `+val`
    Plus,
    /// `-val`
    Minus,
    /// `!val`
    Not,
}

/// The operators with two operands.
#[derive(Debug, Clone, Copy, PartialEq, Eq, Structural)]
pub enum BinaryOp {
    /// `lhs + rhs`
    Add,
    /// `lhs - rhs`
    Sub,
    /// `lhs * rhs`
    Mul,
    /// `lhs / rhs`
    Div,
    /// `lhs % rhs`
    Mod,
    /// `lhs ^ rhs`
    Pow,
    /// `lhs == rhs`
    Eq,
    /// `lhs != rhs`
    Ne,
    /// `lhs < rhs`
    Lt,
    /// `lhs <= rhs`
    Lte,
    /// `lhs > rhs`
    Gt,
    /// `lhs >= rhs`
    Gte,
    /// `lhs && rhs`: `lhs` if it is falsy, otherwise `rhs`.
    And,
    /// `lhs || rhs`: `lhs` if it is truthy, otherwise `rhs`.
    Or,
    /// `lhs ?? rhs`: `rhs` if `lhs` is nil, otherwise `lhs`.
    NilCoalesce,
}

} // verus!
