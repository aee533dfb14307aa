use vstd::prelude::*;

verus! {

/// The tagged tree produced by the front-end reader; pure data with no
/// behavior.  A `List` whose first element is not a `Symbol` is malformed
/// and fails fast during lowering.
#[derive(Debug)]
pub enum Expression {
    /// A function call, a primitive invocation, or a definition/module form;
    /// the first element, when a `Symbol`, names the operator.
    List(Vec<Expression>),
    /// A reference to a variable or function name.
    Symbol(String),
    /// An integer literal.
    Integer(i32),
    /// Recognized by the grammar but not supported by any backend; reaching
    /// one during lowering is a fatal condition.
    Float,
    /// Recognized by the grammar but not supported by any backend; reaching
    /// one during lowering is a fatal condition.
    Boolean(bool),
}

/// The three primitive arithmetic operators; each one is compiled as a
/// single target-level binary instruction, not as a call.
#[derive(Debug, Clone, Copy, PartialEq, Eq, Structural)]
pub enum ArithOp {
    Add,
    Sub,
    Mul,
}

} // verus!
