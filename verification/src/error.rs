use vstd::prelude::*;
use vstd::string::*;

verus! {

/// The abstract shape of a lowering error, as the contracts speak of it.
pub enum LowerErr {
    /// Malformed `def`/`module`/call shape: wrong arity, wrong node kind
    /// where a symbol or list was required, or a target capacity exceeded.
    Malformed,
    /// The named symbol or function was not found in scope at its point of
    /// use.
    Undefined(Seq<char>),
    /// A float or boolean literal reached lowering.
    Unsupported,
}

/// An unrecoverable condition detected during lowering.  The first error
/// stops the whole compilation; no partial output is produced downstream.
#[derive(Debug)]
pub enum CompileError {
    /// Malformed `def`/`module`/call shape, with a description.
    Malformed(String),
    /// A symbol or function name not found in scope, carrying the name.
    UndefinedReference(String),
    /// A float or boolean literal reached lowering.
    UnsupportedLiteral,
}

impl View for CompileError {
    type V = LowerErr;

    open spec fn view(&self) -> LowerErr {
        match self {
            CompileError::Malformed(_) => LowerErr::Malformed,
            CompileError::UndefinedReference(s) => LowerErr::Undefined(s@),
            CompileError::UnsupportedLiteral => LowerErr::Unsupported,
        }
    }
}

impl CompileError {
    /// A human-readable description of the error.
    pub fn message(&self) -> (r: String)
        ensures
            self matches CompileError::Malformed(m) ==> r@ == "structural error: "@ + m@,
            self matches CompileError::UndefinedReference(n) ==> r@ == "undefined reference: "@
                + n@,
            self matches CompileError::UnsupportedLiteral ==> r@ == "unsupported literal kind"@,
    {
        match self {
            CompileError::Malformed(m) => {
                let mut s: String = "structural error: ".to_owned();
                s.append(m.as_str());
                s
            },
            CompileError::UndefinedReference(n) => {
                let mut s: String = "undefined reference: ".to_owned();
                s.append(n.as_str());
                s
            },
            CompileError::UnsupportedLiteral => "unsupported literal kind".to_owned(),
        }
    }
}

} // verus!
