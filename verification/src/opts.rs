use vstd::prelude::*;
use vstd::string::*;
use crate::scope::str_eq;

verus! {

/// A configuration error: the requested code-generation target is not one
/// the system offers.
#[derive(Debug)]
pub struct BackendOptError {
    details: String,
}

impl BackendOptError {
    /// The error's description.
    pub closed spec fn spec_details(&self) -> Seq<char> {
        self.details@
    }

    pub fn new(details: String) -> (e: Self)
        ensures
            e.spec_details() == details@,
    {
        BackendOptError { details }
    }

    /// A human-readable description of the error.
    pub fn details(&self) -> (r: &str)
        ensures
            r@ == self.spec_details(),
    {
        self.details.as_str()
    }
}

/// The two interchangeable code-generation targets, selected by name.
#[derive(Debug, Clone, Copy, PartialEq, Eq, Structural)]
pub enum BackendOpt {
    LLVM,
    X86,
}

impl BackendOpt {
    /// Selects a backend by name; an unrecognized name is a configuration
    /// error reported before any lowering begins.
    pub fn from_name(backend: &str) -> (r: Result<Self, BackendOptError>)
        ensures
            backend@ == "x86"@ ==> r == Ok::<BackendOpt, BackendOptError>(BackendOpt::X86),
            backend@ == "llvm"@ ==> r == Ok::<BackendOpt, BackendOptError>(BackendOpt::LLVM),
            backend@ != "x86"@ && backend@ != "llvm"@ ==> (r matches Err(e) && e.spec_details()
                == "Unsupported backend: "@ + backend@),
    {
        proof {
            reveal_strlit("x86");
            reveal_strlit("llvm");
            assert("x86"@.len() == 3);
            assert("llvm"@.len() == 4);
            assert("x86"@ != "llvm"@);
        }
        if str_eq(backend, "x86") {
            Ok(BackendOpt::X86)
        } else if str_eq(backend, "llvm") {
            Ok(BackendOpt::LLVM)
        } else {
            let mut msg: String = "Unsupported backend: ".to_owned();
            msg.append(backend);
            Err(BackendOptError::new(msg))
        }
    }
}

impl core::str::FromStr for BackendOpt {
    type Err = BackendOptError;

    fn from_str(backend: &str) -> Result<Self, Self::Err> {
        BackendOpt::from_name(backend)
    }
}

} // verus!
