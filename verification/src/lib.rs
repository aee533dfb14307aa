use vstd::prelude::*;

mod ast;
mod error;
mod laws;
mod llvm;
mod opts;
mod scope;
mod text;
mod x86;

pub use ast::ArithOp;
pub use ast::Expression;
pub use error::CompileError;
pub use error::LowerErr;
pub use laws::lemma_arity_enforced;
pub use laws::lemma_backends_agree_on_atoms;
pub use laws::lemma_define_scope_isolation;
pub use laws::lemma_lookup_push;
pub use laws::lemma_undefined_reference_fatal;
pub use llvm::LLVM;
pub use opts::BackendOpt;
pub use opts::BackendOptError;
pub use scope::lemma_registration_keeps_targets_distinct;
pub use scope::safe_name;
pub use scope::str_eq;
pub use scope::Scope;
pub use text::i32_to_string;
pub use x86::X86;

verus! {

} // verus!
