use vstd::prelude::*;
use crate::ast::Expression;
use crate::error::LowerErr;
use crate::scope::{scope_lookup, ScopeModel};
use crate::text::{ar_lookup, Arities};
use crate::llvm::{b_define, b_dispatch, b_lower};
use crate::x86::{a_define, a_dispatch, a_lower, Reg};

verus! {

/// Pushing one entry changes lookup results for that entry's source name
/// only.
pub proof fn lemma_lookup_push(s: ScopeModel, k: Seq<char>, v: Seq<char>, n: Seq<char>)
    ensures
        scope_lookup(s.push((k, v)), n) == if n == k {
            Some(v)
        } else {
            scope_lookup(s, n)
        },
{
    assert(s.push((k, v)).drop_last() =~= s);
    assert(s.push((k, v)).last() == (k, v));
}

/// Scope isolation: a function definition leaves the enclosing scope
/// extended by exactly the definition's own name.  The parameter bindings,
/// the return-value symbol and everything the body registers live only in
/// the discarded child scope, so every other name resolves in the enclosing
/// scope exactly as it did before.  This holds of both backends.
pub proof fn lemma_define_scope_isolation(
    args: Seq<Expression>,
    sc: ScopeModel,
    ar: Arities,
    n: Seq<char>,
)
    ensures
        a_define(args, sc, ar) matches Ok(out) ==> out.scope.len() == sc.len() + 1
            && out.scope.drop_last() == sc && (n != args[0]->Symbol_0@ ==> scope_lookup(
            out.scope,
            n,
        ) == scope_lookup(sc, n)),
        b_define(args, sc, ar) matches Ok(out) ==> out.scope.len() == sc.len() + 1
            && out.scope.drop_last() == sc && (n != args[0]->Symbol_0@ ==> scope_lookup(
            out.scope,
            n,
        ) == scope_lookup(sc, n)),
{
    match a_define(args, sc, ar) {
        Ok(out) => {
            let name = args[0]->Symbol_0;
            assert(out.scope.drop_last() =~= sc);
            lemma_lookup_push(sc, name@, out.scope.last().1, n);
            assert(sc.push((name@, out.scope.last().1)) =~= out.scope);
        },
        Err(_) => {},
    }
    match b_define(args, sc, ar) {
        Ok(out) => {
            let name = args[0]->Symbol_0;
            assert(out.scope.drop_last() =~= sc);
            lemma_lookup_push(sc, name@, out.scope.last().1, n);
            assert(sc.push((name@, out.scope.last().1)) =~= out.scope);
        },
        Err(_) => {},
    }
}

/// Undefined-reference fatality: lowering a symbol that is not present in
/// scope fails with an undefined-reference error naming the symbol, in
/// either backend, and not a single line of code is produced for it.
pub proof fn lemma_undefined_reference_fatal(
    name: String,
    dst_a: Option<Reg>,
    dst_b: Option<Seq<char>>,
    sc: ScopeModel,
    ar: Arities,
)
    requires
        scope_lookup(sc, name@) is None,
    ensures
        a_lower(Expression::Symbol(name), dst_a, sc, ar) == Err::<
            crate::text::LowerOut,
            LowerErr,
        >(LowerErr::Undefined(name@)),
        b_lower(Expression::Symbol(name), dst_b, sc, ar) == Err::<
            crate::text::LowerOut,
            LowerErr,
        >(LowerErr::Undefined(name@)),
{
}

/// Both backends agree on every atom: an integer literal always lowers, a
/// symbol lowers exactly when the scope resolves it, and float and boolean
/// literals are fatal — under the same scope, one backend accepts an atom
/// if and only if the other does, and both report the same error class.
pub proof fn lemma_backends_agree_on_atoms(
    e: Expression,
    dst_a: Option<Reg>,
    dst_b: Option<Seq<char>>,
    sc: ScopeModel,
    ar: Arities,
)
    requires
        !(e is List),
    ensures
        (a_lower(e, dst_a, sc, ar) is Ok) == (b_lower(e, dst_b, sc, ar) is Ok),
        a_lower(e, dst_a, sc, ar) matches Err(ea) ==> b_lower(e, dst_b, sc, ar) == Err::<
            crate::text::LowerOut,
            LowerErr,
        >(ea),
{
}

/// Arity enforcement: a call to a defined function with the wrong number of
/// arguments fails fast with a structural error, in either backend — the
/// argument list is never silently truncated or padded.
pub proof fn lemma_arity_enforced(
    op: Seq<char>,
    args: Seq<Expression>,
    dst_a: Option<Reg>,
    dst_b: Option<Seq<char>>,
    sc: ScopeModel,
    ar: Arities,
    target: Seq<char>,
    arity: nat,
)
    requires
        op != "def"@,
        op != "module"@,
        op != "+"@,
        op != "-"@,
        op != "*"@,
        scope_lookup(sc, op) == Some(target),
        ar_lookup(ar, target) == Some(arity),
        arity != args.len(),
    ensures
        a_dispatch(op, args, dst_a, sc, ar) == Err::<crate::text::LowerOut, LowerErr>(
            LowerErr::Malformed,
        ),
        b_dispatch(op, args, dst_b, sc, ar) == Err::<crate::text::LowerOut, LowerErr>(
            LowerErr::Malformed,
        ),
{
}

} // verus!
