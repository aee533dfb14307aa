use vstd::prelude::*;
use vstd::string::*;
use crate::ast::{ArithOp, Expression};
use crate::error::{CompileError, LowerErr};
use crate::scope::{
    reg_push, reg_target, safe_seq, scope_lookup, str_eq, dec_rep, Scope, ScopeModel,
};
use crate::text::{
    ar_lookup, ar_model, arity_of, cons_lines, i32_to_string, int_text, lemma_cons_lines_assoc,
    lemma_cons_lines_empty, lemma_render_lines_concat, lemma_render_singleton, render_line,
    render_lines, Arities, Lines, LowerOut,
};

verus! {

// The SSA-IR backend.  Every lowered value is written into a freshly named,
// single-assignment symbol; a symbol is never reassigned once bound.  The
// fresh names come from the scope itself, so single assignment follows from
// the uniqueness of registered target names.

/// The name synthesized for the next temporary of a scope.
pub open spec fn sym_name(sc: ScopeModel) -> Seq<char> {
    "sym"@ + dec_rep((sc.len() + 1) as nat)
}

/// The target name that synthesizing a temporary settles on.
pub open spec fn sym_target(sc: ScopeModel) -> Seq<char> {
    reg_target(sc, safe_seq(sym_name(sc)))
}

/// The scope after synthesizing a temporary.
pub open spec fn sym_push(sc: ScopeModel) -> ScopeModel {
    reg_push(sc, sym_name(sc))
}

/// The textual form of the arithmetic instructions.
pub open spec fn ir_op_text(op: ArithOp) -> Seq<char> {
    match op {
        ArithOp::Add => "add"@,
        ArithOp::Sub => "sub"@,
        ArithOp::Mul => "mul"@,
    }
}

/// An assignment that materializes an atom: the operand plus zero.
pub open spec fn atom_text(d: Seq<char>, src: Seq<char>) -> Seq<char> {
    "%"@ + d + " = add i32 "@ + src + ", 0"@
}

/// A binary arithmetic assignment over two temporaries.
pub open spec fn bin_assign_text(d: Seq<char>, op: ArithOp, a: Seq<char>, b: Seq<char>) -> Seq<
    char,
> {
    "%"@ + d + " = "@ + ir_op_text(op) + " i32 %"@ + a + ", %"@ + b
}

/// The typed, comma-joined operand list of a call or parameter list.
pub open spec fn plist_text(syms: Seq<Seq<char>>) -> Seq<char>
    decreases syms.len(),
{
    if syms.len() == 0 {
        Seq::empty()
    } else if syms.len() == 1 {
        "i32 %"@ + syms[0]
    } else {
        plist_text(syms.drop_last()) + ", i32 %"@ + syms.last()
    }
}

/// A call assignment.
pub open spec fn call_assign_text(d: Seq<char>, f: Seq<char>, syms: Seq<Seq<char>>) -> Seq<char> {
    "%"@ + d + " = call i32 @"@ + f + "("@ + plist_text(syms) + ")"@
}

/// A function header.
pub open spec fn define_text(f: Seq<char>, params: Seq<Seq<char>>) -> Seq<char> {
    "define i32 @"@ + f + "("@ + plist_text(params) + ") {"@
}

/// The explicit return of the body's value symbol.
pub open spec fn ret_text(s: Seq<char>) -> Seq<char> {
    "ret i32 %"@ + s
}

/// The destination of a lowering step, viewed abstractly.
pub open spec fn opt_view(d: Option<&str>) -> Option<Seq<char>> {
    match d {
        Some(s) => Some(s@),
        None => None,
    }
}

/// Lowering of one expression: the emitted lines bind the value of `e` to
/// the destination symbol (no lines when the destination is absent and the
/// value is discarded), and the scope and arity table are handed on.
pub open spec fn b_lower(
    e: Expression,
    dst: Option<Seq<char>>,
    sc: ScopeModel,
    ar: Arities,
) -> Result<LowerOut, LowerErr>
    decreases e, 0nat, 0nat,
{
    match e {
        Expression::Integer(n) => Ok(
            LowerOut {
                lines: match dst {
                    Some(d) => seq![(1nat, atom_text(d, int_text(n as int)))],
                    None => Seq::empty(),
                },
                scope: sc,
                ars: ar,
            },
        ),
        Expression::Symbol(s) => match scope_lookup(sc, s@) {
            Some(loc) => Ok(
                LowerOut {
                    lines: match dst {
                        Some(d) => seq![(1nat, atom_text(d, "%"@ + loc))],
                        None => Seq::empty(),
                    },
                    scope: sc,
                    ars: ar,
                },
            ),
            None => Err(LowerErr::Undefined(s@)),
        },
        Expression::Float => Err(LowerErr::Unsupported),
        Expression::Boolean(_) => Err(LowerErr::Unsupported),
        Expression::List(items) => {
            if items@.len() == 0 {
                Err(LowerErr::Malformed)
            } else {
                match items@[0] {
                    Expression::Symbol(op) => b_dispatch(
                        op@,
                        items@.subrange(1, items@.len() as int),
                        dst,
                        sc,
                        ar,
                    ),
                    _ => Err(LowerErr::Malformed),
                }
            }
        },
    }
}

/// Call dispatch: primitives first, with the raw unevaluated argument
/// expressions; otherwise the operator must already resolve to a defined
/// function of matching arity (forward references are not tolerated).
pub open spec fn b_dispatch(
    op: Seq<char>,
    args: Seq<Expression>,
    dst: Option<Seq<char>>,
    sc: ScopeModel,
    ar: Arities,
) -> Result<LowerOut, LowerErr>
    decreases args, 3nat, 0nat,
{
    if op == "def"@ {
        b_define(args, sc, ar)
    } else if op == "module"@ {
        b_items(args, 0, sc, ar)
    } else if op == "+"@ {
        b_arith(ArithOp::Add, args, dst, sc, ar)
    } else if op == "-"@ {
        b_arith(ArithOp::Sub, args, dst, sc, ar)
    } else if op == "*"@ {
        b_arith(ArithOp::Mul, args, dst, sc, ar)
    } else {
        match scope_lookup(sc, op) {
            None => Err(LowerErr::Undefined(op)),
            Some(target) => match ar_lookup(ar, target) {
                None => Err(LowerErr::Undefined(op)),
                Some(arity) => {
                    if arity != args.len() {
                        Err(LowerErr::Malformed)
                    } else {
                        match b_cargs(args, 0, sc, ar) {
                            Err(e) => Err(e),
                            Ok(out) => {
                                let (d, sc2) = match dst {
                                    Some(d) => (d, out.scope),
                                    None => (sym_target(out.scope), sym_push(out.scope)),
                                };
                                Ok(
                                    LowerOut {
                                        lines: out.lines + seq![
                                            (1nat, call_assign_text(d, target, out.syms)),
                                        ],
                                        scope: sc2,
                                        ars: out.ars,
                                    },
                                )
                            },
                        }
                    }
                },
            },
        }
    }
}

/// An arithmetic primitive: two fresh temporaries, each operand lowered into
/// its own, then one instruction computing the destination from them.
pub open spec fn b_arith(
    op: ArithOp,
    args: Seq<Expression>,
    dst: Option<Seq<char>>,
    sc: ScopeModel,
    ar: Arities,
) -> Result<LowerOut, LowerErr>
    decreases args, 2nat, 0nat,
{
    if args.len() != 2 {
        Err(LowerErr::Malformed)
    } else {
        let t1 = sym_target(sc);
        let sc1 = sym_push(sc);
        let t2 = sym_target(sc1);
        let sc2 = sym_push(sc1);
        match b_lower(args[0], Some(t1), sc2, ar) {
            Err(e) => Err(e),
            Ok(eff1) => match b_lower(args[1], Some(t2), eff1.scope, eff1.ars) {
                Err(e) => Err(e),
                Ok(eff2) => {
                    let (d, sc3) = match dst {
                        Some(d) => (d, eff2.scope),
                        None => (sym_target(eff2.scope), sym_push(eff2.scope)),
                    };
                    Ok(
                        LowerOut {
                            lines: eff1.lines + eff2.lines + seq![
                                (1nat, bin_assign_text(d, op, t1, t2)),
                            ],
                            scope: sc3,
                            ars: eff2.ars,
                        },
                    )
                },
            },
        }
    }
}

/// What call-argument lowering leaves behind: the emitted lines, the fresh
/// symbols holding the argument values in order, and the scope and arity
/// table handed on.
#[verifier::ext_equal]
pub struct IrArgsOut {
    pub lines: Lines,
    pub syms: Seq<Seq<char>>,
    pub scope: ScopeModel,
    pub ars: Arities,
}

/// Prepends emitted lines and collected symbols to an argument-lowering
/// result.
pub open spec fn cons_args(pre: Lines, ps: Seq<Seq<char>>, r: Result<IrArgsOut, LowerErr>) -> Result<
    IrArgsOut,
    LowerErr,
> {
    match r {
        Ok(out) => Ok(
            IrArgsOut {
                lines: pre + out.lines,
                syms: ps + out.syms,
                scope: out.scope,
                ars: out.ars,
            },
        ),
        Err(e) => Err(e),
    }
}

/// Call-argument lowering: each argument lands in a temporary synthesized
/// just before it, left to right.
pub open spec fn b_cargs(args: Seq<Expression>, i: int, sc: ScopeModel, ar: Arities) -> Result<
    IrArgsOut,
    LowerErr,
>
    decreases args, 1nat, args.len() - i,
{
    if i < 0 || i >= args.len() {
        Ok(IrArgsOut { lines: Seq::empty(), syms: Seq::empty(), scope: sc, ars: ar })
    } else {
        let t = sym_target(sc);
        let sc1 = sym_push(sc);
        match b_lower(args[i], Some(t), sc1, ar) {
            Err(e) => Err(e),
            Ok(eff) => cons_args(eff.lines, seq![t], b_cargs(args, i + 1, eff.scope, eff.ars)),
        }
    }
}

/// Registers each parameter symbol in the child scope and collects the
/// target names, in order.
pub open spec fn b_params(params: Seq<Expression>, i: int, child: ScopeModel) -> Result<
    (ScopeModel, Seq<Seq<char>>),
    LowerErr,
>
    decreases params.len() - i,
{
    if i < 0 || i >= params.len() {
        Ok((child, Seq::empty()))
    } else {
        match params[i] {
            Expression::Symbol(p) => match b_params(params, i + 1, reg_push(child, p@)) {
                Err(e) => Err(e),
                Ok((c2, rest)) => Ok((c2, seq![reg_target(child, safe_seq(p@))] + rest)),
            },
            _ => Err(LowerErr::Malformed),
        }
    }
}

/// The `def` primitive: `(def NAME (PARAM...) BODY)`.  The name lands in
/// the enclosing scope; the parameters, the return-value symbol and
/// everything the body registers live only in a forked child scope.
pub open spec fn b_define(args: Seq<Expression>, sc: ScopeModel, ar: Arities) -> Result<
    LowerOut,
    LowerErr,
>
    decreases args, 2nat, 0nat,
{
    if args.len() != 3 {
        Err(LowerErr::Malformed)
    } else {
        match (args[0], args[1], args[2]) {
            (Expression::Symbol(name), Expression::List(params), Expression::List(_)) => {
                let target = reg_target(sc, safe_seq(name@));
                let sc1 = reg_push(sc, name@);
                let ar1 = ar.push((target, params@.len() as nat));
                match b_params(params@, 0, sc1) {
                    Err(e) => Err(e),
                    Ok((child, psyms)) => {
                        let rets = sym_target(child);
                        let child1 = sym_push(child);
                        match b_lower(args[2], Some(rets), child1, ar1) {
                            Err(e) => Err(e),
                            Ok(effb) => Ok(
                                LowerOut {
                                    lines: seq![(0nat, define_text(target, psyms))] + effb.lines
                                        + seq![(1nat, ret_text(rets)), (0nat, "}\n"@)],
                                    scope: sc1,
                                    ars: effb.ars,
                                },
                            ),
                        }
                    },
                }
            },
            _ => Err(LowerErr::Malformed),
        }
    }
}

/// The `module` primitive: each top-level form is lowered independently and
/// its value discarded, threading the scope and arity table in order.
pub open spec fn b_items(args: Seq<Expression>, i: int, sc: ScopeModel, ar: Arities) -> Result<
    LowerOut,
    LowerErr,
>
    decreases args, 1nat, args.len() - i,
{
    if i < 0 || i >= args.len() {
        Ok(LowerOut { lines: Seq::empty(), scope: sc, ars: ar })
    } else {
        match b_lower(args[i], None, sc, ar) {
            Err(e) => Err(e),
            Ok(eff) => cons_lines(eff.lines, b_items(args, i + 1, eff.scope, eff.ars)),
        }
    }
}

/// The whole compilation of one module-shaped root: a fresh scope, a root
/// destination symbol, and the lowered text; or the first error.
pub open spec fn b_compile(e: Expression, ar: Arities) -> Result<Seq<char>, LowerErr> {
    let sc0 = Seq::<(Seq<char>, Seq<char>)>::empty();
    let d0 = sym_target(sc0);
    let sc1 = sym_push(sc0);
    match b_lower(e, Some(d0), sc1, ar) {
        Ok(eff) => Ok(render_lines(eff.lines)),
        Err(err) => Err(err),
    }
}

/// Prepends collected symbols to a parameter-registration result.
pub open spec fn cons_ps(
    pre: Seq<Seq<char>>,
    r: Result<(ScopeModel, Seq<Seq<char>>), LowerErr>,
) -> Result<(ScopeModel, Seq<Seq<char>>), LowerErr> {
    match r {
        Ok((c, rest)) => Ok((c, pre + rest)),
        Err(e) => Err(e),
    }
}

proof fn lemma_cons_ps_empty(r: Result<(ScopeModel, Seq<Seq<char>>), LowerErr>)
    ensures
        cons_ps(Seq::empty(), r) == r,
{
    match r {
        Ok((c, rest)) => {
            assert(Seq::<Seq<char>>::empty() + rest =~= rest);
        },
        Err(_) => {},
    }
}

proof fn lemma_cons_ps_assoc(
    a: Seq<Seq<char>>,
    b: Seq<Seq<char>>,
    r: Result<(ScopeModel, Seq<Seq<char>>), LowerErr>,
)
    ensures
        cons_ps(a, cons_ps(b, r)) == cons_ps(a + b, r),
{
    match r {
        Ok((c, rest)) => {
            assert(a + (b + rest) =~= (a + b) + rest);
        },
        Err(_) => {},
    }
}

proof fn lemma_cons_args_empty(r: Result<IrArgsOut, LowerErr>)
    ensures
        cons_args(Seq::empty(), Seq::empty(), r) == r,
{
    match r {
        Ok(out) => {
            assert(Seq::<(nat, Seq<char>)>::empty() + out.lines =~= out.lines);
            assert(Seq::<Seq<char>>::empty() + out.syms =~= out.syms);
            assert(cons_args(Seq::empty(), Seq::empty(), r)->Ok_0 =~= out);
        },
        Err(_) => {},
    }
}

proof fn lemma_cons_args_assoc(
    a: Lines,
    pa: Seq<Seq<char>>,
    b: Lines,
    pb: Seq<Seq<char>>,
    r: Result<IrArgsOut, LowerErr>,
)
    ensures
        cons_args(a, pa, cons_args(b, pb, r)) == cons_args(a + b, pa + pb, r),
{
    match r {
        Ok(out) => {
            assert(a + (b + out.lines) =~= (a + b) + out.lines);
            assert(pa + (pb + out.syms) =~= (pa + pb) + out.syms);
            assert(cons_args(a, pa, cons_args(b, pb, r))->Ok_0 =~= cons_args(
                a + b,
                pa + pb,
                r,
            )->Ok_0);
        },
        Err(_) => {},
    }
}

proof fn lemma_plist_push(syms: Seq<Seq<char>>, s: Seq<char>)
    ensures
        plist_text(syms.push(s)) == if syms.len() == 0 {
            "i32 %"@ + s
        } else {
            plist_text(syms) + ", i32 %"@ + s
        },
{
    assert(syms.push(s).drop_last() =~= syms);
    assert(syms.push(s).last() == s);
    if syms.len() == 0 {
        assert(syms.push(s)[0] == s);
    }
}

/// How an executable lowering step must relate to its specification: on
/// success the emitted text, scope and arity table are exactly the
/// specified ones; on failure the specified error is returned; and failure
/// happens only where the specification fails.
pub open spec fn obeys_b(
    m: Result<LowerOut, LowerErr>,
    r: Result<(), CompileError>,
    t0: Seq<char>,
    t1: Seq<char>,
    sc1: ScopeModel,
    ar1: Arities,
) -> bool {
    &&& (r is Ok ==> (m matches Ok(eff) && t1 == t0 + render_lines(eff.lines) && sc1 == eff.scope
        && ar1 == eff.ars))
    &&& (r matches Err(e) ==> (m matches Err(me) && me == e@))
    &&& (m is Ok ==> r is Ok)
}

/// The SSA-IR backend: an append-only output buffer and the arity table of
/// the functions defined so far.
#[derive(Debug)]
pub struct LLVM {
    out: String,
    ars: Vec<(String, usize)>,
}

impl LLVM {
    /// The text accumulated in the output buffer.
    pub closed spec fn text(&self) -> Seq<char> {
        self.out@
    }

    /// The arity table of the functions defined so far.
    pub closed spec fn arities(&self) -> Arities {
        ar_model(self.ars@)
    }

    pub fn new() -> (b: Self)
        ensures
            b.text() == Seq::<char>::empty(),
            b.arities() == Seq::<(Seq<char>, nat)>::empty(),
    {
        let b = LLVM { out: String::new(), ars: Vec::new() };
        proof {
            assert(b.arities() =~= Seq::<(Seq<char>, nat)>::empty());
        }
        b
    }

    /// Appends one line to the output buffer at the given indentation depth.
    pub fn emit(&mut self, depth: usize, code: &str)
        ensures
            final(self).text() == old(self).text() + render_line((depth as nat, code@)),
            final(self).arities() == old(self).arities(),
    {
        let mut i: usize = 0;
        while i < depth
            invariant
                0 <= i <= depth,
                self.out@ == old(self).out@ + crate::text::tabs(i as nat),
                self.ars == old(self).ars,
            decreases depth - i,
        {
            self.out.append("\t");
            proof {
                reveal_strlit("\t");
                assert(crate::text::tabs((i + 1) as nat) =~= crate::text::tabs(i as nat)
                    + "\t"@);
                assert(old(self).out@ + crate::text::tabs(i as nat) + "\t"@ =~= old(self).out@
                    + crate::text::tabs((i + 1) as nat));
            }
            i += 1;
        }
        self.out.append(code);
        self.out.append("\n");
        proof {
            assert(self.out@ =~= old(self).out@ + render_line((depth as nat, code@)));
        }
    }

    /// Emits the atom-materializing assignment `%d = add i32 src, 0`.
    fn emit_atom(&mut self, d: &str, src: &str)
        ensures
            final(self).text() == old(self).text() + render_line((1nat, atom_text(d@, src@))),
            final(self).arities() == old(self).arities(),
    {
        let mut s: String = "%".to_owned();
        s.append(d);
        s.append(" = add i32 ");
        s.append(src);
        s.append(", 0");
        proof {
            assert(s@ =~= atom_text(d@, src@));
        }
        self.emit(1, s.as_str());
    }
}

impl LLVM {
    /// Lowers one expression so that its value is bound to the destination
    /// symbol.  A symbol absent from scope fails with an undefined reference
    /// before any code for the expression is emitted; float and boolean
    /// literals are unsupported and fatal.
    #[verifier::rlimit(60)]
    pub fn compile_expression(
        &mut self,
        arg: &Expression,
        destination: Option<&str>,
        scope: &mut Scope,
    ) -> (r: Result<(), CompileError>)
        ensures
            obeys_b(
                b_lower(*arg, opt_view(destination), old(scope)@, old(self).arities()),
                r,
                old(self).text(),
                final(self).text(),
                final(scope)@,
                final(self).arities(),
            ),
            r is Err && !(arg matches Expression::List(_)) ==> final(self).text() == old(
                self,
            ).text() && final(scope)@ == old(scope)@ && final(self).arities() == old(
                self,
            ).arities(),
        decreases *arg, 3nat, 0nat,
    {
        match arg {
            Expression::List(items) => {
                if items.len() == 0 {
                    return Err(CompileError::Malformed("empty list".to_owned()));
                }
                match &items[0] {
                    Expression::Symbol(op) => {
                        let rest = items.as_slice().split_at(1).1;
                        proof {
                            assert(rest@ =~= items@.subrange(1, items@.len() as int));
                        }
                        self.compile_call(op.as_str(), rest, destination, scope)
                    },
                    _ => Err(CompileError::Malformed("first list item is not a symbol".to_owned())),
                }
            },
            Expression::Symbol(symbol) => {
                let looked = scope.get(symbol.as_str());
                match looked {
                    Some(name) => {
                        match destination {
                            Some(d) => {
                                let mut src: String = "%".to_owned();
                                src.append(name.as_str());
                                proof {
                                    assert(src@ =~= "%"@ + name@);
                                }
                                self.emit_atom(d, src.as_str());
                                proof {
                                    lemma_render_singleton((1nat, atom_text(d@, "%"@ + name@)));
                                }
                            },
                            None => {
                                proof {
                                    assert(self.text() + render_lines(
                                        Seq::<(nat, Seq<char>)>::empty(),
                                    ) =~= self.text());
                                }
                            },
                        }
                        Ok(())
                    },
                    None => Err(CompileError::UndefinedReference(symbol.clone())),
                }
            },
            Expression::Integer(n) => {
                match destination {
                    Some(d) => {
                        let t = i32_to_string(*n);
                        self.emit_atom(d, t.as_str());
                        proof {
                            lemma_render_singleton((1nat, atom_text(d@, int_text(*n as int))));
                        }
                    },
                    None => {
                        proof {
                            assert(self.text() + render_lines(Seq::<(nat, Seq<char>)>::empty())
                                =~= self.text());
                        }
                    },
                }
                Ok(())
            },
            Expression::Float => Err(CompileError::UnsupportedLiteral),
            Expression::Boolean(_) => Err(CompileError::UnsupportedLiteral),
        }
    }

    /// An arithmetic primitive: two fresh temporaries, one operand lowered
    /// into each, then one instruction computing the destination symbol.
    #[verifier::rlimit(80)]
    fn compile_arith(
        &mut self,
        op: ArithOp,
        args: &[Expression],
        destination: Option<&str>,
        scope: &mut Scope,
    ) -> (r: Result<(), CompileError>)
        ensures
            obeys_b(
                b_arith(op, args@, opt_view(destination), old(scope)@, old(self).arities()),
                r,
                old(self).text(),
                final(self).text(),
                final(scope)@,
                final(self).arities(),
            ),
        decreases args@, 2nat, 0nat,
    {
        if args.len() != 2 {
            return Err(
                CompileError::Malformed("arithmetic operators take exactly two operands".to_owned()),
            );
        }
        let ghost t0 = self.text();
        let ghost sc0 = scope@;
        let ghost ar0 = self.arities();
        let arg1 = scope.symbol(None);
        let arg2 = scope.symbol(None);
        proof {
            assert(arg1@ == sym_target(sc0));
            assert(arg2@ == sym_target(sym_push(sc0)));
            assert(scope@ == sym_push(sym_push(sc0)));
        }
        match self.compile_expression(&args[0], Some(arg1.as_str()), scope) {
            Err(e) => {
                return Err(e);
            },
            Ok(()) => {},
        }
        let ghost eff1 = b_lower(args@[0], Some(arg1@), sym_push(sym_push(sc0)), ar0)->Ok_0;
        match self.compile_expression(&args[1], Some(arg2.as_str()), scope) {
            Err(e) => {
                return Err(e);
            },
            Ok(()) => {},
        }
        let ghost eff2 = b_lower(args@[1], Some(arg2@), eff1.scope, eff1.ars)->Ok_0;
        let dname: String = match destination {
            Some(d) => d.to_owned(),
            None => scope.symbol(None),
        };
        let mut s: String = "%".to_owned();
        s.append(dname.as_str());
        s.append(" = ");
        s.append(match op {
            ArithOp::Add => "add",
            ArithOp::Sub => "sub",
            ArithOp::Mul => "mul",
        });
        s.append(" i32 %");
        s.append(arg1.as_str());
        s.append(", %");
        s.append(arg2.as_str());
        proof {
            assert(s@ =~= bin_assign_text(dname@, op, arg1@, arg2@));
        }
        self.emit(1, s.as_str());
        proof {
            let whole = eff1.lines + eff2.lines + seq![
                (1nat, bin_assign_text(dname@, op, arg1@, arg2@)),
            ];
            lemma_render_singleton((1nat, bin_assign_text(dname@, op, arg1@, arg2@)));
            lemma_render_lines_concat(eff1.lines, eff2.lines);
            lemma_render_lines_concat(eff1.lines + eff2.lines, seq![
                (1nat, bin_assign_text(dname@, op, arg1@, arg2@)),
            ]);
            assert(self.text() =~= t0 + render_lines(whole));
        }
        Ok(())
    }

    /// Call dispatch: `def`, `module` and the arithmetic primitives receive
    /// the raw unevaluated argument expressions; any other operator must
    /// already resolve through the scope to a defined function of matching
    /// arity.
    #[verifier::rlimit(90)]
    pub fn compile_call(
        &mut self,
        function: &str,
        args: &[Expression],
        destination: Option<&str>,
        scope: &mut Scope,
    ) -> (r: Result<(), CompileError>)
        ensures
            obeys_b(
                b_dispatch(
                    function@,
                    args@,
                    opt_view(destination),
                    old(scope)@,
                    old(self).arities(),
                ),
                r,
                old(self).text(),
                final(self).text(),
                final(scope)@,
                final(self).arities(),
            ),
        decreases args@, 3nat, 0nat,
    {
        if str_eq(function, "def") {
            return self.compile_define(args, destination, scope);
        }
        if str_eq(function, "module") {
            return self.compile_module(args, destination, scope);
        }
        if str_eq(function, "+") {
            return self.compile_arith(ArithOp::Add, args, destination, scope);
        }
        if str_eq(function, "-") {
            return self.compile_arith(ArithOp::Sub, args, destination, scope);
        }
        if str_eq(function, "*") {
            return self.compile_arith(ArithOp::Mul, args, destination, scope);
        }
        let looked = scope.get(function);
        let target = match looked {
            Some(t) => t,
            None => {
                return Err(CompileError::UndefinedReference(function.to_owned()));
            },
        };
        let arity = match arity_of(&self.ars, target.as_str()) {
            Some(k) => k,
            None => {
                return Err(CompileError::UndefinedReference(function.to_owned()));
            },
        };
        if arity != args.len() {
            return Err(
                CompileError::Malformed("call arity does not match the definition".to_owned()),
            );
        }
        let k = args.len();
        let ghost t0 = self.text();
        let ghost sc0 = scope@;
        let ghost ar0 = self.arities();
        let ghost mut done: Lines = Seq::empty();
        let ghost mut dsyms: Seq<Seq<char>> = Seq::empty();
        let mut safe_args: String = String::new();
        proof {
            lemma_cons_args_empty(b_cargs(args@, 0, sc0, ar0));
            assert(t0 + render_lines(done) =~= t0);
            assert(plist_text(dsyms) =~= Seq::<char>::empty());
        }
        let mut j: usize = 0;
        while j < k
            invariant
                0 <= j <= k,
                k == args@.len(),
                sc0 == old(scope)@,
                ar0 == old(self).arities(),
                t0 == old(self).text(),
                function@ != "def"@,
                function@ != "module"@,
                function@ != "+"@,
                function@ != "-"@,
                function@ != "*"@,
                scope_lookup(sc0, function@) == Some(target@),
                ar_lookup(ar0, target@) == Some(k as nat),
                b_cargs(args@, 0, sc0, ar0) == cons_args(
                    done,
                    dsyms,
                    b_cargs(args@, j as int, scope@, self.arities()),
                ),
                self.text() == t0 + render_lines(done),
                safe_args@ == plist_text(dsyms),
                dsyms.len() == j,
            decreases k - j,
        {
            let ghost scj = scope@;
            let ghost arj = self.arities();
            let sym = scope.symbol(None);
            proof {
                assert(sym@ == sym_target(scj));
                assert(scope@ == sym_push(scj));
            }
            match self.compile_expression(&args[j], Some(sym.as_str()), scope) {
                Err(e) => {
                    proof {
                        assert(b_cargs(args@, j as int, scj, arj) == Err::<IrArgsOut, LowerErr>(
                            e@,
                        ));
                        assert(b_cargs(args@, 0, sc0, ar0) == Err::<IrArgsOut, LowerErr>(e@));
                    }
                    return Err(e);
                },
                Ok(()) => {},
            }
            if j == 0 {
                safe_args.append("i32 %");
                safe_args.append(sym.as_str());
                proof {
                    assert(safe_args@ =~= "i32 %"@ + sym@);
                }
            } else {
                safe_args.append(", i32 %");
                safe_args.append(sym.as_str());
                proof {
                    assert(safe_args@ =~= plist_text(dsyms) + ", i32 %"@ + sym@);
                }
            }
            proof {
                let eff = b_lower(args@[j as int], Some(sym@), sym_push(scj), arj)->Ok_0;
                lemma_cons_args_assoc(
                    done,
                    dsyms,
                    eff.lines,
                    seq![sym@],
                    b_cargs(args@, j + 1, eff.scope, eff.ars),
                );
                lemma_render_lines_concat(done, eff.lines);
                assert(t0 + render_lines(done) + render_lines(eff.lines) =~= t0 + render_lines(
                    done + eff.lines,
                ));
                lemma_plist_push(dsyms, sym@);
                assert(dsyms.push(sym@) =~= dsyms + seq![sym@]);
                assert(safe_args@ == plist_text(dsyms.push(sym@)));
                done = done + eff.lines;
                dsyms = dsyms + seq![sym@];
            }
            j += 1;
        }
        let ghost argout = b_cargs(args@, 0, sc0, ar0)->Ok_0;
        proof {
            assert(done + Seq::<(nat, Seq<char>)>::empty() =~= done);
            assert(dsyms + Seq::<Seq<char>>::empty() =~= dsyms);
            assert(argout.lines =~= done);
            assert(argout.syms =~= dsyms);
        }
        let dname: String = match destination {
            Some(d) => d.to_owned(),
            None => scope.symbol(None),
        };
        let mut s: String = "%".to_owned();
        s.append(dname.as_str());
        s.append(" = call i32 @");
        s.append(target.as_str());
        s.append("(");
        s.append(safe_args.as_str());
        s.append(")");
        proof {
            assert(s@ =~= call_assign_text(dname@, target@, argout.syms));
        }
        self.emit(1, s.as_str());
        proof {
            lemma_render_singleton((1nat, call_assign_text(dname@, target@, argout.syms)));
            lemma_render_lines_concat(argout.lines, seq![
                (1nat, call_assign_text(dname@, target@, argout.syms)),
            ]);
            assert(self.text() =~= t0 + render_lines(argout.lines + seq![
                (1nat, call_assign_text(dname@, target@, argout.syms)),
            ]));
        }
        Ok(())
    }

    /// The `module` primitive: lowers each top-level form independently with
    /// its value discarded.
    #[verifier::rlimit(60)]
    pub fn compile_module(
        &mut self,
        args: &[Expression],
        _destination: Option<&str>,
        scope: &mut Scope,
    ) -> (r: Result<(), CompileError>)
        ensures
            obeys_b(
                b_items(args@, 0, old(scope)@, old(self).arities()),
                r,
                old(self).text(),
                final(self).text(),
                final(scope)@,
                final(self).arities(),
            ),
        decreases args@, 2nat, 0nat,
    {
        let ghost t0 = self.text();
        let ghost sc0 = scope@;
        let ghost ar0 = self.arities();
        let ghost mut done: Lines = Seq::empty();
        proof {
            lemma_cons_lines_empty(b_items(args@, 0, sc0, ar0));
            assert(t0 + render_lines(done) =~= t0);
        }
        let mut i: usize = 0;
        while i < args.len()
            invariant
                0 <= i <= args@.len(),
                sc0 == old(scope)@,
                ar0 == old(self).arities(),
                t0 == old(self).text(),
                b_items(args@, 0, sc0, ar0) == cons_lines(
                    done,
                    b_items(args@, i as int, scope@, self.arities()),
                ),
                self.text() == t0 + render_lines(done),
            decreases args@.len() - i,
        {
            let ghost sci = scope@;
            let ghost ari = self.arities();
            match self.compile_expression(&args[i], None, scope) {
                Err(e) => {
                    proof {
                        assert(b_items(args@, i as int, sci, ari) == Err::<LowerOut, LowerErr>(
                            e@,
                        ));
                        assert(b_items(args@, 0, sc0, ar0) == Err::<LowerOut, LowerErr>(e@));
                    }
                    return Err(e);
                },
                Ok(()) => {},
            }
            proof {
                let eff = b_lower(args@[i as int], None, sci, ari)->Ok_0;
                lemma_cons_lines_assoc(done, eff.lines, b_items(args@, i + 1, eff.scope, eff.ars));
                lemma_render_lines_concat(done, eff.lines);
                assert(t0 + render_lines(done) + render_lines(eff.lines) =~= t0 + render_lines(
                    done + eff.lines,
                ));
                done = done + eff.lines;
            }
            i += 1;
        }
        proof {
            assert(done + Seq::<(nat, Seq<char>)>::empty() =~= done);
            let eff = b_items(args@, 0, sc0, ar0)->Ok_0;
            assert(eff.lines =~= done);
        }
        Ok(())
    }
}

impl LLVM {
    /// The `def` primitive: `(def NAME (PARAM...) BODY)`.  The name lands in
    /// the enclosing scope; the parameters, the return-value symbol and
    /// everything the body registers live only in a forked child scope that
    /// is discarded with the definition.
    #[verifier::rlimit(90)]
    pub fn compile_define(
        &mut self,
        args: &[Expression],
        _destination: Option<&str>,
        scope: &mut Scope,
    ) -> (r: Result<(), CompileError>)
        ensures
            obeys_b(
                b_define(args@, old(scope)@, old(self).arities()),
                r,
                old(self).text(),
                final(self).text(),
                final(scope)@,
                final(self).arities(),
            ),
        decreases args@, 2nat, 0nat,
    {
        if args.len() != 3 {
            return Err(
                CompileError::Malformed("def takes a name, a parameter list and a body".to_owned()),
            );
        }
        let name = match &args[0] {
            Expression::Symbol(n) => n,
            _ => {
                return Err(
                    CompileError::Malformed("first item must be a symbol in def".to_owned()),
                );
            },
        };
        let params = match &args[1] {
            Expression::List(p) => p,
            _ => {
                return Err(
                    CompileError::Malformed("second item must be a list in def".to_owned()),
                );
            },
        };
        match &args[2] {
            Expression::List(_) => {},
            _ => {
                return Err(
                    CompileError::Malformed("third item must be a list in def".to_owned()),
                );
            },
        };
        let ghost t0 = self.text();
        let ghost sc0 = scope@;
        let ghost ar0 = self.arities();
        let target = scope.register(name.clone());
        let ghost sc1 = scope@;
        self.ars.push((target.clone(), params.len()));
        let ghost ar1 = self.arities();
        proof {
            assert(ar1 =~= ar0.push((target@, params@.len() as nat)));
        }
        let mut child = scope.copy();
        let ghost mut psyms: Seq<Seq<char>> = Seq::empty();
        let mut safe_params: String = String::new();
        proof {
            lemma_cons_ps_empty(b_params(params@, 0, sc1));
            assert(plist_text(psyms) =~= Seq::<char>::empty());
        }
        let mut i: usize = 0;
        while i < params.len()
            invariant
                0 <= i <= params@.len(),
                sc0 == old(scope)@,
                ar0 == old(self).arities(),
                t0 == old(self).text(),
                args@.len() == 3,
                args@[0] == Expression::Symbol(*name),
                args@[1] == Expression::List(*params),
                args@[2] is List,
                target@ == reg_target(sc0, safe_seq(name@)),
                sc1 == reg_push(sc0, name@),
                ar1 == ar0.push((target@, params@.len() as nat)),
                b_params(params@, 0, sc1) == cons_ps(psyms, b_params(params@, i as int, child@)),
                self.text() == t0,
                self.arities() == ar1,
                scope@ == sc1,
                safe_params@ == plist_text(psyms),
                psyms.len() == i,
            decreases params@.len() - i,
        {
            let p = match &params[i] {
                Expression::Symbol(p) => p,
                _ => {
                    proof {
                        assert(b_params(params@, i as int, child@) == Err::<
                            (ScopeModel, Seq<Seq<char>>),
                            LowerErr,
                        >(LowerErr::Malformed));
                        assert(b_params(params@, 0, sc1) == Err::<
                            (ScopeModel, Seq<Seq<char>>),
                            LowerErr,
                        >(LowerErr::Malformed));
                    }
                    return Err(
                        CompileError::Malformed("function parameters must be symbols".to_owned()),
                    );
                },
            };
            let ghost childi = child@;
            let psym = child.register(p.clone());
            if i == 0 {
                safe_params.append("i32 %");
                safe_params.append(psym.as_str());
                proof {
                    assert(safe_params@ =~= "i32 %"@ + psym@);
                }
            } else {
                safe_params.append(", i32 %");
                safe_params.append(psym.as_str());
                proof {
                    assert(safe_params@ =~= plist_text(psyms) + ", i32 %"@ + psym@);
                }
            }
            proof {
                assert(psym@ == reg_target(childi, safe_seq(p@)));
                lemma_cons_ps_assoc(
                    psyms,
                    seq![psym@],
                    b_params(params@, i + 1, reg_push(childi, p@)),
                );
                lemma_plist_push(psyms, psym@);
                assert(psyms.push(psym@) =~= psyms + seq![psym@]);
                assert(safe_params@ == plist_text(psyms.push(psym@)));
                psyms = psyms + seq![psym@];
            }
            i += 1;
        }
        let ghost bp = b_params(params@, 0, sc1)->Ok_0;
        proof {
            assert(psyms + Seq::<Seq<char>>::empty() =~= psyms);
            assert(bp.1 =~= psyms);
            assert(bp.0 == child@);
        }
        let mut header: String = "define i32 @".to_owned();
        header.append(target.as_str());
        header.append("(");
        header.append(safe_params.as_str());
        header.append(") {");
        proof {
            assert(header@ =~= define_text(target@, psyms));
        }
        self.emit(0, header.as_str());
        let ghost t1 = self.text();
        let ghost childp = child@;
        let rets = child.symbol(None);
        proof {
            assert(rets@ == sym_target(childp));
            assert(child@ == sym_push(childp));
        }
        match self.compile_expression(&args[2], Some(rets.as_str()), &mut child) {
            Err(e) => {
                return Err(e);
            },
            Ok(()) => {},
        }
        let ghost effb = b_lower(args@[2], Some(rets@), sym_push(childp), ar1)->Ok_0;
        let mut retline: String = "ret i32 %".to_owned();
        retline.append(rets.as_str());
        proof {
            assert(retline@ =~= ret_text(rets@));
        }
        self.emit(1, retline.as_str());
        self.emit(0, "}\n");
        proof {
            let tail = seq![(1nat, ret_text(rets@)), (0nat, "}\n"@)];
            let whole = seq![(0nat, define_text(target@, psyms))] + effb.lines + tail;
            lemma_render_singleton((0nat, define_text(target@, psyms)));
            lemma_render_singleton((1nat, ret_text(rets@)));
            assert(tail.drop_last() =~= seq![(1nat, ret_text(rets@))]);
            assert(render_lines(tail) == render_lines(tail.drop_last()) + render_line(
                tail.last(),
            ));
            lemma_render_lines_concat(seq![(0nat, define_text(target@, psyms))], effb.lines);
            lemma_render_lines_concat(
                seq![(0nat, define_text(target@, psyms))] + effb.lines,
                tail,
            );
            assert(self.text() =~= t0 + render_lines(whole));
        }
        Ok(())
    }

    /// Compiles one module-shaped root into complete target text: a fresh
    /// scope, a root destination symbol, and the lowered code.  On any
    /// lowering error no text is returned.
    #[verifier::rlimit(60)]
    pub fn compile(&mut self, ast: &Expression) -> (r: Result<String, CompileError>)
        ensures
            ({
                let m = b_compile(*ast, old(self).arities());
                match r {
                    Ok(s) => m matches Ok(t) && s@ == old(self).text() + t && final(self).text()
                        == old(self).text() + t,
                    Err(e) => m matches Err(me) && me == e@,
                }
            }),
            (b_compile(*ast, old(self).arities()) is Ok) == (r is Ok),
    {
        let mut scope = Scope::new();
        let destination = scope.symbol(None);
        proof {
            assert(destination@ == sym_target(Seq::<(Seq<char>, Seq<char>)>::empty()));
            assert(scope@ == sym_push(Seq::<(Seq<char>, Seq<char>)>::empty()));
        }
        match self.compile_expression(ast, Some(destination.as_str()), &mut scope) {
            Err(e) => Err(e),
            Ok(()) => Ok(self.out.clone()),
        }
    }
}

} // verus!
