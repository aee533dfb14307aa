use vstd::prelude::*;
use vstd::string::*;
use crate::ast::{ArithOp, Expression};
use crate::error::{CompileError, LowerErr};
use crate::scope::{
    has_target, reg_push, reg_target, safe_seq, scope_lookup, str_eq, Scope, ScopeModel,
};
use crate::text::{
    ar_lookup, ar_model, arity_of, cons_lines, i32_to_string, int_text, lemma_cons_lines_assoc,
    lemma_cons_lines_empty, lemma_render_lines_concat, lemma_render_lines_push,
    lemma_render_singleton, lemma_render_take_step, render_line, render_lines, tabs, Arities,
    Lines, LowerOut,
};

verus! {

// The register-machine backend.  Values are locations: a physical register
// name or a decimal literal encoded inline.  Three registers pass arguments,
// a disjoint set of three survives calls inside a function body, `rax`
// carries every intermediate result, and the stack protects values across
// nested lowering.

/// The registers the generated code touches.
#[derive(Debug, Clone, Copy, PartialEq, Eq, Structural)]
pub enum Reg {
    Rdi,
    Rsi,
    Rdx,
    Rbx,
    Rbp,
    R12,
    Rax,
    Rcx,
}

/// The textual name of a register.
pub open spec fn reg_text(r: Reg) -> Seq<char> {
    match r {
        Reg::Rdi => "rdi"@,
        Reg::Rsi => "rsi"@,
        Reg::Rdx => "rdx"@,
        Reg::Rbx => "rbx"@,
        Reg::Rbp => "rbp"@,
        Reg::R12 => "r12"@,
        Reg::Rax => "rax"@,
        Reg::Rcx => "rcx"@,
    }
}

/// The register carrying the `i`-th argument of a call.
pub open spec fn spec_param_reg(i: int) -> Reg {
    if i == 0 {
        Reg::Rdi
    } else if i == 1 {
        Reg::Rsi
    } else {
        Reg::Rdx
    }
}

/// The call-surviving register preserved for the `i`-th parameter.
pub open spec fn spec_local_reg(i: int) -> Reg {
    if i == 0 {
        Reg::Rbx
    } else if i == 1 {
        Reg::Rbp
    } else {
        Reg::R12
    }
}

/// How many arguments the calling convention can pass in registers.
pub open spec fn param_capacity() -> nat {
    3
}

/// The textual form of the arithmetic instructions.
pub open spec fn op_text(op: ArithOp) -> Seq<char> {
    match op {
        ArithOp::Add => "add"@,
        ArithOp::Sub => "sub"@,
        ArithOp::Mul => "imul"@,
    }
}

pub open spec fn mov_text(d: Reg, src: Seq<char>) -> Seq<char> {
    "mov "@ + reg_text(d) + ", "@ + src
}

pub open spec fn push_text(r: Reg) -> Seq<char> {
    "push "@ + reg_text(r)
}

pub open spec fn pop_text(r: Reg) -> Seq<char> {
    "pop "@ + reg_text(r)
}

pub open spec fn call_text(target: Seq<char>) -> Seq<char> {
    "call "@ + target
}

pub open spec fn bin_text(op: ArithOp, a: Reg, b: Reg) -> Seq<char> {
    op_text(op) + " "@ + reg_text(a) + ", "@ + reg_text(b)
}

pub open spec fn label_text(target: Seq<char>) -> Seq<char> {
    target + ":"@
}

/// The move of the accumulator into the destination, when one is wanted and
/// differs from the accumulator itself.
pub open spec fn dst_lines(dst: Option<Reg>) -> Lines {
    match dst {
        Some(d) => if d == Reg::Rax {
            Seq::empty()
        } else {
            seq![(1nat, mov_text(d, reg_text(Reg::Rax)))]
        },
        None => Seq::empty(),
    }
}

/// Saves of the argument registers a call is about to load.
pub open spec fn save_lines(k: nat) -> Lines {
    Seq::new(k, |i: int| (1nat, push_text(spec_param_reg(i))))
}

/// Pops of the argument registers in reverse positional order; used both to
/// load lowered arguments into place and to restore the saved registers.
pub open spec fn pop_params_rev(k: nat) -> Lines {
    Seq::new(k, |i: int| (1nat, pop_text(spec_param_reg(k - 1 - i))))
}

/// Function prologue: for each parameter, preserve its call-surviving
/// register and copy the incoming argument register into it.
pub open spec fn prologue_lines(k: nat) -> Lines {
    Seq::new(
        2 * k,
        |i: int|
            if i % 2 == 0 {
                (1nat, push_text(spec_local_reg(i / 2)))
            } else {
                (1nat, mov_text(spec_local_reg(i / 2), reg_text(spec_param_reg(i / 2))))
            },
    )
}

/// Function epilogue: restore the preserved registers in reverse order, then
/// return.
pub open spec fn epilogue_lines(k: nat) -> Lines {
    Seq::new(k, |i: int| (1nat, pop_text(spec_local_reg(k - 1 - i)))) + seq![(1nat, "ret\n"@)]
}

/// The fixed scaffold emitted before any lowered code.
pub open spec fn prefix_text() -> Seq<char> {
    "; Generated with ulisp\n;\n; To compile run the following:\n; $ nasm -f elf64 program.asm\n; $ gcc -o program program.o\n\n\tglobal main\n\n\tSECTION .text\n\n"@
}

/// The fixed startup scaffold emitted after the lowered code: the toolchain
/// entry point calls the renamed user entry function and forwards its return
/// value as the process exit status (`60` is the exit system call of the
/// target platform).
pub open spec fn postfix_text() -> Seq<char> {
    "main:\n\tcall program_main\n\tmov rdi, rax\n\tmov rax, 60\n\tsyscall\n"@
}

/// Lowering of one expression: the emitted lines leave the value of `e` in
/// `dst` (no lines are needed when the destination is absent and the value
/// is discarded), and the scope and arity table are handed on.
pub open spec fn a_lower(e: Expression, dst: Option<Reg>, sc: ScopeModel, ar: Arities) -> Result<
    LowerOut,
    LowerErr,
>
    decreases e, 0nat, 0nat,
{
    match e {
        Expression::Integer(n) => Ok(
            LowerOut {
                lines: match dst {
                    Some(d) => seq![(1nat, mov_text(d, int_text(n as int)))],
                    None => Seq::empty(),
                },
                scope: sc,
                ars: ar,
            },
        ),
        Expression::Symbol(s) => match scope_lookup(sc, s@) {
            Some(loc) => Ok(
                LowerOut {
                    lines: match dst {
                        Some(d) => seq![(1nat, mov_text(d, loc))],
                        None => Seq::empty(),
                    },
                    scope: sc,
                    ars: ar,
                },
            ),
            None => Err(LowerErr::Undefined(s@)),
        },
        Expression::Float => Err(LowerErr::Unsupported),
        Expression::Boolean(_) => Err(LowerErr::Unsupported),
        Expression::List(items) => {
            if items@.len() == 0 {
                Err(LowerErr::Malformed)
            } else {
                match items@[0] {
                    Expression::Symbol(op) => a_dispatch(
                        op@,
                        items@.subrange(1, items@.len() as int),
                        dst,
                        sc,
                        ar,
                    ),
                    _ => Err(LowerErr::Malformed),
                }
            }
        },
    }
}

/// Call dispatch: primitives first, with the raw unevaluated argument
/// expressions; otherwise the operator must resolve through the scope to a
/// defined function of matching arity.
pub open spec fn a_dispatch(
    op: Seq<char>,
    args: Seq<Expression>,
    dst: Option<Reg>,
    sc: ScopeModel,
    ar: Arities,
) -> Result<LowerOut, LowerErr>
    decreases args, 3nat, 0nat,
{
    if op == "def"@ {
        a_define(args, sc, ar)
    } else if op == "module"@ {
        a_module(args, dst, sc, ar)
    } else if op == "+"@ {
        a_arith(ArithOp::Add, args, dst, sc, ar)
    } else if op == "-"@ {
        a_arith(ArithOp::Sub, args, dst, sc, ar)
    } else if op == "*"@ {
        a_arith(ArithOp::Mul, args, dst, sc, ar)
    } else {
        match scope_lookup(sc, op) {
            None => Err(LowerErr::Undefined(op)),
            Some(target) => match ar_lookup(ar, target) {
                None => Err(LowerErr::Undefined(op)),
                Some(arity) => {
                    if arity != args.len() {
                        Err(LowerErr::Malformed)
                    } else if args.len() > param_capacity() {
                        Err(LowerErr::Malformed)
                    } else {
                        match a_args(args, 0, sc, ar) {
                            Ok(eff) => Ok(
                                LowerOut {
                                    lines: save_lines(args.len() as nat) + eff.lines
                                        + pop_params_rev(args.len() as nat) + seq![
                                        (1nat, call_text(target)),
                                    ] + pop_params_rev(args.len() as nat) + dst_lines(dst),
                                    scope: eff.scope,
                                    ars: eff.ars,
                                },
                            ),
                            Err(e) => Err(e),
                        }
                    }
                },
            },
        }
    }
}

/// An arithmetic primitive: exactly two operands, each lowered into the
/// accumulator and protected on the stack, then one binary instruction.
pub open spec fn a_arith(
    op: ArithOp,
    args: Seq<Expression>,
    dst: Option<Reg>,
    sc: ScopeModel,
    ar: Arities,
) -> Result<LowerOut, LowerErr>
    decreases args, 2nat, 0nat,
{
    if args.len() != 2 {
        Err(LowerErr::Malformed)
    } else {
        match a_lower(args[0], Some(Reg::Rax), sc, ar) {
            Err(e) => Err(e),
            Ok(eff1) => match a_lower(args[1], Some(Reg::Rax), eff1.scope, eff1.ars) {
                Err(e) => Err(e),
                Ok(eff2) => Ok(
                    LowerOut {
                        lines: eff1.lines + seq![(1nat, push_text(Reg::Rax))] + eff2.lines + seq![
                            (1nat, mov_text(Reg::Rcx, reg_text(Reg::Rax))),
                            (1nat, pop_text(Reg::Rax)),
                            (1nat, bin_text(op, Reg::Rax, Reg::Rcx)),
                        ] + dst_lines(dst),
                        scope: eff2.scope,
                        ars: eff2.ars,
                    },
                ),
            },
        }
    }
}

/// Binds each parameter symbol to its call-surviving register in the child
/// scope; a non-symbol parameter, or a register name already in use as a
/// target, is a structural error.
pub open spec fn a_bind_params(params: Seq<Expression>, i: int, child: ScopeModel) -> Result<
    ScopeModel,
    LowerErr,
>
    decreases params.len() - i,
{
    if i < 0 || i >= params.len() {
        Ok(child)
    } else {
        match params[i] {
            Expression::Symbol(p) => {
                if has_target(child, reg_text(spec_local_reg(i))) {
                    Err(LowerErr::Malformed)
                } else {
                    a_bind_params(params, i + 1, child.push((p@, reg_text(spec_local_reg(i)))))
                }
            },
            _ => Err(LowerErr::Malformed),
        }
    }
}

/// The `def` primitive: `(def NAME (PARAM...) BODY)`.  The name is
/// registered in the enclosing scope; the parameters and everything the body
/// registers live only in a forked child scope.
pub open spec fn a_define(args: Seq<Expression>, sc: ScopeModel, ar: Arities) -> Result<
    LowerOut,
    LowerErr,
>
    decreases args, 2nat, 0nat,
{
    if args.len() != 3 {
        Err(LowerErr::Malformed)
    } else {
        match (args[0], args[1], args[2]) {
            (Expression::Symbol(name), Expression::List(params), Expression::List(_)) => {
                if params@.len() > param_capacity() {
                    Err(LowerErr::Malformed)
                } else {
                    let renamed = name@ == "main"@;
                    if renamed && has_target(sc, "program_main"@) {
                        Err(LowerErr::Malformed)
                    } else {
                        let target = if renamed {
                            "program_main"@
                        } else {
                            reg_target(sc, safe_seq(name@))
                        };
                        let sc1 = if renamed {
                            sc.push((name@, "program_main"@))
                        } else {
                            reg_push(sc, name@)
                        };
                        let ar1 = ar.push((target, params@.len() as nat));
                        match a_bind_params(params@, 0, sc1) {
                            Err(e) => Err(e),
                            Ok(child) => match a_lower(args[2], Some(Reg::Rax), child, ar1) {
                                Err(e) => Err(e),
                                Ok(effb) => Ok(
                                    LowerOut {
                                        lines: seq![(0nat, label_text(target))] + prologue_lines(
                                            params@.len() as nat,
                                        ) + effb.lines + epilogue_lines(params@.len() as nat),
                                        scope: sc1,
                                        ars: effb.ars,
                                    },
                                ),
                            },
                        }
                    }
                }
            },
            _ => Err(LowerErr::Malformed),
        }
    }
}

/// The `module` primitive: each top-level form is lowered independently
/// into the accumulator, then the last value is moved to the destination if
/// one is wanted.
pub open spec fn a_module(
    args: Seq<Expression>,
    dst: Option<Reg>,
    sc: ScopeModel,
    ar: Arities,
) -> Result<LowerOut, LowerErr>
    decreases args, 2nat, 0nat,
{
    match a_items(args, 0, sc, ar) {
        Ok(eff) => Ok(LowerOut { lines: eff.lines + dst_lines(dst), scope: eff.scope, ars: eff.ars }),
        Err(e) => Err(e),
    }
}

/// One step of `module`: the forms from position `i` on, threading the scope
/// and arity table in order.
pub open spec fn a_items(args: Seq<Expression>, i: int, sc: ScopeModel, ar: Arities) -> Result<
    LowerOut,
    LowerErr,
>
    decreases args, 1nat, args.len() - i,
{
    if i < 0 || i >= args.len() {
        Ok(LowerOut { lines: Seq::empty(), scope: sc, ars: ar })
    } else {
        match a_lower(args[i], Some(Reg::Rax), sc, ar) {
            Err(e) => Err(e),
            Ok(eff) => cons_lines(eff.lines, a_items(args, i + 1, eff.scope, eff.ars)),
        }
    }
}

/// Call-argument lowering: each argument lands in the accumulator and is
/// pushed, left to right.
pub open spec fn a_args(args: Seq<Expression>, i: int, sc: ScopeModel, ar: Arities) -> Result<
    LowerOut,
    LowerErr,
>
    decreases args, 1nat, args.len() - i,
{
    if i < 0 || i >= args.len() {
        Ok(LowerOut { lines: Seq::empty(), scope: sc, ars: ar })
    } else {
        match a_lower(args[i], Some(Reg::Rax), sc, ar) {
            Err(e) => Err(e),
            Ok(eff) => cons_lines(
                eff.lines + seq![(1nat, push_text(Reg::Rax))],
                a_args(args, i + 1, eff.scope, eff.ars),
            ),
        }
    }
}

/// The whole compilation of one module-shaped root: scaffold, lowered code,
/// startup scaffold; or the first error.
pub open spec fn a_compile(e: Expression, ar: Arities) -> Result<Seq<char>, LowerErr> {
    match a_lower(e, None, Seq::empty(), ar) {
        Ok(eff) => Ok(prefix_text() + render_lines(eff.lines) + postfix_text()),
        Err(err) => Err(err),
    }
}

/// The textual name of a register.
pub fn reg_str(r: Reg) -> (s: &'static str)
    ensures
        s@ == reg_text(r),
{
    match r {
        Reg::Rdi => "rdi",
        Reg::Rsi => "rsi",
        Reg::Rdx => "rdx",
        Reg::Rbx => "rbx",
        Reg::Rbp => "rbp",
        Reg::R12 => "r12",
        Reg::Rax => "rax",
        Reg::Rcx => "rcx",
    }
}

fn param_reg(i: usize) -> (r: Reg)
    requires
        i < 3,
    ensures
        r == spec_param_reg(i as int),
{
    if i == 0 {
        Reg::Rdi
    } else if i == 1 {
        Reg::Rsi
    } else {
        Reg::Rdx
    }
}

fn local_reg(i: usize) -> (r: Reg)
    requires
        i < 3,
    ensures
        r == spec_local_reg(i as int),
{
    if i == 0 {
        Reg::Rbx
    } else if i == 1 {
        Reg::Rbp
    } else {
        Reg::R12
    }
}

fn op_str(op: ArithOp) -> (s: &'static str)
    ensures
        s@ == op_text(op),
{
    match op {
        ArithOp::Add => "add",
        ArithOp::Sub => "sub",
        ArithOp::Mul => "imul",
    }
}

/// The register-machine backend: an append-only output buffer and the arity
/// table of the functions defined so far.
#[derive(Debug)]
pub struct X86 {
    out: String,
    ars: Vec<(String, usize)>,
}

impl X86 {
    /// The text accumulated in the output buffer.
    pub closed spec fn text(&self) -> Seq<char> {
        self.out@
    }

    /// The arity table of the functions defined so far.
    pub closed spec fn arities(&self) -> Arities {
        ar_model(self.ars@)
    }

    pub fn new() -> (b: Self)
        ensures
            b.text() == Seq::<char>::empty(),
            b.arities() == Seq::<(Seq<char>, nat)>::empty(),
    {
        let b = X86 { out: String::new(), ars: Vec::new() };
        proof {
            assert(b.arities() =~= Seq::<(Seq<char>, nat)>::empty());
        }
        b
    }

    /// Appends one line to the output buffer at the given indentation depth.
    pub fn emit(&mut self, depth: usize, code: &str)
        ensures
            final(self).text() == old(self).text() + render_line((depth as nat, code@)),
            final(self).arities() == old(self).arities(),
    {
        let mut i: usize = 0;
        while i < depth
            invariant
                0 <= i <= depth,
                self.out@ == old(self).out@ + tabs(i as nat),
                self.ars == old(self).ars,
            decreases depth - i,
        {
            self.out.append("\t");
            proof {
                reveal_strlit("\t");
                assert(tabs((i + 1) as nat) =~= tabs(i as nat) + "\t"@);
                assert(old(self).out@ + tabs(i as nat) + "\t"@ =~= old(self).out@ + tabs(
                    (i + 1) as nat,
                ));
            }
            i += 1;
        }
        self.out.append(code);
        self.out.append("\n");
        proof {
            assert(self.out@ =~= old(self).out@ + render_line((depth as nat, code@)));
        }
    }

    fn emit_mov(&mut self, d: Reg, src: &str)
        ensures
            final(self).text() == old(self).text() + render_line((1nat, mov_text(d, src@))),
            final(self).arities() == old(self).arities(),
    {
        let mut s: String = "mov ".to_owned();
        s.append(reg_str(d));
        s.append(", ");
        s.append(src);
        proof {
            assert(s@ =~= mov_text(d, src@));
        }
        self.emit(1, s.as_str());
    }

    fn emit_push(&mut self, r: Reg)
        ensures
            final(self).text() == old(self).text() + render_line((1nat, push_text(r))),
            final(self).arities() == old(self).arities(),
    {
        let mut s: String = "push ".to_owned();
        s.append(reg_str(r));
        self.emit(1, s.as_str());
    }

    fn emit_pop(&mut self, r: Reg)
        ensures
            final(self).text() == old(self).text() + render_line((1nat, pop_text(r))),
            final(self).arities() == old(self).arities(),
    {
        let mut s: String = "pop ".to_owned();
        s.append(reg_str(r));
        self.emit(1, s.as_str());
    }

    fn emit_call(&mut self, target: &str)
        ensures
            final(self).text() == old(self).text() + render_line((1nat, call_text(target@))),
            final(self).arities() == old(self).arities(),
    {
        let mut s: String = "call ".to_owned();
        s.append(target);
        self.emit(1, s.as_str());
    }

    fn emit_bin(&mut self, op: ArithOp, a: Reg, b: Reg)
        ensures
            final(self).text() == old(self).text() + render_line((1nat, bin_text(op, a, b))),
            final(self).arities() == old(self).arities(),
    {
        let mut s: String = op_str(op).to_owned();
        s.append(" ");
        s.append(reg_str(a));
        s.append(", ");
        s.append(reg_str(b));
        proof {
            assert(s@ =~= bin_text(op, a, b));
        }
        self.emit(1, s.as_str());
    }

    fn emit_label(&mut self, target: &str)
        ensures
            final(self).text() == old(self).text() + render_line((0nat, label_text(target@))),
            final(self).arities() == old(self).arities(),
    {
        let mut s: String = target.to_owned();
        s.append(":");
        self.emit(0, s.as_str());
    }

    /// Emits the fixed scaffold that precedes all lowered code.
    pub fn emit_prefix(&mut self)
        ensures
            final(self).text() == old(self).text() + prefix_text(),
            final(self).arities() == old(self).arities(),
    {
        self.out.append(
            "; Generated with ulisp\n;\n; To compile run the following:\n; $ nasm -f elf64 program.asm\n; $ gcc -o program program.o\n\n\tglobal main\n\n\tSECTION .text\n\n",
        );
    }

    /// Emits the fixed startup scaffold that follows the lowered code.
    pub fn emit_postfix(&mut self)
        ensures
            final(self).text() == old(self).text() + postfix_text(),
            final(self).arities() == old(self).arities(),
    {
        self.out.append("main:\n\tcall program_main\n\tmov rdi, rax\n\tmov rax, 60\n\tsyscall\n");
    }
}

/// How an executable lowering step must relate to its specification: on
/// success the emitted text, scope and arity table are exactly the
/// specified ones; on failure the specified error is returned; and failure
/// happens only where the specification fails.
pub open spec fn obeys(
    m: Result<LowerOut, LowerErr>,
    r: Result<(), CompileError>,
    t0: Seq<char>,
    t1: Seq<char>,
    sc1: ScopeModel,
    ar1: Arities,
) -> bool {
    &&& (r is Ok ==> (m matches Ok(eff) && t1 == t0 + render_lines(eff.lines) && sc1 == eff.scope
        && ar1 == eff.ars))
    &&& (r matches Err(e) ==> (m matches Err(me) && me == e@))
    &&& (m is Ok ==> r is Ok)
}

impl X86 {
    /// Lowers one expression so that its value lands at the destination.  A
    /// symbol absent from scope fails with an undefined reference before any
    /// code for the expression is emitted; float and boolean literals are
    /// unsupported and fatal.
    #[verifier::rlimit(60)]
    pub fn compile_expression(
        &mut self,
        arg: &Expression,
        destination: Option<Reg>,
        scope: &mut Scope,
    ) -> (r: Result<(), CompileError>)
        ensures
            obeys(
                a_lower(*arg, destination, old(scope)@, old(self).arities()),
                r,
                old(self).text(),
                final(self).text(),
                final(scope)@,
                final(self).arities(),
            ),
            r is Err && !(arg matches Expression::List(_)) ==> final(self).text() == old(
                self,
            ).text() && final(scope)@ == old(scope)@ && final(self).arities() == old(
                self,
            ).arities(),
        decreases *arg, 3nat, 0nat,
    {
        match arg {
            Expression::List(items) => {
                if items.len() == 0 {
                    return Err(CompileError::Malformed("empty list".to_owned()));
                }
                match &items[0] {
                    Expression::Symbol(op) => {
                        let rest = items.as_slice().split_at(1).1;
                        proof {
                            assert(rest@ =~= items@.subrange(1, items@.len() as int));
                        }
                        self.compile_call(op.as_str(), rest, destination, scope)
                    },
                    _ => Err(CompileError::Malformed("first list item is not a symbol".to_owned())),
                }
            },
            Expression::Symbol(symbol) => {
                let looked = scope.get(symbol.as_str());
                match looked {
                    Some(name) => {
                        match destination {
                            Some(d) => {
                                self.emit_mov(d, name.as_str());
                                proof {
                                    lemma_render_singleton((1nat, mov_text(d, name@)));
                                }
                            },
                            None => {
                                proof {
                                    assert(self.text() + render_lines(
                                        Seq::<(nat, Seq<char>)>::empty(),
                                    ) =~= self.text());
                                }
                            },
                        }
                        Ok(())
                    },
                    None => Err(CompileError::UndefinedReference(symbol.clone())),
                }
            },
            Expression::Integer(n) => {
                match destination {
                    Some(d) => {
                        let t = i32_to_string(*n);
                        self.emit_mov(d, t.as_str());
                        proof {
                            lemma_render_singleton((1nat, mov_text(d, int_text(*n as int))));
                        }
                    },
                    None => {
                        proof {
                            assert(self.text() + render_lines(Seq::<(nat, Seq<char>)>::empty())
                                =~= self.text());
                        }
                    },
                }
                Ok(())
            },
            Expression::Float => Err(CompileError::UnsupportedLiteral),
            Expression::Boolean(_) => Err(CompileError::UnsupportedLiteral),
        }
    }

    /// An arithmetic primitive: both operands through the accumulator, the
    /// first protected on the stack across the second, then one binary
    /// instruction.
    #[verifier::rlimit(80)]
    fn compile_arith(
        &mut self,
        op: ArithOp,
        args: &[Expression],
        destination: Option<Reg>,
        scope: &mut Scope,
    ) -> (r: Result<(), CompileError>)
        ensures
            obeys(
                a_arith(op, args@, destination, old(scope)@, old(self).arities()),
                r,
                old(self).text(),
                final(self).text(),
                final(scope)@,
                final(self).arities(),
            ),
        decreases args@, 2nat, 0nat,
    {
        if args.len() != 2 {
            return Err(
                CompileError::Malformed("arithmetic operators take exactly two operands".to_owned()),
            );
        }
        let ghost t0 = self.text();
        let ghost sc0 = scope@;
        let ghost ar0 = self.arities();
        match self.compile_expression(&args[0], Some(Reg::Rax), scope) {
            Err(e) => {
                return Err(e);
            },
            Ok(()) => {},
        }
        let ghost eff1 = a_lower(args@[0], Some(Reg::Rax), sc0, ar0)->Ok_0;
        self.emit_push(Reg::Rax);
        let ghost t1 = self.text();
        match self.compile_expression(&args[1], Some(Reg::Rax), scope) {
            Err(e) => {
                return Err(e);
            },
            Ok(()) => {},
        }
        let ghost eff2 = a_lower(args@[1], Some(Reg::Rax), eff1.scope, eff1.ars)->Ok_0;
        self.emit_mov(Reg::Rcx, "rax");
        self.emit_pop(Reg::Rax);
        self.emit_bin(op, Reg::Rax, Reg::Rcx);
        let ghost mid = seq![
            (1nat, mov_text(Reg::Rcx, reg_text(Reg::Rax))),
            (1nat, pop_text(Reg::Rax)),
            (1nat, bin_text(op, Reg::Rax, Reg::Rcx)),
        ];
        let ghost base = eff1.lines + seq![(1nat, push_text(Reg::Rax))] + eff2.lines + mid;
        proof {
            lemma_render_singleton((1nat, push_text(Reg::Rax)));
            lemma_render_lines_concat(eff1.lines, seq![(1nat, push_text(Reg::Rax))]);
            lemma_render_lines_concat(eff1.lines + seq![(1nat, push_text(Reg::Rax))], eff2.lines);
            lemma_render_lines_concat(
                eff1.lines + seq![(1nat, push_text(Reg::Rax))] + eff2.lines,
                mid,
            );
            assert(mid.drop_last() =~= seq![
                (1nat, mov_text(Reg::Rcx, reg_text(Reg::Rax))),
                (1nat, pop_text(Reg::Rax)),
            ]);
            assert(mid.drop_last().drop_last() =~= seq![
                (1nat, mov_text(Reg::Rcx, reg_text(Reg::Rax))),
            ]);
            lemma_render_singleton((1nat, mov_text(Reg::Rcx, reg_text(Reg::Rax))));
            assert(render_lines(mid) == render_lines(mid.drop_last()) + render_line(mid.last()));
            assert(self.text() =~= t0 + render_lines(base));
        }
        match destination {
            Some(d) => {
                if d != Reg::Rax {
                    self.emit_mov(d, "rax");
                    proof {
                        lemma_render_singleton((1nat, mov_text(d, reg_text(Reg::Rax))));
                        lemma_render_lines_concat(base, dst_lines(destination));
                        assert(self.text() =~= t0 + render_lines(base + dst_lines(destination)));
                    }
                } else {
                    proof {
                        lemma_render_lines_concat(base, dst_lines(destination));
                        assert(self.text() =~= t0 + render_lines(base + dst_lines(destination)));
                    }
                }
            },
            None => {
                proof {
                    lemma_render_lines_concat(base, dst_lines(destination));
                    assert(self.text() =~= t0 + render_lines(base + dst_lines(destination)));
                }
            },
        }
        Ok(())
    }
}

impl X86 {
    /// Call dispatch: `def`, `module` and the arithmetic primitives receive
    /// the raw unevaluated argument expressions; any other operator must
    /// resolve through the scope to a defined function whose arity matches
    /// the argument count, which must fit the three argument registers.
    #[verifier::rlimit(90)]
    pub fn compile_call(
        &mut self,
        function: &str,
        args: &[Expression],
        destination: Option<Reg>,
        scope: &mut Scope,
    ) -> (r: Result<(), CompileError>)
        ensures
            obeys(
                a_dispatch(function@, args@, destination, old(scope)@, old(self).arities()),
                r,
                old(self).text(),
                final(self).text(),
                final(scope)@,
                final(self).arities(),
            ),
        decreases args@, 3nat, 0nat,
    {
        if str_eq(function, "def") {
            return self.compile_define(args, destination, scope);
        }
        if str_eq(function, "module") {
            return self.compile_module(args, destination, scope);
        }
        if str_eq(function, "+") {
            return self.compile_arith(ArithOp::Add, args, destination, scope);
        }
        if str_eq(function, "-") {
            return self.compile_arith(ArithOp::Sub, args, destination, scope);
        }
        if str_eq(function, "*") {
            return self.compile_arith(ArithOp::Mul, args, destination, scope);
        }
        let looked = scope.get(function);
        let target = match looked {
            Some(t) => t,
            None => {
                return Err(CompileError::UndefinedReference(function.to_owned()));
            },
        };
        let arity = match arity_of(&self.ars, target.as_str()) {
            Some(k) => k,
            None => {
                return Err(CompileError::UndefinedReference(function.to_owned()));
            },
        };
        if arity != args.len() {
            return Err(
                CompileError::Malformed("call arity does not match the definition".to_owned()),
            );
        }
        if args.len() > 3 {
            return Err(
                CompileError::Malformed(
                    "calls take at most three register-passed arguments".to_owned(),
                ),
            );
        }
        let k = args.len();
        let ghost t0 = self.text();
        let ghost sc0 = scope@;
        let ghost ar0 = self.arities();
        let ghost saves = save_lines(k as nat);
        let mut i: usize = 0;
        while i < k
            invariant
                0 <= i <= k,
                k <= 3,
                sc0 == old(scope)@,
                ar0 == old(self).arities(),
                t0 == old(self).text(),
                function@ != "def"@,
                function@ != "module"@,
                function@ != "+"@,
                function@ != "-"@,
                function@ != "*"@,
                scope_lookup(sc0, function@) == Some(target@),
                ar_lookup(ar0, target@) == Some(k as nat),
                k == args@.len(),
                saves == save_lines(k as nat),
                self.text() == t0 + render_lines(saves.take(i as int)),
                self.arities() == ar0,
            decreases k - i,
        {
            self.emit_push(param_reg(i));
            proof {
                lemma_render_take_step(saves, i as int);
                assert(saves[i as int] == (1nat, push_text(spec_param_reg(i as int))));
                assert(t0 + render_lines(saves.take(i as int)) + render_line(saves[i as int])
                    =~= t0 + render_lines(saves.take(i + 1)));
            }
            i += 1;
        }
        proof {
            assert(saves.take(k as int) =~= saves);
        }
        let ghost t1 = self.text();
        let ghost mut done: Lines = Seq::empty();
        proof {
            lemma_cons_lines_empty(a_args(args@, 0, sc0, ar0));
            assert(t1 + render_lines(done) =~= t1);
        }
        let mut j: usize = 0;
        while j < k
            invariant
                0 <= j <= k,
                k <= 3,
                sc0 == old(scope)@,
                ar0 == old(self).arities(),
                t0 == old(self).text(),
                function@ != "def"@,
                function@ != "module"@,
                function@ != "+"@,
                function@ != "-"@,
                function@ != "*"@,
                scope_lookup(sc0, function@) == Some(target@),
                ar_lookup(ar0, target@) == Some(k as nat),
                k == args@.len(),
                t1 == old(self).text() + render_lines(save_lines(k as nat)),
                a_args(args@, 0, sc0, ar0) == cons_lines(
                    done,
                    a_args(args@, j as int, scope@, self.arities()),
                ),
                self.text() == t1 + render_lines(done),
            decreases k - j,
        {
            let ghost scj = scope@;
            let ghost arj = self.arities();
            match self.compile_expression(&args[j], Some(Reg::Rax), scope) {
                Err(e) => {
                    proof {
                        assert(a_args(args@, j as int, scj, arj) == Err::<LowerOut, LowerErr>(e@));
                        assert(a_args(args@, 0, sc0, ar0) == Err::<LowerOut, LowerErr>(e@));
                    }
                    return Err(e);
                },
                Ok(()) => {},
            }
            self.emit_push(Reg::Rax);
            proof {
                let eff = a_lower(args@[j as int], Some(Reg::Rax), scj, arj)->Ok_0;
                let step = eff.lines + seq![(1nat, push_text(Reg::Rax))];
                lemma_render_singleton((1nat, push_text(Reg::Rax)));
                lemma_render_lines_concat(eff.lines, seq![(1nat, push_text(Reg::Rax))]);
                lemma_cons_lines_assoc(
                    done,
                    step,
                    a_args(args@, j + 1, eff.scope, eff.ars),
                );
                lemma_render_lines_concat(done, step);
                assert(t1 + render_lines(done) + (render_lines(eff.lines) + render_line(
                    (1nat, push_text(Reg::Rax)),
                )) =~= t1 + render_lines(done + step));
                done = done + step;
            }
            j += 1;
        }
        let ghost argeff = a_args(args@, 0, sc0, ar0)->Ok_0;
        proof {
            assert(done + Seq::<(nat, Seq<char>)>::empty() =~= done);
            assert(argeff.lines =~= done);
        }
        let ghost t2 = self.text();
        let ghost pops = pop_params_rev(k as nat);
        let mut p: usize = 0;
        while p < k
            invariant
                0 <= p <= k,
                k <= 3,
                sc0 == old(scope)@,
                ar0 == old(self).arities(),
                t0 == old(self).text(),
                function@ != "def"@,
                function@ != "module"@,
                function@ != "+"@,
                function@ != "-"@,
                function@ != "*"@,
                scope_lookup(sc0, function@) == Some(target@),
                ar_lookup(ar0, target@) == Some(k as nat),
                k == args@.len(),
                pops == pop_params_rev(k as nat),
                a_args(args@, 0, sc0, ar0) == Ok::<LowerOut, LowerErr>(argeff),
                t2 == t1 + render_lines(argeff.lines),
                t1 == old(self).text() + render_lines(save_lines(k as nat)),
                self.text() == t2 + render_lines(pops.take(p as int)),
                self.arities() == argeff.ars,
                scope@ == argeff.scope,
            decreases k - p,
        {
            self.emit_pop(param_reg(k - 1 - p));
            proof {
                lemma_render_take_step(pops, p as int);
                assert(pops[p as int] == (1nat, pop_text(spec_param_reg(k - 1 - p))));
                assert(t2 + render_lines(pops.take(p as int)) + render_line(pops[p as int])
                    =~= t2 + render_lines(pops.take(p + 1)));
            }
            p += 1;
        }
        proof {
            assert(pops.take(k as int) =~= pops);
        }
        self.emit_call(target.as_str());
        let ghost t3 = self.text();
        let mut q: usize = 0;
        while q < k
            invariant
                0 <= q <= k,
                k <= 3,
                sc0 == old(scope)@,
                ar0 == old(self).arities(),
                t0 == old(self).text(),
                function@ != "def"@,
                function@ != "module"@,
                function@ != "+"@,
                function@ != "-"@,
                function@ != "*"@,
                scope_lookup(sc0, function@) == Some(target@),
                ar_lookup(ar0, target@) == Some(k as nat),
                k == args@.len(),
                pops == pop_params_rev(k as nat),
                a_args(args@, 0, sc0, ar0) == Ok::<LowerOut, LowerErr>(argeff),
                t3 == t2 + render_lines(pops) + render_line((1nat, call_text(target@))),
                t2 == t1 + render_lines(argeff.lines),
                t1 == old(self).text() + render_lines(save_lines(k as nat)),
                self.text() == t3 + render_lines(pops.take(q as int)),
                self.arities() == argeff.ars,
                scope@ == argeff.scope,
            decreases k - q,
        {
            self.emit_pop(param_reg(k - 1 - q));
            proof {
                lemma_render_take_step(pops, q as int);
                assert(pops[q as int] == (1nat, pop_text(spec_param_reg(k - 1 - q))));
                assert(t3 + render_lines(pops.take(q as int)) + render_line(pops[q as int])
                    =~= t3 + render_lines(pops.take(q + 1)));
            }
            q += 1;
        }
        proof {
            assert(pops.take(k as int) =~= pops);
        }
        match destination {
            Some(d) => {
                if d != Reg::Rax {
                    self.emit_mov(d, "rax");
                    proof {
                        lemma_render_singleton((1nat, mov_text(d, reg_text(Reg::Rax))));
                    }
                }
            },
            None => {},
        }
        proof {
            let whole = saves + argeff.lines + pops + seq![(1nat, call_text(target@))] + pops
                + dst_lines(destination);
            lemma_render_singleton((1nat, call_text(target@)));
            lemma_render_lines_concat(saves, argeff.lines);
            lemma_render_lines_concat(saves + argeff.lines, pops);
            lemma_render_lines_concat(
                saves + argeff.lines + pops,
                seq![(1nat, call_text(target@))],
            );
            lemma_render_lines_concat(
                saves + argeff.lines + pops + seq![(1nat, call_text(target@))],
                pops,
            );
            lemma_render_lines_concat(
                saves + argeff.lines + pops + seq![(1nat, call_text(target@))] + pops,
                dst_lines(destination),
            );
            if destination matches Some(d) && d != Reg::Rax {
                lemma_render_singleton((1nat, mov_text(destination->0, reg_text(Reg::Rax))));
            }
            assert(self.text() =~= t0 + render_lines(whole));
        }
        Ok(())
    }

    /// The `module` primitive: lowers each top-level form independently into
    /// the accumulator, then moves the last value to the destination if one
    /// is wanted.
    #[verifier::rlimit(60)]
    pub fn compile_module(
        &mut self,
        args: &[Expression],
        destination: Option<Reg>,
        scope: &mut Scope,
    ) -> (r: Result<(), CompileError>)
        ensures
            obeys(
                a_module(args@, destination, old(scope)@, old(self).arities()),
                r,
                old(self).text(),
                final(self).text(),
                final(scope)@,
                final(self).arities(),
            ),
        decreases args@, 2nat, 0nat,
    {
        let ghost t0 = self.text();
        let ghost sc0 = scope@;
        let ghost ar0 = self.arities();
        let ghost mut done: Lines = Seq::empty();
        proof {
            lemma_cons_lines_empty(a_items(args@, 0, sc0, ar0));
            assert(t0 + render_lines(done) =~= t0);
        }
        let mut i: usize = 0;
        while i < args.len()
            invariant
                0 <= i <= args@.len(),
                sc0 == old(scope)@,
                ar0 == old(self).arities(),
                t0 == old(self).text(),
                a_items(args@, 0, sc0, ar0) == cons_lines(
                    done,
                    a_items(args@, i as int, scope@, self.arities()),
                ),
                self.text() == t0 + render_lines(done),
            decreases args@.len() - i,
        {
            let ghost sci = scope@;
            let ghost ari = self.arities();
            match self.compile_expression(&args[i], Some(Reg::Rax), scope) {
                Err(e) => {
                    proof {
                        assert(a_items(args@, i as int, sci, ari) == Err::<LowerOut, LowerErr>(
                            e@,
                        ));
                        assert(a_items(args@, 0, sc0, ar0) == Err::<LowerOut, LowerErr>(e@));
                    }
                    return Err(e);
                },
                Ok(()) => {},
            }
            proof {
                let eff = a_lower(args@[i as int], Some(Reg::Rax), sci, ari)->Ok_0;
                lemma_cons_lines_assoc(
                    done,
                    eff.lines,
                    a_items(args@, i + 1, eff.scope, eff.ars),
                );
                lemma_render_lines_concat(done, eff.lines);
                assert(t0 + render_lines(done) + render_lines(eff.lines) =~= t0 + render_lines(
                    done + eff.lines,
                ));
                done = done + eff.lines;
            }
            i += 1;
        }
        let ghost eff = a_items(args@, 0, sc0, ar0)->Ok_0;
        proof {
            assert(done + Seq::<(nat, Seq<char>)>::empty() =~= done);
            assert(eff.lines =~= done);
        }
        match destination {
            Some(d) => {
                if d != Reg::Rax {
                    self.emit_mov(d, "rax");
                    proof {
                        lemma_render_singleton((1nat, mov_text(d, reg_text(Reg::Rax))));
                        lemma_render_lines_concat(eff.lines, dst_lines(destination));
                        assert(self.text() =~= t0 + render_lines(
                            eff.lines + dst_lines(destination),
                        ));
                    }
                } else {
                    proof {
                        lemma_render_lines_concat(eff.lines, dst_lines(destination));
                        assert(self.text() =~= t0 + render_lines(
                            eff.lines + dst_lines(destination),
                        ));
                    }
                }
            },
            None => {
                proof {
                    lemma_render_lines_concat(eff.lines, dst_lines(destination));
                    assert(self.text() =~= t0 + render_lines(eff.lines + dst_lines(destination)));
                }
            },
        }
        Ok(())
    }

    /// The `def` primitive: `(def NAME (PARAM...) BODY)`.  The name lands in
    /// the enclosing scope; parameters are bound to call-surviving registers
    /// in a forked child scope that is discarded with the definition, so
    /// nothing the body registers leaks outside.  Binding a parameter to the
    /// preserved register rather than the argument register is deliberate:
    /// bound to the argument register, any call made from the body would
    /// silently clobber the parameter.  The user-level `main` is renamed,
    /// since the toolchain reserves that entry symbol for the generated
    /// startup scaffold.
    #[verifier::rlimit(90)]
    pub fn compile_define(
        &mut self,
        args: &[Expression],
        _destination: Option<Reg>,
        scope: &mut Scope,
    ) -> (r: Result<(), CompileError>)
        ensures
            obeys(
                a_define(args@, old(scope)@, old(self).arities()),
                r,
                old(self).text(),
                final(self).text(),
                final(scope)@,
                final(self).arities(),
            ),
        decreases args@, 2nat, 0nat,
    {
        if args.len() != 3 {
            return Err(
                CompileError::Malformed(
                    "def takes a name, a parameter list and a body".to_owned(),
                ),
            );
        }
        let name = match &args[0] {
            Expression::Symbol(n) => n,
            _ => {
                return Err(
                    CompileError::Malformed("first item must be a symbol in def".to_owned()),
                );
            },
        };
        let params = match &args[1] {
            Expression::List(p) => p,
            _ => {
                return Err(
                    CompileError::Malformed("second item must be a list in def".to_owned()),
                );
            },
        };
        match &args[2] {
            Expression::List(_) => {},
            _ => {
                return Err(
                    CompileError::Malformed("third item must be a list in def".to_owned()),
                );
            },
        };
        if params.len() > 3 {
            return Err(
                CompileError::Malformed(
                    "functions take at most three register-passed parameters".to_owned(),
                ),
            );
        }
        let ghost t0 = self.text();
        let ghost sc0 = scope@;
        let ghost sc00 = scope@;
        let ghost ar0 = self.arities();
        let renamed = str_eq(name.as_str(), "main");
        let target: String;
        if renamed {
            if scope.contains_target("program_main") {
                return Err(
                    CompileError::Malformed("the entry symbol is already in use".to_owned()),
                );
            }
            target = "program_main".to_owned();
            scope.bind(name.clone(), target.clone());
            proof {
                assert(scope@ == sc00.push((name@, "program_main"@)));
            }
        } else {
            target = scope.register(name.clone());
        }
        let ghost sc1 = scope@;
        self.ars.push((target.clone(), params.len()));
        let ghost ar1 = self.arities();
        proof {
            assert(ar1 =~= ar0.push((target@, params@.len() as nat)));
        }
        let mut child = scope.copy();
        let mut i: usize = 0;
        while i < params.len()
            invariant
                0 <= i <= params@.len(),
                sc0 == old(scope)@,
                ar0 == old(self).arities(),
                t0 == old(self).text(),
                args@.len() == 3,
                args@[0] == Expression::Symbol(*name),
                args@[1] == Expression::List(*params),
                args@[2] is List,
                params@.len() <= 3,
                renamed == (name@ == "main"@),
                renamed ==> !has_target(sc0, "program_main"@) && target@ == "program_main"@
                    && sc1 == sc0.push((name@, "program_main"@)),
                !renamed ==> target@ == reg_target(sc0, safe_seq(name@)) && sc1 == reg_push(
                    sc0,
                    name@,
                ),
                ar1 == ar0.push((target@, params@.len() as nat)),
                a_bind_params(params@, 0, sc1) == a_bind_params(params@, i as int, child@),
                self.text() == t0,
                self.arities() == ar1,
                scope@ == sc1,
            decreases params@.len() - i,
        {
            let p = match &params[i] {
                Expression::Symbol(p) => p,
                _ => {
                    proof {
                        assert(a_bind_params(params@, i as int, child@) == Err::<
                            ScopeModel,
                            LowerErr,
                        >(LowerErr::Malformed));
                        assert(a_bind_params(params@, 0, sc1) == Err::<ScopeModel, LowerErr>(
                            LowerErr::Malformed,
                        ));
                    }
                    return Err(
                        CompileError::Malformed("function parameters must be symbols".to_owned()),
                    );
                },
            };
            let lr = local_reg(i);
            let lname: String = reg_str(lr).to_owned();
            if child.contains_target(lname.as_str()) {
                proof {
                    assert(a_bind_params(params@, i as int, child@) == Err::<
                        ScopeModel,
                        LowerErr,
                    >(LowerErr::Malformed));
                    assert(a_bind_params(params@, 0, sc1) == Err::<ScopeModel, LowerErr>(
                        LowerErr::Malformed,
                    ));
                }
                return Err(
                    CompileError::Malformed(
                        "a parameter register name is already bound".to_owned(),
                    ),
                );
            }
            child.bind(p.clone(), lname);
            i += 1;
        }
        let ghost child1 = a_bind_params(params@, 0, sc1)->Ok_0;
        proof {
            assert(child1 == child@);
        }
        self.emit_label(target.as_str());
        let ghost t1 = self.text();
        let ghost pro = prologue_lines(params@.len() as nat);
        let mut b: usize = 0;
        while b < params.len()
            invariant
                0 <= b <= params@.len(),
                sc0 == old(scope)@,
                ar0 == old(self).arities(),
                t0 == old(self).text(),
                args@.len() == 3,
                args@[0] == Expression::Symbol(*name),
                args@[1] == Expression::List(*params),
                args@[2] is List,
                params@.len() <= 3,
                renamed == (name@ == "main"@),
                renamed ==> !has_target(sc0, "program_main"@) && target@ == "program_main"@
                    && sc1 == sc0.push((name@, "program_main"@)),
                !renamed ==> target@ == reg_target(sc0, safe_seq(name@)) && sc1 == reg_push(
                    sc0,
                    name@,
                ),
                ar1 == ar0.push((target@, params@.len() as nat)),
                a_bind_params(params@, 0, sc1) == Ok::<ScopeModel, LowerErr>(child1),
                t1 == t0 + render_line((0nat, label_text(target@))),
                pro == prologue_lines(params@.len() as nat),
                self.text() == t1 + render_lines(pro.take(2 * b as int)),
                self.arities() == ar1,
                scope@ == sc1,
                child@ == child1,
            decreases params@.len() - b,
        {
            self.emit_push(local_reg(b));
            proof {
                lemma_render_take_step(pro, 2 * b as int);
                assert(pro[2 * b as int] == (1nat, push_text(spec_local_reg(b as int))));
                assert(t1 + render_lines(pro.take(2 * b as int)) + render_line(
                    pro[2 * b as int],
                ) =~= t1 + render_lines(pro.take(2 * b as int + 1)));
            }
            self.emit_mov(local_reg(b), reg_str(param_reg(b)));
            proof {
                lemma_render_take_step(pro, 2 * b as int + 1);
                assert(pro[2 * b as int + 1] == (
                    1nat,
                    mov_text(spec_local_reg(b as int), reg_text(spec_param_reg(b as int))),
                ));
                assert(t1 + render_lines(pro.take(2 * b as int + 1)) + render_line(
                    pro[2 * b as int + 1],
                ) =~= t1 + render_lines(pro.take(2 * (b + 1) as int)));
            }
            b += 1;
        }
        proof {
            assert(pro.take(2 * params@.len() as int) =~= pro);
        }
        let ghost t2 = self.text();
        match self.compile_expression(&args[2], Some(Reg::Rax), &mut child) {
            Err(e) => {
                return Err(e);
            },
            Ok(()) => {},
        }
        let ghost effb = a_lower(args@[2], Some(Reg::Rax), child1, ar1)->Ok_0;
        let ghost t3 = self.text();
        let ghost epi = epilogue_lines(params@.len() as nat);
        let ghost unwind = Seq::new(
            params@.len() as nat,
            |x: int| (1nat, pop_text(spec_local_reg(params@.len() - 1 - x))),
        );
        let mut u: usize = 0;
        while u < params.len()
            invariant
                0 <= u <= params@.len(),
                sc0 == old(scope)@,
                ar0 == old(self).arities(),
                t0 == old(self).text(),
                args@.len() == 3,
                args@[0] == Expression::Symbol(*name),
                args@[1] == Expression::List(*params),
                args@[2] is List,
                params@.len() <= 3,
                renamed == (name@ == "main"@),
                renamed ==> !has_target(sc0, "program_main"@) && target@ == "program_main"@
                    && sc1 == sc0.push((name@, "program_main"@)),
                !renamed ==> target@ == reg_target(sc0, safe_seq(name@)) && sc1 == reg_push(
                    sc0,
                    name@,
                ),
                ar1 == ar0.push((target@, params@.len() as nat)),
                a_bind_params(params@, 0, sc1) == Ok::<ScopeModel, LowerErr>(child1),
                a_lower(args@[2], Some(Reg::Rax), child1, ar1) == Ok::<LowerOut, LowerErr>(effb),
                t1 == t0 + render_line((0nat, label_text(target@))),
                t2 == t1 + render_lines(prologue_lines(params@.len() as nat)),
                t3 == t2 + render_lines(effb.lines),
                unwind == Seq::new(
                    params@.len() as nat,
                    |x: int| (1nat, pop_text(spec_local_reg(params@.len() - 1 - x))),
                ),
                self.text() == t3 + render_lines(unwind.take(u as int)),
                self.arities() == effb.ars,
                scope@ == sc1,
            decreases params@.len() - u,
        {
            self.emit_pop(local_reg(params.len() - 1 - u));
            proof {
                lemma_render_take_step(unwind, u as int);
                assert(unwind[u as int] == (
                    1nat,
                    pop_text(spec_local_reg(params@.len() - 1 - u)),
                ));
                assert(t3 + render_lines(unwind.take(u as int)) + render_line(
                    unwind[u as int],
                ) =~= t3 + render_lines(unwind.take(u + 1)));
            }
            u += 1;
        }
        self.emit(1, "ret\n");
        proof {
            assert(unwind.take(params@.len() as int) =~= unwind);
            lemma_render_lines_push(unwind, (1nat, "ret\n"@));
            assert(epi =~= unwind.push((1nat, "ret\n"@)));
            let whole = seq![(0nat, label_text(target@))] + pro + effb.lines + epi;
            lemma_render_singleton((0nat, label_text(target@)));
            lemma_render_lines_concat(seq![(0nat, label_text(target@))], pro);
            lemma_render_lines_concat(seq![(0nat, label_text(target@))] + pro, effb.lines);
            lemma_render_lines_concat(
                seq![(0nat, label_text(target@))] + pro + effb.lines,
                epi,
            );
            assert(self.text() =~= t0 + render_lines(whole));
        }
        Ok(())
    }

    /// Compiles one module-shaped root into complete target text: the fixed
    /// scaffold, the lowered code, and the startup scaffold that turns the
    /// entry function's return value into the process exit status.  On any
    /// lowering error no text is returned.
    #[verifier::rlimit(60)]
    pub fn compile(&mut self, ast: &Expression) -> (r: Result<String, CompileError>)
        ensures
            ({
                let m = a_compile(*ast, old(self).arities());
                match r {
                    Ok(s) => m matches Ok(t) && s@ == old(self).text() + t && final(self).text()
                        == old(self).text() + t,
                    Err(e) => m matches Err(me) && me == e@,
                }
            }),
            (a_compile(*ast, old(self).arities()) is Ok) == (r is Ok),
    {
        self.emit_prefix();
        let mut scope = Scope::new();
        let res = self.compile_expression(ast, None, &mut scope);
        match res {
            Err(e) => {
                return Err(e);
            },
            Ok(()) => {},
        }
        let ghost eff = a_lower(*ast, None, Seq::empty(), old(self).arities())->Ok_0;
        proof {
            assert(old(self).text() + prefix_text() + render_lines(eff.lines) =~= old(
                self,
            ).text() + (prefix_text() + render_lines(eff.lines)));
        }
        self.emit_postfix();
        proof {
            assert(old(self).text() + (prefix_text() + render_lines(eff.lines)) + postfix_text()
                =~= old(self).text() + (prefix_text() + render_lines(eff.lines)
                + postfix_text()));
        }
        Ok(self.out.clone())
    }
}

} // verus!
