use ulisp::{BackendOpt, CompileError, Expression, LLVM, X86};

fn sym(s: &str) -> Expression {
    Expression::Symbol(s.to_string())
}

fn num(n: i32) -> Expression {
    Expression::Integer(n)
}

fn list(items: Vec<Expression>) -> Expression {
    Expression::List(items)
}

const X86_PREFIX: &str = "; Generated with ulisp\n;\n; To compile run the following:\n; $ nasm -f elf64 program.asm\n; $ gcc -o program program.o\n\n\tglobal main\n\n\tSECTION .text\n\n";

const X86_POSTFIX: &str = "main:\n\tcall program_main\n\tmov rdi, rax\n\tmov rax, 60\n\tsyscall\n";

/// `(module (def main () (+ 1 2)))`
fn module_plus() -> Expression {
    list(vec![
        sym("module"),
        list(vec![
            sym("def"),
            sym("main"),
            list(vec![]),
            list(vec![sym("+"), num(1), num(2)]),
        ]),
    ])
}

#[test]
fn x86_compiles_plus_module() {
    let mut b = X86::new();
    let out = b.compile(&module_plus()).unwrap();
    let expected = format!(
        "{}{}{}",
        X86_PREFIX,
        "program_main:\n\tmov rax, 1\n\tpush rax\n\tmov rax, 2\n\tmov rcx, rax\n\tpop rax\n\tadd rax, rcx\n\tret\n\n",
        X86_POSTFIX
    );
    assert_eq!(out, expected);
}

#[test]
fn llvm_compiles_plus_module() {
    let mut b = LLVM::new();
    let out = b.compile(&module_plus()).unwrap();
    let expected = "define i32 @main() {\n\t%sym4 = add i32 1, 0\n\t%sym5 = add i32 2, 0\n\t%sym3 = add i32 %sym4, %sym5\n\tret i32 %sym3\n}\n\n";
    assert_eq!(out, expected);
}

/// `(module (def add (a b) (+ a b)) (def main () (add 3 4)))`
fn module_call() -> Expression {
    list(vec![
        sym("module"),
        list(vec![
            sym("def"),
            sym("add"),
            list(vec![sym("a"), sym("b")]),
            list(vec![sym("+"), sym("a"), sym("b")]),
        ]),
        list(vec![
            sym("def"),
            sym("main"),
            list(vec![]),
            list(vec![sym("add"), num(3), num(4)]),
        ]),
    ])
}

#[test]
fn x86_compiles_call_with_parameter_passing() {
    let mut b = X86::new();
    let out = b.compile(&module_call()).unwrap();
    let add_fn = "add:\n\tpush rbx\n\tmov rbx, rdi\n\tpush rbp\n\tmov rbp, rsi\n\tmov rax, rbx\n\tpush rax\n\tmov rax, rbp\n\tmov rcx, rax\n\tpop rax\n\tadd rax, rcx\n\tpop rbp\n\tpop rbx\n\tret\n\n";
    let main_fn = "program_main:\n\tpush rdi\n\tpush rsi\n\tmov rax, 3\n\tpush rax\n\tmov rax, 4\n\tpush rax\n\tpop rsi\n\tpop rdi\n\tcall add\n\tpop rsi\n\tpop rdi\n\tret\n\n";
    let expected = format!("{}{}{}{}", X86_PREFIX, add_fn, main_fn, X86_POSTFIX);
    assert_eq!(out, expected);
}

#[test]
fn llvm_compiles_call_with_parameter_passing() {
    let mut b = LLVM::new();
    let out = b.compile(&module_call()).unwrap();
    let add_fn = "define i32 @add(i32 %a, i32 %b) {\n\t%sym6 = add i32 %a, 0\n\t%sym7 = add i32 %b, 0\n\t%sym5 = add i32 %sym6, %sym7\n\tret i32 %sym5\n}\n\n";
    let main_fn = "define i32 @main() {\n\t%sym5 = add i32 3, 0\n\t%sym6 = add i32 4, 0\n\t%sym4 = call i32 @add(i32 %sym5, i32 %sym6)\n\tret i32 %sym4\n}\n\n";
    let expected = format!("{}{}", add_fn, main_fn);
    assert_eq!(out, expected);
}

/// `(module (def main () (* (- 10 4) 2)))`
fn module_nested_arith() -> Expression {
    list(vec![
        sym("module"),
        list(vec![
            sym("def"),
            sym("main"),
            list(vec![]),
            list(vec![
                sym("*"),
                list(vec![sym("-"), num(10), num(4)]),
                num(2),
            ]),
        ]),
    ])
}

#[test]
fn x86_compiles_nested_arithmetic() {
    let mut b = X86::new();
    let out = b.compile(&module_nested_arith()).unwrap();
    let main_fn = "program_main:\n\tmov rax, 10\n\tpush rax\n\tmov rax, 4\n\tmov rcx, rax\n\tpop rax\n\tsub rax, rcx\n\tpush rax\n\tmov rax, 2\n\tmov rcx, rax\n\tpop rax\n\timul rax, rcx\n\tret\n\n";
    let expected = format!("{}{}{}", X86_PREFIX, main_fn, X86_POSTFIX);
    assert_eq!(out, expected);
}

#[test]
fn llvm_compiles_nested_arithmetic() {
    let mut b = LLVM::new();
    let out = b.compile(&module_nested_arith()).unwrap();
    // The subtraction lands in the first temporary of the multiplication,
    // then the literal 2 in the second, then the product in the return slot.
    let expected = "define i32 @main() {\n\t%sym6 = add i32 10, 0\n\t%sym7 = add i32 4, 0\n\t%sym4 = sub i32 %sym6, %sym7\n\t%sym5 = add i32 2, 0\n\t%sym3 = mul i32 %sym4, %sym5\n\tret i32 %sym3\n}\n\n";
    assert_eq!(out, expected);
}

/// `(module (def main () missing-name))` must abort with an undefined
/// reference; a definition body must be a list, so the reference is wrapped
/// in an addition.
fn module_undefined() -> Expression {
    list(vec![
        sym("module"),
        list(vec![
            sym("def"),
            sym("main"),
            list(vec![]),
            list(vec![sym("+"), sym("missing-name"), num(0)]),
        ]),
    ])
}

#[test]
fn x86_rejects_undefined_reference() {
    let mut b = X86::new();
    match b.compile(&module_undefined()) {
        Err(CompileError::UndefinedReference(n)) => assert_eq!(n, "missing-name"),
        other => panic!("expected an undefined reference, got {:?}", other),
    }
}

#[test]
fn llvm_rejects_undefined_reference() {
    let mut b = LLVM::new();
    match b.compile(&module_undefined()) {
        Err(CompileError::UndefinedReference(n)) => assert_eq!(n, "missing-name"),
        other => panic!("expected an undefined reference, got {:?}", other),
    }
}

#[test]
fn bare_undefined_symbol_is_fatal_too() {
    // `(module (def main () missing-name))` as written: the body is not a
    // list, which the definition shape rules reject before lowering it.
    let m = list(vec![
        sym("module"),
        list(vec![sym("def"), sym("main"), list(vec![]), sym("missing-name")]),
    ]);
    let mut bx = X86::new();
    assert!(matches!(bx.compile(&m), Err(CompileError::Malformed(_))));
    let mut bl = LLVM::new();
    assert!(matches!(bl.compile(&m), Err(CompileError::Malformed(_))));
}

fn module_call_with(arity_args: Vec<Expression>) -> Expression {
    let mut call = vec![sym("add")];
    call.extend(arity_args);
    list(vec![
        sym("module"),
        list(vec![
            sym("def"),
            sym("add"),
            list(vec![sym("a"), sym("b")]),
            list(vec![sym("+"), sym("a"), sym("b")]),
        ]),
        list(vec![
            sym("def"),
            sym("main"),
            list(vec![]),
            list(call),
        ]),
    ])
}

#[test]
fn x86_rejects_wrong_arity_call() {
    let mut low = X86::new();
    assert!(matches!(
        low.compile(&module_call_with(vec![num(3)])),
        Err(CompileError::Malformed(_))
    ));
    let mut high = X86::new();
    assert!(matches!(
        high.compile(&module_call_with(vec![num(3), num(4), num(5)])),
        Err(CompileError::Malformed(_))
    ));
}

#[test]
fn llvm_rejects_wrong_arity_call() {
    let mut low = LLVM::new();
    assert!(matches!(
        low.compile(&module_call_with(vec![num(3)])),
        Err(CompileError::Malformed(_))
    ));
    let mut high = LLVM::new();
    assert!(matches!(
        high.compile(&module_call_with(vec![num(3), num(4), num(5)])),
        Err(CompileError::Malformed(_))
    ));
}

#[test]
fn x86_rejects_more_arguments_than_registers() {
    // A 4-parameter definition exceeds the register-machine's capacity.
    let m = list(vec![
        sym("module"),
        list(vec![
            sym("def"),
            sym("f"),
            list(vec![sym("a"), sym("b"), sym("c"), sym("d")]),
            list(vec![sym("+"), sym("a"), sym("b")]),
        ]),
    ]);
    let mut b = X86::new();
    assert!(matches!(b.compile(&m), Err(CompileError::Malformed(_))));
}

#[test]
fn llvm_accepts_more_parameters_than_the_register_machine() {
    let m = list(vec![
        sym("module"),
        list(vec![
            sym("def"),
            sym("f"),
            list(vec![sym("a"), sym("b"), sym("c"), sym("d")]),
            list(vec![sym("+"), sym("a"), sym("b")]),
        ]),
    ]);
    let mut b = LLVM::new();
    assert!(b.compile(&m).is_ok());
}

#[test]
fn float_and_boolean_literals_are_unsupported() {
    let mf = list(vec![sym("module"), Expression::Float]);
    let mb = list(vec![sym("module"), Expression::Boolean(true)]);
    let mut bx = X86::new();
    assert!(matches!(
        bx.compile(&mf),
        Err(CompileError::UnsupportedLiteral)
    ));
    let mut bl = LLVM::new();
    assert!(matches!(
        bl.compile(&mb),
        Err(CompileError::UnsupportedLiteral)
    ));
}

#[test]
fn first_list_item_must_be_a_symbol() {
    let m = list(vec![num(1), num(2)]);
    let mut b = X86::new();
    assert!(matches!(b.compile(&m), Err(CompileError::Malformed(_))));
    let mut bl = LLVM::new();
    assert!(matches!(bl.compile(&m), Err(CompileError::Malformed(_))));
}

#[test]
fn empty_list_is_malformed() {
    let m = list(vec![]);
    let mut b = X86::new();
    assert!(matches!(b.compile(&m), Err(CompileError::Malformed(_))));
}

#[test]
fn negative_literals_render_with_sign() {
    let m = list(vec![
        sym("module"),
        list(vec![
            sym("def"),
            sym("main"),
            list(vec![]),
            list(vec![sym("+"), num(-5), num(7)]),
        ]),
    ]);
    let mut b = X86::new();
    let out = b.compile(&m).unwrap();
    assert!(out.contains("\tmov rax, -5\n"));
}

#[test]
fn error_messages_describe_the_failure() {
    let mut b = X86::new();
    let e = b.compile(&module_undefined()).unwrap_err();
    assert_eq!(e.message(), "undefined reference: missing-name");
    let e2 = CompileError::UnsupportedLiteral;
    assert_eq!(e2.message(), "unsupported literal kind");
}

#[test]
fn emit_appends_indented_lines() {
    let mut b = X86::new();
    b.emit(2, "nop");
    let out = b.compile(&module_plus()).unwrap();
    assert!(out.starts_with("\t\tnop\n"));
}

#[test]
fn atom_bodies_are_rejected_by_the_definition_shape() {
    // `(module (def main () 42))`: a definition body must be a single list
    // expression, so a bare literal body is a structural error on both
    // backends.
    let m = list(vec![
        sym("module"),
        list(vec![sym("def"), sym("main"), list(vec![]), num(42)]),
    ]);
    let mut bx = X86::new();
    assert!(matches!(bx.compile(&m), Err(CompileError::Malformed(_))));
    let mut bl = LLVM::new();
    assert!(matches!(bl.compile(&m), Err(CompileError::Malformed(_))));
}

#[test]
fn backend_selection_by_name() {
    assert!(matches!(BackendOpt::from_name("x86"), Ok(BackendOpt::X86)));
    assert!(matches!(BackendOpt::from_name("llvm"), Ok(BackendOpt::LLVM)));
    let err = BackendOpt::from_name("jvm").unwrap_err();
    assert_eq!(err.details(), "Unsupported backend: jvm");
}
