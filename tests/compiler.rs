use cerussite::ast::code_gen_state::{BinOp, CodeGenState, Inst, Operand};
use cerussite::ast::Ast;
use cerussite::compiler::translate;
use cerussite::lexer::tokenize;
use cerussite::token::{CompileError, Expected, Token, Tokens};

/// Runs straight-line code and returns the value of its `ret`.
fn run(code: &[Inst]) -> i32 {
    let mut regs = std::collections::HashMap::new();
    let mut mem = std::collections::HashMap::new();
    let value = |regs: &std::collections::HashMap<usize, i32>, o: Operand| match o {
        Operand::Reg(r) => regs[&r],
        Operand::Imm(v) => v,
    };
    for inst in code {
        match *inst {
            Inst::Alloca { dst, .. } => {
                regs.insert(dst, 0);
            }
            Inst::Load { dst, slot, .. } => {
                let v = mem[&slot];
                regs.insert(dst, v);
            }
            Inst::Store { src, slot, .. } => {
                mem.insert(slot, regs[&src]);
            }
            Inst::Binary { op, dst, lhs, rhs } => {
                let (a, b) = (value(&regs, lhs), value(&regs, rhs));
                let v = match op {
                    BinOp::Add => a.wrapping_add(b),
                    BinOp::Sub => a.wrapping_sub(b),
                    BinOp::Mul => a.wrapping_mul(b),
                    BinOp::SDiv => a / b,
                    BinOp::SRem => a % b,
                };
                regs.insert(dst, v);
            }
            Inst::Ret { src } => return regs[&src],
        }
    }
    panic!("no ret");
}

fn generate(source: &str) -> Result<CodeGenState<'_>, String> {
    let tokens = tokenize(source).map_err(|e| format!("{:?}", e))?;
    let tokens: &[Token] = Box::leak(tokens.into_boxed_slice());
    let ast = Ast::parse(Tokens::new(tokens)).map_err(|e| format!("{:?}", e))?;
    ast.gen_code().map_err(|e| format!("{:?}", e))
}

fn exit_status(body: &str) -> i32 {
    let source = format!("int main(void) {{ {} }}", body);
    let source: &str = Box::leak(source.into_boxed_str());
    let state = generate(source).unwrap();
    run(&state.code) & 0xff
}

fn ir_of(body: &str) -> String {
    let source = format!("int main(void) {{ {} }}", body);
    let source: &str = Box::leak(source.into_boxed_str());
    let tokens = tokenize(source).unwrap();
    let tokens: &[Token] = Box::leak(tokens.into_boxed_slice());
    translate(tokens).unwrap()
}

#[test]
fn scenario_return_literal() {
    assert_eq!(exit_status("return 42;"), 42);
    assert_eq!(
        ir_of("return 42;"),
        "define i32 @main() #0 {\n  %1 = add i32 42, 0\n  ret i32 %1\n}\n"
    );
}

#[test]
fn scenario_sum() {
    assert_eq!(exit_status("return 40 + 2;"), 42);
    assert_eq!(
        ir_of("return 40 + 2;"),
        "define i32 @main() #0 {\n  %1 = add i32 40, 0\n  %2 = add i32 2, 0\n  %3 = add i32 %1, %2\n  ret i32 %3\n}\n"
    );
}

#[test]
fn scenario_precedence() {
    assert_eq!(exit_status("return 42 + 3 * 7;"), 63);
    assert_eq!(
        ir_of("return 42 + 3 * 7;"),
        "define i32 @main() #0 {\n  %1 = add i32 42, 0\n  %2 = add i32 3, 0\n  %3 = add i32 7, 0\n  %4 = mul i32 %2, %3\n  %5 = add i32 %1, %4\n  ret i32 %5\n}\n"
    );
}

#[test]
fn scenario_nested_parentheses() {
    assert_eq!(exit_status("return 42 + (30 - (30 - 15));"), 57);
}

#[test]
fn scenario_variable() {
    assert_eq!(exit_status("int b = 5; return b + 7;"), 12);
    assert_eq!(
        ir_of("int b = 5; return b + 7;"),
        "define i32 @main() #0 {\n  %1 = alloca i32, align 4\n  %2 = add i32 5, 0\n  store i32 %2, i32* %1, align 4\n  %3 = load i32, i32* %1, align 4\n  %4 = add i32 7, 0\n  %5 = add i32 %3, %4\n  ret i32 %5\n}\n"
    );
}

#[test]
fn scenario_unary() {
    assert_eq!(exit_status("return -3 + +4;"), 1);
    assert_eq!(
        ir_of("return -3 + +4;"),
        "define i32 @main() #0 {\n  %1 = add i32 3, 0\n  %2 = sub i32 0, %1\n  %3 = add i32 4, 0\n  %4 = add i32 %2, %3\n  ret i32 %4\n}\n"
    );
}

#[test]
fn exit_status_is_value_modulo_256() {
    assert_eq!(exit_status("return 300;"), 44);
    assert_eq!(exit_status("return 0 - 1;"), 255);
    assert_eq!(exit_status("return 7 % 3 * 10 / 2;"), 5);
}

#[test]
fn subtraction_and_division_lean_left() {
    assert_eq!(exit_status("return 10 - 3 - 2;"), 5);
    assert_eq!(exit_status("return 100 / 10 / 5;"), 2);
    assert_eq!(exit_status("return 100 % 7 % 3;"), 2);
}

#[test]
fn multiplication_binds_tighter_and_parentheses_override() {
    assert_eq!(exit_status("return 2 + 3 * 4;"), 14);
    assert_eq!(exit_status("return 2 * 3 + 4;"), 10);
    assert_eq!(exit_status("return (2 + 3) * 4;"), 20);
    assert_eq!(exit_status("return 0 - -2 * 3;"), 6);
    assert_eq!(exit_status("return 20 - 6 / 3;"), 18);
}

#[test]
fn counter_counts_numbered_slots() {
    let state = generate("int main(void) { int a = 1; int b; { return a + 2; } }").unwrap();
    let mut slots = 0;
    for inst in &state.code {
        if !matches!(inst, Inst::Store { .. }) {
            slots += 1;
        }
    }
    assert_eq!(state.reg, slots);
    assert_eq!(state.reg, 7);
    assert_eq!(state.code.last(), Some(&Inst::Ret { src: 6 }));
}

#[test]
fn code_after_return_skips_the_block_number() {
    let state = generate("int main(void) { return 1; return 2; }").unwrap();
    assert_eq!(
        state.code,
        vec![
            Inst::Binary { op: BinOp::Add, dst: 1, lhs: Operand::Imm(1), rhs: Operand::Imm(0) },
            Inst::Ret { src: 1 },
            Inst::Binary { op: BinOp::Add, dst: 3, lhs: Operand::Imm(2), rhs: Operand::Imm(0) },
            Inst::Ret { src: 3 },
        ]
    );
    assert_eq!(state.reg, 4);
}

#[test]
fn redeclaration_is_fatal() {
    let err = generate("int main(void) { int a; int a; return 0; }").unwrap_err();
    assert!(err.contains("Redeclared"));
    let err = generate("int main(void) { int a; { int a; return 0; } }").unwrap_err();
    assert!(err.contains("Redeclared"));
}

#[test]
fn sibling_compounds_may_reuse_a_name() {
    assert!(generate("int main(void) { { int a = 1; return a; } { int a = 2; return a; } }").is_ok());
}

#[test]
fn undeclared_identifier_is_fatal() {
    let source = "int main(void) { return x; }";
    let tokens = tokenize(source).unwrap();
    let ast = Ast::parse(Tokens::new(&tokens)).unwrap();
    assert!(matches!(ast.gen_code(), Err(CompileError::Undeclared("x"))));
}

#[test]
fn literal_out_of_range_is_fatal() {
    let source = "int main(void) { return 2147483648; }";
    let tokens = tokenize(source).unwrap();
    assert!(matches!(translate(&tokens), Err(CompileError::LiteralOutOfRange("2147483648"))));
    let source = "int main(void) { return 2147483647; }";
    let tokens = tokenize(source).unwrap();
    assert!(translate(&tokens).is_ok());
}

#[test]
fn assignment_is_rejected() {
    let source = "int main(void) { int a; return a = 1; }";
    let tokens = tokenize(source).unwrap();
    assert!(matches!(translate(&tokens), Err(CompileError::AssignmentUnsupported)));
}

#[test]
fn missing_semicolon_is_reported() {
    let source = "int main(void) { return 1 }";
    let tokens = tokenize(source).unwrap();
    match translate(&tokens) {
        Err(CompileError::Syntax { message, found }) => {
            assert_eq!(message, "missing semicolon after jump statement.");
            assert_eq!(found, Some(Token::SyRBrace));
        }
        other => panic!("unexpected {:?}", other),
    }
}

#[test]
fn unmatched_parenthesis_is_reported() {
    let source = "int main(void) { return (1 + 2; }";
    let tokens = tokenize(source).unwrap();
    assert!(matches!(
        translate(&tokens),
        Err(CompileError::Syntax { message: "no matching parens for primary expression.", .. })
    ));
}

#[test]
fn trailing_tokens_are_rejected() {
    let source = "int main(void) { return 1; } }";
    let tokens = tokenize(source).unwrap();
    assert!(matches!(
        translate(&tokens),
        Err(CompileError::Unexpected { expected: Expected::EndOfInput, found: Some(Token::SyRBrace) })
    ));
}

#[test]
fn frame_must_be_main() {
    let source = "int foo(void) { return 1; }";
    let tokens = tokenize(source).unwrap();
    assert!(matches!(
        translate(&tokens),
        Err(CompileError::Unexpected { expected: Expected::Token(Token::Ident("main")), found: Some(Token::Ident("foo")) })
    ));
}

#[test]
fn missing_primary_is_reported() {
    let source = "int main(void) { return ; }";
    let tokens = tokenize(source).unwrap();
    assert!(matches!(
        translate(&tokens),
        Err(CompileError::Unexpected { expected: Expected::Primary, found: Some(Token::SySemicolon) })
    ));
}

#[test]
fn declaration_needs_an_identifier() {
    let source = "int main(void) { int 3; return 0; }";
    let tokens = tokenize(source).unwrap();
    assert!(matches!(
        translate(&tokens),
        Err(CompileError::Unexpected { expected: Expected::Identifier, found: Some(Token::Literal("3")) })
    ));
}
