use cerussite::ast::code_gen_state::{BinOp, Inst, Operand};
use cerussite::ast::expr::parse_literal;
use cerussite::output::{push_int, push_nat, render_function};

#[test]
fn decimal_spellings() {
    let mut s = String::new();
    push_nat(&mut s, 0);
    push_nat(&mut s, 1234567890);
    assert_eq!(s, "01234567890");
    let mut s = String::new();
    push_int(&mut s, i32::MIN);
    assert_eq!(s, "-2147483648");
}

#[test]
fn renders_each_instruction() {
    let code = vec![
        Inst::Alloca { dst: 1, align: 4 },
        Inst::Load { dst: 2, slot: 1, align: 4 },
        Inst::Store { src: 2, slot: 1, align: 4 },
        Inst::Binary { op: BinOp::SDiv, dst: 3, lhs: Operand::Reg(2), rhs: Operand::Imm(-5) },
        Inst::Binary { op: BinOp::SRem, dst: 4, lhs: Operand::Imm(0), rhs: Operand::Reg(3) },
        Inst::Ret { src: 4 },
    ];
    assert_eq!(
        render_function(&code),
        "define i32 @main() #0 {\n  %1 = alloca i32, align 4\n  %2 = load i32, i32* %1, align 4\n  store i32 %2, i32* %1, align 4\n  %3 = sdiv i32 %2, -5\n  %4 = srem i32 0, %3\n  ret i32 %4\n}\n"
    );
}

#[test]
fn literal_values() {
    assert_eq!(parse_literal("0"), Some(0));
    assert_eq!(parse_literal("2147483647"), Some(i32::MAX));
    assert_eq!(parse_literal("2147483648"), None);
    assert_eq!(parse_literal("99999999999999999999"), None);
    assert_eq!(parse_literal("12a"), None);
    assert_eq!(parse_literal(""), None);
}
