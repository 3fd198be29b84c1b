use vstd::prelude::*;

use crate::ast::code_gen_state::{BinOp, Inst, Operand};

verus! {

/// The decimal digit of `d`, for `d < 10`.
pub open spec fn digit(d: nat) -> char {
    if d == 0 {
        '0'
    } else if d == 1 {
        '1'
    } else if d == 2 {
        '2'
    } else if d == 3 {
        '3'
    } else if d == 4 {
        '4'
    } else if d == 5 {
        '5'
    } else if d == 6 {
        '6'
    } else if d == 7 {
        '7'
    } else if d == 8 {
        '8'
    } else {
        '9'
    }
}

/// The decimal spelling of `n`, without leading zeros.
pub open spec fn nat_text(n: nat) -> Seq<char>
    decreases n,
{
    if n < 10 {
        seq![digit(n)]
    } else {
        nat_text(n / 10) + seq![digit(n % 10)]
    }
}

/// The decimal spelling of `i`, with a leading `-` when it is negative.
pub open spec fn int_text(i: int) -> Seq<char> {
    if i < 0 {
        seq!['-'] + nat_text((-i) as nat)
    } else {
        nat_text(i as nat)
    }
}

pub open spec fn op_text(op: BinOp) -> Seq<char> {
    match op {
        BinOp::Add => "add"@,
        BinOp::Sub => "sub"@,
        BinOp::Mul => "mul"@,
        BinOp::SDiv => "sdiv"@,
        BinOp::SRem => "srem"@,
    }
}

pub open spec fn operand_text(o: Operand) -> Seq<char> {
    match o {
        Operand::Reg(n) => "%"@ + nat_text(n as nat),
        Operand::Imm(v) => int_text(v as int),
    }
}

/// The line of IR text of one instruction.
pub open spec fn inst_text(i: Inst) -> Seq<char> {
    match i {
        Inst::Alloca { dst, align } => "  %"@ + nat_text(dst as nat) + " = alloca i32, align "@ + nat_text(align as nat)
            + "\n"@,
        Inst::Load { dst, slot, align } => "  %"@ + nat_text(dst as nat) + " = load i32, i32* %"@ + nat_text(slot as nat)
            + ", align "@ + nat_text(align as nat) + "\n"@,
        Inst::Store { src, slot, align } => "  store i32 %"@ + nat_text(src as nat) + ", i32* %"@ + nat_text(
            slot as nat,
        ) + ", align "@ + nat_text(align as nat) + "\n"@,
        Inst::Binary { op, dst, lhs, rhs } => "  %"@ + nat_text(dst as nat) + " = "@ + op_text(op) + " i32 "@
            + operand_text(lhs) + ", "@ + operand_text(rhs) + "\n"@,
        Inst::Ret { src } => "  ret i32 %"@ + nat_text(src as nat) + "\n"@,
    }
}

/// The lines of a sequence of instructions.
pub open spec fn insts_text(insts: Seq<Inst>) -> Seq<char>
    decreases insts.len(),
{
    if insts.len() == 0 {
        Seq::empty()
    } else {
        insts_text(insts.drop_last()) + inst_text(insts.last())
    }
}

/// The IR text of `main` with the given body.
pub open spec fn function_text(insts: Seq<Inst>) -> Seq<char> {
    "define i32 @main() #0 {\n"@ + insts_text(insts) + "}\n"@
}

/// Appends the decimal digit `d`.
fn push_digit(s: &mut String, d: u64)
    requires
        d < 10,
    ensures
        final(s)@ == old(s)@ + seq![digit(d as nat)],
{
    proof {
        reveal_strlit("0");
        reveal_strlit("1");
        reveal_strlit("2");
        reveal_strlit("3");
        reveal_strlit("4");
        reveal_strlit("5");
        reveal_strlit("6");
        reveal_strlit("7");
        reveal_strlit("8");
        reveal_strlit("9");
        assert("0"@ =~= seq!['0']);
        assert("1"@ =~= seq!['1']);
        assert("2"@ =~= seq!['2']);
        assert("3"@ =~= seq!['3']);
        assert("4"@ =~= seq!['4']);
        assert("5"@ =~= seq!['5']);
        assert("6"@ =~= seq!['6']);
        assert("7"@ =~= seq!['7']);
        assert("8"@ =~= seq!['8']);
        assert("9"@ =~= seq!['9']);
    }
    if d == 0 {
        s.append("0");
    } else if d == 1 {
        s.append("1");
    } else if d == 2 {
        s.append("2");
    } else if d == 3 {
        s.append("3");
    } else if d == 4 {
        s.append("4");
    } else if d == 5 {
        s.append("5");
    } else if d == 6 {
        s.append("6");
    } else if d == 7 {
        s.append("7");
    } else if d == 8 {
        s.append("8");
    } else {
        s.append("9");
    }
}

/// Appends the decimal spelling of `n`.
pub fn push_nat(s: &mut String, n: u64)
    ensures
        final(s)@ == old(s)@ + nat_text(n as nat),
    decreases n,
{
    if n < 10 {
        push_digit(s, n);
    } else {
        push_nat(s, n / 10);
        push_digit(s, n % 10);
        proof {
            assert(old(s)@ + nat_text((n / 10) as nat) + seq![digit((n % 10) as nat)] =~= old(s)@ + nat_text(n as nat));
        }
    }
}

/// Appends the decimal spelling of `i`.
pub fn push_int(s: &mut String, i: i32)
    ensures
        final(s)@ == old(s)@ + int_text(i as int),
{
    proof {
        reveal_strlit("-");
        assert("-"@ =~= seq!['-']);
    }
    if i < 0 {
        s.append("-");
        let m: i64 = -(i as i64);
        push_nat(s, m as u64);
        proof {
            assert(old(s)@ + seq!['-'] + nat_text((-i) as nat) =~= old(s)@ + int_text(i as int));
        }
    } else {
        push_nat(s, i as u64);
    }
}

fn push_operand(s: &mut String, o: Operand)
    ensures
        final(s)@ == old(s)@ + operand_text(o),
{
    match o {
        Operand::Reg(n) => {
            s.append("%");
            push_nat(s, n as u64);
            proof {
                assert(old(s)@ + "%"@ + nat_text(n as nat) =~= old(s)@ + operand_text(o));
            }
        },
        Operand::Imm(v) => push_int(s, v),
    }
}

/// Appends the line of IR text of `inst`.
pub fn push_inst(s: &mut String, inst: Inst)
    ensures
        final(s)@ == old(s)@ + inst_text(inst),
{
    let ghost s0 = s@;
    match inst {
        Inst::Alloca { dst, align } => {
            s.append("  %");
            push_nat(s, dst as u64);
            s.append(" = alloca i32, align ");
            push_nat(s, align as u64);
        },
        Inst::Load { dst, slot, align } => {
            s.append("  %");
            push_nat(s, dst as u64);
            s.append(" = load i32, i32* %");
            push_nat(s, slot as u64);
            s.append(", align ");
            push_nat(s, align as u64);
        },
        Inst::Store { src, slot, align } => {
            s.append("  store i32 %");
            push_nat(s, src as u64);
            s.append(", i32* %");
            push_nat(s, slot as u64);
            s.append(", align ");
            push_nat(s, align as u64);
        },
        Inst::Binary { op, dst, lhs, rhs } => {
            s.append("  %");
            push_nat(s, dst as u64);
            s.append(" = ");
            match op {
                BinOp::Add => s.append("add"),
                BinOp::Sub => s.append("sub"),
                BinOp::Mul => s.append("mul"),
                BinOp::SDiv => s.append("sdiv"),
                BinOp::SRem => s.append("srem"),
            }
            s.append(" i32 ");
            push_operand(s, lhs);
            s.append(", ");
            push_operand(s, rhs);
        },
        Inst::Ret { src } => {
            s.append("  ret i32 %");
            push_nat(s, src as u64);
        },
    }
    s.append("\n");
    proof {
        assert(s@ =~= s0 + inst_text(inst));
    }
}

/// The IR text of `main` with the body `code`.
pub fn render_function(code: &Vec<Inst>) -> (r: String)
    ensures
        r@ == function_text(code@),
{
    let mut s = String::new();
    s.append("define i32 @main() #0 {\n");
    let mut i: usize = 0;
    while i < code.len()
        invariant
            i <= code@.len(),
            s@ == "define i32 @main() #0 {\n"@ + insts_text(code@.subrange(0, i as int)),
        decreases code@.len() - i,
    {
        push_inst(&mut s, code[i]);
        proof {
            assert(code@.subrange(0, i + 1).drop_last() =~= code@.subrange(0, i as int));
        }
        i = i + 1;
    }
    s.append("}\n");
    proof {
        assert(code@.subrange(0, i as int) =~= code@);
    }
    s
}

} // verus!
