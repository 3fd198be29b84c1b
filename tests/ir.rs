use cerussite::ir::block::BasicBlock;
use cerussite::ir::function::Function;
use cerussite::ir::instruction::Instruction;
use cerussite::ir::register::{Identity, IdentityGenerator, Reg};
use cerussite::ir::value::{Register, RegisterName, Value};

#[test]
fn test_basic_block() {
    let mut bb = BasicBlock::new();
    let lhs = Value::Constant(0);
    let rhs = Value::Constant(1);
    let add = bb.add(lhs, rhs);
    bb.ret(add);
    let _label = bb.label();
}

#[test]
fn test_function() {
    let mut func = Function::new();
    let block = BasicBlock::new();
    func.push(block);
}

#[test]
fn test_instruction() {
    let reg = Register::new();
    let reg1 = Register::new();
    let reg2 = Register::new();
    let reg3 = Register::new();
    let val1 = Value::Register(reg1.make_ref());
    let val2 = Value::Register(reg2.make_ref());
    let val3 = Value::Register(reg3.make_ref());
    let _add = Instruction::Add(reg, val1, val2);
    let _ret = Instruction::Ret(val3);
}

#[test]
fn test() {
    let mut b = BasicBlock::new();
    let v0 = Value::Constant(0);
    let v1 = Value::Constant(1);
    let v2 = Value::Constant(2);
    let v3 = Value::Constant(3);
    let a0 = b.add(v0, v1);
    let a1 = b.add(v2, v3);
    let a2 = b.add(a0, a1);
    b.ret(a2);
}

#[test]
fn test_identity() {
    let a = Identity::new();
    let mut b = Identity::new();
    let c = b.next();
    assert_ne!(a, b);
    assert_eq!(a, c);
}

#[test]
fn test_identity_generator() {
    let mut a = IdentityGenerator::new();
    let b = a.generate();
    let c = a.generate();
    assert_ne!(b, c);
}

#[test]
fn test_reg() {
    let mut a = IdentityGenerator::new();
    let b = Reg::new(&mut a);
    let c = Reg::new(&mut a);
    assert_ne!(b, c);
}

#[test]
fn register_test_register_name() {
    let _a = cerussite::ir::register::RegisterName::Unnamed();
    let _b = cerussite::ir::register::RegisterName::Numbering(0);
}

#[test]
fn register_test_register() {
    let a = cerussite::ir::register::Register::new();
    let b = a.clone();
    b.set(0);
}

#[test]
fn value_test_register_name() {
    let _a = RegisterName::Unnamed();
    let b = RegisterName::Numbering(0);
    assert_eq!(b.to_string(), "0");
}

#[test]
fn value_test_register() {
    let a = Register::new();
    let _b = a.make_ref();
    let _c = a.set(0);
    assert_eq!(a.to_string(), "0");
}

#[test]
fn test_value() {
    let a = Register::new();
    let b = Value::Constant(0);
    let c = Value::Register(a.make_ref());
    let d = Value::Label(a.make_ref());
    a.set(0);
    assert_eq!(b.to_string(), "0");
    assert_eq!(c.to_string(), "%0");
    assert_eq!(d.to_string(), "%0");
}

