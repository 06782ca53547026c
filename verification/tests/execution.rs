use pvm_sim::pvm::instructions::{Address, ArithmeticOp, ControlOp, DecodedInstruction, MemoryOp, RegisterId};
use pvm_sim::pvm::pipelines::execute_instruction;
use pvm_sim::pvm::registers::RegisterBank;
use pvm_sim::pvm::vm_errors::VMError;

fn bank(values: &[i64]) -> RegisterBank {
    let mut b = RegisterBank::new(values.len()).unwrap();
    for (i, v) in values.iter().enumerate() {
        b.write_register(RegisterId(i as u8), *v).unwrap();
    }
    b
}

fn arith(op: fn(RegisterId, RegisterId, RegisterId) -> ArithmeticOp, a: u8, b: u8) -> DecodedInstruction {
    DecodedInstruction::Arithmetic(op(RegisterId(7), RegisterId(a), RegisterId(b)))
}

fn add(dest: RegisterId, src1: RegisterId, src2: RegisterId) -> ArithmeticOp {
    ArithmeticOp::Add { dest, src1, src2 }
}
fn sub(dest: RegisterId, src1: RegisterId, src2: RegisterId) -> ArithmeticOp {
    ArithmeticOp::Sub { dest, src1, src2 }
}
fn mul(dest: RegisterId, src1: RegisterId, src2: RegisterId) -> ArithmeticOp {
    ArithmeticOp::Mul { dest, src1, src2 }
}
fn div(dest: RegisterId, src1: RegisterId, src2: RegisterId) -> ArithmeticOp {
    ArithmeticOp::Div { dest, src1, src2 }
}

#[test]
fn execute_arithmetic_wraps_and_sets_flags() {
    let regs = bank(&[5, 3, i64::MAX, -1, 0, i64::MIN, -7, 0]);
    let r = execute_instruction(&arith(add, 0, 1), &regs).unwrap();
    assert_eq!(r.value, 8);
    assert!(!r.flags.zero && !r.flags.negative && !r.flags.overflow && !r.flags.carry);
    assert!(!r.branch_taken && r.target_address.is_none());
    let r = execute_instruction(&arith(sub, 1, 0), &regs).unwrap();
    assert_eq!(r.value, -2);
    assert!(r.flags.negative && !r.flags.zero);
    let r = execute_instruction(&arith(add, 2, 1), &regs).unwrap();
    assert_eq!(r.value, i64::MAX.wrapping_add(3));
    assert!(r.flags.negative);
    let r = execute_instruction(&arith(mul, 2, 1), &regs).unwrap();
    assert_eq!(r.value, i64::MAX.wrapping_mul(3));
    let r = execute_instruction(&arith(sub, 0, 0), &regs).unwrap();
    assert_eq!(r.value, 0);
    assert!(r.flags.zero && !r.flags.negative);
}

#[test]
fn execute_division_rounds_toward_zero() {
    let regs = bank(&[5, 3, i64::MAX, -1, 0, i64::MIN, -7, 2]);
    assert_eq!(execute_instruction(&arith(div, 6, 7), &regs).unwrap().value, -3);
    assert_eq!(execute_instruction(&arith(div, 6, 3), &regs).unwrap().value, 7);
    assert_eq!(execute_instruction(&arith(div, 0, 6), &regs).unwrap().value, 0);
    assert_eq!(execute_instruction(&arith(div, 2, 1), &regs).unwrap().value, i64::MAX / 3);
    assert_eq!(execute_instruction(&arith(div, 5, 3), &regs).unwrap().value, i64::MIN.wrapping_div(-1));
    assert_eq!(execute_instruction(&arith(div, 5, 7), &regs).unwrap().value, i64::MIN / 2);
    assert_eq!(execute_instruction(&arith(div, 5, 4), &regs).err(), Some(VMError::DivisionByZero));
}

#[test]
fn execute_reports_the_first_bad_register() {
    let regs = bank(&[1, 2]);
    assert_eq!(execute_instruction(&arith(add, 9, 8), &regs).err(), Some(VMError::InvalidRegister(9)));
    assert_eq!(execute_instruction(&arith(div, 0, 8), &regs).err(), Some(VMError::InvalidRegister(8)));
    let store = DecodedInstruction::Memory(MemoryOp::Store { reg: RegisterId(4), addr: Address(0) });
    assert_eq!(execute_instruction(&store, &regs).err(), Some(VMError::InvalidRegister(4)));
}

#[test]
fn execute_memory_and_control_operations() {
    let regs = bank(&[11, 22, 33]);
    let imm = DecodedInstruction::Memory(MemoryOp::LoadImm { reg: RegisterId(0), value: -9 });
    let r = execute_instruction(&imm, &regs).unwrap();
    assert_eq!(r.value, -9);
    assert!(!r.flags.negative && !r.flags.zero);
    let load = DecodedInstruction::Memory(MemoryOp::Load { reg: RegisterId(0), addr: Address(64) });
    assert_eq!(execute_instruction(&load, &regs).unwrap().value, 0);
    let store = DecodedInstruction::Memory(MemoryOp::Store { reg: RegisterId(1), addr: Address(64) });
    assert_eq!(execute_instruction(&store, &regs).unwrap().value, 22);
    let mv = DecodedInstruction::Memory(MemoryOp::Move { dest: RegisterId(0), src: RegisterId(2) });
    assert_eq!(execute_instruction(&mv, &regs).unwrap().value, 33);
    let jump = DecodedInstruction::Control(ControlOp::Jump { addr: Address(0x40) });
    let r = execute_instruction(&jump, &regs).unwrap();
    assert_eq!(r.value, 0);
    assert!(!r.branch_taken && r.target_address.is_none());
}
