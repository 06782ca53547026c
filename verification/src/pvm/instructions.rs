//! Machine instructions of the register machine, their decoded form and the
//! decoder between the two.
use vstd::prelude::*;
use crate::pvm::registers::RegisterBank;
use crate::pvm::vm_errors::VMError;

verus! {

/// Turns instructions into their decoded form.
pub struct InstructionDecoder;

/// An instruction decoded and ready to execute.
#[derive(Debug, Copy, Clone, PartialEq, Eq, Structural)]
pub enum DecodedInstruction {
    Arithmetic(ArithmeticOp),
    Memory(MemoryOp),
    Control(ControlOp),
}

/// A memory address.
#[derive(Debug, Clone, Copy, PartialEq, Eq, Structural)]
pub struct Address(pub u64);

/// The instructions of the machine.
#[derive(Debug, Clone, PartialEq, Eq, Structural)]
pub enum Instruction {
    /// `add d, a, b`
    Add(RegisterId, RegisterId, RegisterId),
    /// `sub d, a, b`
    Sub(RegisterId, RegisterId, RegisterId),
    /// `mul d, a, b`
    Mul(RegisterId, RegisterId, RegisterId),
    /// `div d, a, b`
    Div(RegisterId, RegisterId, RegisterId),
    /// `load r, addr`
    Load(RegisterId, Address),
    /// `store r, addr`
    Store(RegisterId, Address),
    /// `move d, s`
    Move(RegisterId, RegisterId),
    /// `loadimm r, value`
    LoadImm(RegisterId, i64),
    /// `jump addr`
    Jump(Address),
    /// `jumpif r, addr`
    JumpIf(RegisterId, Address),
    /// `call addr`
    Call(Address),
    /// `return`
    Return,
    /// `nop`
    Nop,
    /// `halt`
    Halt,
}

/// Decoded arithmetic operations.
#[derive(Debug, Clone, Copy, PartialEq, Eq, Structural)]
pub enum ArithmeticOp {
    Add { dest: RegisterId, src1: RegisterId, src2: RegisterId },
    Sub { dest: RegisterId, src1: RegisterId, src2: RegisterId },
    Mul { dest: RegisterId, src1: RegisterId, src2: RegisterId },
    Div { dest: RegisterId, src1: RegisterId, src2: RegisterId },
}

/// Decoded memory and register-transfer operations.
#[derive(Debug, Clone, Copy, PartialEq, Eq, Structural)]
pub enum MemoryOp {
    Load { reg: RegisterId, addr: Address },
    Store { reg: RegisterId, addr: Address },
    Move { dest: RegisterId, src: RegisterId },
    LoadImm { reg: RegisterId, value: i64 },
}

/// Decoded control operations.
#[derive(Debug, Clone, Copy, PartialEq, Eq, Structural)]
pub enum ControlOp {
    Jump { addr: Address },
    JumpIf { condition: RegisterId, addr: Address },
    Call { addr: Address },
    Return,
    Nop,
    Halt,
}

/// Number of a register.
#[derive(Debug, Clone, Copy, PartialEq, Eq, Hash, Structural)]
pub struct RegisterId(pub u8);

/// Decoded form of an instruction.
pub open spec fn decoded_of(i: Instruction) -> DecodedInstruction {
    match i {
        Instruction::Add(dest, src1, src2) => DecodedInstruction::Arithmetic(
            ArithmeticOp::Add { dest, src1, src2 },
        ),
        Instruction::Sub(dest, src1, src2) => DecodedInstruction::Arithmetic(
            ArithmeticOp::Sub { dest, src1, src2 },
        ),
        Instruction::Mul(dest, src1, src2) => DecodedInstruction::Arithmetic(
            ArithmeticOp::Mul { dest, src1, src2 },
        ),
        Instruction::Div(dest, src1, src2) => DecodedInstruction::Arithmetic(
            ArithmeticOp::Div { dest, src1, src2 },
        ),
        Instruction::Load(reg, addr) => DecodedInstruction::Memory(MemoryOp::Load { reg, addr }),
        Instruction::Store(reg, addr) => DecodedInstruction::Memory(MemoryOp::Store { reg, addr }),
        Instruction::Move(dest, src) => DecodedInstruction::Memory(MemoryOp::Move { dest, src }),
        Instruction::LoadImm(reg, value) => DecodedInstruction::Memory(
            MemoryOp::LoadImm { reg, value },
        ),
        Instruction::Jump(addr) => DecodedInstruction::Control(ControlOp::Jump { addr }),
        Instruction::JumpIf(condition, addr) => DecodedInstruction::Control(
            ControlOp::JumpIf { condition, addr },
        ),
        Instruction::Call(addr) => DecodedInstruction::Control(ControlOp::Call { addr }),
        Instruction::Return => DecodedInstruction::Control(ControlOp::Return),
        Instruction::Halt => DecodedInstruction::Control(ControlOp::Halt),
        Instruction::Nop => DecodedInstruction::Control(ControlOp::Nop),
    }
}

/// Instruction that a decoded instruction stands for.
pub open spec fn instruction_of(d: DecodedInstruction) -> Instruction {
    match d {
        DecodedInstruction::Arithmetic(op) => match op {
            ArithmeticOp::Add { dest, src1, src2 } => Instruction::Add(dest, src1, src2),
            ArithmeticOp::Sub { dest, src1, src2 } => Instruction::Sub(dest, src1, src2),
            ArithmeticOp::Mul { dest, src1, src2 } => Instruction::Mul(dest, src1, src2),
            ArithmeticOp::Div { dest, src1, src2 } => Instruction::Div(dest, src1, src2),
        },
        DecodedInstruction::Memory(op) => match op {
            MemoryOp::LoadImm { reg, value } => Instruction::LoadImm(reg, value),
            MemoryOp::Load { reg, addr } => Instruction::Load(reg, addr),
            MemoryOp::Store { reg, addr } => Instruction::Store(reg, addr),
            MemoryOp::Move { dest, src } => Instruction::Move(dest, src),
        },
        DecodedInstruction::Control(op) => match op {
            ControlOp::Jump { addr } => Instruction::Jump(addr),
            ControlOp::JumpIf { condition, addr } => Instruction::JumpIf(condition, addr),
            ControlOp::Call { addr } => Instruction::Call(addr),
            ControlOp::Return => Instruction::Return,
            ControlOp::Halt => Instruction::Halt,
            ControlOp::Nop => Instruction::Nop,
        },
    }
}

/// Target of a jump, conditional jump or call; 0 for any other instruction.
pub open spec fn control_target(d: DecodedInstruction) -> u64 {
    match d {
        DecodedInstruction::Control(ControlOp::Jump { addr }) => addr.0,
        DecodedInstruction::Control(ControlOp::JumpIf { addr, .. }) => addr.0,
        DecodedInstruction::Control(ControlOp::Call { addr }) => addr.0,
        _ => 0,
    }
}

impl Instruction {
    /// Whether this is a jump, a conditional jump or a call.
    pub fn is_branch(&self) -> (r: bool)
        ensures
            r <==> (self is Jump || self is JumpIf || self is Call),
    {
        match self {
            Instruction::Jump(_) | Instruction::JumpIf(_, _) | Instruction::Call(_) => true,
            _ => false,
        }
    }

    /// Target of a jump, conditional jump or call; 0 for any other
    /// instruction.
    pub fn get_target_address(&self) -> (r: u64)
        ensures
            r == control_target(decoded_of(*self)),
    {
        match self {
            Instruction::Jump(addr) => addr.0,
            Instruction::JumpIf(_, addr) => addr.0,
            Instruction::Call(addr) => addr.0,
            _ => 0,
        }
    }
}

impl DecodedInstruction {
    /// Whether the branch is taken: jumps and calls always are; a
    /// conditional jump is when its condition register holds a value other
    /// than zero (a register beyond the bank counts as not taken); nothing
    /// else is.
    pub fn is_taken(&self, registers: &RegisterBank) -> (r: bool)
        ensures
            r == match *self {
                DecodedInstruction::Control(ControlOp::Jump { .. }) => true,
                DecodedInstruction::Control(ControlOp::Call { .. }) => true,
                DecodedInstruction::Control(ControlOp::JumpIf { condition, .. }) => (condition.0 as int)
                    < registers@.len() && registers@[condition.0 as int] != 0,
                _ => false,
            },
    {
        match self {
            DecodedInstruction::Control(op) => match op {
                ControlOp::Jump { .. } => true,
                ControlOp::JumpIf { condition, .. } => {
                    match registers.read_register(*condition) {
                        Ok(value) => value != 0,
                        Err(_) => false,
                    }
                },
                ControlOp::Call { .. } => true,
                _ => false,
            },
            _ => false,
        }
    }

    /// Target of a jump, conditional jump or call; 0 for any other
    /// instruction.
    pub fn get_target_address(&self) -> (r: u64)
        ensures
            r == control_target(*self),
    {
        match self {
            DecodedInstruction::Control(op) => match op {
                ControlOp::Jump { addr } => addr.0,
                ControlOp::JumpIf { addr, .. } => addr.0,
                ControlOp::Call { addr } => addr.0,
                _ => 0,
            },
            _ => 0,
        }
    }
}

impl InstructionDecoder {
    /// A decoder.
    pub fn new() -> (d: Self) {
        InstructionDecoder
    }

    /// Decodes `instruction`; every instruction has a decoded form.
    pub fn decode(&self, instruction: Instruction) -> (r: Result<DecodedInstruction, VMError>)
        ensures
            r == Ok::<DecodedInstruction, VMError>(decoded_of(instruction)),
    {
        Ok(to_decoded(instruction))
    }
}

/// Decoded form of `i`.
fn to_decoded(i: Instruction) -> (d: DecodedInstruction)
    ensures
        d == decoded_of(i),
{
    match i {
        Instruction::Add(dest, src1, src2) => DecodedInstruction::Arithmetic(
            ArithmeticOp::Add { dest, src1, src2 },
        ),
        Instruction::Sub(dest, src1, src2) => DecodedInstruction::Arithmetic(
            ArithmeticOp::Sub { dest, src1, src2 },
        ),
        Instruction::Mul(dest, src1, src2) => DecodedInstruction::Arithmetic(
            ArithmeticOp::Mul { dest, src1, src2 },
        ),
        Instruction::Div(dest, src1, src2) => DecodedInstruction::Arithmetic(
            ArithmeticOp::Div { dest, src1, src2 },
        ),
        Instruction::Load(reg, addr) => DecodedInstruction::Memory(MemoryOp::Load { reg, addr }),
        Instruction::Store(reg, addr) => DecodedInstruction::Memory(MemoryOp::Store { reg, addr }),
        Instruction::Move(dest, src) => DecodedInstruction::Memory(MemoryOp::Move { dest, src }),
        Instruction::LoadImm(reg, value) => DecodedInstruction::Memory(
            MemoryOp::LoadImm { reg, value },
        ),
        Instruction::Jump(addr) => DecodedInstruction::Control(ControlOp::Jump { addr }),
        Instruction::JumpIf(condition, addr) => DecodedInstruction::Control(
            ControlOp::JumpIf { condition, addr },
        ),
        Instruction::Call(addr) => DecodedInstruction::Control(ControlOp::Call { addr }),
        Instruction::Return => DecodedInstruction::Control(ControlOp::Return),
        Instruction::Halt => DecodedInstruction::Control(ControlOp::Halt),
        Instruction::Nop => DecodedInstruction::Control(ControlOp::Nop),
    }
}

impl From<DecodedInstruction> for Instruction {
    fn from(decoded: DecodedInstruction) -> (r: Self) {
        match decoded {
            DecodedInstruction::Arithmetic(op) => match op {
                ArithmeticOp::Add { dest, src1, src2 } => Instruction::Add(dest, src1, src2),
                ArithmeticOp::Sub { dest, src1, src2 } => Instruction::Sub(dest, src1, src2),
                ArithmeticOp::Mul { dest, src1, src2 } => Instruction::Mul(dest, src1, src2),
                ArithmeticOp::Div { dest, src1, src2 } => Instruction::Div(dest, src1, src2),
            },
            DecodedInstruction::Memory(op) => match op {
                MemoryOp::LoadImm { reg, value } => Instruction::LoadImm(reg, value),
                MemoryOp::Load { reg, addr } => Instruction::Load(reg, addr),
                MemoryOp::Store { reg, addr } => Instruction::Store(reg, addr),
                MemoryOp::Move { dest, src } => Instruction::Move(dest, src),
            },
            DecodedInstruction::Control(op) => match op {
                ControlOp::Jump { addr } => Instruction::Jump(addr),
                ControlOp::JumpIf { condition, addr } => Instruction::JumpIf(condition, addr),
                ControlOp::Call { addr } => Instruction::Call(addr),
                ControlOp::Return => Instruction::Return,
                ControlOp::Halt => Instruction::Halt,
                ControlOp::Nop => Instruction::Nop,
            },
        }
    }
}

impl vstd::std_specs::convert::FromSpecImpl<DecodedInstruction> for Instruction {
    open spec fn obeys_from_spec() -> bool {
        true
    }

    open spec fn from_spec(v: DecodedInstruction) -> Instruction {
        instruction_of(v)
    }
}

impl From<Instruction> for DecodedInstruction {
    fn from(instruction: Instruction) -> (r: Self) {
        to_decoded(instruction)
    }
}

impl vstd::std_specs::convert::FromSpecImpl<Instruction> for DecodedInstruction {
    open spec fn obeys_from_spec() -> bool {
        true
    }

    open spec fn from_spec(v: Instruction) -> DecodedInstruction {
        decoded_of(v)
    }
}

/// Decoding and converting back are inverse: an instruction comes back
/// unchanged from its decoded form, and a decoded instruction from the
/// instruction it stands for.
pub proof fn lemma_decode_round_trip(i: Instruction, d: DecodedInstruction)
    ensures
        instruction_of(decoded_of(i)) == i,
        decoded_of(instruction_of(d)) == d,
{
}

} // verus!
