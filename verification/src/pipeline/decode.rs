//! Decode stage: names the registers of an instruction, reads them, and
//! works out its immediate, branch target, memory address and stack use.
use vstd::prelude::*;
use crate::bytecode::{arg_size, spec_arg_value, ArgError, ArgValue, Instruction, Opcode, HEADER_SIZE};
use crate::pipeline::{DecodeExecuteRegister, FetchDecodeRegister};
use crate::pipeline::ras::{ras_pushed, ReturnAddressStack};
use crate::pvm::branch_predictor::{BranchPrediction, BranchPredictor, PredictorType};

verus! {

/// Operations on the stack.
#[derive(Debug, Clone, Copy, PartialEq, Eq, Structural)]
pub enum StackOperation {
    Push,
    Pop,
}

/// The decode stage: a branch predictor and a return address stack.
pub struct DecodeStage {
    pub branch_predictor: BranchPredictor,
    pub ras: ReturnAddressStack,
}

/// First, second and third argument of an instruction.
pub open spec fn arg1(i: Instruction) -> Result<ArgValue, ArgError> {
    spec_arg_value(i.format.arg1, i.args@, 0)
}

pub open spec fn arg2(i: Instruction) -> Result<ArgValue, ArgError> {
    spec_arg_value(i.format.arg2, i.args@, arg_size(i.format.arg1) as int)
}

pub open spec fn arg3(i: Instruction) -> Result<ArgValue, ArgError> {
    spec_arg_value(
        i.format.arg3,
        i.args@,
        (arg_size(i.format.arg1) + arg_size(i.format.arg2)) as int,
    )
}

/// The register an argument names, if it is a register.
pub open spec fn reg_of(a: Result<ArgValue, ArgError>) -> Option<usize> {
    match a {
        Ok(ArgValue::Register(r)) => Some(r as usize),
        _ => None,
    }
}

/// The base register of an argument, if it is a base and an offset.
pub open spec fn base_of(a: Result<ArgValue, ArgError>) -> Option<usize> {
    match a {
        Ok(ArgValue::RegisterOffset(r, _)) => Some(r as usize),
        _ => None,
    }
}

/// The value of an argument, if it is an immediate.
pub open spec fn imm_of(a: Result<ArgValue, ArgError>) -> Option<u64> {
    match a {
        Ok(ArgValue::Immediate(v)) => Some(v),
        _ => None,
    }
}

/// Operations on a destination register and a second register.
pub open spec fn is_two_register_op(op: Opcode) -> bool {
    match op {
        Opcode::Add | Opcode::Sub | Opcode::Mul | Opcode::Div | Opcode::And | Opcode::Or
        | Opcode::Xor | Opcode::Shl | Opcode::Shr | Opcode::Sar | Opcode::Rol | Opcode::Ror => true,
        _ => false,
    }
}

/// Operations on one register, both source and destination.
pub open spec fn is_one_register_op(op: Opcode) -> bool {
    match op {
        Opcode::Inc | Opcode::Dec | Opcode::Neg | Opcode::Not => true,
        _ => false,
    }
}

/// Source, second source and destination registers (`rs1`, `rs2`, `rd`)
/// of an instruction; none for an opcode the stage does not decode. Three
/// register arguments are read as `rd, rs1, rs2` whatever the opcode.
pub open spec fn decoded_registers(i: Instruction) -> Option<(Option<usize>, Option<usize>, Option<usize>)> {
    let a1 = arg1(i);
    let a2 = arg2(i);
    match arg3(i) {
        Ok(ArgValue::Register(r3)) => Some((reg_of(a2), Some(r3 as usize), reg_of(a1))),
        _ => if is_two_register_op(i.opcode) {
            Some((reg_of(a1), reg_of(a2), reg_of(a1)))
        } else if is_one_register_op(i.opcode) {
            Some((reg_of(a1), None, reg_of(a1)))
        } else if i.opcode is Cmp || i.opcode is Test {
            Some((reg_of(a1), reg_of(a2), None))
        } else if i.opcode.is_load() {
            Some((base_of(a2), None, reg_of(a1)))
        } else if i.opcode.is_store() {
            Some((reg_of(a1), base_of(a2), None))
        } else if i.opcode is Push {
            Some((reg_of(a1), None, None))
        } else if i.opcode is Pop || i.opcode is Mov {
            Some((None, None, reg_of(a1)))
        } else if i.opcode.is_branch() || i.opcode is Call || i.opcode is Ret || i.opcode is Halt {
            Some((None, None, None))
        } else {
            None
        },
    }
}

/// The first immediate argument, if any.
pub open spec fn decoded_immediate(i: Instruction) -> Option<u64> {
    if imm_of(arg1(i)) is Some {
        imm_of(arg1(i))
    } else if imm_of(arg2(i)) is Some {
        imm_of(arg2(i))
    } else {
        imm_of(arg3(i))
    }
}

/// Address of the instruction that follows the one at `pc`.
pub open spec fn next_pc(i: Instruction, pc: u32) -> int {
    pc + (i.spec_total_size() as u32)
}

/// Branch target of a jump: the next instruction's address plus a relative
/// offset, or an absolute address; none for other instructions; an error
/// (outer none) for a jump whose second argument is neither.
pub open spec fn decoded_branch(i: Instruction, pc: u32) -> Option<Option<u32>> {
    if !i.opcode.is_branch() {
        Some(None)
    } else {
        match arg2(i) {
            Ok(ArgValue::RelativeAddr(off)) => Some(Some((((next_pc(i, pc) as u32) as i32) + off) as u32)),
            Ok(ArgValue::AbsoluteAddr(a)) => Some(Some(a)),
            _ => None,
        }
    }
}

/// Memory address of a load or a store, from its second argument; none
/// for other instructions; an error (outer none) for a register beyond the
/// bank or an argument that names no address.
pub open spec fn decoded_memory_address(i: Instruction, regs: Seq<u64>) -> Option<Option<u32>> {
    if i.opcode.is_load() || i.opcode.is_store() {
        match arg2(i) {
            Ok(ArgValue::AbsoluteAddr(a)) => Some(Some(a)),
            Ok(ArgValue::RelativeAddr(off)) => Some(Some(off as u32)),
            Ok(ArgValue::RegisterOffset(reg, off)) => if (reg as int) < regs.len() {
                Some(Some(vstd::wrapping::u64_specs::wrapping_add(regs[reg as int], off as u64) as u32))
            } else {
                None
            },
            Ok(ArgValue::Register(reg)) => if (reg as int) < regs.len() {
                Some(Some(regs[reg as int] as u32))
            } else {
                None
            },
            _ => None,
        }
    } else {
        Some(None)
    }
}

/// Value read for a source register: 0 without one or beyond the bank.
pub open spec fn source_value(regs: Seq<u64>, index: Option<usize>) -> u64 {
    match index {
        Some(ix) => if (ix as int) < regs.len() {
            regs[ix as int]
        } else {
            0
        },
        None => 0,
    }
}

/// Stack operation and pushed value: a push pushes its immediate, or else
/// its register; a call pushes the return address; a pop and a return pop.
pub open spec fn decoded_stack(
    i: Instruction,
    pc: u32,
    imm: Option<u64>,
    rs1: Option<usize>,
    regs: Seq<u64>,
) -> (Option<StackOperation>, Option<u64>) {
    match i.opcode {
        Opcode::Push => (Some(StackOperation::Push), if imm is Some {
            imm
        } else {
            match rs1 {
                Some(reg) => if (reg as int) < regs.len() {
                    Some(regs[reg as int])
                } else {
                    None
                },
                None => None,
            }
        }),
        Opcode::Pop => (Some(StackOperation::Pop), None),
        Opcode::Call => (Some(StackOperation::Push), Some((next_pc(i, pc) as u32) as u64)),
        Opcode::Ret => (Some(StackOperation::Pop), None),
        _ => (None, None),
    }
}

/// The most recent entry of a return address stack.
pub open spec fn ras_top(entries: Seq<u32>) -> Option<u32> {
    if entries.len() > 0 {
        Some(entries.last())
    } else {
        None
    }
}

/// Decoding `i` at `pc` does no arithmetic that overflows: the size fits a
/// `usize`, a call's return address and a relative jump's next address fit
/// a `u32`, and a relative jump's target fits an `i32`.
pub open spec fn decode_fits(i: Instruction, pc: u32) -> bool {
    &&& i.args@.len() + HEADER_SIZE <= usize::MAX
    &&& (i.opcode is Call ==> next_pc(i, pc) <= u32::MAX)
    &&& (i.opcode.is_branch() ==> match arg2(i) {
        Ok(ArgValue::RelativeAddr(off)) => next_pc(i, pc) <= u32::MAX && i32::MIN <= ((next_pc(
            i,
            pc,
        ) as u32) as i32) + off <= i32::MAX,
        _ => true,
    })
}

/// Decoding `fd` with register values `vals` took the stage from `st0` to
/// `st1` and gave `d`: the registers the instruction names and their values,
/// its immediate, its branch target (for a return, the top of the return
/// address stack), its memory address and its stack operation; a jump with
/// a target is predicted, a call pushes its return address.
pub open spec fn decoded(
    st0: DecodeStage,
    st1: DecodeStage,
    fd: FetchDecodeRegister,
    vals: Seq<u64>,
    d: DecodeExecuteRegister,
) -> bool {
    let i = fd.instruction;
    let pc = fd.pc;
    let regs = decoded_registers(i).unwrap();
    let imm = decoded_immediate(i);
    let b = decoded_branch(i, pc).unwrap();
    let predicts = i.opcode.is_branch() && b is Some;
    &&& d.instruction@ == i@
    &&& d.pc == pc
    &&& d.rs1 == regs.0
    &&& d.rs2 == regs.1
    &&& d.rd == regs.2
    &&& d.rs1_value == source_value(vals, regs.0)
    &&& d.rs2_value == source_value(vals, regs.1)
    &&& d.immediate == imm
    &&& d.branch_addr == (if i.opcode is Ret {
        ras_top(st0.ras.entries())
    } else {
        b
    })
    &&& d.mem_addr == decoded_memory_address(i, vals).unwrap()
    &&& (d.stack_operation, d.stack_value) == decoded_stack(i, pc, imm, regs.0, vals)
    &&& predicts ==> (d.branch_prediction matches Some(p) && BranchPredictor::predicted(
        st0.branch_predictor,
        st1.branch_predictor,
        pc as u64,
        p,
    ))
    &&& !predicts ==> d.branch_prediction is None && st1.branch_predictor == st0.branch_predictor
    &&& i.opcode is Call ==> {
        &&& st1.ras.entries() == ras_pushed(
            st0.ras.entries(),
            st0.ras.spec_max_size(),
            next_pc(i, pc) as u32,
        )
        &&& st1.ras.spec_max_size() == st0.ras.spec_max_size()
        &&& st1.ras.counters() == ((st0.ras.counters().0 + 1) as u64, st0.ras.counters().1, st0.ras.counters().2, st0.ras.counters().3)
    }
    &&& !(i.opcode is Call) ==> st1.ras == st0.ras
}

/// `m` is the message of the error for a load or store whose address cannot
/// be formed: one naming the register for a base register beyond the bank,
/// else "Adresse mémoire invalide".
pub open spec fn memory_address_message(i: Instruction, m: Seq<char>) -> bool {
    if arg2(i) matches Ok(ArgValue::RegisterOffset(_, _)) || arg2(i) matches Ok(ArgValue::Register(_)) {
        "Register R"@.is_prefix_of(m)
    } else {
        m == "Adresse mémoire invalide"@
    }
}

/// `m` is the message of the error that decoding `i` at `pc` fails with:
/// the opcode is named first, then the branch target, then the memory
/// address.
pub open spec fn decode_error_message(i: Instruction, pc: u32, registers: Seq<u64>, m: Seq<char>) -> bool {
    if decoded_registers(i) is None {
        "Instruction non prise en charge"@.is_prefix_of(m)
    } else if decoded_branch(i, pc) is None {
        m == "Format d'adresse de branchement invalide"@
    } else {
        memory_address_message(i, m)
    }
}

/// Message of the error for an opcode the stage does not decode, made by
/// std's `format!`, which copies the literal text before the first
/// placeholder to the start of the string; the contract states that prefix.
#[verifier::external_body]
fn unsupported_message(opcode: Opcode) -> (s: String)
    ensures
        "Instruction non prise en charge"@.is_prefix_of(s@),
{
    format!("Instruction non prise en charge: {:?}", opcode)
}

/// Message of the error for an address register beyond the bank, made by
/// std's `format!`, which copies the literal text before the first
/// placeholder to the start of the string; the contract states that prefix.
#[verifier::external_body]
fn register_range_message(reg: u8) -> (s: String)
    ensures
        "Register R"@.is_prefix_of(s@),
{
    format!("Register R{} out of range", reg)
}

/// Value of source register `index` in `registers`: 0 without one or
/// beyond the bank.
fn source_register_value(registers: &[u64], index: Option<usize>) -> (v: u64)
    ensures
        v == source_value(registers@, index),
{
    match index {
        Some(ix) => if ix < registers.len() {
            registers[ix]
        } else {
            0
        },
        None => 0,
    }
}

impl DecodeStage {
    /// A stage with a dynamic branch predictor and a 32-entry return
    /// address stack.
    pub fn new() -> (s: Self)
        ensures
            s.branch_predictor.wf(),
            s.branch_predictor.prediction_type == PredictorType::Dynamic,
            s.branch_predictor.metrics.predictions_made == 0,
            s.ras.entries() == Seq::<u32>::empty(),
            s.ras.spec_max_size() == 32,
            s.ras.counters() == (0u64, 0u64, 0u64, 0u64),
    {
        DecodeStage {
            branch_predictor: BranchPredictor::new(PredictorType::Dynamic),
            ras: ReturnAddressStack::new(32),
        }
    }

    /// Decodes the instruction of `fd_reg`: its registers and their values
    /// in `registers`, its immediate, its branch target (for a return, the
    /// top of the return address stack), its memory address and its stack
    /// operation. A jump with a target is predicted; a call pushes its
    /// return address. An opcode the stage does not decode, a jump without a
    /// target and a load or store without an address are refused, with the
    /// stage unchanged.
    pub fn process_direct(&mut self, fd_reg: &FetchDecodeRegister, registers: &[u64]) -> (r: Result<
        DecodeExecuteRegister,
        String,
    >)
        requires
            old(self).branch_predictor.wf(),
            old(self).branch_predictor.metrics.predictions_made < usize::MAX,
            old(self).ras.counters().0 < u64::MAX,
            decode_fits(fd_reg.instruction, fd_reg.pc),
        ensures
            ({
                let i = fd_reg.instruction;
                r is Ok <==> (decoded_registers(i) is Some && decoded_branch(i, fd_reg.pc) is Some
                    && decoded_memory_address(i, registers@) is Some)
            }),
            r is Err ==> *final(self) == *old(self),
            r matches Err(m) ==> decode_error_message(fd_reg.instruction, fd_reg.pc, registers@, m@),
            r matches Ok(d) ==> decoded(*old(self), *final(self), *fd_reg, registers@, d),
    {
        let instruction = &fd_reg.instruction;
        let (rs1_index, rs2_index, rd_index) = match self.extract_registers(instruction) {
            Ok(t) => t,
            Err(e) => return Err(e),
        };
        let rs1_value = source_register_value(registers, rs1_index);
        let rs2_value = source_register_value(registers, rs2_index);
        let immediate = match self.extract_immediate(instruction) {
            Ok(v) => v,
            Err(e) => return Err(e),
        };
        let mut branch_addr = match self.calculate_branch_address(instruction, fd_reg.pc) {
            Ok(b) => b,
            Err(e) => return Err(e),
        };
        let mut prediction: Option<BranchPrediction> = None;
        if instruction.opcode.is_branch() && branch_addr.is_some() {
            prediction = Some(self.branch_predictor.predict(fd_reg.pc as u64));
        }
        if instruction.opcode == Opcode::Call {
            let return_address = fd_reg.pc + instruction.total_size() as u32;
            self.ras.push(return_address);
        } else if instruction.opcode == Opcode::Ret {
            match self.ras.predict() {
                Some(predicted_addr) => {
                    branch_addr = Some(predicted_addr);
                },
                None => {
                    branch_addr = None;
                },
            }
        }
        let mem_addr = match self.calculate_memory_address(instruction, registers) {
            Ok(a) => a,
            Err(e) => return Err(e),
        };
        let (stack_operation, stack_value) = match instruction.opcode {
            Opcode::Push => {
                let value = if immediate.is_some() {
                    immediate
                } else {
                    match rs1_index {
                        Some(reg) => if reg < registers.len() {
                            Some(registers[reg])
                        } else {
                            None
                        },
                        None => None,
                    }
                };
                (Some(StackOperation::Push), value)
            },
            Opcode::Pop => (Some(StackOperation::Pop), None),
            Opcode::Call => {
                let return_address = fd_reg.pc + instruction.total_size() as u32;
                (Some(StackOperation::Push), Some(return_address as u64))
            },
            Opcode::Ret => (Some(StackOperation::Pop), None),
            _ => (None, None),
        };
        Ok(
            DecodeExecuteRegister {
                instruction: instruction.clone(),
                pc: fd_reg.pc,
                rs1: rs1_index,
                rs2: rs2_index,
                rd: rd_index,
                rs1_value,
                rs2_value,
                immediate,
                branch_addr,
                branch_prediction: prediction,
                mem_addr,
                stack_operation,
                stack_value,
            },
        )
    }

    /// Source, second source and destination registers of an instruction.
    fn extract_registers(&self, instruction: &Instruction) -> (r: Result<
        (Option<usize>, Option<usize>, Option<usize>),
        String,
    >)
        ensures
            match r {
                Ok(t) => decoded_registers(*instruction) == Some(t),
                Err(m) => decoded_registers(*instruction) is None
                    && "Instruction non prise en charge"@.is_prefix_of(m@),
            },
    {
        let mut rs1: Option<usize> = None;
        let mut rs2: Option<usize> = None;
        let mut rd: Option<usize> = None;
        let a1 = instruction.get_arg1_value();
        let a2 = instruction.get_arg2_value();
        if let Ok(ArgValue::Register(r3)) = instruction.get_arg3_value() {
            if let Ok(ArgValue::Register(r1)) = a1 {
                rd = Some(r1 as usize);
            }
            if let Ok(ArgValue::Register(r2)) = a2 {
                rs1 = Some(r2 as usize);
            }
            rs2 = Some(r3 as usize);
            return Ok((rs1, rs2, rd));
        }
        match instruction.opcode {
            Opcode::Add | Opcode::Sub | Opcode::Mul | Opcode::Div | Opcode::And | Opcode::Or
            | Opcode::Xor | Opcode::Shl | Opcode::Shr | Opcode::Sar | Opcode::Rol | Opcode::Ror => {
                if let Ok(ArgValue::Register(r)) = a1 {
                    rd = Some(r as usize);
                    rs1 = Some(r as usize);
                }
                if let Ok(ArgValue::Register(r)) = a2 {
                    rs2 = Some(r as usize);
                }
            },
            Opcode::Inc | Opcode::Dec | Opcode::Neg | Opcode::Not => {
                if let Ok(ArgValue::Register(r)) = a1 {
                    rd = Some(r as usize);
                    rs1 = Some(r as usize);
                }
            },
            Opcode::Cmp | Opcode::Test => {
                if let Ok(ArgValue::Register(r)) = a1 {
                    rs1 = Some(r as usize);
                }
                if let Ok(ArgValue::Register(r)) = a2 {
                    rs2 = Some(r as usize);
                }
            },
            Opcode::Load | Opcode::LoadB | Opcode::LoadW | Opcode::LoadD => {
                if let Ok(ArgValue::Register(r)) = a1 {
                    rd = Some(r as usize);
                }
                if let Ok(ArgValue::RegisterOffset(r, _)) = a2 {
                    rs1 = Some(r as usize);
                }
            },
            Opcode::Store | Opcode::StoreB | Opcode::StoreW | Opcode::StoreD => {
                if let Ok(ArgValue::Register(r)) = a1 {
                    rs1 = Some(r as usize);
                }
                if let Ok(ArgValue::RegisterOffset(r, _)) = a2 {
                    rs2 = Some(r as usize);
                }
            },
            Opcode::Push => {
                if let Ok(ArgValue::Register(r)) = a1 {
                    rs1 = Some(r as usize);
                }
            },
            Opcode::Pop => {
                if let Ok(ArgValue::Register(r)) = a1 {
                    rd = Some(r as usize);
                }
            },
            Opcode::Jmp | Opcode::JmpIf | Opcode::JmpIfNot | Opcode::JmpIfEqual
            | Opcode::JmpIfNotEqual | Opcode::JmpIfGreater | Opcode::JmpIfGreaterEqual
            | Opcode::JmpIfLess | Opcode::JmpIfLessEqual | Opcode::JmpIfAbove
            | Opcode::JmpIfAboveEqual | Opcode::JmpIfBelow | Opcode::JmpIfBelowEqual
            | Opcode::JmpIfNotZero | Opcode::JmpIfZero | Opcode::JmpIfOverflow
            | Opcode::JmpIfNotOverflow | Opcode::JmpIfPositive | Opcode::JmpIfNegative => {},
            Opcode::Mov => {
                if let Ok(ArgValue::Register(r)) = a1 {
                    rd = Some(r as usize);
                }
            },
            Opcode::Call | Opcode::Ret | Opcode::Halt => {},
            _ => {
                return Err(unsupported_message(instruction.opcode));
            },
        }
        Ok((rs1, rs2, rd))
    }

    /// The first immediate argument, if any.
    fn extract_immediate(&self, instruction: &Instruction) -> (r: Result<Option<u64>, String>)
        ensures
            r == Ok::<Option<u64>, String>(decoded_immediate(*instruction)),
    {
        if let Ok(ArgValue::Immediate(imm)) = instruction.get_arg1_value() {
            return Ok(Some(imm));
        }
        if let Ok(ArgValue::Immediate(imm)) = instruction.get_arg2_value() {
            return Ok(Some(imm));
        }
        if let Ok(ArgValue::Immediate(imm)) = instruction.get_arg3_value() {
            return Ok(Some(imm));
        }
        Ok(None)
    }

    /// Branch target of a jump, from its second argument.
    fn calculate_branch_address(&mut self, instruction: &Instruction, pc: u32) -> (r: Result<
        Option<u32>,
        String,
    >)
        requires
            decode_fits(*instruction, pc),
        ensures
            *final(self) == *old(self),
            match r {
                Ok(b) => decoded_branch(*instruction, pc) == Some(b),
                Err(m) => decoded_branch(*instruction, pc) is None && m@
                    == "Format d'adresse de branchement invalide"@,
            },
    {
        if !instruction.opcode.is_branch() {
            return Ok(None);
        }
        match instruction.get_arg2_value() {
            Ok(ArgValue::RelativeAddr(offset)) => {
                let next_pc = pc + instruction.total_size() as u32;
                let target_addr = (next_pc as i32 + offset) as u32;
                Ok(Some(target_addr))
            },
            Ok(ArgValue::AbsoluteAddr(addr)) => Ok(Some(addr)),
            _ => Err("Format d'adresse de branchement invalide".to_owned()),
        }
    }

    /// Memory address of a load or a store, from its second argument.
    fn calculate_memory_address(&self, instruction: &Instruction, registers: &[u64]) -> (r: Result<
        Option<u32>,
        String,
    >)
        ensures
            match r {
                Ok(a) => decoded_memory_address(*instruction, registers@) == Some(a),
                Err(m) => decoded_memory_address(*instruction, registers@) is None
                    && memory_address_message(*instruction, m@),
            },
    {
        if instruction.opcode.is_load() || instruction.opcode.is_store() {
            match instruction.get_arg2_value() {
                Ok(ArgValue::AbsoluteAddr(addr)) => Ok(Some(addr)),
                Ok(ArgValue::RelativeAddr(off)) => Ok(Some(off as u32)),
                Ok(ArgValue::RegisterOffset(reg, off)) => {
                    if (reg as usize) < registers.len() {
                        let base = registers[reg as usize];
                        let addr = base.wrapping_add(off as u64);
                        Ok(Some(addr as u32))
                    } else {
                        Err(register_range_message(reg))
                    }
                },
                Ok(ArgValue::Register(reg)) => {
                    if (reg as usize) < registers.len() {
                        Ok(Some(registers[reg as usize] as u32))
                    } else {
                        Err(register_range_message(reg))
                    }
                },
                _ => Err("Adresse mémoire invalide".to_owned()),
            }
        } else {
            Ok(None)
        }
    }

    /// Pushes the return address of a call at `pc` of `instruction_size`
    /// bytes.
    pub fn update_ras_for_call(&mut self, pc: u32, instruction_size: u32)
        requires
            pc + instruction_size <= u32::MAX,
            old(self).ras.counters().0 < u64::MAX,
        ensures
            final(self).ras.entries() == ras_pushed(
                old(self).ras.entries(),
                old(self).ras.spec_max_size(),
                (pc + instruction_size) as u32,
            ),
            final(self).ras.spec_max_size() == old(self).ras.spec_max_size(),
            final(self).ras.counters() == ((old(self).ras.counters().0 + 1) as u64, old(
                self,
            ).ras.counters().1, old(self).ras.counters().2, old(self).ras.counters().3),
            final(self).branch_predictor == old(self).branch_predictor,
    {
        let return_address = pc + instruction_size;
        self.ras.push(return_address);
    }

    /// Pops the most recent return address, if any.
    pub fn update_ras_for_ret(&mut self) -> (r: Option<u32>)
        requires
            old(self).ras.counters().1 < u64::MAX,
        ensures
            r == ras_top(old(self).ras.entries()),
            old(self).ras.entries().len() > 0 ==> final(self).ras.entries() == old(
                self,
            ).ras.entries().drop_last(),
            old(self).ras.entries().len() == 0 ==> final(self).ras.entries() == old(
                self,
            ).ras.entries(),
            final(self).ras.spec_max_size() == old(self).ras.spec_max_size(),
            final(self).ras.counters() == (old(self).ras.counters().0, (old(self).ras.counters().1
                + 1) as u64, old(self).ras.counters().2, old(self).ras.counters().3),
            final(self).branch_predictor == old(self).branch_predictor,
    {
        self.ras.pop()
    }

    /// Resets the stage: empties the return address stack.
    pub fn reset(&mut self)
        ensures
            final(self).ras.entries() == Seq::<u32>::empty(),
            final(self).ras.spec_max_size() == old(self).ras.spec_max_size(),
            final(self).branch_predictor == old(self).branch_predictor,
    {
        self.ras.reset();
    }
}

/// A return decoded right after a call is predicted to go back to the
/// instruction that follows the call: the return address the call pushes
/// is the top of the return address stack, whatever the stack held and
/// however many entries it keeps.
pub proof fn lemma_ret_after_call(entries: Seq<u32>, max: nat, call: Instruction, pc: u32)
    ensures
        ras_top(ras_pushed(entries, max, next_pc(call, pc) as u32)) == Some(next_pc(call, pc) as u32),
{
}

/// A comparison writes no register: `Cmp` and `Test` over two register
/// arguments read both registers and have no destination. More generally,
/// outside the three-register form only instructions that write a
/// register (arithmetic, logic, shifts and rotations, loads, `Pop` and
/// `Mov`) get a destination.
pub proof fn lemma_comparisons_write_nothing(i: Instruction, r1: u8, r2: u8)
    ensures
        (i.opcode == Opcode::Cmp || i.opcode == Opcode::Test) && arg1(i) == Ok::<ArgValue, ArgError>(
            ArgValue::Register(r1),
        ) && arg2(i) == Ok::<ArgValue, ArgError>(ArgValue::Register(r2)) && !(arg3(i) matches Ok(
            ArgValue::Register(_),
        )) ==> decoded_registers(i) == Some((Some(r1 as usize), Some(r2 as usize), None::<usize>)),
        (decoded_registers(i) matches Some((_, _, Some(_)))) && !(arg3(i) matches Ok(
            ArgValue::Register(_),
        )) ==> (i.opcode == Opcode::Add || i.opcode == Opcode::Sub || i.opcode == Opcode::Mul
            || i.opcode == Opcode::Div || i.opcode == Opcode::And || i.opcode == Opcode::Or
            || i.opcode == Opcode::Xor || i.opcode == Opcode::Shl || i.opcode == Opcode::Shr
            || i.opcode == Opcode::Sar || i.opcode == Opcode::Rol || i.opcode == Opcode::Ror
            || i.opcode == Opcode::Inc || i.opcode == Opcode::Dec || i.opcode == Opcode::Neg
            || i.opcode == Opcode::Not || i.opcode == Opcode::Load || i.opcode == Opcode::LoadB
            || i.opcode == Opcode::LoadW || i.opcode == Opcode::LoadD || i.opcode == Opcode::Pop
            || i.opcode == Opcode::Mov),
{
}

/// Register roles outside the three-register form: a two-register
/// operation (`op d, s`) reads `d` and `s` and writes `d`; a load (`load d,
/// [b + off]`) reads its base `b` and writes `d`; a store (`store s, [b +
/// off]`) reads `s` and `b` and writes nothing.
pub proof fn lemma_register_roles(i: Instruction, r1: u8, r2: u8, off: i8)
    ensures
        (i.opcode == Opcode::Add || i.opcode == Opcode::Sub || i.opcode == Opcode::Mul || i.opcode
            == Opcode::Div || i.opcode == Opcode::Xor) && arg1(i) == Ok::<ArgValue, ArgError>(
            ArgValue::Register(r1),
        ) && arg2(i) == Ok::<ArgValue, ArgError>(ArgValue::Register(r2)) && !(arg3(i) matches Ok(
            ArgValue::Register(_),
        )) ==> decoded_registers(i) == Some((Some(r1 as usize), Some(r2 as usize), Some(r1 as usize))),
        i.opcode == Opcode::Load && arg1(i) == Ok::<ArgValue, ArgError>(ArgValue::Register(r1)) && arg2(i)
            == Ok::<ArgValue, ArgError>(ArgValue::RegisterOffset(r2, off)) && !(arg3(i) matches Ok(
            ArgValue::Register(_),
        )) ==> decoded_registers(i) == Some((Some(r2 as usize), None::<usize>, Some(r1 as usize))),
        i.opcode == Opcode::Store && arg1(i) == Ok::<ArgValue, ArgError>(ArgValue::Register(r1)) && arg2(i)
            == Ok::<ArgValue, ArgError>(ArgValue::RegisterOffset(r2, off)) && !(arg3(i) matches Ok(
            ArgValue::Register(_),
        )) ==> decoded_registers(i) == Some((Some(r1 as usize), Some(r2 as usize), None::<usize>)),
{
}

} // verus!
