//! Per-stage state of the register machine's pipeline and the results
//! that flow between stages.
use vstd::prelude::*;
use crate::pvm::cache_stats::CacheStatistics;
use crate::pvm::instructions::{
    Address, ArithmeticOp, DecodedInstruction, Instruction, MemoryOp, RegisterId,
};
use crate::pvm::registers::RegisterBank;
use crate::pvm::vm_errors::VMError;

verus! {

/// What a stage of the pipeline holds.
#[derive(Debug, Clone)]
pub struct PipelineState {
    pub instruction: Option<Instruction>,
    pub decoded: Option<DecodedInstruction>,
    pub result: Option<ExecutionResult>,
    pub memory_result: Option<MemoryResult>,
    pub destination: Option<RegisterId>,
}

impl PipelineState {
    /// The decoded instruction, when it is a control instruction.
    pub fn get_branch(&self) -> (r: Option<&DecodedInstruction>)
        ensures
            r is Some <==> (self.decoded matches Some(d) && d is Control),
            r matches Some(x) ==> self.decoded == Some(*x),
    {
        match &self.decoded {
            Some(decoded) => match decoded {
                DecodedInstruction::Control(_) => Some(decoded),
                _ => None,
            },
            None => None,
        }
    }
}

impl Default for PipelineState {
    /// A stage that holds nothing.
    fn default() -> (s: Self)
        ensures
            s.instruction is None,
            s.decoded is None,
            s.result is None,
            s.memory_result is None,
            s.destination is None,
    {
        PipelineState {
            instruction: None,
            decoded: None,
            result: None,
            memory_result: None,
            destination: None,
        }
    }
}

/// Result of executing an instruction.
#[derive(Debug, Clone, Copy)]
pub struct ExecutionResult {
    pub value: i64,
    pub flags: StatusFlags,
    pub branch_taken: bool,
    pub target_address: Option<u64>,
}

/// Result of a memory operation.
#[derive(Debug, Clone)]
pub struct MemoryResult {
    data: i64,
    address: Address,
}

/// Status flags of an operation.
#[derive(Debug, Clone, Copy)]
pub struct StatusFlags {
    pub zero: bool,
    pub negative: bool,
    pub overflow: bool,
    pub carry: bool,
}

impl Default for StatusFlags {
    /// Every flag clear.
    fn default() -> (f: Self)
        ensures
            !f.zero && !f.negative && !f.overflow && !f.carry,
    {
        StatusFlags { zero: false, negative: false, overflow: false, carry: false }
    }
}

impl Default for ExecutionResult {
    /// Value 0, flags clear, no branch taken, no target.
    fn default() -> (r: Self)
        ensures
            r.value == 0,
            !r.flags.zero && !r.flags.negative && !r.flags.overflow && !r.flags.carry,
            !r.branch_taken,
            r.target_address is None,
    {
        ExecutionResult {
            value: 0,
            flags: StatusFlags::default(),
            branch_taken: false,
            target_address: None,
        }
    }
}

/// Counters of the pipeline.
#[derive(Debug, Clone)]
pub struct PipelineStats {
    pub cycles: usize,
    pub instructions_loaded: usize,
    pub instructions_fetched: usize,
    pub instructions_decoded: usize,
    pub instructions_executed: usize,
    pub memory_operations: usize,
    pub writebacks: usize,
    pub stalls: usize,
    pub hazards: usize,
}

impl Default for PipelineStats {
    /// Every counter zero.
    fn default() -> (s: Self)
        ensures
            s.cycles == 0 && s.instructions_loaded == 0 && s.instructions_fetched == 0
                && s.instructions_decoded == 0 && s.instructions_executed == 0
                && s.memory_operations == 0 && s.writebacks == 0 && s.stalls == 0 && s.hazards == 0,
    {
        PipelineStats {
            cycles: 0,
            instructions_loaded: 0,
            instructions_fetched: 0,
            instructions_decoded: 0,
            instructions_executed: 0,
            memory_operations: 0,
            writebacks: 0,
            stalls: 0,
            hazards: 0,
        }
    }
}

/// Pipeline counters with the cache counters.
#[derive(Debug)]
pub struct DetailedStats {
    pub pipeline_stats: PipelineStats,
    pub cache_stats: CacheStatistics,
}

/// A register an instruction in a later stage will write.
#[derive(Clone, Debug)]
pub struct RegisterDependency {
    reg_id: RegisterId,
    stage: PipelineStage,
}

/// Stages whose results can be forwarded.
#[derive(Clone, Debug, PartialEq, Eq, Structural)]
pub enum PipelineStage {
    Execute,
    Memory,
    Writeback,
}

/// State of the fetch stage.
#[derive(Default)]
pub struct FetchState {}

/// State of the decode stage.
#[derive(Default)]
pub struct DecodeState {}

/// State of the execute stage.
#[derive(Default)]
pub struct ExecuteState {}

/// State of the memory stage.
#[derive(Default)]
pub struct MemoryState {}

/// State of the writeback stage.
#[derive(Default)]
pub struct WritebackState {}

/// Value of register `id` in `regs`, or the error for a register beyond them.
pub open spec fn register_value(regs: Seq<i64>, id: RegisterId) -> Result<i64, VMError> {
    if (id.0 as int) < regs.len() {
        Ok(regs[id.0 as int])
    } else {
        Err(VMError::InvalidRegister(id.0))
    }
}

/// Quotient of `a` by `b` rounded toward zero, wrapped into 64 bits (only
/// `i64::MIN / -1` wraps, to `i64::MIN`).
pub open spec fn wrapped_quotient(a: i64, b: i64) -> i64 {
    let ua: int = if a < 0 { -a } else { a as int };
    let ub: int = if b < 0 { -b } else { b as int };
    let q: int = ua / ub;
    if a == i64::MIN && b == -1 {
        i64::MIN
    } else if (a < 0) == (b < 0) {
        q as i64
    } else {
        (-q) as i64
    }
}

/// Result of an arithmetic operation with value `v`: zero and negative flags
/// from `v`, no overflow or carry flag, no branch.
pub open spec fn arithmetic_result(v: i64) -> ExecutionResult {
    ExecutionResult {
        value: v,
        flags: StatusFlags { zero: v == 0, negative: v < 0, overflow: false, carry: false },
        branch_taken: false,
        target_address: None,
    }
}

/// Result carrying value `v` with every flag clear and no branch.
pub open spec fn plain_result(v: i64) -> ExecutionResult {
    ExecutionResult {
        value: v,
        flags: StatusFlags { zero: false, negative: false, overflow: false, carry: false },
        branch_taken: false,
        target_address: None,
    }
}

/// Result of a two-operand operation: the first operand is read first, so a
/// bad first register is the error reported.
pub open spec fn binary(
    regs: Seq<i64>,
    src1: RegisterId,
    src2: RegisterId,
    f: spec_fn(i64, i64) -> Result<ExecutionResult, VMError>,
) -> Result<ExecutionResult, VMError> {
    match register_value(regs, src1) {
        Err(e) => Err(e),
        Ok(a) => match register_value(regs, src2) {
            Err(e) => Err(e),
            Ok(b) => f(a, b),
        },
    }
}

/// What executing `d` with registers `regs` gives: wrapping add, sub and mul,
/// division rounded toward zero and refused by zero, the value for
/// `loadimm`, 0 for a load (filled in by the memory stage), the register's
/// value for a store or a move, and an empty result for control operations.
pub open spec fn executed(d: DecodedInstruction, regs: Seq<i64>) -> Result<ExecutionResult, VMError> {
    match d {
        DecodedInstruction::Arithmetic(op) => match op {
            ArithmeticOp::Add { src1, src2, .. } => binary(
                regs,
                src1,
                src2,
                |a: i64, b: i64| Ok(arithmetic_result(a.wrapping_add(b))),
            ),
            ArithmeticOp::Sub { src1, src2, .. } => binary(
                regs,
                src1,
                src2,
                |a: i64, b: i64| Ok(arithmetic_result(a.wrapping_sub(b))),
            ),
            ArithmeticOp::Mul { src1, src2, .. } => binary(
                regs,
                src1,
                src2,
                |a: i64, b: i64| Ok(arithmetic_result(a.wrapping_mul(b))),
            ),
            ArithmeticOp::Div { src1, src2, .. } => binary(
                regs,
                src1,
                src2,
                |a: i64, b: i64|
                    if b == 0 {
                        Err(VMError::DivisionByZero)
                    } else {
                        Ok(arithmetic_result(wrapped_quotient(a, b)))
                    },
            ),
        },
        DecodedInstruction::Memory(op) => match op {
            MemoryOp::LoadImm { value, .. } => Ok(plain_result(value)),
            MemoryOp::Load { .. } => Ok(plain_result(0)),
            MemoryOp::Store { reg, .. } => match register_value(regs, reg) {
                Err(e) => Err(e),
                Ok(v) => Ok(plain_result(v)),
            },
            MemoryOp::Move { src, .. } => match register_value(regs, src) {
                Err(e) => Err(e),
                Ok(v) => Ok(plain_result(v)),
            },
        },
        DecodedInstruction::Control(_) => Ok(plain_result(0)),
    }
}

/// Quotient of `a` by `b` rounded toward zero, wrapping `i64::MIN / -1`.
fn quotient(a: i64, b: i64) -> (q: i64)
    requires
        b != 0,
    ensures
        q == wrapped_quotient(a, b),
{
    if a == i64::MIN && b == -1 {
        i64::MIN
    } else {
        let x: i128 = a as i128;
        let y: i128 = b as i128;
        let ux: i128 = if x < 0 { -x } else { x };
        let uy: i128 = if y < 0 { -y } else { y };
        let m: i128 = ux / uy;
        let s: i128 = if (x < 0) == (y < 0) { m } else { -m };
        #[verifier::truncate]
        let q: i64 = s as i64;
        q
    }
}

/// Result of an arithmetic operation with value `v`.
fn arithmetic(v: i64) -> (r: ExecutionResult)
    ensures
        r == arithmetic_result(v),
{
    ExecutionResult {
        value: v,
        flags: StatusFlags { zero: v == 0, negative: v < 0, overflow: false, carry: false },
        branch_taken: false,
        target_address: None,
    }
}

/// Result carrying `v` with every flag clear and no branch.
fn plain(v: i64) -> (r: ExecutionResult)
    ensures
        r == plain_result(v),
{
    ExecutionResult { value: v, flags: StatusFlags::default(), branch_taken: false, target_address: None }
}

/// Executes a decoded instruction on the register bank: arithmetic wraps
/// around, a division by zero is refused, loads leave their value to the
/// memory stage, stores and moves carry the register read, and control
/// operations give an empty result. A register beyond the bank is refused.
pub fn execute_instruction(decoded: &DecodedInstruction, registers: &RegisterBank) -> (r: Result<
    ExecutionResult,
    VMError,
>)
    ensures
        r == executed(*decoded, registers@),
{
    match decoded {
        DecodedInstruction::Arithmetic(op) => {
            let (src1, src2) = match op {
                ArithmeticOp::Add { src1, src2, .. } => (*src1, *src2),
                ArithmeticOp::Sub { src1, src2, .. } => (*src1, *src2),
                ArithmeticOp::Mul { src1, src2, .. } => (*src1, *src2),
                ArithmeticOp::Div { src1, src2, .. } => (*src1, *src2),
            };
            let a = match registers.read_register(src1) {
                Ok(v) => v,
                Err(e) => return Err(e),
            };
            let b = match registers.read_register(src2) {
                Ok(v) => v,
                Err(e) => return Err(e),
            };
            match op {
                ArithmeticOp::Add { .. } => Ok(arithmetic(a.wrapping_add(b))),
                ArithmeticOp::Sub { .. } => Ok(arithmetic(a.wrapping_sub(b))),
                ArithmeticOp::Mul { .. } => Ok(arithmetic(a.wrapping_mul(b))),
                ArithmeticOp::Div { .. } => {
                    if b == 0 {
                        Err(VMError::DivisionByZero)
                    } else {
                        Ok(arithmetic(quotient(a, b)))
                    }
                },
            }
        },
        DecodedInstruction::Memory(op) => match op {
            MemoryOp::LoadImm { value, .. } => Ok(plain(*value)),
            MemoryOp::Load { .. } => Ok(plain(0)),
            MemoryOp::Store { reg, .. } => match registers.read_register(*reg) {
                Ok(v) => Ok(plain(v)),
                Err(e) => Err(e),
            },
            MemoryOp::Move { src, .. } => match registers.read_register(*src) {
                Ok(v) => Ok(plain(v)),
                Err(e) => Err(e),
            },
        },
        DecodedInstruction::Control(_) => Ok(plain(0)),
    }
}

/// Flags of arithmetic: whenever an add, sub, mul or div succeeds, its zero
/// flag says the value is 0, its negative flag says the value is below 0,
/// neither overflow nor carry is set, and no branch is taken.
pub proof fn lemma_arithmetic_flags(op: ArithmeticOp, regs: Seq<i64>)
    ensures
        executed(DecodedInstruction::Arithmetic(op), regs) matches Ok(r) ==> {
            &&& r.flags.zero == (r.value == 0)
            &&& r.flags.negative == (r.value < 0)
            &&& !r.flags.overflow
            &&& !r.flags.carry
            &&& !r.branch_taken
            &&& r.target_address is None
        },
{
}

/// Results of wrapping add, sub and mul: with both source registers in the
/// bank holding `a` and `b`, the operation succeeds and its value is the
/// true sum, difference or product modulo 2^64.
pub proof fn lemma_wrapping_values(dest: RegisterId, src1: RegisterId, src2: RegisterId, regs: Seq<i64>)
    requires
        (src1.0 as int) < regs.len(),
        (src2.0 as int) < regs.len(),
    ensures
        ({
            let a = regs[src1.0 as int];
            let b = regs[src2.0 as int];
            &&& executed(DecodedInstruction::Arithmetic(ArithmeticOp::Add { dest, src1, src2 }), regs)
                matches Ok(r) && (r.value - (a + b)) % 0x1_0000_0000_0000_0000 == 0
            &&& executed(DecodedInstruction::Arithmetic(ArithmeticOp::Sub { dest, src1, src2 }), regs)
                matches Ok(r) && (r.value - (a - b)) % 0x1_0000_0000_0000_0000 == 0
            &&& executed(DecodedInstruction::Arithmetic(ArithmeticOp::Mul { dest, src1, src2 }), regs)
                matches Ok(r) && (r.value - a * b) % 0x1_0000_0000_0000_0000 == 0
        }),
{
    let a = regs[src1.0 as int];
    let b = regs[src2.0 as int];
    let p = a * b;
    let m = p % 0x1_0000_0000_0000_0000;
    assert(p == 0x1_0000_0000_0000_0000 * (p / 0x1_0000_0000_0000_0000) + m);
    let q = p / 0x1_0000_0000_0000_0000;
    assert((m - p) == -0x1_0000_0000_0000_0000 * q);
    vstd::arithmetic::div_mod::lemma_mod_multiples_basic(-q, 0x1_0000_0000_0000_0000);
    assert((-q * 0x1_0000_0000_0000_0000) % 0x1_0000_0000_0000_0000 == 0);
    assert((m - p) % 0x1_0000_0000_0000_0000 == 0) by {
        assert(m - p == -q * 0x1_0000_0000_0000_0000) by (nonlinear_arith)
            requires
                m - p == -0x1_0000_0000_0000_0000 * q,
        ;
    }
    vstd::arithmetic::div_mod::lemma_mod_multiples_basic(-q + 1, 0x1_0000_0000_0000_0000);
    assert((m - 0x1_0000_0000_0000_0000 - p) % 0x1_0000_0000_0000_0000 == 0) by {
        assert(m - 0x1_0000_0000_0000_0000 - p == (-q - 1) * 0x1_0000_0000_0000_0000) by (nonlinear_arith)
            requires
                m - p == -0x1_0000_0000_0000_0000 * q,
        ;
        vstd::arithmetic::div_mod::lemma_mod_multiples_basic(-q - 1, 0x1_0000_0000_0000_0000);
    }
}

/// Division rounds toward zero and refuses zero: with both source registers
/// in the bank holding `a` and `b`, a zero `b` gives `DivisionByZero`;
/// otherwise the quotient `q` leaves a remainder `a - q * b` smaller than `b`
/// in size and of the sign of `a` (or zero), except `i64::MIN / -1`, which
/// wraps to `i64::MIN`.
pub proof fn lemma_division(dest: RegisterId, src1: RegisterId, src2: RegisterId, regs: Seq<i64>)
    requires
        (src1.0 as int) < regs.len(),
        (src2.0 as int) < regs.len(),
    ensures
        ({
            let a = regs[src1.0 as int] as int;
            let b = regs[src2.0 as int] as int;
            let res = executed(DecodedInstruction::Arithmetic(ArithmeticOp::Div { dest, src1, src2 }), regs);
            &&& b == 0 ==> res == Err::<ExecutionResult, VMError>(VMError::DivisionByZero)
            &&& b != 0 && a == i64::MIN && b == -1 ==> (res matches Ok(r) && r.value == i64::MIN)
            &&& b != 0 && !(a == i64::MIN && b == -1) ==> (res matches Ok(r) && {
                let rem = a - r.value * b;
                &&& (if rem < 0 { -rem } else { rem }) < (if b < 0 { -b } else { b })
                &&& (rem == 0 || (rem < 0) == (a < 0))
            })
        }),
{
    let a = regs[src1.0 as int];
    let b = regs[src2.0 as int];
    if b != 0 && !(a == i64::MIN && b == -1) {
        let ai = a as int;
        let bi = b as int;
        let ua: int = if ai < 0 { -ai } else { ai };
        let ub: int = if bi < 0 { -bi } else { bi };
        let q = ua / ub;
        let rr = ua % ub;
        assert(ua == ub * q + rr && 0 <= rr < ub) by (nonlinear_arith)
            requires
                ub > 0,
                ua >= 0,
                q == ua / ub,
                rr == ua % ub,
        ;
        assert(0 <= q <= ua) by (nonlinear_arith)
            requires
                ub >= 1,
                ua >= 0,
                q == ua / ub,
        ;
        if (ai < 0) == (bi < 0) {
            assert(q < 0x8000_0000_0000_0000) by {
                if q >= 0x8000_0000_0000_0000 {
                    assert(ua <= 0x8000_0000_0000_0000);
                    assert(ub * q >= q) by (nonlinear_arith)
                        requires
                            ub >= 1,
                            q >= 0,
                    ;
                    assert(ub * q <= ua);
                    assert(ub == 1) by (nonlinear_arith)
                        requires
                            ub >= 1,
                            q >= 0x8000_0000_0000_0000,
                            ub * q <= 0x8000_0000_0000_0000,
                    ;
                }
            }
            let v = wrapped_quotient(a, b);
            assert(v == q);
            let rem = ai - q * bi;
            if ai < 0 {
                assert(rem == -rr) by (nonlinear_arith)
                    requires
                        ai == -ua,
                        bi == -ub,
                        ua == ub * q + rr,
                        rem == ai - q * bi,
                ;
            } else {
                assert(rem == rr) by (nonlinear_arith)
                    requires
                        ai == ua,
                        bi == ub,
                        ua == ub * q + rr,
                        rem == ai - q * bi,
                ;
            }
        } else {
            assert(q <= 0x8000_0000_0000_0000);
            let v = wrapped_quotient(a, b);
            assert(v == -q);
            let rem = ai - (-q) * bi;
            if ai < 0 {
                assert(rem == -rr) by (nonlinear_arith)
                    requires
                        ai == -ua,
                        bi == ub,
                        ua == ub * q + rr,
                        rem == ai - (-q) * bi,
                ;
            } else {
                assert(rem == rr) by (nonlinear_arith)
                    requires
                        ai == ua,
                        bi == -ub,
                        ua == ub * q + rr,
                        rem == ai - (-q) * bi,
                ;
            }
        }
    }
}

/// Register transfers and control: `loadimm` gives its value, a load 0 (the
/// memory stage fills it in), a store or a move the value of the register
/// it reads, and a control operation 0; all with every flag clear and no
/// branch taken. A register read beyond the bank is refused, naming it; in
/// an arithmetic operation the first source is checked first.
pub proof fn lemma_transfers_and_errors(d: DecodedInstruction, regs: Seq<i64>)
    ensures
        !(d is Arithmetic) ==> (executed(d, regs) matches Ok(r) ==> {
            &&& !r.flags.zero && !r.flags.negative && !r.flags.overflow && !r.flags.carry
            &&& !r.branch_taken
            &&& r.target_address is None
        }),
        d matches DecodedInstruction::Memory(MemoryOp::LoadImm { value, .. }) ==> (executed(d, regs) matches Ok(
            r,
        ) && r.value == value),
        d matches DecodedInstruction::Memory(MemoryOp::Load { .. }) ==> (executed(d, regs) matches Ok(r)
            && r.value == 0),
        d matches DecodedInstruction::Memory(MemoryOp::Store { reg, .. }) ==> if (reg.0 as int) < regs.len() {
            executed(d, regs) matches Ok(r) && r.value == regs[reg.0 as int]
        } else {
            executed(d, regs) == Err::<ExecutionResult, VMError>(VMError::InvalidRegister(reg.0))
        },
        d matches DecodedInstruction::Memory(MemoryOp::Move { src, .. }) ==> if (src.0 as int) < regs.len() {
            executed(d, regs) matches Ok(r) && r.value == regs[src.0 as int]
        } else {
            executed(d, regs) == Err::<ExecutionResult, VMError>(VMError::InvalidRegister(src.0))
        },
        d is Control ==> (executed(d, regs) matches Ok(r) && r.value == 0),
        d matches DecodedInstruction::Arithmetic(op) ==> {
            let (s1, s2) = match op {
                ArithmeticOp::Add { src1, src2, .. } => (src1, src2),
                ArithmeticOp::Sub { src1, src2, .. } => (src1, src2),
                ArithmeticOp::Mul { src1, src2, .. } => (src1, src2),
                ArithmeticOp::Div { src1, src2, .. } => (src1, src2),
            };
            &&& (s1.0 as int) >= regs.len() ==> executed(d, regs) == Err::<ExecutionResult, VMError>(
                VMError::InvalidRegister(s1.0),
            )
            &&& (s1.0 as int) < regs.len() && (s2.0 as int) >= regs.len() ==> executed(d, regs) == Err::<
                ExecutionResult,
                VMError,
            >(VMError::InvalidRegister(s2.0))
        },
{
}

} // verus!
