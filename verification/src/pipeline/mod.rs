//! The five pipeline stages and the latches between them.
pub mod decode;
pub mod execute;
pub mod fetch;
pub mod memory;
pub mod forward;
pub mod hazard;
pub mod parallel;


pub mod writeback;
pub mod ras;

use vstd::prelude::*;
use crate::bytecode::{Instruction, HEADER_SIZE};
use crate::pipeline::decode::{decoded, decoded_branch, decoded_memory_address, decoded_registers, decode_fits, DecodeStage, StackOperation};
use crate::pipeline::fetch::{has_key, key_pos, prefetched, program_fits, refilled, view_size, FetchStage};
use crate::pipeline::forward::{ex_source, operand1_after, operand2_after, wb_source, ForwardingUnit};
use crate::pipeline::hazard::{forwardable_in, hazard_outcome, load_use_in, stall_after, HazardDetectionUnit, HazardResult};
use crate::pipeline::memory::{access_fits, memory_access, MemoryStage, MemoryStageError};
use crate::pipeline::writeback::WritebackStage;
use crate::pvm::branch_predictor::BranchPrediction;
use crate::pvm::memorys::Memory;

verus! {

/// Contents of the latches at one moment.
#[derive(Debug)]
pub struct PipelineState {
    /// Fetch -> Decode latch.
    pub fetch_decode: Option<FetchDecodeRegister>,
    /// Decode -> Execute latch.
    pub decode_execute: Option<DecodeExecuteRegister>,
    /// Execute -> Memory latch.
    pub execute_memory: Option<ExecuteMemoryRegister>,
    /// Memory -> Writeback latch.
    pub memory_writeback: Option<MemoryWritebackRegister>,
    /// Next program counter to fetch.
    pub next_pc: u32,
    /// Whether the pipeline is stalled.
    pub stalled: bool,
    /// Whether a halt went through.
    pub halted: bool,
    /// Instructions completed in the current cycle.
    pub instructions_completed: usize,
    /// Whether the current branch has been dealt with.
    pub branch_processed: bool,
}

impl Default for PipelineState {
    /// Empty latches, pc 0, neither stalled nor halted.
    fn default() -> (s: Self)
        ensures
            s.fetch_decode is None,
            s.decode_execute is None,
            s.execute_memory is None,
            s.memory_writeback is None,
            s.next_pc == 0,
            !s.stalled,
            !s.halted,
            s.instructions_completed == 0,
            !s.branch_processed,
    {
        PipelineState {
            fetch_decode: None,
            decode_execute: None,
            execute_memory: None,
            memory_writeback: None,
            next_pc: 0,
            stalled: false,
            halted: false,
            instructions_completed: 0,
            branch_processed: false,
        }
    }
}

/// Fetch -> Decode latch.
#[derive(Debug)]
pub struct FetchDecodeRegister {
    /// The instruction fetched.
    pub instruction: Instruction,
    /// Its address.
    pub pc: u32,
}

/// Decode -> Execute latch.
#[derive(Debug)]
pub struct DecodeExecuteRegister {
    /// The instruction.
    pub instruction: Instruction,
    /// Its address.
    pub pc: u32,
    /// First source register.
    pub rs1: Option<usize>,
    /// Second source register.
    pub rs2: Option<usize>,
    /// Destination register.
    pub rd: Option<usize>,
    /// Value of the first source register.
    pub rs1_value: u64,
    /// Value of the second source register.
    pub rs2_value: u64,
    /// Immediate value, if any.
    pub immediate: Option<u64>,
    /// Branch target, for a jump.
    pub branch_addr: Option<u32>,
    /// Memory address, for a memory access.
    pub mem_addr: Option<u32>,
    /// Branch prediction, for a branch.
    pub branch_prediction: Option<BranchPrediction>,
    /// Stack operation, for a push, pop, call or return.
    pub stack_operation: Option<StackOperation>,
    /// Value the stack operation pushes.
    pub stack_value: Option<u64>,
}

/// Execute -> Memory latch.
#[derive(Debug)]
pub struct ExecuteMemoryRegister {
    /// The instruction.
    pub instruction: Instruction,
    /// Result of the ALU.
    pub alu_result: u64,
    /// Destination register.
    pub rd: Option<usize>,
    /// Value to store, for a store.
    pub store_value: Option<u64>,
    /// Memory address, for a load or a store.
    pub mem_addr: Option<u32>,
    /// Branch target, for a jump.
    pub branch_target: Option<u32>,
    /// Whether the branch is taken.
    pub branch_taken: bool,
    /// Whether the branch prediction was right.
    pub branch_prediction_correct: Option<bool>,
    /// Stack operation.
    pub stack_operation: Option<StackOperation>,
    /// Result of the stack operation.
    pub stack_result: Option<u64>,
    /// Whether the return-address prediction was right.
    pub ras_prediction_correct: Option<bool>,
    /// Whether the instruction halts the machine.
    pub halted: bool,
}

/// Memory -> Writeback latch.
#[derive(Debug)]
pub struct MemoryWritebackRegister {
    /// The instruction.
    pub instruction: Instruction,
    /// Value to write to the destination register.
    pub result: u64,
    /// Destination register.
    pub rd: Option<usize>,
}

/// Two fetch latches hold the same instruction (by its view) and address.
pub open spec fn same_fd(a: Option<FetchDecodeRegister>, b: Option<FetchDecodeRegister>) -> bool {
    match a {
        Some(x) => b matches Some(y) && x.instruction@ == y.instruction@ && x.pc == y.pc,
        None => b is None,
    }
}

/// Two decode latches agree, the instruction by its view.
pub open spec fn same_de(a: Option<DecodeExecuteRegister>, b: Option<DecodeExecuteRegister>) -> bool {
    match a {
        Some(x) => b matches Some(y) && x.instruction@ == y.instruction@ && x == (DecodeExecuteRegister {
            instruction: x.instruction,
            ..y
        }),
        None => b is None,
    }
}

/// Two execute latches agree, the instruction by its view.
pub open spec fn same_em(a: Option<ExecuteMemoryRegister>, b: Option<ExecuteMemoryRegister>) -> bool {
    match a {
        Some(x) => b matches Some(y) && x.instruction@ == y.instruction@ && x == (ExecuteMemoryRegister {
            instruction: x.instruction,
            ..y
        }),
        None => b is None,
    }
}

/// Two memory latches agree, the instruction by its view.
pub open spec fn same_mw(a: Option<MemoryWritebackRegister>, b: Option<MemoryWritebackRegister>) -> bool {
    match a {
        Some(x) => b matches Some(y) && x.instruction@ == y.instruction@ && x.result == y.result && x.rd
            == y.rd,
        None => b is None,
    }
}

/// `a` is a copy of `b`: the same latches (instructions by their views) and
/// the same flags.
pub open spec fn copies(a: PipelineState, b: PipelineState) -> bool {
    &&& same_fd(a.fetch_decode, b.fetch_decode)
    &&& same_de(a.decode_execute, b.decode_execute)
    &&& same_em(a.execute_memory, b.execute_memory)
    &&& same_mw(a.memory_writeback, b.memory_writeback)
    &&& a.next_pc == b.next_pc
    &&& a.stalled == b.stalled
    &&& a.halted == b.halted
    &&& a.instructions_completed == b.instructions_completed
    &&& a.branch_processed == b.branch_processed
}

impl Clone for FetchDecodeRegister {
    fn clone(&self) -> (r: Self)
        ensures
            same_fd(Some(r), Some(*self)),
    {
        FetchDecodeRegister { instruction: self.instruction.clone(), pc: self.pc }
    }
}

impl Clone for DecodeExecuteRegister {
    fn clone(&self) -> (r: Self)
        ensures
            same_de(Some(r), Some(*self)),
    {
        DecodeExecuteRegister {
            instruction: self.instruction.clone(),
            pc: self.pc,
            rs1: self.rs1,
            rs2: self.rs2,
            rd: self.rd,
            rs1_value: self.rs1_value,
            rs2_value: self.rs2_value,
            immediate: self.immediate,
            branch_addr: self.branch_addr,
            mem_addr: self.mem_addr,
            branch_prediction: self.branch_prediction,
            stack_operation: self.stack_operation,
            stack_value: self.stack_value,
        }
    }
}

impl Clone for ExecuteMemoryRegister {
    fn clone(&self) -> (r: Self)
        ensures
            same_em(Some(r), Some(*self)),
    {
        ExecuteMemoryRegister {
            instruction: self.instruction.clone(),
            alu_result: self.alu_result,
            rd: self.rd,
            store_value: self.store_value,
            mem_addr: self.mem_addr,
            branch_target: self.branch_target,
            branch_taken: self.branch_taken,
            branch_prediction_correct: self.branch_prediction_correct,
            stack_operation: self.stack_operation,
            stack_result: self.stack_result,
            ras_prediction_correct: self.ras_prediction_correct,
            halted: self.halted,
        }
    }
}

impl Clone for MemoryWritebackRegister {
    fn clone(&self) -> (r: Self)
        ensures
            same_mw(Some(r), Some(*self)),
    {
        MemoryWritebackRegister { instruction: self.instruction.clone(), result: self.result, rd: self.rd }
    }
}

impl Clone for PipelineState {
    fn clone(&self) -> (r: Self)
        ensures
            copies(r, *self),
    {
        PipelineState {
            fetch_decode: match &self.fetch_decode {
                Some(f) => Some(f.clone()),
                None => None,
            },
            decode_execute: match &self.decode_execute {
                Some(d) => Some(d.clone()),
                None => None,
            },
            execute_memory: match &self.execute_memory {
                Some(e) => Some(e.clone()),
                None => None,
            },
            memory_writeback: match &self.memory_writeback {
                Some(m) => Some(m.clone()),
                None => None,
            },
            next_pc: self.next_pc,
            stalled: self.stalled,
            halted: self.halted,
            instructions_completed: self.instructions_completed,
            branch_processed: self.branch_processed,
        }
    }
}

/// Counters of the pipeline.
#[derive(Debug, Clone, Copy, PartialEq, Eq, Structural)]
pub struct PipelineStats {
    pub cycles: u64,
    pub instructions: u64,
    pub stalls: u64,
    pub hazards: u64,
    pub forwards: u64,
    pub branch_predictions: u64,
    pub branch_hits: u64,
    pub branch_misses: u64,
    pub branch_flush: u64,
    pub stack_pushes: u64,
    pub stack_pops: u64,
    pub total_calls: u64,
    pub total_returns: u64,
    pub ras_hits: u64,
    pub ras_misses: u64,
    pub max_call_depth: usize,
    pub current_call_depth: usize,
}

/// Every counter at zero.
pub open spec fn zero_pipeline_stats() -> PipelineStats {
    PipelineStats {
        cycles: 0,
        instructions: 0,
        stalls: 0,
        hazards: 0,
        forwards: 0,
        branch_predictions: 0,
        branch_hits: 0,
        branch_misses: 0,
        branch_flush: 0,
        stack_pushes: 0,
        stack_pops: 0,
        total_calls: 0,
        total_returns: 0,
        ras_hits: 0,
        ras_misses: 0,
        max_call_depth: 0,
        current_call_depth: 0,
    }
}

impl Default for PipelineStats {
    /// Every counter at zero.
    fn default() -> (s: Self)
        ensures
            s == zero_pipeline_stats(),
    {
        PipelineStats {
            cycles: 0,
            instructions: 0,
            stalls: 0,
            hazards: 0,
            forwards: 0,
            branch_predictions: 0,
            branch_hits: 0,
            branch_misses: 0,
            branch_flush: 0,
            stack_pushes: 0,
            stack_pops: 0,
            total_calls: 0,
            total_returns: 0,
            ras_hits: 0,
            ras_misses: 0,
            max_call_depth: 0,
            current_call_depth: 0,
        }
    }
}

/// The five-stage pipeline, without its execute stage: a cycle is
/// `begin_cycle` (hazards, fetch, decode), then the execution of the decoded
/// instruction (after `forward_for_execute`), then `finish_cycle` (branch
/// resolution, memory, writeback).
pub struct Pipeline {
    pub state: PipelineState,
    pub fetch: FetchStage,
    pub decode: DecodeStage,
    pub memory: MemoryStage,
    pub writeback: WritebackStage,
    pub hazard_detection: HazardDetectionUnit,
    pub forwarding: ForwardingUnit,
    pub stats: PipelineStats,
    pub enable_forwarding: bool,
    pub enable_hazard_detection: bool,
}

/// The state a cycle starts from: not stalled, nothing completed, and a
/// branch in the execute latch not yet dealt with.
pub open spec fn cycle_start(s: PipelineState) -> PipelineState {
    PipelineState {
        stalled: false,
        instructions_completed: 0,
        branch_processed: if s.execute_memory matches Some(e) && e.instruction.opcode.is_branch() {
            false
        } else {
            s.branch_processed
        },
        ..s
    }
}

/// Whether the cycle of `p` stalls: hazard detection is on and finds a
/// hazard in the state the cycle starts from.
pub open spec fn stalls_cycle(p: Pipeline) -> bool {
    p.enable_hazard_detection && hazard_outcome(cycle_start(p.state), p.hazard_detection.stalled_cycles())
        != HazardResult::NoHazard
}

/// Whether the decode stage accepts `i` at `pc` with register values `regs`.
pub open spec fn decodes(i: Instruction, pc: u32, regs: Seq<u64>) -> bool {
    decoded_registers(i) is Some && decoded_branch(i, pc) is Some && decoded_memory_address(i, regs) is Some
}

/// Whether the instruction leaving execute was a mispredicted taken branch
/// with a target: the front of the pipeline is flushed.
pub open spec fn flushes(m: ExecuteMemoryRegister) -> bool {
    m.branch_prediction_correct == Some(false) && m.branch_taken && m.branch_target is Some
}

/// The address fetched next once the instruction leaving execute is
/// resolved: after a branch not taken, the instruction after it; after a
/// flush, the branch target; otherwise what fetch chose.
pub open spec fn resolved_pc(s: PipelineState, m: ExecuteMemoryRegister) -> u32 {
    if !m.branch_taken && m.instruction.opcode.is_branch() {
        (s.decode_execute->0.pc + (m.instruction.spec_total_size() as u32)) as u32
    } else if flushes(m) {
        m.branch_target->0
    } else {
        s.next_pc
    }
}

/// Whether the writeback of `w` succeeds on a bank of `len` registers.
pub open spec fn writes_back_ok(w: MemoryWritebackRegister, len: nat) -> bool {
    w.rd matches Some(rd) ==> (rd as int) < len
}

/// Register values after the writeback of `w`.
pub open spec fn written_back(regs: Seq<u64>, w: MemoryWritebackRegister) -> Seq<u64> {
    match w.rd {
        Some(rd) => if (rd as int) < regs.len() {
            regs.update(rd as int, w.result)
        } else {
            regs
        },
        None => regs,
    }
}

/// Message of a memory stage error.
#[verifier::external_body]
fn memory_stage_message(e: MemoryStageError) -> (s: String) {
    format!("{:?}", e)
}

impl Pipeline {
    /// The stages keep their invariants.
    pub open spec fn wf(&self) -> bool {
        &&& self.fetch.wf()
        &&& self.decode.branch_predictor.wf()
    }

    /// A pipeline with empty latches, fresh stages and counters at zero,
    /// fetching through a buffer of `fetch_buffer_size` instructions.
    pub fn new(fetch_buffer_size: usize, enable_forwarding: bool, enable_hazard_detection: bool) -> (p: Self)
        ensures
            p.wf(),
            p.state.fetch_decode is None,
            p.state.decode_execute is None,
            p.state.execute_memory is None,
            p.state.memory_writeback is None,
            p.state.next_pc == 0,
            !p.state.stalled,
            !p.state.halted,
            p.fetch.buffer_size == fetch_buffer_size,
            p.fetch.buffer().len() == 0,
            p.decode.branch_predictor.metrics.predictions_made == 0,
            p.decode.ras.counters() == (0u64, 0u64, 0u64, 0u64),
            p.memory.stack_pointer == 0xFFFF0000,
            p.hazard_detection.hazards() == 0,
            p.hazard_detection.stalled_cycles() == 0,
            p.forwarding.forwards_count == 0,
            p.stats == zero_pipeline_stats(),
            p.enable_forwarding == enable_forwarding,
            p.enable_hazard_detection == enable_hazard_detection,
    {
        Pipeline {
            state: PipelineState::default(),
            fetch: FetchStage::new(fetch_buffer_size),
            decode: DecodeStage::new(),
            memory: MemoryStage::new(),
            writeback: WritebackStage::new(),
            hazard_detection: HazardDetectionUnit::new(),
            forwarding: ForwardingUnit::new(),
            stats: PipelineStats::default(),
            enable_forwarding,
            enable_hazard_detection,
        }
    }

    /// Empties the latches, resets every stage and zeroes the counters.
    pub fn reset(&mut self)
        ensures
            final(self).state.fetch_decode is None,
            final(self).state.decode_execute is None,
            final(self).state.execute_memory is None,
            final(self).state.memory_writeback is None,
            final(self).state.next_pc == 0,
            !final(self).state.halted,
            final(self).fetch.wf(),
            final(self).fetch.buffer().len() == 0,
            final(self).fetch.buffer_size == old(self).fetch.buffer_size,
            final(self).decode.ras.entries().len() == 0,
            final(self).decode.branch_predictor == old(self).decode.branch_predictor,
            final(self).memory.stack_pointer == 0xFFFF0000,
            final(self).hazard_detection.hazards() == 0,
            final(self).hazard_detection.stalled_cycles() == 0,
            final(self).forwarding.forwards_count == 0,
            final(self).stats == zero_pipeline_stats(),
            final(self).enable_forwarding == old(self).enable_forwarding,
            final(self).enable_hazard_detection == old(self).enable_hazard_detection,
    {
        self.state = PipelineState::default();
        self.fetch.reset();
        self.decode.reset();
        self.memory.reset();
        self.writeback.reset();
        self.hazard_detection.reset();
        self.forwarding.reset();
        self.stats = PipelineStats::default();
    }

    /// The counters.
    pub fn stats(&self) -> (r: PipelineStats)
        ensures
            r == self.stats,
    {
        self.stats
    }

    /// First half of a cycle at `pc`: counts the cycle, looks for a hazard
    /// (when detection is on), and, without one, fetches the instruction at
    /// `pc` and decodes it. On a hazard the cycle stalls: the fetch address
    /// stays `pc` and both front latches are emptied. The pipeline's own
    /// state is left as it was; the state of this cycle is returned.
    #[verifier::rlimit(60)]
    #[verifier::spinoff_prover]
    pub fn begin_cycle(&mut self, pc: u32, registers: &[u64], instructions: &[Instruction]) -> (r: Result<
        PipelineState,
        String,
    >)
        requires
            old(self).wf(),
            program_fits(instructions@),
            old(self).stats.cycles < u64::MAX,
            old(self).stats.stalls < u64::MAX,
            old(self).stats.hazards < u64::MAX,
            old(self).hazard_detection.hazards() < u64::MAX,
            old(self).hazard_detection.dependencies() < u64::MAX,
            old(self).hazard_detection.potential_forwards() < u64::MAX,
            old(self).decode.branch_predictor.metrics.predictions_made < usize::MAX,
            old(self).decode.ras.counters().0 < u64::MAX,
            ({
                let b = refilled(old(self).fetch.buffer(), old(self).fetch.buffer_size as nat, instructions@, pc);
                has_key(b, pc) ==> forall|i: Instruction|
                    i@ == b[key_pos(b, pc)].1 ==> #[trigger] decode_fits(i, pc)
            }),
        ensures
            final(self).state == old(self).state,
            final(self).memory == old(self).memory,
            final(self).writeback == old(self).writeback,
            final(self).forwarding == old(self).forwarding,
            final(self).enable_forwarding == old(self).enable_forwarding,
            final(self).enable_hazard_detection == old(self).enable_hazard_detection,
            final(self).fetch.wf(),
            final(self).fetch.buffer_size == old(self).fetch.buffer_size,
            final(self).decode.branch_predictor.wf(),
            old(self).enable_hazard_detection ==> {
                let st = cycle_start(old(self).state);
                let h = old(self).hazard_detection;
                let f = !load_use_in(st) && forwardable_in(st);
                &&& final(self).hazard_detection.stalled_cycles() == stall_after(st, h.stalled_cycles())
                &&& final(self).hazard_detection.hazards() == h.hazards() + if stalls_cycle(*old(self)) {
                    1int
                } else {
                    0int
                }
                &&& final(self).hazard_detection.dependencies() == h.dependencies() + if f {
                    1int
                } else {
                    0int
                }
                &&& final(self).hazard_detection.potential_forwards() == h.potential_forwards() + if f {
                    1int
                } else {
                    0int
                }
            },
            !old(self).enable_hazard_detection ==> final(self).hazard_detection == old(self).hazard_detection,
            final(self).stats == (PipelineStats {
                cycles: (old(self).stats.cycles + 1) as u64,
                stalls: (old(self).stats.stalls + if stalls_cycle(*old(self)) {
                    1int
                } else {
                    0int
                }) as u64,
                hazards: (old(self).stats.hazards + if stalls_cycle(*old(self)) {
                    1int
                } else {
                    0int
                }) as u64,
                ..old(self).stats
            }),
            stalls_cycle(*old(self)) ==> {
                &&& r matches Ok(s) && {
                    &&& s.stalled
                    &&& s.next_pc == pc
                    &&& s.fetch_decode is None
                    &&& s.decode_execute is None
                    &&& same_em(s.execute_memory, old(self).state.execute_memory)
                    &&& same_mw(s.memory_writeback, old(self).state.memory_writeback)
                    &&& s.halted == old(self).state.halted
                    &&& s.instructions_completed == 0
                    &&& s.branch_processed == cycle_start(old(self).state).branch_processed
                }
                &&& final(self).fetch == old(self).fetch
                &&& final(self).decode == old(self).decode
            },
            !stalls_cycle(*old(self)) ==> {
                let b = refilled(old(self).fetch.buffer(), old(self).fetch.buffer_size as nat, instructions@, pc);
                let k = key_pos(b, pc);
                &&& !has_key(b, pc) ==> r is Err && final(self).fetch.buffer() == b && final(self).decode
                    == old(self).decode
                &&& has_key(b, pc) ==> {
                    &&& final(self).fetch.buffer() == prefetched(
                        b.remove(k),
                        old(self).fetch.buffer_size as nat,
                        instructions@,
                        (pc + view_size(b[k].1)) as u32,
                    )
                    &&& forall|i: Instruction|
                        i@ == b[k].1 ==> (r is Ok <==> #[trigger] decodes(i, pc, registers@))
                    &&& r is Err ==> final(self).decode == old(self).decode
                }
                &&& r matches Ok(s) ==> {
                    &&& !s.stalled
                    &&& s.fetch_decode matches Some(f) && {
                        &&& f.pc == pc
                        &&& f.instruction@ == b[k].1
                        &&& s.next_pc == vstd::wrapping::u32_specs::wrapping_add(
                            pc,
                            f.instruction.spec_total_size() as u32,
                        )
                        &&& s.decode_execute matches Some(d) && decoded(
                            old(self).decode,
                            final(self).decode,
                            f,
                            registers@,
                            d,
                        )
                    }
                    &&& same_em(s.execute_memory, old(self).state.execute_memory)
                    &&& same_mw(s.memory_writeback, old(self).state.memory_writeback)
                    &&& s.halted == old(self).state.halted
                    &&& s.instructions_completed == 0
                    &&& s.branch_processed == cycle_start(old(self).state).branch_processed
                }
            },
    {
        self.stats.cycles = self.stats.cycles + 1;
        let mut state = self.state.clone();
        state.stalled = false;
        state.instructions_completed = 0;
        let in_flight_branch = match &state.execute_memory {
            Some(e) => e.instruction.opcode.is_branch(),
            None => false,
        };
        if in_flight_branch {
            state.branch_processed = false;
        }
        proof {
            assert(hazard_outcome(state, self.hazard_detection.stalled_cycles()) == hazard_outcome(
                cycle_start(old(self).state),
                old(self).hazard_detection.stalled_cycles(),
            ));
            assert(load_use_in(state) == load_use_in(cycle_start(old(self).state)));
            assert(forwardable_in(state) == forwardable_in(cycle_start(old(self).state)));
            assert(stall_after(state, self.hazard_detection.stalled_cycles()) == stall_after(
                cycle_start(old(self).state),
                old(self).hazard_detection.stalled_cycles(),
            ));
        }
        if self.enable_hazard_detection {
            let any_hazard = self.hazard_detection.detect_hazards(&state);
            if any_hazard {
                self.stats.stalls = self.stats.stalls + 1;
                self.stats.hazards = self.stats.hazards + 1;
                state.stalled = true;
            }
        }
        if state.stalled {
            state.next_pc = pc;
            state.fetch_decode = None;
            state.decode_execute = None;
        }
        if !state.stalled {
            let fd_reg = match self.fetch.process_direct(pc, instructions) {
                Ok(f) => f,
                Err(e) => {
                    return Err(e);
                },
            };
            proof {
                assert(decode_fits(fd_reg.instruction, pc));
            }
            let instruction_size = fd_reg.instruction.total_size() as u32;
            state.next_pc = pc.wrapping_add(instruction_size);
            let ex_reg = match self.decode.process_direct(&fd_reg, registers) {
                Ok(d) => d,
                Err(e) => {
                    return Err(e);
                },
            };
            state.fetch_decode = Some(fd_reg);
            state.decode_execute = Some(ex_reg);
        }
        Ok(state)
    }

    /// The decoded instruction as the execute stage sees it: with the
    /// values forwarded from the execute and writeback latches when
    /// forwarding is on; none without a decoded instruction.
    pub fn forward_for_execute(&mut self, state: &PipelineState) -> (r: Option<DecodeExecuteRegister>)
        requires
            old(self).forwarding.forwards_count + 4 <= u64::MAX,
        ensures
            match state.decode_execute {
                None => r is None && *final(self) == *old(self),
                Some(d) => {
                    let ex = ex_source(state.execute_memory);
                    let wb = wb_source(state.memory_writeback);
                    &&& r matches Some(x) && if old(self).enable_forwarding {
                        &&& x.instruction@ == d.instruction@
                        &&& x == (DecodeExecuteRegister {
                            instruction: x.instruction,
                            rs1_value: operand1_after(d, ex, wb),
                            rs2_value: operand2_after(d, ex, wb),
                            ..d
                        })
                    } else {
                        same_de(Some(x), Some(d))
                    }
                    &&& final(self).forwarding.forwards_count >= old(self).forwarding.forwards_count
                    &&& !old(self).enable_forwarding ==> final(self).forwarding == old(self).forwarding
                    &&& *final(self) == (Pipeline { forwarding: final(self).forwarding, ..*old(self) })
                },
            },
    {
        match &state.decode_execute {
            Some(de_reg) => {
                let mut de_reg_mut = de_reg.clone();
                if self.enable_forwarding {
                    proof {
                        assert(crate::pipeline::forward::forwarded(
                            de_reg_mut,
                            ex_source(state.execute_memory),
                            wb_source(state.memory_writeback),
                        ).len() <= 4);
                    }
                    self.forwarding.forward(&mut de_reg_mut, &state.execute_memory, &state.memory_writeback);
                }
                Some(de_reg_mut)
            },
            None => None,
        }
    }
    /// Second half of a cycle, once the instruction in `s`'s decode latch
    /// was executed into `mem_reg` (none when nothing was decoded): resolves
    /// a branch (a mispredicted taken branch with a target redirects fetch
    /// there and empties the front latches, a branch not taken resumes after
    /// itself, and the predictor learns the outcome), then carries out the
    /// memory access and the writeback. A halt stops the cycle after its
    /// memory stage, with every latch but the last emptied. The returned
    /// state is also kept as the pipeline's state.
    #[verifier::rlimit(60)]
    #[verifier::spinoff_prover]
    pub fn finish_cycle(
        &mut self,
        s: PipelineState,
        mem_reg: Option<ExecuteMemoryRegister>,
        memory: &mut Memory,
        registers: &mut Vec<u64>,
    ) -> (r: Result<PipelineState, String>)
        requires
            old(self).decode.branch_predictor.wf(),
            old(self).decode.branch_predictor.metrics.total_branches < usize::MAX,
            old(self).decode.branch_predictor.metrics.correct_predictions < usize::MAX,
            old(self).decode.branch_predictor.metrics.incorrect_predictions < usize::MAX,
            old(self).decode.branch_predictor.overriding_predictor matches Some(o) ==> o.counters_below_max(),
            old(self).stats.branch_hits < u64::MAX,
            old(self).stats.branch_misses < u64::MAX,
            old(self).stats.branch_flush < u64::MAX,
            old(self).stats.branch_predictions < u64::MAX,
            s.instructions_completed < usize::MAX,
            mem_reg is Some ==> s.decode_execute is Some,
            mem_reg matches Some(m) ==> {
                &&& m.instruction.args@.len() + HEADER_SIZE <= usize::MAX
                &&& (!m.branch_taken && m.instruction.opcode.is_branch()) ==> s.decode_execute->0.pc
                    + (m.instruction.spec_total_size() as u32) <= u32::MAX
                &&& old(memory).wf()
                &&& old(memory).room() >= 8
                &&& old(memory).buffer_capacity() > 0
                &&& access_fits(
                    m.instruction.opcode,
                    m.mem_addr,
                    old(self).memory.stack_pointer,
                    old(memory).bytes().len(),
                )
            },
        ensures
            final(self).fetch == old(self).fetch,
            final(self).hazard_detection == old(self).hazard_detection,
            final(self).forwarding == old(self).forwarding,
            final(self).enable_forwarding == old(self).enable_forwarding,
            final(self).enable_hazard_detection == old(self).enable_hazard_detection,
            final(self).decode.ras == old(self).decode.ras,
            final(self).decode.branch_predictor.wf(),
            r is Err ==> final(self).state == old(self).state,
            r matches Ok(t) ==> copies(final(self).state, t),
            match mem_reg {
                None => {
                    &&& r matches Ok(t) && {
                        &&& same_fd(t.fetch_decode, s.fetch_decode)
                        &&& same_de(t.decode_execute, s.decode_execute)
                        &&& t.execute_memory is None
                        &&& t.memory_writeback is None
                        &&& t.next_pc == s.next_pc
                        &&& t.stalled == s.stalled
                        &&& t.halted == s.halted
                        &&& t.instructions_completed == s.instructions_completed
                        &&& t.branch_processed == s.branch_processed
                    }
                    &&& *final(memory) == *old(memory)
                    &&& final(registers)@ == old(registers)@
                    &&& final(self).decode == old(self).decode
                    &&& final(self).memory == old(self).memory
                    &&& final(self).stats == (PipelineStats {
                        hazards: old(self).hazard_detection.hazards(),
                        forwards: old(self).forwarding.forwards_count,
                        ..old(self).stats
                    })
                },
                Some(m) => {
                    let predicted = m.branch_prediction_correct is Some;
                    &&& final(self).stats.branch_hits == old(self).stats.branch_hits + if m.branch_prediction_correct
                        == Some(true) {
                        1int
                    } else {
                        0int
                    }
                    &&& final(self).stats.branch_misses == old(self).stats.branch_misses + if m.branch_prediction_correct
                        == Some(false) {
                        1int
                    } else {
                        0int
                    }
                    &&& final(self).stats.branch_flush == old(self).stats.branch_flush + if flushes(m) {
                        1int
                    } else {
                        0int
                    }
                    &&& final(self).stats.branch_predictions == old(self).stats.branch_predictions + if predicted {
                        1int
                    } else {
                        0int
                    }
                    &&& predicted ==> crate::pvm::branch_predictor::BranchPredictor::learned(
                        old(self).decode.branch_predictor,
                        final(self).decode.branch_predictor,
                        s.decode_execute->0.pc as u64,
                        m.branch_taken,
                        match s.decode_execute->0.branch_prediction {
                            Some(p) => p,
                            None => BranchPrediction::NotTaken,
                        },
                    )
                    &&& !predicted ==> final(self).decode.branch_predictor == old(self).decode.branch_predictor
                    &&& exists|mr: Result<MemoryWritebackRegister, MemoryStageError>|
                        #[trigger] memory_access(
                            old(self).memory.stack_pointer,
                            final(self).memory.stack_pointer,
                            m,
                            *old(memory),
                            *final(memory),
                            mr,
                        ) && match mr {
                            Err(_) => r is Err && final(registers)@ == old(registers)@,
                            Ok(w) => if m.instruction.opcode is Halt {
                                &&& r matches Ok(t) && {
                                    &&& t.halted
                                    &&& t.fetch_decode is None
                                    &&& t.decode_execute is None
                                    &&& t.execute_memory is None
                                    &&& same_mw(t.memory_writeback, Some(w))
                                    &&& t.next_pc == resolved_pc(s, m)
                                    &&& t.stalled == s.stalled
                                    &&& t.instructions_completed == s.instructions_completed
                                }
                                &&& final(registers)@ == old(registers)@
                            } else {
                                &&& (r is Ok <==> writes_back_ok(w, old(registers)@.len()))
                                &&& final(registers)@ == written_back(old(registers)@, w)
                                &&& r matches Ok(t) ==> {
                                    &&& t.next_pc == resolved_pc(s, m)
                                    &&& flushes(m) ==> t.fetch_decode is None && t.decode_execute is None
                                    &&& !flushes(m) ==> same_fd(t.fetch_decode, s.fetch_decode) && same_de(
                                        t.decode_execute,
                                        s.decode_execute,
                                    )
                                    &&& same_em(t.execute_memory, Some(m))
                                    &&& t.memory_writeback is None
                                    &&& t.instructions_completed == s.instructions_completed + 1
                                    &&& t.halted == s.halted
                                    &&& t.stalled == s.stalled
                                    &&& final(self).stats.hazards == old(self).hazard_detection.hazards()
                                    &&& final(self).stats.forwards == old(self).forwarding.forwards_count
                                }
                            },
                        }
                },
            },
    {
        let mut state = s;
        let ghost s0 = state;
        let ghost m0 = mem_reg;
        match mem_reg {
            Some(mem_reg) => {
                let (branch_pc, branch_prediction) = match &state.decode_execute {
                    Some(d) => (d.pc, d.branch_prediction),
                    None => (0, None),
                };
                match mem_reg.branch_prediction_correct {
                    Some(prediction_correct) => {
                        if prediction_correct {
                            self.stats.branch_hits = self.stats.branch_hits + 1;
                        } else {
                            self.stats.branch_misses = self.stats.branch_misses + 1;
                            if mem_reg.branch_taken {
                                match mem_reg.branch_target {
                                    Some(target) => {
                                        state.next_pc = target;
                                        state.fetch_decode = None;
                                        state.decode_execute = None;
                                        self.stats.branch_flush = self.stats.branch_flush + 1;
                                    },
                                    None => {},
                                }
                            }
                        }
                        let prediction = match branch_prediction {
                            Some(p) => p,
                            None => BranchPrediction::NotTaken,
                        };
                        self.decode.branch_predictor.update(branch_pc as u64, mem_reg.branch_taken, prediction);
                        self.stats.branch_predictions = self.stats.branch_predictions + 1;
                    },
                    None => {},
                }
                if !mem_reg.branch_taken && mem_reg.instruction.opcode.is_branch() {
                    let branch_instruction_size = mem_reg.instruction.total_size() as u32;
                    let correct_sequential_pc_after_branch = branch_pc + branch_instruction_size;
                    if state.next_pc != correct_sequential_pc_after_branch {
                        state.next_pc = correct_sequential_pc_after_branch;
                    }
                }
                state.execute_memory = Some(mem_reg);
            },
            None => {
                state.execute_memory = None;
            },
        }
        let mut halt = false;
        let mut wb_opt: Option<MemoryWritebackRegister> = None;
        let ghost mut mr: Result<MemoryWritebackRegister, MemoryStageError> = arbitrary();
        let ghost sp0 = self.memory.stack_pointer;
        match &state.execute_memory {
            Some(ex_mem) => {
                let mres = self.memory.process_direct(ex_mem, memory);
                proof {
                    mr = mres;
                }
                let wb_reg = match mres {
                    Ok(w) => w,
                    Err(e) => {
                        proof {
                            assert(memory_access(sp0, self.memory.stack_pointer, m0->0, *old(memory), *memory, mr));
                        }
                        return Err(memory_stage_message(e));
                    },
                };
                halt = ex_mem.instruction.opcode == crate::bytecode::Opcode::Halt;
                wb_opt = Some(wb_reg);
            },
            None => {},
        }
        proof {
            if m0 is Some {
                assert(memory_access(sp0, self.memory.stack_pointer, m0->0, *old(memory), *memory, mr));
            }
        }
        if halt {
            state.halted = true;
            state.fetch_decode = None;
            state.decode_execute = None;
            state.execute_memory = None;
            state.memory_writeback = wb_opt;
            self.state = state.clone();
            return Ok(state);
        }
        state.memory_writeback = wb_opt;
        match &state.memory_writeback {
            Some(mw_reg) => {
                match self.writeback.process_direct(mw_reg, registers) {
                    Ok(()) => {},
                    Err(e) => {
                        return Err(e);
                    },
                }
                state.instructions_completed = state.instructions_completed + 1;
            },
            None => {},
        }
        state.memory_writeback = None;
        self.stats.hazards = self.hazard_detection.get_hazards_count();
        self.stats.forwards = self.forwarding.get_forwards_count();
        self.state = state.clone();
        proof {
            if m0 is Some {
                let m = m0->0;
                assert(mr is Ok);
                let w = mr->Ok_0;
                assert(!(m.instruction.opcode is Halt));
                assert(writes_back_ok(w, old(registers)@.len()));
                assert(registers@ == written_back(old(registers)@, w));
                assert(state.next_pc == resolved_pc(s, m));
                assert(same_em(state.execute_memory, Some(m)));
                assert(state.instructions_completed == s.instructions_completed + 1);
                assert(memory_access(
                    old(self).memory.stack_pointer,
                    self.memory.stack_pointer,
                    m,
                    *old(memory),
                    *memory,
                    mr,
                ));
                assert(self.stats.branch_hits == old(self).stats.branch_hits + if m.branch_prediction_correct
                    == Some(true) {
                    1int
                } else {
                    0int
                });
                assert(self.stats.branch_flush == old(self).stats.branch_flush + if flushes(m) {
                    1int
                } else {
                    0int
                });
                assert(flushes(m) ==> state.fetch_decode is None);
                assert(!flushes(m) ==> same_fd(state.fetch_decode, s.fetch_decode));
            }
        }
        Ok(state)
    }
}

} // verus!