//! Dependency analysis for issuing instructions to several execution units.
use vstd::prelude::*;
use std::collections::{HashMap, VecDeque};
use crate::bytecode::Opcode;
use crate::pipeline::{DecodeExecuteRegister, ExecuteMemoryRegister};

verus! {

broadcast use vstd::std_specs::hash::group_hash_axioms;

/// Kinds of execution unit.
#[derive(Debug, Clone, PartialEq, Eq, Structural)]
pub enum ExecutionUnit {
    /// Arithmetic and logic.
    ALU,
    /// Address generation and memory.
    AGU,
    /// Both of the above.
    Both,
    /// Vector instructions.
    SIMD,
    /// Floating point.
    FPU,
    /// Branches.
    Branch,
}

/// Issue priority of an instruction.
#[derive(Debug, Clone, Copy, PartialEq, Eq, Structural, PartialOrd, Ord)]
pub enum InstructionPriority {
    /// Loads, stores and branches.
    High,
    /// Arithmetic.
    Medium,
    /// Everything else.
    Low,
}

/// Kinds of register dependency.
#[derive(Debug, Clone, Copy, PartialEq, Eq, Structural)]
pub enum DependencyType {
    /// Read after write.
    RAW,
    /// Write after read.
    WAR,
    /// Write after write.
    WAW,
}

/// A dependency on an earlier instruction through a register.
#[derive(Debug, Clone, Copy, PartialEq, Eq, Structural)]
pub struct RegisterDependency {
    pub register: usize,
    pub dep_type: DependencyType,
    /// Age of the instruction that last wrote the register.
    pub producer_age: u64,
}

/// A dependency between two instructions through memory.
#[derive(Debug, Clone, Copy)]
pub struct MemoryDependency {
    pub producer: u64,
    pub consumer: u64,
    pub address: Option<u64>,
}

/// An instruction waiting to issue, with what it depends on.
#[derive(Debug, Clone)]
pub struct ExecutionPacket {
    pub instruction: DecodeExecuteRegister,
    pub age: u64,
    pub priority: InstructionPriority,
    pub dependencies: Vec<RegisterDependency>,
    pub ready: bool,
}

/// A result waiting for its unit's latency to run out.
#[derive(Debug)]
pub struct PendingResult {
    pub result: ExecuteMemoryRegister,
    pub ready_cycle: u64,
    pub execution_unit: ExecutionUnit,
}

/// Records which instruction last wrote each register and which ones read
/// it, and numbers the instructions in the order they are analysed.
#[derive(Debug)]
pub struct DependencyAnalyzer {
    register_producers: HashMap<usize, u64>,
    register_consumers: HashMap<usize, Vec<u64>>,
    memory_dependencies: Vec<MemoryDependency>,
    instruction_age_counter: u64,
}

/// The dependency on the last writer of `r`, if `r` has one.
pub open spec fn dependency_on(
    producers: Map<usize, u64>,
    r: Option<usize>,
    t: DependencyType,
) -> Seq<RegisterDependency> {
    match r {
        Some(reg) => if producers.contains_key(reg) {
            seq![RegisterDependency { register: reg, dep_type: t, producer_age: producers[reg] }]
        } else {
            Seq::empty()
        },
        None => Seq::empty(),
    }
}

/// Dependencies of `d`: read-after-write on each source register that has a
/// writer, then write-after-write on the destination if it has one.
pub open spec fn dependencies_of(producers: Map<usize, u64>, d: DecodeExecuteRegister) -> Seq<
    RegisterDependency,
> {
    dependency_on(producers, d.rs1, DependencyType::RAW) + dependency_on(
        producers,
        d.rs2,
        DependencyType::RAW,
    ) + dependency_on(producers, d.rd, DependencyType::WAW)
}

/// `m` with `age` appended to the readers of `r`, if there is a register.
pub open spec fn add_reader(m: Map<usize, Seq<u64>>, r: Option<usize>, age: u64) -> Map<
    usize,
    Seq<u64>,
> {
    match r {
        Some(reg) => m.insert(
            reg,
            (if m.contains_key(reg) {
                m[reg]
            } else {
                Seq::empty()
            }).push(age),
        ),
        None => m,
    }
}

impl DependencyAnalyzer {
    /// Age of the last instruction that wrote each register.
    pub closed spec fn producers(&self) -> Map<usize, u64> {
        self.register_producers@
    }

    /// Ages of the instructions that read each register, in order.
    pub closed spec fn readers(&self) -> Map<usize, Seq<u64>> {
        self.register_consumers@.map_values(|v: Vec<u64>| v@)
    }

    /// Age the next instruction gets.
    pub closed spec fn next_age(&self) -> u64 {
        self.instruction_age_counter
    }

    /// An analyser that has seen no instruction.
    pub fn new() -> (a: Self)
        ensures
            a.producers() == Map::<usize, u64>::empty(),
            a.readers() == Map::<usize, Seq<u64>>::empty(),
            a.next_age() == 0,
    {
        let a = DependencyAnalyzer {
            register_producers: HashMap::new(),
            register_consumers: HashMap::new(),
            memory_dependencies: Vec::new(),
            instruction_age_counter: 0,
        };
        proof {
            assert(a.readers() =~= Map::<usize, Seq<u64>>::empty());
        }
        a
    }

    /// Appends `age` to the readers of `reg`.
    fn add_consumer(&mut self, reg: usize, age: u64)
        ensures
            final(self).readers() == add_reader(old(self).readers(), Some(reg), age),
            final(self).producers() == old(self).producers(),
            final(self).next_age() == old(self).next_age(),
    {
        let mut list = match self.register_consumers.remove(&reg) {
            Some(v) => v,
            None => Vec::new(),
        };
        list.push(age);
        self.register_consumers.insert(reg, list);
        proof {
            assert(self.readers() =~= add_reader(old(self).readers(), Some(reg), age));
        }
    }

    /// The dependency on the last writer of `r`, if `r` has one.
    fn dependency_for(&self, r: usize, t: DependencyType) -> (d: Option<RegisterDependency>)
        ensures
            match d {
                Some(x) => dependency_on(self.producers(), Some(r), t) == seq![x],
                None => dependency_on(self.producers(), Some(r), t) == Seq::<
                    RegisterDependency,
                >::empty(),
            },
    {
        match self.register_producers.get(&r) {
            Some(age) => Some(RegisterDependency { register: r, dep_type: t, producer_age: *age }),
            None => None,
        }
    }

    /// `b` is `a` after analysing `d`: `d` gets the next age, becomes the
    /// last writer of its destination and a reader of its sources.
    pub open spec fn analyzed(a: DependencyAnalyzer, b: DependencyAnalyzer, d: DecodeExecuteRegister) -> bool {
        &&& b.producers() == match d.rd {
            Some(rd) => a.producers().insert(rd, a.next_age()),
            None => a.producers(),
        }
        &&& b.readers() == add_reader(add_reader(a.readers(), d.rs1, a.next_age()), d.rs2, a.next_age())
        &&& b.next_age() == a.next_age() + 1
    }

    /// Gives `instruction` the next age and returns its dependencies:
    /// read-after-write on its source registers, write-after-write on its
    /// destination. The instruction then becomes the last writer of its
    /// destination and a reader of its sources.
    pub fn analyze_instruction(&mut self, instruction: &DecodeExecuteRegister) -> (r: Vec<
        RegisterDependency,
    >)
        requires
            old(self).next_age() < u64::MAX,
        ensures
            r@ == dependencies_of(old(self).producers(), *instruction),
            Self::analyzed(*old(self), *final(self), *instruction),
    {
        let mut dependencies: Vec<RegisterDependency> = Vec::new();
        let current_age = self.instruction_age_counter;
        let ghost p = self.producers();
        match instruction.rs1 {
            Some(rs1) => {
                match self.dependency_for(rs1, DependencyType::RAW) {
                    Some(d) => dependencies.push(d),
                    None => {},
                }
            },
            None => {},
        }
        proof {
            assert(dependencies@ =~= dependency_on(p, instruction.rs1, DependencyType::RAW));
        }
        let ghost after1 = dependencies@;
        match instruction.rs2 {
            Some(rs2) => {
                match self.dependency_for(rs2, DependencyType::RAW) {
                    Some(d) => dependencies.push(d),
                    None => {},
                }
            },
            None => {},
        }
        proof {
            assert(dependencies@ =~= after1 + dependency_on(p, instruction.rs2, DependencyType::RAW));
        }
        let ghost after2 = dependencies@;
        match instruction.rd {
            Some(rd) => {
                match self.dependency_for(rd, DependencyType::WAW) {
                    Some(d) => dependencies.push(d),
                    None => {},
                }
                self.register_producers.insert(rd, current_age);
            },
            None => {},
        }
        proof {
            assert(dependencies@ =~= after2 + dependency_on(p, instruction.rd, DependencyType::WAW));
        }
        match instruction.rs1 {
            Some(rs1) => self.add_consumer(rs1, current_age),
            None => {},
        }
        match instruction.rs2 {
            Some(rs2) => self.add_consumer(rs2, current_age),
            None => {},
        }
        self.instruction_age_counter = self.instruction_age_counter + 1;
        dependencies
    }

    /// Forgets every writer, reader and memory dependency, and starts the
    /// ages from zero again.
    pub fn reset(&mut self)
        ensures
            final(self).producers() == Map::<usize, u64>::empty(),
            final(self).readers() == Map::<usize, Seq<u64>>::empty(),
            final(self).next_age() == 0,
    {
        self.register_producers.clear();
        self.register_consumers.clear();
        self.memory_dependencies.clear();
        self.instruction_age_counter = 0;
        proof {
            assert(self.readers() =~= Map::<usize, Seq<u64>>::empty());
        }
    }
}

/// Counters of parallel execution.
#[derive(Debug, Clone, Copy, PartialEq, Eq, Structural)]
pub struct ParallelExecutionStats {
    pub total_instructions: u64,
    pub parallel_executions: u64,
    pub alu_instructions: u64,
    pub agu_instructions: u64,
    pub simd_instructions: u64,
    pub dependency_stalls: u64,
    pub resource_conflicts: u64,
    pub raw_dependencies: u64,
    pub war_dependencies: u64,
    pub waw_dependencies: u64,
}

/// Every counter at zero.
pub open spec fn zero_parallel_stats() -> ParallelExecutionStats {
    ParallelExecutionStats {
        total_instructions: 0,
        parallel_executions: 0,
        alu_instructions: 0,
        agu_instructions: 0,
        simd_instructions: 0,
        dependency_stalls: 0,
        resource_conflicts: 0,
        raw_dependencies: 0,
        war_dependencies: 0,
        waw_dependencies: 0,
    }
}

impl Default for ParallelExecutionStats {
    /// Every counter at zero.
    fn default() -> (s: Self)
        ensures
            s == zero_parallel_stats(),
    {
        ParallelExecutionStats {
            total_instructions: 0,
            parallel_executions: 0,
            alu_instructions: 0,
            agu_instructions: 0,
            simd_instructions: 0,
            dependency_stalls: 0,
            resource_conflicts: 0,
            raw_dependencies: 0,
            war_dependencies: 0,
            waw_dependencies: 0,
        }
    }
}

/// Execution unit and priority of an opcode: memory accesses go to the
/// address unit first, arithmetic to the ALU, vector arithmetic to the SIMD
/// unit, the common jumps to the branch unit first, stack operations to the
/// address unit, and anything else to the ALU last.
pub open spec fn unit_and_priority(op: Opcode) -> (ExecutionUnit, InstructionPriority) {
    match op {
        Opcode::Load | Opcode::LoadB | Opcode::LoadW | Opcode::LoadD | Opcode::Store
        | Opcode::StoreB | Opcode::StoreW | Opcode::StoreD => (ExecutionUnit::AGU, InstructionPriority::High),
        Opcode::Simd128Load | Opcode::Simd128Store | Opcode::Simd256Load | Opcode::Simd256Store => (
            ExecutionUnit::AGU,
            InstructionPriority::High,
        ),
        Opcode::Add | Opcode::Sub | Opcode::Mul | Opcode::Div | Opcode::Mod | Opcode::Inc
        | Opcode::Dec | Opcode::Neg | Opcode::And | Opcode::Or | Opcode::Xor | Opcode::Not
        | Opcode::Shl | Opcode::Shr | Opcode::Sar | Opcode::Rol | Opcode::Ror | Opcode::Cmp
        | Opcode::Test => (ExecutionUnit::ALU, InstructionPriority::Medium),
        Opcode::Simd128Add | Opcode::Simd128Sub | Opcode::Simd128Mul | Opcode::Simd128Div
        | Opcode::Simd128And | Opcode::Simd128Or | Opcode::Simd128Xor | Opcode::Simd128Not
        | Opcode::Simd256Add | Opcode::Simd256Sub | Opcode::Simd256Mul | Opcode::Simd256Div => (
            ExecutionUnit::SIMD,
            InstructionPriority::Medium,
        ),
        Opcode::Jmp | Opcode::JmpIfEqual | Opcode::JmpIfNotEqual | Opcode::JmpIfGreater
        | Opcode::JmpIfLess | Opcode::JmpIfGreaterEqual | Opcode::JmpIfLessEqual
        | Opcode::JmpIfZero | Opcode::JmpIfNotZero => (ExecutionUnit::Branch, InstructionPriority::High),
        Opcode::Push | Opcode::Pop | Opcode::Call | Opcode::Ret => (
            ExecutionUnit::AGU,
            InstructionPriority::Medium,
        ),
        _ => (ExecutionUnit::ALU, InstructionPriority::Low),
    }
}

/// Queue an instruction for unit `u` waits in: 0 for the ALU (which also
/// takes branches, floating point and instructions for both units), 1 for
/// the address unit, 2 for the SIMD unit.
pub open spec fn queue_index(u: ExecutionUnit) -> int {
    match u {
        ExecutionUnit::AGU => 1,
        ExecutionUnit::SIMD => 2,
        _ => 0,
    }
}

/// Rank of a priority: 0 for high, 1 for medium, 2 for low.
pub open spec fn rank(p: InstructionPriority) -> int {
    match p {
        InstructionPriority::High => 0,
        InstructionPriority::Medium => 1,
        InstructionPriority::Low => 2,
    }
}

/// Packets with their ready flag set from their dependencies: ready when
/// they have none.
pub open spec fn readied(s: Seq<ExecutionPacket>) -> Seq<ExecutionPacket> {
    s.map_values(|p: ExecutionPacket| ExecutionPacket { ready: p.dependencies@.len() == 0, ..p })
}

/// Some packet of `s` is ready.
pub open spec fn has_ready(s: Seq<ExecutionPacket>) -> bool {
    exists|j: int| 0 <= j < s.len() && #[trigger] s[j].ready
}

/// `i` is the first ready packet of `s` among those of the highest
/// priority that are ready.
pub open spec fn is_pick(s: Seq<ExecutionPacket>, i: int) -> bool {
    &&& 0 <= i < s.len()
    &&& s[i].ready
    &&& forall|j: int| 0 <= j < s.len() && #[trigger] s[j].ready ==> rank(s[i].priority) <= rank(s[j].priority)
    &&& forall|j: int| 0 <= j < i && #[trigger] s[j].ready ==> rank(s[j].priority) > rank(s[i].priority)
}

/// The packet that issues next from `s`, when some packet is ready.
pub open spec fn pick(s: Seq<ExecutionPacket>) -> int {
    choose|i: int| is_pick(s, i)
}

/// There is at most one packet to issue.
pub proof fn lemma_pick_unique(s: Seq<ExecutionPacket>, i: int, j: int)
    requires
        is_pick(s, i),
        is_pick(s, j),
    ensures
        i == j,
{
    if i < j {
        assert(s[i].ready);
    } else if j < i {
        assert(s[j].ready);
    }
}

/// Number of results at the front of `s` that are due by cycle `c`.
pub open spec fn due_count(s: Seq<PendingResult>, c: u64) -> nat
    decreases s.len(),
{
    if s.len() > 0 && s[0].ready_cycle <= c {
        1 + due_count(s.drop_first(), c)
    } else {
        0
    }
}

/// Number of results of `s` from unit `u`.
pub open spec fn count_unit(s: Seq<PendingResult>, u: ExecutionUnit) -> nat
    decreases s.len(),
{
    if s.len() == 0 {
        0
    } else {
        count_unit(s.drop_last(), u) + if s.last().execution_unit == u {
            1nat
        } else {
            0nat
        }
    }
}

/// `e` is the result the engine records for `p` issued on unit `u` at
/// cycle `c`: due the next cycle, carrying the instruction, its destination
/// and its memory address, with nothing computed.
pub open spec fn placeholder(e: PendingResult, p: ExecutionPacket, u: ExecutionUnit, c: u64) -> bool {
    &&& e.ready_cycle == c + 1
    &&& e.execution_unit == u
    &&& e.result.instruction@ == p.instruction.instruction@
    &&& e.result.alu_result == 0
    &&& e.result.rd == p.instruction.rd
    &&& e.result.store_value is None
    &&& e.result.mem_addr == p.instruction.mem_addr
    &&& e.result.branch_target is None
    &&& !e.result.branch_taken
    &&& e.result.branch_prediction_correct is None
    &&& e.result.stack_operation is None
    &&& e.result.stack_result is None
    &&& e.result.ras_prediction_correct is None
    &&& !e.result.halted
}

/// Busy flag and latency left of a unit after one cycle: the latency goes
/// down by one, and the unit is free when it reaches zero.
pub open spec fn unit_tick(busy: bool, remaining: u32) -> (bool, u32) {
    if remaining > 0 {
        if remaining == 1 {
            (false, 0)
        } else {
            (busy, (remaining - 1) as u32)
        }
    } else {
        (busy, remaining)
    }
}

/// Issues decoded instructions to an ALU and an address unit (and queues
/// vector instructions), each unit taking one instruction at a time.
pub struct ParallelExecutionEngine {
    alu_queue: VecDeque<ExecutionPacket>,
    agu_queue: VecDeque<ExecutionPacket>,
    simd_queue: VecDeque<ExecutionPacket>,
    alu_busy: bool,
    agu_busy: bool,
    simd_busy: bool,
    alu_cycles_remaining: u32,
    agu_cycles_remaining: u32,
    simd_cycles_remaining: u32,
    pending_results: VecDeque<PendingResult>,
    dependency_analyzer: DependencyAnalyzer,
    stats: ParallelExecutionStats,
    current_cycle: u64,
}

impl ParallelExecutionEngine {
    /// The ALU, address-unit and SIMD queues.
    pub closed spec fn queues(&self) -> (Seq<ExecutionPacket>, Seq<ExecutionPacket>, Seq<ExecutionPacket>) {
        (self.alu_queue@, self.agu_queue@, self.simd_queue@)
    }

    /// Whether the ALU, the address unit and the SIMD unit are busy.
    pub closed spec fn busy(&self) -> (bool, bool, bool) {
        (self.alu_busy, self.agu_busy, self.simd_busy)
    }

    /// Latency left on the ALU, the address unit and the SIMD unit.
    pub closed spec fn remaining(&self) -> (u32, u32, u32) {
        (self.alu_cycles_remaining, self.agu_cycles_remaining, self.simd_cycles_remaining)
    }

    /// Results waiting for their cycle, oldest first.
    pub closed spec fn pending(&self) -> Seq<PendingResult> {
        self.pending_results@
    }

    /// The dependency analyser.
    pub closed spec fn analyzer(&self) -> DependencyAnalyzer {
        self.dependency_analyzer
    }

    /// The counters.
    pub closed spec fn counters(&self) -> ParallelExecutionStats {
        self.stats
    }

    /// The current cycle.
    pub closed spec fn cycle(&self) -> u64 {
        self.current_cycle
    }

    /// An engine with empty queues, free units and counters at zero.
    pub fn new() -> (e: Self)
        ensures
            e.queues() == (Seq::<ExecutionPacket>::empty(), Seq::<ExecutionPacket>::empty(), Seq::<
                ExecutionPacket,
            >::empty()),
            e.busy() == (false, false, false),
            e.remaining() == (0u32, 0u32, 0u32),
            e.pending() == Seq::<PendingResult>::empty(),
            e.analyzer().producers() == Map::<usize, u64>::empty(),
            e.analyzer().readers() == Map::<usize, Seq<u64>>::empty(),
            e.analyzer().next_age() == 0,
            e.counters() == zero_parallel_stats(),
            e.cycle() == 0,
    {
        ParallelExecutionEngine {
            alu_queue: VecDeque::new(),
            agu_queue: VecDeque::new(),
            simd_queue: VecDeque::new(),
            alu_busy: false,
            agu_busy: false,
            simd_busy: false,
            alu_cycles_remaining: 0,
            agu_cycles_remaining: 0,
            simd_cycles_remaining: 0,
            pending_results: VecDeque::new(),
            dependency_analyzer: DependencyAnalyzer::new(),
            stats: ParallelExecutionStats::default(),
            current_cycle: 0,
        }
    }

    /// Moves to the next cycle: each unit's latency goes down by one, and a
    /// unit whose latency runs out is free again.
    pub fn advance_cycle(&mut self)
        requires
            old(self).cycle() < u64::MAX,
        ensures
            final(self).cycle() == old(self).cycle() + 1,
            (final(self).busy().0, final(self).remaining().0) == unit_tick(old(self).busy().0, old(self).remaining().0),
            (final(self).busy().1, final(self).remaining().1) == unit_tick(old(self).busy().1, old(self).remaining().1),
            (final(self).busy().2, final(self).remaining().2) == unit_tick(old(self).busy().2, old(self).remaining().2),
            final(self).queues() == old(self).queues(),
            final(self).pending() == old(self).pending(),
            final(self).analyzer() == old(self).analyzer(),
            final(self).counters() == old(self).counters(),
    {
        self.current_cycle = self.current_cycle + 1;
        if self.alu_cycles_remaining > 0 {
            self.alu_cycles_remaining = self.alu_cycles_remaining - 1;
            if self.alu_cycles_remaining == 0 {
                self.alu_busy = false;
            }
        }
        if self.agu_cycles_remaining > 0 {
            self.agu_cycles_remaining = self.agu_cycles_remaining - 1;
            if self.agu_cycles_remaining == 0 {
                self.agu_busy = false;
            }
        }
        if self.simd_cycles_remaining > 0 {
            self.simd_cycles_remaining = self.simd_cycles_remaining - 1;
            if self.simd_cycles_remaining == 0 {
                self.simd_busy = false;
            }
        }
    }

    /// Execution unit and priority of a decoded instruction.
    pub fn analyze_instruction(instruction: &DecodeExecuteRegister) -> (r: (ExecutionUnit, InstructionPriority))
        ensures
            r == unit_and_priority(instruction.instruction.opcode),
    {
        match instruction.instruction.opcode {
            Opcode::Load | Opcode::LoadB | Opcode::LoadW | Opcode::LoadD | Opcode::Store
            | Opcode::StoreB | Opcode::StoreW | Opcode::StoreD => (ExecutionUnit::AGU, InstructionPriority::High),
            Opcode::Simd128Load | Opcode::Simd128Store | Opcode::Simd256Load | Opcode::Simd256Store => (
                ExecutionUnit::AGU,
                InstructionPriority::High,
            ),
            Opcode::Add | Opcode::Sub | Opcode::Mul | Opcode::Div | Opcode::Mod | Opcode::Inc
            | Opcode::Dec | Opcode::Neg | Opcode::And | Opcode::Or | Opcode::Xor | Opcode::Not
            | Opcode::Shl | Opcode::Shr | Opcode::Sar | Opcode::Rol | Opcode::Ror | Opcode::Cmp
            | Opcode::Test => (ExecutionUnit::ALU, InstructionPriority::Medium),
            Opcode::Simd128Add | Opcode::Simd128Sub | Opcode::Simd128Mul | Opcode::Simd128Div
            | Opcode::Simd128And | Opcode::Simd128Or | Opcode::Simd128Xor | Opcode::Simd128Not
            | Opcode::Simd256Add | Opcode::Simd256Sub | Opcode::Simd256Mul | Opcode::Simd256Div => (
                ExecutionUnit::SIMD,
                InstructionPriority::Medium,
            ),
            Opcode::Jmp | Opcode::JmpIfEqual | Opcode::JmpIfNotEqual | Opcode::JmpIfGreater
            | Opcode::JmpIfLess | Opcode::JmpIfGreaterEqual | Opcode::JmpIfLessEqual
            | Opcode::JmpIfZero | Opcode::JmpIfNotZero => (ExecutionUnit::Branch, InstructionPriority::High),
            Opcode::Push | Opcode::Pop | Opcode::Call | Opcode::Ret => (
                ExecutionUnit::AGU,
                InstructionPriority::Medium,
            ),
            _ => (ExecutionUnit::ALU, InstructionPriority::Low),
        }
    }

    /// Queues `instruction` for `exec_unit` with `priority`: its
    /// dependencies are analysed, and the packet, not yet ready, takes the
    /// analyser's age after the analysis. Always succeeds.
    pub fn enqueue_instruction(
        &mut self,
        instruction: DecodeExecuteRegister,
        exec_unit: ExecutionUnit,
        priority: InstructionPriority,
    ) -> (r: Result<(), String>)
        requires
            old(self).analyzer().next_age() < u64::MAX,
            old(self).counters().total_instructions < u64::MAX,
        ensures
            r is Ok,
            DependencyAnalyzer::analyzed(old(self).analyzer(), final(self).analyzer(), instruction),
            ({
                let k = queue_index(exec_unit);
                let q = if k == 0 {
                    final(self).queues().0
                } else if k == 1 {
                    final(self).queues().1
                } else {
                    final(self).queues().2
                };
                let q0 = if k == 0 {
                    old(self).queues().0
                } else if k == 1 {
                    old(self).queues().1
                } else {
                    old(self).queues().2
                };
                &&& q == q0.push(q.last())
                &&& q.last().instruction == instruction
                &&& q.last().age == old(self).analyzer().next_age() + 1
                &&& q.last().priority == priority
                &&& q.last().dependencies@ == dependencies_of(old(self).analyzer().producers(), instruction)
                &&& !q.last().ready
            }),
            queue_index(exec_unit) != 0 ==> final(self).queues().0 == old(self).queues().0,
            queue_index(exec_unit) != 1 ==> final(self).queues().1 == old(self).queues().1,
            queue_index(exec_unit) != 2 ==> final(self).queues().2 == old(self).queues().2,
            final(self).counters() == (ParallelExecutionStats {
                total_instructions: (old(self).counters().total_instructions + 1) as u64,
                ..old(self).counters()
            }),
            final(self).busy() == old(self).busy(),
            final(self).remaining() == old(self).remaining(),
            final(self).pending() == old(self).pending(),
            final(self).cycle() == old(self).cycle(),
    {
        let dependencies = self.dependency_analyzer.analyze_instruction(&instruction);
        let packet = ExecutionPacket {
            instruction,
            age: self.dependency_analyzer.instruction_age_counter,
            priority,
            dependencies,
            ready: false,
        };
        match exec_unit {
            ExecutionUnit::AGU => {
                self.agu_queue.push_back(packet);
            },
            ExecutionUnit::SIMD => {
                self.simd_queue.push_back(packet);
            },
            _ => {
                self.alu_queue.push_back(packet);
            },
        }
        self.stats.total_instructions = self.stats.total_instructions + 1;
        Ok(())
    }

    /// Marks each queued packet ready when it has no dependency, and not
    /// ready otherwise.
    pub fn update_ready_status(&mut self)
        ensures
            final(self).queues() == (readied(old(self).queues().0), readied(old(self).queues().1), readied(
                old(self).queues().2,
            )),
            final(self).busy() == old(self).busy(),
            final(self).remaining() == old(self).remaining(),
            final(self).pending() == old(self).pending(),
            final(self).analyzer() == old(self).analyzer(),
            final(self).counters() == old(self).counters(),
            final(self).cycle() == old(self).cycle(),
    {
        Self::refresh_ready(&mut self.alu_queue);
        Self::refresh_ready(&mut self.agu_queue);
        Self::refresh_ready(&mut self.simd_queue);
    }

    /// Whether a packet with these dependencies can issue: when it has none.
    fn check_dependencies_resolved(dependencies: &Vec<RegisterDependency>) -> (r: bool)
        ensures
            r == (dependencies@.len() == 0),
    {
        dependencies.len() == 0
    }

    /// Sets the ready flag of every packet of `queue`, keeping their order.
    fn refresh_ready(queue: &mut VecDeque<ExecutionPacket>)
        ensures
            final(queue)@ == readied(old(queue)@),
    {
        let n = queue.len();
        let ghost s = queue@;
        let mut k: usize = 0;
        while k < n
            invariant
                k <= n,
                n == s.len(),
                queue@ == s.subrange(k as int, n as int) + readied(s.subrange(0, k as int)),
            decreases n - k,
        {
            let mut p = queue.pop_front().unwrap();
            p.ready = Self::check_dependencies_resolved(&p.dependencies);
            queue.push_back(p);
            proof {
                assert(readied(s.subrange(0, k + 1)) =~= readied(s.subrange(0, k as int)).push(p));
                assert(queue@ =~= s.subrange(k + 1, n as int) + readied(s.subrange(0, k + 1)));
            }
            k = k + 1;
        }
        proof {
            assert(s.subrange(0, n as int) =~= s);
            assert(queue@ =~= readied(s));
        }
    }

    /// Rank of a priority: 0 for high, 1 for medium, 2 for low.
    fn priority_rank(p: InstructionPriority) -> (r: u8)
        ensures
            r == rank(p),
    {
        match p {
            InstructionPriority::High => 0,
            InstructionPriority::Medium => 1,
            InstructionPriority::Low => 2,
        }
    }

    /// Takes from `queue` the first ready packet among the ready ones of
    /// the highest priority; none when no packet is ready.
    fn get_ready_instruction(queue: &mut VecDeque<ExecutionPacket>) -> (r: Option<ExecutionPacket>)
        ensures
            has_ready(old(queue)@) ==> r == Some(old(queue)@[pick(old(queue)@)]) && final(queue)@ == old(
                queue,
            )@.remove(pick(old(queue)@)),
            !has_ready(old(queue)@) ==> r is None && final(queue)@ == old(queue)@,
    {
        let ghost s = queue@;
        let n = queue.len();
        let mut best_idx: Option<usize> = None;
        let mut best_rank: u8 = 3;
        let mut idx: usize = 0;
        while idx < n
            invariant
                idx <= n,
                n == s.len(),
                queue@ == s,
                match best_idx {
                    Some(b) => is_pick(s.subrange(0, idx as int), b as int) && best_rank == rank(s[b as int].priority),
                    None => !has_ready(s.subrange(0, idx as int)) && best_rank == 3,
                },
            decreases n - idx,
        {
            let r = Self::priority_rank(queue[idx].priority);
            let ghost t = s.subrange(0, idx + 1);
            if queue[idx].ready && r < best_rank {
                proof {
                    assert(t[idx as int] == s[idx as int]);
                    assert forall|j: int| 0 <= j < t.len() && #[trigger] t[j].ready implies rank(t[idx as int].priority) <= rank(t[j].priority) by {
                        if j < idx {
                            assert(t[j] == s.subrange(0, idx as int)[j]);
                            if best_idx is None {
                                assert(s.subrange(0, idx as int)[j].ready);
                            }
                        }
                    }
                    assert forall|j: int| 0 <= j < idx && #[trigger] t[j].ready implies rank(t[j].priority) > rank(t[idx as int].priority) by {
                        assert(t[j] == s.subrange(0, idx as int)[j]);
                        if best_idx is None {
                            assert(s.subrange(0, idx as int)[j].ready);
                        }
                    }
                }
                best_idx = Some(idx);
                best_rank = r;
            } else {
                proof {
                    match best_idx {
                        Some(b) => {
                            let u = s.subrange(0, idx as int);
                            assert(u[b as int] == s[b as int]);
                            assert(t[b as int] == s[b as int]);
                            assert forall|j: int| 0 <= j < t.len() && #[trigger] t[j].ready implies rank(t[b as int].priority) <= rank(t[j].priority) by {
                                if j < idx {
                                    assert(t[j] == u[j]);
                                }
                            }
                            assert forall|j: int| 0 <= j < b && #[trigger] t[j].ready implies rank(t[j].priority) > rank(t[b as int].priority) by {
                                assert(t[j] == u[j]);
                            }
                        },
                        None => {
                            assert forall|j: int| 0 <= j < t.len() implies !(#[trigger] t[j].ready) by {
                                if j < idx {
                                    assert(t[j] == s.subrange(0, idx as int)[j]);
                                }
                            }
                        },
                    }
                }
            }
            idx = idx + 1;
        }
        proof {
            assert(s.subrange(0, n as int) =~= s);
        }
        match best_idx {
            Some(b) => {
                proof {
                    assert(has_ready(s)) by {
                        assert(s[b as int].ready);
                    }
                    lemma_pick_unique(s, b as int, pick(s));
                }
                queue.remove(b)
            },
            None => None,
        }
    }

    /// Collects the results due by the current cycle, counting them by unit,
    /// then issues the next ready packet on the ALU and on the address unit
    /// if each is free, recording a result due the next cycle and marking
    /// the unit busy for one cycle. Issuing on both counts one parallel
    /// execution. The SIMD queue is not issued from.
    pub fn execute_ready_instructions(&mut self) -> (r: Vec<ExecuteMemoryRegister>)
        requires
            old(self).cycle() < u64::MAX,
            old(self).counters().alu_instructions + old(self).pending().len() <= u64::MAX,
            old(self).counters().agu_instructions + old(self).pending().len() <= u64::MAX,
            old(self).counters().simd_instructions + old(self).pending().len() <= u64::MAX,
            old(self).counters().parallel_executions < u64::MAX,
        ensures
            ({
                let p = old(self).pending();
                let k = due_count(p, old(self).cycle()) as int;
                let done = p.subrange(0, k);
                let rest = p.subrange(k, p.len() as int);
                let q0 = old(self).queues().0;
                let q1 = old(self).queues().1;
                let alu = !old(self).busy().0 && has_ready(q0);
                let agu = !old(self).busy().1 && has_ready(q1);
                let c = old(self).cycle();
                &&& r@ == done.map_values(|e: PendingResult| e.result)
                &&& final(self).counters() == (ParallelExecutionStats {
                    alu_instructions: (old(self).counters().alu_instructions + count_unit(done, ExecutionUnit::ALU)) as u64,
                    agu_instructions: (old(self).counters().agu_instructions + count_unit(done, ExecutionUnit::AGU)) as u64,
                    simd_instructions: (old(self).counters().simd_instructions + count_unit(done, ExecutionUnit::SIMD)) as u64,
                    parallel_executions: (old(self).counters().parallel_executions + if alu && agu {
                        1int
                    } else {
                        0int
                    }) as u64,
                    ..old(self).counters()
                })
                &&& final(self).queues().0 == if alu {
                    q0.remove(pick(q0))
                } else {
                    q0
                }
                &&& final(self).queues().1 == if agu {
                    q1.remove(pick(q1))
                } else {
                    q1
                }
                &&& final(self).queues().2 == old(self).queues().2
                &&& final(self).busy() == (old(self).busy().0 || alu, old(self).busy().1 || agu, old(self).busy().2)
                &&& final(self).remaining() == (if alu {
                    1u32
                } else {
                    old(self).remaining().0
                }, if agu {
                    1u32
                } else {
                    old(self).remaining().1
                }, old(self).remaining().2)
                &&& final(self).pending().len() == rest.len() + (if alu {
                    1int
                } else {
                    0int
                }) + (if agu {
                    1int
                } else {
                    0int
                })
                &&& final(self).pending().subrange(0, rest.len() as int) == rest
                &&& alu ==> placeholder(final(self).pending()[rest.len() as int], q0[pick(q0)], ExecutionUnit::ALU, c)
                &&& agu ==> placeholder(
                    final(self).pending()[rest.len() + if alu {
                        1int
                    } else {
                        0int
                    }],
                    q1[pick(q1)],
                    ExecutionUnit::AGU,
                    c,
                )
            }),
            final(self).analyzer() == old(self).analyzer(),
            final(self).cycle() == old(self).cycle(),
    {
        let mut results: Vec<ExecuteMemoryRegister> = Vec::new();
        let ghost p = self.pending_results@;
        let ghost c = self.current_cycle;
        let ghost s0 = self.stats;
        let ghost e0 = *self;
        let n0 = self.pending_results.len();
        let mut k: usize = 0;
        proof {
            assert(p.subrange(0, p.len() as int) =~= p);
            assert(p.subrange(0, 0).map_values(|e: PendingResult| e.result) =~= results@);
        }
        while self.pending_results.len() > 0 && self.pending_results[0].ready_cycle <= self.current_cycle
            invariant
                k <= p.len(),
                p.len() == n0,
                self.alu_queue == e0.alu_queue,
                self.agu_queue == e0.agu_queue,
                self.simd_queue == e0.simd_queue,
                self.alu_busy == e0.alu_busy,
                self.agu_busy == e0.agu_busy,
                self.simd_busy == e0.simd_busy,
                self.alu_cycles_remaining == e0.alu_cycles_remaining,
                self.agu_cycles_remaining == e0.agu_cycles_remaining,
                self.simd_cycles_remaining == e0.simd_cycles_remaining,
                self.dependency_analyzer == e0.dependency_analyzer,
                self.pending_results@ == p.subrange(k as int, p.len() as int),
                due_count(p, c) == k + due_count(p.subrange(k as int, p.len() as int), c),
                results@ == p.subrange(0, k as int).map_values(|e: PendingResult| e.result),
                self.current_cycle == c,
                s0.alu_instructions + p.len() <= u64::MAX,
                s0.agu_instructions + p.len() <= u64::MAX,
                s0.simd_instructions + p.len() <= u64::MAX,
                count_unit(p.subrange(0, k as int), ExecutionUnit::ALU) <= k,
                count_unit(p.subrange(0, k as int), ExecutionUnit::AGU) <= k,
                count_unit(p.subrange(0, k as int), ExecutionUnit::SIMD) <= k,
                self.stats == (ParallelExecutionStats {
                    alu_instructions: (s0.alu_instructions + count_unit(p.subrange(0, k as int), ExecutionUnit::ALU)) as u64,
                    agu_instructions: (s0.agu_instructions + count_unit(p.subrange(0, k as int), ExecutionUnit::AGU)) as u64,
                    simd_instructions: (s0.simd_instructions + count_unit(p.subrange(0, k as int), ExecutionUnit::SIMD)) as u64,
                    ..s0
                }),
            decreases p.len() - k,
        {
            let ghost rest = self.pending_results@;
            let pending = self.pending_results.pop_front().unwrap();
            proof {
                assert(rest.drop_first() =~= p.subrange(k + 1, p.len() as int));
                assert(p.subrange(0, k + 1).drop_last() =~= p.subrange(0, k as int));
                assert(p.subrange(0, k + 1).last() == pending);
            }
            match pending.execution_unit {
                ExecutionUnit::ALU => self.stats.alu_instructions = self.stats.alu_instructions + 1,
                ExecutionUnit::AGU => self.stats.agu_instructions = self.stats.agu_instructions + 1,
                ExecutionUnit::SIMD => self.stats.simd_instructions = self.stats.simd_instructions + 1,
                _ => {},
            }
            results.push(pending.result);
            proof {
                assert(results@ =~= p.subrange(0, k + 1).map_values(|e: PendingResult| e.result));
            }
            k = k + 1;
        }
        proof {
            if k < p.len() {
                assert(self.pending_results@[0] == p[k as int]);
            }
            assert(due_count(p.subrange(k as int, p.len() as int), c) == 0);
        }
        let ghost rest = self.pending_results@;
        let mut executed_count: u32 = 0;
        if !self.alu_busy {
            match Self::get_ready_instruction(&mut self.alu_queue) {
                Some(packet) => {
                    let result = self.create_dummy_result(&packet, ExecutionUnit::ALU);
                    self.pending_results.push_back(
                        PendingResult {
                            result,
                            ready_cycle: self.current_cycle + 1,
                            execution_unit: ExecutionUnit::ALU,
                        },
                    );
                    self.alu_busy = true;
                    self.alu_cycles_remaining = 1;
                    executed_count = executed_count + 1;
                },
                None => {},
            }
        }
        let ghost mid = self.pending_results@;
        if !self.agu_busy {
            match Self::get_ready_instruction(&mut self.agu_queue) {
                Some(packet) => {
                    let result = self.create_dummy_result(&packet, ExecutionUnit::AGU);
                    self.pending_results.push_back(
                        PendingResult {
                            result,
                            ready_cycle: self.current_cycle + 1,
                            execution_unit: ExecutionUnit::AGU,
                        },
                    );
                    self.agu_busy = true;
                    self.agu_cycles_remaining = 1;
                    executed_count = executed_count + 1;
                },
                None => {},
            }
        }
        proof {
            assert(self.pending_results@.subrange(0, rest.len() as int) =~= rest);
            assert(mid.len() <= self.pending_results@.len());
        }
        if executed_count > 1 {
            self.stats.parallel_executions = self.stats.parallel_executions + 1;
        }
        results
    }

    /// The result recorded for `packet` issued on `exec_unit`: the
    /// instruction, its destination and memory address, nothing computed.
    fn create_dummy_result(&self, packet: &ExecutionPacket, exec_unit: ExecutionUnit) -> (r: ExecuteMemoryRegister)
        requires
            self.cycle() < u64::MAX,
        ensures
            placeholder(
                PendingResult { result: r, ready_cycle: (self.cycle() + 1) as u64, execution_unit: exec_unit },
                *packet,
                exec_unit,
                self.cycle(),
            ),
    {
        ExecuteMemoryRegister {
            instruction: packet.instruction.instruction.clone(),
            alu_result: 0,
            rd: packet.instruction.rd,
            store_value: None,
            mem_addr: packet.instruction.mem_addr,
            branch_target: None,
            branch_taken: false,
            branch_prediction_correct: None,
            stack_operation: None,
            stack_result: None,
            ras_prediction_correct: None,
            halted: false,
        }
    }

    /// The counters.
    pub fn get_stats(&self) -> (r: &ParallelExecutionStats)
        ensures
            *r == self.counters(),
    {
        &self.stats
    }

    /// Empties the queues and the pending results, frees the units, resets
    /// the dependency analyser and the counters, and starts from cycle 0.
    pub fn reset(&mut self)
        ensures
            final(self).queues() == (Seq::<ExecutionPacket>::empty(), Seq::<ExecutionPacket>::empty(), Seq::<
                ExecutionPacket,
            >::empty()),
            final(self).busy() == (false, false, false),
            final(self).remaining() == (0u32, 0u32, 0u32),
            final(self).pending() == Seq::<PendingResult>::empty(),
            final(self).analyzer().producers() == Map::<usize, u64>::empty(),
            final(self).analyzer().readers() == Map::<usize, Seq<u64>>::empty(),
            final(self).analyzer().next_age() == 0,
            final(self).counters() == zero_parallel_stats(),
            final(self).cycle() == 0,
    {
        self.alu_queue.clear();
        self.agu_queue.clear();
        self.simd_queue.clear();
        self.alu_busy = false;
        self.agu_busy = false;
        self.simd_busy = false;
        self.alu_cycles_remaining = 0;
        self.agu_cycles_remaining = 0;
        self.simd_cycles_remaining = 0;
        self.pending_results.clear();
        self.dependency_analyzer.reset();
        self.stats = ParallelExecutionStats::default();
        self.current_cycle = 0;
    }
}

/// A register read right after it was written depends on that write: once
/// an instruction writing `rd` has been analysed, an instruction reading
/// `rd` gets a read-after-write dependency on it.
pub proof fn lemma_raw_after_write(producers: Map<usize, u64>, rd: usize, age: u64, d: DecodeExecuteRegister)
    requires
        d.rs1 == Some(rd),
    ensures
        dependencies_of(producers.insert(rd, age), d)[0] == (RegisterDependency {
            register: rd,
            dep_type: DependencyType::RAW,
            producer_age: age,
        }),
{
}

/// Last writer of each register among `ds`, by age: the instruction at
/// position `k` of `ds` has age `k`.
pub open spec fn writers_of(ds: Seq<DecodeExecuteRegister>) -> Map<usize, u64>
    decreases ds.len(),
{
    if ds.len() == 0 {
        Map::empty()
    } else {
        let m = writers_of(ds.drop_last());
        match ds.last().rd {
            Some(rd) => m.insert(rd, (ds.len() - 1) as u64),
            None => m,
        }
    }
}

/// Producers over a history of analyses: starting from an analyser that has
/// seen nothing (as `new` and `reset` leave it) and analysing `ds` in order,
/// through `states`, each register's producer is the age of the last of
/// `ds` that wrote it, and the next age is the number analysed. So the
/// dependencies found for the next instruction, `dependencies_of` of those
/// producers, name the last writers.
pub proof fn lemma_producers_after(states: Seq<DependencyAnalyzer>, ds: Seq<DecodeExecuteRegister>)
    requires
        states.len() == ds.len() + 1,
        states[0].producers() == Map::<usize, u64>::empty(),
        states[0].next_age() == 0,
        forall|k: int|
            0 <= k < ds.len() ==> #[trigger] DependencyAnalyzer::analyzed(states[k], states[k + 1], ds[k]),
    ensures
        states.last().producers() == writers_of(ds),
        states.last().next_age() == ds.len(),
    decreases ds.len(),
{
    if ds.len() > 0 {
        let n = ds.len() - 1;
        let s0 = states.drop_last();
        let d0 = ds.drop_last();
        assert forall|k: int| 0 <= k < d0.len() implies #[trigger] DependencyAnalyzer::analyzed(
            s0[k],
            s0[k + 1],
            d0[k],
        ) by {
            assert(DependencyAnalyzer::analyzed(states[k], states[k + 1], ds[k]));
        }
        lemma_producers_after(s0, d0);
        assert(DependencyAnalyzer::analyzed(states[n], states[n + 1], ds[n]));
        assert(states[n] == s0.last());
    }
}

/// Which unit takes what: scalar integer arithmetic, logic, shifts,
/// rotations and comparisons go to the ALU at medium priority; loads and
/// stores, scalar or vector, go to the address unit first; only vector
/// (128- or 256-bit) operations go to the SIMD unit; nothing goes to the
/// SIMD unit at high priority.
pub proof fn lemma_unit_assignment(op: Opcode)
    ensures
        (op == Opcode::Add || op == Opcode::Sub || op == Opcode::Mul || op == Opcode::Div
            || op == Opcode::Mod || op == Opcode::Inc || op == Opcode::Dec || op == Opcode::Neg
            || op == Opcode::And || op == Opcode::Or || op == Opcode::Xor || op == Opcode::Not
            || op == Opcode::Shl || op == Opcode::Shr || op == Opcode::Sar || op == Opcode::Rol
            || op == Opcode::Ror || op == Opcode::Cmp || op == Opcode::Test) ==> unit_and_priority(op)
            == (ExecutionUnit::ALU, InstructionPriority::Medium),
        (op == Opcode::Load || op == Opcode::LoadB || op == Opcode::LoadW || op == Opcode::LoadD
            || op == Opcode::Store || op == Opcode::StoreB || op == Opcode::StoreW || op
            == Opcode::StoreD || op == Opcode::Simd128Load || op == Opcode::Simd128Store || op
            == Opcode::Simd256Load || op == Opcode::Simd256Store) ==> unit_and_priority(op) == (
            ExecutionUnit::AGU,
            InstructionPriority::High,
        ),
        unit_and_priority(op).0 == ExecutionUnit::SIMD ==> (op == Opcode::Simd128Add || op
            == Opcode::Simd128Sub || op == Opcode::Simd128Mul || op == Opcode::Simd128Div || op
            == Opcode::Simd128And || op == Opcode::Simd128Or || op == Opcode::Simd128Xor || op
            == Opcode::Simd128Not || op == Opcode::Simd256Add || op == Opcode::Simd256Sub || op
            == Opcode::Simd256Mul || op == Opcode::Simd256Div) && unit_and_priority(op).1
            == InstructionPriority::Medium,
{
}

/// The other units: the unconditional jump and the equality, order and
/// zero tests go to the branch unit at high priority; stack operations and
/// calls to the address unit at medium priority; floating point to the
/// ALU at low priority.
pub proof fn lemma_unit_assignment_control(op: Opcode)
    ensures
        (op == Opcode::Jmp || op == Opcode::JmpIfEqual || op == Opcode::JmpIfNotEqual || op
            == Opcode::JmpIfGreater || op == Opcode::JmpIfLess || op == Opcode::JmpIfGreaterEqual
            || op == Opcode::JmpIfLessEqual || op == Opcode::JmpIfZero || op == Opcode::JmpIfNotZero)
            ==> unit_and_priority(op) == (ExecutionUnit::Branch, InstructionPriority::High),
        (op == Opcode::Push || op == Opcode::Pop || op == Opcode::Call || op == Opcode::Ret)
            ==> unit_and_priority(op) == (ExecutionUnit::AGU, InstructionPriority::Medium),
        (op == Opcode::FpuAdd || op == Opcode::FpuSub || op == Opcode::FpuMul) ==> unit_and_priority(op)
            == (ExecutionUnit::ALU, InstructionPriority::Low),
{
}

} // verus!
