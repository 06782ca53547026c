//! Hazard detection: decides whether the instruction in decode must wait.
use vstd::prelude::*;
use crate::bytecode::Opcode;
use crate::pipeline::PipelineState;

verus! {

/// The hazard detection unit, with its counters.
pub struct HazardDetectionUnit {
    /// Hazards that cause a stall.
    pub hazards_count: u64,
    /// Data dependencies seen, those resolved by forwarding included.
    pub data_dependencies_count: u64,
    /// Dependencies forwarding can resolve.
    pub potential_forwards_count: u64,
    branch_stall_cycles: u32,
}

/// Kinds of hazard.
#[derive(Debug, PartialEq, Eq, Structural)]
pub enum HazardType {
    NoHazard,
    LoadUse,
    StoreLoad,
    DataDependency,
    ControlHazard,
    StructuralHazard,
}

/// Outcome of a hazard check.
#[derive(Debug, Clone, Copy, PartialEq, Eq, Structural)]
pub enum HazardResult {
    NoHazard,
    StoreLoad,
    LoadUse,
    DataDependency,
    ControlHazard,
    StructuralHazard,
}

/// Loads proper, which read memory into a register.
pub open spec fn is_load_op(op: Opcode) -> bool {
    op is Load || op is LoadB || op is LoadW || op is LoadD
}

/// Stores proper.
pub open spec fn is_store_op(op: Opcode) -> bool {
    op is Store || op is StoreB || op is StoreW || op is StoreD
}

/// Whether `op` is a load, a store, or a pop.
pub open spec fn reads_memory_late(op: Opcode) -> bool {
    is_load_op(op) || op is Pop
}

/// A load in execute writes a register the instruction in decode reads.
pub open spec fn load_use_in(s: PipelineState) -> bool {
    match (s.decode_execute, s.execute_memory) {
        (Some(d), Some(e)) => {
            &&& (d.rs1 is Some || d.rs2 is Some)
            &&& is_load_op(e.instruction.opcode)
            &&& e.rd matches Some(rd) && (d.rs1 == Some(rd) || d.rs2 == Some(rd))
        },
        _ => false,
    }
}

/// The instruction in decode reads a register that the instruction in
/// execute (other than a load or pop) or in memory writes.
pub open spec fn forwardable_in(s: PipelineState) -> bool {
    match s.decode_execute {
        Some(d) => {
            &&& (d.rs1 is Some || d.rs2 is Some)
            &&& {
                ||| (s.execute_memory matches Some(e) && !reads_memory_late(e.instruction.opcode)
                    && (e.rd matches Some(rd) && (d.rs1 == Some(rd) || d.rs2 == Some(rd))))
                ||| (s.memory_writeback matches Some(m) && (m.rd matches Some(rd) && (d.rs1
                    == Some(rd) || d.rs2 == Some(rd))))
            }
        },
        None => false,
    }
}

/// A memory access is in execute and another one in memory.
pub open spec fn structural_in(s: PipelineState) -> bool {
    match (s.execute_memory, s.memory_writeback) {
        (Some(e), Some(m)) => (is_load_op(e.instruction.opcode) || is_store_op(e.instruction.opcode))
            && (is_load_op(m.instruction.opcode) || is_store_op(m.instruction.opcode)),
        _ => false,
    }
}

/// A store in execute and a load in decode name the same address.
pub open spec fn store_load_in(s: PipelineState) -> bool {
    match (s.execute_memory, s.decode_execute) {
        (Some(e), Some(d)) => {
            &&& is_store_op(e.instruction.opcode)
            &&& is_load_op(d.instruction.opcode)
            &&& e.mem_addr is Some
            &&& e.mem_addr == d.mem_addr
        },
        _ => false,
    }
}

/// A branch is in execute.
pub open spec fn branch_in(s: PipelineState) -> bool {
    s.execute_memory matches Some(e) && e.instruction.opcode.spec_is_branch()
}

/// Outcome of a check, given the cycles already stalled on the branch in
/// execute: a load-use hazard first, then a branch seen for the first time,
/// then two memory accesses, then a store followed by a load of the same
/// address.
pub open spec fn hazard_outcome(s: PipelineState, stalled: u32) -> HazardResult {
    if load_use_in(s) {
        HazardResult::LoadUse
    } else if branch_in(s) && stalled == 0 {
        HazardResult::ControlHazard
    } else if structural_in(s) {
        HazardResult::StructuralHazard
    } else if store_load_in(s) {
        HazardResult::StoreLoad
    } else {
        HazardResult::NoHazard
    }
}

/// Cycles stalled on the branch in execute after a check.
pub open spec fn stall_after(s: PipelineState, stalled: u32) -> u32 {
    if load_use_in(s) {
        stalled
    } else if branch_in(s) {
        if stalled == 0 {
            1
        } else {
            stalled
        }
    } else {
        0
    }
}

/// Whether `op` is a load proper.
fn is_load_exec(op: Opcode) -> (r: bool)
    ensures
        r == is_load_op(op),
{
    match op {
        Opcode::Load | Opcode::LoadB | Opcode::LoadW | Opcode::LoadD => true,
        _ => false,
    }
}

/// Whether `op` is a store proper.
fn is_store_exec(op: Opcode) -> (r: bool)
    ensures
        r == is_store_op(op),
{
    match op {
        Opcode::Store | Opcode::StoreB | Opcode::StoreW | Opcode::StoreD => true,
        _ => false,
    }
}

impl HazardDetectionUnit {
    /// Cycles already stalled on the branch in execute.
    pub closed spec fn stalled_cycles(&self) -> u32 {
        self.branch_stall_cycles
    }

    /// Hazards counted.
    pub closed spec fn hazards(&self) -> u64 {
        self.hazards_count
    }

    /// Data dependencies counted.
    pub closed spec fn dependencies(&self) -> u64 {
        self.data_dependencies_count
    }

    /// Resolvable dependencies counted.
    pub closed spec fn potential_forwards(&self) -> u64 {
        self.potential_forwards_count
    }

    /// A unit with its counters at zero.
    pub fn new() -> (u: Self)
        ensures
            u.hazards() == 0,
            u.dependencies() == 0,
            u.potential_forwards() == 0,
            u.stalled_cycles() == 0,
    {
        HazardDetectionUnit {
            hazards_count: 0,
            data_dependencies_count: 0,
            potential_forwards_count: 0,
            branch_stall_cycles: 0,
        }
    }

    /// Checks the pipeline for a hazard and counts it: a load-use hazard,
    /// else a branch in execute (a stall on its first cycle only), else two
    /// memory accesses in execute and memory, else a store and a load of the
    /// same address. A dependency that forwarding resolves is counted and is
    /// no hazard.
    pub fn detect_hazards_with_type(&mut self, state: &PipelineState) -> (r: HazardResult)
        requires
            hazard_outcome(*state, old(self).stalled_cycles()) != HazardResult::NoHazard
                ==> old(self).hazards() < u64::MAX,
            !load_use_in(*state) && forwardable_in(*state) ==> old(self).dependencies()
                < u64::MAX && old(self).potential_forwards() < u64::MAX,
        ensures
            r == hazard_outcome(*state, old(self).stalled_cycles()),
            final(self).stalled_cycles() == stall_after(*state, old(self).stalled_cycles()),
            final(self).hazards() == old(self).hazards() + if r != HazardResult::NoHazard {
                1int
            } else {
                0int
            },
            final(self).dependencies() == old(self).dependencies() + if !load_use_in(
                *state,
            ) && forwardable_in(*state) {
                1int
            } else {
                0int
            },
            final(self).potential_forwards() == old(self).potential_forwards() + if !load_use_in(
                *state,
            ) && forwardable_in(*state) {
                1int
            } else {
                0int
            },
    {
        if self.is_load_use_hazards(state) {
            self.hazards_count = self.hazards_count + 1;
            return HazardResult::LoadUse;
        }
        if self.is_data_hazard_not_forwardable(state) {
            self.hazards_count = self.hazards_count + 1;
            return HazardResult::DataDependency;
        }
        if self.is_data_dependency_forwardable(state) {
            self.data_dependencies_count = self.data_dependencies_count + 1;
            self.potential_forwards_count = self.potential_forwards_count + 1;
        }
        if self.is_control_hazard(state) {
            self.hazards_count = self.hazards_count + 1;
            return HazardResult::ControlHazard;
        }
        if self.is_structural_hazard(state) {
            self.hazards_count = self.hazards_count + 1;
            return HazardResult::StructuralHazard;
        }
        if self.is_store_load_hazard(state) {
            self.hazards_count = self.hazards_count + 1;
            return HazardResult::StoreLoad;
        }
        HazardResult::NoHazard
    }

    /// Whether a data dependency cannot be resolved by forwarding: never,
    /// since the load-use and store-load cases are detected on their own.
    fn is_data_hazard_not_forwardable(&self, state: &PipelineState) -> (r: bool)
        ensures
            !r,
    {
        false
    }

    /// Whether there is a hazard, counted as `detect_hazards_with_type`
    /// counts it.
    pub fn detect_hazards(&mut self, state: &PipelineState) -> (r: bool)
        requires
            hazard_outcome(*state, old(self).stalled_cycles()) != HazardResult::NoHazard
                ==> old(self).hazards() < u64::MAX,
            !load_use_in(*state) && forwardable_in(*state) ==> old(self).dependencies()
                < u64::MAX && old(self).potential_forwards() < u64::MAX,
        ensures
            r == (hazard_outcome(*state, old(self).stalled_cycles()) != HazardResult::NoHazard),
            final(self).stalled_cycles() == stall_after(*state, old(self).stalled_cycles()),
            final(self).hazards() == old(self).hazards() + if r {
                1int
            } else {
                0int
            },
            final(self).dependencies() == old(self).dependencies() + if !load_use_in(
                *state,
            ) && forwardable_in(*state) {
                1int
            } else {
                0int
            },
            final(self).potential_forwards() == old(self).potential_forwards() + if !load_use_in(
                *state,
            ) && forwardable_in(*state) {
                1int
            } else {
                0int
            },
    {
        let h = self.detect_hazards_with_type(state);
        h != HazardResult::NoHazard
    }

    fn is_data_dependency_forwardable(&self, state: &PipelineState) -> (r: bool)
        ensures
            r == forwardable_in(*state),
    {
        let decode_reg = match &state.decode_execute {
            Some(reg) => reg,
            None => {
                return false;
            },
        };
        let rs1 = decode_reg.rs1;
        let rs2 = decode_reg.rs2;
        if rs1.is_none() && rs2.is_none() {
            return false;
        }
        match &state.execute_memory {
            Some(ex_reg) => {
                match ex_reg.rd {
                    Some(rd_ex) => {
                        let op = ex_reg.instruction.opcode;
                        let is_load = is_load_exec(op) || op == Opcode::Pop;
                        if !is_load && (rs1 == Some(rd_ex) || rs2 == Some(rd_ex)) {
                            return true;
                        }
                    },
                    None => {},
                }
            },
            None => {},
        }
        match &state.memory_writeback {
            Some(mem_reg) => {
                match mem_reg.rd {
                    Some(rd_mem) => {
                        if rs1 == Some(rd_mem) || rs2 == Some(rd_mem) {
                            return true;
                        }
                    },
                    None => {},
                }
            },
            None => {},
        }
        false
    }

    fn is_load_use_hazards(&self, state: &PipelineState) -> (r: bool)
        ensures
            r == load_use_in(*state),
    {
        let decode_reg = match &state.decode_execute {
            Some(reg) => reg,
            None => {
                return false;
            },
        };
        let rs1 = decode_reg.rs1;
        let rs2 = decode_reg.rs2;
        if rs1.is_none() && rs2.is_none() {
            return false;
        }
        match &state.execute_memory {
            Some(ex_reg) => {
                if is_load_exec(ex_reg.instruction.opcode) {
                    match ex_reg.rd {
                        Some(rd_ex) => {
                            if rs1 == Some(rd_ex) || rs2 == Some(rd_ex) {
                                return true;
                            }
                        },
                        None => {},
                    }
                }
            },
            None => {},
        }
        false
    }

    fn is_store_load_hazard(&self, state: &PipelineState) -> (r: bool)
        ensures
            r == store_load_in(*state),
    {
        let ex_reg = match &state.execute_memory {
            Some(r) => r,
            None => {
                return false;
            },
        };
        let decode_reg = match &state.decode_execute {
            Some(r) => r,
            None => {
                return false;
            },
        };
        if is_store_exec(ex_reg.instruction.opcode) && is_load_exec(decode_reg.instruction.opcode) {
            match (ex_reg.mem_addr, decode_reg.mem_addr) {
                (Some(addr_store), Some(addr_load)) => {
                    if addr_store == addr_load {
                        return true;
                    }
                },
                _ => {},
            }
        }
        false
    }

    fn is_control_hazard(&mut self, state: &PipelineState) -> (r: bool)
        ensures
            r == (branch_in(*state) && old(self).stalled_cycles() == 0),
            final(self).stalled_cycles() == if branch_in(*state) {
                if old(self).stalled_cycles() == 0 {
                    1u32
                } else {
                    old(self).stalled_cycles()
                }
            } else {
                0u32
            },
            final(self).hazards() == old(self).hazards(),
            final(self).dependencies() == old(self).dependencies(),
            final(self).potential_forwards() == old(self).potential_forwards(),
    {
        let ex_reg = match &state.execute_memory {
            Some(r) => r,
            None => {
                self.branch_stall_cycles = 0;
                return false;
            },
        };
        if ex_reg.instruction.opcode.is_branch() {
            if self.branch_stall_cycles == 0 {
                self.branch_stall_cycles = self.branch_stall_cycles + 1;
                true
            } else {
                false
            }
        } else {
            self.branch_stall_cycles = 0;
            false
        }
    }

    fn is_structural_hazard(&self, state: &PipelineState) -> (r: bool)
        ensures
            r == structural_in(*state),
    {
        match (&state.execute_memory, &state.memory_writeback) {
            (Some(ex_reg), Some(mem_reg)) => {
                let ex_op = ex_reg.instruction.opcode;
                let mem_op = mem_reg.instruction.opcode;
                let ex_is_mem_op = is_load_exec(ex_op) || is_store_exec(ex_op);
                let mem_is_mem_op = is_load_exec(mem_op) || is_store_exec(mem_op);
                ex_is_mem_op && mem_is_mem_op
            },
            _ => false,
        }
    }

    /// Zeroes the counters and forgets the branch stall.
    pub fn reset(&mut self)
        ensures
            final(self).hazards() == 0,
            final(self).dependencies() == 0,
            final(self).potential_forwards() == 0,
            final(self).stalled_cycles() == 0,
    {
        self.hazards_count = 0;
        self.data_dependencies_count = 0;
        self.potential_forwards_count = 0;
        self.branch_stall_cycles = 0;
    }

    /// Hazards counted so far.
    pub fn get_hazards_count(&self) -> (r: u64)
        ensures
            r == self.hazards(),
    {
        self.hazards_count
    }

    /// Data dependencies counted so far.
    pub fn get_data_dependencies_count(&self) -> (r: u64)
        ensures
            r == self.dependencies(),
    {
        self.data_dependencies_count
    }

    /// Dependencies resolvable by forwarding counted so far.
    pub fn get_potential_forwards_count(&self) -> (r: u64)
        ensures
            r == self.potential_forwards(),
    {
        self.potential_forwards_count
    }
}

/// A branch stalls the pipeline for one check only: a second check with the
/// same branch in execute reports no control hazard.
pub proof fn lemma_branch_stalls_once(s: PipelineState, stalled: u32)
    requires
        branch_in(s),
        !load_use_in(s),
    ensures
        stall_after(s, stalled) != 0,
        hazard_outcome(s, stall_after(s, stalled)) != HazardResult::ControlHazard,
{
}

/// A load-use hazard always wins: whatever else holds of the pipeline, the
/// check reports it.
pub proof fn lemma_load_use_first(s: PipelineState, stalled: u32)
    requires
        load_use_in(s),
    ensures
        hazard_outcome(s, stalled) == HazardResult::LoadUse,
        stall_after(s, stalled) == stalled,
{
}

/// Load-use hazards, stated over the latches: the check reports `LoadUse`
/// exactly when execute holds a load proper (`Load`, `LoadB`, `LoadW` or
/// `LoadD`) with a destination register that the instruction in decode
/// reads as its first or its second source; then it also holds the stall
/// count where it was.
pub proof fn lemma_load_use_exactly(s: PipelineState, stalled: u32)
    ensures
        (hazard_outcome(s, stalled) == HazardResult::LoadUse) == match (s.decode_execute, s.execute_memory) {
            (Some(d), Some(e)) => {
                &&& (e.instruction.opcode == Opcode::Load || e.instruction.opcode == Opcode::LoadB
                    || e.instruction.opcode == Opcode::LoadW || e.instruction.opcode == Opcode::LoadD)
                &&& e.rd is Some
                &&& (d.rs1 == e.rd || d.rs2 == e.rd)
            },
            _ => false,
        },
        hazard_outcome(s, stalled) == HazardResult::LoadUse ==> stall_after(s, stalled) == stalled,
{
}

} // verus!
