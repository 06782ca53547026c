//! Forwarding unit: hands results still in the pipeline latches to the
//! instruction being decoded.
use vstd::prelude::*;
use crate::bytecode::Opcode;
use crate::pipeline::{DecodeExecuteRegister, ExecuteMemoryRegister, MemoryWritebackRegister};

verus! {

/// The forwarding unit, with the number of values it forwarded.
#[derive(Debug)]
pub struct ForwardingUnit {
    /// Values forwarded so far.
    pub forwards_count: u64,
}

/// Latch a forwarded value comes from.
#[derive(Debug, Clone, Copy, PartialEq, Eq, Structural)]
pub enum ForwardingSource {
    /// The Execute -> Memory latch: an ALU result.
    ExecuteMemory,
    /// The Memory -> Writeback latch: a result ready to be written back.
    Writeback,
}

/// One value forwarded.
#[derive(Debug, Clone, Copy, PartialEq, Eq, Structural)]
pub struct ForwardingInfo {
    pub source: ForwardingSource,
    pub value: u64,
    /// Register that produced the value.
    pub register: usize,
}

/// Opcodes whose value is only known after the memory stage.
pub open spec fn is_load_like(op: Opcode) -> bool {
    op is Load || op is LoadB || op is LoadW || op is LoadD || op is Pop
}

/// Register and value the Execute -> Memory latch can forward: its ALU
/// result, unless its instruction reads memory.
pub open spec fn ex_source(mem_reg: Option<ExecuteMemoryRegister>) -> Option<(usize, u64)> {
    match mem_reg {
        Some(m) => match m.rd {
            Some(rd) => if is_load_like(m.instruction.opcode) {
                None
            } else {
                Some((rd, m.alu_result))
            },
            None => None,
        },
        None => None,
    }
}

/// Register and value the Memory -> Writeback latch can forward.
pub open spec fn wb_source(wb_reg: Option<MemoryWritebackRegister>) -> Option<(usize, u64)> {
    match wb_reg {
        Some(w) => match w.rd {
            Some(rd) => Some((rd, w.result)),
            None => None,
        },
        None => None,
    }
}

/// Value a forwarding source offers.
pub open spec fn src_value(o: Option<(usize, u64)>) -> u64 {
    match o {
        Some(p) => p.1,
        None => 0,
    }
}

/// Register a forwarding source offers.
pub open spec fn src_reg(o: Option<(usize, u64)>) -> usize {
    match o {
        Some(p) => p.0,
        None => 0,
    }
}

/// Whether the first source operand takes the Execute value.
pub open spec fn ex_to_rs1(d: DecodeExecuteRegister, ex: Option<(usize, u64)>) -> bool {
    ex matches Some((rd, _)) && d.rs1 == Some(rd)
}

/// Whether the second source operand takes the Execute value; when both
/// operands name the register, both take it.
pub open spec fn ex_to_rs2(d: DecodeExecuteRegister, ex: Option<(usize, u64)>) -> bool {
    ex matches Some((rd, _)) && d.rs2 == Some(rd)
}

/// Whether the Execute latch already forwarded register `r`.
pub open spec fn ex_forwarded(d: DecodeExecuteRegister, ex: Option<(usize, u64)>, r: usize) -> bool {
    (ex_to_rs1(d, ex) || ex_to_rs2(d, ex)) && (ex matches Some((rd, _)) && rd == r)
}

/// Whether the first source operand takes the Writeback value: when the
/// Execute latch did not forward that register.
pub open spec fn wb_to_rs1(
    d: DecodeExecuteRegister,
    ex: Option<(usize, u64)>,
    wb: Option<(usize, u64)>,
) -> bool {
    wb matches Some((rd, _)) && d.rs1 == Some(rd) && !ex_forwarded(d, ex, rd)
}

/// Whether the second source operand takes the Writeback value: when the
/// Execute latch did not forward that register; when both operands name
/// the register, both take it.
pub open spec fn wb_to_rs2(
    d: DecodeExecuteRegister,
    ex: Option<(usize, u64)>,
    wb: Option<(usize, u64)>,
) -> bool {
    wb matches Some((rd, _)) && d.rs2 == Some(rd) && !ex_forwarded(d, ex, rd)
}

/// Value of the first source operand after forwarding.
pub open spec fn operand1_after(
    d: DecodeExecuteRegister,
    ex: Option<(usize, u64)>,
    wb: Option<(usize, u64)>,
) -> u64 {
    if reads_registers(d) && wb_to_rs1(d, ex, wb) {
        src_value(wb)
    } else if reads_registers(d) && ex_to_rs1(d, ex) {
        src_value(ex)
    } else {
        d.rs1_value
    }
}

/// Value of the second source operand after forwarding.
pub open spec fn operand2_after(
    d: DecodeExecuteRegister,
    ex: Option<(usize, u64)>,
    wb: Option<(usize, u64)>,
) -> u64 {
    if reads_registers(d) && wb_to_rs2(d, ex, wb) {
        src_value(wb)
    } else if reads_registers(d) && ex_to_rs2(d, ex) {
        src_value(ex)
    } else {
        d.rs2_value
    }
}

/// Whether the instruction in decode reads any register.
pub open spec fn reads_registers(d: DecodeExecuteRegister) -> bool {
    d.rs1 is Some || d.rs2 is Some
}

/// The values forwarded, in order: from Execute to the first and second
/// operands, then from Writeback to the first and second operands.
pub open spec fn forwarded(
    d: DecodeExecuteRegister,
    ex: Option<(usize, u64)>,
    wb: Option<(usize, u64)>,
) -> Seq<ForwardingInfo> {
    if !reads_registers(d) {
        Seq::empty()
    } else {
        let e = ForwardingInfo {
            source: ForwardingSource::ExecuteMemory,
            value: src_value(ex),
            register: src_reg(ex),
        };
        let w = ForwardingInfo {
            source: ForwardingSource::Writeback,
            value: src_value(wb),
            register: src_reg(wb),
        };
        (if ex_to_rs1(d, ex) { seq![e] } else { Seq::empty() }) + (if ex_to_rs2(d, ex) {
            seq![e]
        } else {
            Seq::empty()
        }) + (if wb_to_rs1(d, ex, wb) { seq![w] } else { Seq::empty() }) + (if wb_to_rs2(d, ex, wb) {
            seq![w]
        } else {
            Seq::empty()
        })
    }
}

impl ForwardingUnit {
    /// A unit that has forwarded nothing.
    pub fn new() -> (u: Self)
        ensures
            u.forwards_count == 0,
    {
        ForwardingUnit { forwards_count: 0 }
    }

    /// Forwards into the instruction in decode the results it reads that are
    /// still in the latches, and returns what was forwarded. The Execute ->
    /// Memory latch takes precedence, except when its instruction reads
    /// memory; the Memory -> Writeback latch serves the operands it did not.
    pub fn forward_with_info(
        &mut self,
        decode_reg: &mut DecodeExecuteRegister,
        mem_reg: &Option<ExecuteMemoryRegister>,
        wb_reg: &Option<MemoryWritebackRegister>,
    ) -> (r: Vec<ForwardingInfo>)
        requires
            old(self).forwards_count + forwarded(
                *old(decode_reg),
                ex_source(*mem_reg),
                wb_source(*wb_reg),
            ).len() <= u64::MAX,
        ensures
            ({
                let d = *old(decode_reg);
                let ex = ex_source(*mem_reg);
                let wb = wb_source(*wb_reg);
                &&& r@ == forwarded(d, ex, wb)
                &&& final(self).forwards_count == old(self).forwards_count + r@.len()
                &&& final(decode_reg).rs1_value == if reads_registers(d) && wb_to_rs1(d, ex, wb) {
                    src_value(wb)
                } else if reads_registers(d) && ex_to_rs1(d, ex) {
                    src_value(ex)
                } else {
                    d.rs1_value
                }
                &&& final(decode_reg).rs2_value == if reads_registers(d) && wb_to_rs2(d, ex, wb) {
                    src_value(wb)
                } else if reads_registers(d) && ex_to_rs2(d, ex) {
                    src_value(ex)
                } else {
                    d.rs2_value
                }
                &&& final(decode_reg).instruction@ == d.instruction@
                &&& final(decode_reg).pc == d.pc
                &&& final(decode_reg).rs1 == d.rs1
                &&& final(decode_reg).rs2 == d.rs2
                &&& final(decode_reg).rd == d.rd
                &&& final(decode_reg).immediate == d.immediate
                &&& final(decode_reg).branch_addr == d.branch_addr
                &&& final(decode_reg).mem_addr == d.mem_addr
                &&& final(decode_reg).branch_prediction == d.branch_prediction
                &&& final(decode_reg).stack_operation == d.stack_operation
                &&& final(decode_reg).stack_value == d.stack_value
            }),
    {
        let mut info_list: Vec<ForwardingInfo> = Vec::new();
        let ghost d = *decode_reg;
        let ghost ex = ex_source(*mem_reg);
        let ghost wb = wb_source(*wb_reg);
        let rs1_needed = decode_reg.rs1;
        let rs2_needed = decode_reg.rs2;
        if rs1_needed.is_none() && rs2_needed.is_none() {
            proof {
                assert(info_list@ =~= forwarded(d, ex, wb));
            }
            return info_list;
        }
        let ghost e = ForwardingInfo {
            source: ForwardingSource::ExecuteMemory,
            value: src_value(ex),
            register: src_reg(ex),
        };
        match mem_reg {
            Some(mem) => {
                match mem.rd {
                    Some(rd_ex) => {
                        let op = mem.instruction.opcode;
                        let is_load_in_ex = match op {
                            Opcode::Load | Opcode::LoadB | Opcode::LoadW | Opcode::LoadD
                            | Opcode::Pop => true,
                            _ => false,
                        };
                        if !is_load_in_ex {
                            let forward_val = mem.alu_result;
                            if rs1_needed == Some(rd_ex) {
                                decode_reg.rs1_value = forward_val;
                                self.forwards_count = self.forwards_count + 1;
                                info_list.push(
                                    ForwardingInfo {
                                        source: ForwardingSource::ExecuteMemory,
                                        value: forward_val,
                                        register: rd_ex,
                                    },
                                );
                            }
                            if rs2_needed == Some(rd_ex) {
                                decode_reg.rs2_value = forward_val;
                                self.forwards_count = self.forwards_count + 1;
                                info_list.push(
                                    ForwardingInfo {
                                        source: ForwardingSource::ExecuteMemory,
                                        value: forward_val,
                                        register: rd_ex,
                                    },
                                );
                            }
                        }
                    },
                    None => {},
                }
            },
            None => {},
        }
        let ghost after_ex = info_list@;
        proof {
            assert(after_ex =~= (if ex_to_rs1(d, ex) { seq![e] } else { Seq::empty() }) + (if ex_to_rs2(d, ex) {
                seq![e]
            } else {
                Seq::empty()
            }));
        }
        match wb_reg {
            Some(wb_r) => {
                match wb_r.rd {
                    Some(rd_wb) => {
                        let forward_val = wb_r.result;
                        let already_forwarded_rs1 = contains_register(&info_list, rd_wb);
                        proof {
                            assert(wb == Some((rd_wb, forward_val)));
                            if ex_forwarded(d, ex, rd_wb) {
                                assert(info_list@[0].register == rd_wb);
                            }
                            assert(already_forwarded_rs1 == ex_forwarded(d, ex, rd_wb));
                            assert(self.forwards_count == old(self).forwards_count + info_list@.len());
                        }
                        if rs1_needed == Some(rd_wb) && !already_forwarded_rs1 {
                            decode_reg.rs1_value = forward_val;
                            self.forwards_count = self.forwards_count + 1;
                            info_list.push(
                                ForwardingInfo {
                                    source: ForwardingSource::Writeback,
                                    value: forward_val,
                                    register: rd_wb,
                                },
                            );
                        }
                        if rs2_needed == Some(rd_wb) && !already_forwarded_rs1 {
                            decode_reg.rs2_value = forward_val;
                            self.forwards_count = self.forwards_count + 1;
                            info_list.push(
                                ForwardingInfo {
                                    source: ForwardingSource::Writeback,
                                    value: forward_val,
                                    register: rd_wb,
                                },
                            );
                        }
                    },
                    None => {},
                }
            },
            None => {},
        }
        proof {
            assert(info_list@ =~= forwarded(d, ex, wb));
        }
        info_list
    }

    /// Forwards as `forward_with_info` does, without the list.
    pub fn forward(
        &mut self,
        decode_reg: &mut DecodeExecuteRegister,
        mem_reg: &Option<ExecuteMemoryRegister>,
        wb_reg: &Option<MemoryWritebackRegister>,
    )
        requires
            old(self).forwards_count + forwarded(
                *old(decode_reg),
                ex_source(*mem_reg),
                wb_source(*wb_reg),
            ).len() <= u64::MAX,
        ensures
            ({
                let d = *old(decode_reg);
                let ex = ex_source(*mem_reg);
                let wb = wb_source(*wb_reg);
                &&& final(self).forwards_count == old(self).forwards_count + forwarded(
                    d,
                    ex,
                    wb,
                ).len()
                &&& final(decode_reg).rs1_value == operand1_after(d, ex, wb)
                &&& final(decode_reg).rs2_value == operand2_after(d, ex, wb)
                &&& final(decode_reg).instruction@ == d.instruction@
                &&& *final(decode_reg) == (DecodeExecuteRegister {
                    instruction: final(decode_reg).instruction,
                    rs1_value: operand1_after(d, ex, wb),
                    rs2_value: operand2_after(d, ex, wb),
                    ..d
                })
            }),
    {
        let _ = self.forward_with_info(decode_reg, mem_reg, wb_reg);
    }

    /// Sets the count back to zero.
    pub fn reset(&mut self)
        ensures
            final(self).forwards_count == 0,
    {
        self.forwards_count = 0;
    }

    /// Number of values forwarded so far.
    pub fn get_forwards_count(&self) -> (r: u64)
        ensures
            r == self.forwards_count,
    {
        self.forwards_count
    }
}

/// Whether some forwarded value came from register `r`.
fn contains_register(list: &Vec<ForwardingInfo>, r: usize) -> (b: bool)
    ensures
        b <==> exists|i: int| 0 <= i < list@.len() && (#[trigger] list@[i]).register == r,
{
    let mut i: usize = 0;
    while i < list.len()
        invariant
            i <= list@.len(),
            forall|k: int| 0 <= k < i ==> (#[trigger] list@[k]).register != r,
        decreases list@.len() - i,
    {
        if list[i].register == r {
            return true;
        }
        i += 1;
    }
    false
}

/// A decoded operand always ends up with the most recent value in flight
/// for its register: the Execute latch's value when that latch can forward
/// it, else the Writeback latch's value when that latch holds it.
pub proof fn lemma_forwarding_priority(
    d: DecodeExecuteRegister,
    ex: Option<(usize, u64)>,
    wb: Option<(usize, u64)>,
)
    requires
        d.rs1 is Some,
    ensures
        (ex matches Some((rd, _)) && d.rs1 == Some(rd)) ==> ex_to_rs1(d, ex) && !wb_to_rs1(d, ex, wb),
        (!(ex matches Some((rd, _)) && d.rs1 == Some(rd)) && (wb matches Some((rw, _)) && d.rs1
            == Some(rw))) ==> wb_to_rs1(d, ex, wb),
{
}

} // verus!
