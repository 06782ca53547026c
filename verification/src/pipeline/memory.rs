//! Memory stage: loads, stores and stack pushes and pops.
use vstd::prelude::*;
use crate::bytecode::Opcode;
use crate::pipeline::{ExecuteMemoryRegister, MemoryWritebackRegister};
use crate::pvm::memorys::{
    Memory, MemoryError, le_bytes, read_done, write_done, lemma_read_after_write,
    lemma_le_bytes_injective, lemma_le_bytes_len,
};
use crate::bytecode::pow256;
use crate::pvm::buffers::sb_lookup;

verus! {

/// Why the memory stage failed.
#[derive(Debug, Clone, Copy, PartialEq, Eq, Structural)]
pub enum MemoryStageError {
    /// A push found the stack pointer below 8.
    StackOverflow,
    /// The write of a push failed.
    PushFailed(MemoryError),
    /// The read of a pop failed.
    PopFailed(MemoryError),
    /// A load or a store failed.
    Access(MemoryError),
}

/// The memory stage, with the stack pointer of the machine.
pub struct MemoryStage {
    /// Address of the top of the stack; the stack grows downwards.
    pub stack_pointer: u32,
}

/// Bytes a load opcode reads; 0 for other opcodes.
pub open spec fn load_size(op: Opcode) -> nat {
    match op {
        Opcode::Load => 8,
        Opcode::LoadB => 1,
        Opcode::LoadW => 2,
        Opcode::LoadD => 4,
        _ => 0,
    }
}

/// Bytes a store opcode writes for `value`: its low bytes, least
/// significant first; empty for other opcodes.
pub open spec fn store_bytes(op: Opcode, value: u64) -> Seq<u8> {
    match op {
        Opcode::Store => le_bytes(value as nat, 8),
        Opcode::StoreB => le_bytes((value as u8) as nat, 1),
        Opcode::StoreW => le_bytes((value as u16) as nat, 2),
        Opcode::StoreD => le_bytes((value as u32) as nat, 4),
        _ => Seq::empty(),
    }
}

/// The accesses of `op` stay below 2^32: an address plus the bytes accessed,
/// and a pop's stack pointer plus 8 once the read succeeds.
pub open spec fn access_fits(op: Opcode, mem_addr: Option<u32>, sp: u32, mem_len: nat) -> bool {
    match op {
        Opcode::Load | Opcode::Store => mem_addr matches Some(a) ==> a + 7 <= u32::MAX,
        Opcode::LoadW | Opcode::StoreW => mem_addr matches Some(a) ==> a + 1 <= u32::MAX,
        Opcode::LoadD | Opcode::StoreD => mem_addr matches Some(a) ==> a + 3 <= u32::MAX,
        Opcode::Pop => sp + 7 <= u32::MAX && (sp + 7 < mem_len ==> sp + 8 <= u32::MAX),
        _ => true,
    }
}

/// `r` hands `reg`'s instruction and destination on with `result`.
pub open spec fn passed_on(
    r: Result<MemoryWritebackRegister, MemoryStageError>,
    reg: ExecuteMemoryRegister,
    result: u64,
) -> bool {
    r matches Ok(w) && w.instruction@ == reg.instruction@ && w.rd == reg.rd && w.result == result
}

/// `r` hands `reg`'s instruction and destination on with a value that a
/// read of `n` bytes at `addr` took `a` to `b` to give.
pub open spec fn loaded(
    r: Result<MemoryWritebackRegister, MemoryStageError>,
    reg: ExecuteMemoryRegister,
    a: Memory,
    b: Memory,
    addr: u32,
    n: nat,
) -> bool {
    r matches Ok(w) && w.instruction@ == reg.instruction@ && w.rd == reg.rd && read_done(
        a,
        b,
        addr,
        n,
        w.result as nat,
    )
}

/// The memory access of instruction `m` took the stack pointer from `sp0`
/// to `sp1` and memory from `a` to `b`, with result `r`: a load reads its
/// address (the result replaces the ALU's), a store writes the low bytes of
/// its value, a push moves the stack pointer down 8 bytes and writes its
/// value there, a pop reads 8 bytes at the stack pointer and moves it up 8
/// bytes; an address beyond memory is refused with memory unchanged.
pub open spec fn memory_access(
    sp0: u32,
    sp1: u32,
    m: ExecuteMemoryRegister,
    mem0: Memory,
    mem1: Memory,
    r: Result<MemoryWritebackRegister, MemoryStageError>,
) -> bool {
    &&& mem1.wf()
    &&& mem1.buffer_capacity() == mem0.buffer_capacity()
    &&& {
        let op = m.instruction.opcode;
        let sp = sp0;
        let len = mem0.bytes().len();
        if op is Load || op is LoadB || op is LoadW || op is LoadD {
            &&& sp1 == sp
            &&& match m.mem_addr {
                None => passed_on(r, m, m.alu_result) && mem1 == mem0,
                Some(a) => if a + load_size(op) - 1 >= len {
                    &&& r == Err::<MemoryWritebackRegister, MemoryStageError>(
                        MemoryStageError::Access(
                            MemoryError::InvalidAddress((a + load_size(op) - 1) as u32),
                        ),
                    )
                    &&& mem1 == mem0
                } else {
                    loaded(r, m, mem0, mem1, a, load_size(op))
                },
            }
        } else if op is Store || op is StoreB || op is StoreW || op is StoreD {
            &&& sp1 == sp
            &&& match (m.mem_addr, m.store_value) {
                (Some(a), Some(v)) => if a + store_bytes(op, v).len() - 1 >= len {
                    &&& r == Err::<MemoryWritebackRegister, MemoryStageError>(
                        MemoryStageError::Access(
                            MemoryError::InvalidAddress(
                                (a + store_bytes(op, v).len() - 1) as u32,
                            ),
                        ),
                    )
                    &&& mem1 == mem0
                } else {
                    &&& passed_on(r, m, m.alu_result)
                    &&& write_done(mem0, mem1, a, store_bytes(op, v))
                },
                _ => passed_on(r, m, m.alu_result) && mem1 == mem0,
            }
        } else if op is Push {
            match m.store_value {
                None => {
                    &&& passed_on(r, m, m.alu_result)
                    &&& mem1 == mem0
                    &&& sp1 == sp
                },
                Some(v) => if sp < 8 {
                    &&& r == Err::<MemoryWritebackRegister, MemoryStageError>(
                        MemoryStageError::StackOverflow,
                    )
                    &&& mem1 == mem0
                    &&& sp1 == sp
                } else {
                    &&& sp1 == sp - 8
                    &&& if sp - 1 >= len {
                        &&& r == Err::<MemoryWritebackRegister, MemoryStageError>(
                            MemoryStageError::PushFailed(
                                MemoryError::InvalidAddress((sp - 1) as u32),
                            ),
                        )
                        &&& mem1 == mem0
                    } else {
                        &&& passed_on(r, m, m.alu_result)
                        &&& write_done(
                            mem0,
                            mem1,
                            (sp - 8) as u32,
                            le_bytes(v as nat, 8),
                        )
                    }
                },
            }
        } else if op is Pop {
            if sp + 7 >= len {
                &&& r == Err::<MemoryWritebackRegister, MemoryStageError>(
                    MemoryStageError::PopFailed(MemoryError::InvalidAddress((sp + 7) as u32)),
                )
                &&& mem1 == mem0
                &&& sp1 == sp
            } else {
                &&& loaded(r, m, mem0, mem1, sp, 8)
                &&& sp1 == sp + 8
            }
        } else {
            &&& passed_on(r, m, m.alu_result)
            &&& mem1 == mem0
            &&& sp1 == sp
        }
    }
}

impl MemoryStage {
    /// A stage whose stack starts at 0xFFFF0000.
    pub fn new() -> (s: Self)
        ensures
            s.stack_pointer == 0xFFFF0000,
    {
        MemoryStage { stack_pointer: 0xFFFF0000 }
    }

    /// A stage whose stack starts at 0x1000, low enough for small memories.
    pub fn new_for_test() -> (s: Self)
        ensures
            s.stack_pointer == 0x1000,
    {
        MemoryStage { stack_pointer: 0x1000 }
    }

    /// Puts the stack pointer back at 0xFFFF0000.
    pub fn reset(&mut self)
        ensures
            final(self).stack_pointer == 0xFFFF0000,
    {
        self.stack_pointer = 0xFFFF0000;
    }

    /// Reads the `size`-byte little-endian value at `addr`.
    fn load_from_memory(&self, memory: &mut Memory, addr: u32, size: u8) -> (r: Result<u64, MemoryError>)
        requires
            old(memory).wf(),
            old(memory).room() >= 8,
            size == 1 || size == 2 || size == 4 || size == 8,
            addr + size - 1 <= u32::MAX,
        ensures
            final(memory).wf(),
            final(memory).buffer_capacity() == old(memory).buffer_capacity(),
            addr + size - 1 >= old(memory).bytes().len() ==> {
                &&& r == Err::<u64, MemoryError>(
                    MemoryError::InvalidAddress((addr + size - 1) as u32),
                )
                &&& *final(memory) == *old(memory)
            },
            addr + size - 1 < old(memory).bytes().len() ==> (r matches Ok(v) && read_done(
                *old(memory),
                *final(memory),
                addr,
                size as nat,
                v as nat,
            )),
    {
        if size == 1 {
            match memory.read_byte(addr) {
                Ok(b) => Ok(b as u64),
                Err(e) => Err(e),
            }
        } else if size == 2 {
            match memory.read_word(addr) {
                Ok(w) => Ok(w as u64),
                Err(e) => Err(e),
            }
        } else if size == 4 {
            match memory.read_dword(addr) {
                Ok(d) => Ok(d as u64),
                Err(e) => Err(e),
            }
        } else {
            memory.read_qword(addr)
        }
    }

    /// Writes the low `size` bytes of `value` at `addr`, least significant
    /// first.
    fn store_to_memory(&self, memory: &mut Memory, addr: u32, value: u64, size: u8) -> (r: Result<(), MemoryError>)
        requires
            old(memory).wf(),
            old(memory).room() >= 8,
            old(memory).buffer_capacity() > 0,
            size == 1 || size == 2 || size == 4 || size == 8,
            addr + size - 1 <= u32::MAX,
        ensures
            final(memory).wf(),
            final(memory).buffer_capacity() == old(memory).buffer_capacity(),
            addr + size - 1 >= old(memory).bytes().len() ==> {
                &&& r == Err::<(), MemoryError>(
                    MemoryError::InvalidAddress((addr + size - 1) as u32),
                )
                &&& *final(memory) == *old(memory)
            },
            addr + size - 1 < old(memory).bytes().len() ==> {
                &&& r == Ok::<(), MemoryError>(())
                &&& write_done(
                    *old(memory),
                    *final(memory),
                    addr,
                    if size == 1 {
                        le_bytes((value as u8) as nat, 1)
                    } else if size == 2 {
                        le_bytes((value as u16) as nat, 2)
                    } else if size == 4 {
                        le_bytes((value as u32) as nat, 4)
                    } else {
                        le_bytes(value as nat, 8)
                    },
                )
            },
    {
        if size == 1 {
            let b = value as u8;
            let r = memory.write_byte(addr, b);
            proof {
                assert(le_bytes((b as nat) / 256, 0) =~= Seq::<u8>::empty());
                assert(le_bytes(b as nat, 1) =~= seq![b]);
            }
            r
        } else if size == 2 {
            memory.write_word(addr, value as u16)
        } else if size == 4 {
            memory.write_dword(addr, value as u32)
        } else {
            memory.write_qword(addr, value)
        }
    }

    /// Carries out the memory access of the instruction: a load reads its
    /// address (the result replaces the ALU's), a store writes the low bytes
    /// of its value, a push moves the stack pointer down 8 bytes and writes
    /// its value there, a pop reads 8 bytes at the stack pointer (the result
    /// replaces the ALU's) and moves it up 8 bytes. A load or store without
    /// an address, or a store or push without a value, does nothing; other
    /// instructions pass the ALU result on.
    pub fn process_direct(&mut self, mem_reg: &ExecuteMemoryRegister, memory: &mut Memory) -> (r:
        Result<MemoryWritebackRegister, MemoryStageError>)
        requires
            old(memory).wf(),
            old(memory).room() >= 8,
            old(memory).buffer_capacity() > 0,
            access_fits(
                mem_reg.instruction.opcode,
                mem_reg.mem_addr,
                old(self).stack_pointer,
                old(memory).bytes().len(),
            ),
        ensures
            memory_access(old(self).stack_pointer, final(self).stack_pointer, *mem_reg, *old(memory), *final(memory), r),
    {
        let mut result = mem_reg.alu_result;
        let op = mem_reg.instruction.opcode;
        let load_width: u8 = match op {
            Opcode::Load => 8,
            Opcode::LoadB => 1,
            Opcode::LoadW => 2,
            Opcode::LoadD => 4,
            _ => 0,
        };
        let store_width: u8 = match op {
            Opcode::Store => 8,
            Opcode::StoreB => 1,
            Opcode::StoreW => 2,
            Opcode::StoreD => 4,
            _ => 0,
        };
        if load_width > 0 {
            match mem_reg.mem_addr {
                Some(addr) => {
                    match self.load_from_memory(memory, addr, load_width) {
                        Ok(v) => {
                            result = v;
                        },
                        Err(e) => {
                            return Err(MemoryStageError::Access(e));
                        },
                    }
                },
                None => {},
            }
        } else if store_width > 0 {
            match (mem_reg.mem_addr, mem_reg.store_value) {
                (Some(addr), Some(value)) => {
                    proof {
                        lemma_store_len(op, value);
                    }
                    match self.store_to_memory(memory, addr, value, store_width) {
                        Ok(()) => {},
                        Err(e) => {
                            return Err(MemoryStageError::Access(e));
                        },
                    }
                },
                _ => {},
            }
        } else if op == Opcode::Push {
            match mem_reg.store_value {
                Some(value) => {
                    if self.stack_pointer < 8 {
                        return Err(MemoryStageError::StackOverflow);
                    }
                    self.stack_pointer = self.stack_pointer - 8;
                    match self.store_to_memory(memory, self.stack_pointer, value, 8) {
                        Ok(()) => {},
                        Err(e) => {
                            return Err(MemoryStageError::PushFailed(e));
                        },
                    }
                },
                None => {},
            }
        } else if op == Opcode::Pop {
            match self.load_from_memory(memory, self.stack_pointer, 8) {
                Ok(value) => {
                    result = value;
                    self.stack_pointer = self.stack_pointer + 8;
                },
                Err(e) => {
                    return Err(MemoryStageError::PopFailed(e));
                },
            }
        }
        Ok(MemoryWritebackRegister { instruction: mem_reg.instruction.clone(), result, rd: mem_reg.rd })
    }
}

proof fn lemma_store_len(op: Opcode, value: u64)
    ensures
        store_bytes(op, value).len() == match op {
            Opcode::Store => 8nat,
            Opcode::StoreB => 1nat,
            Opcode::StoreW => 2nat,
            Opcode::StoreD => 4nat,
            _ => 0nat,
        },
{
    crate::pvm::memorys::lemma_le_bytes_len(value as nat, 8);
    crate::pvm::memorys::lemma_le_bytes_len((value as u8) as nat, 1);
    crate::pvm::memorys::lemma_le_bytes_len((value as u16) as nat, 2);
    crate::pvm::memorys::lemma_le_bytes_len((value as u32) as nat, 4);
}

/// A pop right after a push gives back the pushed value: when the push
/// wrote `v` in the 8 bytes below `sp` (taking `m0` to `m1`), the pop read
/// `result` there (taking `m1` to `m2`), and the store buffer had room for
/// the 8 bytes and held none of their addresses before the push.
pub proof fn lemma_pop_returns_pushed(
    m0: Memory,
    m1: Memory,
    m2: Memory,
    sp: u32,
    v: u64,
    result: u64,
)
    requires
        m0.wf(),
        sp >= 8,
        m0.buffer_capacity() >= 8,
        write_done(m0, m1, (sp - 8) as u32, le_bytes(v as nat, 8)),
        read_done(m1, m2, (sp - 8) as u32, 8, result as nat),
        forall|i: int| 0 <= i < 8 ==> sb_lookup(m0.buffered(), #[trigger] ((sp - 8 + i) as u32)) is None,
    ensures
        result == v,
{
    let a = (sp - 8) as u32;
    let data = le_bytes(v as nat, 8);
    lemma_le_bytes_len(v as nat, 8);
    assert forall|i: int| 0 <= i < data.len() implies sb_lookup(m0.buffered(), #[trigger] ((a + i) as u32))
        is None by {
        assert((a + i) as u32 == (sp - 8 + i) as u32);
    }
    lemma_read_after_write(m0, m1, a, data);
    lemma_le_bytes_len(result as nat, 8);
    assert(le_bytes(result as nat, 8) == data);
    assert(pow256(8) == 0x1_0000_0000_0000_0000) by {
        reveal_with_fuel(pow256, 9);
    }
    lemma_le_bytes_injective(result as nat, v as nat, 8);
}

} // verus!
