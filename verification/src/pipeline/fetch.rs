//! Fetch stage: keeps a buffer of prefetched instructions, keyed by address.
use vstd::prelude::*;
use std::collections::VecDeque;
use crate::bytecode::{Instruction, InstructionFormat, Opcode, HEADER_SIZE};
use crate::pipeline::FetchDecodeRegister;

verus! {

/// Address of instruction `idx` of `prog`: the sizes of the instructions
/// before it, laid out one after the other from address 0.
pub open spec fn program_addr(prog: Seq<Instruction>, idx: int) -> int
    decreases idx,
{
    if idx <= 0 {
        0
    } else {
        program_addr(prog, idx - 1) + prog[idx - 1].spec_total_size()
    }
}

/// Size in bytes of an instruction of view `v`.
pub open spec fn view_size(v: (Opcode, InstructionFormat, Seq<u8>)) -> int {
    HEADER_SIZE + v.2.len()
}

/// Addresses and instruction views of buffered entries.
pub open spec fn buffer_view(b: Seq<(u32, Instruction)>) -> Seq<(u32, (Opcode, InstructionFormat, Seq<u8>))> {
    b.map_values(|e: (u32, Instruction)| (e.0, e.1@))
}

/// Whether some entry of `b` is for address `a`.
pub open spec fn has_key(b: Seq<(u32, (Opcode, InstructionFormat, Seq<u8>))>, a: u32) -> bool {
    exists|j: int| 0 <= j < b.len() && (#[trigger] b[j]).0 == a
}

/// Position of the entry for address `a`, where there is one.
pub open spec fn key_pos(b: Seq<(u32, (Opcode, InstructionFormat, Seq<u8>))>, a: u32) -> int {
    choose|j: int| 0 <= j < b.len() && (#[trigger] b[j]).0 == a
}

/// Index of the instruction of `prog` that starts at address `pc`, if any.
pub open spec fn pc_index(prog: Seq<Instruction>, pc: u32) -> Option<int> {
    if exists|k: int| 0 <= k < prog.len() && #[trigger] program_addr(prog, k) == pc {
        Some(choose|k: int| 0 <= k < prog.len() && #[trigger] program_addr(prog, k) == pc)
    } else {
        None
    }
}

/// `buf` after appending, from instruction `idx` on, each instruction whose
/// address is not buffered yet, until the buffer holds `cap` entries.
pub open spec fn fill(
    buf: Seq<(u32, (Opcode, InstructionFormat, Seq<u8>))>,
    cap: nat,
    prog: Seq<Instruction>,
    idx: int,
) -> Seq<(u32, (Opcode, InstructionFormat, Seq<u8>))>
    decreases prog.len() - idx,
{
    if idx < 0 || idx >= prog.len() || buf.len() >= cap {
        buf
    } else {
        let a = program_addr(prog, idx) as u32;
        let next = if has_key(buf, a) {
            buf
        } else {
            buf.push((a, prog[idx]@))
        };
        fill(next, cap, prog, idx + 1)
    }
}

/// `buf` after a prefetch from `pc`: unchanged when full or when no
/// instruction starts at `pc`, else filled from that instruction on.
pub open spec fn prefetched(
    buf: Seq<(u32, (Opcode, InstructionFormat, Seq<u8>))>,
    cap: nat,
    prog: Seq<Instruction>,
    pc: u32,
) -> Seq<(u32, (Opcode, InstructionFormat, Seq<u8>))> {
    if buf.len() >= cap {
        buf
    } else {
        match pc_index(prog, pc) {
            Some(k) => fill(buf, cap, prog, k),
            None => buf,
        }
    }
}

/// The buffer a fetch of `pc` looks in: the current one if it holds `pc`,
/// else a fresh prefetch from `pc`.
pub open spec fn refilled(
    buf: Seq<(u32, (Opcode, InstructionFormat, Seq<u8>))>,
    cap: nat,
    prog: Seq<Instruction>,
    pc: u32,
) -> Seq<(u32, (Opcode, InstructionFormat, Seq<u8>))> {
    if buf.len() == 0 || !has_key(buf, pc) {
        prefetched(Seq::empty(), cap, prog, pc)
    } else {
        buf
    }
}

/// The program's instructions fit one after the other below 2^32.
pub open spec fn program_fits(prog: Seq<Instruction>) -> bool {
    program_addr(prog, prog.len() as int) <= u32::MAX
}

/// Addresses grow with the index: each instruction takes at least its
/// header.
proof fn lemma_addr_mono(prog: Seq<Instruction>, i: int, j: int)
    requires
        0 <= i <= j <= prog.len(),
    ensures
        program_addr(prog, i) + (j - i) * HEADER_SIZE <= program_addr(prog, j),
    decreases j - i,
{
    if i < j {
        lemma_addr_mono(prog, i, j - 1);
    }
}

/// The instruction fetch stage.
pub struct FetchStage {
    /// Prefetched instructions with their addresses, oldest first.
    pub fetch_buffer: VecDeque<(u32, Instruction)>,
    /// Number of instructions the buffer holds at most.
    pub buffer_size: usize,
}

/// Message of the error for an address where no instruction starts, made by
/// std's `format!`, which copies the literal text before the first
/// placeholder to the start of the string; the contract states that prefix.
#[verifier::external_body]
fn not_found_message(pc: u32) -> (s: String)
    ensures
        "Instruction non trouvée"@.is_prefix_of(s@),
{
    format!("Instruction non trouvée à l'adresse 0x{:08X}", pc)
}

impl FetchStage {
    /// Buffered entries as addresses and instruction views.
    pub open spec fn buffer(&self) -> Seq<(u32, (Opcode, InstructionFormat, Seq<u8>))> {
        buffer_view(self.fetch_buffer@)
    }

    /// Buffered addresses are distinct, and each buffered instruction ends
    /// below 2^32.
    pub open spec fn wf(&self) -> bool {
        &&& forall|i: int, j: int|
            0 <= i < self.buffer().len() && 0 <= j < self.buffer().len() && i != j
                ==> (#[trigger] self.buffer()[i]).0 != (#[trigger] self.buffer()[j]).0
        &&& forall|i: int|
            0 <= i < self.buffer().len() ==> (#[trigger] self.buffer()[i]).0 + view_size(
                self.buffer()[i].1,
            ) <= u32::MAX
    }

    /// An empty stage whose buffer holds `buffer_size` instructions.
    pub fn new(buffer_size: usize) -> (s: Self)
        ensures
            s.wf(),
            s.buffer() == Seq::<(u32, (Opcode, InstructionFormat, Seq<u8>))>::empty(),
            s.buffer_size == buffer_size,
    {
        let s = FetchStage { fetch_buffer: VecDeque::with_capacity(buffer_size), buffer_size };
        proof {
            assert(s.buffer() =~= Seq::<(u32, (Opcode, InstructionFormat, Seq<u8>))>::empty());
        }
        s
    }

    /// Whether some buffered entry is for address `a`.
    fn buffered(&self, a: u32) -> (r: bool)
        ensures
            r == has_key(self.buffer(), a),
    {
        let mut j: usize = 0;
        while j < self.fetch_buffer.len()
            invariant
                j <= self.fetch_buffer@.len(),
                forall|k: int| 0 <= k < j ==> (#[trigger] self.buffer()[k]).0 != a,
            decreases self.fetch_buffer@.len() - j,
        {
            if self.fetch_buffer[j].0 == a {
                assert(self.buffer()[j as int].0 == a);
                return true;
            }
            j += 1;
        }
        false
    }

    /// Fills the buffer, while it has room, with the instructions from the
    /// one at address `pc` on, skipping addresses already buffered. Nothing
    /// happens when the buffer is full or no instruction starts at `pc`.
    pub fn prefetch(&mut self, pc: u32, instructions: &[Instruction])
        requires
            old(self).wf(),
            program_fits(instructions@),
        ensures
            final(self).wf(),
            final(self).buffer_size == old(self).buffer_size,
            final(self).buffer() == prefetched(
                old(self).buffer(),
                old(self).buffer_size as nat,
                instructions@,
                pc,
            ),
    {
        if self.fetch_buffer.len() >= self.buffer_size {
            return;
        }
        let ghost prog = instructions@;
        let n = instructions.len();
        let mut idx: usize = 0;
        let mut current_addr: u32 = 0;
        let mut found = false;
        while !found && idx < n
            invariant
                n == prog.len(),
                prog == instructions@,
                idx <= n,
                current_addr == program_addr(prog, idx as int),
                program_fits(prog),
                found ==> idx < n && program_addr(prog, idx as int) == pc,
                !found ==> forall|j: int| 0 <= j < idx ==> #[trigger] program_addr(prog, j) != pc,
            decreases 2 * (n - idx) + if found {
                0int
            } else {
                1int
            },
        {
            if current_addr == pc {
                found = true;
            } else {
                proof {
                    lemma_addr_mono(prog, idx as int + 1, n as int);
                }
                current_addr = current_addr + instructions[idx].total_size() as u32;
                idx += 1;
            }
        }
        if !found {
            proof {
                assert(pc_index(prog, pc) is None);
            }
            return;
        }
        proof {
            let k = choose|k: int| 0 <= k < prog.len() && #[trigger] program_addr(prog, k) == pc;
            if k < idx {
                lemma_addr_mono(prog, k + 1, idx as int);
            } else if k > idx {
                lemma_addr_mono(prog, idx as int + 1, k);
            }
            assert(pc_index(prog, pc) == Some(idx as int));
        }
        let ghost target = fill(self.buffer(), self.buffer_size as nat, prog, idx as int);
        let mut addr: u32 = pc;
        let mut i: usize = idx;
        while i < n && self.fetch_buffer.len() < self.buffer_size
            invariant
                n == prog.len(),
                prog == instructions@,
                idx <= i <= n,
                addr == program_addr(prog, i as int),
                program_fits(prog),
                self.wf(),
                self.buffer_size == old(self).buffer_size,
                fill(self.buffer(), self.buffer_size as nat, prog, i as int) == target,
            decreases n - i,
        {
            proof {
                lemma_addr_mono(prog, i as int + 1, n as int);
            }
            let present = self.buffered(addr);
            if !present {
                let ghost before = self.buffer();
                let instr = instructions[i].clone();
                self.fetch_buffer.push_back((addr, instr));
                proof {
                    assert(self.buffer() =~= before.push((addr, prog[i as int]@)));
                }
            }
            addr = addr + instructions[i].total_size() as u32;
            i += 1;
        }
    }

    /// Takes the instruction at `pc` out of the buffer, after refilling the
    /// buffer from `pc` when it does not hold it, and prefetches from the
    /// address that follows. Fails when no instruction starts at `pc`.
    pub fn process_direct(&mut self, pc: u32, instructions: &[Instruction]) -> (r: Result<
        FetchDecodeRegister,
        String,
    >)
        requires
            old(self).wf(),
            program_fits(instructions@),
        ensures
            final(self).wf(),
            final(self).buffer_size == old(self).buffer_size,
            ({
                let b = refilled(old(self).buffer(), old(self).buffer_size as nat, instructions@, pc);
                if has_key(b, pc) {
                    let p = key_pos(b, pc);
                    &&& r matches Ok(reg) && reg.pc == pc && reg.instruction@ == b[p].1
                    &&& final(self).buffer() == prefetched(
                        b.remove(p),
                        old(self).buffer_size as nat,
                        instructions@,
                        (pc + view_size(b[p].1)) as u32,
                    )
                } else {
                    &&& r matches Err(m) && "Instruction non trouvée"@.is_prefix_of(m@)
                    &&& final(self).buffer() == b
                }
            }),
    {
        let present = self.buffered(pc);
        if self.fetch_buffer.len() == 0 || !present {
            self.fetch_buffer.clear();
            proof {
                assert(self.buffer() =~= Seq::<(u32, (Opcode, InstructionFormat, Seq<u8>))>::empty());
            }
            self.prefetch(pc, instructions);
        }
        let ghost b = self.buffer();
        let mut pos: usize = 0;
        let mut hit = false;
        while !hit && pos < self.fetch_buffer.len()
            invariant
                b == self.buffer(),
                pos <= self.fetch_buffer@.len(),
                hit ==> pos < self.fetch_buffer@.len() && b[pos as int].0 == pc,
                !hit ==> forall|k: int| 0 <= k < pos ==> (#[trigger] b[k]).0 != pc,
            decreases 2 * (self.fetch_buffer@.len() - pos) + if hit {
                0int
            } else {
                1int
            },
        {
            if self.fetch_buffer[pos].0 == pc {
                hit = true;
            } else {
                pos += 1;
            }
        }
        if !hit {
            return Err(not_found_message(pc));
        }
        proof {
            let p = key_pos(b, pc);
            assert(b[p].0 == pc);
            assert(p == pos);
        }
        let removed = self.fetch_buffer.remove(pos);
        let (_, instruction) = removed.unwrap();
        proof {
            assert(self.buffer() =~= b.remove(pos as int));
            assert forall|i: int, j: int|
                0 <= i < self.buffer().len() && 0 <= j < self.buffer().len() && i != j implies (
                #[trigger] self.buffer()[i]).0 != (#[trigger] self.buffer()[j]).0 by {
                let i2 = if i < pos { i } else { i + 1 };
                let j2 = if j < pos { j } else { j + 1 };
                assert(self.buffer()[i] == b[i2]);
                assert(self.buffer()[j] == b[j2]);
            }
            assert forall|i: int| 0 <= i < self.buffer().len() implies (#[trigger] self.buffer()[i]).0
                + view_size(self.buffer()[i].1) <= u32::MAX by {
                let i2 = if i < pos { i } else { i + 1 };
                assert(self.buffer()[i] == b[i2]);
            }
            assert(b[pos as int].1 == instruction@);
        }
        let next = pc + instruction.total_size() as u32;
        self.prefetch(next, instructions);
        Ok(FetchDecodeRegister { instruction, pc })
    }

    /// Empties the buffer.
    pub fn reset(&mut self)
        ensures
            final(self).wf(),
            final(self).buffer_size == old(self).buffer_size,
            final(self).buffer() == Seq::<(u32, (Opcode, InstructionFormat, Seq<u8>))>::empty(),
    {
        self.fetch_buffer.clear();
        proof {
            assert(self.buffer() =~= Seq::<(u32, (Opcode, InstructionFormat, Seq<u8>))>::empty());
        }
    }
}

/// Filling keeps what the buffer held, in place.
proof fn lemma_fill_prefix(
    buf: Seq<(u32, (Opcode, InstructionFormat, Seq<u8>))>,
    cap: nat,
    prog: Seq<Instruction>,
    idx: int,
)
    ensures
        fill(buf, cap, prog, idx).len() >= buf.len(),
        forall|j: int| 0 <= j < buf.len() ==> #[trigger] fill(buf, cap, prog, idx)[j] == buf[j],
    decreases prog.len() - idx,
{
    if !(idx < 0 || idx >= prog.len() || buf.len() >= cap) {
        let a = program_addr(prog, idx) as u32;
        let next = if has_key(buf, a) {
            buf
        } else {
            buf.push((a, prog[idx]@))
        };
        lemma_fill_prefix(next, cap, prog, idx + 1);
        assert forall|j: int| 0 <= j < buf.len() implies #[trigger] fill(buf, cap, prog, idx)[j]
            == buf[j] by {
            assert(next[j] == buf[j]);
        }
    }
}

/// Filling adds no address twice.
proof fn lemma_fill_distinct(
    buf: Seq<(u32, (Opcode, InstructionFormat, Seq<u8>))>,
    cap: nat,
    prog: Seq<Instruction>,
    idx: int,
)
    requires
        forall|i: int, j: int|
            0 <= i < buf.len() && 0 <= j < buf.len() && i != j ==> (#[trigger] buf[i]).0 != (
            #[trigger] buf[j]).0,
    ensures
        ({
            let f = fill(buf, cap, prog, idx);
            forall|i: int, j: int|
                0 <= i < f.len() && 0 <= j < f.len() && i != j ==> (#[trigger] f[i]).0 != (
                #[trigger] f[j]).0
        }),
    decreases prog.len() - idx,
{
    if !(idx < 0 || idx >= prog.len() || buf.len() >= cap) {
        let a = program_addr(prog, idx) as u32;
        let next = if has_key(buf, a) {
            buf
        } else {
            buf.push((a, prog[idx]@))
        };
        assert forall|i: int, j: int|
            0 <= i < next.len() && 0 <= j < next.len() && i != j implies (#[trigger] next[i]).0 != (
            #[trigger] next[j]).0 by {
            if i < buf.len() && j < buf.len() {
                assert(next[i] == buf[i] && next[j] == buf[j]);
            } else if i == buf.len() {
                assert(next[j] == buf[j]);
            } else {
                assert(next[i] == buf[i]);
            }
        }
        lemma_fill_distinct(next, cap, prog, idx + 1);
        assert(fill(buf, cap, prog, idx) == fill(next, cap, prog, idx + 1));
    }
}

/// A fetch finds the program's instruction: when no buffered entry is for
/// `pc`, the buffer has room, and the instruction at index `k` of a program
/// that fits starts at `pc`, the fetch of `pc` gives that instruction.
pub proof fn lemma_fetch_finds_instruction(
    buf: Seq<(u32, (Opcode, InstructionFormat, Seq<u8>))>,
    cap: nat,
    prog: Seq<Instruction>,
    pc: u32,
    k: int,
)
    requires
        cap > 0,
        program_fits(prog),
        0 <= k < prog.len(),
        program_addr(prog, k) == pc,
        !has_key(buf, pc),
    ensures
        has_key(refilled(buf, cap, prog, pc), pc),
        refilled(buf, cap, prog, pc)[key_pos(refilled(buf, cap, prog, pc), pc)].1 == prog[k]@,
{
    let e = Seq::<(u32, (Opcode, InstructionFormat, Seq<u8>))>::empty();
    assert(pc_index(prog, pc) == Some(k)) by {
        let c = choose|c: int| 0 <= c < prog.len() && #[trigger] program_addr(prog, c) == pc;
        if c < k {
            lemma_addr_mono(prog, c + 1, k);
        } else if c > k {
            lemma_addr_mono(prog, k + 1, c);
        }
    }
    let first = e.push((pc, prog[k]@));
    assert(!has_key(e, pc));
    assert(fill(e, cap, prog, k) == fill(first, cap, prog, k + 1));
    lemma_fill_prefix(first, cap, prog, k + 1);
    lemma_fill_distinct(first, cap, prog, k + 1);
    let f = refilled(buf, cap, prog, pc);
    assert(f == fill(first, cap, prog, k + 1));
    assert(f[0] == (pc, prog[k]@));
    assert(has_key(f, pc));
    assert(key_pos(f, pc) == 0);
}

} // verus!
