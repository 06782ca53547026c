# pvm_sim

Building blocks of a pipelined bytecode processor, written in Verus: each
function carries a `requires`/`ensures` contract over a mathematical model of
its data, and Verus proves the code against it.

- `src/bytecode.rs`: instructions (opcode, argument format, argument bytes)
  and the decoding of their arguments.
- `src/pvm/`: the memory system (caches, store buffer, main memory), branch
  predictors (two-bit counters, gshare, perceptrons, hybrid and overriding
  predictors, branch target buffer), a register bank and the decoded
  instruction set.
- `src/pipeline/`: the pipeline stages (fetch, decode, memory, writeback),
  forwarding, hazard detection, the return address stack, the
  dependency-driven issue of instructions to execution units, and the
  pipeline cycle: `begin_cycle` (hazards, fetch, decode) and `finish_cycle`
  (branch resolution, memory, writeback).
- `app/`: what works with floating point or text for people (rates,
  printable reports), on top of the library.
- `tests/`: tests of the library on concrete programs and values.

What is not here: the arithmetic, floating-point and vector units that the
execute stage drives (ALU, AGU, FPU, vector ALU) are not part of this
library's sources. `src/pipeline/execute.rs` keeps the part of the execute
stage that needs none of them (its branch predictor and counters, and the
rule for pairing vector operations); the execute step itself is left to the
caller, which performs it between `begin_cycle` and `finish_cycle`. The older
single-object pipeline of `pvm` (with its cache system, memory controller and
hazard and forwarding units) is absent for the same reason; `pvm/pipelines.rs`
keeps its state types and `execute_instruction`, which executes a decoded
instruction on the register bank.

The public proof functions (`lemma_*`) state properties of the library as a
whole, such as a pop of the stack returning what the last push put there.
Reading memory back gives what was last written there while the store
buffer still holds the bytes (`lemma_read_after_write`), and for a byte
whose line is still in L1 once the buffer is flushed
(`lemma_read_after_flush`). Beyond that nothing promises it: a cache that
misses brings in only the byte asked for, so the rest of a newly allocated
line keeps the bytes of the line it replaced, and a later read there can
see them. A multi-byte read is stated byte by byte: each byte is what a
byte read gives in the state the reads before it left.
