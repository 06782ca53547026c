//! Building blocks of a five-stage pipelined processor: bytecode
//! instructions, the pipeline latches and stages (fetch, decode, memory,
//! writeback) with a cycle split around the execute step, hazard detection
//! and forwarding, branch predictors, store buffer, set-associative caches
//! and the byte-addressed memory that sits behind them. The arithmetic units
//! that execute an instruction are not part of the library.
pub mod bytecode;
pub mod pvm;
pub mod pipeline;
