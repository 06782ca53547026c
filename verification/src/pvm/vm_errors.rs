//! Errors of the machine model.
use vstd::prelude::*;

verus! {

/// Errors raised by the caches, the register bank and the arithmetic.
#[derive(Debug, Clone, Copy, PartialEq, Eq, Structural)]
pub enum VMError {
    /// A read missed in the last cache level, which has nowhere to go.
    CacheMissInLastLevel,
    /// A write request came without the data to write.
    WriteWithoutData,
    /// The register number lies beyond the register bank.
    InvalidRegister(u8),
    /// An integer division by zero.
    DivisionByZero,
}

} // verus!
