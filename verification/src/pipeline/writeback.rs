//! Writeback stage: writes results to the register bank.
use vstd::prelude::*;
use crate::pipeline::MemoryWritebackRegister;

verus! {

/// The writeback stage; it keeps no state.
pub struct WritebackStage {}

/// Message of the error for a destination register beyond the bank, made by
/// std's `format!`, which copies the literal text before the first
/// placeholder to the start of the string; the contract states that prefix.
#[verifier::external_body]
fn invalid_register_message(rd: usize) -> (s: String)
    ensures
        "Registre destination invalide"@.is_prefix_of(s@),
{
    format!("Registre destination invalide: R{}", rd)
}

impl WritebackStage {
    /// A writeback stage.
    pub fn new() -> (s: Self) {
        WritebackStage {}
    }

    /// Writes the result into the destination register, if there is one; a
    /// destination beyond the bank is refused and the bank left as it was.
    pub fn process_direct(&mut self, wb_reg: &MemoryWritebackRegister, registers: &mut Vec<u64>) -> (r:
        Result<(), String>)
        ensures
            match wb_reg.rd {
                None => r is Ok && final(registers)@ == old(registers)@,
                Some(rd) => if rd < old(registers)@.len() {
                    r is Ok && final(registers)@ == old(registers)@.update(rd as int, wb_reg.result)
                } else {
                    r matches Err(m) && "Registre destination invalide"@.is_prefix_of(m@)
                        && final(registers)@ == old(registers)@
                },
            },
    {
        match wb_reg.rd {
            Some(rd) => {
                if rd < registers.len() {
                    registers.set(rd, wb_reg.result);
                } else {
                    return Err(invalid_register_message(rd));
                }
            },
            None => {},
        }
        Ok(())
    }

    /// Resets the stage; there is nothing to reset.
    pub fn reset(&mut self) {
    }
}

} // verus!
