//! The register bank of the machine: signed 64-bit general registers.
use vstd::prelude::*;
use crate::pvm::instructions::RegisterId;
use crate::pvm::vm_errors::VMError;

verus! {

/// A fixed number of signed 64-bit registers, all zero at first.
#[derive(Debug, Clone)]
pub struct RegisterBank {
    values: Vec<i64>,
}

impl View for RegisterBank {
    type V = Seq<i64>;

    closed spec fn view(&self) -> Seq<i64> {
        self.values@
    }
}

impl RegisterBank {
    /// A bank of `count` registers, all zero.
    pub fn new(count: usize) -> (r: Result<RegisterBank, VMError>)
        ensures
            r matches Ok(b) && b@ == Seq::new(count as nat, |i: int| 0i64),
    {
        let mut values: Vec<i64> = Vec::with_capacity(count);
        let mut i: usize = 0;
        while i < count
            invariant
                i <= count,
                values@ == Seq::new(i as nat, |k: int| 0i64),
            decreases count - i,
        {
            values.push(0);
            i += 1;
        }
        Ok(RegisterBank { values })
    }

    /// Number of registers.
    pub fn len(&self) -> (r: usize)
        ensures
            r == self@.len(),
    {
        self.values.len()
    }

    /// Value of register `id`; a register beyond the bank is refused.
    pub fn read_register(&self, id: RegisterId) -> (r: Result<i64, VMError>)
        ensures
            (id.0 as int) < self@.len() ==> r == Ok::<i64, VMError>(self@[id.0 as int]),
            (id.0 as int) >= self@.len() ==> r == Err::<i64, VMError>(VMError::InvalidRegister(id.0)),
    {
        let i = id.0 as usize;
        if i < self.values.len() {
            Ok(self.values[i])
        } else {
            Err(VMError::InvalidRegister(id.0))
        }
    }

    /// Sets register `id` to `value`; a register beyond the bank is refused
    /// and the bank left as it was.
    pub fn write_register(&mut self, id: RegisterId, value: i64) -> (r: Result<(), VMError>)
        ensures
            (id.0 as int) < old(self)@.len() ==> r == Ok::<(), VMError>(()) && final(self)@ == old(
                self,
            )@.update(id.0 as int, value),
            (id.0 as int) >= old(self)@.len() ==> r == Err::<(), VMError>(
                VMError::InvalidRegister(id.0),
            ) && final(self)@ == old(self)@,
    {
        let i = id.0 as usize;
        if i < self.values.len() {
            self.values.set(i, value);
            Ok(())
        } else {
            Err(VMError::InvalidRegister(id.0))
        }
    }
}

} // verus!
