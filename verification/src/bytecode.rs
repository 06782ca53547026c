//! Bytecode instructions as they flow through the pipeline: an opcode, an
//! argument format and the raw argument bytes.
use vstd::prelude::*;

verus! {

/// Operation codes of the bytecode.
#[derive(Debug, Clone, Copy, PartialEq, Eq, Structural)]
pub enum Opcode {
    Nop,
    Halt,
    Mov,
    Add,
    Sub,
    Mul,
    Div,
    Mod,
    Inc,
    Dec,
    Neg,
    And,
    Or,
    Xor,
    Not,
    Shl,
    Shr,
    Sar,
    Rol,
    Ror,
    Cmp,
    Test,
    Load,
    LoadB,
    LoadW,
    LoadD,
    Store,
    StoreB,
    StoreW,
    StoreD,
    Push,
    Pop,
    Call,
    Ret,
    Jmp,
    JmpIf,
    JmpIfNot,
    JmpIfEqual,
    JmpIfNotEqual,
    JmpIfGreater,
    JmpIfGreaterEqual,
    JmpIfLess,
    JmpIfLessEqual,
    JmpIfAbove,
    JmpIfAboveEqual,
    JmpIfBelow,
    JmpIfBelowEqual,
    JmpIfZero,
    JmpIfNotZero,
    JmpIfOverflow,
    JmpIfNotOverflow,
    JmpIfPositive,
    JmpIfNegative,
    Syscall,
    Break,
    Simd128Load,
    Simd128Store,
    Simd128Add,
    Simd128Sub,
    Simd128Mul,
    Simd128Div,
    Simd128And,
    Simd128Or,
    Simd128Xor,
    Simd128Not,
    Simd128Min,
    Simd128Max,
    Simd128Sqrt,
    Simd128Cmp,
    Simd128Shuffle,
    Simd128Mov,
    Simd128Const,
    Simd128ConstF32,
    Simd128ConstI16x8,
    Simd128ConstI64x2,
    Simd128ConstF64x2,
    Simd256Load,
    Simd256Store,
    Simd256Add,
    Simd256Sub,
    Simd256Mul,
    Simd256Div,
    Simd256And,
    Simd256Or,
    Simd256Xor,
    Simd256Not,
    Simd256Min,
    Simd256Max,
    Simd256Sqrt,
    Simd256Cmp,
    Simd256Shuffle,
    Simd256Mov,
    Simd256Const,
    Simd256ConstF32,
    Simd256ConstI16x16,
    Simd256ConstI64x4,
    Simd256ConstF64x4,
    FpuAdd,
    FpuSub,
    FpuMul,
    FpuDiv,
    FpuSqrt,
    FpuMin,
    FpuMax,
    FpuCmp,
    FpuMov,
    FpuRound,
    FpuConvert,
    FpuLoad,
    FpuStore,
}

impl Opcode {
    /// The jump opcodes: the unconditional jump and every conditional one.
    pub open spec fn spec_is_branch(&self) -> bool {
        match *self {
            Opcode::Jmp | Opcode::JmpIf | Opcode::JmpIfNot | Opcode::JmpIfEqual
            | Opcode::JmpIfNotEqual | Opcode::JmpIfGreater | Opcode::JmpIfGreaterEqual
            | Opcode::JmpIfLess | Opcode::JmpIfLessEqual | Opcode::JmpIfAbove
            | Opcode::JmpIfAboveEqual | Opcode::JmpIfBelow | Opcode::JmpIfBelowEqual
            | Opcode::JmpIfZero | Opcode::JmpIfNotZero | Opcode::JmpIfOverflow
            | Opcode::JmpIfNotOverflow | Opcode::JmpIfPositive | Opcode::JmpIfNegative => true,
            _ => false,
        }
    }

    /// The four loads that read memory into a register.
    pub open spec fn spec_is_load(&self) -> bool {
        match *self {
            Opcode::Load | Opcode::LoadB | Opcode::LoadW | Opcode::LoadD => true,
            _ => false,
        }
    }

    /// The four stores that write a register to memory.
    pub open spec fn spec_is_store(&self) -> bool {
        match *self {
            Opcode::Store | Opcode::StoreB | Opcode::StoreW | Opcode::StoreD => true,
            _ => false,
        }
    }

    /// Whether the opcode is a jump (conditional or not).
    #[verifier::when_used_as_spec(spec_is_branch)]
    pub fn is_branch(&self) -> (r: bool)
        ensures
            r == self.spec_is_branch(),
    {
        match self {
            Opcode::Jmp | Opcode::JmpIf | Opcode::JmpIfNot | Opcode::JmpIfEqual
            | Opcode::JmpIfNotEqual | Opcode::JmpIfGreater | Opcode::JmpIfGreaterEqual
            | Opcode::JmpIfLess | Opcode::JmpIfLessEqual | Opcode::JmpIfAbove
            | Opcode::JmpIfAboveEqual | Opcode::JmpIfBelow | Opcode::JmpIfBelowEqual
            | Opcode::JmpIfZero | Opcode::JmpIfNotZero | Opcode::JmpIfOverflow
            | Opcode::JmpIfNotOverflow | Opcode::JmpIfPositive | Opcode::JmpIfNegative => true,
            _ => false,
        }
    }

    /// Whether the opcode is one of the loads.
    #[verifier::when_used_as_spec(spec_is_load)]
    pub fn is_load(&self) -> (r: bool)
        ensures
            r == self.spec_is_load(),
    {
        match self {
            Opcode::Load | Opcode::LoadB | Opcode::LoadW | Opcode::LoadD => true,
            _ => false,
        }
    }

    /// Whether the opcode is one of the stores.
    #[verifier::when_used_as_spec(spec_is_store)]
    pub fn is_store(&self) -> (r: bool)
        ensures
            r == self.spec_is_store(),
    {
        match self {
            Opcode::Store | Opcode::StoreB | Opcode::StoreW | Opcode::StoreD => true,
            _ => false,
        }
    }
}

/// Kind of one argument slot.
#[derive(Debug, Clone, Copy, PartialEq, Eq, Structural)]
pub enum ArgType {
    Empty,
    Register,
    Immediate8,
    Immediate16,
    Immediate32,
    Immediate64,
    /// A base register and a signed 8-bit offset.
    RegisterOffset,
    /// A signed 32-bit offset from the next instruction.
    RelativeAddr,
    /// A 32-bit address.
    AbsoluteAddr,
}

/// Number of bytes an argument of this kind takes in the argument bytes.
pub open spec fn arg_size(t: ArgType) -> nat {
    match t {
        ArgType::Empty => 0,
        ArgType::Register => 1,
        ArgType::Immediate8 => 1,
        ArgType::Immediate16 => 2,
        ArgType::Immediate32 => 4,
        ArgType::Immediate64 => 8,
        ArgType::RegisterOffset => 2,
        ArgType::RelativeAddr => 4,
        ArgType::AbsoluteAddr => 4,
    }
}

fn arg_size_exec(t: ArgType) -> (r: usize)
    ensures
        r == arg_size(t),
{
    match t {
        ArgType::Empty => 0,
        ArgType::Register => 1,
        ArgType::Immediate8 => 1,
        ArgType::Immediate16 => 2,
        ArgType::Immediate32 => 4,
        ArgType::Immediate64 => 8,
        ArgType::RegisterOffset => 2,
        ArgType::RelativeAddr => 4,
        ArgType::AbsoluteAddr => 4,
    }
}

/// The kinds of the three argument slots of an instruction.
#[derive(Debug, Clone, Copy, PartialEq, Eq, Structural)]
pub struct InstructionFormat {
    pub arg1: ArgType,
    pub arg2: ArgType,
    pub arg3: ArgType,
}

impl InstructionFormat {
    /// A format from the kinds of its three slots.
    pub fn new(arg1: ArgType, arg2: ArgType, arg3: ArgType) -> (f: Self)
        ensures
            f.arg1 == arg1,
            f.arg2 == arg2,
            f.arg3 == arg3,
    {
        InstructionFormat { arg1, arg2, arg3 }
    }
}

/// Value of a decoded argument.
#[derive(Debug, Clone, Copy, PartialEq, Eq, Structural)]
pub enum ArgValue {
    Empty,
    Register(u8),
    Immediate(u64),
    /// Base register and offset.
    RegisterOffset(u8, i8),
    /// Offset from the next instruction.
    RelativeAddr(i32),
    /// Address.
    AbsoluteAddr(u32),
}

/// Reasons an argument cannot be decoded.
#[derive(Debug, Clone, Copy, PartialEq, Eq, Structural)]
pub enum ArgError {
    /// The argument bytes end before the argument does.
    Truncated,
}

/// Number of bytes before the argument bytes: the opcode, the two format
/// bytes and the length byte.
pub const HEADER_SIZE: usize = 4;

/// Little-endian value of `len` bytes of `s` starting at `start`.
pub open spec fn le_value(s: Seq<u8>, start: int, len: nat) -> nat
    decreases len,
{
    if len == 0 {
        0
    } else {
        s[start] as nat + 256 * le_value(s, start + 1, (len - 1) as nat)
    }
}

/// Decoded value of an argument of kind `t` that starts at `start` in `s`.
pub open spec fn spec_arg_value(t: ArgType, s: Seq<u8>, start: int) -> Result<ArgValue, ArgError> {
    if start + arg_size(t) > s.len() {
        Err(ArgError::Truncated)
    } else {
        match t {
            ArgType::Empty => Ok(ArgValue::Empty),
            ArgType::Register => Ok(ArgValue::Register(s[start])),
            ArgType::RegisterOffset => Ok(ArgValue::RegisterOffset(s[start], s[start + 1] as i8)),
            ArgType::RelativeAddr => Ok(ArgValue::RelativeAddr((le_value(s, start, 4) as u32) as i32)),
            ArgType::AbsoluteAddr => Ok(ArgValue::AbsoluteAddr(le_value(s, start, 4) as u32)),
            _ => Ok(ArgValue::Immediate(le_value(s, start, arg_size(t)) as u64)),
        }
    }
}

/// 256 to the power `n`.
pub open spec fn pow256(n: nat) -> nat
    decreases n,
{
    if n == 0 {
        1
    } else {
        256 * pow256((n - 1) as nat)
    }
}

/// A bytecode instruction.
#[derive(Debug)]
pub struct Instruction {
    pub opcode: Opcode,
    pub format: InstructionFormat,
    pub args: Vec<u8>,
}

impl View for Instruction {
    type V = (Opcode, InstructionFormat, Seq<u8>);

    open spec fn view(&self) -> (Opcode, InstructionFormat, Seq<u8>) {
        (self.opcode, self.format, self.args@)
    }
}

impl Clone for Instruction {
    fn clone(&self) -> (r: Self)
        ensures
            r@ == self@,
    {
        Instruction { opcode: self.opcode, format: self.format, args: self.args.clone() }
    }
}

impl Instruction {
    /// Size in bytes the instruction takes in a program.
    pub open spec fn spec_total_size(&self) -> nat {
        (HEADER_SIZE + self.args@.len()) as nat
    }

    /// An instruction from its parts.
    pub fn new(opcode: Opcode, format: InstructionFormat, args: Vec<u8>) -> (i: Self)
        ensures
            i.opcode == opcode,
            i.format == format,
            i.args@ == args@,
    {
        Instruction { opcode, format, args }
    }

    /// An instruction without arguments.
    pub fn create_no_args(opcode: Opcode) -> (i: Self)
        ensures
            i.opcode == opcode,
            i.format == (InstructionFormat { arg1: ArgType::Empty, arg2: ArgType::Empty, arg3: ArgType::Empty }),
            i.args@ == Seq::<u8>::empty(),
    {
        Instruction {
            opcode,
            format: InstructionFormat::new(ArgType::Empty, ArgType::Empty, ArgType::Empty),
            args: Vec::new(),
        }
    }

    /// An instruction with one register argument.
    pub fn create_single_reg(opcode: Opcode, r: u8) -> (i: Self)
        ensures
            i.opcode == opcode,
            i.format == (InstructionFormat { arg1: ArgType::Register, arg2: ArgType::Empty, arg3: ArgType::Empty }),
            i.args@ == seq![r],
    {
        let mut args = Vec::new();
        args.push(r);
        Instruction {
            opcode,
            format: InstructionFormat::new(ArgType::Register, ArgType::Empty, ArgType::Empty),
            args,
        }
    }

    /// An instruction with a register and an 8-bit immediate.
    pub fn create_reg_imm8(opcode: Opcode, r: u8, imm: u8) -> (i: Self)
        ensures
            i.opcode == opcode,
            i.format == (InstructionFormat { arg1: ArgType::Register, arg2: ArgType::Immediate8, arg3: ArgType::Empty }),
            i.args@ == seq![r, imm],
    {
        let mut args = Vec::new();
        args.push(r);
        args.push(imm);
        Instruction {
            opcode,
            format: InstructionFormat::new(ArgType::Register, ArgType::Immediate8, ArgType::Empty),
            args,
        }
    }

    /// An instruction with two register arguments.
    pub fn create_reg_reg(opcode: Opcode, r1: u8, r2: u8) -> (i: Self)
        ensures
            i.opcode == opcode,
            i.format == (InstructionFormat { arg1: ArgType::Register, arg2: ArgType::Register, arg3: ArgType::Empty }),
            i.args@ == seq![r1, r2],
    {
        let mut args = Vec::new();
        args.push(r1);
        args.push(r2);
        Instruction {
            opcode,
            format: InstructionFormat::new(ArgType::Register, ArgType::Register, ArgType::Empty),
            args,
        }
    }

    /// An instruction with three register arguments.
    pub fn create_reg_reg_reg(opcode: Opcode, r1: u8, r2: u8, r3: u8) -> (i: Self)
        ensures
            i.opcode == opcode,
            i.format == (InstructionFormat { arg1: ArgType::Register, arg2: ArgType::Register, arg3: ArgType::Register }),
            i.args@ == seq![r1, r2, r3],
    {
        let mut args = Vec::new();
        args.push(r1);
        args.push(r2);
        args.push(r3);
        Instruction {
            opcode,
            format: InstructionFormat::new(
                ArgType::Register,
                ArgType::Register,
                ArgType::Register,
            ),
            args,
        }
    }

    /// Size in bytes the instruction takes in a program: the header and the
    /// argument bytes.
    pub fn total_size(&self) -> (r: usize)
        requires
            self.args@.len() + HEADER_SIZE <= usize::MAX,
        ensures
            r == self.spec_total_size(),
    {
        HEADER_SIZE + self.args.len()
    }

    /// Little-endian value of the `size` argument bytes from `start`.
    fn le_at(&self, start: usize, size: usize) -> (v: u64)
        requires
            1 <= size <= 8,
            start + size <= self.args@.len(),
        ensures
            v == le_value(self.args@, start as int, size as nat),
            v < pow256(size as nat),
    {
        let mut value: u64 = 0;
        let mut k: usize = size;
        while k > 0
            invariant
                k <= size,
                1 <= size <= 8,
                start + size <= self.args.len(),
                value == le_value(self.args@, start + k, (size - k) as nat),
                value < pow256((size - k) as nat),
            decreases k,
        {
            k = k - 1;
            proof {
                assert(pow256((size - k) as nat) == 256 * pow256((size - k - 1) as nat));
                assert(pow256((size - k) as nat) <= pow256(8)) by {
                    lemma_pow256_mono((size - k) as nat, 8);
                }
                assert(pow256(8) == 0x1_0000_0000_0000_0000) by {
                    reveal_with_fuel(pow256, 9);
                }
            }
            assert(start + k < self.args@.len());
            value = (self.args[start + k] as u64) + 256 * value;
        }
        value
    }

    /// Decodes the argument of kind `t` that starts at byte `start`.
    fn arg_value_at(&self, t: ArgType, start: usize) -> (r: Result<ArgValue, ArgError>)
        ensures
            r == spec_arg_value(t, self.args@, start as int),
    {
        let size = arg_size_exec(t);
        if start > self.args.len() || size > self.args.len() - start {
            return Err(ArgError::Truncated);
        }
        match t {
            ArgType::Empty => Ok(ArgValue::Empty),
            ArgType::Register => Ok(ArgValue::Register(self.args[start])),
            ArgType::RegisterOffset => Ok(ArgValue::RegisterOffset(self.args[start], self.args[start + 1] as i8)),
            ArgType::RelativeAddr => {
                let v = self.le_at(start, 4);
                proof {
                    reveal_with_fuel(pow256, 5);
                }
                Ok(ArgValue::RelativeAddr((v as u32) as i32))
            },
            ArgType::AbsoluteAddr => {
                let v = self.le_at(start, 4);
                proof {
                    reveal_with_fuel(pow256, 5);
                }
                Ok(ArgValue::AbsoluteAddr(v as u32))
            },
            _ => Ok(ArgValue::Immediate(self.le_at(start, size))),
        }
    }

    /// First argument.
    pub fn get_arg1_value(&self) -> (r: Result<ArgValue, ArgError>)
        ensures
            r == spec_arg_value(self.format.arg1, self.args@, 0),
    {
        self.arg_value_at(self.format.arg1, 0)
    }

    /// Second argument, which follows the first.
    pub fn get_arg2_value(&self) -> (r: Result<ArgValue, ArgError>)
        ensures
            r == spec_arg_value(self.format.arg2, self.args@, arg_size(self.format.arg1) as int),
    {
        self.arg_value_at(self.format.arg2, arg_size_exec(self.format.arg1))
    }

    /// Third argument, which follows the first two.
    pub fn get_arg3_value(&self) -> (r: Result<ArgValue, ArgError>)
        ensures
            r == spec_arg_value(
                self.format.arg3,
                self.args@,
                (arg_size(self.format.arg1) + arg_size(self.format.arg2)) as int,
            ),
    {
        let start = arg_size_exec(self.format.arg1) + arg_size_exec(self.format.arg2);
        self.arg_value_at(self.format.arg3, start)
    }
}

/// Powers of 256 grow with the exponent.
pub proof fn lemma_pow256_mono(a: nat, b: nat)
    requires
        a <= b,
    ensures
        pow256(a) <= pow256(b),
    decreases b,
{
    if a < b {
        lemma_pow256_mono(a, (b - 1) as nat);
    }
}

} // verus!
