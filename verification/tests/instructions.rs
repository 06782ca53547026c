use pvm_sim::pvm::instructions::{
    Address, ArithmeticOp, ControlOp, DecodedInstruction, Instruction, InstructionDecoder, MemoryOp,
    RegisterId,
};
use pvm_sim::pvm::registers::RegisterBank;


// Helper pour créer une banque de registres avec des valeurs prédéfinies
fn setup_test_registers() -> RegisterBank {
    let mut registers = RegisterBank::new(8).unwrap();
    registers.write_register(RegisterId(0), 0).unwrap();  // R0 = 0
    registers.write_register(RegisterId(1), 42).unwrap(); // R1 = 42
    registers.write_register(RegisterId(2), -1).unwrap(); // R2 = -1
    registers
}

#[test]
fn test_branch_is_taken() {
    let registers = setup_test_registers();

    // Test Jump inconditionnel
    let jump = DecodedInstruction::Control(
        ControlOp::Jump { addr: Address(0x1000) }
    );
    assert!(jump.is_taken(&registers), "Jump devrait toujours être pris");

    // Test Call inconditionnel
    let call = DecodedInstruction::Control(
        ControlOp::Call { addr: Address(0x2000) }
    );
    assert!(call.is_taken(&registers), "Call devrait toujours être pris");

    // Test JumpIf avec condition fausse (R0 = 0)
    let jump_if_false = DecodedInstruction::Control(
        ControlOp::JumpIf { condition: RegisterId(0), addr: Address(0x3000) }
    );
    assert!(!jump_if_false.is_taken(&registers), "JumpIf avec R0=0 ne devrait pas être pris");

    // Test JumpIf avec condition vraie (R1 = 42)
    let jump_if_true = DecodedInstruction::Control(
        ControlOp::JumpIf { condition: RegisterId(1), addr: Address(0x4000) }
    );
    assert!(jump_if_true.is_taken(&registers), "JumpIf avec R1=42 devrait être pris");

    // Test JumpIf avec condition vraie négative (R2 = -1)
    let jump_if_negative = DecodedInstruction::Control(
        ControlOp::JumpIf { condition: RegisterId(2), addr: Address(0x5000) }
    );
    assert!(jump_if_negative.is_taken(&registers), "JumpIf avec R2=-1 devrait être pris");
}

#[test]
fn test_get_target_address() {
    // Test Jump
    let jump = DecodedInstruction::Control(
        ControlOp::Jump { addr: Address(0x1000) }
    );
    assert_eq!(jump.get_target_address(), 0x1000, "Mauvaise adresse cible pour Jump");

    // Test JumpIf
    let jump_if = DecodedInstruction::Control(
        ControlOp::JumpIf { condition: RegisterId(0), addr: Address(0x2000) }
    );
    assert_eq!(jump_if.get_target_address(), 0x2000, "Mauvaise adresse cible pour JumpIf");

    // Test Call
    let call = DecodedInstruction::Control(
        ControlOp::Call { addr: Address(0x3000) }
    );
    assert_eq!(call.get_target_address(), 0x3000, "Mauvaise adresse cible pour Call");

    // Test instruction non-branchement
    let add = DecodedInstruction::Arithmetic(
        ArithmeticOp::Add {
            dest: RegisterId(0),
            src1: RegisterId(1),
            src2: RegisterId(2)
        }
    );
    assert_eq!(add.get_target_address(), 0, "Instruction non-branchement devrait retourner 0");
}

#[test]
fn test_instruction_branch_combinations() {
    let registers = setup_test_registers();

    // Test cas complexes avec différentes combinaisons
    let test_cases = vec![
        (DecodedInstruction::Control(ControlOp::Jump { addr: Address(0x1000) }), true, 0x1000),
        (DecodedInstruction::Control(ControlOp::JumpIf { condition: RegisterId(0), addr: Address(0x2000) }), false, 0x2000),
        (DecodedInstruction::Control(ControlOp::JumpIf { condition: RegisterId(1), addr: Address(0x3000) }), true, 0x3000),
        (DecodedInstruction::Control(ControlOp::Call { addr: Address(0x4000) }), true, 0x4000),
        (DecodedInstruction::Control(ControlOp::Return), false, 0),
        (DecodedInstruction::Control(ControlOp::Nop), false, 0),
    ];

    for (instruction, should_be_taken, expected_addr) in test_cases {
        assert_eq!(
            instruction.is_taken(&registers),
            should_be_taken,
            "Mauvaise prédiction pour {:?}", instruction
        );
        assert_eq!(
            instruction.get_target_address(),
            expected_addr,
            "Mauvaise adresse cible pour {:?}", instruction
        );
    }
}

#[test]
fn test_instruction_conversion() {
    let original = Instruction::Add(RegisterId(0), RegisterId(1), RegisterId(2));
    let original_clone = original.clone(); // Clone l'instruction originale
    let decoded: DecodedInstruction = original.into();
    let back: Instruction = decoded.into();
    assert_eq!(original_clone, back);
}

#[test]
fn register_bank_refuses_out_of_range() {
    let mut bank = RegisterBank::new(2).unwrap();
    assert!(bank.write_register(RegisterId(2), 5).is_err());
    assert!(bank.read_register(RegisterId(2)).is_err());
    bank.write_register(RegisterId(1), -7).unwrap();
    assert_eq!(bank.read_register(RegisterId(1)).unwrap(), -7);
    let jump_if = DecodedInstruction::Control(ControlOp::JumpIf { condition: RegisterId(9), addr: Address(4) });
    assert!(!jump_if.is_taken(&bank));
}

#[test]
fn decoder_matches_conversion() {
    let d = InstructionDecoder::new();
    let i = Instruction::LoadImm(RegisterId(3), -2);
    assert_eq!(
        d.decode(i.clone()).unwrap(),
        DecodedInstruction::Memory(MemoryOp::LoadImm { reg: RegisterId(3), value: -2 })
    );
    assert!(Instruction::Call(Address(8)).is_branch());
    assert!(!Instruction::Return.is_branch());
    assert_eq!(Instruction::JumpIf(RegisterId(0), Address(9)).get_target_address(), 9);
    let back: Instruction = DecodedInstruction::from(i.clone()).into();
    assert_eq!(back, i);
}
