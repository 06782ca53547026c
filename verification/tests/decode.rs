use pvm_sim::bytecode::{ArgType, Instruction, InstructionFormat, Opcode};
use pvm_sim::pipeline::decode::{DecodeStage, StackOperation};
use pvm_sim::pipeline::FetchDecodeRegister;
use pvm_sim::pvm::branch_predictor::BranchPrediction;

fn fd(instruction: Instruction, pc: u32) -> FetchDecodeRegister {
    FetchDecodeRegister { instruction, pc }
}

#[test]
fn test_decode_stage_process_direct_two_reg() {
    let mut decode = DecodeStage::new();
    let registers = vec![5, 7, 0, 0, 0, 0, 0, 0];
    let de_reg = decode
        .process_direct(&fd(Instruction::create_reg_reg(Opcode::Add, 0, 1), 100), &registers)
        .unwrap();
    assert_eq!(de_reg.pc, 100);
    assert_eq!(de_reg.rs1, Some(0));
    assert_eq!(de_reg.rs2, Some(1));
    assert_eq!(de_reg.rd, Some(0));
    assert_eq!(de_reg.rs1_value, 5);
    assert_eq!(de_reg.rs2_value, 7);
    assert_eq!(de_reg.immediate, None);
    assert_eq!(de_reg.branch_addr, None);
    assert_eq!(de_reg.mem_addr, None);
    assert!(de_reg.branch_prediction.is_none());
    assert!(de_reg.stack_operation.is_none());
}

#[test]
fn test_decode_stage_process_direct_three_reg() {
    let mut decode = DecodeStage::new();
    let registers = vec![5, 7, 0, 0, 0, 0, 0, 0];
    let de_reg = decode
        .process_direct(&fd(Instruction::create_reg_reg_reg(Opcode::Add, 2, 0, 1), 100), &registers)
        .unwrap();
    assert_eq!(de_reg.pc, 100);
    assert_eq!(de_reg.rs1, Some(0));
    assert_eq!(de_reg.rs2, Some(1));
    assert_eq!(de_reg.rd, Some(2));
    assert_eq!(de_reg.rs1_value, 5);
    assert_eq!(de_reg.rs2_value, 7);
    assert_eq!(de_reg.immediate, None);
    assert_eq!(de_reg.branch_addr, None);
    assert_eq!(de_reg.mem_addr, None);
}

#[test]
fn test_decode_stage_arithmetic_and_logical_three_reg() {
    let mut decode = DecodeStage::new();
    let registers = vec![10, 20, 0, 0, 0, 0, 0, 0];
    for op in [Opcode::Add, Opcode::Sub, Opcode::Mul, Opcode::Div, Opcode::And, Opcode::Or, Opcode::Xor] {
        let de_reg = decode
            .process_direct(&fd(Instruction::create_reg_reg_reg(op, 2, 0, 1), 100), &registers)
            .unwrap();
        assert_eq!(de_reg.rd, Some(2));
        assert_eq!(de_reg.rs1, Some(0));
        assert_eq!(de_reg.rs2, Some(1));
        assert_eq!(de_reg.instruction.opcode, op);
    }
}

#[test]
fn test_decode_stage_mixed_formats() {
    let mut decode = DecodeStage::new();
    let registers = vec![5, 10, 0, 0, 0, 0, 0, 0];
    let sub = decode
        .process_direct(&fd(Instruction::create_reg_reg(Opcode::Sub, 3, 2), 108), &registers)
        .unwrap();
    assert_eq!(sub.rd, Some(3));
    assert_eq!(sub.rs1, Some(3));
    assert_eq!(sub.rs2, Some(2));
    let inc = decode
        .process_direct(&fd(Instruction::create_single_reg(Opcode::Inc, 4), 112), &registers)
        .unwrap();
    assert_eq!(inc.rd, Some(4));
    assert_eq!(inc.rs1, Some(4));
    assert_eq!(inc.rs2, None);
    let mul = decode
        .process_direct(&fd(Instruction::create_reg_imm8(Opcode::Mul, 3, 2), 116), &registers)
        .unwrap();
    assert_eq!(mul.rd, Some(3));
    assert_eq!(mul.rs1, Some(3));
    assert_eq!(mul.immediate, Some(2));
}

#[test]
fn test_decode_stage_relative_jump_target() {
    let mut decode = DecodeStage::new();
    let jmp = Instruction::new(
        Opcode::Jmp,
        InstructionFormat::new(ArgType::Empty, ArgType::RelativeAddr, ArgType::Empty),
        vec![8, 0, 0, 0],
    );
    assert_eq!(jmp.total_size(), 8);
    let de_reg = decode.process_direct(&fd(jmp, 100), &[0u64; 4]).unwrap();
    // 100 + 8 bytes of instruction + 8
    assert_eq!(de_reg.branch_addr, Some(116));
    // a new branch starts weakly not taken
    assert_eq!(de_reg.branch_prediction, Some(BranchPrediction::NotTaken));
    assert_eq!(decode.branch_predictor.metrics.predictions_made, 1);
}

#[test]
fn test_decode_stage_backward_jump_and_absolute_jump() {
    let mut decode = DecodeStage::new();
    let back = Instruction::new(
        Opcode::JmpIfZero,
        InstructionFormat::new(ArgType::Empty, ArgType::RelativeAddr, ArgType::Empty),
        (-20i32).to_le_bytes().to_vec(),
    );
    let de_reg = decode.process_direct(&fd(back, 100), &[]).unwrap();
    assert_eq!(de_reg.branch_addr, Some(88));
    let abs = Instruction::new(
        Opcode::Jmp,
        InstructionFormat::new(ArgType::Empty, ArgType::AbsoluteAddr, ArgType::Empty),
        vec![0, 16, 0, 0],
    );
    let de_reg = decode.process_direct(&fd(abs, 100), &[]).unwrap();
    assert_eq!(de_reg.branch_addr, Some(0x1000));
}

#[test]
fn test_decode_stage_jump_without_target_is_refused() {
    let mut decode = DecodeStage::new();
    let jmp = Instruction::new(
        Opcode::Jmp,
        InstructionFormat::new(ArgType::Empty, ArgType::Immediate32, ArgType::Empty),
        vec![8, 0, 0, 0],
    );
    let err = decode.process_direct(&fd(jmp, 100), &[]).unwrap_err();
    assert_eq!(err, "Format d'adresse de branchement invalide");
    assert_eq!(decode.branch_predictor.metrics.predictions_made, 0);
}

#[test]
fn test_decode_stage_memory_addresses() {
    let mut decode = DecodeStage::new();
    let mut registers = vec![0u64; 16];
    registers[1] = 100;
    let load = Instruction::new(
        Opcode::Load,
        InstructionFormat::new(ArgType::Register, ArgType::RegisterOffset, ArgType::Empty),
        vec![0, 1, 4],
    );
    let de_reg = decode.process_direct(&fd(load, 0), &registers).unwrap();
    assert_eq!(de_reg.mem_addr, Some(104));
    assert_eq!(de_reg.rd, Some(0));
    assert_eq!(de_reg.rs1, Some(1));
    assert_eq!(de_reg.rs1_value, 100);

    let load_back = Instruction::new(
        Opcode::LoadB,
        InstructionFormat::new(ArgType::Register, ArgType::RegisterOffset, ArgType::Empty),
        vec![0, 1, (-4i8) as u8],
    );
    let de_reg = decode.process_direct(&fd(load_back, 0), &registers).unwrap();
    assert_eq!(de_reg.mem_addr, Some(96));

    let store = Instruction::new(
        Opcode::Store,
        InstructionFormat::new(ArgType::Register, ArgType::AbsoluteAddr, ArgType::Empty),
        vec![2, 0, 0x20, 0, 0],
    );
    let de_reg = decode.process_direct(&fd(store, 0), &registers).unwrap();
    assert_eq!(de_reg.mem_addr, Some(0x2000));
    assert_eq!(de_reg.rs1, Some(2));
    assert_eq!(de_reg.rs2, None);
}

#[test]
fn test_decode_stage_memory_address_errors() {
    let mut decode = DecodeStage::new();
    let registers = vec![0u64; 4];
    let far = Instruction::new(
        Opcode::Load,
        InstructionFormat::new(ArgType::Register, ArgType::RegisterOffset, ArgType::Empty),
        vec![0, 9, 4],
    );
    let err = decode.process_direct(&fd(far, 0), &registers).unwrap_err();
    assert!(err.starts_with("Register R"));
    assert!(err.contains("R9"));
    let no_addr = Instruction::new(
        Opcode::Store,
        InstructionFormat::new(ArgType::Register, ArgType::Immediate8, ArgType::Empty),
        vec![0, 9],
    );
    let err = decode.process_direct(&fd(no_addr, 0), &registers).unwrap_err();
    assert_eq!(err, "Adresse mémoire invalide");
}

#[test]
fn test_decode_stage_unsupported_opcode() {
    let mut decode = DecodeStage::new();
    let err = decode
        .process_direct(&fd(Instruction::create_no_args(Opcode::Nop), 0), &[])
        .unwrap_err();
    assert!(err.starts_with("Instruction non prise en charge"));
    assert!(err.contains("Nop"));
}

#[test]
fn test_decode_stage_stack_operations() {
    let mut decode = DecodeStage::new();
    let registers = vec![0, 42, 0, 0];
    let push_reg = decode
        .process_direct(&fd(Instruction::create_single_reg(Opcode::Push, 1), 0), &registers)
        .unwrap();
    assert_eq!(push_reg.stack_operation, Some(StackOperation::Push));
    assert_eq!(push_reg.stack_value, Some(42));
    let pop = decode
        .process_direct(&fd(Instruction::create_single_reg(Opcode::Pop, 2), 0), &registers)
        .unwrap();
    assert_eq!(pop.stack_operation, Some(StackOperation::Pop));
    assert_eq!(pop.stack_value, None);
    assert_eq!(pop.rd, Some(2));
}

#[test]
fn test_decode_stage_call_then_ret_uses_ras() {
    let mut decode = DecodeStage::new();
    let call = Instruction::new(
        Opcode::Call,
        InstructionFormat::new(ArgType::Empty, ArgType::AbsoluteAddr, ArgType::Empty),
        vec![0, 2, 0, 0],
    );
    let call_reg = decode.process_direct(&fd(call, 0x100), &[]).unwrap();
    assert_eq!(call_reg.stack_operation, Some(StackOperation::Push));
    assert_eq!(call_reg.stack_value, Some(0x108));
    assert_eq!(decode.ras.depth(), 1);
    let ret_reg = decode
        .process_direct(&fd(Instruction::create_no_args(Opcode::Ret), 0x200), &[])
        .unwrap();
    assert_eq!(ret_reg.branch_addr, Some(0x108));
    assert_eq!(ret_reg.stack_operation, Some(StackOperation::Pop));
    assert_eq!(decode.update_ras_for_ret(), Some(0x108));
    assert_eq!(decode.update_ras_for_ret(), None);
}

#[test]
fn test_decode_stage_ras_updates_and_reset() {
    let mut decode = DecodeStage::new();
    decode.update_ras_for_call(0x40, 6);
    decode.update_ras_for_call(0x80, 6);
    assert_eq!(decode.ras.depth(), 2);
    assert_eq!(decode.update_ras_for_ret(), Some(0x86));
    decode.reset();
    assert_eq!(decode.ras.depth(), 0);
    let ret_reg = decode
        .process_direct(&fd(Instruction::create_no_args(Opcode::Ret), 0x200), &[])
        .unwrap();
    assert_eq!(ret_reg.branch_addr, None);
}
