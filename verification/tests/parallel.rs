use pvm_sim::bytecode::{Instruction, Opcode};
use pvm_sim::pipeline::parallel::{
    DependencyAnalyzer, DependencyType, ExecutionUnit, InstructionPriority, ParallelExecutionEngine,
    RegisterDependency,
};
use pvm_sim::pipeline::DecodeExecuteRegister;

fn de(instruction: Instruction, rs1: Option<usize>, rs2: Option<usize>, rd: Option<usize>) -> DecodeExecuteRegister {
    DecodeExecuteRegister {
        instruction,
        pc: 0,
        rs1,
        rs2,
        rd,
        rs1_value: 0,
        rs2_value: 0,
        immediate: None,
        branch_addr: None,
        mem_addr: None,
        branch_prediction: None,
        stack_operation: None,
        stack_value: None,
    }
}

fn enqueue(engine: &mut ParallelExecutionEngine, d: DecodeExecuteRegister) {
    let (unit, priority) = ParallelExecutionEngine::analyze_instruction(&d);
    assert!(engine.enqueue_instruction(d, unit, priority).is_ok());
}

#[test]
fn test_parallel_analyze_instruction_units() {
    let cases = [
        (Opcode::Load, ExecutionUnit::AGU, InstructionPriority::High),
        (Opcode::StoreW, ExecutionUnit::AGU, InstructionPriority::High),
        (Opcode::Simd256Load, ExecutionUnit::AGU, InstructionPriority::High),
        (Opcode::Add, ExecutionUnit::ALU, InstructionPriority::Medium),
        (Opcode::Test, ExecutionUnit::ALU, InstructionPriority::Medium),
        (Opcode::Simd128Xor, ExecutionUnit::SIMD, InstructionPriority::Medium),
        (Opcode::Jmp, ExecutionUnit::Branch, InstructionPriority::High),
        (Opcode::JmpIfNotZero, ExecutionUnit::Branch, InstructionPriority::High),
        (Opcode::JmpIfAbove, ExecutionUnit::ALU, InstructionPriority::Low),
        (Opcode::Call, ExecutionUnit::AGU, InstructionPriority::Medium),
        (Opcode::Nop, ExecutionUnit::ALU, InstructionPriority::Low),
    ];
    for (op, unit, priority) in cases {
        let d = de(Instruction::create_no_args(op), None, None, None);
        assert_eq!(ParallelExecutionEngine::analyze_instruction(&d), (unit, priority));
    }
}

#[test]
fn test_parallel_alu_and_agu_issue_together() {
    let mut engine = ParallelExecutionEngine::new();
    enqueue(&mut engine, de(Instruction::create_reg_reg_reg(Opcode::Add, 2, 0, 1), Some(0), Some(1), Some(2)));
    enqueue(&mut engine, de(Instruction::create_single_reg(Opcode::Load, 3), None, None, Some(3)));
    assert_eq!(engine.get_stats().total_instructions, 2);
    engine.update_ready_status();
    let first = engine.execute_ready_instructions();
    assert!(first.is_empty());
    assert_eq!(engine.get_stats().parallel_executions, 1);
    engine.advance_cycle();
    let done = engine.execute_ready_instructions();
    assert_eq!(done.len(), 2);
    assert_eq!(done[0].instruction.opcode, Opcode::Add);
    assert_eq!(done[0].rd, Some(2));
    assert_eq!(done[0].alu_result, 0);
    assert_eq!(done[1].instruction.opcode, Opcode::Load);
    assert_eq!(engine.get_stats().alu_instructions, 1);
    assert_eq!(engine.get_stats().agu_instructions, 1);
    assert_eq!(engine.get_stats().parallel_executions, 1);
}

#[test]
fn test_parallel_dependency_keeps_packet_waiting() {
    let mut engine = ParallelExecutionEngine::new();
    enqueue(&mut engine, de(Instruction::create_reg_reg_reg(Opcode::Add, 2, 0, 1), Some(0), Some(1), Some(2)));
    enqueue(&mut engine, de(Instruction::create_reg_reg_reg(Opcode::Sub, 4, 2, 3), Some(2), Some(3), Some(4)));
    engine.update_ready_status();
    assert!(engine.execute_ready_instructions().is_empty());
    engine.advance_cycle();
    let done = engine.execute_ready_instructions();
    assert_eq!(done.len(), 1);
    assert_eq!(done[0].instruction.opcode, Opcode::Add);
    engine.advance_cycle();
    // the subtraction reads R2 after the addition wrote it: it never becomes ready
    engine.update_ready_status();
    assert!(engine.execute_ready_instructions().is_empty());
    engine.advance_cycle();
    assert!(engine.execute_ready_instructions().is_empty());
    assert_eq!(engine.get_stats().alu_instructions, 1);
    assert_eq!(engine.get_stats().parallel_executions, 0);
}

#[test]
fn test_parallel_highest_priority_issues_first() {
    let mut engine = ParallelExecutionEngine::new();
    enqueue(&mut engine, de(Instruction::create_no_args(Opcode::Nop), None, None, None));
    enqueue(&mut engine, de(Instruction::create_reg_reg(Opcode::Mul, 5, 6), Some(5), Some(6), Some(5)));
    enqueue(&mut engine, de(Instruction::create_no_args(Opcode::Jmp), None, None, None));
    engine.update_ready_status();
    let order: Vec<Opcode> = (0..3)
        .flat_map(|_| {
            engine.execute_ready_instructions();
            engine.advance_cycle();
            engine.execute_ready_instructions().into_iter().map(|r| r.instruction.opcode).collect::<Vec<_>>()
        })
        .collect();
    assert_eq!(order, vec![Opcode::Jmp, Opcode::Mul, Opcode::Nop]);
}

#[test]
fn test_parallel_busy_unit_waits_for_next_cycle() {
    let mut engine = ParallelExecutionEngine::new();
    enqueue(&mut engine, de(Instruction::create_reg_reg(Opcode::Add, 1, 2), Some(1), Some(2), Some(1)));
    enqueue(&mut engine, de(Instruction::create_reg_reg(Opcode::Or, 3, 4), Some(3), Some(4), Some(3)));
    engine.update_ready_status();
    engine.execute_ready_instructions();
    // same cycle: the ALU is still busy
    assert!(engine.execute_ready_instructions().is_empty());
    engine.advance_cycle();
    let done = engine.execute_ready_instructions();
    assert_eq!(done.len(), 1);
    engine.advance_cycle();
    let done = engine.execute_ready_instructions();
    assert_eq!(done.len(), 1);
    assert_eq!(done[0].instruction.opcode, Opcode::Or);
    assert_eq!(engine.get_stats().alu_instructions, 2);
}

#[test]
fn test_parallel_reset() {
    let mut engine = ParallelExecutionEngine::new();
    enqueue(&mut engine, de(Instruction::create_reg_reg(Opcode::Add, 1, 2), Some(1), Some(2), Some(1)));
    engine.update_ready_status();
    engine.execute_ready_instructions();
    engine.reset();
    assert_eq!(engine.get_stats().total_instructions, 0);
    engine.advance_cycle();
    assert!(engine.execute_ready_instructions().is_empty());
}

#[test]
fn dependency_ages_name_the_last_writers() {
    let mut a = DependencyAnalyzer::new();
    let add = Instruction::create_reg_reg_reg(Opcode::Add, 2, 0, 1);
    a.analyze_instruction(&de(add.clone(), Some(0), Some(1), Some(2)));
    a.analyze_instruction(&de(add.clone(), Some(0), Some(1), Some(3)));
    a.analyze_instruction(&de(add.clone(), Some(3), Some(0), Some(2)));
    let deps = a.analyze_instruction(&de(add.clone(), Some(2), Some(3), Some(2)));
    assert_eq!(
        deps,
        vec![
            RegisterDependency { register: 2, dep_type: DependencyType::RAW, producer_age: 2 },
            RegisterDependency { register: 3, dep_type: DependencyType::RAW, producer_age: 1 },
            RegisterDependency { register: 2, dep_type: DependencyType::WAW, producer_age: 2 },
        ]
    );
    a.reset();
    assert!(a.analyze_instruction(&de(add, Some(2), None, None)).is_empty());
}
