use pvm_sim::bytecode::{ArgType, Instruction, InstructionFormat, Opcode};
use pvm_sim::pipeline::execute::ExecuteStage;
use pvm_sim::pipeline::{DecodeExecuteRegister, ExecuteMemoryRegister, Pipeline, PipelineState};
use pvm_sim::pvm::branch_predictor::BranchPrediction;
use pvm_sim::pvm::memorys::{Memory, MemoryConfig};

// Stands for the execute stage: passes the decoded instruction on with `alu`.
fn executed(d: &DecodeExecuteRegister, alu: u64) -> ExecuteMemoryRegister {
    ExecuteMemoryRegister {
        instruction: d.instruction.clone(),
        alu_result: alu,
        rd: d.rd,
        store_value: None,
        mem_addr: d.mem_addr,
        branch_target: None,
        branch_taken: false,
        branch_prediction_correct: None,
        stack_operation: None,
        stack_result: None,
        ras_prediction_correct: None,
        halted: false,
    }
}

#[test]
fn pipeline_cycle_fetches_decodes_and_writes_back() {
    let program = vec![
        Instruction::create_reg_reg_reg(Opcode::Add, 2, 0, 1),
        Instruction::create_no_args(Opcode::Halt),
    ];
    let mut p = Pipeline::new(4, true, true);
    let mut memory = Memory::new(MemoryConfig::default());
    let mut registers = vec![5u64, 7, 0, 0];
    let s = p.begin_cycle(0, &registers, &program).unwrap();
    assert!(!s.stalled);
    let f = s.fetch_decode.as_ref().unwrap();
    assert_eq!(f.pc, 0);
    assert_eq!(s.next_pc, program[0].total_size() as u32);
    let d = s.decode_execute.as_ref().unwrap();
    assert_eq!((d.rs1, d.rs2, d.rd), (Some(0), Some(1), Some(2)));
    assert_eq!((d.rs1_value, d.rs2_value), (5, 7));
    let d = p.forward_for_execute(&s).unwrap();
    let m = executed(&d, d.rs1_value + d.rs2_value);
    let t = p.finish_cycle(s, Some(m), &mut memory, &mut registers).unwrap();
    assert_eq!(registers[2], 12);
    assert_eq!(t.instructions_completed, 1);
    assert!(t.memory_writeback.is_none());
    assert!(!t.halted);
    assert_eq!(p.stats().cycles, 1);
    assert_eq!(p.state.next_pc, t.next_pc);
}

#[test]
fn pipeline_halt_stops_the_cycle() {
    let program = vec![Instruction::create_no_args(Opcode::Halt)];
    let mut p = Pipeline::new(4, true, true);
    let mut memory = Memory::new(MemoryConfig::default());
    let mut registers = vec![0u64; 4];
    let s = p.begin_cycle(0, &registers, &program).unwrap();
    let d = p.forward_for_execute(&s).unwrap();
    let m = executed(&d, 0);
    let t = p.finish_cycle(s, Some(m), &mut memory, &mut registers).unwrap();
    assert!(t.halted);
    assert!(t.fetch_decode.is_none());
    assert!(t.decode_execute.is_none());
    assert!(t.execute_memory.is_none());
    assert!(t.memory_writeback.is_some());
    assert_eq!(t.instructions_completed, 0);
}

fn jump(pc: u32) -> (Vec<Instruction>, PipelineState, Pipeline) {
    let jmp = Instruction::new(
        Opcode::Jmp,
        InstructionFormat::new(ArgType::Empty, ArgType::AbsoluteAddr, ArgType::Empty),
        vec![0x40, 0, 0, 0],
    );
    let program = vec![jmp];
    let mut p = Pipeline::new(4, true, true);
    let s = p.begin_cycle(pc, &[0u64; 4], &program).unwrap();
    (program, s, p)
}

#[test]
fn pipeline_mispredicted_taken_branch_flushes() {
    let (_program, s, mut p) = jump(0);
    let d = s.decode_execute.clone().unwrap();
    assert_eq!(d.branch_prediction, Some(BranchPrediction::NotTaken));
    let mut m = executed(&d, 0);
    m.branch_taken = true;
    m.branch_target = Some(0x40);
    m.branch_prediction_correct = Some(false);
    let mut memory = Memory::new(MemoryConfig::default());
    let mut registers = vec![0u64; 4];
    let t = p.finish_cycle(s, Some(m), &mut memory, &mut registers).unwrap();
    assert_eq!(t.next_pc, 0x40);
    assert!(t.fetch_decode.is_none());
    assert!(t.decode_execute.is_none());
    assert_eq!(p.stats().branch_flush, 1);
    assert_eq!(p.stats().branch_misses, 1);
    assert_eq!(p.stats().branch_predictions, 1);
}

#[test]
fn pipeline_branch_not_taken_resumes_after_it() {
    let (program, s, mut p) = jump(0);
    let d = s.decode_execute.clone().unwrap();
    let mut m = executed(&d, 0);
    m.branch_prediction_correct = Some(true);
    let mut memory = Memory::new(MemoryConfig::default());
    let mut registers = vec![0u64; 4];
    let t = p.finish_cycle(s, Some(m), &mut memory, &mut registers).unwrap();
    assert_eq!(t.next_pc, program[0].total_size() as u32);
    assert!(t.fetch_decode.is_some());
    assert_eq!(p.stats().branch_hits, 1);
}

#[test]
fn pipeline_load_use_hazard_stalls() {
    let program = vec![Instruction::create_reg_reg_reg(Opcode::Add, 2, 1, 1)];
    let mut p = Pipeline::new(4, true, true);
    let reader = DecodeExecuteRegister {
        instruction: Instruction::create_reg_reg_reg(Opcode::Add, 3, 1, 0),
        pc: 0,
        rs1: Some(1),
        rs2: Some(0),
        rd: Some(3),
        rs1_value: 0,
        rs2_value: 0,
        immediate: None,
        branch_addr: None,
        mem_addr: None,
        branch_prediction: None,
        stack_operation: None,
        stack_value: None,
    };
    let mut load = executed(&reader, 0);
    load.instruction = Instruction::create_single_reg(Opcode::Load, 1);
    load.rd = Some(1);
    p.state.decode_execute = Some(reader);
    p.state.execute_memory = Some(load);
    let s = p.begin_cycle(8, &[0u64; 4], &program).unwrap();
    assert!(s.stalled);
    assert_eq!(s.next_pc, 8);
    assert!(s.fetch_decode.is_none());
    assert!(s.decode_execute.is_none());
    assert_eq!(p.stats().stalls, 1);
    assert_eq!(p.stats().hazards, 1);
}

#[test]
fn execute_stage_pairs_vector_operations() {
    let e = ExecuteStage::new();
    assert!(e.can_execute_simd_parallel(&Opcode::Simd128Add, Some(&Opcode::Simd128Xor)));
    assert!(e.can_execute_simd_parallel(&Opcode::Simd128Min, Some(&Opcode::Simd128Sub)));
    assert!(!e.can_execute_simd_parallel(&Opcode::Simd128Add, Some(&Opcode::Simd128Add)));
    assert!(!e.can_execute_simd_parallel(&Opcode::Simd128Max, Some(&Opcode::Simd128Div)));
    assert!(!e.can_execute_simd_parallel(&Opcode::Simd128Add, None));
}

#[test]
fn execute_stage_counts_predictions_and_resets() {
    let mut e = ExecuteStage::new();
    e.update_branch_predictor(0x10, true, BranchPrediction::Taken);
    assert_eq!(e.branch_predictions, 1);
    assert_eq!(e.branch_hits, 1);
    e.update_branch_predictor(0x10, false, BranchPrediction::Taken);
    assert_eq!(e.branch_predictions, 2);
    assert_eq!(e.branch_hits, 1);
    e.reset();
    assert_eq!(e.branch_predictions, 0);
    assert_eq!(e.branch_hits, 0);
}
