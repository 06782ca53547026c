use pvm_sim::bytecode::{Instruction, Opcode};
use pvm_sim::pipeline::forward::{ForwardingSource, ForwardingUnit};
use pvm_sim::pipeline::hazard::{HazardDetectionUnit, HazardResult};
use pvm_sim::pipeline::parallel::{DependencyAnalyzer, DependencyType};
use pvm_sim::pipeline::ras::ReturnAddressStack;
use pvm_sim::pipeline::{
    DecodeExecuteRegister, ExecuteMemoryRegister, MemoryWritebackRegister, PipelineState,
};

fn de(op: Opcode, rs1: Option<usize>, rs2: Option<usize>, rd: Option<usize>) -> DecodeExecuteRegister {
    DecodeExecuteRegister {
        instruction: Instruction::create_no_args(op),
        pc: 0,
        rs1,
        rs2,
        rd,
        rs1_value: 0,
        rs2_value: 0,
        immediate: None,
        branch_addr: None,
        mem_addr: None,
        branch_prediction: None,
        stack_operation: None,
        stack_value: None,
    }
}

fn em(op: Opcode, rd: Option<usize>, alu: u64) -> ExecuteMemoryRegister {
    ExecuteMemoryRegister {
        instruction: Instruction::create_no_args(op),
        alu_result: alu,
        rd,
        store_value: None,
        mem_addr: None,
        branch_target: None,
        branch_taken: false,
        branch_prediction_correct: None,
        stack_operation: None,
        stack_result: None,
        ras_prediction_correct: None,
        halted: false,
    }
}

fn mw(rd: Option<usize>, result: u64) -> MemoryWritebackRegister {
    MemoryWritebackRegister { instruction: Instruction::create_no_args(Opcode::Add), result, rd }
}

#[test]
fn ras_push_pop_predict() {
    let mut ras = ReturnAddressStack::new(2);
    assert_eq!(ras.predict(), None);
    ras.push(0x10);
    ras.push(0x20);
    assert_eq!(ras.predict(), Some(0x20));
    ras.push(0x30);
    assert_eq!(ras.depth(), 2);
    assert_eq!(ras.pop(), Some(0x30));
    assert_eq!(ras.pop(), Some(0x20));
    assert_eq!(ras.pop(), None);
    assert_eq!(ras.pushes(), 3);
    assert_eq!(ras.pops(), 3);
    ras.update_prediction(Some(4), 4);
    ras.update_prediction(Some(4), 5);
    ras.update_prediction(None, 5);
    assert_eq!(ras.hits(), 1);
    assert_eq!(ras.misses(), 2);
    ras.reset();
    assert_eq!(ras.depth(), 0);
    assert_eq!(ras.pushes(), 0);
    assert_eq!(ras.max_size(), 2);
}

#[test]
fn forwarding_prefers_execute_latch() {
    let mut fu = ForwardingUnit::new();
    let mut d = de(Opcode::Add, Some(1), Some(2), Some(3));
    let ex = Some(em(Opcode::Add, Some(1), 111));
    let wb = Some(mw(Some(1), 222));
    let info = fu.forward_with_info(&mut d, &ex, &wb);
    assert_eq!(info.len(), 1);
    assert_eq!(info[0].source, ForwardingSource::ExecuteMemory);
    assert_eq!(d.rs1_value, 111);
    assert_eq!(fu.get_forwards_count(), 1);
}

#[test]
fn forwarding_from_writeback_and_not_from_a_load() {
    let mut fu = ForwardingUnit::new();
    let mut d = de(Opcode::Add, Some(1), Some(2), Some(3));
    let ex = Some(em(Opcode::Load, Some(1), 111));
    let wb = Some(mw(Some(2), 222));
    let info = fu.forward_with_info(&mut d, &ex, &wb);
    assert_eq!(info.len(), 1);
    assert_eq!(info[0].source, ForwardingSource::Writeback);
    assert_eq!(info[0].register, 2);
    assert_eq!(d.rs1_value, 0);
    assert_eq!(d.rs2_value, 222);
    fu.reset();
    assert_eq!(fu.get_forwards_count(), 0);
}

#[test]
fn forwarding_same_register_twice_serves_both_operands() {
    let mut fu = ForwardingUnit::new();
    let mut d = de(Opcode::Add, Some(4), Some(4), Some(5));
    let ex = Some(em(Opcode::Add, Some(4), 9));
    fu.forward(&mut d, &ex, &None);
    assert_eq!(d.rs1_value, 9);
    assert_eq!(d.rs2_value, 9);
    assert_eq!(fu.forwards_count, 2);
}

#[test]
fn forwarding_same_register_twice_from_writeback() {
    let mut fu = ForwardingUnit::new();
    let mut d = de(Opcode::Add, Some(4), Some(4), Some(5));
    let wb = Some(MemoryWritebackRegister { instruction: Instruction::create_no_args(Opcode::Add), result: 11, rd: Some(4) });
    let info = fu.forward_with_info(&mut d, &None, &wb);
    assert_eq!(d.rs1_value, 11);
    assert_eq!(d.rs2_value, 11);
    assert_eq!(info.len(), 2);
}

fn state(d: Option<DecodeExecuteRegister>, e: Option<ExecuteMemoryRegister>, m: Option<MemoryWritebackRegister>) -> PipelineState {
    let mut s = PipelineState::default();
    s.decode_execute = d;
    s.execute_memory = e;
    s.memory_writeback = m;
    s
}

#[test]
fn hazard_load_use_then_forwardable() {
    let mut h = HazardDetectionUnit::new();
    let s = state(Some(de(Opcode::Add, Some(1), None, Some(2))), Some(em(Opcode::Load, Some(1), 0)), None);
    assert_eq!(h.detect_hazards_with_type(&s), HazardResult::LoadUse);
    assert_eq!(h.get_hazards_count(), 1);
    let s2 = state(Some(de(Opcode::Add, Some(1), None, Some(2))), Some(em(Opcode::Add, Some(1), 0)), None);
    assert_eq!(h.detect_hazards_with_type(&s2), HazardResult::NoHazard);
    assert_eq!(h.get_data_dependencies_count(), 1);
    assert_eq!(h.get_potential_forwards_count(), 1);
    assert!(!h.detect_hazards(&state(None, None, None)));
}

#[test]
fn hazard_branch_stalls_once() {
    let mut h = HazardDetectionUnit::new();
    let s = state(None, Some(em(Opcode::Jmp, None, 0)), None);
    assert_eq!(h.detect_hazards_with_type(&s), HazardResult::ControlHazard);
    assert_eq!(h.detect_hazards_with_type(&s), HazardResult::NoHazard);
    let s2 = state(None, Some(em(Opcode::Add, None, 0)), None);
    assert_eq!(h.detect_hazards_with_type(&s2), HazardResult::NoHazard);
    assert_eq!(h.detect_hazards_with_type(&s), HazardResult::ControlHazard);
    assert_eq!(h.hazards_count, 2);
    h.reset();
    assert_eq!(h.hazards_count, 0);
}

#[test]
fn hazard_structural_and_store_load() {
    let mut h = HazardDetectionUnit::new();
    let mut st = em(Opcode::Store, None, 0);
    st.mem_addr = Some(0x40);
    let mut ld = de(Opcode::Load, None, None, Some(1));
    ld.mem_addr = Some(0x40);
    let mut load_wb = mw(None, 0);
    load_wb.instruction = Instruction::create_no_args(Opcode::LoadB);
    let s = state(Some(ld.clone()), Some(st.clone()), Some(load_wb));
    assert_eq!(h.detect_hazards_with_type(&s), HazardResult::StructuralHazard);
    let s2 = state(Some(ld), Some(st), None);
    assert_eq!(h.detect_hazards_with_type(&s2), HazardResult::StoreLoad);
}

#[test]
fn dependency_analyzer_raw_and_waw() {
    let mut a = DependencyAnalyzer::new();
    let d1 = a.analyze_instruction(&de(Opcode::Add, Some(1), Some(2), Some(3)));
    assert!(d1.is_empty());
    let d2 = a.analyze_instruction(&de(Opcode::Add, Some(3), None, Some(3)));
    assert_eq!(d2.len(), 2);
    assert_eq!(d2[0].dep_type, DependencyType::RAW);
    assert_eq!(d2[0].register, 3);
    assert_eq!(d2[0].producer_age, 0);
    assert_eq!(d2[1].dep_type, DependencyType::WAW);
    let d3 = a.analyze_instruction(&de(Opcode::Add, Some(3), None, None));
    assert_eq!(d3[0].producer_age, 1);
    a.reset();
    let d4 = a.analyze_instruction(&de(Opcode::Add, Some(3), None, None));
    assert!(d4.is_empty());
}
