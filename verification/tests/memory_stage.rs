use pvm_sim::bytecode::{Instruction, Opcode};
use pvm_sim::pipeline::memory::MemoryStage;
use pvm_sim::pipeline::ExecuteMemoryRegister;
use pvm_sim::pvm::memorys::{Memory, MemoryConfig};


#[test]
fn test_memory_stage_creation() {
    let memory_stage = MemoryStage::new_for_test();
    assert_eq!(memory_stage.stack_pointer, 0x1000);
}

#[test]
fn test_memory_stage_reset() {
    let mut memory_stage = MemoryStage::new_for_test();
    memory_stage.stack_pointer = 0x2000;
    memory_stage.reset();
    assert_eq!(memory_stage.stack_pointer, 0xFFFF0000);
}

#[test]
fn test_memory_load_with_three_register_format() {
    let mut memory_stage = MemoryStage::new_for_test();
    let mut memory = Memory::new(MemoryConfig::default());

    // Écrire une valeur à l'adresse 0x2000
    let _ = memory.write_qword(0x2000, 0x0123456789ABCDEF);

    // Créer une instruction LOAD R2, [R0+R1] (format à trois registres)
    let load_instruction = Instruction::create_reg_reg_reg(
        Opcode::Load,
        2,  // Rd  (destination)
        0,  // Rs1 (base)
        1   // Rs2 (offset)
    );

    // Dans l'étage Execute, les adresses sont calculées et transmises à l'étage Memory
    let em_reg = ExecuteMemoryRegister {
        instruction: load_instruction,
        alu_result: 0,  // Non utilisé pour LOAD
        rd: Some(2),    // Registre destination R2
        store_value: None,
        mem_addr: Some(0x2000),  // Adresse calculée (R0+R1)
        branch_target: None,
        branch_taken: false,
        branch_prediction_correct: None,
        stack_operation: None,
        stack_result: None,
        ras_prediction_correct: None,
        halted: false,
    };

    // Exécuter l'instruction dans l'étage Memory
    let result = memory_stage.process_direct(&em_reg, &mut memory);
    assert!(result.is_ok());

    // Vérifier le résultat
    let mw_reg = result.unwrap();
    assert_eq!(mw_reg.result, 0x0123456789ABCDEF);  // Valeur chargée depuis la mémoire
    assert_eq!(mw_reg.rd, Some(2));  // Destination R2
}

#[test]
fn test_memory_store_with_three_register_format() {
    let mut memory_stage = MemoryStage::new_for_test();
    let mut memory = Memory::new(MemoryConfig::default());

    // Créer une instruction STORE R0, [R1+R2] (format à trois registres)
    let store_instruction = Instruction::create_reg_reg_reg(
        Opcode::Store,
        0,  // Rs (source de la valeur)
        1,  // Rd (base de l'adresse)
        2   // Rt (offset de l'adresse)
    );

    // Dans l'étage Execute, les adresses sont calculées et la valeur à stocker est préparée
    let em_reg = ExecuteMemoryRegister {
        instruction: store_instruction,
        alu_result: 0,  // Non utilisé pour STORE
        rd: None,  // Pas de registre destination pour STORE
        store_value: Some(0xFEDCBA9876543210),  // Valeur de R0 à stocker
        mem_addr: Some(0x3000),  // Adresse calculée (R1+R2)
        branch_target: None,
        branch_taken: false,
        branch_prediction_correct: None,
        stack_operation: None,
        stack_result: None,
        ras_prediction_correct: None,
        halted: false,
    };

    // Exécuter l'instruction dans l'étage Memory
    let result = memory_stage.process_direct(&em_reg, &mut memory);
    assert!(result.is_ok());

    // Vérifier que la valeur a été correctement stockée
    let loaded_value = memory.read_qword(0x3000);
    assert!(loaded_value.is_ok());
    assert_eq!(loaded_value.unwrap(), 0xFEDCBA9876543210);
}

#[test]
fn test_memory_load_store_sequence_with_three_register_format() {
    let mut memory_stage = MemoryStage::new_for_test();
    let mut memory = Memory::new(MemoryConfig::default());

    // Simuler une séquence d'instructions:
    // 1. STORE R0, [R1+R2] - Stocker une valeur à l'adresse calculée
    // 2. LOAD R3, [R1+R2]  - Charger la même valeur dans un autre registre

    // Étape 1: STORE R0, [R1+R2]
    let store_instruction = Instruction::create_reg_reg_reg(Opcode::Store, 0, 1, 2);

    let em_reg_store = ExecuteMemoryRegister {
        instruction: store_instruction,
        alu_result: 0,
        rd: None,
        store_value: Some(0xAABBCCDDEEFF0011),
        mem_addr: Some(0x4000),  // Adresse calculée (R1+R2)
        branch_target: None,
        branch_taken: false,
        branch_prediction_correct: None,
        stack_operation: None,
        stack_result: None,
        ras_prediction_correct: None,
        halted: false,
    };

    // Exécuter STORE
    let result_store = memory_stage.process_direct(&em_reg_store, &mut memory);
    assert!(result_store.is_ok());

    // Étape 2: LOAD R3, [R1+R2]
    let load_instruction = Instruction::create_reg_reg_reg(Opcode::Load, 3, 1, 2);

    let em_reg_load = ExecuteMemoryRegister {
        instruction: load_instruction,
        alu_result: 0,
        rd: Some(3),
        store_value: None,
        mem_addr: Some(0x4000),  // Même adresse (R1+R2)
        branch_target: None,
        branch_taken: false,
        branch_prediction_correct: None,
        stack_operation: None,
        stack_result: None,
        ras_prediction_correct: None,
        halted: false,
    };

    // Exécuter LOAD
    let result_load = memory_stage.process_direct(&em_reg_load, &mut memory);
    assert!(result_load.is_ok());

    // Vérifier que la valeur chargée correspond à celle stockée
    let mw_reg_load = result_load.unwrap();
    assert_eq!(mw_reg_load.result, 0xAABBCCDDEEFF0011);
    assert_eq!(mw_reg_load.rd, Some(3));
}

#[test]
fn test_memory_different_sizes_with_three_register_format() {
    let mut memory_stage = MemoryStage::new_for_test();
    let mut memory = Memory::new(MemoryConfig::default());

    // Écrire des valeurs de différentes tailles
    let _ = memory.write_byte(0x5000, 0xAB);
    let _ = memory.write_word(0x5100, 0xCDEF);
    let _ = memory.write_dword(0x5200, 0x01234567);

    // Tester LoadB avec format à trois registres
    let loadb_instruction = Instruction::create_reg_reg_reg(Opcode::LoadB, 3, 0, 1);

    let em_reg_loadb = ExecuteMemoryRegister {
        instruction: loadb_instruction,
        alu_result: 0,
        rd: Some(3),
        store_value: None,
        mem_addr: Some(0x5000),  // Adresse calculée
        branch_target: None,
        branch_taken: false,
        branch_prediction_correct: None,
        stack_operation: None,
        stack_result: None,
        ras_prediction_correct: None,
        halted: false,
    };

    let result_loadb = memory_stage.process_direct(&em_reg_loadb, &mut memory);
    assert!(result_loadb.is_ok());
    assert_eq!(result_loadb.unwrap().result, 0xAB);

    // Tester LoadW avec format à trois registres
    let loadw_instruction = Instruction::create_reg_reg_reg(Opcode::LoadW, 4, 0, 1);

    let em_reg_loadw = ExecuteMemoryRegister {
        instruction: loadw_instruction,
        alu_result: 0,
        rd: Some(4),
        store_value: None,
        mem_addr: Some(0x5100),  // Adresse calculée
        branch_target: None,
        branch_taken: false,
        branch_prediction_correct: None,
        stack_operation: None,
        stack_result: None,
        ras_prediction_correct: None,
        halted: false,
    };

    let result_loadw = memory_stage.process_direct(&em_reg_loadw, &mut memory);
    assert!(result_loadw.is_ok());
    assert_eq!(result_loadw.unwrap().result, 0xCDEF);

    // Tester LoadD avec format à trois registres
    let loadd_instruction = Instruction::create_reg_reg_reg(Opcode::LoadD, 5, 0, 1);

    let em_reg_loadd = ExecuteMemoryRegister {
        instruction: loadd_instruction,
        alu_result: 0,
        rd: Some(5),
        store_value: None,
        mem_addr: Some(0x5200),  // Adresse calculée
        branch_target: None,
        branch_taken: false,
        branch_prediction_correct: None,
        stack_operation: None,
        stack_result: None,
        ras_prediction_correct: None,
        halted: false,
    };

    let result_loadd = memory_stage.process_direct(&em_reg_loadd, &mut memory);
    assert!(result_loadd.is_ok());
    assert_eq!(result_loadd.unwrap().result, 0x01234567);
}

#[test]
fn test_memory_store_different_sizes_with_three_register_format() {
    let mut memory_stage = MemoryStage::new_for_test();
    let mut memory = Memory::new(MemoryConfig::default());

    // Tester StoreB avec format à trois registres
    let storeb_instruction = Instruction::create_reg_reg_reg(Opcode::StoreB, 0, 1, 2);

    let em_reg_storeb = ExecuteMemoryRegister {
        instruction: storeb_instruction,
        alu_result: 0,
        rd: None,
        store_value: Some(0xEF),  // Seul l'octet de poids faible sera stocké
        mem_addr: Some(0x6000),  // Adresse calculée
        branch_target: None,
        branch_taken: false,
        branch_prediction_correct: None,
        stack_operation: None,
        stack_result: None,
        ras_prediction_correct: None,
        halted: false,
    };

    let result_storeb = memory_stage.process_direct(&em_reg_storeb, &mut memory);
    assert!(result_storeb.is_ok());

    // Vérifier la valeur stockée
    let loaded_byte = memory.read_byte(0x6000);
    assert!(loaded_byte.is_ok());
    assert_eq!(loaded_byte.unwrap(), 0xEF);

    // Tester StoreW avec format à trois registres
    let storew_instruction = Instruction::create_reg_reg_reg(Opcode::StoreW, 0, 1, 2);

    let em_reg_storew = ExecuteMemoryRegister {
        instruction: storew_instruction,
        alu_result: 0,
        rd: None,
        store_value: Some(0xABCD),  // Seuls les 16 bits de poids faible seront stockés
        mem_addr: Some(0x6100),  // Adresse calculée
        branch_target: None,
        branch_taken: false,
        branch_prediction_correct: None,
        stack_operation: None,
        stack_result: None,
        ras_prediction_correct: None,
        halted: false,
    };

    let result_storew = memory_stage.process_direct(&em_reg_storew, &mut memory);
    assert!(result_storew.is_ok());

    // Vérifier la valeur stockée
    let loaded_word = memory.read_word(0x6100);
    assert!(loaded_word.is_ok());
    assert_eq!(loaded_word.unwrap(), 0xABCD);
}

#[test]
fn test_memory_push_pop_with_registers() {
    let mut memory_stage = MemoryStage::new_for_test();
    let mut memory = Memory::new(MemoryConfig::default());

    // Simuler une séquence PUSH/POP
    // 1. PUSH R0 (R0 contient 0x1122334455667788)
    // 2. POP R1 (doit récupérer la même valeur)

    // Étape 1: PUSH R0
    let push_instruction = Instruction::create_single_reg(Opcode::Push, 0);

    let em_reg_push = ExecuteMemoryRegister {
        instruction: push_instruction,
        alu_result: 0,
        rd: None,
        store_value: Some(0x1122334455667788),  // Valeur de R0
        mem_addr: None,
        branch_target: None,
        branch_taken: false,
        branch_prediction_correct: None,
        stack_operation: None,
        stack_result: None,
        ras_prediction_correct: None,
        halted: false,
    };

    // Sauvegarder le SP initial
    let initial_sp = memory_stage.stack_pointer;

    // Exécuter PUSH
    let result_push = memory_stage.process_direct(&em_reg_push, &mut memory);
    assert!(result_push.is_ok());

    // Vérifier que le SP a été décrémenté
    assert_eq!(memory_stage.stack_pointer, initial_sp - 8);

    // Étape 2: POP R1
    let pop_instruction = Instruction::create_single_reg(Opcode::Pop, 1);

    let em_reg_pop = ExecuteMemoryRegister {
        instruction: pop_instruction,
        alu_result: 0,
        rd: Some(1),  // Registre destination R1
        store_value: None,
        mem_addr: None,
        branch_target: None,
        branch_taken: false,
        branch_prediction_correct: None,
        stack_operation: None,
        stack_result: None,
        ras_prediction_correct: None,
        halted: false,
    };

    // Exécuter POP
    let result_pop = memory_stage.process_direct(&em_reg_pop, &mut memory);
    assert!(result_pop.is_ok());

    // Vérifier que le SP est revenu à sa valeur initiale
    assert_eq!(memory_stage.stack_pointer, initial_sp);

    // Vérifier que la valeur récupérée est correcte
    let mw_reg_pop = result_pop.unwrap();
    assert_eq!(mw_reg_pop.result, 0x1122334455667788);
    assert_eq!(mw_reg_pop.rd, Some(1));
}

#[test]
fn test_memory_complex_program() {
    let mut memory_stage = MemoryStage::new_for_test();
    let mut memory = Memory::new(MemoryConfig::default());

    // Simuler un programme plus complexe:
    // 1. STORE R0, [R1+R2]  // Stocker une valeur à une adresse calculée
    // 2. LOAD R3, [R1+R2]   // Charger cette valeur dans R3
    // 3. INC R3             // Incrémenter R3 (exécuté dans l'étage Execute)
    // 4. STORE R3, [R4]     // Stocker la nouvelle valeur à une autre adresse
    // 5. LOAD R5, [R4]      // Charger la valeur depuis la nouvelle adresse

    // Préparation: Écrire quelques valeurs dans les registres fictifs
    let r0_value = 0x1000000000000000;  // Valeur à stocker
    let r3_incremented = 0x1000000000000001;  // R0_value + 1
    let addr1 = 0x7000;  // [R1+R2]
    let addr2 = 0x8000;  // [R4]

    // Étape 1: STORE R0, [R1+R2]
    let store1_instruction = Instruction::create_reg_reg_reg(Opcode::Store, 0, 1, 2);

    let em_reg_store1 = ExecuteMemoryRegister {
        instruction: store1_instruction,
        alu_result: 0,
        rd: None,
        store_value: Some(r0_value),
        mem_addr: Some(addr1),
        branch_target: None,
        branch_taken: false,
        branch_prediction_correct: None,
        stack_operation: None,
        stack_result: None,
        ras_prediction_correct: None,
        halted: false,
    };

    let result_store1 = memory_stage.process_direct(&em_reg_store1, &mut memory);
    assert!(result_store1.is_ok());

    // Étape 2: LOAD R3, [R1+R2]
    let load1_instruction = Instruction::create_reg_reg_reg(Opcode::Load, 3, 1, 2);

    let em_reg_load1 = ExecuteMemoryRegister {
        instruction: load1_instruction,
        alu_result: 0,
        rd: Some(3),
        store_value: None,
        mem_addr: Some(addr1),
        branch_target: None,
        branch_taken: false,
        branch_prediction_correct: None,
        stack_operation: None,
        stack_result: None,
        ras_prediction_correct: None,
        halted: false,
    };

    let result_load1 = memory_stage.process_direct(&em_reg_load1, &mut memory);
    assert!(result_load1.is_ok());
    assert_eq!(result_load1.unwrap().result, r0_value);

    // Étape 3: INC R3 (simulé, car effectué dans l'étage Execute)
    // Pas besoin de code pour cette étape

    // Étape 4: STORE R3, [R4]
    let store2_instruction = Instruction::create_reg_reg(Opcode::Store, 3, 4);

    let em_reg_store2 = ExecuteMemoryRegister {
        instruction: store2_instruction,
        alu_result: 0,
        rd: None,
        store_value: Some(r3_incremented),  // Valeur incrémentée de R3
        mem_addr: Some(addr2),
        branch_target: None,
        branch_taken: false,
        branch_prediction_correct: None,
        stack_operation: None,
        stack_result: None,
        ras_prediction_correct: None,
        halted: false,
    };

    let result_store2 = memory_stage.process_direct(&em_reg_store2, &mut memory);
    assert!(result_store2.is_ok());

    // Étape 5: LOAD R5, [R4]
    let load2_instruction = Instruction::create_reg_reg(Opcode::Load, 5, 4);

    let em_reg_load2 = ExecuteMemoryRegister {
        instruction: load2_instruction,
        alu_result: 0,
        rd: Some(5),
        store_value: None,
        mem_addr: Some(addr2),
        branch_target: None,
        branch_taken: false,
        branch_prediction_correct: None,
        stack_operation: None,
        stack_result: None,
        ras_prediction_correct: None,
        halted: false,
    };

    let result_load2 = memory_stage.process_direct(&em_reg_load2, &mut memory);
    assert!(result_load2.is_ok());

    // Vérifier que R5 contient la valeur incrémentée
    let mw_reg_load2 = result_load2.unwrap();
    assert_eq!(mw_reg_load2.result, r3_incremented);
    assert_eq!(mw_reg_load2.rd, Some(5));
}
