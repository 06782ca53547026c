use pvm_sim::pvm::memorys::{Memory, MemoryConfig, MemoryError};

#[test]
fn test_memory_creation() {
    let config = MemoryConfig::default();
    let memory = Memory::new(config);
    let stats = memory.stats();
    assert_eq!(stats.l1_hits, 0);
    assert_eq!(stats.l1_misses, 0);
    assert_eq!(stats.l2_hits, 0);
    assert_eq!(stats.l2_misses, 0);
    assert_eq!(stats.sb_hits, 0);
    assert_eq!(stats.writes, 0);
    assert_eq!(stats.reads, 0);
}

#[test]
fn test_memory_read_write_byte() {
    let config = MemoryConfig::default();
    let mut mem = Memory::new(config);
    mem.write_byte(0x100, 42).unwrap();
    let val = mem.read_byte(0x100).unwrap();
    assert_eq!(val, 42);
    let stats = mem.stats();
    assert_eq!(stats.writes, 1);
    assert_eq!(stats.reads, 1);
    assert_eq!(stats.sb_hits, 1);
    assert_eq!(stats.l1_hits, 0);
    assert_eq!(stats.l1_misses, 1);
}

#[test]
fn test_memory_read_write_word() {
    let config = MemoryConfig::default();
    let mut mem = Memory::new(config);
    mem.write_word(0x100, 0x1234).unwrap();
    let w = mem.read_word(0x100).unwrap();
    assert_eq!(w, 0x1234);
    assert_eq!(mem.read_byte(0x100).unwrap(), 0x34);
    assert_eq!(mem.read_byte(0x101).unwrap(), 0x12);
}

#[test]
fn test_memory_read_write_dword() {
    let config = MemoryConfig::default();
    let mut mem = Memory::new(config);
    mem.write_dword(0x100, 0x12345678).unwrap();
    let d = mem.read_dword(0x100).unwrap();
    assert_eq!(d, 0x12345678);
    assert_eq!(mem.read_byte(0x100).unwrap(), 0x78);
    assert_eq!(mem.read_byte(0x101).unwrap(), 0x56);
    assert_eq!(mem.read_byte(0x102).unwrap(), 0x34);
    assert_eq!(mem.read_byte(0x103).unwrap(), 0x12);
}

#[test]
fn test_memory_read_write_qword() {
    let config = MemoryConfig::default();
    let mut mem = Memory::new(config);
    mem.write_qword(0x100, 0x1234567890ABCDEF).unwrap();
    let q = mem.read_qword(0x100).unwrap();
    assert_eq!(q, 0x1234567890ABCDEF);
    assert_eq!(mem.read_byte(0x100).unwrap(), 0xEF);
    assert_eq!(mem.read_byte(0x101).unwrap(), 0xCD);
    assert_eq!(mem.read_byte(0x102).unwrap(), 0xAB);
    assert_eq!(mem.read_byte(0x103).unwrap(), 0x90);
    assert_eq!(mem.read_byte(0x104).unwrap(), 0x78);
    assert_eq!(mem.read_byte(0x105).unwrap(), 0x56);
    assert_eq!(mem.read_byte(0x106).unwrap(), 0x34);
    assert_eq!(mem.read_byte(0x107).unwrap(), 0x12);
}

#[test]
fn test_memory_block_operations() {
    let config = MemoryConfig::default();
    let mut mem = Memory::new(config);
    let data = [1, 2, 3, 4, 5];
    mem.write_block(0x100, &data).unwrap();
    for i in 0..data.len() {
        let b = mem.read_byte(0x100 + i as u32).unwrap();
        assert_eq!(b, data[i]);
    }
}

#[test]
fn test_memory_store_buffer_hit() {
    let config = MemoryConfig::default();
    let mut mem = Memory::new(config);
    mem.write_byte(0x100, 42).unwrap();
    mem.write_byte(0x100, 43).unwrap();
    let val = mem.read_byte(0x100).unwrap();
    assert_eq!(val, 43);
    let stats = mem.stats();
    assert_eq!(stats.sb_hits, 1);
}

#[test]
fn test_memory_reset() {
    let config = MemoryConfig::default();
    let mut mem = Memory::new(config);
    mem.write_byte(0x100, 42).unwrap();
    mem.write_byte(0x101, 43).unwrap();
    let _ = mem.read_byte(0x100).unwrap();
    mem.reset();
    let val = mem.read_byte(0x100).unwrap();
    assert_eq!(val, 0);
    let stats = mem.stats();
    assert_eq!(stats.reads, 1);
    assert_eq!(stats.l1_misses, 1);
    assert_eq!(stats.l1_hits, 0);
    assert_eq!(stats.sb_hits, 0);
}

#[test]
fn test_memory_invalid_address() {
    let mut config = MemoryConfig::default();
    config.size = 1024;
    let mut mem = Memory::new(config);
    let r = mem.read_byte(1024);
    assert!(r.is_err());
    let w = mem.write_byte(1024, 42);
    assert!(w.is_err());
}

#[test]
fn memory_invalid_address_names_the_last_byte() {
    let mut config = MemoryConfig::default();
    config.size = 1024;
    let mut mem = Memory::new(config);
    assert_eq!(mem.read_word(1023), Err(MemoryError::InvalidAddress(1024)));
    assert_eq!(mem.read_qword(1020), Err(MemoryError::InvalidAddress(1027)));
    assert_eq!(mem.write_dword(1022, 5), Err(MemoryError::InvalidAddress(1025)));
    assert_eq!(mem.read_block(1000, 30), Err(MemoryError::InvalidAddress(1029)));
    assert_eq!(mem.write_block(1020, &[1, 2, 3, 4, 5]), Err(MemoryError::InvalidAddress(1024)));
    assert_eq!(mem.stats().reads, 0);
    assert_eq!(mem.stats().writes, 0);
}

#[test]
fn memory_read_of_fresh_memory_misses_and_reads_zero() {
    let mut mem = Memory::new(MemoryConfig::default());
    assert_eq!(mem.read_byte(0x200).unwrap(), 0);
    let stats = mem.stats();
    assert_eq!(stats.reads, 1);
    assert_eq!(stats.l1_misses, 1);
    assert_eq!(stats.l2_misses, 1);
    assert_eq!(stats.sb_hits, 0);
}

#[test]
fn memory_flush_store_buffer_keeps_values_readable() {
    let mut mem = Memory::new(MemoryConfig::default());
    mem.write_qword(0x400, 0x0102030405060708).unwrap();
    mem.flush_store_buffer().unwrap();
    assert_eq!(mem.read_byte(0x400).unwrap(), 0x08);
    assert_eq!(mem.stats().sb_hits, 0);
}

#[test]
fn memory_read_block_gives_written_block() {
    let mut mem = Memory::new(MemoryConfig::default());
    mem.write_block(0x300, &[9, 8, 7]).unwrap();
    assert_eq!(mem.read_block(0x300, 3).unwrap(), vec![9, 8, 7]);
    assert_eq!(mem.stats().writes, 3);
    assert_eq!(mem.stats().reads, 3);
    assert_eq!(mem.stats().sb_hits, 3);
}

#[test]
fn memory_byte_reads_back_after_flush() {
    let mut m = Memory::new(MemoryConfig::default());
    m.write_byte(0x101, 42).unwrap();
    m.flush_store_buffer().unwrap();
    assert_eq!(m.read_byte(0x101).unwrap(), 42);
}

#[test]
fn memory_word_bytes_come_from_byte_reads_in_turn() {
    let mut m = Memory::new(MemoryConfig::default());
    m.write_byte(0x200, 0x34).unwrap();
    m.write_byte(0x201, 0x12).unwrap();
    m.flush_store_buffer().unwrap();
    let expected_low = {
        let mut probe = Memory::new(MemoryConfig::default());
        probe.write_byte(0x200, 0x34).unwrap();
        probe.write_byte(0x201, 0x12).unwrap();
        probe.flush_store_buffer().unwrap();
        let lo = probe.read_byte(0x200).unwrap() as u16;
        let hi = probe.read_byte(0x201).unwrap() as u16;
        lo | (hi << 8)
    };
    assert_eq!(m.read_word(0x200).unwrap(), expected_low);
    assert_eq!(expected_low, 0x1234);
}
