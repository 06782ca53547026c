use pvm_sim::pvm::buffers::StoreBuffer;

#[test]
fn test_store_buffer_creation() {
    let buffer = StoreBuffer::new(8);
    assert_eq!(buffer.capacity, 8);
    assert_eq!(buffer.entries.len(), 0);
}

#[test]
fn test_store_buffer_add() {
    let mut buffer = StoreBuffer::new(4);
    buffer.add(0x100, 42);
    buffer.add(0x101, 43);
    assert_eq!(buffer.entries.len(), 2);
    assert_eq!(buffer.lookup_byte(0x100), Some(42));
    assert_eq!(buffer.lookup_byte(0x101), Some(43));
    assert_eq!(buffer.lookup_byte(0x102), None);
}

#[test]
fn test_store_buffer_update() {
    let mut buffer = StoreBuffer::new(4);
    buffer.add(0x100, 42);
    buffer.add(0x100, 43);
    assert_eq!(buffer.lookup_byte(0x100), Some(43));
    assert_eq!(buffer.entries.len(), 1);
}

#[test]
fn test_store_buffer_capacity() {
    let mut buffer = StoreBuffer::new(3);
    buffer.add(0x100, 42);
    buffer.add(0x101, 43);
    buffer.add(0x102, 44);
    assert_eq!(buffer.entries.len(), 3);
    buffer.add(0x103, 45);
    assert_eq!(buffer.entries.len(), 3);
    assert_eq!(buffer.lookup_byte(0x100), None);
    assert_eq!(buffer.lookup_byte(0x103), Some(45));
}

#[test]
fn test_store_buffer_has_address() {
    let mut buffer = StoreBuffer::new(4);
    buffer.add(0x100, 42);
    buffer.add(0x101, 43);
    assert!(buffer.has_address(0x100));
    assert!(buffer.has_address(0x101));
    assert!(!buffer.has_address(0x102));
}

#[test]
fn test_store_buffer_flush() {
    let mut buffer = StoreBuffer::new(4);
    buffer.add(0x100, 42);
    buffer.add(0x101, 43);
    let mut memory = vec![0; 0x200];
    buffer.flush(&mut memory);
    assert_eq!(buffer.entries.len(), 0);
    assert_eq!(memory[0x100], 42);
    assert_eq!(memory[0x101], 43);
}

#[test]
fn test_store_buffer_clear() {
    let mut buffer = StoreBuffer::new(4);
    buffer.add(0x100, 42);
    buffer.add(0x101, 43);
    buffer.clear();
    assert_eq!(buffer.entries.len(), 0);
    assert_eq!(buffer.lookup_byte(0x100), None);
    assert_eq!(buffer.lookup_byte(0x101), None);
}

#[test]
fn test_store_buffer_latest_value() {
    let mut buffer = StoreBuffer::new(4);
    buffer.add(0x100, 42);
    buffer.add(0x101, 43);
    buffer.add(0x100, 44);
    assert_eq!(buffer.lookup_byte(0x100), Some(44));
}

#[test]
fn store_buffer_flush_skips_addresses_beyond_memory() {
    let mut buffer = StoreBuffer::new(4);
    buffer.add(0x10, 7);
    buffer.add(0x400, 9);
    let mut memory = vec![0u8; 0x20];
    buffer.flush(&mut memory);
    assert_eq!(memory[0x10], 7);
    assert_eq!(memory.len(), 0x20);
    assert!(buffer.entries.is_empty());
}

#[test]
fn store_buffer_update_keeps_position() {
    let mut buffer = StoreBuffer::new(2);
    buffer.add(1, 10);
    buffer.add(2, 20);
    buffer.add(1, 11);
    assert_eq!(buffer.entries, vec![(1, 11), (2, 20)]);
    buffer.add(3, 30);
    assert_eq!(buffer.entries, vec![(2, 20), (3, 30)]);
}
