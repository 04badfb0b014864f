use guest_runtime::mem::{Mem, MemError, NULL_PAGE_SIZE};

#[test]
fn new_memory_is_zeroed() {
    let mem = Mem::new(0x2000);
    assert_eq!(mem.size(), 0x2000);
    assert_eq!(mem.read_u32(NULL_PAGE_SIZE), Ok(0));
    assert_eq!(mem.read_u8(0x1fff), Ok(0));
    assert_eq!(mem.peek_next_block(), NULL_PAGE_SIZE);
}

#[test]
fn words_are_stored_least_significant_byte_first() {
    let mut mem = Mem::new(0x2000);
    assert_eq!(mem.write_u32(0x1000, 0x0403_0201), Ok(()));
    assert_eq!(mem.read_u8(0x1000), Ok(1));
    assert_eq!(mem.read_u8(0x1001), Ok(2));
    assert_eq!(mem.read_u8(0x1002), Ok(3));
    assert_eq!(mem.read_u8(0x1003), Ok(4));
    assert_eq!(mem.read_u32(0x1000), Ok(0x0403_0201));
    assert_eq!(mem.read_bytes(0x1000, 4), Ok(vec![1, 2, 3, 4]));
    assert_eq!(mem.write_u32(0x1004, u32::MAX), Ok(()));
    assert_eq!(mem.read_u32(0x1004), Ok(u32::MAX));
    assert_eq!(mem.read_u32(0x1000), Ok(0x0403_0201));
    assert_eq!(mem.read_u32(0x1008), Ok(0));
}

#[test]
fn null_page_is_not_accessible() {
    let mut mem = Mem::new(0x2000);
    assert_eq!(mem.read_u32(0), Err(MemError::OutOfBounds));
    assert_eq!(mem.read_u8(0), Err(MemError::OutOfBounds));
    assert_eq!(mem.read_u8(0xfff), Err(MemError::OutOfBounds));
    assert_eq!(mem.read_u32(0xffc), Err(MemError::OutOfBounds));
    assert_eq!(mem.write_u32(4, 1), Err(MemError::OutOfBounds));
    assert_eq!(mem.write_u8(0xfff, 1), Err(MemError::OutOfBounds));
    assert_eq!(mem.read_bytes(0xfff, 2), Err(MemError::OutOfBounds));
    assert_eq!(mem.write_bytes(0, &[1]), Err(MemError::OutOfBounds));
}

#[test]
fn access_beyond_the_end_fails_and_changes_nothing() {
    let mut mem = Mem::new(0x2000);
    assert_eq!(mem.read_u32(0x2000), Err(MemError::OutOfBounds));
    assert_eq!(mem.read_u32(0x1ffd), Err(MemError::OutOfBounds));
    assert_eq!(mem.read_u32(0x1ffc), Ok(0));
    assert_eq!(mem.write_u32(0x1ffe, 0xffff_ffff), Err(MemError::OutOfBounds));
    assert_eq!(mem.read_u8(0x1ffe), Ok(0));
    assert_eq!(mem.read_u8(0x1fff), Ok(0));
    assert_eq!(mem.read_u32(0xffff_fffe), Err(MemError::OutOfBounds));
    assert_eq!(mem.write_bytes(0x1ffe, &[1, 2, 3]), Err(MemError::OutOfBounds));
    assert_eq!(mem.read_bytes(0x1ffe, 2), Ok(vec![0, 0]));
    assert_eq!(mem.read_bytes(0x1000, 0x1001), Err(MemError::OutOfBounds));
    assert_eq!(mem.read_bytes(0x2000, 0), Ok(vec![]));
}

#[test]
fn misaligned_word_access_fails() {
    let mut mem = Mem::new(0x2000);
    assert_eq!(mem.read_u32(0x1001), Err(MemError::Misaligned));
    assert_eq!(mem.read_u32(0x1002), Err(MemError::Misaligned));
    assert_eq!(mem.write_u32(0x1003, 7), Err(MemError::Misaligned));
    assert_eq!(mem.read_u32(0x1000), Ok(0));
    assert_eq!(mem.read_u32(0x1004), Ok(0));
}

#[test]
fn bytes_are_written_where_asked() {
    let mut mem = Mem::new(0x2000);
    assert_eq!(mem.write_bytes(0x1001, &[9, 8, 7]), Ok(()));
    assert_eq!(mem.read_bytes(0x1000, 5), Ok(vec![0, 9, 8, 7, 0]));
    assert_eq!(mem.write_u8(0x1002, 0xaa), Ok(()));
    assert_eq!(mem.read_bytes(0x1000, 5), Ok(vec![0, 9, 0xaa, 7, 0]));
}

#[test]
fn blocks_come_zeroed_at_rising_addresses() {
    let mut mem = Mem::new(0x2000);
    assert_eq!(mem.write_bytes(0x1000, &[0xff; 32]), Ok(()));
    assert_eq!(mem.allocate(5), Ok(0x1000));
    assert_eq!(mem.read_bytes(0x1000, 12), Ok(vec![0, 0, 0, 0, 0, 0, 0, 0, 0xff, 0xff, 0xff, 0xff]));
    assert_eq!(mem.allocate(0), Ok(0x1008));
    assert_eq!(mem.allocate(4), Ok(0x100c));
    assert_eq!(mem.peek_next_block(), 0x1010);
    assert!(mem.is_allocated(0x1000));
    assert!(mem.is_allocated(0x1008));
    assert!(!mem.is_allocated(0x1004));
}

#[test]
fn allocation_fails_when_memory_is_used_up() {
    let mut mem = Mem::new(0x1010);
    assert_eq!(mem.allocate(0x11), Err(MemError::OutOfMemory));
    assert_eq!(mem.allocate(0x10), Ok(0x1000));
    assert_eq!(mem.allocate(1), Err(MemError::OutOfMemory));
    assert_eq!(mem.allocate(0), Err(MemError::OutOfMemory));
    let mut small = Mem::new(0x10);
    assert_eq!(small.allocate(1), Err(MemError::OutOfMemory));
    assert_eq!(small.read_u8(0), Err(MemError::OutOfBounds));
    let mut big = Mem::new(0x2000);
    assert_eq!(big.allocate(u32::MAX), Err(MemError::OutOfMemory));
}

#[test]
fn a_block_is_freed_once() {
    let mut mem = Mem::new(0x2000);
    let a = mem.allocate(8).unwrap();
    let b = mem.allocate(8).unwrap();
    assert_eq!(mem.free(a), Ok(()));
    assert!(!mem.is_allocated(a));
    assert!(mem.is_allocated(b));
    assert_eq!(mem.free(a), Err(MemError::NotAllocated));
    assert_eq!(mem.free(a + 4), Err(MemError::NotAllocated));
    assert_eq!(mem.free(0), Err(MemError::NotAllocated));
    // Freed addresses are not handed out again.
    assert_eq!(mem.allocate(8), Ok(b + 8));
}
