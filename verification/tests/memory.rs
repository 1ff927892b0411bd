use librlox::immix::memory::{
    alloc_block, is_power_of_two, reservation_size, AllocError, Block, BlockSize,
};

fn alloc_dealloc(size: BlockSize) -> Result<(), AllocError> {
    let block = Block::new(size)?;

    // the address and the alignment bits (size - 1) share no bit
    let mask = size - 1;
    assert!((block.as_ptr() & mask) ^ mask == mask);

    drop(block);
    Ok(())
}

#[test]
fn test_bad_sizealign() {
    assert!(alloc_dealloc(999) == Err(AllocError::BadAlignment))
}

#[test]
fn test_4k() {
    assert!(alloc_dealloc(4096).is_ok())
}

#[test]
fn test_32k() {
    assert!(alloc_dealloc(32768).is_ok())
}

#[test]
fn test_16m() {
    assert!(alloc_dealloc(16 * 1024 * 1024).is_ok())
}

#[test]
fn sizes_that_are_no_power_of_two_are_refused() {
    for size in [0usize, 3, 5, 6, 7, 9, 12, 100, 999, 1000, 4095, 4097, usize::MAX] {
        assert_eq!(Block::new(size).err(), Some(AllocError::BadAlignment));
        assert_eq!(alloc_block(size).err(), Some(AllocError::BadAlignment));
    }
}

#[test]
fn powers_of_two_are_aligned_to_their_size() {
    for shift in 0..=24 {
        let size = 1usize << shift;
        let block = Block::new(size).expect("Could not allocate block!");
        assert_eq!(block.size(), size);
        assert_eq!(block.as_ptr() % size, 0);
        assert_ne!(block.as_ptr(), 0);
    }
}

#[test]
fn a_block_that_cannot_be_had_is_out_of_memory() {
    // twice the size, less one, is more than any allocation may span
    let size = 1usize << (usize::BITS - 1);
    assert_eq!(Block::new(size).err(), Some(AllocError::OutOfMemory));
}

#[test]
fn power_of_two_test_agrees_with_std() {
    for n in 0..=5000usize {
        assert_eq!(is_power_of_two(n), n.is_power_of_two());
    }
    for shift in 0..usize::BITS {
        let n = 1usize << shift;
        assert!(is_power_of_two(n));
        assert_eq!(is_power_of_two(n + 1), shift == 0);
        assert_eq!(is_power_of_two(n - 1), shift == 1);
    }
    assert!(!is_power_of_two(usize::MAX));
}

#[test]
fn a_reservation_is_aligned_upwards() {
    let block = Block::from_reservation(Vec::new(), 0x1001, 0x1000).expect("no block");
    assert_eq!(block.as_ptr(), 0x2000);
    assert_eq!(block.size(), 0x1000);

    let block = Block::from_reservation(Vec::new(), 0x1fff, 0x1000).expect("no block");
    assert_eq!(block.as_ptr(), 0x2000);

    let block = Block::from_reservation(Vec::new(), 7, 1).expect("no block");
    assert_eq!(block.as_ptr(), 7);
}

#[test]
fn an_aligned_reservation_stays_where_it_is() {
    let block = Block::from_reservation(Vec::new(), 0x3000, 0x1000).expect("no block");
    assert_eq!(block.as_ptr(), 0x3000);
    assert_eq!(block.size(), 0x1000);
}

#[test]
fn a_reservation_at_address_zero_is_refused() {
    let r = Block::from_reservation(Vec::new(), 0, 64);
    assert_eq!(r.err(), Some(AllocError::OutOfMemory));
}

#[test]
fn a_reservation_at_the_end_of_the_address_space_is_refused() {
    // aligning upwards leaves the address space
    let r = Block::from_reservation(Vec::new(), usize::MAX - 5, 16);
    assert_eq!(r.err(), Some(AllocError::OutOfMemory));
    // aligned already, but the region would end past the last address
    let r = Block::from_reservation(Vec::new(), usize::MAX - 15, 16);
    assert_eq!(r.err(), Some(AllocError::OutOfMemory));
    // the last region of 16 bytes that fits
    let block = Block::from_reservation(Vec::new(), usize::MAX - 31, 16).expect("no block");
    assert_eq!(block.as_ptr(), usize::MAX - 31);
}

#[test]
fn giving_up_a_block_returns_its_address() {
    let block = Block::new(64).expect("Could not allocate block!");
    let address = block.as_ptr();
    assert_eq!(block.into_ptr_mut(), address);
}

#[test]
fn blocks_that_live_together_lie_apart() {
    let a = alloc_block(4096).expect("Could not allocate block!");
    let b = alloc_block(4096).expect("Could not allocate block!");
    assert!(a.as_ptr() + a.size() <= b.as_ptr() || b.as_ptr() + b.size() <= a.as_ptr());
}

#[test]
fn a_reservation_is_twice_the_block_less_one() {
    assert_eq!(reservation_size(1), 1);
    assert_eq!(reservation_size(2), 3);
    assert_eq!(reservation_size(4096), 8191);
    assert_eq!(reservation_size(16 * 1024 * 1024), 32 * 1024 * 1024 - 1);
    assert_eq!(reservation_size(1 << (usize::BITS - 1)), usize::MAX);
}
