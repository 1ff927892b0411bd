use librlox::immix::blocklist::BlockList;
use librlox::immix::bump_alloc::{BlockState, BumpBlock, ManagedPtr};
use librlox::immix::immix::DefaultAllocation;
use librlox::immix::memory::AllocError;
use librlox::immix::policy::AllocationPolicy;
use librlox::immix::test_allocator::TestAllocator;

#[test]
fn alloc_dealloc_blocks() {
    let mut blist = BlockList::<TestAllocator>::new();

    let mut ptrs = Vec::new();
    for _ in 0..10 {
        ptrs.push(blist.allocate(64).expect("Could not allocate block!"));
    }
    // We should have 3 blocks in our list
    assert_eq!(blist.blocks().len(), 3);

    for i in 0..ptrs.len() {
        assert!(blist.blocks()[i / 4].contains(&ptrs[i]));
    }

    for ptr in ptrs.into_iter() {
        blist.dealloc(ptr);
    }

    let mut ptrs = Vec::new();
    for _ in 0..10 {
        ptrs.push(blist.allocate(64).expect("Could not allocate block!"));
    }
    // We should *still* have 3 blocks in our list - we deallocated them and re-used the others
    assert_eq!(blist.blocks().len(), 3);
}

struct OddBlocks;
impl AllocationPolicy for OddBlocks {
    const BLOCK_SIZE_BYTES: usize = 300;
    const LINE_SIZE_BYTES: usize = 100;

    // 300 bytes are three lines of 100
    fn sizes_divide() {}
}

fn pictures<A: AllocationPolicy>(blist: &BlockList<A>) -> Vec<String> {
    blist
        .blocks()
        .iter()
        .map(|block| block.used_lines().print())
        .collect()
}

#[test]
fn the_policies_have_their_sizes() {
    assert_eq!(TestAllocator::BLOCK_SIZE_BYTES, 256);
    assert_eq!(TestAllocator::LINE_SIZE_BYTES, 64);
    assert_eq!(TestAllocator::LINES_PER_BLOCK, 4);
    assert_eq!(DefaultAllocation::BLOCK_SIZE_BYTES, 32768);
    assert_eq!(DefaultAllocation::LINE_SIZE_BYTES, 128);
    assert_eq!(DefaultAllocation::LINES_PER_BLOCK, 256);
    assert_eq!(OddBlocks::LINES_PER_BLOCK, 3);
}

#[test]
fn an_object_larger_than_a_block_is_refused() {
    let mut blist = BlockList::<TestAllocator>::new();
    assert_eq!(blist.allocate(257), Err(AllocError::ObjectTooLarge));
    assert_eq!(blist.allocate(usize::MAX), Err(AllocError::ObjectTooLarge));
    assert_eq!(blist.blocks().len(), 0);

    let ptr = blist.allocate(256).expect("Could not allocate block!");
    assert_eq!(ptr.size, 256);
    assert_eq!(blist.blocks().len(), 1);
    assert_eq!(blist.block_states(), vec![BlockState::Unavailable]);

    assert_eq!(blist.allocate(257), Err(AllocError::ObjectTooLarge));
    assert_eq!(pictures(&blist), ["1111"]);
}

#[test]
fn a_block_size_that_is_no_power_of_two_is_bad_alignment() {
    let mut blist = BlockList::<OddBlocks>::new();
    assert_eq!(blist.allocate(10), Err(AllocError::BadAlignment));
    assert_eq!(blist.blocks().len(), 0);
    assert_eq!(blist.allocate(301), Err(AllocError::ObjectTooLarge));
}

#[test]
fn requests_are_rounded_up_to_whole_lines() {
    let mut blist = BlockList::<TestAllocator>::new();
    let two = blist.allocate(65).expect("Could not allocate block!");
    assert_eq!(two.size, 65);
    assert_eq!(two.inner, blist.blocks()[0].mem().as_ptr());
    assert_eq!(pictures(&blist), ["1100"]);

    let one = blist.allocate(1).expect("Could not allocate block!");
    assert_eq!(one.size, 1);
    assert_eq!(one.inner, blist.blocks()[0].mem().as_ptr() + 2 * 64);
    assert_eq!(pictures(&blist), ["1110"]);

    // two lines do not fit in the one that is left
    let next = blist.allocate(128).expect("Could not allocate block!");
    assert_eq!(next.inner, blist.blocks()[1].mem().as_ptr());
    assert_eq!(pictures(&blist), ["1110", "1100"]);

    // one line does
    let last = blist.allocate(64).expect("Could not allocate block!");
    assert_eq!(last.inner, blist.blocks()[0].mem().as_ptr() + 3 * 64);
    assert_eq!(pictures(&blist), ["1111", "1100"]);

    blist.dealloc(two);
    assert_eq!(pictures(&blist), ["0011", "1100"]);
    blist.dealloc(one);
    assert_eq!(pictures(&blist), ["0001", "1100"]);
}

#[test]
fn an_empty_request_takes_no_line() {
    let mut blist = BlockList::<TestAllocator>::new();
    let ptr = blist.allocate(0).expect("Could not allocate block!");
    assert_eq!(ptr.size, 0);
    assert_eq!(blist.blocks().len(), 1);
    assert_eq!(blist.block_states(), vec![BlockState::Free]);
    blist.dealloc(ptr);
    assert_eq!(pictures(&blist), ["0000"]);
}

#[test]
fn a_pointer_is_given_back_to_its_owner_only() {
    let mut blist = BlockList::<TestAllocator>::new();
    let mut ptrs = Vec::new();
    for _ in 0..12 {
        ptrs.push(blist.allocate(64).expect("Could not allocate block!"));
    }
    assert_eq!(pictures(&blist), ["1111", "1111", "1111"]);
    let cursors: Vec<usize> = blist.blocks().iter().map(|b| b.cursor()).collect();

    blist.dealloc(ptrs[5]);
    assert_eq!(pictures(&blist), ["1111", "1011", "1111"]);
    blist.dealloc(ptrs[8]);
    assert_eq!(pictures(&blist), ["1111", "1011", "0111"]);
    blist.dealloc(ptrs[0]);
    assert_eq!(pictures(&blist), ["0111", "1011", "0111"]);

    // giving back moves no cursor
    let after: Vec<usize> = blist.blocks().iter().map(|b| b.cursor()).collect();
    assert_eq!(cursors, after);
    assert_eq!(
        blist.block_states(),
        vec![BlockState::Recyclable, BlockState::Recyclable, BlockState::Recyclable]
    );
}

#[test]
fn the_first_block_with_room_is_taken() {
    let mut blist = BlockList::<TestAllocator>::new();
    let mut ptrs = Vec::new();
    for _ in 0..8 {
        ptrs.push(blist.allocate(64).expect("Could not allocate block!"));
    }
    blist.dealloc(ptrs[6]);
    blist.dealloc(ptrs[1]);
    assert_eq!(pictures(&blist), ["1011", "1101"]);

    let ptr = blist.allocate(64).expect("Could not allocate block!");
    assert_eq!(ptr.inner, ptrs[1].inner);
    assert_eq!(pictures(&blist), ["1111", "1101"]);

    let ptr = blist.allocate(64).expect("Could not allocate block!");
    assert_eq!(ptr.inner, ptrs[6].inner);
    assert_eq!(pictures(&blist), ["1111", "1111"]);
    assert_eq!(blist.blocks().len(), 2);
}

#[test]
fn the_blocks_alone_answer_while_they_have_room() {
    let mut blist = BlockList::<TestAllocator>::new();
    assert_eq!(blist.alloc_in_blocks(1), None);
    assert_eq!(blist.blocks().len(), 0);

    blist.allocate(64 * 3).expect("Could not allocate block!");
    let base = blist.blocks()[0].mem().as_ptr();
    assert_eq!(blist.alloc_in_blocks(65), None);
    assert_eq!(
        blist.alloc_in_blocks(64),
        Some(ManagedPtr::new(base + 3 * 64, 64))
    );
    assert_eq!(blist.alloc_in_blocks(1), None);
    assert_eq!(blist.blocks().len(), 1);
}

#[test]
fn a_new_block_joins_behind_the_others() {
    let mut blist = BlockList::<TestAllocator>::new();
    blist.allocate(64).expect("Could not allocate block!");

    let block = BumpBlock::new::<TestAllocator>().expect("Could not allocate block!");
    let base = block.mem().as_ptr();
    let ptr = blist.alloc_in_new_block(Ok(block), 130);
    assert_eq!(ptr, Ok(ManagedPtr::new(base, 130)));
    assert_eq!(blist.blocks().len(), 2);
    assert_eq!(blist.blocks()[1].mem().as_ptr(), base);
    assert_eq!(pictures(&blist), ["1000", "1110"]);
}

#[test]
fn no_new_block_leaves_the_list_as_it_is() {
    let mut blist = BlockList::<TestAllocator>::new();
    blist.allocate(64).expect("Could not allocate block!");
    assert_eq!(
        blist.alloc_in_new_block(Err(AllocError::OutOfMemory), 64),
        Err(AllocError::OutOfMemory)
    );
    assert_eq!(
        blist.alloc_in_new_block(Err(AllocError::BadAlignment), 64),
        Err(AllocError::BadAlignment)
    );
    assert_eq!(pictures(&blist), ["1000"]);
}

#[test]
fn a_collection_resets_marks_and_classifies() {
    let mut blist = BlockList::<TestAllocator>::new();
    let mut ptrs = Vec::new();
    for _ in 0..6 {
        ptrs.push(blist.allocate(64).expect("Could not allocate block!"));
    }
    assert_eq!(
        blist.block_states(),
        vec![BlockState::Unavailable, BlockState::Recyclable]
    );

    blist.reset();
    assert_eq!(pictures(&blist), ["0000", "0000"]);
    assert_eq!(blist.block_states(), vec![BlockState::Free, BlockState::Free]);

    // two objects were reached
    blist.mark_used(ptrs[5]);
    blist.mark_used(ptrs[2]);
    assert_eq!(pictures(&blist), ["0010", "0100"]);
    assert_eq!(
        blist.block_states(),
        vec![BlockState::Recyclable, BlockState::Recyclable]
    );

    // the lines before the first are allocated again, the marked ones are not
    let ptr = blist.allocate(128).expect("Could not allocate block!");
    assert_eq!(ptr.inner, ptrs[0].inner);
    assert_eq!(pictures(&blist), ["1110", "0100"]);

    // only the first hole of a block is looked at: one line in either block
    let ptr = blist.allocate(128).expect("Could not allocate block!");
    assert_eq!(ptr.inner, blist.blocks()[2].mem().as_ptr());
    assert_eq!(pictures(&blist), ["1110", "0100", "1100"]);
    let ptr = blist.allocate(64).expect("Could not allocate block!");
    assert_eq!(ptr.inner, ptrs[3].inner);
    let ptr = blist.allocate(64).expect("Could not allocate block!");
    assert_eq!(ptr.inner, ptrs[4].inner);
    assert_eq!(pictures(&blist), ["1111", "1100", "1100"]);

    blist.dealloc(ptrs[2]);
    assert_eq!(pictures(&blist), ["1101", "1100", "1100"]);
}

#[test]
fn the_default_policy_has_256_lines_to_the_block() {
    let mut blist = BlockList::<DefaultAllocation>::new();
    let ptr = blist.allocate(32 * 1024).expect("Could not allocate block!");
    assert_eq!(ptr.inner % (32 * 1024), 0);
    assert_eq!(blist.block_states(), vec![BlockState::Unavailable]);
    assert_eq!(blist.blocks()[0].used_lines().len(), 256);
    assert_eq!(blist.allocate(32 * 1024 + 1), Err(AllocError::ObjectTooLarge));

    let ptr = blist.allocate(129).expect("Could not allocate block!");
    assert_eq!(ptr.inner, blist.blocks()[1].mem().as_ptr());
    assert_eq!(blist.blocks()[1].cursor(), 2);
}

#[test]
fn pointers_of_the_list_cover_bytes_of_their_own() {
    let mut blist = BlockList::<TestAllocator>::new();
    let mut ptrs = Vec::new();
    for bytes in [1, 64, 65, 128, 256, 200, 3, 64, 130] {
        ptrs.push(blist.allocate(bytes).expect("Could not allocate block!"));
    }
    for i in 0..ptrs.len() {
        // each pointer starts a line of the block that holds it
        let owner = blist
            .blocks()
            .iter()
            .find(|block| block.contains(&ptrs[i]))
            .expect("no block holds the pointer");
        assert_eq!((ptrs[i].inner - owner.mem().as_ptr()) % 64, 0);
        assert!(ptrs[i].inner + ptrs[i].size <= owner.mem().as_ptr() + 256);
        for j in (i + 1)..ptrs.len() {
            let (p, q) = (ptrs[i], ptrs[j]);
            assert!(p.inner + p.size <= q.inner || q.inner + q.size <= p.inner);
        }
    }
    for ptr in ptrs {
        blist.dealloc(ptr);
    }
    for state in blist.block_states() {
        assert_eq!(state, BlockState::Free);
    }
}

#[test]
fn lines_are_counted_by_rounding_up() {
    assert_eq!(BlockList::<TestAllocator>::lines_for(0), 0);
    assert_eq!(BlockList::<TestAllocator>::lines_for(1), 1);
    assert_eq!(BlockList::<TestAllocator>::lines_for(63), 1);
    assert_eq!(BlockList::<TestAllocator>::lines_for(64), 1);
    assert_eq!(BlockList::<TestAllocator>::lines_for(65), 2);
    assert_eq!(BlockList::<TestAllocator>::lines_for(256), 4);
    assert_eq!(BlockList::<TestAllocator>::lines_for(257), 5);
    assert_eq!(
        BlockList::<TestAllocator>::lines_for(usize::MAX),
        usize::MAX / 64 + 1
    );
    assert_eq!(BlockList::<DefaultAllocation>::lines_for(129), 2);
}
