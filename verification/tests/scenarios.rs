use memur::{Memory, Arena, FixedArray, Array, N, UStr, UploadError};

#[test]
fn drop_order_baseline() {
    // Place three wrapped cells and drop the arena: the drop log lists
    // their value addresses in placement order.
    let mut memory = Memory::new();
    let (arena, mut md) = Arena::new(&mut memory).unwrap();
    let a = N::new(&arena, &mut md, &mut memory, 1u32).unwrap();
    let b = N::new(&arena, &mut md, &mut memory, 2u32).unwrap();
    let c = N::new(&arena, &mut md, &mut memory, 3u32).unwrap();
    let (addr_a, addr_b, addr_c) = (a.addr, b.addr, c.addr);
    arena.release(&mut md, &mut memory);
    assert_eq!(md.drop_log, vec![addr_a, addr_b, addr_c]);
    a.release(&mut md, &mut memory);
    b.release(&mut md, &mut memory);
    c.release(&mut md, &mut memory);
}

#[test]
fn outlives_reorders() {
    // Place a; a.outlives(b); drop the arena: b is destroyed before a.
    let mut memory = Memory::new();
    let (arena, mut md) = Arena::new(&mut memory).unwrap();
    let a = N::new(&arena, &mut md, &mut memory, 1u32).unwrap();
    let b = a.outlives(&mut md, &mut memory, 2u32).unwrap();
    let (addr_a, addr_b) = (a.addr, b.addr);
    arena.release(&mut md, &mut memory);
    assert_eq!(md.drop_log, vec![addr_b, addr_a]);
    a.release(&mut md, &mut memory);
    b.release(&mut md, &mut memory);
}

#[test]
fn nested_outlives_runs_depth_first() {
    // a outlives b, b outlives c: the chain drains c, then b, then a.
    let mut memory = Memory::new();
    let (arena, mut md) = Arena::new(&mut memory).unwrap();
    let a = N::new(&arena, &mut md, &mut memory, 1u32).unwrap();
    let b = a.outlives(&mut md, &mut memory, 2u32).unwrap();
    let c = b.outlives(&mut md, &mut memory, 3u32).unwrap();
    let (addr_a, addr_b, addr_c) = (a.addr, b.addr, c.addr);
    arena.release(&mut md, &mut memory);
    assert_eq!(md.drop_log, vec![addr_c, addr_b, addr_a]);
    a.release(&mut md, &mut memory);
    b.release(&mut md, &mut memory);
    c.release(&mut md, &mut memory);
}

#[test]
fn string_outlives_arena_through_weak_reference() {
    // Create a string, drop the strong handle: the bytes stay readable,
    // and the blocks go back to the pool only when the string is gone.
    let mut memory = Memory::new();
    let free_before = memory.shared.free_blocks.len();
    let (arena, mut md) = Arena::new(&mut memory).unwrap();
    let s = UStr::from_str(&arena, &mut md, &mut memory, "Hello").unwrap();
    arena.release(&mut md, &mut memory);
    assert_eq!(md.strong_rc, 0);
    assert_eq!(md.rc, 1);
    let bytes = s.bytes_with_nul(&md);
    assert_eq!(bytes, b"Hello\0".to_vec());
    assert_eq!(*bytes.last().unwrap(), 0u8);
    s.release(&mut md, &mut memory);
    assert_eq!(md.rc, 0);
    assert_eq!(memory.shared.free_blocks.len(), free_before);
}

#[test]
fn large_item_overflows_into_fresh_block() {
    // With 50 000-byte blocks a 40 000-byte item no longer fits the first
    // block and forces a second one; a 100 000-byte item fits no block.
    let mut memory = Memory::builder()
        .with_min_max_blocks(2, 4)
        .with_block_size(50000)
        .build();
    let (arena, mut md) = Arena::new(&mut memory).unwrap();
    let taken_before = memory.shared.next_base;
    let placed = arena.upload_no_drop(&mut md, &mut memory, 40000, 1);
    assert!(placed.is_ok());
    // A second block was taken for the large item.
    assert!(memory.shared.next_base > taken_before);
    let too_big = arena.upload_no_drop(&mut md, &mut memory, 100000, 1);
    assert_eq!(too_big.err(), Some(UploadError::ItemDoesNotFit));
    arena.release(&mut md, &mut memory);
}

#[test]
fn fixed_array_destroys_every_slot_in_index_order() {
    // Twelve items, one sweep: the drop log holds the twelve slot
    // addresses in index order.
    let mut memory = Memory::new();
    let (arena, mut md) = Arena::new(&mut memory).unwrap();
    let mut source: Vec<i32> = Vec::new();
    for v in 0..12 {
        source.push(v);
    }
    let fa = FixedArray::new(&arena, &mut md, &mut memory, source).unwrap();
    let data_addr = md.fixed_arrays[fa.rec].data_addr;
    let stride = md.fixed_arrays[fa.rec].stride;
    arena.release(&mut md, &mut memory);
    assert_eq!(md.drop_log.len(), 12);
    for k in 0..12 {
        assert_eq!(md.drop_log[k], data_addr + k * stride);
    }
}

#[test]
fn growable_array_destroys_only_unpopped_items() {
    // Push five, pop two: exactly the first three element addresses are
    // destroyed, in index order.
    let mut memory = Memory::new();
    let (arena, mut md) = Arena::new(&mut memory).unwrap();
    let mut arr = Array::new(&arena, &mut md, &mut memory).unwrap();
    for i in 0..5 {
        arr.push(&mut md, &mut memory, i as u64).unwrap();
    }
    let popped1 = arr.pop(&mut md).unwrap();
    let popped2 = arr.pop(&mut md).unwrap();
    assert_eq!(popped1, 4);
    assert_eq!(popped2, 3);
    let remaining: Vec<usize> = md.growable_arrays[arr.rec].ptrs.clone();
    assert_eq!(remaining.len(), 3);
    arena.release(&mut md, &mut memory);
    assert_eq!(md.drop_log, remaining);
}

#[test]
fn pool_free_count_returns_after_reclamation() {
    // The pool's free count returns to its starting value once every
    // handle of the arena is gone.
    let mut memory = Memory::new();
    let free_before = memory.shared.free_blocks.len();
    let (arena, mut md) = Arena::new(&mut memory).unwrap();
    for i in 0..50 {
        arena
            .upload_auto_drop(&mut md, &mut memory, 1000 + i, 8)
            .unwrap();
    }
    arena.release(&mut md, &mut memory);
    assert_eq!(md.rc, 0);
    assert!(md.last_block.is_none());
    assert_eq!(memory.shared.free_blocks.len(), free_before);
}

#[test]
fn weak_placement_after_drop_is_rejected() {
    // Once the strong count is zero, placements through a weak handle
    // report that the arena is not alive.
    let mut memory = Memory::new();
    let (arena, mut md) = Arena::new(&mut memory).unwrap();
    let weak = arena.to_weak_arena(&mut md);
    assert!(weak.is_alive(&md));
    arena.release(&mut md, &mut memory);
    assert!(!weak.is_alive(&md));
    assert_eq!(
        weak.upload_auto_drop(&mut md, &mut memory, 8, 8).err(),
        Some(UploadError::ArenaIsNotAlive)
    );
    assert_eq!(
        weak.upload_no_drop(&mut md, &mut memory, 8, 8).err(),
        Some(UploadError::ArenaIsNotAlive)
    );
    assert!(weak.arena(&mut md).is_none());
    weak.release(&mut md, &mut memory);
}

#[test]
fn initializer_drop_count_matches_pushed_items() {
    // A fixed array initialized with seven of twenty slots destroys
    // exactly seven items on drain.
    let mut memory = Memory::new();
    let (arena, mut md) = Arena::new(&mut memory).unwrap();
    let ua = FixedArray::<u64>::with_capacity(&arena, &mut md, &mut memory, 20).unwrap();
    let mut init = ua.start_initializer();
    for i in 0..7 {
        init.push(i);
    }
    let fa = init.initialized(&mut md).unwrap();
    let data_addr = md.fixed_arrays[fa.rec].data_addr;
    let stride = md.fixed_arrays[fa.rec].stride;
    arena.release(&mut md, &mut memory);
    assert_eq!(md.drop_log.len(), 7);
    for k in 0..7 {
        assert_eq!(md.drop_log[k], data_addr + k * stride);
    }
}

#[test]
fn values_placed_without_destructor_are_never_destroyed() {
    // Bytes and no-drop values never show up in the drop log.
    let mut memory = Memory::new();
    let (arena, mut md) = Arena::new(&mut memory).unwrap();
    let bytes = vec![1u8, 2, 3, 4];
    let byte_addr = arena
        .upload_no_drop_bytes(&mut md, &mut memory, &bytes)
        .unwrap();
    let plain_addr = arena.upload_no_drop(&mut md, &mut memory, 16, 8).unwrap();
    let auto_addr = arena.upload_auto_drop(&mut md, &mut memory, 16, 8).unwrap();
    arena.release(&mut md, &mut memory);
    assert_eq!(md.drop_log, vec![auto_addr]);
    assert!(!md.drop_log.contains(&byte_addr));
    assert!(!md.drop_log.contains(&plain_addr));
}

#[test]
fn placements_are_aligned() {
    let mut memory = Memory::new();
    let (arena, mut md) = Arena::new(&mut memory).unwrap();
    for align in [1usize, 2, 4, 8, 16, 64, 4096] {
        let addr = arena
            .upload_no_drop(&mut md, &mut memory, 24, align)
            .unwrap();
        assert_eq!(addr % align, 0, "alignment {}", align);
    }
    arena.release(&mut md, &mut memory);
}

#[test]
fn cleanup_releases_surplus_blocks() {
    let mut memory = Memory::builder()
        .with_min_max_blocks(1, 2)
        .with_block_size(8192)
        .build();
    assert_eq!(memory.shared.free_blocks.len(), 2);
    memory.return_block(vec![0u8; 8192]);
    memory.return_block(vec![0u8; 8192]);
    assert_eq!(memory.shared.free_blocks.len(), 4);
    let released = memory.cleanup();
    assert_eq!(released, 2 * 8192);
    assert_eq!(memory.shared.free_blocks.len(), 2);
}

#[test]
fn arena_rejects_blocks_too_small_for_the_drop_list() {
    let mut memory = Memory::builder()
        .with_min_max_blocks(1, 2)
        .with_block_size(1024)
        .build();
    match Arena::new(&mut memory) {
        Ok(_) => panic!("a tiny block must not host an arena"),
        Err(e) => assert_eq!(e, UploadError::DropListDoesNotFit),
    }
}
