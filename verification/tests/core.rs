use memur::{Memory, Arena, Block, PlacementError, DropList, DropListWriteResult, DropFn,
    DropItem, UploadError, ArenaMemoryInstance, MemoryBuilder};

#[test]
fn block_placement_arithmetic() {
    let buf = vec![0u8; 256];
    let mut block = Block::new(buf, 4096);
    assert_eq!(block.largest_item_size(), 256 - 24);
    // The first placement starts right past the header.
    let addr = block.push_region(10, 1).unwrap();
    assert_eq!(addr, 4096 + 24);
    // An aligned placement pads up to the next multiple.
    let addr2 = block.push_region(8, 8).unwrap();
    assert_eq!(addr2, 4096 + 40);
    assert_eq!(addr2 % 8, 0);
    // Too big for any block of this size.
    assert!(matches!(block.push_region(500, 1), Err(PlacementError::ItemTooBig)));
    // Too big for what is left, but a fresh block would do.
    assert!(matches!(
        block.push_region(230, 1),
        Err(PlacementError::NotEnoughSpaceInBlock)
    ));
    let (remaining, aligned) = block.remaining_bytes_for_alignment(16);
    assert_eq!(aligned % 16, 0);
    assert_eq!(remaining, 256 - aligned as isize);
}

#[test]
fn block_stores_bytes() {
    let buf = vec![0u8; 128];
    let mut block = Block::new(buf, 8192);
    let payload = vec![5u8, 6, 7];
    let addr = block.upload_bytes_unchecked(24, &payload);
    assert_eq!(addr, 8192 + 24);
    assert_eq!(block.data[24..27], [5, 6, 7]);
    assert_eq!(block.next_item_offset, 27);
}

#[test]
fn droplist_fills_up() {
    let mut list = DropList::empty();
    assert_eq!(list.items.len(), 0);
    for i in 0..1021 {
        let r = list.push_drop_fn(i);
        assert!(matches!(r, DropListWriteResult::ListNotFull));
    }
    let r = list.push_drop_fn(1021);
    assert!(matches!(r, DropListWriteResult::ListFull));
    assert_eq!(list.items.len(), 1022);
    assert_eq!(list.items[3], DropItem { fun: DropFn::Value, data: 3 });
    list.set_next_list(77);
    assert_eq!(list.next_list, Some(77));
}

#[test]
fn pool_take_and_return() {
    let builder = Memory::builder().with_min_max_blocks(1, 3).with_block_size(10000);
    let mut instance = ArenaMemoryInstance::new(&builder);
    assert_eq!(instance.free_blocks.len(), 3);
    let (buf, base) = instance.take_block();
    assert_eq!(buf.len(), 10000);
    // Bases are multiples of the base alignment and strictly increase.
    assert_eq!(base % 4096, 0);
    let (_buf2, base2) = instance.take_block();
    assert!(base2 > base);
    instance.return_block(buf);
    assert_eq!(instance.free_blocks.len(), 2);
}

#[test]
fn builder_is_rebindable() {
    let b: MemoryBuilder = Memory::builder()
        .with_block_size(30000)
        .with_min_max_blocks(0, 0);
    let mut memory = b.build();
    // With no refill configured the pool starts empty and take panics;
    // returning a block first makes one available.
    assert_eq!(memory.shared.free_blocks.len(), 0);
    memory.return_block(vec![0u8; 30000]);
    let (buf, _base) = memory.take_block();
    assert_eq!(buf.len(), 30000);
}

#[test]
fn metadata_that_does_not_fit_is_reported() {
    // Room for the drop-list node but not for the arena metadata record.
    let mut memory = Memory::builder()
        .with_min_max_blocks(1, 2)
        .with_block_size(24600)
        .build();
    match Arena::new(&mut memory) {
        Ok(_) => panic!("the metadata record must not fit"),
        Err(e) => assert_eq!(e, UploadError::MetadataDoesNotFit),
    }
}

#[test]
fn arena_cleanup_after_heavy_use() {
    let mut memory = Memory::new();
    let (arena, mut md) = Arena::new(&mut memory).unwrap();
    // Fill several blocks so that more than the high-water mark comes back.
    for _ in 0..8 {
        arena
            .upload_no_drop(&mut md, &mut memory, 60000, 1)
            .unwrap();
    }
    arena.release(&mut md, &mut memory);
    assert!(memory.shared.free_blocks.len() > 4);
    let released = memory.cleanup();
    assert!(released > 0);
    assert_eq!(released % 65536, 0);
    assert_eq!(memory.shared.free_blocks.len(), 4);
}
