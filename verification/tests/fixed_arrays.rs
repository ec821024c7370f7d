use memur::{Memory, Arena, FixedArray, MemurIterator};

#[test]
fn has_items_when_iterating() {
    let mut memory = Memory::new();
    let (arena, mut md) = Arena::new(&mut memory).unwrap();
    let mut source: Vec<i64> = Vec::new();
    for v in 0..12 {
        source.push(v as i64);
    }
    let items = FixedArray::new(&arena, &mut md, &mut memory, source).unwrap();
    let mut it = items.iter(&md);
    let mut i: usize = 0;
    while let Some(item) = it.next() {
        assert_eq!(*item, i as i64, "at index {}", i);
        i += 1;
    }
    assert_eq!(i, 12);
}

#[test]
fn has_items_when_iterating_items_i8() {
    let mut memory = Memory::new();
    let (arena, mut md) = Arena::new(&mut memory).unwrap();
    let mut source: Vec<i8> = Vec::new();
    for v in 0..12 {
        source.push(v as i8);
    }
    let items = FixedArray::new(&arena, &mut md, &mut memory, source).unwrap();
    let mut it = items.iter(&md);
    let mut i: usize = 0;
    while let Some(item) = it.next() {
        assert_eq!(*item, i as i8, "at index {}", i);
        i += 1;
    }
    assert_eq!(i, 12);
}

#[test]
fn has_items_when_iterating_items_i16() {
    let mut memory = Memory::new();
    let (arena, mut md) = Arena::new(&mut memory).unwrap();
    let mut source: Vec<i16> = Vec::new();
    for v in 0..12 {
        source.push(v as i16);
    }
    let items = FixedArray::new(&arena, &mut md, &mut memory, source).unwrap();
    let mut it = items.iter(&md);
    let mut i: usize = 0;
    while let Some(item) = it.next() {
        assert_eq!(*item, i as i16, "at index {}", i);
        i += 1;
    }
    assert_eq!(i, 12);
}

#[test]
fn array_fixed_test_collect() {
    let mut memory = Memory::new();
    let (arena, mut md) = Arena::new(&mut memory).unwrap();

    let mut source: Vec<i16> = Vec::new();
    for v in 0..12 {
        source.push(v as i16);
    }
    let items1 = FixedArray::new(&arena, &mut md, &mut memory, source).unwrap();
    let items2 = items1
        .to_vec(&md)
        .collect_fixed_array(&arena, &mut md, &mut memory)
        .unwrap();
    let mut copied: Vec<i16> = Vec::new();
    let mut it = items2.safer_iter(&md).unwrap();
    while let Some(item) = it.next() {
        copied.push(*item);
    }
    let items3 = copied.collect_fixed_array(&arena, &mut md, &mut memory).unwrap();

    let mut it3 = items3.iter(&md);
    let mut i: usize = 0;
    while let Some(item) = it3.next() {
        assert_eq!(*item, i as i16, "at index {}", i);
        i += 1;
    }
    assert_eq!(i, 12);
}

#[test]
fn has_items_when_iterating_items_i16_but_not_when_arena_is_dead() {
    let mut memory = Memory::new();
    let (arena, mut md) = Arena::new(&mut memory).unwrap();
    let mut source: Vec<i16> = Vec::new();
    for v in 0..12 {
        source.push(v as i16);
    }
    let items: FixedArray<i16> = FixedArray::new(&arena, &mut md, &mut memory, source).unwrap();
    {
        let mut it = items.iter(&md);
        let mut i: usize = 0;
        while let Some(item) = it.next() {
            assert_eq!(*item, i as i16, "at index {}", i);
            i += 1;
        }
        assert_eq!(i, 12);
    }
    assert_eq!(12, items.len(&md).unwrap());

    // Drop the strong handle: the arena drains and the array goes dark.
    arena.release(&mut md, &mut memory);

    let mut sum = 0;
    let mut it = items.iter(&md);
    while let Some(_item) = it.next() {
        sum += 1;
    }
    assert_eq!(0, sum);
    assert_eq!(None, items.len(&md));
}

#[test]
fn initializer_keeps_only_pushed_items() {
    let mut memory = Memory::new();
    let (arena, mut md) = Arena::new(&mut memory).unwrap();
    let ua = FixedArray::<u64>::with_capacity(&arena, &mut md, &mut memory, 5).unwrap();
    assert_eq!(ua.capacity(), 5);
    assert_eq!(ua.len(&md), 0);
    let mut init = ua.start_initializer();
    init.push(7);
    init.push(8);
    init.push(9);
    let fa = init.initialized(&mut md).unwrap();
    assert_eq!(fa.len(&md), Some(3));
    assert_eq!(*fa.get(&md, 0).unwrap(), 7);
    assert_eq!(*fa.get(&md, 2).unwrap(), 9);
    assert!(fa.get(&md, 3).is_none());
}
