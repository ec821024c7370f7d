use memur::{Memory, Arena, Array, MemurIterator};

#[test]
fn test_from_iter_numbers() {
    // Create a new arena.
    let mut memory = Memory::new();
    let (arena, mut md) = Arena::new(&mut memory).unwrap();
    // Collect the range 0..10 into our arena Array.
    let mut items: Vec<usize> = Vec::new();
    for i in 0..10 {
        items.push(i);
    }
    let array = Array::from_iter(&arena, &mut md, &mut memory, items).unwrap();
    assert_eq!(array.len(&md).unwrap(), 10);
    // Verify that each item is correct.
    let mut it = array.iter(&md);
    let mut i: usize = 0;
    while let Some(item) = it.next() {
        assert_eq!(*item, i);
        i += 1;
    }
    assert_eq!(i, 10);
}

#[test]
fn test_collect_array_ext() {
    let mut memory = Memory::new();
    let (arena, mut md) = Arena::new(&mut memory).unwrap();
    // Use the extension trait to collect a value sequence.
    let mut items: Vec<usize> = Vec::new();
    for i in 10..20 {
        items.push(i);
    }
    let array = items.collect_array(&arena, &mut md, &mut memory).unwrap();
    assert_eq!(array.len(&md).unwrap(), 10);
    let mut it = array.iter(&md);
    let mut i: usize = 0;
    while let Some(item) = it.next() {
        assert_eq!(*item, 10 + i);
        i += 1;
    }
    assert_eq!(i, 10);
}

#[test]
fn test_push_pop() {
    let mut memory = Memory::new();
    let (arena, mut md) = Arena::new(&mut memory).unwrap();
    let mut array = Array::new(&arena, &mut md, &mut memory).unwrap();
    for i in 0..5 {
        array.push(&mut md, &mut memory, i).unwrap();
    }
    assert_eq!(array.len(&md).unwrap(), 5);
    // Pop all items and verify the order.
    for i in (0..5).rev() {
        let popped = array.pop(&mut md).unwrap();
        assert_eq!(popped, i);
    }
    assert_eq!(array.len(&md).unwrap(), 0);
}

#[test]
fn array_grows_past_initial_capacity() {
    let mut memory = Memory::new();
    let (arena, mut md) = Arena::new(&mut memory).unwrap();
    let mut array = Array::new(&arena, &mut md, &mut memory).unwrap();
    assert_eq!(array.capacity(&md).unwrap(), 4);
    for i in 0..9 {
        array.push(&mut md, &mut memory, i).unwrap();
    }
    assert_eq!(array.len(&md).unwrap(), 9);
    assert_eq!(array.capacity(&md).unwrap(), 16);
    for i in 0..9 {
        assert_eq!(*array.get(&md, i).unwrap(), i);
    }
    assert!(array.get(&md, 9).is_none());
}
