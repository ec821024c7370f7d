use memur::{Memory, Arena, List, MemurIterator};

struct Compact<T> {
    value: T,
}

impl<T> Drop for Compact<T> {
    fn drop(&mut self) {}
}

#[test]
fn simple_test() {
    let mut memory = Memory::new();
    let (arena, mut md) = Arena::new(&mut memory).unwrap();
    let mut list = List::new(&arena, &mut md, &mut memory).unwrap();
    assert_eq!(0, list.len());
    list.push(&mut md, &mut memory, Compact { value: 1 }).unwrap();
    assert_eq!(1, list.len());
    list.push(&mut md, &mut memory, Compact { value: 2 }).unwrap();
    assert_eq!(2, list.len());
    list.push(&mut md, &mut memory, Compact { value: 3 }).unwrap();
    assert_eq!(3, list.len());
    list.push(&mut md, &mut memory, Compact { value: 4 }).unwrap();
    assert_eq!(4, list.len());
    list.push(&mut md, &mut memory, Compact { value: 5 }).unwrap();
    assert_eq!(5, list.len());
    let mut it = list.empty_if_dead_iter(&md);
    let mut i = 1;
    while let Some(item) = it.next() {
        assert_eq!(i, item.value);
        i += 1;
    }
    assert_eq!(i, 6);
}

#[test]
fn many_items_test() {
    let mut memory = Memory::new();
    let (arena, mut md) = Arena::new(&mut memory).unwrap();
    let mut list = List::new(&arena, &mut md, &mut memory).unwrap();
    for i in 0..32 * 3 {
        list.push(&mut md, &mut memory, Compact { value: i }).unwrap();
    }
    let mut it = list.empty_if_dead_iter(&md);
    let mut i = 0;
    while let Some(item) = it.next() {
        assert_eq!(i, item.value);
        i += 1;
    }
    assert_eq!(i, 32 * 3);
}

#[test]
fn list_test_collect() {
    let mut memory = Memory::new();
    let (arena, mut md) = Arena::new(&mut memory).unwrap();

    let mut source: Vec<i16> = Vec::new();
    for v in 0..12 {
        source.push(v as i16);
    }
    let list1 = source.collect_list(&arena, &mut md, &mut memory).unwrap();
    let mut copied1: Vec<i16> = Vec::new();
    let mut it1 = list1.empty_if_dead_iter(&md);
    while let Some(item) = it1.next() {
        copied1.push(*item);
    }
    let list2 = copied1.collect_list(&arena, &mut md, &mut memory).unwrap();
    let mut copied2: Vec<i16> = Vec::new();
    let mut it2 = list2.iter(&md).unwrap();
    while let Some(item) = it2.next() {
        copied2.push(*item);
    }
    let list3 = copied2.collect_list(&arena, &mut md, &mut memory).unwrap();

    let mut it3 = list3.empty_if_dead_iter(&md);
    let mut i: usize = 0;
    while let Some(item) = it3.next() {
        assert_eq!(*item, i as i16, "at index {}", i);
        i += 1;
    }
    assert_eq!(i, 12);
}
