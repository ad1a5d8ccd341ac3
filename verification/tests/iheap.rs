use hagent::iheap::IHeap;

fn is_heap(data: &[(u64, u64)]) -> bool {
    (1..data.len()).all(|i| data[(i - 1) / 2].1 <= data[i].1)
}

fn index_agrees(heap: &IHeap) -> bool {
    heap.data()
        .iter()
        .enumerate()
        .all(|(i, (k, _))| heap.get(k) == Some(&i))
}

fn sorted_values(heap: &IHeap) -> Vec<u64> {
    let mut values: Vec<u64> = heap.data().iter().map(|e| e.1).collect();
    values.sort();
    values
}

fn build(entries: &[(u64, u64)]) -> IHeap {
    let mut heap = IHeap::new();
    for e in entries {
        heap.push(*e);
    }
    heap
}

#[test]
fn push_then_pop_ascends() {
    let mut heap = IHeap::new();
    for (k, v) in [(1u64, 50u64), (2, 10), (3, 40), (4, 10), (5, 30), (6, 20)] {
        heap.push((k, v));
        assert!(is_heap(heap.data()));
        assert!(index_agrees(&heap));
    }
    assert_eq!(heap.len(), 6);
    let mut values = Vec::new();
    while let Some((_, v)) = heap.pop() {
        assert!(is_heap(heap.data()));
        assert!(index_agrees(&heap));
        values.push(v);
    }
    assert_eq!(values, vec![10, 10, 20, 30, 40, 50]);
    assert!(heap.is_empty());
    assert_eq!(heap.pop(), None);
}

#[test]
fn push_places_entries_exactly() {
    let heap = build(&[(1, 5), (2, 3), (3, 8), (4, 1)]);
    // 5 | 3 5 | 3 5 8 | 1 3 8 5
    assert_eq!(heap.data(), &[(4, 1), (2, 3), (3, 8), (1, 5)]);
    assert_eq!(heap.as_slice(), heap.data());
    assert_eq!(heap.peek(), Some(&(4, 1)));
    assert_eq!(heap.get(&4), Some(&0));
    assert_eq!(heap.get(&2), Some(&1));
    assert_eq!(heap.get(&3), Some(&2));
    assert_eq!(heap.get(&1), Some(&3));
    assert_eq!(heap.get(&9), None);
}

#[test]
fn pop_moves_last_entry_down() {
    let mut heap = build(&[(1, 5), (2, 3), (3, 8), (4, 1)]);
    assert_eq!(heap.pop(), Some((4, 1)));
    // (1, 5) takes the root and sinks below (2, 3)
    assert_eq!(heap.data(), &[(2, 3), (1, 5), (3, 8)]);
    assert_eq!(heap.get(&4), None);
    assert!(index_agrees(&heap));
}

#[test]
fn empty_heap_has_nothing() {
    let mut heap = IHeap::new();
    assert!(heap.is_empty());
    assert_eq!(heap.len(), 0);
    assert_eq!(heap.peek(), None);
    assert_eq!(heap.get(&0), None);
    assert_eq!(heap.pop(), None);
    assert!(heap.data().is_empty());
}

#[test]
fn with_capacity_is_empty_and_roomy() {
    let mut heap = IHeap::with_capacity(16).unwrap();
    assert!(heap.is_empty());
    assert!(heap.capacity() >= 16);
    assert_eq!(heap.reserve(100), Ok(()));
    assert_eq!(heap.reserve(0), Ok(()));
    assert!(heap.reserve(usize::MAX).is_err());
    assert!(heap.capacity() >= 100);
    heap.push((7, 7));
    assert_eq!(heap.data(), &[(7, 7)]);
    assert_eq!(heap.get(&7), Some(&0));
}

#[test]
fn remove_in_the_middle_keeps_the_order() {
    // values by position: 1 | 10 2 | 11 12 3 4
    let mut heap = build(&[(0, 1), (1, 10), (2, 2), (3, 11), (4, 12), (5, 3), (6, 4)]);
    assert_eq!(heap.data()[3], (3, 11));
    // the last entry, value 4, takes the place of 11 and has to rise above 10
    assert_eq!(heap.remove(3), Some((3, 11)));
    assert_eq!(heap.len(), 6);
    assert!(is_heap(heap.data()));
    assert!(index_agrees(&heap));
    assert_eq!(heap.data(), &[(0, 1), (6, 4), (2, 2), (1, 10), (4, 12), (5, 3)]);
    assert_eq!(heap.get(&3), None);
}

#[test]
fn remove_last_and_only() {
    let mut heap = build(&[(1, 1), (2, 2), (3, 3)]);
    assert_eq!(heap.remove(2), Some((3, 3)));
    assert_eq!(heap.data(), &[(1, 1), (2, 2)]);
    assert_eq!(heap.remove(0), Some((1, 1)));
    assert_eq!(heap.data(), &[(2, 2)]);
    assert_eq!(heap.remove(0), Some((2, 2)));
    assert!(heap.is_empty());
    assert_eq!(heap.get(&2), None);
}

#[test]
fn update_moves_up_and_down() {
    let mut heap = build(&[(1, 10), (2, 20), (3, 30), (4, 40), (5, 50)]);
    let pos = *heap.get(&5).unwrap();
    heap.update(pos, 5);
    assert_eq!(heap.peek(), Some(&(5, 5)));
    assert!(is_heap(heap.data()));
    assert!(index_agrees(&heap));
    let pos = *heap.get(&5).unwrap();
    heap.update(pos, 100);
    assert_eq!(heap.peek(), Some(&(1, 10)));
    assert!(is_heap(heap.data()));
    assert!(index_agrees(&heap));
    assert_eq!(sorted_values(&heap), vec![10, 20, 30, 40, 100]);
}

#[test]
fn update_changes_values_unless_same() {
    let mut heap = build(&[(1, 10), (2, 20), (3, 30)]);
    let before = heap.data().to_vec();
    let pos = *heap.get(&2).unwrap();
    heap.update(pos, 20);
    assert_eq!(heap.data(), &before[..]);
    assert_eq!(sorted_values(&heap), vec![10, 20, 30]);
    heap.update(pos, 21);
    assert_eq!(sorted_values(&heap), vec![10, 21, 30]);
}

#[test]
fn replace_swaps_entry_and_key() {
    let mut heap = build(&[(1, 10), (2, 20), (3, 30)]);
    let old = heap.replace(0, (9, 25));
    assert_eq!(old, (1, 10));
    assert_eq!(heap.data(), &[(2, 20), (9, 25), (3, 30)]);
    assert_eq!(heap.get(&1), None);
    assert_eq!(heap.get(&9), Some(&1));
    assert!(index_agrees(&heap));
    // same key, smaller value: moves up
    let pos = *heap.get(&3).unwrap();
    let old = heap.replace(pos, (3, 1));
    assert_eq!(old, (3, 30));
    assert_eq!(heap.peek(), Some(&(3, 1)));
    assert!(is_heap(heap.data()));
    assert!(index_agrees(&heap));
}

#[test]
fn into_vec_gives_the_array() {
    let heap = build(&[(1, 3), (2, 2), (3, 1)]);
    let data = heap.data().to_vec();
    let heap2 = build(&[(1, 3), (2, 2), (3, 1)]);
    assert_eq!(heap.into_vec(), data);
    let v: Vec<(u64, u64)> = heap2.into();
    assert_eq!(v, data);
}

#[test]
fn interleaved_operations_keep_heap_and_index() {
    let mut heap = IHeap::new();
    let mut state: u64 = 0x2545f4914f6cdd1d;
    let mut next_key: u64 = 0;
    for _ in 0..2000 {
        state ^= state << 13;
        state ^= state >> 7;
        state ^= state << 17;
        let choice = state % 4;
        let value = (state >> 8) % 64;
        if choice == 0 || heap.is_empty() {
            heap.push((next_key, value));
            next_key += 1;
        } else if choice == 1 {
            let min = heap.data().iter().map(|e| e.1).min().unwrap();
            let popped = heap.pop().unwrap();
            assert_eq!(popped.1, min);
            assert_eq!(heap.get(&popped.0), None);
        } else if choice == 2 {
            let pos = ((state >> 20) as usize) % heap.len();
            let key = heap.data()[pos].0;
            heap.update(pos, value);
            let at = *heap.get(&key).unwrap();
            assert_eq!(heap.data()[at], (key, value));
        } else {
            let pos = ((state >> 20) as usize) % heap.len();
            let entry = heap.data()[pos];
            let len = heap.len();
            assert_eq!(heap.remove(pos), Some(entry));
            assert_eq!(heap.len(), len - 1);
            assert_eq!(heap.get(&entry.0), None);
        }
        assert!(is_heap(heap.data()));
        assert!(index_agrees(&heap));
    }
}

#[test]
fn with_capacity_beyond_memory_is_refused() {
    assert!(IHeap::with_capacity(usize::MAX).is_err());
}

#[test]
fn with_capacity_of_nothing_is_a_heap() {
    let mut heap = IHeap::with_capacity(0).unwrap();
    heap.push((1, 1));
    heap.push((2, 0));
    assert_eq!(heap.pop(), Some((2, 0)));
    assert_eq!(heap.pop(), Some((1, 1)));
}
