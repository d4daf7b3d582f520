use dynstack::DynStack;

#[test]
fn test_align_up() {
    let alignment = 4;
    let input = &[0, 1, 2, 3, 4, 5, 6, 7, 8, 9];
    let expected = &[0, 4, 4, 4, 4, 8, 8, 8, 8, 12];
    let output = input.iter().map(|x| dynstack::align_up(*x, alignment));
    let both = expected.iter().zip(output);
    for (l, r) in both {
        assert_eq!(*l, r);
    }
}

#[test]
fn test_fn() {
    let mut stack = DynStack::new();
    for i in 0..100 {
        let bytes = (i as u64).to_le_bytes().to_vec();
        stack.push(&bytes, 8, i);
    }

    let mut item2 = 0;
    let mut it = stack.iter();
    while let Some((_addr, descr)) = it.next() {
        item2 += descr;
    }
    assert_eq!(item2, 4950);

    // the payloads themselves carry the same values
    let mut total: u64 = 0;
    for i in 0..100 {
        let bytes = stack.payload_bytes(i).unwrap();
        let mut raw = [0u8; 8];
        raw.copy_from_slice(&bytes);
        total += u64::from_le_bytes(raw);
    }
    assert_eq!(total, 4950);
}

#[test]
fn test_align() {
    let new32: Vec<u8> = (0..32).map(|i| i as u8).collect();
    let new64: Vec<u8> = (0..64).map(|i| i as u8).collect();

    let assert_aligned = |addr: usize, align: usize| {
        println!("item expects alignment {}, got offset {}", align, addr & (align - 1));
        assert!(addr & (align - 1) == 0);
    };

    let mut stack = DynStack::new();

    stack.push(&new32, 32, 0);
    stack.push(&new64, 64, 1);
    let (addr, _) = stack.peek().unwrap();
    assert_aligned(addr, 64);

    for i in 0..256usize {
        let randomized = (i.pow(7) % 13) % 4;
        let align = match randomized {
            0 => {
                stack.push(&0xF0B0D0E0u32.to_le_bytes().to_vec(), 4, i);
                4
            }
            1 => {
                stack.push(&0x01020304F0B0D0E0u64.to_le_bytes().to_vec(), 8, i);
                8
            }
            2 => {
                stack.push(&new32, 32, i);
                32
            }
            3 => {
                stack.push(&new64, 64, i);
                64
            }
            _ => unreachable!(),
        };
        let (addr, _) = stack.peek().unwrap();
        assert_aligned(addr, align);
    }
}

#[test]
fn push_pop_mixed_sizes() {
    let mut stack = DynStack::new();
    let bunch: Vec<u8> = vec![1, 2, 3, 4, 5, 6, 7, 8, 9];
    stack.push(&1u8.to_le_bytes().to_vec(), 1, 10);
    stack.push(&1u32.to_le_bytes().to_vec(), 4, 11);
    stack.push(&1u16.to_le_bytes().to_vec(), 2, 12);
    stack.push(&1u64.to_le_bytes().to_vec(), 8, 13);
    stack.push(&1u128.to_le_bytes().to_vec(), 16, 14);
    stack.push(&bunch, 1, 15);
    stack.push(&Vec::new(), 1, 16); // a zero-sized payload

    let (_, descr) = stack.peek().unwrap();
    assert_eq!(descr, 16);
    assert_eq!(stack.payload_bytes(stack.len() - 1).unwrap().len(), 0);
    assert!(stack.remove_last());

    let (_, descr) = stack.peek().unwrap();
    assert_eq!(descr, 15);
    assert_eq!(stack.payload_bytes(stack.len() - 1).unwrap(), bunch);
    assert!(stack.remove_last());

    for expected_size in [16, 8, 2, 4, 1] {
        let bytes = stack.payload_bytes(stack.len() - 1).unwrap();
        assert_eq!(bytes.len(), expected_size);
        assert_eq!(bytes[0], 1);
        assert!(stack.remove_last());
    }

    assert!(stack.len() == 0);
    assert!(stack.live_bytes() == 0);
    assert!(!stack.remove_last());
}

#[test]
fn lifo_order() {
    let mut stack = DynStack::new();
    for i in 1..=5usize {
        let bytes = vec![i as u8; i];
        stack.push(&bytes, 1, i);
    }
    for expected in (1..=5usize).rev() {
        let (_, descr) = stack.peek().unwrap();
        assert_eq!(descr, expected);
        let bytes = stack.payload_bytes(stack.len() - 1).unwrap();
        assert_eq!(bytes, vec![expected as u8; expected]);
        assert!(stack.remove_last());
    }
    assert!(stack.peek().is_none());
}

#[test]
fn len_counts_pushes_and_removals() {
    let mut stack = DynStack::new();
    let m = 9usize;
    for i in 0..m {
        stack.push(&vec![i as u8], 1, i);
        assert_eq!(stack.len(), i + 1);
    }
    let r = 4usize;
    for k in 0..r {
        assert!(stack.remove_last());
        assert_eq!(stack.len(), m - k - 1);
    }
    assert_eq!(stack.len(), m - r);
    while stack.remove_last() {}
    assert_eq!(stack.len(), 0);
    assert_eq!(stack.live_bytes(), 0);
}

#[test]
fn round_trip_immediately_after_push() {
    let mut stack = DynStack::new();
    stack.push(&vec![9, 9], 2, 0);
    let payload: Vec<u8> = vec![3, 1, 4, 1, 5, 9, 2, 6, 5];
    stack.push(&payload, 1, 77);
    let idx = stack.len() - 1;
    let (addr, descr) = stack.get(idx).unwrap();
    assert_eq!(descr, 77);
    assert_eq!(stack.payload_bytes(idx).unwrap(), payload);
    // the same element through the fatal-index accessor
    let (addr2, descr2) = stack.index(idx);
    assert_eq!((addr2, descr2), (addr, descr));
}

#[test]
fn alignment_preserved_under_growth() {
    let mut stack = DynStack::new();
    stack.push(&vec![0xAB; 64], 64, 0);
    let (addr, _) = stack.get(0).unwrap();
    assert_eq!(addr % 64, 0);
    // force repeated growth (and possible relocation) after the strictly
    // aligned element was stored
    for i in 0..200usize {
        stack.push(&vec![i as u8; 24], 8, i + 1);
        let (addr, _) = stack.get(0).unwrap();
        assert_eq!(addr % 64, 0, "strict element unaligned after growth");
        assert_eq!(stack.payload_bytes(0).unwrap(), vec![0xAB; 64]);
    }
}

#[test]
fn destruction_observes_each_element_once() {
    let mut stack = DynStack::new();
    for counter in 1..=6usize {
        stack.push(&vec![counter as u8], 1, counter);
    }
    // teardown order: most recent first
    let mut seen = Vec::new();
    while let Some((_, descr)) = stack.peek() {
        seen.push(descr);
        assert!(stack.remove_last());
    }
    assert_eq!(seen, vec![6, 5, 4, 3, 2, 1]);
    let mut sorted = seen.clone();
    sorted.sort();
    sorted.dedup();
    assert_eq!(sorted, vec![1, 2, 3, 4, 5, 6]);
}

#[test]
fn clear_empties_everything() {
    let mut stack = DynStack::new();
    for i in 0..10usize {
        stack.push(&vec![i as u8; 3], 1, i);
    }
    let cap = stack.capacity();
    stack.clear();
    assert_eq!(stack.len(), 0);
    assert_eq!(stack.live_bytes(), 0);
    assert_eq!(stack.capacity(), cap);
}

#[test]
fn construction_is_allocation_free() {
    let stack = DynStack::new();
    assert_eq!(stack.capacity(), 0);
    assert_eq!(stack.live_bytes(), 0);
    assert_eq!(stack.len(), 0);
    drop(stack);
}

#[test]
fn first_allocation_rounds_to_power_of_two() {
    let mut stack = DynStack::new();
    stack.push(&vec![1], 1, 0);
    assert_eq!(stack.capacity(), 16);

    let mut stack = DynStack::new();
    stack.push(&vec![7; 17], 1, 0);
    assert_eq!(stack.capacity(), 32);
}

#[test]
fn empty_stack_accessors() {
    let mut stack = DynStack::new();
    assert!(stack.peek().is_none());
    assert!(stack.peek_mut().is_none());
    assert!(stack.get(0).is_none());
    assert!(stack.get_mut(0).is_none());
    assert!(stack.payload_bytes(0).is_none());
    assert!(!stack.remove_last());
    let mut it = stack.iter();
    assert!(it.next().is_none());
}

#[test]
fn get_out_of_range_is_none() {
    let mut stack = DynStack::new();
    stack.push(&vec![5], 1, 0);
    assert!(stack.get(0).is_some());
    assert!(stack.get(1).is_none());
    assert!(stack.payload_bytes(1).is_none());
}

#[test]
fn iter_mut_walks_in_insertion_order() {
    let mut stack = DynStack::new();
    for i in 0..7usize {
        stack.push(&vec![i as u8], 1, 100 + i);
    }
    let mut it = stack.iter_mut();
    let mut expected = 100usize;
    while let Some((_, descr)) = it.next() {
        assert_eq!(descr, expected);
        expected += 1;
    }
    assert_eq!(expected, 107);
}
