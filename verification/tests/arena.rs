use std::sync::Arc;
use txlog::arena::{
    Arena, ArenaError, RuntimeSizedByteArray, RuntimeSizedNode, ARENA_SIZE_BYTES, KEY_SIZE_BYTES,
};

#[test]
fn test_arena_allocation() {
    let arena = Arena::new();
    assert_eq!(arena.current_index(), 0);
    assert_eq!(arena.memory_usage(), 0);
}

#[test]
fn test_node_allocation_from_arena() {
    let mut arena = Arena::new();
    let node = arena.create_node(3).expect("failed to create node");
    assert_eq!(node.key.len(), 32);
    assert_eq!(node.val.as_slice(&arena), &[0, 0, 0]);
}

#[test]
fn test_oom_behavior() {
    let mut arena = Arena::new();
    let mut allocated = 0;
    while allocated < ARENA_SIZE_BYTES {
        if arena.create_node(8).is_err() {
            break;
        }
        allocated += 40; // 32 + 8
    }
    let result = arena.create_node(8);
    assert!(matches!(result, Err(ArenaError::OOM)));
}

#[test]
fn forty_nodes_use_sixteen_hundred_bytes() {
    let mut arena = Arena::new();
    for _ in 0..40 {
        let _ = arena.create_node(8);
    }
    assert_eq!(arena.memory_usage(), 1600);
    assert_eq!(arena.current_index(), 1600);
    assert_eq!(arena.remaining_capacity(), ARENA_SIZE_BYTES - 1600);
}

#[test]
fn node_layout_is_key_then_value() {
    let mut arena = Arena::new();
    let first = arena.create_node(8).unwrap();
    let second = arena.create_node(100).unwrap();
    assert_eq!(first.key.start(), 0);
    assert_eq!(first.key.len(), KEY_SIZE_BYTES);
    assert_eq!(first.val.start(), 32);
    assert_eq!(first.val.len(), 8);
    assert_eq!(first.size, 8);
    assert_eq!(second.key.start(), 40);
    assert_eq!(second.val.start(), 72);
    assert_eq!(second.val.len(), 100);
    assert_eq!(arena.current_index(), 172);
}

#[test]
fn node_size_field_is_low_byte_of_value_length() {
    let mut arena = Arena::new();
    let node = arena.create_node(300).unwrap();
    assert_eq!(node.val.len(), 300);
    assert_eq!(node.size, 44);
}

#[test]
fn granted_regions_are_disjoint_and_in_bounds() {
    let mut arena = Arena::new();
    let sizes = [1usize, 0, 17, 4000, 78];
    let mut regions = Vec::new();
    for size in sizes {
        regions.push(arena.allocate_slice(size).unwrap());
    }
    assert_eq!(arena.current_index(), 4096);
    for (i, a) in regions.iter().enumerate() {
        assert_eq!(a.len(), sizes[i]);
        assert!(a.start() + a.len() <= ARENA_SIZE_BYTES);
        for b in regions.iter().skip(i + 1) {
            assert!(a.start() + a.len() <= b.start());
        }
    }
}

#[test]
fn exact_fit_is_granted_and_next_byte_is_not() {
    let mut arena = Arena::new();
    let all = arena.allocate_slice(ARENA_SIZE_BYTES).unwrap();
    assert_eq!(all.start(), 0);
    assert_eq!(all.len(), 4096);
    assert_eq!(arena.remaining_capacity(), 0);
    assert!(matches!(arena.allocate_slice(1), Err(ArenaError::OOM)));
    assert_eq!(arena.memory_usage(), 4096);
}

#[test]
fn allocating_beyond_remaining_is_out_of_memory() {
    let mut arena = Arena::new();
    arena.allocate_slice(4000).unwrap();
    assert_eq!(arena.remaining_capacity(), 96);
    assert!(matches!(arena.allocate_slice(97), Err(ArenaError::OOM)));
    assert_eq!(arena.memory_usage(), 4000);
}

#[test]
fn cursor_moves_even_when_reservation_is_turned_down() {
    let mut arena = Arena::new();
    arena.allocate_slice(4000).unwrap();
    assert!(arena.allocate_slice(200).is_err());
    assert_eq!(arena.current_index(), 4200);
    assert_eq!(arena.remaining_capacity(), 0);
    assert!(matches!(arena.allocate_slice(10), Err(ArenaError::OOM)));
    assert!(matches!(arena.allocate_slice(0), Err(ArenaError::OOM)));
    assert_eq!(arena.memory_usage(), 4000);
}

#[test]
fn huge_requests_are_out_of_memory_and_cursor_saturates() {
    let mut arena = Arena::new();
    assert!(matches!(arena.create_node(usize::MAX), Err(ArenaError::OOM)));
    assert_eq!(arena.current_index(), usize::MAX);
    assert!(matches!(arena.allocate_slice(usize::MAX), Err(ArenaError::OOM)));
    assert_eq!(arena.current_index(), usize::MAX);
    assert!(matches!(arena.allocate_slice(1), Err(ArenaError::OOM)));
    assert_eq!(arena.memory_usage(), 0);
}

#[test]
fn written_bytes_are_read_back_and_neighbours_stay() {
    let mut arena = Arena::new();
    let a = arena.allocate_slice(4).unwrap();
    let b = arena.allocate_slice(3).unwrap();
    let c = arena.allocate_slice(2).unwrap();
    arena.write(&b, &[7, 8, 9]);
    assert_eq!(a.as_slice(&arena), &[0, 0, 0, 0]);
    assert_eq!(b.as_slice(&arena), &[7, 8, 9]);
    assert_eq!(c.as_slice(&arena), &[0, 0]);
    arena.zeroize();
    assert_eq!(b.as_slice(&arena), &[0, 0, 0]);
    assert_eq!(arena.current_index(), 9);
}

#[test]
fn destroy_fails_while_shared_and_succeeds_for_sole_owner() {
    let mut arena = Arena::new();
    arena.allocate_slice(10).unwrap();
    let shared = Arc::new(arena);
    let other = Arc::clone(&shared);
    let back = match Arena::destroy(shared) {
        Ok(()) => panic!("destroyed while shared"),
        Err(back) => back,
    };
    assert!(Arc::ptr_eq(&back, &other));
    assert_eq!(back.current_index(), 10);
    drop(other);
    assert!(Arena::destroy(back).is_ok());
}

#[test]
fn regions_outside_an_arena_do_not_exist() {
    assert!(RuntimeSizedByteArray::new(4, 0, 4).is_some());
    assert!(RuntimeSizedByteArray::new(4, 0, 5).is_none());
    assert!(RuntimeSizedByteArray::new(4, 4093, 4).is_none());
    assert!(RuntimeSizedByteArray::new(0, 4096, 0).is_some());
    assert!(RuntimeSizedByteArray::new(usize::MAX, 1, usize::MAX).is_none());
    assert!(RuntimeSizedNode::new(0, 40, 8).is_some());
    assert!(RuntimeSizedNode::new(0, 39, 8).is_none());
    assert!(RuntimeSizedNode::new(0, 31, 0).is_none());
    assert!(RuntimeSizedNode::new(4090, 40, 8).is_none());
    let roomy = RuntimeSizedNode::new(10, 100, 8).unwrap();
    assert_eq!(roomy.key.start(), 10);
    assert_eq!(roomy.val.start(), 42);
    assert_eq!(roomy.val.len(), 8);
}

#[test]
fn arena_errors_in_words() {
    assert_eq!(ArenaError::OOM.message(), "arena out of memory");
    assert_eq!(ArenaError::Undefined.message(), "undefined error occurred");
}

#[test]
fn release_zeroes_an_owned_arena_and_hands_a_shared_one_back() {
    let mut arena = Arena::new();
    let region = arena.allocate_slice(2).unwrap();
    arena.write(&region, &[5, 6]);
    assert!(Arena::release(Ok(arena)).is_ok());

    let shared = Arc::new(Arena::new());
    let other = Arc::clone(&shared);
    match Arena::release(Err(shared)) {
        Ok(()) => panic!("a shared arena was released"),
        Err(back) => assert!(Arc::ptr_eq(&back, &other)),
    }
}
