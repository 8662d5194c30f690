use slab::SlabAllocator;

#[test]
fn should_mask_off_allocation() {
    let mut slab = SlabAllocator::<u8, 1>::new();
    let optional_boxed_five = slab.boxed(5);

    assert_eq!(
        Some(u64::MAX >> 1),
        slab.borrow_chunk(0).map(|chunk| chunk.free_list)
    );
    let boxed_five = optional_boxed_five.unwrap();
    assert_eq!(5, *slab.read(&boxed_five));

    // check freed after release
    slab.release(boxed_five);
    assert_eq!(
        Some(u64::MAX),
        slab.borrow_chunk(0).map(|chunk| chunk.free_list)
    );
}

#[test]
fn should_safely_drop_multiple_allocations() {
    let mut slab = SlabAllocator::<u8, 1>::new();
    let boxed_values: Vec<_> = (0..64u8).map(|x| slab.boxed(x)).collect();

    assert_eq!(Some(0), slab.borrow_chunk(0).map(|chunk| chunk.free_list));

    for boxed in boxed_values {
        slab.release(boxed.unwrap());
    }
    assert_eq!(
        Some(u64::MAX),
        slab.borrow_chunk(0).map(|chunk| chunk.free_list)
    );
}

#[test]
fn should_allow_allocations_over_multiple_chunks() {
    let mut slab = SlabAllocator::<u8, 2>::new();
    let boxed_values: Vec<_> = (0..128).map(|x| slab.boxed(x as u8)).collect();

    assert_eq!(Some(0), slab.borrow_chunk(0).map(|chunk| chunk.free_list));
    assert_eq!(Some(0), slab.borrow_chunk(1).map(|chunk| chunk.free_list));

    for boxed in boxed_values {
        slab.release(boxed.unwrap());
    }
    assert_eq!(
        Some(u64::MAX),
        slab.borrow_chunk(0).map(|chunk| chunk.free_list)
    );
    assert_eq!(
        Some(u64::MAX),
        slab.borrow_chunk(1).map(|chunk| chunk.free_list)
    );
}

#[test]
fn exhaustion_returns_none_after_capacity() {
    let mut slab = SlabAllocator::<u32, 2>::new();
    let mut handles = Vec::new();
    for i in 0..128u32 {
        let boxed = slab.boxed(i);
        assert!(boxed.is_some());
        handles.push(boxed.unwrap());
    }
    // capacity is 2 * 64 cells: the 129th attempt must come back empty
    assert!(slab.boxed(999).is_none());
    // releasing one cell makes allocation possible again
    slab.release(handles.pop().unwrap());
    assert!(slab.boxed(1000).is_some());
}

#[test]
fn free_bit_count_tracks_allocations() {
    let mut slab = SlabAllocator::<u8, 1>::new();
    let mut handles = Vec::new();
    for k in 1..=5u32 {
        handles.push(slab.boxed(k as u8).unwrap());
        let mask = slab.borrow_chunk(0).unwrap().free_list;
        assert_eq!(64 - k, mask.count_ones());
    }
    for (r, boxed) in handles.into_iter().enumerate() {
        slab.release(boxed);
        let mask = slab.borrow_chunk(0).unwrap().free_list;
        assert_eq!(60 + r as u32, mask.count_ones());
    }
}

#[test]
fn release_in_any_order_restores_fully_free() {
    let mut slab = SlabAllocator::<u16, 1>::new();
    let mut handles: Vec<_> = (0..8u16).map(|x| slab.boxed(x).unwrap()).collect();
    // release in a scrambled order, not the allocation order
    for pick in [3, 0, 4, 1, 2, 0, 1, 0] {
        slab.release(handles.remove(pick));
    }
    assert!(handles.is_empty());
    assert_eq!(u64::MAX, slab.borrow_chunk(0).unwrap().free_list);
    assert!(slab.borrow_chunk(0).unwrap().empty());
}

#[test]
fn round_trip_preserves_value() {
    let mut slab = SlabAllocator::<u64, 1>::new();
    let boxed = slab.boxed(0xDEAD_BEEF_0123_4567).unwrap();
    assert_eq!(0xDEAD_BEEF_0123_4567, *slab.read(&boxed));
    slab.write(&boxed, 77);
    assert_eq!(77, *slab.read(&boxed));
    slab.release(boxed);
}

#[test]
fn fills_chunk_zero_before_chunk_one() {
    let mut slab = SlabAllocator::<u8, 2>::new();
    for i in 0..64u8 {
        let boxed = slab.boxed(i).unwrap();
        assert_eq!(0, boxed.chunk);
        // chunk 1 has not been touched
        assert_eq!(u64::MAX, slab.borrow_chunk(1).unwrap().free_list);
    }
    let boxed = slab.boxed(200).unwrap();
    assert_eq!(1, boxed.chunk);
}

#[test]
fn reuses_lowest_released_cell_first() {
    let mut slab = SlabAllocator::<u8, 1>::new();
    let mut handles: Vec<_> = (0..4u8).map(|x| slab.boxed(x).unwrap()).collect();
    assert_eq!(1, handles[1].cell);
    slab.release(handles.remove(1));
    // cell 1 is now the lowest-numbered free cell, so it is handed out next
    let boxed = slab.boxed(9).unwrap();
    assert_eq!(1, boxed.cell);
    assert_eq!(9, *slab.read(&boxed));
}

#[test]
fn single_allocation_and_release_counts() {
    let mut slab = SlabAllocator::<u8, 1>::new();
    let boxed = slab.boxed(5).unwrap();
    assert_eq!(5, *slab.read(&boxed));
    assert_eq!(63, slab.borrow_chunk(0).unwrap().free_list.count_ones());
    slab.release(boxed);
    assert_eq!(64, slab.borrow_chunk(0).unwrap().free_list.count_ones());
    assert!(slab.borrow_chunk(0).unwrap().empty());
}

#[test]
fn one_chunk_fills_and_empties() {
    let mut slab = SlabAllocator::<usize, 1>::new();
    let handles: Vec<_> = (0..64usize).map(|x| slab.boxed(x).unwrap()).collect();
    assert!(slab.borrow_chunk(0).unwrap().full());
    assert_eq!(None, slab.borrow_chunk(0).unwrap().first_free());
    for (x, boxed) in handles.iter().enumerate() {
        assert_eq!(x, *slab.read(boxed));
    }
    for boxed in handles {
        slab.release(boxed);
    }
    assert!(slab.borrow_chunk(0).unwrap().empty());
    assert_eq!(Some(0), slab.borrow_chunk(0).unwrap().first_free());
}

#[test]
fn two_chunks_fill_and_empty() {
    let mut slab = SlabAllocator::<u32, 2>::new();
    let handles: Vec<_> = (0..128u32).map(|x| slab.boxed(x).unwrap()).collect();
    assert!(slab.borrow_chunk(0).unwrap().full());
    assert!(slab.borrow_chunk(1).unwrap().full());
    for boxed in handles {
        slab.release(boxed);
    }
    assert!(slab.borrow_chunk(0).unwrap().empty());
    assert!(slab.borrow_chunk(1).unwrap().empty());
}

#[test]
fn borrow_chunk_is_bounds_checked() {
    let slab = SlabAllocator::<u8, 2>::new();
    assert!(slab.borrow_chunk(0).is_some());
    assert!(slab.borrow_chunk(1).is_some());
    assert!(slab.borrow_chunk(2).is_none());
    assert!(slab.borrow_chunk(usize::MAX).is_none());
}

#[test]
fn masks_pick_out_single_bits() {
    assert_eq!(u64::MAX >> 1, slab::alloc_mask(0));
    assert_eq!(u64::MAX ^ 1, slab::alloc_mask(63));
    assert_eq!(1u64 << 63, slab::free_mask(0));
    assert_eq!(1u64, slab::free_mask(63));
    for pos in 0..64u8 {
        assert_eq!(u64::MAX, slab::alloc_mask(pos) ^ slab::free_mask(pos));
    }
}

#[test]
fn zero_chunk_pool_is_always_exhausted() {
    let mut slab = SlabAllocator::<u8, 0>::new();
    assert!(slab.boxed(1).is_none());
    assert!(slab.borrow_chunk(0).is_none());
}

#[test]
fn chunk_state_queries_match_mask() {
    let chunk = slab::Chunk::<u8>::new();
    assert!(chunk.empty());
    assert!(!chunk.full());
    assert_eq!(Some(0), chunk.first_free());
    assert_eq!(u64::MAX, chunk.free_list);
}
