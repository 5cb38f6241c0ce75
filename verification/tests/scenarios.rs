use leaky_bump::bumpalloc::{AllocError, Block, LeakyBumpAlloc};

const BASE: usize = 0x1_0000;

#[test]
fn fresh_arena_has_nothing_allocated() {
    let arena = LeakyBumpAlloc::new(1024, 8, BASE);
    assert_eq!(arena.allocated(), 0);
    assert_eq!(arena.capacity(), 1024);
    assert_eq!(arena.end(), BASE + 1024);
    assert_eq!(arena.ptr(), arena.end());
}

#[test]
fn fresh_arena_for_several_shapes() {
    let shapes: [(usize, usize); 6] = [(1, 1), (1, 4096), (7, 2), (100, 8), (4096, 4096), (65_536, 64)];
    for (capacity, alignment) in shapes {
        let arena = LeakyBumpAlloc::new(capacity, alignment, BASE);
        assert_eq!(arena.allocated(), 0);
        assert_eq!(arena.capacity(), capacity);
        assert_eq!(arena.end() - arena.ptr(), 0);
        assert_eq!(arena.end(), BASE + capacity);
    }
}

#[test]
fn kilobyte_arena_serves_then_refuses() {
    let mut arena = LeakyBumpAlloc::new(1024, 8, BASE);
    let end = arena.end();
    let first = arena.allocate(100);
    assert_eq!(first % 8, 0);
    assert!(end - first >= 100);
    assert_eq!(first, BASE + 920);
    assert_eq!(arena.allocated(), 104);
    assert_eq!(arena.ptr(), first);

    let refused = arena.try_allocate(1000);
    assert_eq!(refused, Err(AllocError::Exhausted { requested: 1104, capacity: 1024 }));
    assert_eq!(arena.allocated(), 104);
    assert_eq!(arena.ptr(), first);
}

#[test]
fn four_sixteens_fill_sixty_four() {
    let mut arena = LeakyBumpAlloc::new(64, 16, BASE);
    assert_eq!(arena.try_allocate(16), Ok(BASE + 48));
    assert_eq!(arena.try_allocate(16), Ok(BASE + 32));
    assert_eq!(arena.try_allocate(16), Ok(BASE + 16));
    assert_eq!(arena.allocated(), 48);
    assert!(arena.allocated() <= arena.capacity());

    assert_eq!(arena.try_allocate(16), Ok(BASE));
    assert_eq!(arena.allocated(), 64);
    assert_eq!(arena.ptr(), BASE);

    assert_eq!(
        arena.try_allocate(16),
        Err(AllocError::Exhausted { requested: 80, capacity: 64 })
    );
    assert_eq!(arena.allocated(), 64);
    assert_eq!(arena.capacity(), 64);
}

#[test]
fn served_ranges_are_aligned_and_disjoint() {
    let alignment: usize = 16;
    let sizes: [usize; 7] = [1, 7, 13, 32, 5, 16, 0];
    let mut arena = LeakyBumpAlloc::new(256, alignment, BASE);
    let mut ranges: Vec<(usize, usize)> = Vec::new();
    let mut consumed: usize = 0;
    for n in sizes {
        let before = arena.ptr();
        let addr = arena.allocate(n);
        assert_eq!(addr % alignment, 0);
        assert!(addr >= BASE);
        assert!(addr + n <= before);
        let padding = before - addr - n;
        assert!(padding < alignment);
        consumed += n + padding;
        ranges.push((addr, addr + n));
        assert_eq!(arena.allocated(), consumed);
        assert!(arena.allocated() <= arena.capacity());
    }
    for i in 0..ranges.len() {
        for j in (i + 1)..ranges.len() {
            let (lo_i, hi_i) = ranges[i];
            let (lo_j, hi_j) = ranges[j];
            assert!(hi_j <= lo_i || hi_i <= lo_j);
            assert!(hi_j <= lo_i);
        }
    }
    let addresses: Vec<usize> = ranges.iter().map(|r| r.0).collect();
    assert_eq!(
        addresses,
        vec![BASE + 240, BASE + 224, BASE + 208, BASE + 176, BASE + 160, BASE + 144, BASE + 144]
    );
    assert_eq!(arena.allocated(), 112);
}

#[test]
fn capacity_never_changes() {
    let mut arena = LeakyBumpAlloc::new(512, 32, BASE);
    let end = arena.end();
    for n in [3usize, 40, 64, 1, 0, 100] {
        arena.allocate(n);
        assert_eq!(arena.capacity(), 512);
        assert_eq!(arena.end(), end);
    }
    assert!(arena.try_allocate(10_000).is_err());
    assert_eq!(arena.capacity(), 512);
    assert_eq!(arena.end(), end);
}

#[test]
fn refused_request_leaves_arena_usable() {
    let mut arena = LeakyBumpAlloc::new(128, 8, BASE);
    assert_eq!(arena.try_allocate(64), Ok(BASE + 64));
    let refused = arena.try_allocate(65);
    assert_eq!(refused, Err(AllocError::Exhausted { requested: 136, capacity: 128 }));
    assert_eq!(arena.ptr(), BASE + 64);
    assert_eq!(arena.allocated(), 64);
    assert_eq!(arena.try_allocate(64), Ok(BASE));
    assert_eq!(arena.allocated(), 128);
}

#[test]
fn request_larger_than_the_cursor_address_underflows() {
    let mut arena = LeakyBumpAlloc::new(64, 16, 4096);
    assert_eq!(arena.try_allocate(4161), Err(AllocError::Underflow));
    assert_eq!(arena.try_allocate(usize::MAX), Err(AllocError::Underflow));
    assert_eq!(arena.allocated(), 0);
    assert_eq!(arena.ptr(), 4160);
    assert_eq!(
        arena.try_allocate(4160),
        Err(AllocError::Exhausted { requested: 4160, capacity: 64 })
    );
    assert_eq!(
        arena.try_allocate(100),
        Err(AllocError::Exhausted { requested: 112, capacity: 64 })
    );
    assert_eq!(arena.try_allocate(64), Ok(4096));
}

#[test]
fn unaligned_end_is_rounded_away_once() {
    let mut arena = LeakyBumpAlloc::new(100, 8, BASE);
    assert_eq!(arena.end(), BASE + 100);
    assert_eq!(arena.allocate(1), BASE + 96);
    assert_eq!(arena.allocated(), 4);
    assert_eq!(arena.allocate(1), BASE + 88);
    assert_eq!(arena.allocated(), 12);
    assert_eq!(arena.allocate(8), BASE + 80);
    assert_eq!(arena.allocated(), 20);
}

#[test]
fn empty_request_moves_only_to_the_boundary() {
    let mut aligned = LeakyBumpAlloc::new(64, 16, BASE);
    assert_eq!(aligned.allocate(0), BASE + 64);
    assert_eq!(aligned.allocated(), 0);

    let mut ragged = LeakyBumpAlloc::new(70, 16, BASE);
    assert_eq!(ragged.allocate(0), BASE + 64);
    assert_eq!(ragged.allocated(), 6);
    assert_eq!(ragged.allocate(0), BASE + 64);
    assert_eq!(ragged.allocated(), 6);
}

#[test]
fn request_for_the_whole_block_fits_exactly() {
    let mut arena = LeakyBumpAlloc::new(4096, 4096, 0x10_0000);
    assert_eq!(arena.try_allocate(4096), Ok(0x10_0000));
    assert_eq!(arena.allocated(), 4096);
    assert_eq!(
        arena.try_allocate(1),
        Err(AllocError::Exhausted { requested: 8192, capacity: 4096 })
    );
    assert_eq!(arena.try_allocate(0), Ok(0x10_0000));
}

#[test]
fn one_byte_too_many_is_refused() {
    let mut arena = LeakyBumpAlloc::new(4096, 4096, 0x10_0000);
    assert_eq!(
        arena.try_allocate(4097),
        Err(AllocError::Exhausted { requested: 8192, capacity: 4096 })
    );
    assert_eq!(arena.allocated(), 0);
}

#[test]
fn byte_alignment_adds_no_padding() {
    let mut arena = LeakyBumpAlloc::new(10, 1, 7);
    assert_eq!(arena.allocate(3), 14);
    assert_eq!(arena.allocate(4), 10);
    assert_eq!(arena.allocated(), 7);
    assert_eq!(arena.try_allocate(4), Err(AllocError::Exhausted { requested: 11, capacity: 10 }));
    assert_eq!(arena.allocate(3), 7);
    assert_eq!(arena.allocated(), 10);
}

#[test]
fn block_at_the_top_of_the_address_space() {
    let start = usize::MAX - 23;
    let mut arena = LeakyBumpAlloc::new(16, 8, start);
    assert_eq!(arena.end(), usize::MAX - 7);
    assert_eq!(arena.allocate(5), start + 8);
    assert_eq!(arena.allocated(), 8);
    assert_eq!(arena.allocate(8), start);
    assert_eq!(arena.try_allocate(1), Err(AllocError::Exhausted { requested: 24, capacity: 16 }));
}

#[test]
fn clear_names_the_block_it_was_given() {
    let mut arena = LeakyBumpAlloc::new(1024, 64, BASE);
    arena.allocate(200);
    arena.allocate(17);
    let block = arena.clear();
    assert_eq!(block, Block { start: BASE, capacity: 1024, alignment: 64 });
}

#[test]
fn clear_of_a_fresh_arena() {
    let block = LeakyBumpAlloc::new(1, 1, 1).clear();
    assert_eq!(block.start, 1);
    assert_eq!(block.capacity, 1);
    assert_eq!(block.alignment, 1);
}

#[test]
fn arenas_do_not_share_a_cursor() {
    let mut first = LeakyBumpAlloc::new(256, 8, BASE);
    let mut second = LeakyBumpAlloc::new(256, 8, BASE + 256);
    let a = first.allocate(100);
    let b = second.allocate(100);
    assert_eq!(a, BASE + 152);
    assert_eq!(b, BASE + 256 + 152);
    assert!(a + 100 <= first.end());
    assert!(b >= first.end());
    assert_eq!(first.allocated(), 104);
    assert_eq!(second.allocated(), 104);
}
