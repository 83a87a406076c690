use area_frame_allocator::{AreaFrameAllocator, Frame, PhysicalMemoryArea, PAGE_SIZE};

fn empty() -> PhysicalMemoryArea {
    PhysicalMemoryArea::new(0, 0, 0)
}

fn build(available: &[PhysicalMemoryArea], occupied: &[PhysicalMemoryArea]) -> AreaFrameAllocator {
    let mut avail = [empty(); 32];
    let mut occ = [empty(); 32];
    avail[..available.len()].copy_from_slice(available);
    occ[..occupied.len()].copy_from_slice(occupied);
    match AreaFrameAllocator::new(avail, available.len(), occ, occupied.len()) {
        Ok(a) => a,
        Err(e) => panic!("construction failed: {}", e),
    }
}

fn frame(n: usize) -> Option<Frame> {
    Some(Frame { number: n })
}

#[test]
fn page_size_is_four_kib() {
    assert_eq!(PAGE_SIZE, 0x1000);
}

#[test]
fn sequential_allocation_skips_occupied_frame() {
    let mut a = build(
        &[PhysicalMemoryArea::new(0x0, 0x4000, 1)],
        &[PhysicalMemoryArea::new(0x1000, 0x1000, 1)],
    );
    assert_eq!(a.allocate_frame(false), frame(0));
    assert_eq!(a.allocate_frame(false), frame(2));
    assert_eq!(a.allocate_frame(false), frame(3));
    assert_eq!(a.allocate_frame(false), None);
}

#[test]
fn allocations_increase_and_avoid_occupied() {
    let mut a = build(
        &[
            PhysicalMemoryArea::new(0x10000, 0x3000, 1),
            PhysicalMemoryArea::new(0x0, 0x4000, 1),
        ],
        &[
            PhysicalMemoryArea::new(0x2000, 0x1000, 2),
            PhysicalMemoryArea::new(0x3000, 0x1000, 2),
            PhysicalMemoryArea::new(0x11000, 0x10, 2),
        ],
    );
    let mut got = Vec::new();
    while let Some(f) = a.allocate_frame(true) {
        got.push(f.number);
    }
    assert_eq!(got, vec![0, 1, 0x10, 0x12]);
}

#[test]
fn region_of_other_kind_is_never_used() {
    let mut a = build(
        &[
            PhysicalMemoryArea::new(0x0, 0x2000, 2),
            PhysicalMemoryArea::new(0x5000, 0x1000, 1),
        ],
        &[],
    );
    assert_eq!(a.allocate_frame(false), frame(5));
    assert_eq!(a.allocate_frame(false), None);
}

#[test]
fn no_usable_region_means_out_of_memory() {
    let mut a = build(&[PhysicalMemoryArea::new(0x0, 0x4000, 3)], &[]);
    assert_eq!(a.allocate_frame(true), None);
    assert_eq!(a.allocate_frames(1), None);
    let mut b = build(&[], &[]);
    assert_eq!(b.allocate_frame(false), None);
}

#[test]
fn lowest_base_region_is_consumed_first() {
    let mut a = build(
        &[
            PhysicalMemoryArea::new(0x8000, 0x1000, 1),
            PhysicalMemoryArea::new(0x2000, 0x1000, 1),
        ],
        &[],
    );
    assert_eq!(a.next_frame_number(), 2);
    assert_eq!(a.allocate_frame(false), frame(2));
    assert_eq!(a.allocate_frame(false), frame(8));
    assert_eq!(a.allocate_frame(false), None);
}

#[test]
fn region_ending_mid_frame_covers_that_frame() {
    let mut a = build(&[PhysicalMemoryArea::new(0x1800, 0x1000, 1)], &[]);
    assert_eq!(a.allocate_frame(false), frame(1));
    assert_eq!(a.allocate_frame(false), frame(2));
    assert_eq!(a.allocate_frame(false), None);
}

#[test]
fn occupied_regions_chained_are_all_skipped() {
    let mut a = build(
        &[PhysicalMemoryArea::new(0x0, 0x8000, 1)],
        &[
            PhysicalMemoryArea::new(0x3000, 0x2000, 1),
            PhysicalMemoryArea::new(0x0, 0x3000, 1),
            PhysicalMemoryArea::new(0x5000, 0x0, 1),
        ],
    );
    assert_eq!(a.allocate_frame(false), frame(5));
}

#[test]
fn freeing_latest_frame_returns_it_again() {
    let mut a = build(&[PhysicalMemoryArea::new(0x0, 0x10000, 1)], &[]);
    assert_eq!(a.allocate_frame(false), frame(0));
    assert_eq!(a.allocate_frame(false), frame(1));
    assert_eq!(a.allocate_frame(false), frame(2));
    a.deallocate_frame(Frame { number: 2 });
    assert_eq!(a.freed_frame_count(), 0);
    assert_eq!(a.next_frame_number(), 2);
    assert_eq!(a.allocate_frame(true), frame(2));
    assert_eq!(a.freed_frame_count(), 0);
    assert_eq!(a.next_frame_number(), 3);
}

#[test]
fn freed_frame_is_reused_before_bump_pointer() {
    let mut a = build(&[PhysicalMemoryArea::new(0x0, 0x10000, 1)], &[]);
    for n in 0..4 {
        assert_eq!(a.allocate_frame(false), frame(n));
    }
    a.deallocate_frame(Frame { number: 1 });
    assert_eq!(a.freed_frame_count(), 1);
    assert_eq!(a.allocate_frame(true), frame(1));
    assert_eq!(a.freed_frame_count(), 0);
    assert_eq!(a.allocate_frame(true), frame(4));
}

#[test]
fn freed_frames_come_back_last_in_first_out() {
    let mut a = build(&[PhysicalMemoryArea::new(0x0, 0x10000, 1)], &[]);
    for n in 0..6 {
        assert_eq!(a.allocate_frame(false), frame(n));
    }
    a.deallocate_frame(Frame { number: 1 });
    a.deallocate_frame(Frame { number: 3 });
    assert_eq!(a.allocate_frame(false), frame(6));
    assert_eq!(a.allocate_frame(true), frame(3));
    assert_eq!(a.allocate_frame(true), frame(1));
    assert_eq!(a.allocate_frame(true), frame(7));
}

#[test]
fn deallocating_occupied_or_pinned_frame_changes_nothing() {
    let mut a = build(
        &[PhysicalMemoryArea::new(0x0, 0x10000, 1)],
        &[PhysicalMemoryArea::new(0x4000, 0x1000, 1)],
    );
    assert_eq!(a.allocate_frame(false), frame(0));
    assert_eq!(a.allocate_frame(false), frame(1));
    a.deallocate_frame(Frame { number: 4 });
    assert_eq!(a.freed_frame_count(), 0);
    assert_eq!(a.next_frame_number(), 2);
    a.deallocate_frame(Frame { number: 0 });
    assert_eq!(a.freed_frame_count(), 0);
    assert_eq!(a.next_frame_number(), 2);
    assert_eq!(a.allocate_frame(true), frame(2));
}

#[test]
fn pinned_frame_just_below_bump_pointer_stays_pinned() {
    let mut a = build(&[PhysicalMemoryArea::new(0x3000, 0x4000, 1)], &[]);
    assert_eq!(a.allocate_frame(false), frame(3));
    a.deallocate_frame(Frame { number: 3 });
    assert_eq!(a.next_frame_number(), 4);
    assert_eq!(a.allocate_frame(false), frame(4));
}

#[test]
fn full_freed_stack_drops_further_frames() {
    let mut a = build(&[PhysicalMemoryArea::new(0x0, 0x1000000, 1)], &[]);
    for n in 0..300 {
        assert_eq!(a.allocate_frame(false), frame(n));
    }
    for n in 1..=129 {
        a.deallocate_frame(Frame { number: n });
    }
    assert_eq!(a.freed_frame_count(), 128);
    assert_eq!(a.allocate_frame(true), frame(128));
    assert_eq!(a.freed_frame_count(), 127);
}

#[test]
fn allocate_zero_frames_is_none() {
    let mut a = build(&[PhysicalMemoryArea::new(0x0, 0x3000, 1)], &[]);
    assert_eq!(a.allocate_frames(0), None);
    assert_eq!(a.next_frame_number(), 0);
    assert_eq!(a.allocate_frame(false), frame(0));
}

#[test]
fn allocate_two_contiguous_frames() {
    let mut a = build(&[PhysicalMemoryArea::new(0x0, 0x3000, 1)], &[]);
    let r = a.allocate_frames(2).expect("two frames");
    assert_eq!(r.start.number, 0);
    assert_eq!(r.end.number, 1);
    assert_eq!(a.allocate_frame(false), frame(2));
}

#[test]
fn contiguous_attempt_broken_by_occupied_frame_is_retried() {
    let mut a = build(
        &[PhysicalMemoryArea::new(0x0, 0x5000, 1)],
        &[PhysicalMemoryArea::new(0x1000, 0x1000, 1)],
    );
    let r = a.allocate_frames(2).expect("two frames");
    assert_eq!(r.start.number, 2);
    assert_eq!(r.end.number, 3);
    assert_eq!(a.allocate_frame(true), frame(4));
    assert_eq!(a.allocate_frame(true), None);
}

#[test]
fn contiguous_pair_after_occupied_frame() {
    let mut a = build(
        &[PhysicalMemoryArea::new(0x0, 0x4000, 1)],
        &[PhysicalMemoryArea::new(0x1000, 0x1000, 1)],
    );
    let r = a.allocate_frames(2).expect("two frames");
    assert_eq!((r.start.number, r.end.number), (2, 3));
    assert_eq!(a.allocate_frame(false), None);
}

#[test]
fn contiguous_request_without_room_is_none() {
    let mut a = build(
        &[PhysicalMemoryArea::new(0x0, 0x3000, 1)],
        &[PhysicalMemoryArea::new(0x1000, 0x1000, 1)],
    );
    assert_eq!(a.allocate_frames(2), None);
    assert_eq!(a.allocate_frame(false), None);
}

#[test]
fn contiguous_run_restarts_at_each_gap() {
    let mut a = build(
        &[PhysicalMemoryArea::new(0x0, 0x9000, 1)],
        &[
            PhysicalMemoryArea::new(0x2000, 0x1000, 1),
            PhysicalMemoryArea::new(0x5000, 0x1000, 1),
        ],
    );
    let r = a.allocate_frames(3).expect("three frames");
    assert_eq!((r.start.number, r.end.number), (6, 8));
}

#[test]
fn contiguous_frames_do_not_use_freed_frames() {
    let mut a = build(&[PhysicalMemoryArea::new(0x0, 0x10000, 1)], &[]);
    for n in 0..4 {
        assert_eq!(a.allocate_frame(false), frame(n));
    }
    a.deallocate_frame(Frame { number: 1 });
    let r = a.allocate_frames(3).expect("three frames");
    assert_eq!((r.start.number, r.end.number), (4, 6));
    assert_eq!(a.freed_frame_count(), 1);
}

#[test]
fn adding_to_full_list_fails_until_ready() {
    let areas: Vec<PhysicalMemoryArea> = (0..32)
        .map(|i| PhysicalMemoryArea::new(i * 0x2000, 0x1000, 1))
        .collect();
    let mut a = build(&areas, &areas);
    let extra = PhysicalMemoryArea::new(0x100000, 0x1000, 1);
    assert!(a.add_area(extra, true).is_err());
    assert!(a.add_area(extra, false).is_err());
    a.alloc_ready();
    assert!(a.add_area(extra, true).is_ok());
    assert!(a.add_area(extra, false).is_ok());
    a.alloc_ready();
    assert!(a.add_area(extra, true).is_ok());
}

#[test]
fn added_available_region_is_used_after_current() {
    let mut a = build(&[PhysicalMemoryArea::new(0x0, 0x1000, 1)], &[]);
    assert!(a.add_area(PhysicalMemoryArea::new(0x4000, 0x1000, 1), true).is_ok());
    assert_eq!(a.allocate_frame(false), frame(0));
    assert_eq!(a.allocate_frame(false), frame(4));
    assert_eq!(a.allocate_frame(false), None);
}

#[test]
fn added_occupied_region_is_skipped() {
    let mut a = build(&[PhysicalMemoryArea::new(0x0, 0x4000, 1)], &[]);
    assert!(a.add_area(PhysicalMemoryArea::new(0x0, 0x2000, 1), false).is_ok());
    assert_eq!(a.allocate_frame(false), frame(2));
}

#[test]
fn freeing_frame_below_current_region_does_not_move_bump_pointer() {
    let mut a = build(&[PhysicalMemoryArea::new(0x5000, 0x4000, 1)], &[]);
    assert_eq!(a.next_frame_number(), 5);
    a.deallocate_frame(Frame { number: 4 });
    assert_eq!(a.next_frame_number(), 5);
    assert_eq!(a.freed_frame_count(), 1);
    assert_eq!(a.allocate_frame(false), frame(5));
    let r = a.allocate_frames(1).expect("one frame");
    assert_eq!((r.start.number, r.end.number), (6, 6));
}
