//! The frame allocator: bump allocation over the available regions, avoiding
//! occupied regions, with recycling of freed frames.

use vstd::arithmetic::div_mod::lemma_div_is_ordered;
use vstd::prelude::*;

use crate::frame::{frame_limit, Frame, FrameRange, PhysicalMemoryArea, PAGE_SIZE};
use crate::static_array_stack::{StaticArrayStack, STACK_CAPACITY};
use crate::vector_array::{VectorArray, ARRAY_CAPACITY};

verus! {

/// The abstract state of an [`AreaFrameAllocator`].
pub struct AllocatorView {
    /// The bump pointer: the next frame that has not been decided yet.
    pub next: usize,
    /// The region the bump pointer is consuming, if any.
    pub current: Option<PhysicalMemoryArea>,
    /// The regions frames may be handed out of.
    pub available: Seq<PhysicalMemoryArea>,
    /// The regions whose frames are never handed out.
    pub occupied: Seq<PhysicalMemoryArea>,
    /// The available list is still in bounded storage.
    pub available_bounded: bool,
    /// The occupied list is still in bounded storage.
    pub occupied_bounded: bool,
    /// Freed frames awaiting reuse, most recent last.
    pub freed: Seq<usize>,
    /// The first frame ever bump-allocated, which is never recycled.
    pub pinned: Option<usize>,
}

/// Some occupied region spans frame `f`.
pub open spec fn occupied_frame(occupied: Seq<PhysicalMemoryArea>, f: int) -> bool {
    exists|i: int| 0 <= i < occupied.len() && #[trigger] occupied[i].spans(f)
}

/// Some usable available region spans frame `f`.
pub open spec fn usable_frame(available: Seq<PhysicalMemoryArea>, f: int) -> bool {
    exists|i: int| 0 <= i < available.len() && available[i].is_usable() && #[trigger] available[i].spans(f)
}

/// Frame `f` lies in usable memory and in no occupied region.
pub open spec fn free_frame(s: AllocatorView, f: int) -> bool {
    usable_frame(s.available, f) && !occupied_frame(s.occupied, f)
}

/// Region `a` is usable and ends at or after frame `next`.
pub open spec fn qualifies(a: PhysicalMemoryArea, next: int) -> bool {
    a.is_usable() && next <= a.last_frame()
}

/// Some region of `areas` qualifies at `next`.
pub open spec fn any_qualifies(areas: Seq<PhysicalMemoryArea>, next: int) -> bool {
    exists|j: int| 0 <= j < areas.len() && #[trigger] qualifies(areas[j], next)
}

/// Among the first `n` regions, `k` is the one that qualifies at `next` with
/// the lowest base address, the earliest in the list on a tie.
pub open spec fn is_best_area_among(areas: Seq<PhysicalMemoryArea>, n: int, next: int, k: int) -> bool {
    &&& 0 <= k < n <= areas.len()
    &&& qualifies(areas[k], next)
    &&& forall|j: int|
        0 <= j < n && #[trigger] qualifies(areas[j], next) ==> areas[k].base_addr < areas[j].base_addr
            || (areas[k].base_addr == areas[j].base_addr && k <= j)
}

/// Region `k` is the one the allocator selects at `next`.
pub open spec fn is_best_area(areas: Seq<PhysicalMemoryArea>, next: int, k: int) -> bool {
    is_best_area_among(areas, areas.len() as int, next, k)
}

/// `to` is the first frame at or after `from` that no occupied region spans.
pub open spec fn skip_target(occupied: Seq<PhysicalMemoryArea>, from: int, to: int) -> bool {
    &&& from <= to
    &&& !occupied_frame(occupied, to)
    &&& forall|g: int| from <= g < to ==> occupied_frame(occupied, g)
}

/// `f` is the first free frame at or after `from`.
pub open spec fn first_free_from(s: AllocatorView, from: int, f: int) -> bool {
    &&& from <= f
    &&& free_frame(s, f)
    &&& forall|g: int| from <= g < f ==> !free_frame(s, g)
}

/// `m` is the first frame at or after `from` that is not occupied and at which
/// no usable region is left.
pub open spec fn exhausted_from(s: AllocatorView, from: int, m: int) -> bool {
    &&& from <= m
    &&& !occupied_frame(s.occupied, m)
    &&& !any_qualifies(s.available, m)
    &&& forall|g: int| from <= g < m ==> occupied_frame(s.occupied, g) || any_qualifies(s.available, g)
}

/// The pinned frame after bump-allocating frame `f`.
pub open spec fn pin_after(pinned: Option<usize>, f: int) -> Option<usize> {
    if pinned is None {
        Some(f as usize)
    } else {
        pinned
    }
}

/// The region lists, their modes and the freed frames are the same.
pub open spec fn same_lists(old: AllocatorView, new: AllocatorView) -> bool {
    &&& new.available == old.available
    &&& new.occupied == old.occupied
    &&& new.available_bounded == old.available_bounded
    &&& new.occupied_bounded == old.occupied_bounded
    &&& new.freed == old.freed
}

/// Selecting the region to consume: the best region at the bump pointer, which
/// moves forward to that region's first frame if it lies below it.
pub open spec fn select_step(old: AllocatorView, new: AllocatorView) -> bool {
    &&& same_lists(old, new)
    &&& new.pinned == old.pinned
    &&& match new.current {
        None => !any_qualifies(old.available, old.next as int) && new.next == old.next,
        Some(a) => exists|k: int|
            #[trigger] is_best_area(old.available, old.next as int, k) && a == old.available[k]
                && new.next == (if old.next < a.first_frame() {
                a.first_frame()
            } else {
                old.next as int
            }),
    }
}

/// Bump allocation once the current region is used up: the first free frame at
/// or after the bump pointer, from the best region at that frame; or nothing,
/// and no current region, when no free frame is left.
pub open spec fn moved_on(old: AllocatorView, new: AllocatorView, r: Option<Frame>) -> bool {
    match r {
        Some(fr) => {
            &&& first_free_from(old, old.next as int, fr.number as int)
            &&& new.next == fr.number + 1
            &&& new.pinned == pin_after(old.pinned, fr.number as int)
            &&& exists|k: int|
                #[trigger] is_best_area(old.available, fr.number as int, k) && new.current == Some(
                    old.available[k],
                )
        },
        None => {
            &&& forall|g: int| old.next <= g ==> !free_frame(old, g)
            &&& exhausted_from(old, old.next as int, new.next as int)
            &&& new.current is None
            &&& new.pinned == old.pinned
        },
    }
}

/// Bump allocation. With no current region nothing happens. Otherwise the bump
/// pointer first skips occupied frames; if it is still within the current
/// region that frame is taken (it is the first free frame at or past the bump
/// pointer), else allocation moves on to later regions.
pub open spec fn bump_step(old: AllocatorView, new: AllocatorView, r: Option<Frame>) -> bool {
    match old.current {
        None => r is None && new == old,
        Some(a) => {
            &&& same_lists(old, new)
            &&& exists|m: int|
                #[trigger] skip_target(old.occupied, old.next as int, m) && if m <= a.last_frame() {
                    &&& r == Some(Frame { number: m as usize })
                    &&& first_free_from(old, old.next as int, m)
                    &&& a.first_frame() <= m
                    &&& new.next == m + 1
                    &&& new.current == old.current
                    &&& new.pinned == pin_after(old.pinned, m)
                } else {
                    moved_on(old, new, r)
                }
        },
    }
}

/// One call of `allocate_frame(use_freed)`: the most recently freed frame when
/// reuse is asked for and one is waiting, bump allocation otherwise.
pub open spec fn allocation_step(
    old: AllocatorView,
    new: AllocatorView,
    use_freed: bool,
    r: Option<Frame>,
) -> bool {
    if use_freed && old.freed.len() > 0 {
        &&& r == Some(Frame { number: old.freed.last() })
        &&& new == (AllocatorView { freed: old.freed.drop_last(), ..old })
    } else {
        bump_step(old, new, r)
    }
}

/// One call of `deallocate_frame(f)`: nothing for an occupied or pinned frame;
/// the bump pointer steps back for the frame just below it when that frame lies
/// in the current region; otherwise the frame is pushed for reuse, unless the
/// freed stack is full.
pub open spec fn deallocation_step(old: AllocatorView, new: AllocatorView, f: Frame) -> bool {
    if occupied_frame(old.occupied, f.number as int) || old.pinned == Some(f.number) {
        new == old
    } else if old.current matches Some(c) && c.first_frame() <= f.number && f.number + 1 == old.next {
        new == (AllocatorView { next: f.number, ..old })
    } else if old.freed.len() < STACK_CAPACITY {
        new == (AllocatorView { freed: old.freed.push(f.number), ..old })
    } else {
        new == old
    }
}

/// One call of `add_area(area, available)`: the region is appended to the
/// chosen list, unless that list is bounded and full.
pub open spec fn add_area_step(
    old: AllocatorView,
    new: AllocatorView,
    area: PhysicalMemoryArea,
    available: bool,
    r: Result<(), &'static str>,
) -> bool {
    if available {
        if old.available_bounded && old.available.len() == ARRAY_CAPACITY {
            r is Err && new == old
        } else {
            r is Ok && new == (AllocatorView { available: old.available.push(area), ..old })
        }
    } else {
        if old.occupied_bounded && old.occupied.len() == ARRAY_CAPACITY {
            r is Err && new == old
        } else {
            r is Ok && new == (AllocatorView { occupied: old.occupied.push(area), ..old })
        }
    }
}

/// Both region lists leave bounded storage; nothing else changes.
pub open spec fn ready_step(old: AllocatorView, new: AllocatorView) -> bool {
    new == (AllocatorView { available_bounded: false, occupied_bounded: false, ..old })
}

/// The state of a new allocator before it selects its first region.
pub open spec fn initial_view(
    available: Seq<PhysicalMemoryArea>,
    occupied: Seq<PhysicalMemoryArea>,
) -> AllocatorView {
    AllocatorView {
        next: 0,
        current: None,
        available,
        occupied,
        available_bounded: true,
        occupied_bounded: true,
        freed: Seq::empty(),
        pinned: None,
    }
}

/// The attempt in progress after bump allocation returned `frames` in turn to
/// a request for contiguous frames: its first frame and how many frames it
/// holds. A frame that does not follow the attempt ends it, its frames are
/// wasted, and that frame starts a new attempt.
pub open spec fn contiguous_scan(frames: Seq<usize>) -> (int, int)
    decreases frames.len(),
{
    if frames.len() == 0 {
        (0, 0)
    } else {
        let (start, count) = contiguous_scan(frames.drop_last());
        let f = frames.last() as int;
        if count == 0 {
            (f, 1)
        } else if f == start + count {
            (start, count + 1)
        } else {
            (f, 1)
        }
    }
}

/// A run of successful bump allocations: `states[i]` to `states[i + 1]`
/// returned `frames[i]`.
pub open spec fn bump_trace(states: Seq<AllocatorView>, frames: Seq<usize>) -> bool {
    &&& states.len() == frames.len() + 1
    &&& forall|i: int|
        0 <= i < frames.len() ==> #[trigger] bump_step(
            states[i],
            states[i + 1],
            Some(Frame { number: frames[i] }),
        )
}

proof fn lemma_first_le_last(a: PhysicalMemoryArea)
    requires
        a.size_in_bytes > 0,
    ensures
        a.first_frame() <= a.last_frame(),
{
    lemma_div_is_ordered(a.base_addr as int, a.base_addr + a.size_in_bytes - 1, PAGE_SIZE as int);
}

/// A region with a lower first frame has a lower base address.
proof fn lemma_base_below(a: PhysicalMemoryArea, b: PhysicalMemoryArea)
    requires
        a.first_frame() < b.first_frame(),
    ensures
        a.base_addr < b.base_addr,
{
    if a.base_addr >= b.base_addr {
        lemma_div_is_ordered(b.base_addr as int, a.base_addr as int, PAGE_SIZE as int);
    }
}

/// A region's last frame lies below the frame limit.
proof fn lemma_last_below_limit(a: PhysicalMemoryArea)
    ensures
        a.last_frame() < frame_limit(),
{
    let last = a.base_addr + a.size_in_bytes - 1;
    assert(last / 4096 <= usize::MAX as int / 2048) by (nonlinear_arith)
        requires
            last <= 2 * usize::MAX - 1,
            usize::MAX >= 0,
    ;
}

/// The best region at `n1` is still the best at a later frame it reaches.
proof fn lemma_best_later(areas: Seq<PhysicalMemoryArea>, n1: int, n2: int, k: int)
    requires
        is_best_area(areas, n1, k),
        n1 <= n2,
        qualifies(areas[k], n2),
    ensures
        is_best_area(areas, n2, k),
{
    assert forall|j: int| 0 <= j < areas.len() && #[trigger] qualifies(areas[j], n2) implies areas[k].base_addr
        < areas[j].base_addr || (areas[k].base_addr == areas[j].base_addr && k <= j) by {
        assert(qualifies(areas[j], n1));
    }
}

/// When no region qualifies at `n`, no usable frame lies at or past `n`.
proof fn lemma_nothing_usable_past(areas: Seq<PhysicalMemoryArea>, n: int, g: int)
    requires
        !any_qualifies(areas, n),
        n <= g,
    ensures
        !usable_frame(areas, g),
{
    if usable_frame(areas, g) {
        let i = choose|i: int| 0 <= i < areas.len() && areas[i].is_usable() && #[trigger] areas[i].spans(g);
        assert(qualifies(areas[i], n));
    }
}

/// Frames between `n` and the first frame of the best region at `n` are in no
/// usable region, though a region still qualifies there.
proof fn lemma_gap_before_best(areas: Seq<PhysicalMemoryArea>, n: int, k: int, g: int)
    requires
        is_best_area(areas, n, k),
        n <= g < areas[k].first_frame(),
    ensures
        !usable_frame(areas, g),
        any_qualifies(areas, g),
{
    lemma_first_le_last(areas[k]);
    assert(qualifies(areas[k], g));
    if usable_frame(areas, g) {
        let i = choose|i: int| 0 <= i < areas.len() && areas[i].is_usable() && #[trigger] areas[i].spans(g);
        assert(qualifies(areas[i], n));
        lemma_base_below(areas[i], areas[k]);
    }
}

/// A frame allocator that hands out frames of the available regions in
/// ascending order, never one that an occupied region spans.
pub struct AreaFrameAllocator {
    next_free_frame: Frame,
    current_area: Option<PhysicalMemoryArea>,
    available: VectorArray<PhysicalMemoryArea>,
    occupied: VectorArray<PhysicalMemoryArea>,
    freed_frame_list: StaticArrayStack<usize>,
    first_allocated_frame: Option<usize>,
}

impl View for AreaFrameAllocator {
    type V = AllocatorView;

    closed spec fn view(&self) -> AllocatorView {
        AllocatorView {
            next: self.next_free_frame.number,
            current: self.current_area,
            available: self.available@,
            occupied: self.occupied@,
            available_bounded: self.available.is_bounded(),
            occupied_bounded: self.occupied.is_bounded(),
            freed: self.freed_frame_list@,
            pinned: self.first_allocated_frame,
        }
    }
}

impl AreaFrameAllocator {
    /// The containers are well formed, the bump pointer lies at or below the
    /// frame limit, and the current region is a usable available region that
    /// starts at or below the bump pointer.
    pub closed spec fn wf(&self) -> bool {
        &&& self.available.wf()
        &&& self.occupied.wf()
        &&& self.freed_frame_list.wf()
        &&& self.next_free_frame.number <= frame_limit()
        &&& self.current_area matches Some(a) ==> {
            &&& a.is_usable()
            &&& a.first_frame() <= self.next_free_frame.number
            &&& exists|i: int| 0 <= i < self.available@.len() && self.available@[i] == a
        }
    }

    /// Advances the bump pointer past every occupied frame it stands on.
    fn skip_occupied_frames(&mut self)
        requires
            old(self).wf(),
        ensures
            final(self).wf(),
            final(self)@ == (AllocatorView { next: final(self)@.next, ..old(self)@ }),
            skip_target(old(self)@.occupied, old(self)@.next as int, final(self)@.next as int),
    {
        let ghost start = self@;
        let len = self.occupied.len();
        loop
            invariant
                self.wf(),
                start == old(self)@,
                len == start.occupied.len(),
                self@ == (AllocatorView { next: self@.next, ..start }),
                start.next <= self@.next,
                forall|g: int| start.next <= g < self@.next ==> occupied_frame(start.occupied, g),
            decreases frame_limit() - self.next_free_frame.number,
        {
            let next = self.next_free_frame.number;
            let mut i: usize = 0;
            let mut rerun = false;
            while !rerun && i < len
                invariant
                    self.wf(),
                    len == start.occupied.len(),
                    i <= len,
                    self@ == (AllocatorView { next: self@.next, ..start }),
                    start.next <= next,
                    forall|g: int| start.next <= g < self@.next ==> occupied_frame(start.occupied, g),
                    !rerun ==> self@.next == next,
                    !rerun ==> forall|j: int| 0 <= j < i ==> !start.occupied[j].spans(next as int),
                    rerun ==> next < self@.next,
                decreases len - i + (if rerun { 0int } else { 1 }),
            {
                let area = self.occupied.get(i);
                if area.contains_frame(next) {
                    let end = area.end_frame();
                    proof {
                        assert forall|g: int| start.next <= g < end + 1 implies occupied_frame(
                            start.occupied,
                            g,
                        ) by {
                            if g >= next {
                                assert(start.occupied[i as int].spans(g));
                            }
                        }
                    }
                    self.next_free_frame = Frame { number: end + 1 };
                    rerun = true;
                } else {
                    i += 1;
                }
            }
            if !rerun {
                return;
            }
        }
    }

    /// Whether an occupied region spans `frame`.
    fn in_occupided_area(&self, frame: Frame) -> (r: bool)
        requires
            self.wf(),
        ensures
            r == occupied_frame(self@.occupied, frame.number as int),
    {
        let len = self.occupied.len();
        let mut i: usize = 0;
        while i < len
            invariant
                self.wf(),
                len == self@.occupied.len(),
                i <= len,
                forall|j: int| 0 <= j < i ==> !self@.occupied[j].spans(frame.number as int),
            decreases len - i,
        {
            if self.occupied.get(i).contains_frame(frame.number) {
                return true;
            }
            i += 1;
        }
        false
    }

    /// Makes the best region at the bump pointer the current one, moving the
    /// bump pointer up to its first frame.
    fn select_next_area(&mut self)
        requires
            old(self).wf(),
        ensures
            final(self).wf(),
            select_step(old(self)@, final(self)@),
    {
        let ghost start = self@;
        let next = self.next_free_frame.number;
        let len = self.available.len();
        let mut best: Option<PhysicalMemoryArea> = None;
        let ghost mut best_k: int = 0;
        let mut i: usize = 0;
        while i < len
            invariant
                self.wf(),
                self@ == start,
                next == start.next,
                len == start.available.len(),
                i <= len,
                best is None ==> forall|j: int|
                    0 <= j < i ==> !#[trigger] qualifies(start.available[j], next as int),
                best is Some ==> is_best_area_among(start.available, i as int, next as int, best_k)
                    && best == Some(start.available[best_k]),
            decreases len - i,
        {
            let area = self.available.get(i);
            if area.typ == 1 && area.size_in_bytes > 0 && next <= area.end_frame() {
                let better = match best {
                    None => true,
                    Some(b) => area.base_addr < b.base_addr,
                };
                if better {
                    best = Some(area);
                    proof {
                        best_k = i as int;
                    }
                }
            }
            i += 1;
        }
        self.current_area = best;
        if let Some(area) = best {
            let first = area.start_frame();
            proof {
                lemma_first_le_last(area);
                lemma_last_below_limit(area);
            }
            if next < first {
                self.next_free_frame = Frame { number: first };
            }
            assert(is_best_area(start.available, start.next as int, best_k));
        }
    }

    /// Hands out one frame: the most recently freed one when
    /// `use_freed_frames` is set and one is waiting, else the next free frame
    /// of the regions. `None` means physical memory is exhausted.
    pub fn allocate_frame(&mut self, use_freed_frames: bool) -> (r: Option<Frame>)
        requires
            old(self).wf(),
        ensures
            final(self).wf(),
            allocation_step(old(self)@, final(self)@, use_freed_frames, r),
    {
        if use_freed_frames && self.freed_frame_list.len() > 0 {
            match self.freed_frame_list.pop_back() {
                Some(number) => {
                    return Some(Frame { number });
                },
                None => {},
            }
        }
        // The first pass may find a current region that the bump pointer has
        // already left; from the second pass on, the current region is the
        // best one at the bump pointer. `skipped` is where the first skip ended.
        let ghost start = self@;
        let ghost mut first_pass = true;
        let ghost mut skipped: int = 0;
        loop
            invariant
                self.wf(),
                start == old(self)@,
                !(use_freed_frames && start.freed.len() > 0),
                same_lists(start, self@),
                first_pass ==> self@ == start,
                !first_pass ==> {
                    &&& start.current matches Some(a) && skipped > a.last_frame()
                    &&& skip_target(start.occupied, start.next as int, skipped)
                    &&& self@.pinned == start.pinned
                    &&& start.next <= self@.next
                    &&& forall|g: int|
                        start.next <= g < self@.next ==> !free_frame(start, g) && (occupied_frame(
                            start.occupied,
                            g,
                        ) || any_qualifies(start.available, g))
                    &&& match self@.current {
                        Some(b) => exists|k: int|
                            #[trigger] is_best_area(start.available, self@.next as int, k) && b
                                == start.available[k] && b.first_frame() <= self@.next,
                        None => !occupied_frame(start.occupied, self@.next as int) && !any_qualifies(
                            start.available,
                            self@.next as int,
                        ),
                    }
                },
            decreases frame_limit() - self.next_free_frame.number, (if first_pass { 1int } else { 0 }),
        {
            match self.current_area {
                None => {
                    proof {
                        if !first_pass {
                            assert forall|g: int| start.next <= g implies !free_frame(start, g) by {
                                if g >= self@.next {
                                    lemma_nothing_usable_past(start.available, self@.next as int, g);
                                }
                            }
                            assert forall|g: int| start.next <= g < self@.next implies occupied_frame(
                                start.occupied,
                                g,
                            ) || any_qualifies(start.available, g) by {
                                assert(!free_frame(start, g));
                            }
                            assert(skip_target(start.occupied, start.next as int, skipped));
                        }
                    }
                    return None;
                },
                Some(area) => {
                    let ghost pre = self@;
                    self.skip_occupied_frames();
                    let number = self.next_free_frame.number;
                    let last = area.end_frame();
                    if number > last {
                        let ghost mid = self@;
                        proof {
                            if first_pass {
                                skipped = number as int;
                            } else {
                                let k = choose|k: int|
                                    #[trigger] is_best_area(start.available, pre.next as int, k)
                                        && area == start.available[k] && area.first_frame() <= pre.next;
                                assert(qualifies(start.available[k], pre.next as int));
                            }
                        }
                        self.select_next_area();
                        proof {
                            assert forall|g: int| start.next <= g < self@.next implies !free_frame(start, g)
                                && (occupied_frame(start.occupied, g) || any_qualifies(start.available, g)) by {
                                if g < pre.next {
                                    assert(!first_pass);
                                } else if g < mid.next {
                                    assert(occupied_frame(start.occupied, g));
                                } else {
                                    let c = self@.current->0;
                                    let k = choose|k: int|
                                        #[trigger] is_best_area(start.available, mid.next as int, k) && c
                                            == start.available[k];
                                    lemma_gap_before_best(start.available, mid.next as int, k, g);
                                }
                            }
                            if let Some(c) = self@.current {
                                let k = choose|k: int|
                                    #[trigger] is_best_area(start.available, mid.next as int, k) && c
                                        == start.available[k];
                                lemma_first_le_last(c);
                                lemma_best_later(start.available, mid.next as int, self@.next as int, k);
                            }
                            first_pass = false;
                        }
                    } else {
                        proof {
                            lemma_last_below_limit(area);
                            if !first_pass {
                                let k = choose|k: int|
                                    #[trigger] is_best_area(start.available, pre.next as int, k)
                                        && area == start.available[k] && area.first_frame() <= pre.next;
                                assert(start.available[k].spans(number as int));
                                lemma_best_later(start.available, pre.next as int, number as int, k);
                                assert(skip_target(start.occupied, start.next as int, skipped));
                            } else {
                                assert(skip_target(start.occupied, start.next as int, number as int));
                                let i = choose|i: int| 0 <= i < start.available.len() && start.available[i] == area;
                                assert(start.available[i].spans(number as int));
                                assert forall|g: int| start.next <= g < number implies !free_frame(start, g) by {
                                    assert(occupied_frame(start.occupied, g));
                                }
                            }
                        }
                        if self.first_allocated_frame.is_none() {
                            self.first_allocated_frame = Some(number);
                        }
                        self.next_free_frame = Frame { number: number + 1 };
                        return Some(Frame { number });
                    }
                },
            }
        }
    }

    /// Builds an allocator over the first `avail_len` regions of `available`
    /// and the first `occ_len` regions of `occupied`, and selects its first
    /// region. Always succeeds; with no usable region it has no current region.
    pub fn new(
        available: [PhysicalMemoryArea; 32],
        avail_len: usize,
        occupied: [PhysicalMemoryArea; 32],
        occ_len: usize,
    ) -> (r: Result<AreaFrameAllocator, &'static str>)
        requires
            avail_len <= ARRAY_CAPACITY,
            occ_len <= ARRAY_CAPACITY,
        ensures
            r is Ok,
            r matches Ok(a) ==> a.wf() && select_step(
                initial_view(
                    available@.subrange(0, avail_len as int),
                    occupied@.subrange(0, occ_len as int),
                ),
                a@,
            ),
    {
        let mut allocator = AreaFrameAllocator {
            next_free_frame: Frame::containing_address(0),
            current_area: None,
            available: VectorArray::Array((avail_len, available)),
            occupied: VectorArray::Array((occ_len, occupied)),
            freed_frame_list: StaticArrayStack::new(),
            first_allocated_frame: None,
        };
        assert(allocator@ == initial_view(
            available@.subrange(0, avail_len as int),
            occupied@.subrange(0, occ_len as int),
        ));
        allocator.select_next_area();
        Ok(allocator)
    }

    /// Appends `area` to the available list when `available` is set, else to
    /// the occupied list. Fails when that list is still bounded and full.
    pub fn add_area(&mut self, area: PhysicalMemoryArea, available: bool) -> (r: Result<(), &'static str>)
        requires
            old(self).wf(),
        ensures
            final(self).wf(),
            add_area_step(old(self)@, final(self)@, area, available, r),
    {
        let ghost before = self.available@;
        let r = if available {
            self.available.push(area)
        } else {
            self.occupied.push(area)
        };
        proof {
            if let Some(c) = self.current_area {
                let i = choose|i: int| 0 <= i < before.len() && before[i] == c;
                assert(self.available@[i] == c);
            }
        }
        r
    }

    /// Returns `frame` for reuse, unless an occupied region spans it or it is
    /// the pinned first frame. The frame just below the bump pointer is taken
    /// back by stepping the pointer down; any other is pushed on the freed
    /// stack, and dropped if that stack is full.
    pub fn deallocate_frame(&mut self, frame: Frame)
        requires
            old(self).wf(),
        ensures
            final(self).wf(),
            deallocation_step(old(self)@, final(self)@, frame),
    {
        let pinned = match self.first_allocated_frame {
            Some(p) => p == frame.number,
            None => false,
        };
        if !self.in_occupided_area(frame) && !pinned {
            let in_current = match self.current_area {
                Some(c) => c.start_frame() <= frame.number,
                None => false,
            };
            if in_current && self.next_free_frame.number > 0 && frame.number
                == self.next_free_frame.number - 1 {
                self.next_free_frame = Frame { number: frame.number };
            } else {
                self.freed_frame_list.push_back(frame.number);
            }
        }
    }

    /// Call once a heap exists: both region lists move to growable storage.
    pub fn alloc_ready(&mut self)
        requires
            old(self).wf(),
        ensures
            final(self).wf(),
            ready_step(old(self)@, final(self)@),
    {
        self.available.upgrade_to_vector();
        self.occupied.upgrade_to_vector();
    }

    /// Hands out `num_frames` contiguous frames by bump allocation. An attempt
    /// that meets a gap is abandoned and its frames wasted; the frame after the
    /// gap begins the new attempt. `None` for zero frames, and when memory runs
    /// out.
    pub fn allocate_frames(&mut self, num_frames: usize) -> (r: Option<FrameRange>)
        requires
            old(self).wf(),
        ensures
            final(self).wf(),
            num_frames == 0 ==> r is None && final(self)@ == old(self)@,
            num_frames > 0 ==> exists|states: Seq<AllocatorView>, frames: Seq<usize>|
                {
                    &&& #[trigger] bump_trace(states, frames)
                    &&& states[0] == old(self)@
                    &&& forall|j: int|
                        0 <= j <= frames.len() ==> (#[trigger] contiguous_scan(frames.take(j))).1
                            < num_frames || j == frames.len()
                    &&& match r {
                        Some(range) => {
                            &&& contiguous_scan(frames) == (range.start.number as int, num_frames as int)
                            &&& range.end.number == range.start.number + num_frames - 1
                            &&& final(self)@ == states.last()
                        },
                        None => {
                            &&& contiguous_scan(frames).1 < num_frames
                            &&& bump_step(states.last(), final(self)@, None)
                        },
                    }
                },
    {
        if num_frames == 0 {
            return None;
        }
        let ghost mut states: Seq<AllocatorView> = seq![self@];
        let ghost mut frames: Seq<usize> = Seq::empty();
        let mut first: usize = 0;
        let mut count: usize = 0;
        loop
            invariant
                self.wf(),
                0 < num_frames,
                count < num_frames,
                bump_trace(states, frames),
                states[0] == old(self)@,
                states.last() == self@,
                contiguous_scan(frames) == (first as int, count as int),
                count > 0 ==> first + count == self@.next,
                forall|j: int| 0 <= j <= frames.len() ==> (#[trigger] contiguous_scan(frames.take(j))).1 < num_frames,
            decreases frame_limit() - self.next_free_frame.number,
        {
            let ghost before = self@;
            match self.allocate_frame(false) {
                None => {
                    return None;
                },
                Some(f) => {
                    proof {
                        let m = choose|m: int| #[trigger] skip_target(before.occupied, before.next as int, m);
                        let old_states = states;
                        let old_frames = frames;
                        states = states.push(self@);
                        frames = frames.push(f.number);
                        assert(frames.drop_last() =~= old_frames);
                        assert forall|i: int| 0 <= i < frames.len() implies #[trigger] bump_step(
                            states[i],
                            states[i + 1],
                            Some(Frame { number: frames[i] }),
                        ) by {
                            if i < old_frames.len() {
                                assert(bump_step(old_states[i], old_states[i + 1], Some(Frame { number: old_frames[i] })));
                            }
                        }
                    }
                    if count == 0 {
                        first = f.number;
                        count = 1;
                    } else if f.number == first + count {
                        count = count + 1;
                    } else {
                        first = f.number;
                        count = 1;
                    }
                    proof {
                        assert(contiguous_scan(frames) == (first as int, count as int));
                        assert forall|j: int| 0 <= j < frames.len() implies (#[trigger] contiguous_scan(
                            frames.take(j),
                        )).1 < num_frames by {
                            assert(frames.take(j) =~= frames.drop_last().take(j));
                        }
                        assert(frames.take(frames.len() as int) =~= frames);
                    }
                    if count == num_frames {
                        let range = FrameRange::new(
                            Frame { number: first },
                            Frame { number: first + (num_frames - 1) },
                        );
                        assert(bump_trace(states, frames));
                        return Some(range);
                    }
                },
            }
        }
    }

    /// The bump pointer: the next frame not yet decided.
    pub fn next_frame_number(&self) -> (r: usize)
        ensures
            r == self@.next,
    {
        self.next_free_frame.number
    }

    /// How many freed frames wait for reuse.
    pub fn freed_frame_count(&self) -> (r: usize)
        requires
            self.wf(),
        ensures
            r == self@.freed.len(),
    {
        self.freed_frame_list.len()
    }
}

} // verus!
