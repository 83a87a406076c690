//! Properties that relate several calls of the allocator, stated over the
//! step relations that its methods' contracts use.

use vstd::arithmetic::div_mod::lemma_div_is_ordered;
use vstd::prelude::*;

use crate::area_frame_allocator::{
    add_area_step, allocation_step, bump_step, deallocation_step, is_best_area, occupied_frame,
    qualifies, ready_step, skip_target, AllocatorView,
};
use crate::frame::{Frame, PhysicalMemoryArea, PAGE_SIZE};
use crate::vector_array::ARRAY_CAPACITY;

verus! {

/// A bump allocation keeps the freed frames and occupied regions, never moves
/// the bump pointer back, and returns an unoccupied frame at or past it.
proof fn lemma_bump_advances(old: AllocatorView, new: AllocatorView, r: Option<Frame>)
    requires
        bump_step(old, new, r),
    ensures
        new.freed == old.freed,
        new.occupied == old.occupied,
        old.next <= new.next,
        r matches Some(f) ==> {
            &&& old.next <= f.number
            &&& new.next == f.number + 1
            &&& !occupied_frame(old.occupied, f.number as int)
        },
{
    if old.current is Some {
        let m = choose|m: int| #[trigger] skip_target(old.occupied, old.next as int, m);
    }
}

/// After a successful bump allocation of `f`, the bump pointer is just past
/// `f`, and `f` is unoccupied and within the current region.
proof fn lemma_bump_result_in_current(old: AllocatorView, new: AllocatorView, f: Frame)
    requires
        bump_step(old, new, Some(f)),
    ensures
        new.next == f.number + 1,
        !occupied_frame(new.occupied, f.number as int),
        new.current matches Some(c) && c.first_frame() <= f.number <= c.last_frame(),
        new.occupied == old.occupied,
        new.available == old.available,
        new.freed == old.freed,
{
    let m = choose|m: int| #[trigger] skip_target(old.occupied, old.next as int, m);
    let a = old.current->0;
    if m > a.last_frame() {
        let k = choose|k: int|
            #[trigger] is_best_area(old.available, f.number as int, k)
                && new.current == Some(old.available[k]);
        assert(qualifies(old.available[k], f.number as int));
        let i = choose|i: int|
            0 <= i < old.available.len() && old.available[i].is_usable() && #[trigger] old.available[i].spans(
                f.number as int,
            );
        assert(qualifies(old.available[i], f.number as int));
        lemma_div_is_ordered(
            old.available[k].base_addr as int,
            old.available[i].base_addr as int,
            PAGE_SIZE as int,
        );
    }
}

proof fn lemma_run_prefix(
    states: Seq<AllocatorView>,
    use_freed: Seq<bool>,
    results: Seq<Option<Frame>>,
    n: int,
)
    requires
        states.len() == results.len() + 1,
        use_freed.len() == results.len(),
        states[0].freed.len() == 0,
        forall|i: int|
            0 <= i < results.len() ==> #[trigger] allocation_step(
                states[i],
                states[i + 1],
                use_freed[i],
                results[i],
            ),
        0 <= n <= results.len(),
    ensures
        forall|i: int|
            0 <= i <= n ==> (#[trigger] states[i]).freed.len() == 0 && states[i].occupied
                == states[0].occupied,
        forall|i: int, j: int| 0 <= i <= j <= n ==> (#[trigger] states[i]).next <= (#[trigger] states[j]).next,
    decreases n,
{
    if n > 0 {
        lemma_run_prefix(states, use_freed, results, n - 1);
        let i = n - 1;
        assert(allocation_step(states[i], states[i + 1], use_freed[i], results[i]));
        lemma_bump_advances(states[i], states[i + 1], results[i]);
    }
}

/// Allocations with no deallocation among them, starting with no freed frames,
/// return strictly increasing frame numbers, so none twice, and never a frame
/// that an occupied region spans.
pub proof fn lemma_allocations_increase(
    states: Seq<AllocatorView>,
    use_freed: Seq<bool>,
    results: Seq<Option<Frame>>,
)
    requires
        states.len() == results.len() + 1,
        use_freed.len() == results.len(),
        states[0].freed.len() == 0,
        forall|i: int|
            0 <= i < results.len() ==> #[trigger] allocation_step(
                states[i],
                states[i + 1],
                use_freed[i],
                results[i],
            ),
    ensures
        forall|i: int, j: int|
            0 <= i < j < results.len() && results[i] is Some && results[j] is Some
                ==> (#[trigger] results[i])->0.number < (#[trigger] results[j])->0.number,
        forall|i: int|
            0 <= i < results.len() && (#[trigger] results[i]) is Some ==> !occupied_frame(
                states[0].occupied,
                results[i]->0.number as int,
            ),
{
    lemma_run_prefix(states, use_freed, results, results.len() as int);
    assert forall|i: int|
        0 <= i < results.len() && (#[trigger] results[i]) is Some implies states[i].next
        <= results[i]->0.number && states[i + 1].next == results[i]->0.number + 1
        && !occupied_frame(states[0].occupied, results[i]->0.number as int) by {
        assert(allocation_step(states[i], states[i + 1], use_freed[i], results[i]));
        assert(states[i].freed.len() == 0);
        lemma_bump_advances(states[i], states[i + 1], results[i]);
    }
    assert forall|i: int, j: int|
        0 <= i < j < results.len() && results[i] is Some && results[j] is Some
            implies (#[trigger] results[i])->0.number < (#[trigger] results[j])->0.number by {
        assert(states[i + 1].next <= states[j].next);
    }
}

/// Freeing the frame that bump allocation has just handed out and allocating
/// again returns that same frame, with the freed frames as they were. The
/// first frame ever allocated is pinned, so it is left out.
pub proof fn lemma_free_then_reallocate(
    s0: AllocatorView,
    s1: AllocatorView,
    s2: AllocatorView,
    s3: AllocatorView,
    use_freed: bool,
    reuse: bool,
    f: Frame,
    r: Option<Frame>,
)
    requires
        !(use_freed && s0.freed.len() > 0),
        allocation_step(s0, s1, use_freed, Some(f)),
        s1.pinned != Some(f.number),
        deallocation_step(s1, s2, f),
        !(reuse && s1.freed.len() > 0),
        allocation_step(s2, s3, reuse, r),
    ensures
        r == Some(f),
        s2.freed == s1.freed,
        s3.freed == s1.freed,
{
    lemma_bump_result_in_current(s0, s1, f);
    assert(s2 == (AllocatorView { next: f.number, ..s1 }));
    let m = choose|m: int| #[trigger] skip_target(s2.occupied, s2.next as int, m);
    if m > f.number {
        assert(occupied_frame(s2.occupied, f.number as int));
    }
}

/// A frame freed away from the bump pointer, with no freed frames before, is
/// the next frame handed out when reuse is asked for, and that leaves the state
/// as it was before the free; the next allocation with reuse asked for then
/// comes from the bump pointer.
pub proof fn lemma_freed_frame_reused_first(
    s0: AllocatorView,
    s1: AllocatorView,
    s2: AllocatorView,
    s3: AllocatorView,
    f: Frame,
    r1: Option<Frame>,
    r2: Option<Frame>,
)
    requires
        s0.freed.len() == 0,
        !occupied_frame(s0.occupied, f.number as int),
        s0.pinned != Some(f.number),
        f.number + 1 != s0.next,
        deallocation_step(s0, s1, f),
        allocation_step(s1, s2, true, r1),
        allocation_step(s2, s3, true, r2),
    ensures
        r1 == Some(f),
        s2 == s0,
        bump_step(s2, s3, r2),
{
    assert(s1.freed == s0.freed.push(f.number));
    assert(s1.freed.drop_last() =~= s0.freed);
}

/// Adding a region to a bounded list that is full fails and changes nothing;
/// after the heap-ready transition the same addition succeeds.
pub proof fn lemma_full_list_grows_after_ready(
    s0: AllocatorView,
    s1: AllocatorView,
    s2: AllocatorView,
    s3: AllocatorView,
    area: PhysicalMemoryArea,
    available: bool,
    r1: Result<(), &'static str>,
    r2: Result<(), &'static str>,
)
    requires
        available ==> s0.available_bounded && s0.available.len() == ARRAY_CAPACITY,
        !available ==> s0.occupied_bounded && s0.occupied.len() == ARRAY_CAPACITY,
        add_area_step(s0, s1, area, available, r1),
        ready_step(s0, s2),
        add_area_step(s2, s3, area, available, r2),
    ensures
        r1 is Err,
        s1 == s0,
        r2 is Ok,
        available ==> s3.available == s0.available.push(area),
        !available ==> s3.occupied == s0.occupied.push(area),
{
}

} // verus!
