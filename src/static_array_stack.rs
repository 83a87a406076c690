//! A bounded last-in-first-out stack held in an inline array.

use vstd::prelude::*;

verus! {

/// The number of slots of the stack.
pub const STACK_CAPACITY: usize = 128;

/// A stack of at most [`STACK_CAPACITY`] values that never allocates.
pub struct StaticArrayStack<T> {
    arr: [T; 128],
    len: usize,
}

impl<T: Copy> View for StaticArrayStack<T> {
    type V = Seq<T>;

    /// The stored values, bottom first.
    closed spec fn view(&self) -> Seq<T> {
        self.arr@.subrange(0, self.len as int)
    }
}

impl<T: Copy + Default> StaticArrayStack<T> {
    pub closed spec fn wf(&self) -> bool {
        self.len <= STACK_CAPACITY
    }

    /// An empty stack.
    pub fn new() -> (r: StaticArrayStack<T>)
        ensures
            r.wf(),
            r@ == Seq::<T>::empty(),
    {
        let r = StaticArrayStack { arr: [T::default(); 128], len: 0 };
        assert(r@ =~= Seq::<T>::empty());
        r
    }

    /// Pushes `value` if there is room; on a full stack the value is dropped
    /// and the stack is unchanged.
    pub fn push_back(&mut self, value: T)
        requires
            old(self).wf(),
        ensures
            final(self).wf(),
            old(self)@.len() < STACK_CAPACITY ==> final(self)@ == old(self)@.push(value),
            old(self)@.len() >= STACK_CAPACITY ==> final(self)@ == old(self)@,
            final(self)@.len() <= STACK_CAPACITY,
    {
        if self.len < STACK_CAPACITY {
            let ghost before = self@;
            self.arr[self.len] = value;
            self.len = self.len + 1;
            assert(self@ =~= before.push(value));
        }
    }

    /// Removes and returns the most recently pushed value, or `None` when the
    /// stack is empty.
    pub fn pop_back(&mut self) -> (r: Option<T>)
        requires
            old(self).wf(),
        ensures
            final(self).wf(),
            old(self)@.len() == 0 ==> r is None && final(self)@ == old(self)@,
            old(self)@.len() > 0 ==> r == Some(old(self)@.last()) && final(self)@
                == old(self)@.drop_last(),
    {
        if self.len == 0 {
            None
        } else {
            let ghost before = self@;
            self.len = self.len - 1;
            assert(self@ =~= before.drop_last());
            Some(self.arr[self.len])
        }
    }

    /// The number of stored values.
    pub fn len(&self) -> (r: usize)
        requires
            self.wf(),
        ensures
            r == self@.len(),
            r <= STACK_CAPACITY,
    {
        self.len
    }
}

} // verus!
