//! A sequence that lives in a fixed inline array until a heap exists, and in a
//! growable vector after that.

use vstd::prelude::*;

verus! {

/// The number of slots of the inline array.
pub const ARRAY_CAPACITY: usize = 32;

/// Bounded inline storage (a count and its slots) or, after
/// [`VectorArray::upgrade_to_vector`], a growable vector.
pub enum VectorArray<T: Copy> {
    Array((usize, [T; 32])),
    Vector(Vec<T>),
}

impl<T: Copy> View for VectorArray<T> {
    type V = Seq<T>;

    /// The elements in order: the first `count` slots of the array, or the
    /// vector's contents.
    open spec fn view(&self) -> Seq<T> {
        match self {
            VectorArray::Array((count, arr)) => arr@.subrange(0, *count as int),
            VectorArray::Vector(v) => v@,
        }
    }
}

impl<T: Copy> VectorArray<T> {
    /// The count of an inline array never exceeds its slots.
    pub open spec fn wf(&self) -> bool {
        match self {
            VectorArray::Array((count, _)) => *count <= ARRAY_CAPACITY,
            VectorArray::Vector(_) => true,
        }
    }

    /// Still in bounded inline storage.
    pub open spec fn is_bounded(&self) -> bool {
        self is Array
    }

    /// Moves the elements, in order, into a growable vector; does nothing if
    /// that has already happened.
    pub fn upgrade_to_vector(&mut self)
        requires
            old(self).wf(),
        ensures
            final(self).wf(),
            final(self)@ == old(self)@,
            !final(self).is_bounded(),
    {
        let new_val = match self {
            VectorArray::Array((count, arr)) => {
                let count = *count;
                let mut v: Vec<T> = Vec::new();
                let mut i: usize = 0;
                while i < count
                    invariant
                        count <= ARRAY_CAPACITY,
                        i <= count,
                        v@ == arr@.subrange(0, i as int),
                    decreases count - i,
                {
                    v.push(arr[i]);
                    i += 1;
                    assert(v@ =~= arr@.subrange(0, i as int));
                }
                Some(VectorArray::Vector(v))
            },
            VectorArray::Vector(_) => None,
        };
        if let Some(nv) = new_val {
            *self = nv;
        }
    }

    /// Appends `value`. Fails, and changes nothing, when the inline array is
    /// full; always succeeds once upgraded.
    pub fn push(&mut self, value: T) -> (r: Result<(), &'static str>)
        requires
            old(self).wf(),
        ensures
            final(self).wf(),
            final(self).is_bounded() == old(self).is_bounded(),
            r is Err <==> (old(self).is_bounded() && old(self)@.len() == ARRAY_CAPACITY),
            r is Ok ==> final(self)@ == old(self)@.push(value),
            r is Err ==> final(self)@ == old(self)@,
    {
        match self {
            VectorArray::Array((count, arr)) => {
                if *count < ARRAY_CAPACITY {
                    let ghost before = arr@.subrange(0, *count as int);
                    arr[*count] = value;
                    *count += 1;
                    assert(arr@.subrange(0, *count as int) =~= before.push(value));
                    Ok(())
                } else {
                    Err("array is already full")
                }
            },
            VectorArray::Vector(v) => {
                v.push(value);
                Ok(())
            },
        }
    }

    /// The number of elements.
    pub fn len(&self) -> (r: usize)
        requires
            self.wf(),
        ensures
            r == self@.len(),
    {
        match self {
            VectorArray::Array((count, _)) => *count,
            VectorArray::Vector(v) => v.len(),
        }
    }

    /// The element at `i`.
    pub fn get(&self, i: usize) -> (r: T)
        requires
            self.wf(),
            i < self@.len(),
        ensures
            r == self@[i as int],
    {
        match self {
            VectorArray::Array((_, arr)) => arr[i],
            VectorArray::Vector(v) => v[i],
        }
    }
}

} // verus!
