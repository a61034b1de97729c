//! A minimal growable array.
//!
//! Storage is allocated up front and filled with default values; the first
//! `len` slots are the live elements.  The capacity doubles whenever a push
//! finds the storage full.

use vstd::prelude::*;

verus! {

/// A growable vector: `elements` is the allocated storage, whose length is
/// the capacity, and the first `len` slots hold the live elements.
pub struct ToyVec<T> {
    elements: Vec<T>,
    len: usize,
}

/// An iterator over the live elements of a `ToyVec`, front to back.
pub struct Iter<'vec, T> {
    elements: &'vec Vec<T>,
    len: usize,
    pos: usize,
}

impl<T> View for ToyVec<T> {
    type V = Seq<T>;

    /// The live elements, in order.
    closed spec fn view(&self) -> Seq<T> {
        self.elements@.take(self.len as int)
    }
}

impl<T: Default> ToyVec<T> {
    /// The number of live elements never exceeds the allocated storage.
    pub closed spec fn wf(&self) -> bool {
        self.len <= self.elements@.len()
    }

    /// The size of the allocated storage.
    pub closed spec fn spec_capacity(&self) -> nat {
        self.elements@.len()
    }

    /// An empty vector with no storage.
    pub fn new() -> (r: Self)
        ensures
            r.wf(),
            r@ == Seq::<T>::empty(),
            r.spec_capacity() == 0,
    {
        Self::with_capacity(0)
    }

    /// An empty vector with storage for `capacity` elements.
    pub fn with_capacity(capacity: usize) -> (r: Self)
        ensures
            r.wf(),
            r@ == Seq::<T>::empty(),
            r.spec_capacity() == capacity,
    {
        let r = Self { elements: Self::allocate_in_heap(capacity), len: 0 };
        proof {
            assert(r@ =~= Seq::<T>::empty());
        }
        r
    }

    /// Storage for `size` elements, holding default values.
    fn allocate_in_heap(size: usize) -> (r: Vec<T>)
        ensures
            r@.len() == size,
    {
        let mut buffer: Vec<T> = Vec::new();
        let mut filled: usize = 0;
        while filled < size
            invariant
                filled <= size,
                buffer@.len() == filled,
            decreases size - filled,
        {
            buffer.push(T::default());
            filled += 1;
        }
        buffer
    }

    /// The number of live elements.
    pub fn len(&self) -> (r: usize)
        requires
            self.wf(),
        ensures
            r == self@.len(),
    {
        self.len
    }

    /// The size of the allocated storage.
    pub fn capacity(&self) -> (r: usize)
        ensures
            r == self.spec_capacity(),
    {
        self.elements.len()
    }

    /// Appends `element` at the back, doubling the storage when it is full.
    pub fn push(&mut self, element: T)
        requires
            old(self).wf(),
            old(self).spec_capacity() <= usize::MAX / 2,
        ensures
            final(self).wf(),
            final(self)@ == old(self)@.push(element),
    {
        if self.len == self.capacity() {
            self.grow();
        }
        let ghost live = self@;
        let _freed = self.elements.remove(self.len);
        self.elements.insert(self.len, element);
        self.len = self.len + 1;
        proof {
            assert(self@ =~= live.push(element));
        }
    }

    /// The element at `index`, or nothing when `index` is out of bounds.
    pub fn get(&self, index: usize) -> (r: Option<&T>)
        requires
            self.wf(),
        ensures
            match r {
                Some(v) => index < self@.len() && *v == self@[index as int],
                None => index >= self@.len(),
            },
    {
        if index < self.len {
            Some(&self.elements[index])
        } else {
            None
        }
    }

    /// The element at `index`, or `default` when `index` is out of bounds.
    pub fn get_or<'a>(&'a self, index: usize, default: &'a T) -> (r: &'a T)
        requires
            self.wf(),
        ensures
            *r == if index < self@.len() {
                self@[index as int]
            } else {
                *default
            },
    {
        match self.get(index) {
            Some(v) => v,
            None => default,
        }
    }

    /// Removes and returns the last element; the freed slot is reset to the
    /// default value, and the storage keeps its size.
    pub fn pop(&mut self) -> (r: Option<T>)
        requires
            old(self).wf(),
        ensures
            final(self).wf(),
            final(self).spec_capacity() == old(self).spec_capacity(),
            match r {
                Some(v) => old(self)@.len() > 0 && v == old(self)@.last() && final(self)@ == old(
                    self,
                )@.drop_last(),
                None => old(self)@.len() == 0 && final(self)@ == old(self)@,
            },
    {
        if self.len == 0 {
            None
        } else {
            let ghost live = self@;
            self.len = self.len - 1;
            let elem = self.elements.remove(self.len);
            self.elements.insert(self.len, T::default());
            proof {
                assert(self@ =~= live.drop_last());
            }
            Some(elem)
        }
    }

    /// Replaces the storage with one twice as large (one slot from none),
    /// keeping the live elements.
    fn grow(&mut self)
        requires
            old(self).wf(),
            old(self).spec_capacity() <= usize::MAX / 2,
        ensures
            final(self).wf(),
            final(self)@ == old(self)@,
            final(self).spec_capacity() == if old(self).spec_capacity() == 0 {
                1nat
            } else {
                old(self).spec_capacity() * 2
            },
            final(self).spec_capacity() > old(self)@.len(),
    {
        let ghost live = self@;
        if self.capacity() == 0 {
            self.elements = Self::allocate_in_heap(1);
            proof {
                assert(self@ =~= live);
            }
        } else {
            let target = self.capacity() * 2;
            let mut added: usize = self.capacity();
            while added < target
                invariant
                    added <= target,
                    self.elements@.len() == added,
                    self.len <= added,
                    self.elements@.take(self.len as int) == live,
                    self.len == live.len(),
                decreases target - added,
            {
                let ghost storage = self.elements@;
                self.elements.push(T::default());
                proof {
                    assert(self.elements@.take(self.len as int) =~= storage.take(
                        self.len as int,
                    ));
                }
                added += 1;
            }
        }
    }

    /// An iterator over the live elements.
    pub fn iter<'vec>(&'vec self) -> (r: Iter<'vec, T>)
        requires
            self.wf(),
        ensures
            r.wf(),
            r.items() == self@,
            r.remaining() == self@,
    {
        Iter { elements: &self.elements, len: self.len, pos: 0 }
    }
}

impl<'vec, T> Iter<'vec, T> {
    /// The position already handed out never passes the end.
    pub closed spec fn wf(&self) -> bool {
        self.pos <= self.len <= self.elements@.len()
    }

    /// All elements the iterator ranges over.
    pub closed spec fn items(&self) -> Seq<T> {
        self.elements@.take(self.len as int)
    }

    /// The elements not yet handed out.
    pub closed spec fn remaining(&self) -> Seq<T> {
        self.elements@.take(self.len as int).skip(self.pos as int)
    }

    /// The next element, front to back, or nothing once all live elements
    /// have been handed out.
    pub fn next(&mut self) -> (r: Option<&'vec T>)
        requires
            old(self).wf(),
        ensures
            final(self).wf(),
            final(self).items() == old(self).items(),
            match r {
                Some(v) => old(self).remaining().len() > 0 && *v == old(self).remaining().first()
                    && final(self).remaining() == old(self).remaining().drop_first(),
                None => old(self).remaining().len() == 0 && final(self).remaining() == old(
                    self,
                ).remaining(),
            },
    {
        if self.pos >= self.len {
            None
        } else {
            let ghost before = self.remaining();
            let res = Some(&self.elements[self.pos]);
            self.pos = self.pos + 1;
            proof {
                assert(self.remaining() =~= before.drop_first());
            }
            res
        }
    }
}

} // verus!
