//! A container whose capacity is set once, when it is made: a push onto a full
//! one hands the value back.

use crate::buffer::allocatable;
use crate::buffer::RawBuffer;
use crate::rendering::debug_text;
use crate::rendering::listing;
use crate::rendering::render_list;
use crate::rendering::texts;
use vstd::prelude::*;

verus! {

/// A fixed-capacity array over one allocation made at construction.
pub struct Array<T> {
    buffer: RawBuffer<T>,
}

impl<T> View for Array<T> {
    type V = Seq<T>;

    /// The elements held, oldest first.
    closed spec fn view(&self) -> Seq<T> {
        self.buffer@
    }
}

impl<T> Array<T> {
    /// The capacity the array was made with.
    pub closed spec fn spec_capacity(&self) -> usize {
        self.buffer.spec_capacity()
    }

    /// The array owns an allocation of at least one slot, and its elements fit
    /// in it.
    pub open spec fn wf(&self) -> bool {
        &&& 0 < self.spec_capacity()
        &&& self@.len() <= self.spec_capacity()
        &&& allocatable::<T>(self.spec_capacity())
    }

    /// An empty array with room for `capacity` elements.
    pub fn new(capacity: usize) -> (array: Self)
        requires
            capacity > 0,
            allocatable::<T>(capacity),
        ensures
            array.wf(),
            array.spec_capacity() == capacity,
            array@ == Seq::<T>::empty(),
    {
        Array { buffer: RawBuffer::allocate(capacity) }
    }

    /// The number of elements held.
    pub fn len(&self) -> (len: usize)
        ensures
            len == self@.len(),
    {
        self.buffer.len()
    }

    /// Whether the array holds no element.
    pub fn is_empty(&self) -> (empty: bool)
        ensures
            empty <==> self@.len() == 0,
    {
        self.len() == 0
    }

    /// The number of elements the array can hold.
    pub fn capacity(&self) -> (capacity: usize)
        ensures
            capacity == self.spec_capacity(),
    {
        self.buffer.capacity()
    }

    /// Appends `value` if a slot is free, and hands it back in `Err` if the
    /// array is full.
    pub fn push(&mut self, value: T) -> (outcome: Result<(), T>)
        requires
            old(self).wf(),
        ensures
            final(self).wf(),
            final(self).spec_capacity() == old(self).spec_capacity(),
            old(self)@.len() < old(self).spec_capacity() ==> outcome == Ok::<(), T>(())
                && final(self)@ == old(self)@.push(value),
            old(self)@.len() >= old(self).spec_capacity() ==> outcome == Err::<(), T>(value)
                && final(self)@ == old(self)@,
    {
        if self.buffer.len() >= self.buffer.capacity() {
            return Err(value);
        }
        self.buffer.write(value);
        Ok(())
    }

    /// Removes the last element and returns it, or returns `None` if the array
    /// is empty.
    pub fn pop(&mut self) -> (value: Option<T>)
        requires
            old(self).wf(),
        ensures
            final(self).wf(),
            final(self).spec_capacity() == old(self).spec_capacity(),
            old(self)@.len() == 0 ==> value is None && final(self)@ == old(self)@,
            old(self)@.len() > 0 ==> value == Some(old(self)@.last()) && final(self)@ == old(
                self,
            )@.drop_last(),
    {
        self.buffer.read_last()
    }

    /// The element at `index`, or `None` if `index` is not below the length.
    pub fn get(&self, index: usize) -> (element: Option<&T>)
        ensures
            index < self@.len() ==> element == Some(&self@[index as int]),
            index >= self@.len() ==> element is None,
    {
        self.buffer.slot(index)
    }

    /// The element at `index` for writing, or `None` if `index` is not below
    /// the length. The array afterwards differs from the one before in that
    /// element alone, which is what the caller left in it.
    pub fn get_mut(&mut self, index: usize) -> (element: Option<&mut T>)
        ensures
            final(self).spec_capacity() == old(self).spec_capacity(),
            index >= old(self)@.len() ==> element is None && final(self)@ == old(self)@,
            index < old(self)@.len() ==> element is Some && *element.unwrap() == old(self)@[index as int]
                && final(self)@ == old(self)@.update(index as int, *final(element.unwrap())),
    {
        self.buffer.slot_mut(index)
    }

    /// Replaces the element at `index` by `value`; the element that was there
    /// is released.
    pub fn set(&mut self, index: usize, value: T)
        requires
            index < old(self)@.len(),
        ensures
            final(self).spec_capacity() == old(self).spec_capacity(),
            final(self)@ == old(self)@.update(index as int, value),
    {
        *self.buffer.at_mut(index) = value;
    }

    /// An array of the given capacity that holds a clone of each element of
    /// `slice`, in order; `None` if the slice has more elements than that.
    pub fn from_slice(slice: &[T], capacity: usize) -> (made: Option<Self>) where T: Clone
        requires
            slice@.len() <= capacity ==> capacity > 0 && allocatable::<T>(capacity),
        ensures
            slice@.len() > capacity <==> made is None,
            made matches Some(array) ==> {
                &&& array.wf()
                &&& array.spec_capacity() == capacity
                &&& array@.len() == slice@.len()
                &&& forall|i: int| 0 <= i < slice@.len() ==> cloned::<T>(slice@[i], #[trigger] array@[i])
            },
    {
        if slice.len() > capacity {
            return None;
        }
        let mut array = Self::new(capacity);
        let mut i: usize = 0;
        while i < slice.len()
            invariant
                i <= slice@.len() <= capacity,
                array.wf(),
                array.spec_capacity() == capacity,
                array@.len() == i,
                forall|j: int| 0 <= j < i ==> cloned::<T>(slice@[j], #[trigger] array@[j]),
            decreases slice@.len() - i,
        {
            let copy = slice[i].clone();
            match array.push(copy) {
                Ok(_) => {},
                Err(_) => {
                    return None;
                },
            }
            i += 1;
        }
        Some(array)
    }

    /// Releases every element and keeps the allocation.
    pub fn clear(&mut self)
        requires
            old(self).wf(),
        ensures
            final(self).wf(),
            final(self).spec_capacity() == old(self).spec_capacity(),
            final(self)@ == Seq::<T>::empty(),
    {
        while self.buffer.len() > 0
            invariant
                self.wf(),
                self.spec_capacity() == old(self).spec_capacity(),
            decreases self@.len(),
        {
            let _ = self.buffer.read_last();
        }
        assert(self@ =~= Seq::<T>::empty());
    }

    /// The elements as a slice.
    pub fn as_slice(&self) -> (slice: &[T])
        ensures
            slice@ == self@,
    {
        self.buffer.as_slice()
    }

    /// The debug text of the array: its elements' own debug texts, in order,
    /// separated by `", "` and enclosed in `[` and `]`.
    pub fn to_debug_string(&self) -> (text: String) where T: core::fmt::Debug
        ensures
            exists|parts: Seq<Seq<char>>| parts.len() == self@.len() && text@ == listing(parts),
    {
        let mut parts: Vec<String> = Vec::new();
        let mut i: usize = 0;
        while i < self.buffer.len()
            invariant
                i <= self@.len(),
                parts@.len() == i,
            decreases self@.len() - i,
        {
            parts.push(debug_text(self.buffer.at(i)));
            i += 1;
        }
        let text = render_list(&parts);
        assert(texts(parts@).len() == self@.len());
        text
    }
}

impl<T> core::ops::Index<usize> for Array<T> {
    type Output = T;

    /// The element at `index`, which must be below the length.
    fn index(&self, index: usize) -> (element: &T)
        ensures
            *element == self@[index as int],
    {
        self.buffer.at(index)
    }
}

impl<T> vstd::std_specs::core::IndexSpecImpl<usize> for Array<T> {
    open spec fn index_req(&self, index: &usize) -> bool {
        *index < self@.len()
    }
}

} // verus!
