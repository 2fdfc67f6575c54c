//! The storage behind both containers: one contiguous region whose capacity is
//! tracked beside it, so that every resize and release knows the size it acts on.

use vstd::layout::size_of;
use vstd::prelude::*;

verus! {

/// A region of `capacity` elements of `T` is no larger than an allocation may
/// be. Verus knows the size of the primitive types; the size of another
/// element type is made known to it by a `global layout` item.
pub open spec fn allocatable<T>(capacity: usize) -> bool {
    capacity * size_of::<T>() <= isize::MAX
}

/// A region that may be asked for stays one when it is made smaller.
pub proof fn allocatable_downward<T>(smaller: usize, larger: usize)
    requires
        smaller <= larger,
        allocatable::<T>(larger),
    ensures
        allocatable::<T>(smaller),
{
    assert(smaller * size_of::<T>() <= larger * size_of::<T>()) by (nonlinear_arith)
        requires
            smaller <= larger,
    ;
}

/// `Vec::reserve_exact`: makes room for `additional` more elements and leaves
/// the elements as they are. The request must stay within what an allocation
/// may hold, or the call panics.
#[verifier::external_body]
fn reserve_exact<T>(cells: &mut Vec<T>, additional: usize)
    requires
        old(cells)@.len() + additional <= usize::MAX,
        (old(cells)@.len() + additional) * size_of::<T>() <= isize::MAX,
    ensures
        final(cells)@ == old(cells)@,
{
    cells.reserve_exact(additional);
}

/// `Vec::shrink_to`: gives back room above `min_capacity` (and above the
/// length) and leaves the elements as they are.
#[verifier::external_body]
fn shrink_to<T>(cells: &mut Vec<T>, min_capacity: usize)
    ensures
        final(cells)@ == old(cells)@,
{
    cells.shrink_to(min_capacity);
}

/// One exclusively owned region with room for `capacity()` elements, of which
/// the first `len()` are initialized.
pub struct RawBuffer<T> {
    cells: Vec<T>,
    capacity: usize,
}

impl<T> View for RawBuffer<T> {
    type V = Seq<T>;

    /// The initialized elements, in slot order.
    closed spec fn view(&self) -> Seq<T> {
        self.cells@
    }
}

impl<T> RawBuffer<T> {
    /// The number of slots the region provides.
    pub closed spec fn spec_capacity(&self) -> usize {
        self.capacity
    }

    /// The initialized slots fit in the region, and the region is one that an
    /// allocator can provide.
    pub open spec fn wf(&self) -> bool {
        &&& self@.len() <= self.spec_capacity()
        &&& allocatable::<T>(self.spec_capacity())
    }

    /// The buffer that holds no allocation.
    pub fn empty() -> (buffer: Self)
        ensures
            buffer.wf(),
            buffer.spec_capacity() == 0,
            buffer@ == Seq::<T>::empty(),
    {
        assert(0 * size_of::<T>() == 0) by (nonlinear_arith);
        RawBuffer { cells: Vec::new(), capacity: 0 }
    }

    /// A fresh region for `capacity` elements, none of them initialized.
    pub fn allocate(capacity: usize) -> (buffer: Self)
        requires
            capacity > 0,
            allocatable::<T>(capacity),
        ensures
            buffer.wf(),
            buffer.spec_capacity() == capacity,
            buffer@ == Seq::<T>::empty(),
    {
        RawBuffer { cells: Vec::with_capacity(capacity), capacity }
    }

    /// Resizes the region to `new_capacity` slots, keeping every initialized
    /// element in its slot.
    pub fn reallocate(&mut self, new_capacity: usize)
        requires
            old(self).wf(),
            old(self).spec_capacity() > 0,
            new_capacity > 0,
            old(self)@.len() <= new_capacity,
            allocatable::<T>(new_capacity),
        ensures
            final(self).wf(),
            final(self).spec_capacity() == new_capacity,
            final(self)@ == old(self)@,
    {
        if new_capacity > self.capacity {
            let additional = new_capacity - self.cells.len();
            reserve_exact(&mut self.cells, additional);
        } else {
            shrink_to(&mut self.cells, new_capacity);
        }
        self.capacity = new_capacity;
    }

    /// Releases the region. Only a region that exists and holds no initialized
    /// element can be released.
    pub fn deallocate(&mut self)
        requires
            old(self).wf(),
            old(self).spec_capacity() > 0,
            old(self)@.len() == 0,
        ensures
            final(self).wf(),
            final(self).spec_capacity() == 0,
            final(self)@ == Seq::<T>::empty(),
    {
        assert(0 * size_of::<T>() == 0) by (nonlinear_arith);
        self.cells = Vec::new();
        self.capacity = 0;
    }

    /// The number of slots the region provides.
    pub fn capacity(&self) -> (capacity: usize)
        ensures
            capacity == self.spec_capacity(),
    {
        self.capacity
    }

    /// Whether the buffer holds an allocation.
    pub fn is_allocated(&self) -> (allocated: bool)
        ensures
            allocated <==> self.spec_capacity() > 0,
    {
        self.capacity > 0
    }

    /// The number of initialized slots.
    pub fn len(&self) -> (len: usize)
        ensures
            len == self@.len(),
    {
        self.cells.len()
    }

    /// Initializes the first free slot with `value`.
    pub fn write(&mut self, value: T)
        requires
            old(self).wf(),
            old(self)@.len() < old(self).spec_capacity(),
        ensures
            final(self).wf(),
            final(self).spec_capacity() == old(self).spec_capacity(),
            final(self)@ == old(self)@.push(value),
    {
        self.cells.push(value);
    }

    /// Moves the element of the last initialized slot out, if there is one.
    pub fn read_last(&mut self) -> (value: Option<T>)
        requires
            old(self).wf(),
        ensures
            final(self).wf(),
            final(self).spec_capacity() == old(self).spec_capacity(),
            old(self)@.len() == 0 ==> value is None && final(self)@ == old(self)@,
            old(self)@.len() > 0 ==> value == Some(old(self)@.last()) && final(self)@ == old(self)@.drop_last(),
    {
        let value = self.cells.pop();
        proof {
            if old(self)@.len() > 0 {
                assert(final(self)@ =~= old(self)@.drop_last());
            }
        }
        value
    }

    /// The element in slot `index`, or `None` past the initialized slots.
    pub fn slot(&self, index: usize) -> (element: Option<&T>)
        ensures
            index < self@.len() ==> element == Some(&self@[index as int]),
            index >= self@.len() ==> element is None,
    {
        if index >= self.cells.len() {
            return None;
        }
        Some(&self.cells[index])
    }

    /// The element in the initialized slot `index`.
    pub fn at(&self, index: usize) -> (element: &T)
        requires
            index < self@.len(),
        ensures
            *element == self@[index as int],
    {
        &self.cells[index]
    }

    /// The element in the initialized slot `index`, for writing. What the
    /// caller stores through the reference is what the slot holds afterwards;
    /// nothing else changes.
    pub fn at_mut(&mut self, index: usize) -> (element: &mut T)
        requires
            index < old(self)@.len(),
        ensures
            final(self).spec_capacity() == old(self).spec_capacity(),
            *element == old(self)@[index as int],
            final(self)@ == old(self)@.update(index as int, *final(element)),
    {
        &mut self.cells[index]
    }

    /// The element in slot `index` for writing, or `None` past the initialized
    /// slots. What the caller stores through the reference is what the slot
    /// holds afterwards; nothing else changes.
    pub fn slot_mut(&mut self, index: usize) -> (element: Option<&mut T>)
        ensures
            final(self).spec_capacity() == old(self).spec_capacity(),
            index >= old(self)@.len() ==> element is None && final(self)@ == old(self)@,
            index < old(self)@.len() ==> element is Some && *element.unwrap() == old(self)@[index as int]
                && final(self)@ == old(self)@.update(index as int, *final(element.unwrap())),
    {
        if index >= self.cells.len() {
            return None;
        }
        Some(&mut self.cells[index])
    }

    /// The initialized elements as a slice.
    pub fn as_slice(&self) -> (slice: &[T])
        ensures
            slice@ == self@,
    {
        self.cells.as_slice()
    }
}

} // verus!
