//! A container that grows by doubling when a push finds it full, and gives
//! memory back only when it has fallen under a quarter of its capacity.

use crate::buffer::allocatable;
use crate::buffer::allocatable_downward;
use crate::buffer::RawBuffer;
use crate::rendering::debug_text;
use crate::rendering::listing;
use crate::rendering::render_list;
use crate::rendering::texts;
use vstd::prelude::*;

verus! {

/// A full array grows to this many times its capacity.
pub const GROWTH_FACTOR: usize = 2;

/// An array shrinks only when fewer than one in this many slots is in use.
pub const SHRINK_TRIGGER: usize = 4;

/// A shrinking array keeps one in this many of its slots.
pub const SHRINK_TARGET: usize = 2;

/// An array of this capacity or less never shrinks while it holds an element.
pub const SHRINK_FLOOR: usize = 4;

/// The capacity that a full array of the given capacity grows to.
pub open spec fn grown_capacity(capacity: int) -> int {
    if capacity == 0 {
        1
    } else {
        capacity * GROWTH_FACTOR
    }
}

/// The capacity after one push onto `len` elements in `capacity` slots.
pub open spec fn capacity_after_push(capacity: int, len: int) -> int {
    if len == capacity {
        grown_capacity(capacity)
    } else {
        capacity
    }
}

/// The capacity after `count` pushes in a row.
pub open spec fn capacity_after_pushes(capacity: int, len: int, count: nat) -> int
    decreases count,
{
    if count == 0 {
        capacity
    } else {
        capacity_after_pushes(capacity_after_push(capacity, len), len + 1, (count - 1) as nat)
    }
}

/// The capacity that `shrink_to_fit` leaves to `len` elements in `capacity`
/// slots.
pub open spec fn shrunk_capacity(capacity: int, len: int) -> int {
    if len == 0 {
        0
    } else if len < capacity / (SHRINK_TRIGGER as int) && capacity > SHRINK_FLOOR {
        if capacity / (SHRINK_TARGET as int) >= len {
            capacity / (SHRINK_TARGET as int)
        } else {
            len
        }
    } else {
        capacity
    }
}

/// A region of the grown capacity can be asked for.
pub open spec fn can_grow<T>(capacity: usize) -> bool {
    &&& grown_capacity(capacity as int) <= usize::MAX
    &&& allocatable::<T>(grown_capacity(capacity as int) as usize)
}

/// A growable array.
pub struct DynamicArray<T> {
    buffer: RawBuffer<T>,
}

impl<T> View for DynamicArray<T> {
    type V = Seq<T>;

    /// The elements held, oldest first.
    closed spec fn view(&self) -> Seq<T> {
        self.buffer@
    }
}

impl<T> DynamicArray<T> {
    /// The number of slots currently allocated.
    pub closed spec fn spec_capacity(&self) -> usize {
        self.buffer.spec_capacity()
    }

    /// The elements fit in the allocated slots.
    pub open spec fn wf(&self) -> bool {
        &&& self@.len() <= self.spec_capacity()
        &&& allocatable::<T>(self.spec_capacity())
    }

    /// An empty array that holds no allocation.
    pub fn new() -> (array: Self)
        ensures
            array.wf(),
            array.spec_capacity() == 0,
            array@ == Seq::<T>::empty(),
    {
        DynamicArray { buffer: RawBuffer::empty() }
    }

    /// An empty array with `capacity` slots allocated up front; none if
    /// `capacity` is 0.
    pub fn with_capacity(capacity: usize) -> (array: Self)
        requires
            capacity > 0 ==> allocatable::<T>(capacity),
        ensures
            array.wf(),
            array.spec_capacity() == capacity,
            array@ == Seq::<T>::empty(),
    {
        if capacity == 0 {
            return Self::new();
        }
        DynamicArray { buffer: RawBuffer::allocate(capacity) }
    }

    /// The number of elements held.
    pub fn len(&self) -> (len: usize)
        ensures
            len == self@.len(),
    {
        self.buffer.len()
    }

    /// Whether the array holds no element.
    pub fn is_empty(&self) -> (empty: bool)
        ensures
            empty <==> self@.len() == 0,
    {
        self.buffer.len() == 0
    }

    /// The number of slots currently allocated.
    pub fn capacity(&self) -> (capacity: usize)
        ensures
            capacity == self.spec_capacity(),
    {
        self.buffer.capacity()
    }

    /// Whether the array holds an allocation: it does unless its capacity is 0.
    pub fn is_allocated(&self) -> (allocated: bool)
        ensures
            allocated <==> self.spec_capacity() > 0,
    {
        self.buffer.is_allocated()
    }

    /// Appends `value`, growing first if every slot is in use. There is no
    /// failure to report: the one thing asked of the caller is that a full
    /// array can grow, which is that its grown capacity fits in `usize` and in
    /// an allocation.
    pub fn push(&mut self, value: T)
        requires
            old(self).wf(),
            old(self)@.len() == old(self).spec_capacity() ==> can_grow::<T>(old(self).spec_capacity()),
        ensures
            final(self).wf(),
            final(self)@ == old(self)@.push(value),
            final(self).spec_capacity() == capacity_after_push(
                old(self).spec_capacity() as int,
                old(self)@.len() as int,
            ),
    {
        if self.buffer.len() == self.buffer.capacity() {
            self.grow();
        }
        self.buffer.write(value);
    }

    /// Gives the array its grown capacity: one slot if it had none, else
    /// `GROWTH_FACTOR` times what it had.
    fn grow(&mut self)
        requires
            old(self).wf(),
            can_grow::<T>(old(self).spec_capacity()),
        ensures
            final(self).wf(),
            final(self)@ == old(self)@,
            final(self).spec_capacity() == grown_capacity(old(self).spec_capacity() as int),
    {
        let capacity = self.buffer.capacity();
        if capacity == 0 {
            self.buffer = RawBuffer::allocate(1);
        } else {
            self.buffer.reallocate(capacity * GROWTH_FACTOR);
        }
    }

    /// Removes the last element and returns it, or returns `None` if the array
    /// is empty. The capacity stays as it is.
    pub fn pop(&mut self) -> (value: Option<T>)
        requires
            old(self).wf(),
        ensures
            final(self).wf(),
            final(self).spec_capacity() == old(self).spec_capacity(),
            old(self)@.len() == 0 ==> value is None && final(self)@ == old(self)@,
            old(self)@.len() > 0 ==> value == Some(old(self)@.last()) && final(self)@ == old(
                self,
            )@.drop_last(),
    {
        self.buffer.read_last()
    }

    /// The element at `index`, or `None` if `index` is not below the length.
    pub fn get(&self, index: usize) -> (element: Option<&T>)
        ensures
            index < self@.len() ==> element == Some(&self@[index as int]),
            index >= self@.len() ==> element is None,
    {
        self.buffer.slot(index)
    }

    /// The element at `index` for writing, or `None` if `index` is not below
    /// the length. The array afterwards differs from the one before in that
    /// element alone, which is what the caller left in it.
    pub fn get_mut(&mut self, index: usize) -> (element: Option<&mut T>)
        ensures
            final(self).spec_capacity() == old(self).spec_capacity(),
            index >= old(self)@.len() ==> element is None && final(self)@ == old(self)@,
            index < old(self)@.len() ==> element is Some && *element.unwrap() == old(self)@[index as int]
                && final(self)@ == old(self)@.update(index as int, *final(element.unwrap())),
    {
        self.buffer.slot_mut(index)
    }

    /// Replaces the element at `index` by `value`; the element that was there
    /// is released.
    pub fn set(&mut self, index: usize, value: T)
        requires
            index < old(self)@.len(),
        ensures
            final(self).spec_capacity() == old(self).spec_capacity(),
            final(self)@ == old(self)@.update(index as int, value),
    {
        *self.buffer.at_mut(index) = value;
    }

    /// Releases every element and keeps the allocation.
    pub fn clear(&mut self)
        requires
            old(self).wf(),
        ensures
            final(self).wf(),
            final(self).spec_capacity() == old(self).spec_capacity(),
            final(self)@ == Seq::<T>::empty(),
    {
        while self.buffer.len() > 0
            invariant
                self.wf(),
                self.spec_capacity() == old(self).spec_capacity(),
            decreases self@.len(),
        {
            let _ = self.buffer.read_last();
        }
        assert(self@ =~= Seq::<T>::empty());
    }

    /// Gives memory back: all of it if the array is empty; down to one in
    /// `SHRINK_TARGET` of the slots if fewer than one in `SHRINK_TRIGGER` is in
    /// use and the capacity is above `SHRINK_FLOOR`; none otherwise. The
    /// elements stay as they are.
    pub fn shrink_to_fit(&mut self)
        requires
            old(self).wf(),
        ensures
            final(self).wf(),
            final(self)@ == old(self)@,
            final(self).spec_capacity() == shrunk_capacity(
                old(self).spec_capacity() as int,
                old(self)@.len() as int,
            ),
    {
        let len = self.buffer.len();
        let capacity = self.buffer.capacity();
        if len > 0 && len < capacity / SHRINK_TRIGGER && capacity > SHRINK_FLOOR {
            let half = capacity / SHRINK_TARGET;
            let new_capacity = if half >= len {
                half
            } else {
                len
            };
            proof {
                allocatable_downward::<T>(new_capacity, capacity);
            }
            self.buffer.reallocate(new_capacity);
        } else if len == 0 && capacity > 0 {
            self.buffer.deallocate();
        }
    }

    /// Appends the given values in order, one push at a time.
    pub fn extend(&mut self, items: Vec<T>)
        requires
            old(self).wf(),
            capacity_after_pushes(
                old(self).spec_capacity() as int,
                old(self)@.len() as int,
                items@.len(),
            ) <= usize::MAX,
            allocatable::<T>(
                capacity_after_pushes(
                    old(self).spec_capacity() as int,
                    old(self)@.len() as int,
                    items@.len(),
                ) as usize,
            ),
        ensures
            final(self).wf(),
            final(self)@ == old(self)@ + items@,
            final(self).spec_capacity() == capacity_after_pushes(
                old(self).spec_capacity() as int,
                old(self)@.len() as int,
                items@.len(),
            ),
    {
        let ghost target = capacity_after_pushes(
            old(self).spec_capacity() as int,
            old(self)@.len() as int,
            items@.len(),
        );
        for value in source: items
            invariant
                self.wf(),
                source.seq() == items@,
                self@ == old(self)@ + items@.subrange(0, source.index() as int),
                target <= usize::MAX,
                allocatable::<T>(target as usize),
                capacity_after_pushes(
                    self.spec_capacity() as int,
                    self@.len() as int,
                    (items@.len() - source.index()) as nat,
                ) == target,
        {
            proof {
                capacity_only_rises(
                    capacity_after_push(self.spec_capacity() as int, self@.len() as int),
                    self@.len() as int + 1,
                    (items@.len() - source.index() - 1) as nat,
                );
                if self@.len() == self.spec_capacity() {
                    can_grow_within::<T>(self.spec_capacity(), target as usize);
                }
            }
            self.push(value);
            proof {
                assert(items@.subrange(0, source.index() + 1) =~= items@.subrange(
                    0,
                    source.index() as int,
                ).push(items@[source.index() as int]));
            }
        }
        assert(items@.subrange(0, items@.len() as int) =~= items@);
    }

    /// Turns the array into the one-shot sequence of its elements, oldest
    /// first. The array is used up; the sequence owns the elements from here on.
    pub fn into_iter(self) -> (iter: DynamicArrayIter<T>)
        requires
            self.wf(),
        ensures
            iter@ == self@,
    {
        let mut buffer = self.buffer;
        let ghost all = buffer@;
        let mut rest: Vec<T> = Vec::new();
        loop
            invariant
                all == self@,
                buffer@.len() <= all.len(),
                buffer@ == all.subrange(0, buffer@.len() as int),
                rest@.reverse() == all.subrange(buffer@.len() as int, all.len() as int),
                buffer@.len() <= buffer.spec_capacity(),
                allocatable::<T>(buffer.spec_capacity()),
            decreases buffer@.len(),
        {
            let ghost taken = rest@;
            match buffer.read_last() {
                Some(value) => {
                    rest.push(value);
                    proof {
                        assert(buffer@ =~= all.subrange(0, buffer@.len() as int));
                        assert(rest@.reverse() =~= seq![value] + taken.reverse());
                        assert(rest@.reverse() =~= all.subrange(
                            buffer@.len() as int,
                            all.len() as int,
                        ));
                    }
                },
                None => {
                    assert(rest@.reverse() =~= all);
                    return DynamicArrayIter { rest };
                },
            }
        }
    }

    /// The elements as a slice.
    pub fn as_slice(&self) -> (slice: &[T])
        ensures
            slice@ == self@,
    {
        self.buffer.as_slice()
    }

    /// The debug text of the array: its elements' own debug texts, in order,
    /// separated by `", "` and enclosed in `[` and `]`.
    pub fn to_debug_string(&self) -> (text: String) where T: core::fmt::Debug
        ensures
            exists|parts: Seq<Seq<char>>| parts.len() == self@.len() && text@ == listing(parts),
    {
        let mut parts: Vec<String> = Vec::new();
        let mut i: usize = 0;
        while i < self.buffer.len()
            invariant
                i <= self@.len(),
                parts@.len() == i,
            decreases self@.len() - i,
        {
            parts.push(debug_text(self.buffer.at(i)));
            i += 1;
        }
        let text = render_list(&parts);
        assert(texts(parts@).len() == self@.len());
        text
    }
}

/// The elements after each of `items` has been pushed in turn.
pub open spec fn pushed<T>(s: Seq<T>, items: Seq<T>) -> Seq<T>
    decreases items.len(),
{
    if items.len() == 0 {
        s
    } else {
        pushed(s.push(items.first()), items.drop_first())
    }
}

/// What `count` pops in a row hand out, in the order in which they hand it
/// out, and the elements that stay. A pop from no elements hands out nothing.
pub open spec fn popped<T>(s: Seq<T>, count: nat) -> (Seq<T>, Seq<T>)
    decreases count,
{
    if count == 0 || s.len() == 0 {
        (Seq::<T>::empty(), s)
    } else {
        let later = popped(s.drop_last(), (count - 1) as nat);
        (seq![s.last()] + later.0, later.1)
    }
}

proof fn pushed_appends<T>(s: Seq<T>, items: Seq<T>)
    ensures
        pushed(s, items) == s + items,
    decreases items.len(),
{
    if items.len() == 0 {
        assert(s + items =~= s);
    } else {
        pushed_appends(s.push(items.first()), items.drop_first());
        assert(s.push(items.first()) + items.drop_first() =~= s + items);
    }
}

proof fn popped_reverses<T>(s: Seq<T>, items: Seq<T>)
    ensures
        popped(s + items, items.len()) == (items.reverse(), s),
    decreases items.len(),
{
    if items.len() == 0 {
        assert(s + items =~= s);
        assert(items.reverse() =~= Seq::<T>::empty());
    } else {
        let all = s + items;
        popped_reverses(s, items.drop_last());
        assert(all.drop_last() =~= s + items.drop_last());
        assert(all.last() == items.last());
        assert(seq![items.last()] + items.drop_last().reverse() =~= items.reverse());
    }
}

/// Stack discipline: as many pops as there were pushes hand the pushed values
/// back in reverse order and leave what was there before; from an empty array
/// the length returns to 0.
pub proof fn pops_reverse_pushes<T>(start: Seq<T>, items: Seq<T>)
    ensures
        popped(pushed(start, items), items.len()) == (items.reverse(), start),
        popped(pushed(Seq::<T>::empty(), items), items.len()).1.len() == 0,
{
    pushed_appends(start, items);
    popped_reverses(start, items);
    pushed_appends(Seq::<T>::empty(), items);
    popped_reverses(Seq::<T>::empty(), items);
}

/// A push keeps the elements within the capacity: the capacity stays where a
/// slot was free, becomes 1 where there was no slot at all, and doubles where
/// every slot was in use.
pub proof fn push_keeps_elements_within_capacity(capacity: int, len: int)
    requires
        0 <= len <= capacity,
    ensures
        len + 1 <= capacity_after_push(capacity, len),
        capacity_after_push(capacity, len) == if len < capacity {
            capacity
        } else if capacity == 0 {
            1
        } else {
            2 * capacity
        },
{
}

/// An array whose grown capacity is within a region that can be asked for can
/// grow.
pub proof fn can_grow_within<T>(capacity: usize, limit: usize)
    requires
        grown_capacity(capacity as int) <= limit,
        allocatable::<T>(limit),
    ensures
        can_grow::<T>(capacity),
{
    allocatable_downward::<T>(grown_capacity(capacity as int) as usize, limit);
}

/// A valid array never holds more elements than it has slots.
pub proof fn capacity_bounds_length<T>(array: DynamicArray<T>)
    requires
        array.wf(),
    ensures
        array@.len() <= array.spec_capacity(),
{
}

/// `n` is 1, 2, 4, 8 and so on.
pub open spec fn power_of_two(n: int) -> bool
    decreases n,
{
    n == 1 || (n > 1 && n % 2 == 0 && power_of_two(n / 2))
}

proof fn powers_of_two_apart(a: int, b: int)
    requires
        power_of_two(a),
        power_of_two(b),
        b < a,
    ensures
        2 * b <= a,
    decreases a,
{
    if b > 1 {
        powers_of_two_apart(a / 2, b / 2);
    }
}

proof fn pushes_end_with_push(capacity: int, len: int, count: nat)
    ensures
        capacity_after_pushes(capacity, len, count + 1) == capacity_after_push(
            capacity_after_pushes(capacity, len, count),
            len + count,
        ),
    decreases count,
{
    let next = capacity_after_push(capacity, len);
    if count > 0 {
        pushes_end_with_push(next, len + 1, (count - 1) as nat);
        assert(capacity_after_pushes(capacity, len, count + 1) == capacity_after_pushes(
            next,
            len + 1,
            count,
        ));
    } else {
        assert(capacity_after_pushes(capacity, len, 1) == capacity_after_pushes(next, len + 1, 0));
    }
}

proof fn growth_stays_tight(count: nat)
    requires
        count >= 1,
    ensures
        power_of_two(capacity_after_pushes(0, 0, count)),
        count <= capacity_after_pushes(0, 0, count) < 2 * count,
    decreases count,
{
    if count == 1 {
        assert(capacity_after_pushes(0, 0, 1) == capacity_after_pushes(1, 1, 0));
    } else {
        growth_stays_tight((count - 1) as nat);
        pushes_end_with_push(0, 0, (count - 1) as nat);
        let before = capacity_after_pushes(0, 0, (count - 1) as nat);
        if before == count - 1 {
            assert(power_of_two(2 * before));
        }
    }
}

/// Growth doubling: `count` pushes onto a new array leave it with the
/// smallest power of two that is at least `count` as its capacity.
pub proof fn growth_doubles(count: nat)
    requires
        count >= 1,
    ensures
        power_of_two(capacity_after_pushes(0, 0, count)),
        count <= capacity_after_pushes(0, 0, count) < 2 * count,
        forall|p: int| power_of_two(p) && p >= count ==> capacity_after_pushes(0, 0, count) <= p,
{
    growth_stays_tight(count);
    let reached = capacity_after_pushes(0, 0, count);
    assert forall|p: int| power_of_two(p) && p >= count implies reached <= p by {
        if p < reached {
            powers_of_two_apart(reached, p);
        }
    }
}

/// Shrink hysteresis: a push that follows a shrink does not grow the array
/// again, and a shrink that follows a growing push does not shrink it again.
pub proof fn shrinking_and_growing_do_not_alternate(capacity: int, len: int)
    requires
        0 <= len <= capacity,
    ensures
        len > 0 && shrunk_capacity(capacity, len) != capacity ==> capacity_after_push(
            shrunk_capacity(capacity, len),
            len,
        ) == shrunk_capacity(capacity, len),
        len == capacity ==> shrunk_capacity(grown_capacity(capacity), len + 1) == grown_capacity(
            capacity,
        ),
{
}

/// An emptied array gives all of its memory back, and the next push gives it
/// one slot again.
pub proof fn emptied_array_releases(capacity: int)
    requires
        0 <= capacity,
    ensures
        shrunk_capacity(capacity, 0) == 0,
        capacity_after_push(shrunk_capacity(capacity, 0), 0) == 1,
{
}

/// Pushing never lowers the capacity.
pub proof fn capacity_only_rises(capacity: int, len: int, count: nat)
    requires
        0 <= capacity,
    ensures
        capacity <= capacity_after_pushes(capacity, len, count),
    decreases count,
{
    if count > 0 {
        capacity_only_rises(capacity_after_push(capacity, len), len + 1, (count - 1) as nat);
    }
}

impl<T> Default for DynamicArray<T> {
    /// The empty array without an allocation.
    fn default() -> (array: Self)
        ensures
            array.wf(),
            array.spec_capacity() == 0,
            array@ == Seq::<T>::empty(),
    {
        Self::new()
    }
}

impl<T> core::ops::Index<usize> for DynamicArray<T> {
    type Output = T;

    /// The element at `index`, which must be below the length.
    fn index(&self, index: usize) -> (element: &T)
        ensures
            *element == self@[index as int],
    {
        self.buffer.at(index)
    }
}

impl<T> vstd::std_specs::core::IndexSpecImpl<usize> for DynamicArray<T> {
    open spec fn index_req(&self, index: &usize) -> bool {
        *index < self@.len()
    }
}

/// The elements of a used-up `DynamicArray` that have not been handed out yet.
pub struct DynamicArrayIter<T> {
    /// What is still to come, last first.
    rest: Vec<T>,
}

impl<T> View for DynamicArrayIter<T> {
    type V = Seq<T>;

    /// The elements still to come, in the order in which they come.
    closed spec fn view(&self) -> Seq<T> {
        self.rest@.reverse()
    }
}

impl<T> DynamicArrayIter<T> {
    /// Hands out the next element, or `None` once all have been handed out.
    pub fn next(&mut self) -> (value: Option<T>)
        ensures
            old(self)@.len() == 0 ==> value is None && final(self)@ == old(self)@,
            old(self)@.len() > 0 ==> value == Some(old(self)@.first()) && final(self)@ == old(
                self,
            )@.drop_first(),
    {
        let value = self.rest.pop();
        proof {
            if old(self)@.len() > 0 {
                assert(final(self)@ =~= old(self)@.drop_first());
            }
        }
        value
    }
}

} // verus!
