//! Linear search over data in any order: the first match, the last, all of
//! them, and the first element that a predicate accepts.

use crate::dynamic_array::DynamicArray;
use crate::fixed_array::Array;
use crate::order::below;
use crate::order::order_transitive;
use crate::order::order_trichotomy;
use crate::order::rank;
use crate::order::total_order;
use crate::order::Rank;
use vstd::prelude::*;
use vstd::std_specs::cmp::PartialEqSpec;

verus! {

/// `==` on `T` computes the equality that the contracts speak of.
pub open spec fn exact_eq<T: PartialEq>() -> bool {
    T::obeys_eq_spec()
}

/// `a == b`, as `T` defines it.
pub open spec fn equal<T: PartialEq>(a: T, b: T) -> bool {
    a.eq_spec(&b)
}

/// No element of `s` equals `target`.
pub open spec fn none_equal<T: PartialEq>(s: Seq<T>, target: T) -> bool {
    forall|j: int| 0 <= j < s.len() ==> !equal(#[trigger] s[j], target)
}

/// `r` is the least index whose element equals `target`, or `None` if no
/// element does.
pub open spec fn first_equal<T: PartialEq>(s: Seq<T>, target: T, r: Option<usize>) -> bool {
    match r {
        Some(i) => i < s.len() && equal(s[i as int], target) && forall|j: int|
            0 <= j < i ==> !equal(#[trigger] s[j], target),
        None => none_equal(s, target),
    }
}

/// `r` is the greatest index whose element equals `target`, or `None` if no
/// element does.
pub open spec fn last_equal<T: PartialEq>(s: Seq<T>, target: T, r: Option<usize>) -> bool {
    match r {
        Some(i) => i < s.len() && equal(s[i as int], target) && forall|j: int|
            i < j < s.len() ==> !equal(#[trigger] s[j], target),
        None => none_equal(s, target),
    }
}

/// `found` lists, in rising order, exactly the indices below `upto` whose
/// element equals `target`.
pub open spec fn all_equal<T: PartialEq>(s: Seq<T>, target: T, upto: int, found: Seq<usize>) -> bool {
    &&& forall|k: int| 0 <= k < found.len() ==> (#[trigger] found[k]) < upto && equal(
        s[found[k] as int],
        target,
    )
    &&& forall|k: int, l: int| 0 <= k < l < found.len() ==> found[k] < found[l]
    &&& forall|j: int| 0 <= j < upto && equal(#[trigger] s[j], target) ==> found.contains(j as usize)
}

/// The number of elements among the first `upto` that equal `target`.
pub open spec fn occurrences<T: PartialEq>(s: Seq<T>, target: T, upto: int) -> nat
    decreases upto,
{
    if upto <= 0 {
        0
    } else if equal(s[upto - 1], target) {
        occurrences(s, target, upto - 1) + 1
    } else {
        occurrences(s, target, upto - 1)
    }
}

/// The index of the first element equal to `target`.
pub fn linear_search<T: PartialEq>(arr: &[T], target: &T) -> (r: Option<usize>)
    ensures
        r matches Some(i) ==> i < arr@.len(),
        exact_eq::<T>() ==> first_equal(arr@, *target, r),
{
    let mut i: usize = 0;
    while i < arr.len()
        invariant
            i <= arr@.len(),
            exact_eq::<T>() ==> forall|j: int| 0 <= j < i ==> !equal(#[trigger] arr@[j], *target),
        decreases arr@.len() - i,
    {
        if arr[i] == *target {
            return Some(i);
        }
        i += 1;
    }
    None
}

/// The indices of all elements equal to `target`, in rising order.
pub fn linear_search_all<T: PartialEq>(arr: &[T], target: &T) -> (found: Vec<usize>)
    ensures
        forall|k: int| 0 <= k < found@.len() ==> (#[trigger] found@[k]) < arr@.len(),
        exact_eq::<T>() ==> all_equal(arr@, *target, arr@.len() as int, found@),
{
    let mut indices: Vec<usize> = Vec::new();
    let mut i: usize = 0;
    while i < arr.len()
        invariant
            i <= arr@.len(),
            forall|k: int| 0 <= k < indices@.len() ==> (#[trigger] indices@[k]) < i,
            exact_eq::<T>() ==> all_equal(arr@, *target, i as int, indices@),
        decreases arr@.len() - i,
    {
        if arr[i] == *target {
            let ghost before = indices@;
            indices.push(i);
            proof {
                if exact_eq::<T>() {
                    assert forall|j: int| 0 <= j < i + 1 && equal(
                        #[trigger] arr@[j],
                        *target,
                    ) implies indices@.contains(j as usize) by {
                        if j < i {
                            let k = choose|k: int| 0 <= k < before.len() && before[k] == j as usize;
                            assert(indices@[k] == j as usize);
                        } else {
                            assert(indices@[before.len() as int] == j as usize);
                        }
                    }
                }
            }
        }
        i += 1;
    }
    indices
}

/// The index of the first element that `predicate` accepts: it said `true` of
/// that element and `false` of each one before it.
pub fn linear_search_if<T, F>(arr: &[T], predicate: F) -> (r: Option<usize>) where F: Fn(&T) -> bool
    requires
        forall|j: int| 0 <= j < arr@.len() ==> call_requires(predicate, (&arr@[j],)),
    ensures
        match r {
            Some(i) => i < arr@.len() && call_ensures(predicate, (&arr@[i as int],), true)
                && forall|j: int| 0 <= j < i ==> call_ensures(predicate, (&arr@[j],), false),
            None => forall|j: int| 0 <= j < arr@.len() ==> call_ensures(predicate, (&arr@[j],), false),
        },
{
    let mut i: usize = 0;
    while i < arr.len()
        invariant
            i <= arr@.len(),
            forall|j: int| 0 <= j < arr@.len() ==> call_requires(predicate, (&arr@[j],)),
            forall|j: int| 0 <= j < i ==> call_ensures(predicate, (&arr@[j],), false),
        decreases arr@.len() - i,
    {
        if predicate(&arr[i]) {
            return Some(i);
        }
        i += 1;
    }
    None
}

/// The index of the last element equal to `target`, found by scanning from the
/// end.
pub fn reverse_linear_search<T: PartialEq>(arr: &[T], target: &T) -> (r: Option<usize>)
    ensures
        r matches Some(i) ==> i < arr@.len(),
        exact_eq::<T>() ==> last_equal(arr@, *target, r),
{
    if arr.is_empty() {
        return None;
    }
    let mut i: usize = arr.len();
    while i > 0
        invariant
            i <= arr@.len(),
            exact_eq::<T>() ==> forall|j: int| i <= j < arr@.len() ==> !equal(#[trigger] arr@[j], *target),
        decreases i,
    {
        i -= 1;
        if arr[i] == *target {
            return Some(i);
        }
    }
    None
}

/// Linear search on a container.
pub trait LinearSearchable<T>: View<V = Seq<T>> {
    /// The index of the first element equal to `target`.
    fn linear_search(&self, target: &T) -> (r: Option<usize>) where T: PartialEq
        ensures
            r matches Some(i) ==> i < self@.len(),
        exact_eq::<T>() ==> first_equal(self@, *target, r),
    ;

    /// The index of the first element that `predicate` accepts.
    fn linear_search_if<F>(&self, predicate: F) -> (r: Option<usize>) where F: Fn(&T) -> bool
        requires
            forall|j: int| 0 <= j < self@.len() ==> call_requires(predicate, (&self@[j],)),
        ensures
            match r {
                Some(i) => i < self@.len() && call_ensures(predicate, (&self@[i as int],), true)
                    && forall|j: int| 0 <= j < i ==> call_ensures(predicate, (&self@[j],), false),
                None => forall|j: int|
                    0 <= j < self@.len() ==> call_ensures(predicate, (&self@[j],), false),
            },
    ;

    /// The indices of all elements equal to `target`, in rising order.
    fn linear_search_all(&self, target: &T) -> (found: Vec<usize>) where T: PartialEq
        ensures
            forall|k: int| 0 <= k < found@.len() ==> (#[trigger] found@[k]) < self@.len(),
        exact_eq::<T>() ==> all_equal(self@, *target, self@.len() as int, found@),
    ;

    /// The index of the last element equal to `target`.
    fn reverse_linear_search(&self, target: &T) -> (r: Option<usize>) where T: PartialEq
        ensures
            r matches Some(i) ==> i < self@.len(),
        exact_eq::<T>() ==> last_equal(self@, *target, r),
    ;

    /// Whether some element equals `target`.
    fn contains(&self, target: &T) -> (present: bool) where T: PartialEq
        ensures
            exact_eq::<T>() ==> (present <==> !none_equal(self@, *target)),
    {
        self.linear_search(target).is_some()
    }
}

impl<T> LinearSearchable<T> for Array<T> {
    fn linear_search(&self, target: &T) -> (r: Option<usize>) where T: PartialEq {
        linear_search(self.as_slice(), target)
    }

    fn linear_search_if<F>(&self, predicate: F) -> (r: Option<usize>) where F: Fn(&T) -> bool {
        linear_search_if(self.as_slice(), predicate)
    }

    fn linear_search_all(&self, target: &T) -> (found: Vec<usize>) where T: PartialEq {
        linear_search_all(self.as_slice(), target)
    }

    fn reverse_linear_search(&self, target: &T) -> (r: Option<usize>) where T: PartialEq {
        reverse_linear_search(self.as_slice(), target)
    }
}

impl<T> LinearSearchable<T> for DynamicArray<T> {
    fn linear_search(&self, target: &T) -> (r: Option<usize>) where T: PartialEq {
        linear_search(self.as_slice(), target)
    }

    fn linear_search_if<F>(&self, predicate: F) -> (r: Option<usize>) where F: Fn(&T) -> bool {
        linear_search_if(self.as_slice(), predicate)
    }

    fn linear_search_all(&self, target: &T) -> (found: Vec<usize>) where T: PartialEq {
        linear_search_all(self.as_slice(), target)
    }

    fn reverse_linear_search(&self, target: &T) -> (r: Option<usize>) where T: PartialEq {
        reverse_linear_search(self.as_slice(), target)
    }
}

/// Linear search as a sentinel search would give it: the index of the first
/// element equal to `target`.
pub fn sentinel_linear_search<T: PartialEq + Clone>(arr: &Array<T>, target: &T) -> (r: Option<usize>)
    ensures
        r matches Some(i) ==> i < arr@.len(),
        exact_eq::<T>() ==> first_equal(arr@, *target, r),
{
    arr.linear_search(target)
}

/// The number of elements equal to `target`.
pub fn count_occurrences<T: PartialEq>(arr: &Array<T>, target: &T) -> (count: usize)
    ensures
        count <= arr@.len(),
        exact_eq::<T>() ==> count == occurrences(arr@, *target, arr@.len() as int),
{
    let slice = arr.as_slice();
    let mut count: usize = 0;
    let mut i: usize = 0;
    while i < slice.len()
        invariant
            i <= slice@.len(),
            count <= i,
            exact_eq::<T>() ==> count == occurrences(slice@, *target, i as int),
        decreases slice@.len() - i,
    {
        if slice[i] == *target {
            count += 1;
        }
        i += 1;
    }
    count
}

/// `i` is the first index that holds a least element of `s`.
pub open spec fn first_least<T: Ord>(s: Seq<T>, i: int) -> bool {
    &&& 0 <= i < s.len()
    &&& forall|j: int| 0 <= j < s.len() ==> !below(#[trigger] s[j], s[i])
    &&& forall|j: int| 0 <= j < i ==> below(s[i], #[trigger] s[j])
}

/// `i` is the first index that holds a greatest element of `s`.
pub open spec fn first_greatest<T: Ord>(s: Seq<T>, i: int) -> bool {
    &&& 0 <= i < s.len()
    &&& forall|j: int| 0 <= j < s.len() ==> !below(s[i], #[trigger] s[j])
    &&& forall|j: int| 0 <= j < i ==> below(#[trigger] s[j], s[i])
}

/// The first least element with its index, or `None` if the array is empty.
pub fn find_min<T: Ord>(arr: &Array<T>) -> (r: Option<(usize, &T)>)
    ensures
        r is None <==> arr@.len() == 0,
        r matches Some((i, v)) ==> i < arr@.len() && *v == arr@[i as int],
        total_order::<T>() ==> (r matches Some((i, v)) ==> first_least(arr@, i as int)),
{
    let slice = arr.as_slice();
    if slice.is_empty() {
        return None;
    }
    let mut min_idx: usize = 0;
    let mut i: usize = 1;
    proof {
        if total_order::<T>() {
            order_trichotomy(slice@[0], slice@[0]);
        }
    }
    while i < slice.len()
        invariant
            1 <= i <= slice@.len(),
            min_idx < i,
            total_order::<T>() ==> forall|j: int| 0 <= j < i ==> !below(#[trigger] slice@[j], slice@[min_idx as int]),
            total_order::<T>() ==> forall|j: int| 0 <= j < min_idx ==> below(slice@[min_idx as int], #[trigger] slice@[j]),
        decreases slice@.len() - i,
    {
        match rank(&slice[i], &slice[min_idx]) {
            Rank::Below => {
                proof {
                    if total_order::<T>() {
                        let new = slice@[i as int];
                        let old = slice@[min_idx as int];
                        order_trichotomy(new, new);
                        assert forall|j: int| 0 <= j < i + 1 implies !below(#[trigger] slice@[j], new) by {
                            order_trichotomy(slice@[j], new);
                            order_trichotomy(slice@[j], old);
                            order_transitive(slice@[j], new, old);
                        }
                        assert forall|j: int| 0 <= j < i implies below(new, #[trigger] slice@[j]) by {
                            order_trichotomy(old, slice@[j]);
                            order_trichotomy(slice@[j], old);
                            order_transitive(new, old, slice@[j]);
                        }
                    }
                }
                min_idx = i;
            },
            _ => {
                proof {
                    if total_order::<T>() {
                        order_trichotomy(slice@[i as int], slice@[min_idx as int]);
                    }
                }
            },
        }
        i += 1;
    }
    Some((min_idx, &slice[min_idx]))
}

/// The first greatest element with its index, or `None` if the array is empty.
pub fn find_max<T: Ord>(arr: &Array<T>) -> (r: Option<(usize, &T)>)
    ensures
        r is None <==> arr@.len() == 0,
        r matches Some((i, v)) ==> i < arr@.len() && *v == arr@[i as int],
        total_order::<T>() ==> (r matches Some((i, v)) ==> first_greatest(arr@, i as int)),
{
    let slice = arr.as_slice();
    if slice.is_empty() {
        return None;
    }
    let mut max_idx: usize = 0;
    let mut i: usize = 1;
    proof {
        if total_order::<T>() {
            order_trichotomy(slice@[0], slice@[0]);
        }
    }
    while i < slice.len()
        invariant
            1 <= i <= slice@.len(),
            max_idx < i,
            total_order::<T>() ==> forall|j: int| 0 <= j < i ==> !below(slice@[max_idx as int], #[trigger] slice@[j]),
            total_order::<T>() ==> forall|j: int| 0 <= j < max_idx ==> below(#[trigger] slice@[j], slice@[max_idx as int]),
        decreases slice@.len() - i,
    {
        match rank(&slice[i], &slice[max_idx]) {
            Rank::Above => {
                proof {
                    if total_order::<T>() {
                        let new = slice@[i as int];
                        let old = slice@[max_idx as int];
                        order_trichotomy(new, new);
                        order_trichotomy(new, old);
                        assert forall|j: int| 0 <= j < i + 1 implies !below(new, #[trigger] slice@[j]) by {
                            order_trichotomy(new, slice@[j]);
                            order_trichotomy(old, slice@[j]);
                            order_transitive(old, new, slice@[j]);
                        }
                        assert forall|j: int| 0 <= j < i implies below(#[trigger] slice@[j], new) by {
                            order_trichotomy(old, slice@[j]);
                            order_trichotomy(slice@[j], old);
                            order_transitive(slice@[j], old, new);
                        }
                    }
                }
                max_idx = i;
            },
            _ => {
                proof {
                    if total_order::<T>() {
                        order_trichotomy(slice@[i as int], slice@[max_idx as int]);
                    }
                }
            },
        }
        i += 1;
    }
    Some((max_idx, &slice[max_idx]))
}

} // verus!
