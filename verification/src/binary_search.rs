//! Binary search over ascending data: any occurrence, the first, the last, and
//! the insertion point.

use crate::dynamic_array::DynamicArray;
use crate::fixed_array::Array;
use crate::order::absent;
use crate::order::any_match;
use crate::order::ascending;
use crate::order::ascending_around_match;
use crate::order::ascending_prefix_below;
use crate::order::ascending_suffix_above;
use crate::order::at_most;
use crate::order::below;
use crate::order::first_match;
use crate::order::found_at;
use crate::order::index_of;
use crate::order::is_ascending;
use crate::order::last_match;
use crate::order::lower_bound;
use crate::order::order_transitive;
use crate::order::order_trichotomy;
use crate::order::rank;
use crate::order::same;
use crate::order::total_order;
use crate::order::Rank;
use core::cmp::Ordering;
use vstd::prelude::*;

verus! {

/// Searches ascending data for `target` by halving the range that may hold
/// it. An index that comes back always holds an element equal to `target`;
/// on ascending data `None` comes back only if there is no such element.
pub fn binary_search<T: Ord>(slice: &[T], target: &T) -> (r: Option<usize>)
    ensures
        r matches Some(i) ==> i < slice@.len(),
        total_order::<T>() ==> (r matches Some(i) ==> found_at(slice@, *target, i as int)),
        total_order::<T>() && ascending(slice@) ==> any_match(slice@, *target, r),
{
    if slice.is_empty() {
        return None;
    }
    let mut low: usize = 0;
    let mut high: usize = slice.len() - 1;
    while low <= high
        invariant
            low <= slice@.len(),
            high < slice@.len(),
            total_order::<T>() && ascending(slice@) ==> forall|j: int|
                0 <= j < low ==> below(#[trigger] slice@[j], *target),
            total_order::<T>() && ascending(slice@) ==> forall|j: int|
                high < j < slice@.len() ==> below(*target, #[trigger] slice@[j]),
        decreases high + 1 - low,
    {
        let mid = low + (high - low) / 2;
        match rank(&slice[mid], target) {
            Rank::Same => {
                return Some(mid);
            },
            Rank::Below => {
                proof {
                    if total_order::<T>() && ascending(slice@) {
                        ascending_prefix_below(slice@, mid as int, *target);
                    }
                }
                low = mid + 1;
            },
            Rank::Above => {
                proof {
                    if total_order::<T>() && ascending(slice@) {
                        order_trichotomy(slice@[mid as int], *target);
                        ascending_suffix_above(slice@, mid as int, *target);
                    }
                }
                if mid == 0 {
                    proof {
                        if total_order::<T>() && ascending(slice@) {
                            nothing_between(slice@, *target, 0, -1);
                        }
                    }
                    return None;
                }
                high = mid - 1;
            },
        }
    }
    proof {
        if total_order::<T>() && ascending(slice@) {
            nothing_between(slice@, *target, low as int, high as int);
        }
    }
    None
}

/// Searches ascending data for the first element equal to `target`: on a
/// match the search goes on to the left of it. An index that comes back always
/// holds an element equal to `target`.
pub fn binary_search_first<T: Ord>(slice: &[T], target: &T) -> (r: Option<usize>)
    ensures
        r matches Some(i) ==> i < slice@.len(),
        total_order::<T>() ==> (r matches Some(i) ==> found_at(slice@, *target, i as int)),
        total_order::<T>() && ascending(slice@) ==> first_match(slice@, *target, r),
{
    if slice.is_empty() {
        return None;
    }
    let ghost sorted = total_order::<T>() && ascending(slice@);
    let mut low: usize = 0;
    let mut high: usize = slice.len() - 1;
    let mut result: Option<usize> = None;
    while low <= high
        invariant
            low <= slice@.len(),
            high < slice@.len(),
            sorted == (total_order::<T>() && ascending(slice@)),
            result matches Some(i) ==> i < slice@.len(),
            total_order::<T>() ==> (result matches Some(i) ==> found_at(slice@, *target, i as int)),
            sorted ==> forall|j: int| 0 <= j < low ==> below(#[trigger] slice@[j], *target),
            sorted ==> forall|j: int| high < j < slice@.len() ==> !below(#[trigger] slice@[j], *target),
            sorted ==> (result matches Some(i) ==> i == high + 1),
            sorted && result is None ==> forall|j: int|
                high < j < slice@.len() ==> below(*target, #[trigger] slice@[j]),
        decreases high + 1 - low,
    {
        let mid = low + (high - low) / 2;
        match rank(&slice[mid], target) {
            Rank::Same => {
                proof {
                    if sorted {
                        ascending_around_match(slice@, mid as int, *target);
                    }
                }
                result = Some(mid);
                if mid == 0 {
                    return result;
                }
                high = mid - 1;
            },
            Rank::Below => {
                proof {
                    if sorted {
                        ascending_prefix_below(slice@, mid as int, *target);
                    }
                }
                low = mid + 1;
            },
            Rank::Above => {
                proof {
                    if sorted {
                        order_trichotomy(slice@[mid as int], *target);
                        ascending_suffix_above(slice@, mid as int, *target);
                        if let Some(i) = result {
                            // An element above `target` cannot stand before one equal to it.
                            order_trichotomy(*target, slice@[i as int]);
                            assert(false);
                        }
                        assert forall|j: int| mid <= j < slice@.len() implies !below(
                            #[trigger] slice@[j],
                            *target,
                        ) by {
                            order_trichotomy(*target, slice@[j]);
                        }
                    }
                }
                if mid == 0 {
                    proof {
                        if sorted {
                            nothing_between(slice@, *target, 0, -1);
                        }
                    }
                    return result;
                }
                high = mid - 1;
            },
        }
    }
    proof {
        if sorted {
            match result {
                Some(i) => {
                    assert forall|j: int| 0 <= j < i implies !same(#[trigger] slice@[j], *target) by {
                        order_trichotomy(slice@[j], *target);
                    }
                },
                None => {
                    nothing_between(slice@, *target, low as int, high as int);
                },
            }
        }
    }
    result
}

/// Searches ascending data for the last element equal to `target`: on a match
/// the search goes on to the right of it. An index that comes back always
/// holds an element equal to `target`.
pub fn binary_search_last<T: Ord>(slice: &[T], target: &T) -> (r: Option<usize>)
    ensures
        r matches Some(i) ==> i < slice@.len(),
        total_order::<T>() ==> (r matches Some(i) ==> found_at(slice@, *target, i as int)),
        total_order::<T>() && ascending(slice@) ==> last_match(slice@, *target, r),
{
    if slice.is_empty() {
        return None;
    }
    let ghost sorted = total_order::<T>() && ascending(slice@);
    let mut low: usize = 0;
    let mut high: usize = slice.len() - 1;
    let mut result: Option<usize> = None;
    while low <= high
        invariant
            low <= slice@.len(),
            high < slice@.len(),
            sorted == (total_order::<T>() && ascending(slice@)),
            result matches Some(i) ==> i < slice@.len(),
            total_order::<T>() ==> (result matches Some(i) ==> found_at(slice@, *target, i as int)),
            sorted ==> forall|j: int| 0 <= j < low ==> !below(*target, #[trigger] slice@[j]),
            sorted ==> forall|j: int| high < j < slice@.len() ==> below(*target, #[trigger] slice@[j]),
            sorted ==> (result matches Some(i) ==> i + 1 == low),
            sorted && result is None ==> forall|j: int|
                0 <= j < low ==> below(#[trigger] slice@[j], *target),
        decreases high + 1 - low,
    {
        let mid = low + (high - low) / 2;
        match rank(&slice[mid], target) {
            Rank::Same => {
                proof {
                    if sorted {
                        ascending_around_match(slice@, mid as int, *target);
                    }
                }
                result = Some(mid);
                low = mid + 1;
            },
            Rank::Below => {
                proof {
                    if sorted {
                        ascending_prefix_below(slice@, mid as int, *target);
                        if let Some(i) = result {
                            // An element below `target` cannot stand after one equal to it.
                            order_trichotomy(slice@[mid as int], *target);
                            order_trichotomy(slice@[i as int], *target);
                            order_transitive(slice@[i as int], slice@[mid as int], *target);
                            assert(false);
                        }
                        assert forall|j: int| 0 <= j < mid + 1 implies !below(
                            *target,
                            #[trigger] slice@[j],
                        ) by {
                            order_trichotomy(*target, slice@[j]);
                        }
                    }
                }
                low = mid + 1;
            },
            Rank::Above => {
                proof {
                    if sorted {
                        order_trichotomy(slice@[mid as int], *target);
                        ascending_suffix_above(slice@, mid as int, *target);
                    }
                }
                if mid == 0 {
                    proof {
                        if sorted {
                            nothing_between(slice@, *target, 0, -1);
                        }
                    }
                    return result;
                }
                high = mid - 1;
            },
        }
    }
    proof {
        if sorted {
            match result {
                Some(i) => {
                    assert forall|j: int| i < j < slice@.len() implies !same(
                        #[trigger] slice@[j],
                        *target,
                    ) by {
                        order_trichotomy(slice@[j], *target);
                        order_trichotomy(*target, slice@[j]);
                    }
                },
                None => {
                    nothing_between(slice@, *target, low as int, high as int);
                },
            }
        }
    }
    result
}

/// The index at which `target` can be inserted into ascending data so that
/// the data stays ascending and `target` comes before every element equal to
/// it: the first index whose element does not lie below `target`, or the
/// length if every element does.
pub fn find_insertion_point<T: Ord>(slice: &[T], target: &T) -> (r: usize)
    ensures
        r <= slice@.len(),
        total_order::<T>() && ascending(slice@) ==> lower_bound(slice@, *target, r),
{
    if slice.is_empty() {
        return 0;
    }
    let ghost sorted = total_order::<T>() && ascending(slice@);
    let mut low: usize = 0;
    let mut high: usize = slice.len();
    while low < high
        invariant
            low <= high <= slice@.len(),
            sorted == (total_order::<T>() && ascending(slice@)),
            sorted ==> forall|j: int| 0 <= j < low ==> below(#[trigger] slice@[j], *target),
            sorted ==> forall|j: int| high <= j < slice@.len() ==> !below(#[trigger] slice@[j], *target),
        decreases high - low,
    {
        let mid = low + (high - low) / 2;
        match rank(&slice[mid], target) {
            Rank::Below => {
                proof {
                    if sorted {
                        ascending_prefix_below(slice@, mid as int, *target);
                    }
                }
                low = mid + 1;
            },
            _ => {
                proof {
                    if sorted {
                        assert forall|j: int| mid <= j < slice@.len() implies !below(
                            #[trigger] slice@[j],
                            *target,
                        ) by {
                            order_trichotomy(slice@[mid as int], *target);
                            order_trichotomy(slice@[j], *target);
                            order_trichotomy(slice@[mid as int], slice@[j]);
                            order_transitive(slice@[mid as int], slice@[j], *target);
                        }
                    }
                }
                high = mid;
            },
        }
    }
    low
}

/// `answer` is something that `probe` may answer for `x`.
pub open spec fn can_answer<T, F: Fn(&T) -> Ordering>(probe: F, x: T, answer: Ordering) -> bool {
    call_ensures(probe, (&x,), answer)
}

/// `verdict` says what `probe` answers for each element of `s`: the probe
/// answers nothing else.
pub open spec fn describes<T, F: Fn(&T) -> Ordering>(
    verdict: spec_fn(T) -> Ordering,
    probe: F,
    s: Seq<T>,
) -> bool {
    forall|j: int, answer: Ordering|
        0 <= j < s.len() && #[trigger] can_answer(probe, s[j], answer) ==> answer == verdict(s[j])
}

/// `verdict` parts `s` in three: first the elements it calls `Less`, then
/// those it calls `Equal`, then those it calls `Greater`.
pub open spec fn parted_by<T>(s: Seq<T>, verdict: spec_fn(T) -> Ordering) -> bool {
    forall|i: int, j: int|
        #![trigger s[i], s[j]]
        0 <= i <= j < s.len() ==> {
            &&& verdict(s[j]) == Ordering::Less ==> verdict(s[i]) == Ordering::Less
            &&& verdict(s[i]) == Ordering::Greater ==> verdict(s[j]) == Ordering::Greater
        }
}

/// `verdict` calls no element of `s` `Equal`.
pub open spec fn none_called_equal<T>(s: Seq<T>, verdict: spec_fn(T) -> Ordering) -> bool {
    forall|j: int| 0 <= j < s.len() ==> verdict(#[trigger] s[j]) != Ordering::Equal
}

/// What a search by `probe` through `s` owes: an index that comes back names
/// an element for which the probe answered `Equal`; `None` comes back only if
/// no element is called `Equal` by any verdict that describes the probe and
/// parts `s`.
pub open spec fn probe_match<T, F: Fn(&T) -> Ordering>(s: Seq<T>, probe: F, r: Option<int>) -> bool {
    match r {
        Some(i) => 0 <= i < s.len() && can_answer(probe, s[i], Ordering::Equal),
        None => forall|verdict: spec_fn(T) -> Ordering|
            #[trigger] describes(verdict, probe, s) && parted_by(s, verdict) ==> none_called_equal(
                s,
                verdict,
            ),
    }
}

/// Binary search by a probe that says how an element stands to what is looked
/// for: `Less` if it comes before it, `Equal` if it is it, `Greater` if it
/// comes after.
pub fn binary_search_by<T, F>(slice: &[T], compare: F) -> (r: Option<usize>) where
    F: Fn(&T) -> Ordering,

    requires
        forall|j: int| 0 <= j < slice@.len() ==> call_requires(compare, (&slice@[j],)),
    ensures
        probe_match(slice@, compare, index_of(r)),
{
    if slice.is_empty() {
        return None;
    }
    let mut low: usize = 0;
    let mut high: usize = slice.len() - 1;
    while low <= high
        invariant
            low <= slice@.len(),
            high < slice@.len(),
            forall|j: int| 0 <= j < slice@.len() ==> call_requires(compare, (&slice@[j],)),
            forall|verdict: spec_fn(T) -> Ordering, j: int|
                #![trigger describes(verdict, compare, slice@), slice@[j]]
                describes(verdict, compare, slice@) && parted_by(slice@, verdict) && 0 <= j < low
                    ==> verdict(slice@[j]) == Ordering::Less,
            forall|verdict: spec_fn(T) -> Ordering, j: int|
                #![trigger describes(verdict, compare, slice@), slice@[j]]
                describes(verdict, compare, slice@) && parted_by(slice@, verdict) && high < j
                    < slice@.len() ==> verdict(slice@[j]) == Ordering::Greater,
        decreases high + 1 - low,
    {
        let mid = low + (high - low) / 2;
        let probed = &slice[mid];
        match compare(probed) {
            Ordering::Equal => {
                return Some(mid);
            },
            Ordering::Less => {
                assert(can_answer(compare, *probed, Ordering::Less));
                low = mid + 1;
            },
            Ordering::Greater => {
                assert(can_answer(compare, *probed, Ordering::Greater));
                if mid == 0 {
                    return None;
                }
                high = mid - 1;
            },
        }
    }
    None
}

/// Binary search on a container of ascending elements.
pub trait BinarySearchable<T>: View<V = Seq<T>> {
    /// An index at which `target` is found. What comes back always names an
    /// element equal to `target`; on ascending elements `None` comes back only
    /// if there is none.
    fn binary_search(&self, target: &T) -> (r: Option<usize>) where T: Ord
        ensures
            r matches Some(i) ==> i < self@.len(),
            total_order::<T>() ==> (r matches Some(i) ==> found_at(self@, *target, i as int)),
            total_order::<T>() && ascending(self@) ==> any_match(self@, *target, r),
    ;

    /// Binary search by a probe that says how an element stands to what is
    /// looked for.
    fn binary_search_by<F>(&self, f: F) -> (r: Option<usize>) where F: Fn(&T) -> Ordering
        requires
            forall|j: int| 0 <= j < self@.len() ==> call_requires(f, (&self@[j],)),
        ensures
            probe_match(self@, f, index_of(r)),
    ;

    /// The first index at which `target` is found on ascending elements.
    fn binary_search_first(&self, target: &T) -> (r: Option<usize>) where T: Ord
        ensures
            r matches Some(i) ==> i < self@.len(),
            total_order::<T>() ==> (r matches Some(i) ==> found_at(self@, *target, i as int)),
            total_order::<T>() && ascending(self@) ==> first_match(self@, *target, r),
    ;

    /// The last index at which `target` is found on ascending elements.
    fn binary_search_last(&self, target: &T) -> (r: Option<usize>) where T: Ord
        ensures
            r matches Some(i) ==> i < self@.len(),
            total_order::<T>() ==> (r matches Some(i) ==> found_at(self@, *target, i as int)),
            total_order::<T>() && ascending(self@) ==> last_match(self@, *target, r),
    ;

    /// The index at which `target` can be inserted so that ascending elements
    /// stay ascending; the index of its first occurrence if it is present.
    fn binary_search_insertion_point(&self, target: &T) -> (r: usize) where T: Ord
        ensures
            r <= self@.len(),
            total_order::<T>() && ascending(self@) ==> lower_bound(self@, *target, r),
    ;
}

impl<T> BinarySearchable<T> for Array<T> {
    fn binary_search(&self, target: &T) -> (r: Option<usize>) where T: Ord {
        binary_search(self.as_slice(), target)
    }

    fn binary_search_by<F>(&self, f: F) -> (r: Option<usize>) where F: Fn(&T) -> Ordering {
        binary_search_by(self.as_slice(), f)
    }

    fn binary_search_first(&self, target: &T) -> (r: Option<usize>) where T: Ord {
        binary_search_first(self.as_slice(), target)
    }

    fn binary_search_last(&self, target: &T) -> (r: Option<usize>) where T: Ord {
        binary_search_last(self.as_slice(), target)
    }

    fn binary_search_insertion_point(&self, target: &T) -> (r: usize) where T: Ord {
        find_insertion_point(self.as_slice(), target)
    }
}

impl<T> BinarySearchable<T> for DynamicArray<T> {
    fn binary_search(&self, target: &T) -> (r: Option<usize>) where T: Ord {
        binary_search(self.as_slice(), target)
    }

    fn binary_search_by<F>(&self, f: F) -> (r: Option<usize>) where F: Fn(&T) -> Ordering {
        binary_search_by(self.as_slice(), f)
    }

    fn binary_search_first(&self, target: &T) -> (r: Option<usize>) where T: Ord {
        binary_search_first(self.as_slice(), target)
    }

    fn binary_search_last(&self, target: &T) -> (r: Option<usize>) where T: Ord {
        binary_search_last(self.as_slice(), target)
    }

    fn binary_search_insertion_point(&self, target: &T) -> (r: usize) where T: Ord {
        find_insertion_point(self.as_slice(), target)
    }
}

/// `<[T]>::binary_search` of the standard library. On ascending data it
/// answers `Ok` with an index at which `target` is found, or `Err` with the
/// index at which `target` could be inserted to keep the data ascending; of
/// other data it promises nothing.
#[verifier::external_body]
fn slice_binary_search<T: Ord>(slice: &[T], target: &T) -> (r: Result<usize, usize>)
    ensures
        total_order::<T>() && ascending(slice@) ==> match r {
            Ok(i) => found_at(slice@, *target, i as int),
            Err(i) => absent(slice@, *target) && lower_bound(slice@, *target, i),
        },
{
    slice.binary_search(target)
}

/// The standard library's binary search, for holding this module's against it.
pub fn binary_search_slice<T: Ord>(slice: &[T], target: &T) -> (r: Option<usize>)
    ensures
        total_order::<T>() && ascending(slice@) ==> any_match(slice@, *target, r),
{
    match slice_binary_search(slice, target) {
        Ok(i) => Some(i),
        Err(_) => None,
    }
}

/// Whether the elements of the array are ascending, as binary search needs
/// them.
pub fn is_sorted<T: Ord>(arr: &Array<T>) -> (sorted: bool)
    ensures
        total_order::<T>() ==> (sorted <==> ascending(arr@)),
{
    is_ascending(arr.as_slice())
}

/// Whether the elements of the dynamic array are ascending.
pub fn is_sorted_dynamic<T: Ord>(arr: &DynamicArray<T>) -> (sorted: bool)
    ensures
        total_order::<T>() ==> (sorted <==> ascending(arr@)),
{
    is_ascending(arr.as_slice())
}

/// `s` is strictly ascending data turned round at `pivot`: it rises strictly
/// before `pivot` and from `pivot` on, and every element from `pivot` on lies
/// below every element before it. A pivot of 0 leaves the data as it was.
pub open spec fn rotated_at<T: Ord>(s: Seq<T>, pivot: int) -> bool {
    &&& 0 <= pivot <= s.len()
    &&& forall|i: int, j: int| 0 <= i < j < pivot ==> below(#[trigger] s[i], #[trigger] s[j])
    &&& forall|i: int, j: int| pivot <= i < j < s.len() ==> below(#[trigger] s[i], #[trigger] s[j])
    &&& forall|i: int, j: int| 0 <= i < pivot <= j < s.len() ==> below(#[trigger] s[j], #[trigger] s[i])
}

/// `s` is strictly ascending data turned round at some place.
pub open spec fn rotated<T: Ord>(s: Seq<T>) -> bool {
    exists|pivot: int| rotated_at(s, pivot)
}

/// Searches strictly ascending data that has been turned round at an unknown
/// place. One half of every range is in order; the search looks whether the
/// target can lie in that half and goes on in the half where it can. An index
/// that comes back always holds an element equal to `target`; on such data
/// `None` comes back only if there is none.
pub fn search_rotated<T: Ord>(slice: &[T], target: &T) -> (r: Option<usize>)
    ensures
        r matches Some(i) ==> i < slice@.len(),
        total_order::<T>() ==> (r matches Some(i) ==> found_at(slice@, *target, i as int)),
        total_order::<T>() && rotated(slice@) ==> any_match(slice@, *target, r),
{
    if slice.is_empty() {
        return None;
    }
    let ghost turned = total_order::<T>() && rotated(slice@);
    let ghost pivot: int = if turned {
        choose|pivot: int| rotated_at(slice@, pivot)
    } else {
        0
    };
    let mut low: usize = 0;
    let mut high: usize = slice.len() - 1;
    while low <= high
        invariant
            low <= slice@.len(),
            high < slice@.len(),
            turned == (total_order::<T>() && rotated(slice@)),
            turned ==> rotated_at(slice@, pivot),
            turned ==> forall|j: int| #![trigger slice@[j]] found_at(slice@, *target, j) ==> low <= j <= high,
        decreases high + 1 - low,
    {
        let mid = low + (high - low) / 2;
        match rank(&slice[mid], target) {
            Rank::Same => {
                return Some(mid);
            },
            _ => {},
        }
        let left_in_order = match rank(&slice[low], &slice[mid]) {
            Rank::Above => false,
            _ => true,
        };
        if left_in_order {
            let target_in_left = match rank(&slice[low], target) {
                Rank::Above => false,
                _ => match rank(target, &slice[mid]) {
                    Rank::Below => true,
                    _ => false,
                },
            };
            if target_in_left {
                proof {
                    if turned {
                        order_trichotomy(slice@[low as int], slice@[mid as int]);
                        order_trichotomy(slice@[low as int], *target);
                        order_trichotomy(*target, slice@[mid as int]);
                        order_trichotomy(slice@[mid as int], *target);
                        assert forall|j: int| #![trigger slice@[j]] found_at(slice@, *target, j) && low <= j
                            <= high implies j < mid by {
                            if j > mid {
                                order_trichotomy(slice@[j], *target);
                                order_trichotomy(slice@[low as int], slice@[j]);
                                // Past `mid` an element is above the one at `mid` or below the one at `low`.
                                if below(slice@[mid as int], slice@[j]) {
                                    order_transitive(*target, slice@[mid as int], slice@[j]);
                                    order_trichotomy(*target, slice@[j]);
                                } else {
                                    assert(below(slice@[j], slice@[low as int]));
                                    order_transitive(slice@[j], slice@[low as int], *target);
                                }
                            }
                        }
                    }
                }
                if mid == 0 {
                    proof {
                        if turned {
                            assert forall|j: int| 0 <= j < slice@.len() implies !same(
                                #[trigger] slice@[j],
                                *target,
                            ) by {
                                assert(!found_at(slice@, *target, j));
                            }
                        }
                    }
                    return None;
                }
                high = mid - 1;
            } else {
                proof {
                    if turned {
                        order_trichotomy(slice@[low as int], slice@[mid as int]);
                        order_trichotomy(slice@[low as int], *target);
                        order_trichotomy(*target, slice@[mid as int]);
                        order_trichotomy(slice@[mid as int], *target);
                        assert forall|j: int| #![trigger slice@[j]] found_at(slice@, *target, j) && low <= j
                            <= high implies j > mid by {
                            if j < mid {
                                // `low..=mid` rises, so the element lies between its two ends.
                                order_trichotomy(slice@[j], *target);
                                order_trichotomy(slice@[low as int], slice@[j]);
                                order_trichotomy(slice@[j], slice@[mid as int]);
                                if j > low {
                                    assert(below(slice@[low as int], slice@[j]));
                                }
                                assert(below(slice@[j], slice@[mid as int]));
                                order_transitive(slice@[low as int], slice@[j], *target);
                                order_transitive(*target, slice@[j], slice@[mid as int]);
                            }
                        }
                    }
                }
                low = mid + 1;
            }
        } else {
            let target_in_right = match rank(&slice[mid], target) {
                Rank::Below => match rank(target, &slice[high]) {
                    Rank::Above => false,
                    _ => true,
                },
                _ => false,
            };
            if target_in_right {
                proof {
                    if turned {
                        order_trichotomy(slice@[low as int], slice@[mid as int]);
                        order_trichotomy(slice@[mid as int], *target);
                        order_trichotomy(*target, slice@[high as int]);
                        assert forall|j: int| #![trigger slice@[j]] found_at(slice@, *target, j) && low <= j
                            <= high implies j > mid by {
                            if j < mid {
                                order_trichotomy(slice@[j], *target);
                                order_trichotomy(slice@[j], slice@[mid as int]);
                                // Before `mid` an element is below the one at `mid` or above the one at `high`.
                                if below(slice@[j], slice@[mid as int]) {
                                    order_transitive(slice@[j], slice@[mid as int], *target);
                                } else {
                                    assert(below(slice@[high as int], slice@[j]));
                                    order_transitive(*target, slice@[high as int], slice@[j]);
                                    order_trichotomy(*target, slice@[j]);
                                }
                            }
                        }
                    }
                }
                low = mid + 1;
            } else {
                proof {
                    if turned {
                        order_trichotomy(slice@[low as int], slice@[mid as int]);
                        order_trichotomy(slice@[mid as int], *target);
                        order_trichotomy(*target, slice@[high as int]);
                        order_trichotomy(*target, slice@[mid as int]);
                        assert forall|j: int| #![trigger slice@[j]] found_at(slice@, *target, j) && low <= j
                            <= high implies j < mid by {
                            if j > mid {
                                // `mid..=high` rises, so the element lies between its two ends.
                                order_trichotomy(slice@[j], *target);
                                order_trichotomy(slice@[mid as int], slice@[j]);
                                order_trichotomy(slice@[j], slice@[high as int]);
                                assert(below(slice@[mid as int], slice@[j]));
                                if j < high {
                                    assert(below(slice@[j], slice@[high as int]));
                                }
                                order_transitive(slice@[mid as int], slice@[j], *target);
                                order_transitive(*target, slice@[j], slice@[high as int]);
                            }
                        }
                    }
                }
                if mid == 0 {
                    proof {
                        if turned {
                            assert forall|j: int| 0 <= j < slice@.len() implies !same(
                                #[trigger] slice@[j],
                                *target,
                            ) by {
                                assert(!found_at(slice@, *target, j));
                            }
                        }
                    }
                    return None;
                }
                high = mid - 1;
            }
        }
    }
    proof {
        if turned {
            assert forall|j: int| 0 <= j < slice@.len() implies !same(#[trigger] slice@[j], *target) by {
                assert(!found_at(slice@, *target, j));
            }
        }
    }
    None
}

/// Round trip: a search that meets the contract of `binary_search` finds every
/// target that ascending data holds, at an index that holds it.
pub proof fn present_target_is_found<T: Ord>(s: Seq<T>, target: T, at: int, r: Option<usize>)
    requires
        total_order::<T>(),
        ascending(s),
        found_at(s, target, at),
        any_match(s, target, r),
    ensures
        r is Some,
        found_at(s, target, r.unwrap() as int),
{
    assert(same(s[at], target));
}

/// On ascending data the first and the last occurrence bound the run of
/// elements equal to `target`: exactly the indices from the one through the
/// other hold it.
pub proof fn occurrences_form_a_run<T: Ord>(s: Seq<T>, target: T, first: usize, last: usize)
    requires
        total_order::<T>(),
        ascending(s),
        first_match(s, target, Some(first)),
        last_match(s, target, Some(last)),
    ensures
        first <= last,
        forall|j: int| first <= j <= last <==> found_at(s, target, j),
{
    assert forall|j: int| first <= j <= last implies found_at(s, target, j) by {
        ascending_around_match(s, first as int, target);
        ascending_around_match(s, last as int, target);
        order_trichotomy(s[j], target);
    }
    assert forall|j: int| found_at(s, target, j) implies first <= j <= last by {
        assert(same(s[j], target));
    }
    assert(found_at(s, target, first as int));
}

/// On ascending data the insertion point of a target that is present is the
/// index of its first occurrence, whatever the number of elements equal to it;
/// that of an absent target is the index of the first element above it.
pub proof fn insertion_point_is_first_occurrence<T: Ord>(
    s: Seq<T>,
    target: T,
    point: usize,
    first: Option<usize>,
)
    requires
        total_order::<T>(),
        ascending(s),
        lower_bound(s, target, point),
        first_match(s, target, first),
    ensures
        first matches Some(i) ==> i == point,
        first is None ==> forall|j: int| point <= j < s.len() ==> below(target, #[trigger] s[j]),
{
    match first {
        Some(i) => {
            order_trichotomy(s[i as int], target);
            if point < i {
                assert(!below(s[point as int], target));
                ascending_around_match(s, i as int, target);
                order_trichotomy(s[point as int], target);
                order_trichotomy(target, s[point as int]);
            }
            if i < point {
                assert(below(s[i as int], target));
            }
        },
        None => {
            assert forall|j: int| point <= j < s.len() implies below(target, #[trigger] s[j]) by {
                order_trichotomy(s[j], target);
                order_trichotomy(target, s[j]);
            }
        },
    }
}

/// Inserting a target at its insertion point keeps ascending data ascending
/// and leaves the insertion point where it was.
pub proof fn insertion_point_is_stable<T: Ord>(s: Seq<T>, target: T, point: usize)
    requires
        total_order::<T>(),
        ascending(s),
        lower_bound(s, target, point),
    ensures
        ascending(s.insert(point as int, target)),
        lower_bound(s.insert(point as int, target), target, point),
{
    let grown = s.insert(point as int, target);
    order_trichotomy(target, target);
    assert forall|i: int, j: int| 0 <= i <= j < grown.len() implies at_most(
        #[trigger] grown[i],
        #[trigger] grown[j],
    ) by {
        let a = if i < point { s[i] } else if i == point { target } else { s[i - 1] };
        let b = if j < point { s[j] } else if j == point { target } else { s[j - 1] };
        assert(grown[i] == a);
        assert(grown[j] == b);
        if i < point && j > point {
            order_trichotomy(s[j - 1], target);
            order_trichotomy(target, s[j - 1]);
            order_transitive(s[i], target, s[j - 1]);
        } else if i == point && j > point {
            order_trichotomy(s[j - 1], target);
            order_trichotomy(target, s[j - 1]);
        } else if i < point && j < point {
            assert(at_most(s[i], s[j]));
        } else if i > point {
            assert(at_most(s[i - 1], s[j - 1]));
        }
    }
    assert forall|j: int| 0 <= j < point implies below(#[trigger] grown[j], target) by {
        assert(grown[j] == s[j]);
    }
    assert forall|j: int| point <= j < grown.len() implies !below(#[trigger] grown[j], target) by {
        if j > point {
            assert(grown[j] == s[j - 1]);
        }
    }
}

/// Where everything before `low` lies below `target` and everything after
/// `high` lies above it, and the two have met, `target` is absent.
proof fn nothing_between<T: Ord>(s: Seq<T>, target: T, low: int, high: int)
    requires
        total_order::<T>(),
        high < low,
        forall|j: int| 0 <= j < low && j < s.len() ==> below(#[trigger] s[j], target),
        forall|j: int| high < j < s.len() && 0 <= j ==> below(target, #[trigger] s[j]),
    ensures
        absent(s, target),
{
    assert forall|j: int| 0 <= j < s.len() implies !same(#[trigger] s[j], target) by {
        order_trichotomy(s[j], target);
        order_trichotomy(target, s[j]);
    }
}

} // verus!
