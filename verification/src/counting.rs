//! Searches that count the comparisons they make, to hold linear search
//! against jump search on the same data.

use crate::jump_search::calculate_jump_size;
use crate::jump_search::default_jump_size;
use crate::jump_search::jump_search_counting;
use crate::jump_search::search_cost;
use crate::linear_search::equal;
use crate::linear_search::exact_eq;
use crate::linear_search::first_equal;
use crate::order::ascending;
use crate::order::first_match;
use crate::order::found_at;
use crate::order::i32_total_order;
use crate::order::total_order;
use vstd::prelude::*;

verus! {

/// What a counted search found, and how many element comparisons it made.
pub struct SearchResult {
    pub index: Option<usize>,
    pub comparisons: usize,
}

/// The comparisons a linear search from `from` on makes: one for each element
/// up to the first that equals `target`.
pub open spec fn linear_cost<T: PartialEq>(s: Seq<T>, target: T, from: int) -> nat
    decreases s.len() - from,
{
    if from < 0 || from >= s.len() {
        0
    } else if equal(s[from], target) {
        1
    } else {
        1 + linear_cost(s, target, from + 1)
    }
}

/// Linear search that counts its comparisons.
pub fn linear_search_counted<T: PartialEq>(arr: &[T], target: &T) -> (r: SearchResult)
    ensures
        r.comparisons <= arr@.len(),
        r.index matches Some(i) ==> i < arr@.len(),
        exact_eq::<T>() ==> first_equal(arr@, *target, r.index),
        exact_eq::<T>() ==> r.comparisons == linear_cost(arr@, *target, 0),
{
    let mut comparisons: usize = 0;
    let mut i: usize = 0;
    while i < arr.len()
        invariant
            i <= arr@.len(),
            comparisons == i,
            exact_eq::<T>() ==> forall|j: int| 0 <= j < i ==> !equal(#[trigger] arr@[j], *target),
            exact_eq::<T>() ==> comparisons + linear_cost(arr@, *target, i as int) == linear_cost(
                arr@,
                *target,
                0,
            ),
        decreases arr@.len() - i,
    {
        comparisons += 1;
        if arr[i] == *target {
            return SearchResult { index: Some(i), comparisons };
        }
        i += 1;
    }
    SearchResult { index: None, comparisons }
}

/// Jump search with blocks of the optimal length that counts its comparisons:
/// one for each block whose last element it probes, and one for each element
/// it scans in the block that may hold `target`.
pub fn jump_search_counted<T: Ord>(arr: &[T], target: &T) -> (r: SearchResult)
    requires
        arr@.len() < usize::MAX,
    ensures
        r.comparisons <= arr@.len() + 1,
        r.index matches Some(i) ==> i < arr@.len(),
        total_order::<T>() ==> r.comparisons == search_cost(
            arr@,
            *target,
            default_jump_size(arr@.len() as int),
            0,
        ),
        total_order::<T>() ==> (r.index matches Some(i) ==> found_at(arr@, *target, i as int)),
        total_order::<T>() && ascending(arr@) ==> first_match(arr@, *target, r.index),
{
    let n = arr.len();
    if n == 0 {
        return SearchResult { index: None, comparisons: 0 };
    }
    let jump = calculate_jump_size(n);
    let (index, comparisons) = jump_search_counting(arr, target, jump);
    SearchResult { index, comparisons }
}

/// The comparisons that linear search and jump search make for `target` on
/// the same data, in that order.
pub fn compare_algorithms(arr: &[i32], target: i32) -> (counts: (usize, usize))
    requires
        arr@.len() < usize::MAX,
    ensures
        counts.0 == linear_cost(arr@, target, 0),
        counts.1 == search_cost(arr@, target, default_jump_size(arr@.len() as int), 0),
{
    proof {
        i32_total_order();
    }
    let linear = linear_search_counted(arr, &target);
    let jump = jump_search_counted(arr, &target);
    (linear.comparisons, jump.comparisons)
}

} // verus!
