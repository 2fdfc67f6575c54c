//! Jump search over ascending data: the search leaps ahead block by block
//! until a block's last element is not below the target, and then scans that
//! block from its start.

use crate::dynamic_array::DynamicArray;
use crate::fixed_array::Array;
use crate::order::absent;
use crate::order::any_match;
use crate::order::ascending;
use crate::order::ascending_around_match;
use crate::order::ascending_prefix_below;
use crate::order::ascending_suffix_above;
use crate::order::below;
use crate::order::equals;
use crate::order::first_match;
use crate::order::found_at;
use crate::order::is_ascending;
use crate::order::last_match;
use crate::order::order_transitive;
use crate::order::order_trichotomy;
use crate::order::rank;
use crate::order::same;
use crate::order::total_order;
use crate::order::Rank;
use vstd::prelude::*;

verus! {

/// `root` is the square root of `n`, rounded up.
pub open spec fn is_root_ceiling(n: int, root: int) -> bool {
    &&& 0 <= root
    &&& n <= root * root
    &&& root == 0 || (root - 1) * (root - 1) < n
}

/// The square root of `n`, rounded up.
pub open spec fn root_ceiling(n: int) -> int {
    choose|root: int| is_root_ceiling(n, root)
}

/// A number has one rounded-up square root.
pub proof fn root_ceiling_unique(n: int, root: int)
    requires
        is_root_ceiling(n, root),
    ensures
        root == root_ceiling(n),
{
    let other = root_ceiling(n);
    assert(is_root_ceiling(n, other));
    if other < root {
        assert(other * other <= (root - 1) * (root - 1)) by (nonlinear_arith)
            requires
                0 <= other <= root - 1,
        ;
    }
    if root < other {
        assert(root * root <= (other - 1) * (other - 1)) by (nonlinear_arith)
            requires
                0 <= root <= other - 1,
        ;
    }
}

/// The default block length for `n` elements: the square root of `n`, rounded
/// up, and never less than 1.
pub open spec fn default_jump_size(n: int) -> int {
    if n <= 0 {
        1
    } else {
        root_ceiling(n)
    }
}

/// The block length with which jump search makes the fewest steps at worst:
/// the square root of `n`, rounded up, and 1 where there are no elements.
pub fn optimal_jump_size(n: usize) -> (size: usize)
    ensures
        size == default_jump_size(n as int),
        size >= 1,
        n > 0 ==> is_root_ceiling(n as int, size as int),
{
    if n == 0 {
        return 1;
    }
    let wide: u128 = n as u128;
    let mut low: usize = 1;
    let mut high: usize = n;
    assert(n * n >= n) by (nonlinear_arith)
        requires
            n >= 1,
    ;
    while low < high
        invariant
            1 <= low <= high <= n,
            wide == n,
            (low - 1) * (low - 1) < n,
            n <= high * high,
        decreases high - low,
    {
        let mid = low + (high - low) / 2;
        assert(mid * mid <= n * n) by (nonlinear_arith)
            requires
                0 <= mid <= n,
        ;
        assert(n * n < 0x1_0000_0000_0000_0000_0000_0000_0000_0000) by (nonlinear_arith)
            requires
                0 <= n < 0x1_0000_0000_0000_0000,
        ;
        let square: u128 = (mid as u128) * (mid as u128);
        if square >= wide {
            high = mid;
        } else {
            low = mid + 1;
        }
    }
    proof {
        root_ceiling_unique(n as int, low as int);
    }
    low
}

/// The block length for `n` elements; the same as `optimal_jump_size`.
pub fn calculate_jump_size(n: usize) -> (size: usize)
    ensures
        size == default_jump_size(n as int),
        size >= 1,
        n > 0 ==> is_root_ceiling(n as int, size as int),
{
    optimal_jump_size(n)
}

/// Jump search with blocks of `jump_size` elements. With blocks of length 0
/// nothing is searched. An index that comes back always holds an element equal
/// to `target`; on ascending data it is the first such index, and `None` says
/// that there is none.
pub fn jump_search_custom<T: Ord>(arr: &[T], target: &T, jump_size: usize) -> (r: Option<usize>)
    ensures
        jump_size == 0 ==> r is None,
        r matches Some(i) ==> i < arr@.len(),
        total_order::<T>() ==> (r matches Some(i) ==> found_at(arr@, *target, i as int)),
        total_order::<T>() && ascending(arr@) && jump_size > 0 ==> first_match(arr@, *target, r),
{
    let n = arr.len();
    if n == 0 || jump_size == 0 {
        return None;
    }
    let ghost sorted = total_order::<T>() && ascending(arr@);
    let mut prev: usize = 0;
    let mut curr: usize = if jump_size < n {
        jump_size - 1
    } else {
        n - 1
    };
    // Leap from block to block while the block's last element lies below the target.
    loop
        invariant
            n == arr@.len(),
            jump_size > 0,
            prev <= curr < n,
            sorted == (total_order::<T>() && ascending(arr@)),
            sorted ==> forall|j: int| 0 <= j < prev ==> below(#[trigger] arr@[j], *target),
        ensures
            prev <= curr < n,
            sorted ==> forall|j: int| 0 <= j < prev ==> below(#[trigger] arr@[j], *target),
            total_order::<T>() ==> !below(arr@[curr as int], *target),
        decreases n - curr,
    {
        match rank(&arr[curr], target) {
            Rank::Below => {
                proof {
                    if sorted {
                        ascending_prefix_below(arr@, curr as int, *target);
                    }
                }
                if curr == n - 1 {
                    proof {
                        if sorted {
                            assert forall|j: int| 0 <= j < arr@.len() implies !same(
                                #[trigger] arr@[j],
                                *target,
                            ) by {
                                order_trichotomy(arr@[j], *target);
                            }
                        }
                    }
                    return None;
                }
                prev = curr + 1;
                curr = if jump_size >= n - 1 - curr {
                    n - 1
                } else {
                    curr + jump_size
                };
            },
            _ => {
                break ;
            },
        }
    }
    // Scan the block.
    while prev <= curr
        invariant
            n == arr@.len(),
            jump_size > 0,
            curr < n,
            prev <= curr + 1,
            sorted == (total_order::<T>() && ascending(arr@)),
            sorted ==> forall|j: int| 0 <= j < prev ==> below(#[trigger] arr@[j], *target),
            total_order::<T>() ==> !below(arr@[curr as int], *target),
            total_order::<T>() ==> prev <= curr,
        decreases curr + 1 - prev,
    {
        match rank(&arr[prev], target) {
            Rank::Same => {
                proof {
                    if sorted {
                        assert forall|j: int| 0 <= j < prev implies !same(
                            #[trigger] arr@[j],
                            *target,
                        ) by {
                            order_trichotomy(arr@[j], *target);
                        }
                    }
                }
                return Some(prev);
            },
            Rank::Above => {
                proof {
                    if sorted {
                        order_trichotomy(arr@[prev as int], *target);
                        ascending_suffix_above(arr@, prev as int, *target);
                        assert forall|j: int| 0 <= j < arr@.len() implies !same(
                            #[trigger] arr@[j],
                            *target,
                        ) by {
                            order_trichotomy(arr@[j], *target);
                            order_trichotomy(*target, arr@[j]);
                        }
                    }
                }
                return None;
            },
            Rank::Below => {
                prev += 1;
            },
        }
    }
    None
}

/// Jump search with blocks of the optimal length for the data.
pub fn jump_search<T: Ord>(arr: &[T], target: &T) -> (r: Option<usize>)
    ensures
        r matches Some(i) ==> i < arr@.len(),
        total_order::<T>() ==> (r matches Some(i) ==> found_at(arr@, *target, i as int)),
        total_order::<T>() && ascending(arr@) ==> first_match(arr@, *target, r),
{
    let n = arr.len();
    if n == 0 {
        return None;
    }
    let jump = calculate_jump_size(n);
    jump_search_custom(arr, target, jump)
}

/// The first index at which `target` is found: jump search finds an
/// occurrence, and the search then steps left over equal neighbours.
pub fn jump_search_first<T: Ord>(arr: &[T], target: &T) -> (r: Option<usize>)
    ensures
        r matches Some(i) ==> i < arr@.len(),
        total_order::<T>() ==> (r matches Some(i) ==> found_at(arr@, *target, i as int)),
        total_order::<T>() && ascending(arr@) ==> first_match(arr@, *target, r),
{
    let n = arr.len();
    if n == 0 {
        return None;
    }
    let jump = optimal_jump_size(n);
    match jump_search_custom(arr, target, jump) {
        Some(idx) => {
            let mut i: usize = idx;
            while i > 0 && equals(&arr[i - 1], target)
                invariant
                    i <= idx < arr@.len(),
                    total_order::<T>() ==> found_at(arr@, *target, i as int),
                    total_order::<T>() && ascending(arr@) ==> i == idx,
                    total_order::<T>() && ascending(arr@) ==> first_match(arr@, *target, Some(idx)),
                decreases i,
            {
                i -= 1;
            }
            Some(i)
        },
        None => None,
    }
}

/// The last index at which `target` is found: jump search finds an
/// occurrence, and the search then steps right over equal neighbours.
pub fn jump_search_last<T: Ord>(arr: &[T], target: &T) -> (r: Option<usize>)
    ensures
        r matches Some(i) ==> i < arr@.len(),
        total_order::<T>() ==> (r matches Some(i) ==> found_at(arr@, *target, i as int)),
        total_order::<T>() && ascending(arr@) ==> last_match(arr@, *target, r),
{
    let n = arr.len();
    if n == 0 {
        return None;
    }
    let jump = optimal_jump_size(n);
    match jump_search_custom(arr, target, jump) {
        Some(idx) => {
            let mut i: usize = idx;
            while i < n - 1 && equals(&arr[i + 1], target)
                invariant
                    n == arr@.len(),
                    i < n,
                    total_order::<T>() ==> found_at(arr@, *target, i as int),
                decreases n - i,
            {
                i += 1;
            }
            proof {
                if total_order::<T>() && ascending(arr@) {
                    assert forall|j: int| i < j < arr@.len() implies !same(
                        #[trigger] arr@[j],
                        *target,
                    ) by {
                        // The right neighbour is not equal, so it and all after it lie above.
                        ascending_around_match(arr@, i as int, *target);
                        order_trichotomy(arr@[i + 1], *target);
                        ascending_suffix_above(arr@, i + 1, *target);
                        order_trichotomy(arr@[j], *target);
                        order_trichotomy(*target, arr@[j]);
                    }
                }
            }
            Some(i)
        },
        None => None,
    }
}

/// Jump search on a container of ascending elements.
pub trait JumpSearchable<T>: View<V = Seq<T>> {
    /// Jump search with blocks of the optimal length. What comes back always
    /// names an element equal to `target`; on ascending elements it is the
    /// first such index, and `None` says that there is none.
    fn jump_search(&self, target: &T) -> (r: Option<usize>) where T: Ord
        ensures
            r matches Some(i) ==> i < self@.len(),
            total_order::<T>() ==> (r matches Some(i) ==> found_at(self@, *target, i as int)),
            total_order::<T>() && ascending(self@) ==> first_match(self@, *target, r),
    ;

    /// Jump search with blocks of `jump_size` elements; with blocks of length
    /// 0 nothing is searched.
    fn jump_search_with_size(&self, target: &T, jump_size: usize) -> (r: Option<usize>) where T: Ord
        ensures
            jump_size == 0 ==> r is None,
            r matches Some(i) ==> i < self@.len(),
            total_order::<T>() ==> (r matches Some(i) ==> found_at(self@, *target, i as int)),
            total_order::<T>() && ascending(self@) && jump_size > 0 ==> first_match(self@, *target, r),
    ;

    /// The first index at which `target` is found on ascending elements.
    fn jump_search_first(&self, target: &T) -> (r: Option<usize>) where T: Ord
        ensures
            r matches Some(i) ==> i < self@.len(),
            total_order::<T>() ==> (r matches Some(i) ==> found_at(self@, *target, i as int)),
            total_order::<T>() && ascending(self@) ==> first_match(self@, *target, r),
    ;

    /// The last index at which `target` is found on ascending elements.
    fn jump_search_last(&self, target: &T) -> (r: Option<usize>) where T: Ord
        ensures
            r matches Some(i) ==> i < self@.len(),
            total_order::<T>() ==> (r matches Some(i) ==> found_at(self@, *target, i as int)),
            total_order::<T>() && ascending(self@) ==> last_match(self@, *target, r),
    ;
}

impl<T> JumpSearchable<T> for Array<T> {
    fn jump_search(&self, target: &T) -> (r: Option<usize>) where T: Ord {
        jump_search(self.as_slice(), target)
    }

    fn jump_search_with_size(&self, target: &T, jump_size: usize) -> (r: Option<usize>) where T: Ord {
        jump_search_custom(self.as_slice(), target, jump_size)
    }

    fn jump_search_first(&self, target: &T) -> (r: Option<usize>) where T: Ord {
        jump_search_first(self.as_slice(), target)
    }

    fn jump_search_last(&self, target: &T) -> (r: Option<usize>) where T: Ord {
        jump_search_last(self.as_slice(), target)
    }
}

impl<T> JumpSearchable<T> for DynamicArray<T> {
    fn jump_search(&self, target: &T) -> (r: Option<usize>) where T: Ord {
        jump_search(self.as_slice(), target)
    }

    fn jump_search_with_size(&self, target: &T, jump_size: usize) -> (r: Option<usize>) where T: Ord {
        jump_search_custom(self.as_slice(), target, jump_size)
    }

    fn jump_search_first(&self, target: &T) -> (r: Option<usize>) where T: Ord {
        jump_search_first(self.as_slice(), target)
    }

    fn jump_search_last(&self, target: &T) -> (r: Option<usize>) where T: Ord {
        jump_search_last(self.as_slice(), target)
    }
}

/// Whether the elements of the array are ascending, as jump search needs them.
pub fn is_sorted_for_jump<T: Ord>(arr: &Array<T>) -> (sorted: bool)
    ensures
        total_order::<T>() ==> (sorted <==> ascending(arr@)),
{
    is_ascending(arr.as_slice())
}

/// Jump search that halves its stride whenever it has leapt past the target,
/// and scans the last block one by one. What comes back always names an
/// element equal to `target`; on ascending elements `None` says that there is
/// none.
pub fn adaptive_jump_search<T: Ord>(arr: &Array<T>, target: &T) -> (r: Option<usize>)
    ensures
        r matches Some(i) ==> i < arr@.len(),
        total_order::<T>() ==> (r matches Some(i) ==> found_at(arr@, *target, i as int)),
        total_order::<T>() && ascending(arr@) ==> any_match(arr@, *target, r),
{
    let slice = arr.as_slice();
    let n = slice.len();
    if n == 0 {
        return None;
    }
    let ghost sorted = total_order::<T>() && ascending(slice@);
    let mut jump: usize = optimal_jump_size(n);
    let mut prev: usize = 0;
    loop
        invariant
            n == slice@.len(),
            slice@ == arr@,
            prev < n,
            jump >= 1,
            sorted == (total_order::<T>() && ascending(slice@)),
            sorted ==> forall|j: int| 0 <= j < prev ==> below(#[trigger] slice@[j], *target),
        decreases n - prev, jump,
    {
        let curr: usize = if jump - 1 >= n - 1 - prev {
            n - 1
        } else {
            prev + jump - 1
        };
        match rank(&slice[curr], target) {
            Rank::Same => {
                return Some(curr);
            },
            Rank::Below => {
                proof {
                    if sorted {
                        ascending_prefix_below(slice@, curr as int, *target);
                    }
                }
                prev = curr + 1;
                if prev >= n {
                    proof {
                        if sorted {
                            below_everywhere_absent(slice@, *target);
                        }
                    }
                    return None;
                }
            },
            Rank::Above => {
                if jump == 1 {
                    proof {
                        if sorted {
                            order_trichotomy(slice@[curr as int], *target);
                            ascending_suffix_above(slice@, curr as int, *target);
                            parted_absent(slice@, *target, prev as int);
                        }
                    }
                    return None;
                }
                jump = jump / 2;
                continue ;
            },
        }
        if jump >= n - prev {
            // The last block: scan it.
            let mut i: usize = prev;
            while i < n
                invariant
                    n == slice@.len(),
                    slice@ == arr@,
                    prev <= i <= n,
                    sorted == (total_order::<T>() && ascending(slice@)),
                    sorted ==> forall|j: int| 0 <= j < i ==> below(#[trigger] slice@[j], *target),
                decreases n - i,
            {
                match rank(&slice[i], target) {
                    Rank::Same => {
                        return Some(i);
                    },
                    Rank::Above => {
                        proof {
                            if sorted {
                                order_trichotomy(slice@[i as int], *target);
                                ascending_suffix_above(slice@, i as int, *target);
                                parted_absent(slice@, *target, i as int);
                            }
                        }
                        return None;
                    },
                    Rank::Below => {},
                }
                i += 1;
            }
            proof {
                if sorted {
                    below_everywhere_absent(slice@, *target);
                }
            }
            return None;
        }
    }
}

/// The most block lengths that `find_optimal_jump_size` tries.
pub const MAX_TRIED_SIZE: usize = 100;

/// The last index of the block of `size` elements that starts at `prev`.
pub open spec fn block_end(n: int, prev: int, size: int) -> int {
    if prev + size - 1 < n - 1 {
        prev + size - 1
    } else {
        n - 1
    }
}

/// The comparisons a scan from `from` through `to` makes: one for each element
/// up to the first that equals `target`.
pub open spec fn scan_cost<T: Ord>(s: Seq<T>, target: T, from: int, to: int) -> nat
    decreases to - from + 1,
{
    if from > to {
        0
    } else if same(s[from], target) {
        1
    } else {
        1 + scan_cost(s, target, from + 1, to)
    }
}

/// The comparisons a jump search for `target` makes from the block that starts
/// at `prev`: one for each block whose last element it probes, and the scan of
/// the first block whose last element does not lie below `target`.
pub open spec fn search_cost<T: Ord>(s: Seq<T>, target: T, size: int, prev: int) -> nat
    decreases s.len() - prev,
{
    if prev < 0 || prev >= s.len() || size < 1 {
        0
    } else {
        let curr = block_end(s.len() as int, prev, size);
        if below(s[curr], target) {
            1 + search_cost(s, target, size, curr + 1)
        } else {
            1 + scan_cost(s, target, prev, curr)
        }
    }
}

/// The comparisons that searching for each of the first `upto` samples makes.
pub open spec fn samples_cost<T: Ord>(s: Seq<T>, samples: Seq<T>, size: int, upto: int) -> nat
    decreases upto,
{
    if upto <= 0 {
        0
    } else {
        samples_cost(s, samples, size, upto - 1) + search_cost(s, samples[upto - 1], size, 0)
    }
}

/// `best` is the least block length up to `limit` for which the samples cost
/// the fewest comparisons.
pub open spec fn cheapest_size<T: Ord>(s: Seq<T>, samples: Seq<T>, limit: int, best: int) -> bool {
    &&& 1 <= best <= limit
    &&& forall|size: int|
        1 <= size <= limit ==> samples_cost(s, samples, best, samples.len() as int)
            <= #[trigger] samples_cost(s, samples, size, samples.len() as int)
    &&& forall|size: int|
        1 <= size < best ==> samples_cost(s, samples, best, samples.len() as int)
            < #[trigger] samples_cost(s, samples, size, samples.len() as int)
}

/// Jump search that counts its comparisons: one for each block whose last
/// element it probes, and one for each element it scans in the first block
/// whose last element does not lie below `target`.
pub fn jump_search_counting<T: Ord>(slice: &[T], target: &T, size: usize) -> (r: (Option<usize>, usize))
    requires
        1 <= size,
        slice@.len() < usize::MAX,
    ensures
        r.1 <= slice@.len() + 1,
        r.0 matches Some(i) ==> i < slice@.len(),
        total_order::<T>() ==> r.1 == search_cost(slice@, *target, size as int, 0),
        total_order::<T>() ==> (r.0 matches Some(i) ==> found_at(slice@, *target, i as int)),
        total_order::<T>() && ascending(slice@) ==> first_match(slice@, *target, r.0),
{
    let n = slice.len();
    let ghost sorted = total_order::<T>() && ascending(slice@);
    let mut comparisons: usize = 0;
    let mut prev: usize = 0;
    while prev < n
        invariant
            n == slice@.len(),
            1 <= size,
            n < usize::MAX,
            prev <= n,
            comparisons <= prev,
            sorted == (total_order::<T>() && ascending(slice@)),
            sorted ==> forall|j: int| 0 <= j < prev ==> below(#[trigger] slice@[j], *target),
            total_order::<T>() ==> comparisons + search_cost(slice@, *target, size as int, prev as int)
                == search_cost(slice@, *target, size as int, 0),
        decreases n - prev,
    {
        let curr: usize = if size - 1 < n - 1 - prev {
            prev + size - 1
        } else {
            n - 1
        };
        assert(curr == block_end(n as int, prev as int, size as int));
        comparisons += 1;
        match rank(&slice[curr], target) {
            Rank::Below => {
                proof {
                    if sorted {
                        ascending_prefix_below(slice@, curr as int, *target);
                    }
                }
            },
            _ => {
                // The block that may hold the target: scan it.
                let ghost probes = comparisons;
                let mut i: usize = prev;
                while i <= curr
                    invariant
                        n == slice@.len(),
                        prev <= i <= curr + 1,
                        curr < n,
                        n < usize::MAX,
                        probes <= prev + 1,
                        comparisons == probes + (i - prev),
                        sorted == (total_order::<T>() && ascending(slice@)),
                        sorted ==> forall|j: int| 0 <= j < prev ==> below(#[trigger] slice@[j], *target),
                        total_order::<T>() ==> !below(slice@[curr as int], *target),
                        total_order::<T>() ==> forall|j: int|
                            prev <= j < i ==> !same(#[trigger] slice@[j], *target),
                        total_order::<T>() ==> probes + scan_cost(
                            slice@,
                            *target,
                            prev as int,
                            curr as int,
                        ) == search_cost(slice@, *target, size as int, 0),
                        total_order::<T>() ==> comparisons + scan_cost(
                            slice@,
                            *target,
                            i as int,
                            curr as int,
                        ) == probes + scan_cost(slice@, *target, prev as int, curr as int),
                    decreases curr + 1 - i,
                {
                    comparisons += 1;
                    if equals(&slice[i], target) {
                        proof {
                            if sorted {
                                assert forall|j: int| 0 <= j < i implies !same(
                                    #[trigger] slice@[j],
                                    *target,
                                ) by {
                                    order_trichotomy(slice@[j], *target);
                                }
                            }
                        }
                        return (Some(i), comparisons);
                    }
                    i += 1;
                }
                proof {
                    if sorted {
                        assert forall|j: int| 0 <= j < slice@.len() implies !same(
                            #[trigger] slice@[j],
                            *target,
                        ) by {
                            order_trichotomy(slice@[j], *target);
                            if j > curr {
                                // Past the block nothing is less than the block's end.
                                order_trichotomy(slice@[curr as int], *target);
                                order_trichotomy(slice@[curr as int], slice@[j]);
                                order_transitive(slice@[curr as int], slice@[j], *target);
                            }
                        }
                    }
                }
                return (None, comparisons);
            },
        }
        prev = curr + 1;
    }
    proof {
        if sorted {
            below_everywhere_absent(slice@, *target);
        }
    }
    (None, comparisons)
}

/// Counts the comparisons that searching for every sample makes.
fn count_samples<T: Ord>(slice: &[T], samples: &[T], size: usize) -> (total: usize)
    requires
        1 <= size <= MAX_TRIED_SIZE,
        samples@.len() * (slice@.len() + 1) <= usize::MAX,
        samples@.len() > 0,
    ensures
        total_order::<T>() ==> total == samples_cost(slice@, samples@, size as int, samples@.len() as int),
{
    let ghost per_sample = slice@.len() + 1;
    assert(per_sample <= samples@.len() * per_sample) by (nonlinear_arith)
        requires
            samples@.len() >= 1,
            per_sample >= 0,
    ;
    let mut total: usize = 0;
    let mut k: usize = 0;
    while k < samples.len()
        invariant
            k <= samples@.len(),
            1 <= size <= MAX_TRIED_SIZE,
            per_sample == slice@.len() + 1,
            per_sample <= usize::MAX,
            samples@.len() * per_sample <= usize::MAX,
            total <= k * per_sample,
            total_order::<T>() ==> total == samples_cost(slice@, samples@, size as int, k as int),
        decreases samples@.len() - k,
    {
        let (_, cost) = jump_search_counting(slice, &samples[k], size);
        assert((k + 1) * per_sample <= samples@.len() * per_sample) by (nonlinear_arith)
            requires
                k + 1 <= samples@.len(),
                per_sample >= 0,
        ;
        assert((k + 1) * per_sample == k * per_sample + per_sample) by (nonlinear_arith);
        total += cost;
        k += 1;
    }
    total
}

/// The block length, among the first `MAX_TRIED_SIZE`, with which jump
/// searches for the given samples make the fewest comparisons in all; the
/// least such length if several do. Without elements or without samples it is
/// the default length for the number of elements.
pub fn find_optimal_jump_size<T: Ord>(arr: &Array<T>, samples: &[T]) -> (best: usize)
    requires
        samples@.len() * (arr@.len() + 1) <= usize::MAX,
    ensures
        arr@.len() == 0 || samples@.len() == 0 ==> best == default_jump_size(arr@.len() as int),
        arr@.len() > 0 && samples@.len() > 0 ==> 1 <= best <= arr@.len() && best <= MAX_TRIED_SIZE,
        arr@.len() > 0 && samples@.len() > 0 && total_order::<T>() ==> cheapest_size(
            arr@,
            samples@,
            if arr@.len() < MAX_TRIED_SIZE {
                arr@.len() as int
            } else {
                MAX_TRIED_SIZE as int
            },
            best as int,
        ),
{
    let slice = arr.as_slice();
    let n = slice.len();
    if n == 0 || samples.is_empty() {
        return optimal_jump_size(n);
    }
    let limit: usize = if n < MAX_TRIED_SIZE {
        n
    } else {
        MAX_TRIED_SIZE
    };
    let ghost all = samples@.len() as int;
    let mut best_size: usize = 1;
    let mut min_comparisons: usize = usize::MAX;
    let mut size: usize = 1;
    while size <= limit
        invariant
            slice@ == arr@,
            n == slice@.len(),
            all == samples@.len(),
            all > 0,
            all * (n + 1) <= usize::MAX,
            1 <= limit <= MAX_TRIED_SIZE,
            limit <= n,
            1 <= size <= limit + 1,
            1 <= best_size <= limit,
            size == 1 ==> best_size == 1 && min_comparisons == usize::MAX,
            size > 1 ==> best_size < size,
            total_order::<T>() && size > 1 ==> {
                &&& min_comparisons == samples_cost(slice@, samples@, best_size as int, all)
                &&& forall|other: int|
                    1 <= other < size ==> min_comparisons <= #[trigger] samples_cost(
                        slice@,
                        samples@,
                        other,
                        all,
                    )
                &&& forall|other: int|
                    1 <= other < best_size ==> min_comparisons < #[trigger] samples_cost(
                        slice@,
                        samples@,
                        other,
                        all,
                    )
            },
        decreases limit + 1 - size,
    {
        let total_comparisons = count_samples(slice, samples, size);
        if total_comparisons < min_comparisons {
            min_comparisons = total_comparisons;
            best_size = size;
        }
        size += 1;
    }
    best_size
}

/// Jump search agrees with binary search: on the same ascending data the two
/// find a target or both miss it, and where binary search names an
/// occurrence, jump search names the first element equal to it.
pub proof fn jump_agrees_with_binary<T: Ord>(
    s: Seq<T>,
    target: T,
    by_jump: Option<usize>,
    by_halving: Option<usize>,
)
    requires
        total_order::<T>(),
        ascending(s),
        first_match(s, target, by_jump),
        any_match(s, target, by_halving),
    ensures
        by_jump is Some <==> by_halving is Some,
        by_jump matches Some(j) ==> by_halving matches Some(h) && j <= h && same(s[j as int], s[h as int]),
        (forall|i: int, k: int| 0 <= i < k < s.len() ==> below(s[i], s[k])) ==> by_jump == by_halving,
{
    match (by_jump, by_halving) {
        (Some(j), Some(h)) => {
            assert(same(s[h as int], target));
            order_trichotomy(s[h as int], target);
            order_transitive(s[j as int], target, s[h as int]);
            if j < h {
                order_trichotomy(s[j as int], s[h as int]);
            }
        },
        (Some(j), None) => {
            assert(same(s[j as int], target));
        },
        (None, Some(h)) => {
            assert(same(s[h as int], target));
        },
        (None, None) => {},
    }
}

/// What lies below `target` throughout does not hold it.
proof fn below_everywhere_absent<T: Ord>(s: Seq<T>, target: T)
    requires
        total_order::<T>(),
        forall|j: int| 0 <= j < s.len() ==> below(#[trigger] s[j], target),
    ensures
        absent(s, target),
{
    assert forall|j: int| 0 <= j < s.len() implies !same(#[trigger] s[j], target) by {
        order_trichotomy(s[j], target);
    }
}

/// What lies below `target` before `at` and above it from `at` on does not
/// hold it.
proof fn parted_absent<T: Ord>(s: Seq<T>, target: T, at: int)
    requires
        total_order::<T>(),
        forall|j: int| 0 <= j < at && j < s.len() ==> below(#[trigger] s[j], target),
        forall|j: int| at <= j < s.len() && 0 <= j ==> below(target, #[trigger] s[j]),
    ensures
        absent(s, target),
{
    assert forall|j: int| 0 <= j < s.len() implies !same(#[trigger] s[j], target) by {
        order_trichotomy(s[j], target);
        order_trichotomy(target, s[j]);
    }
}

} // verus!
