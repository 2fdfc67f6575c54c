//! Interpolation search over ascending integers: the next index to probe is
//! estimated from where the target's value lies between the values at the two
//! ends of the range.

use vstd::prelude::*;

verus! {

/// No value is greater than one that follows it.
pub open spec fn rising(s: Seq<i32>) -> bool {
    forall|i: int, j: int| 0 <= i <= j < s.len() ==> s[i] <= s[j]
}

/// The index that lies as far into `low..=high` as `target` lies into the
/// values at its two ends, rounded down.
pub open spec fn interpolated(low: int, high: int, at_low: int, at_high: int, target: int) -> int {
    low + ((target - at_low) * (high - low)) / (at_high - at_low)
}

proof fn interpolated_in_range(low: int, high: int, at_low: int, at_high: int, target: int)
    requires
        low <= high,
        at_low <= target <= at_high,
        at_low < at_high,
    ensures
        low <= interpolated(low, high, at_low, at_high, target) <= high,
        0 <= (target - at_low) * (high - low),
        (target - at_low) * (high - low) <= (at_high - at_low) * (high - low),
{
    let x = target - at_low;
    let y = high - low;
    let z = at_high - at_low;
    assert(0 <= x * y <= z * y) by (nonlinear_arith)
        requires
            0 <= x <= z,
            0 <= y,
    ;
    assert(0 <= (x * y) / z <= y) by (nonlinear_arith)
        requires
            0 <= x * y <= z * y,
            0 < z,
    ;
}

/// Searches ascending integers for `target`. An index that comes back always
/// holds `target`; on ascending data `None` comes back only if no element is
/// `target`.
pub fn interpolation_search(arr: &[i32], target: i32) -> (r: Option<usize>)
    ensures
        r matches Some(i) ==> i < arr@.len() && arr@[i as int] == target,
        rising(arr@) && r is None ==> forall|j: int| 0 <= j < arr@.len() ==> arr@[j] != target,
{
    let n = arr.len();
    if n == 0 {
        return None;
    }
    let mut low: usize = 0;
    let mut high: usize = n - 1;
    while low <= high && target >= arr[low] && target <= arr[high]
        invariant
            n == arr@.len(),
            low <= n,
            high < n,
            rising(arr@) ==> forall|j: int| 0 <= j < low ==> arr@[j] < target,
            rising(arr@) ==> forall|j: int| high < j < n ==> arr@[j] > target,
        decreases high + 1 - low,
    {
        let at_low: i32 = arr[low];
        let at_high: i32 = arr[high];
        if at_low == at_high {
            return Some(low);
        }
        proof {
            interpolated_in_range(low as int, high as int, at_low as int, at_high as int, target as int);
        }
        let rise: u128 = (target as i64 - at_low as i64) as u128;
        let span: u128 = (at_high as i64 - at_low as i64) as u128;
        let width: u128 = (high - low) as u128;
        assert(rise * width <= span * width);
        assert(span * width < 0x1_0000_0000_0000_0000_0000_0000_0000_0000) by (nonlinear_arith)
            requires
                0 <= span < 0x1_0000_0000,
                0 <= width < 0x1_0000_0000_0000_0000,
        ;
        let offset: u128 = (rise * width) / span;
        let pos: usize = low + offset as usize;
        assert(pos == interpolated(low as int, high as int, at_low as int, at_high as int, target as int));
        if arr[pos] == target {
            return Some(pos);
        }
        if arr[pos] < target {
            low = pos + 1;
        } else {
            high = pos - 1;
        }
    }
    proof {
        if rising(arr@) {
            assert forall|j: int| 0 <= j < arr@.len() implies arr@[j] != target by {
                if low <= high {
                    if target < arr@[low as int] {
                        assert(arr@[low as int] <= arr@[j] || j < low);
                    } else {
                        assert(arr@[j] <= arr@[high as int] || j > high);
                    }
                }
            }
        }
    }
    None
}

} // verus!
