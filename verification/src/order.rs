//! The vocabulary in which the search contracts speak of an element type's order.

use core::cmp::Ordering;
use vstd::laws_cmp::obeys_cmp;
use vstd::laws_cmp::obeys_cmp_ord;
use vstd::laws_cmp::obeys_cmp_partial_ord;
use vstd::laws_cmp::obeys_partial_cmp_spec_properties;
use vstd::laws_eq::obeys_eq_spec_properties;
use vstd::prelude::*;
use vstd::std_specs::cmp::OrdSpec;
use vstd::std_specs::cmp::PartialEqSpec;
use vstd::std_specs::cmp::PartialOrdSpec;

verus! {

/// `T`'s comparison operators compute one total order, and `==` is its equality.
pub open spec fn total_order<T: Ord>() -> bool {
    obeys_cmp::<T>()
}

/// The order of `i32` is a total order.
pub proof fn i32_total_order()
    ensures
        total_order::<i32>(),
{
    broadcast use vstd::laws_cmp::group_laws_cmp;

}

/// `a` comes strictly before `b`.
pub open spec fn below<T: Ord>(a: T, b: T) -> bool {
    a.cmp_spec(&b) == Ordering::Less
}

/// `a` and `b` compare equal.
pub open spec fn same<T: Ord>(a: T, b: T) -> bool {
    a.cmp_spec(&b) == Ordering::Equal
}

/// `a` does not come after `b`.
pub open spec fn at_most<T: Ord>(a: T, b: T) -> bool {
    below(a, b) || same(a, b)
}

/// Every element is at most each element that follows it.
pub open spec fn ascending<T: Ord>(s: Seq<T>) -> bool {
    forall|i: int, j: int| 0 <= i <= j < s.len() ==> at_most(#[trigger] s[i], #[trigger] s[j])
}

/// How one value stands to another.
#[derive(Clone, Copy, Debug, PartialEq, Eq)]
pub enum Rank {
    Below,
    Same,
    Above,
}

/// The rank that a total order gives `a` against `b`.
pub open spec fn rank_of<T: Ord>(a: T, b: T) -> Rank {
    if below(a, b) {
        Rank::Below
    } else if same(a, b) {
        Rank::Same
    } else {
        Rank::Above
    }
}

/// Compares `a` against `b` once.
pub fn rank<T: Ord>(a: &T, b: &T) -> (r: Rank)
    ensures
        total_order::<T>() ==> r == rank_of(*a, *b),
{
    proof {
        if total_order::<T>() {
            reveal(obeys_cmp_ord);
        }
    }
    match a.cmp(b) {
        Ordering::Less => Rank::Below,
        Ordering::Equal => Rank::Same,
        Ordering::Greater => Rank::Above,
    }
}

/// Whether `a == b`; in a total order that is whether the two compare equal.
pub fn equals<T: Ord>(a: &T, b: &T) -> (r: bool)
    ensures
        total_order::<T>() ==> r == same(*a, *b),
{
    proof {
        if total_order::<T>() {
            order_trichotomy(*a, *b);
            reveal(obeys_cmp_partial_ord);
        }
    }
    *a == *b
}

/// In a total order exactly one of three holds of two values, and `==` is `same`.
pub proof fn order_trichotomy<T: Ord>(a: T, b: T)
    requires
        total_order::<T>(),
    ensures
        below(a, b) || same(a, b) || below(b, a),
        !(below(a, b) && same(a, b)),
        !(below(a, b) && below(b, a)),
        !(same(a, b) && below(b, a)),
        same(a, b) <==> same(b, a),
        same(a, b) <==> a.eq_spec(&b),
        same(a, a),
{
    reveal(obeys_cmp_ord);
    reveal(obeys_cmp_partial_ord);
    reveal(obeys_partial_cmp_spec_properties);
    reveal(obeys_eq_spec_properties);
    // The laws are stated of `partial_cmp`, which a total order has from `cmp`.
    assert(a.partial_cmp_spec(&b) == Some(a.cmp_spec(&b)));
    assert(b.partial_cmp_spec(&a) == Some(b.cmp_spec(&a)));
    assert(a.partial_cmp_spec(&a) == Some(a.cmp_spec(&a)));
}

/// Order and equality chain: what lies at or below something that lies below a
/// third value lies below it too, and likewise with the strict step second.
pub proof fn order_transitive<T: Ord>(a: T, b: T, c: T)
    requires
        total_order::<T>(),
    ensures
        below(a, b) && below(b, c) ==> below(a, c),
        same(a, b) && same(b, c) ==> same(a, c),
        same(a, b) && below(b, c) ==> below(a, c),
        below(a, b) && same(b, c) ==> below(a, c),
        at_most(a, b) && at_most(b, c) ==> at_most(a, c),
{
    order_trichotomy(a, b);
    order_trichotomy(b, c);
    order_trichotomy(a, c);
    reveal(obeys_cmp_ord);
    reveal(obeys_partial_cmp_spec_properties);
    reveal(obeys_eq_spec_properties);
    assert(a.partial_cmp_spec(&b) == Some(a.cmp_spec(&b)));
    assert(b.partial_cmp_spec(&c) == Some(b.cmp_spec(&c)));
    assert(a.partial_cmp_spec(&c) == Some(a.cmp_spec(&c)));
    assert(c.partial_cmp_spec(&a) == Some(c.cmp_spec(&a)));
    assert(b.partial_cmp_spec(&a) == Some(b.cmp_spec(&a)));
    assert(c.partial_cmp_spec(&b) == Some(c.cmp_spec(&b)));
}

/// Elements of which each is at most its successor are ascending.
pub proof fn ascending_from_neighbours<T: Ord>(s: Seq<T>)
    requires
        total_order::<T>(),
        forall|i: int| 0 < i < s.len() ==> at_most(s[i - 1], #[trigger] s[i]),
    ensures
        ascending(s),
{
    assert forall|i: int, j: int| 0 <= i <= j < s.len() implies at_most(
        #[trigger] s[i],
        #[trigger] s[j],
    ) by {
        neighbours_chain(s, i, j);
    }
}

proof fn neighbours_chain<T: Ord>(s: Seq<T>, i: int, j: int)
    requires
        total_order::<T>(),
        forall|k: int| 0 < k < s.len() ==> at_most(s[k - 1], #[trigger] s[k]),
        0 <= i <= j < s.len(),
    ensures
        at_most(s[i], s[j]),
    decreases j - i,
{
    if i == j {
        order_trichotomy(s[i], s[i]);
    } else {
        neighbours_chain(s, i, j - 1);
        assert(at_most(s[j - 1], s[j]));
        order_transitive(s[i], s[j - 1], s[j]);
    }
}

/// Whether each element is at most the one that follows it.
pub fn is_ascending<T: Ord>(slice: &[T]) -> (sorted: bool)
    ensures
        total_order::<T>() ==> (sorted <==> ascending(slice@)),
{
    let mut i: usize = 1;
    while i < slice.len()
        invariant
            1 <= i,
            total_order::<T>() ==> forall|k: int|
                0 < k < i && k < slice@.len() ==> at_most(slice@[k - 1], #[trigger] slice@[k]),
        decreases slice@.len() - i,
    {
        match rank(&slice[i - 1], &slice[i]) {
            Rank::Above => {
                proof {
                    if total_order::<T>() {
                        order_trichotomy(slice@[i - 1], slice@[i as int]);
                        if ascending(slice@) {
                            assert(at_most(slice@[i - 1], slice@[i as int]));
                        }
                    }
                }
                return false;
            },
            _ => {},
        }
        i += 1;
    }
    proof {
        if total_order::<T>() {
            ascending_from_neighbours(slice@);
        }
    }
    true
}

/// The index that a search result names, as a mathematical integer.
pub open spec fn index_of(r: Option<usize>) -> Option<int> {
    match r {
        Some(i) => Some(i as int),
        None => None,
    }
}

/// `target` is found at index `i` of `s`.
pub open spec fn found_at<T: Ord>(s: Seq<T>, target: T, i: int) -> bool {
    0 <= i < s.len() && same(s[i], target)
}

/// No element of `s` compares equal to `target`.
pub open spec fn absent<T: Ord>(s: Seq<T>, target: T) -> bool {
    forall|j: int| 0 <= j < s.len() ==> !same(#[trigger] s[j], target)
}

/// `r` is an index at which `target` is found, or `None` and `target` is absent.
pub open spec fn any_match<T: Ord>(s: Seq<T>, target: T, r: Option<usize>) -> bool {
    match r {
        Some(i) => found_at(s, target, i as int),
        None => absent(s, target),
    }
}

/// `r` is the least index at which `target` is found, or `None` and `target`
/// is absent.
pub open spec fn first_match<T: Ord>(s: Seq<T>, target: T, r: Option<usize>) -> bool {
    match r {
        Some(i) => found_at(s, target, i as int) && forall|j: int|
            0 <= j < i ==> !same(#[trigger] s[j], target),
        None => absent(s, target),
    }
}

/// `r` is the greatest index at which `target` is found, or `None` and
/// `target` is absent.
pub open spec fn last_match<T: Ord>(s: Seq<T>, target: T, r: Option<usize>) -> bool {
    match r {
        Some(i) => found_at(s, target, i as int) && forall|j: int|
            i < j < s.len() ==> !same(#[trigger] s[j], target),
        None => absent(s, target),
    }
}

/// `r` parts `s` in two: the elements before it lie below `target`, and those
/// from it on do not.
pub open spec fn lower_bound<T: Ord>(s: Seq<T>, target: T, r: usize) -> bool {
    &&& r <= s.len()
    &&& forall|j: int| 0 <= j < r ==> below(#[trigger] s[j], target)
    &&& forall|j: int| r <= j < s.len() ==> !below(#[trigger] s[j], target)
}

/// In an ascending sequence, everything up to an element that lies below
/// `target` lies below it too.
pub proof fn ascending_prefix_below<T: Ord>(s: Seq<T>, mid: int, target: T)
    requires
        total_order::<T>(),
        ascending(s),
        0 <= mid < s.len(),
        below(s[mid], target),
    ensures
        forall|j: int| 0 <= j <= mid ==> below(#[trigger] s[j], target),
{
    assert forall|j: int| 0 <= j <= mid implies below(#[trigger] s[j], target) by {
        order_transitive(s[j], s[mid], target);
    }
}

/// In an ascending sequence, everything from an element that lies above
/// `target` on lies above it too.
pub proof fn ascending_suffix_above<T: Ord>(s: Seq<T>, mid: int, target: T)
    requires
        total_order::<T>(),
        ascending(s),
        0 <= mid < s.len(),
        below(target, s[mid]),
    ensures
        forall|j: int| mid <= j < s.len() ==> below(target, #[trigger] s[j]),
{
    assert forall|j: int| mid <= j < s.len() implies below(target, #[trigger] s[j]) by {
        order_transitive(target, s[mid], s[j]);
    }
}

/// In an ascending sequence, nothing before an element equal to `target` lies
/// above `target`, and nothing after it lies below.
pub proof fn ascending_around_match<T: Ord>(s: Seq<T>, mid: int, target: T)
    requires
        total_order::<T>(),
        ascending(s),
        0 <= mid < s.len(),
        same(s[mid], target),
    ensures
        forall|j: int| 0 <= j <= mid ==> !below(target, #[trigger] s[j]),
        forall|j: int| mid <= j < s.len() ==> !below(#[trigger] s[j], target),
{
    assert forall|j: int| 0 <= j <= mid implies !below(target, #[trigger] s[j]) by {
        order_trichotomy(s[mid], target);
        order_trichotomy(target, s[j]);
        order_trichotomy(s[mid], s[j]);
        order_transitive(s[mid], target, s[j]);
    }
    assert forall|j: int| mid <= j < s.len() implies !below(#[trigger] s[j], target) by {
        order_trichotomy(s[mid], target);
        order_trichotomy(s[j], target);
        order_trichotomy(s[j], s[mid]);
        order_transitive(s[j], target, s[mid]);
    }
}

} // verus!
