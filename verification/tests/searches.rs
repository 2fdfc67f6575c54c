use arrays::binary_search::binary_search;
use arrays::binary_search::binary_search_by;
use arrays::binary_search::binary_search_first;
use arrays::binary_search::binary_search_last;
use arrays::binary_search::binary_search_slice;
use arrays::binary_search::find_insertion_point;
use arrays::binary_search::is_sorted_dynamic;
use arrays::binary_search::search_rotated;
use arrays::binary_search::BinarySearchable;
use arrays::counting::compare_algorithms;
use arrays::counting::jump_search_counted;
use arrays::counting::linear_search_counted;
use arrays::dynamic_array::DynamicArray;
use arrays::fixed_array::Array;
use arrays::interpolation_search::interpolation_search;
use arrays::jump_search::adaptive_jump_search;
use arrays::jump_search::calculate_jump_size;
use arrays::jump_search::find_optimal_jump_size;
use arrays::jump_search::jump_search;
use arrays::jump_search::jump_search_counting;
use arrays::jump_search::jump_search_custom;
use arrays::jump_search::jump_search_first;
use arrays::jump_search::jump_search_last;
use arrays::jump_search::optimal_jump_size;
use arrays::jump_search::JumpSearchable;
use arrays::linear_search::count_occurrences;
use arrays::linear_search::find_max;
use arrays::linear_search::find_min;
use arrays::linear_search::linear_search;
use arrays::linear_search::linear_search_all;
use arrays::linear_search::reverse_linear_search;
use arrays::linear_search::LinearSearchable;
use arrays::order::equals;
use arrays::order::is_ascending;
use arrays::order::rank;
use arrays::order::Rank;

/// Ascending values with runs of equal ones, the same for the same seed.
fn ascending_values(len: usize, seed: u64) -> Vec<i64> {
    let mut state = seed.wrapping_mul(6364136223846793005).wrapping_add(1442695040888963407);
    let mut value: i64 = -20;
    let mut values = Vec::new();
    for _ in 0..len {
        state = state.wrapping_mul(6364136223846793005).wrapping_add(1442695040888963407);
        value += ((state >> 33) % 3) as i64;
        values.push(value);
    }
    values
}

#[test]
fn every_present_target_is_found() {
    for len in 0..40 {
        let values = ascending_values(len, len as u64);
        for (at, target) in values.iter().enumerate() {
            let found = binary_search(&values, target).unwrap();
            assert_eq!(values[found], *target);
            let first = binary_search_first(&values, target).unwrap();
            let last = binary_search_last(&values, target).unwrap();
            assert!(first <= at && at <= last);
            for (index, value) in values.iter().enumerate() {
                assert_eq!(first <= index && index <= last, value == target);
            }
        }
    }
}

#[test]
fn run_of_equal_values_is_bounded() {
    let values = [1, 2, 2, 2, 3, 4, 5];
    assert_eq!(binary_search_first(&values, &2), Some(1));
    assert_eq!(binary_search_last(&values, &2), Some(3));
    assert_eq!(binary_search_first(&values, &0), None);
    assert_eq!(binary_search_last(&values, &6), None);
}

#[test]
fn insertion_point_is_stable() {
    let values = [1, 3, 5, 7, 9];
    assert_eq!(find_insertion_point(&values, &4), 2);
    assert_eq!(find_insertion_point(&values, &0), 0);
    assert_eq!(find_insertion_point(&values, &10), 5);
    assert_eq!(find_insertion_point(&values, &5), 2);

    for len in 0..30 {
        let values = ascending_values(len, 100 + len as u64);
        for target in -22..45 {
            let point = find_insertion_point(&values, &target);
            assert!(values[..point].iter().all(|v| *v < target));
            assert!(values[point..].iter().all(|v| *v >= target));
            match binary_search_first(&values, &target) {
                Some(first) => assert_eq!(first, point),
                None => assert!(point == values.len() || values[point] > target),
            }
            let mut grown = values.clone();
            grown.insert(point, target);
            assert!(is_ascending(&grown));
            assert_eq!(find_insertion_point(&grown, &target), point);
        }
    }
}

#[test]
fn jump_search_agrees_with_binary_search() {
    for len in 0..60 {
        let values = ascending_values(len, 1000 + len as u64);
        for target in -22..100 {
            let by_jump = jump_search(&values, &target);
            let by_halving = binary_search(&values, &target);
            assert_eq!(by_jump.is_some(), by_halving.is_some());
            assert_eq!(by_jump, binary_search_first(&values, &target));
            assert_eq!(jump_search_first(&values, &target), binary_search_first(&values, &target));
            assert_eq!(jump_search_last(&values, &target), binary_search_last(&values, &target));
            if let (Some(j), Some(h)) = (by_jump, by_halving) {
                assert!(j <= h);
                assert_eq!(values[j], values[h]);
            }
            for size in 1..(len + 3) {
                assert_eq!(jump_search_custom(&values, &target, size), by_jump);
            }
        }
    }
    let distinct: Vec<u32> = (0..50).map(|i| i * 3).collect();
    for target in 0..150 {
        assert_eq!(jump_search(&distinct, &target), binary_search(&distinct, &target));
    }
}

#[test]
fn jump_search_block_lengths() {
    let values = [1, 3, 5, 7, 9];
    assert_eq!(jump_search_custom(&values, &9, 0), None);
    assert_eq!(jump_search_custom(&values, &9, usize::MAX), Some(4));
    assert_eq!(jump_search_custom(&values, &10, usize::MAX), None);
    assert_eq!(jump_search_custom(&values, &10, 2), None);
    assert_eq!(jump_search_custom(&values, &0, 2), None);
    let arr = Array::from_slice(&values, 5).unwrap();
    assert_eq!(arr.jump_search_with_size(&9, 0), None);
    assert_eq!(arr.jump_search_with_size(&100, 20), None);
}

#[test]
fn root_is_rounded_up() {
    let expected = [1, 1, 2, 2, 2, 3, 3, 3, 3, 3, 4];
    for (n, root) in expected.iter().enumerate() {
        assert_eq!(optimal_jump_size(n), *root);
        assert_eq!(calculate_jump_size(n), *root);
    }
    assert_eq!(optimal_jump_size(17), 5);
    assert_eq!(optimal_jump_size(1000), 32);
    assert_eq!(optimal_jump_size(1 << 40), 1 << 20);
    assert_eq!(optimal_jump_size((1 << 40) + 1), (1 << 20) + 1);
    assert_eq!(optimal_jump_size(u32::MAX as usize), 1 << 16);
}

#[test]
fn comparisons_are_counted() {
    let values: Vec<i32> = (0..100).collect();
    let linear = linear_search_counted(&values, &75);
    assert_eq!(linear.index, Some(75));
    assert_eq!(linear.comparisons, 76);
    let missing = linear_search_counted(&values, &100);
    assert_eq!(missing.index, None);
    assert_eq!(missing.comparisons, 100);

    // Blocks of 10: eight probes up to index 79, then six elements from 70 on.
    let jump = jump_search_counted(&values, &75);
    assert_eq!(jump.index, Some(75));
    assert_eq!(jump.comparisons, 14);
    // Ten probes, none of them stops the search.
    let beyond = jump_search_counted(&values, &100);
    assert_eq!(beyond.index, None);
    assert_eq!(beyond.comparisons, 10);
    assert_eq!(compare_algorithms(&values, 75), (76, 14));

    let empty: Vec<i32> = Vec::new();
    let nothing = jump_search_counted(&empty, &1);
    assert_eq!(nothing.index, None);
    assert_eq!(nothing.comparisons, 0);
    assert_eq!(compare_algorithms(&empty, 1), (0, 0));

    // One probe, and a scan of the whole block without a match.
    assert_eq!(jump_search_counting(&[1, 3, 5], &4, 3), (None, 4));
    assert_eq!(jump_search_counting(&[1, 3, 5], &3, 1), (Some(1), 3));
}

#[test]
fn cheapest_block_length_is_found() {
    let arr = Array::from_slice(&[1, 3, 5, 7, 9, 11, 13, 15, 17], 9).unwrap();
    // For the last element the lengths 1 to 9 cost 10, 6, 6, 4, 6, 5, 4, 3, 10.
    assert_eq!(find_optimal_jump_size(&arr, &[17]), 8);
    // For the element at index 3 they cost 5, 4, 3, and 5 from there on.
    assert_eq!(find_optimal_jump_size(&arr, &[7]), 3);
    // Together: 15, 10, 9, 9, 11, 10, 9, 8, 15.
    assert_eq!(find_optimal_jump_size(&arr, &[17, 7]), 8);
    // For the first element every length costs 2.
    assert_eq!(find_optimal_jump_size(&arr, &[1]), 1);
    assert_eq!(find_optimal_jump_size(&arr, &[]), 3);
    let empty: Array<i32> = Array::new(4);
    assert_eq!(find_optimal_jump_size(&empty, &[5]), 1);
    assert_eq!(find_optimal_jump_size(&empty, &[]), 1);
}

#[test]
fn adaptive_jump_search_finds_what_is_there() {
    for len in 0..40 {
        let values = ascending_values(len, 5000 + len as u64);
        if values.is_empty() {
            continue;
        }
        let arr = Array::from_slice(&values, len).unwrap();
        for target in -22..70 {
            let found = adaptive_jump_search(&arr, &target);
            assert_eq!(found.is_some(), values.contains(&target));
            if let Some(at) = found {
                assert_eq!(values[at], target);
            }
        }
    }
    let empty: Array<i64> = Array::new(1);
    assert_eq!(adaptive_jump_search(&empty, &1), None);
}

#[test]
fn standard_binary_search_is_wrapped() {
    let values = [1, 3, 5, 7];
    assert_eq!(binary_search_slice(&values, &3), Some(1));
    assert_eq!(binary_search_slice(&values, &7), Some(3));
    assert_eq!(binary_search_slice(&values, &4), None);
    let empty: [i32; 0] = [];
    assert_eq!(binary_search_slice(&empty, &4), None);
}

#[test]
fn probe_driven_search() {
    let pairs = [(1, "a"), (4, "b"), (9, "c"), (16, "d")];
    assert_eq!(binary_search_by(&pairs, |p| p.0.cmp(&9)), Some(2));
    assert_eq!(binary_search_by(&pairs, |p| p.0.cmp(&1)), Some(0));
    assert_eq!(binary_search_by(&pairs, |p| p.0.cmp(&10)), None);
    assert_eq!(binary_search_by(&pairs, |p| p.0.cmp(&0)), None);
    let none: [(i32, &str); 0] = [];
    assert_eq!(binary_search_by(&none, |p| p.0.cmp(&0)), None);
    let mut arr = DynamicArray::new();
    arr.extend(pairs.to_vec());
    assert_eq!(arr.binary_search_by(|p| p.0.cmp(&16)), Some(3));
}

#[test]
fn rotated_data_is_searched() {
    let base: Vec<i32> = (0..23).map(|i| i * 2).collect();
    for turn in 0..base.len() {
        let mut turned = base.clone();
        turned.rotate_left(turn);
        for target in -1..47 {
            let expected = turned.iter().position(|v| *v == target);
            assert_eq!(search_rotated(&turned, &target), expected);
        }
    }
    let empty: [i32; 0] = [];
    assert_eq!(search_rotated(&empty, &1), None);
}

#[test]
fn interpolation_at_the_limits() {
    assert_eq!(interpolation_search(&[], 1), None);
    assert_eq!(interpolation_search(&[5], 5), Some(0));
    assert_eq!(interpolation_search(&[5], 4), None);
    assert_eq!(interpolation_search(&[5], 6), None);
    let wide = [i32::MIN, -7, 0, 3, i32::MAX];
    for (at, value) in wide.iter().enumerate() {
        assert_eq!(interpolation_search(&wide, *value), Some(at));
    }
    assert_eq!(interpolation_search(&wide, 1), None);
    assert_eq!(interpolation_search(&wide, -8), None);
    let same = [4, 4, 4, 4];
    let found = interpolation_search(&same, 4).unwrap();
    assert_eq!(same[found], 4);
    let uneven = [1, 2, 3, 4, 5, 1000, 1_000_000];
    for (at, value) in uneven.iter().enumerate() {
        assert_eq!(interpolation_search(&uneven, *value), Some(at));
    }
    assert_eq!(interpolation_search(&uneven, 999), None);
}

#[test]
fn linear_searches_on_slices() {
    let values = [4, 1, 4, 2, 4];
    assert_eq!(linear_search(&values, &4), Some(0));
    assert_eq!(reverse_linear_search(&values, &4), Some(4));
    assert_eq!(reverse_linear_search(&values, &1), Some(1));
    assert_eq!(reverse_linear_search(&values, &3), None);
    assert_eq!(linear_search_all(&values, &4), vec![0, 2, 4]);
    let empty: [i32; 0] = [];
    assert_eq!(reverse_linear_search(&empty, &3), None);
    assert_eq!(linear_search_all(&empty, &3), Vec::<usize>::new());
    let mut arr = DynamicArray::new();
    arr.extend(values.to_vec());
    assert_eq!(arr.reverse_linear_search(&4), Some(4));
    assert_eq!(arr.linear_search_all(&4), vec![0, 2, 4]);
    assert_eq!(arr.linear_search_if(|v| *v < 3), Some(1));
}

#[test]
fn least_and_greatest_come_first() {
    let arr = Array::from_slice(&[2, 9, 1, 9, 1], 5).unwrap();
    assert_eq!(find_min(&arr), Some((2, &1)));
    assert_eq!(find_max(&arr), Some((1, &9)));
    let empty: Array<i32> = Array::new(1);
    assert_eq!(find_min(&empty), None);
    assert_eq!(find_max(&empty), None);
    assert_eq!(count_occurrences(&arr, &9), 2);
    assert_eq!(count_occurrences(&empty, &9), 0);
}

#[test]
fn order_helpers() {
    assert_eq!(rank(&1, &2), Rank::Below);
    assert_eq!(rank(&2, &2), Rank::Same);
    assert_eq!(rank(&3, &2), Rank::Above);
    assert!(equals(&"a", &"a"));
    assert!(!equals(&"a", &"b"));
    assert!(is_ascending(&[1, 1, 2]));
    assert!(!is_ascending(&[1, 2, 1]));
    let none: [u8; 0] = [];
    assert!(is_ascending(&none));
    assert!(is_ascending(&[3]));
    let mut arr = DynamicArray::new();
    arr.extend(vec![1, 2, 2]);
    assert!(is_sorted_dynamic(&arr));
    arr.push(0);
    assert!(!is_sorted_dynamic(&arr));
}
