use arrays::dynamic_array::DynamicArray;
use arrays::fixed_array::Array;
use arrays::jump_search::adaptive_jump_search;
use arrays::jump_search::is_sorted_for_jump;
use arrays::jump_search::optimal_jump_size;
use arrays::jump_search::JumpSearchable;

#[test]
fn test_jump_search_basic() {
    let arr = Array::from_slice(&[1, 3, 5, 7, 9, 11, 13, 15, 17], 10).unwrap();

    assert_eq!(arr.jump_search(&1), Some(0));
    assert_eq!(arr.jump_search(&9), Some(4));
    assert_eq!(arr.jump_search(&17), Some(8));

    assert_eq!(arr.jump_search(&0), None);
    assert_eq!(arr.jump_search(&4), None);
    assert_eq!(arr.jump_search(&18), None);
}

#[test]
fn test_jump_search_empty() {
    let arr: Array<i32> = Array::new(10);
    assert_eq!(arr.jump_search(&5), None);
}

#[test]
fn test_jump_search_single_element() {
    let arr = Array::from_slice(&[42], 5).unwrap();
    assert_eq!(arr.jump_search(&42), Some(0));
    assert_eq!(arr.jump_search(&41), None);
    assert_eq!(arr.jump_search(&43), None);
}

#[test]
fn test_custom_jump_size() {
    let arr = Array::from_slice(&[1, 3, 5, 7, 9, 11, 13, 15], 10).unwrap();

    assert_eq!(arr.jump_search_with_size(&7, 1), Some(3));

    assert_eq!(arr.jump_search_with_size(&13, 4), Some(6));

    assert_eq!(arr.jump_search_with_size(&5, 20), Some(2));
}

#[test]
fn test_jump_search_duplicates() {
    let arr = Array::from_slice(&[1, 2, 2, 2, 3, 4, 5], 10).unwrap();

    let result = arr.jump_search(&2);
    assert!(result.is_some());
    let idx = result.unwrap();
    assert!(idx >= 1 && idx <= 3);

    assert_eq!(arr.jump_search_first(&2), Some(1));

    assert_eq!(arr.jump_search_last(&2), Some(3));
}

#[test]
fn test_optimal_jump_size() {
    assert_eq!(optimal_jump_size(0), 1);
    assert_eq!(optimal_jump_size(1), 1);
    assert_eq!(optimal_jump_size(4), 2);
    assert_eq!(optimal_jump_size(9), 3);
    assert_eq!(optimal_jump_size(16), 4);
    assert_eq!(optimal_jump_size(100), 10);
    assert_eq!(optimal_jump_size(1000), 32);
}

#[test]
fn test_dynamic_array_jump_search() {
    let mut arr = DynamicArray::new();
    for i in &[1, 3, 5, 7, 9, 11, 13, 15, 17, 19] {
        arr.push(*i);
    }

    assert_eq!(arr.jump_search(&11), Some(5));
    assert_eq!(arr.jump_search(&12), None);
    assert_eq!(arr.jump_search_first(&5), Some(2));
}

#[test]
fn test_adaptive_jump_search() {
    let arr = Array::from_slice(&[1, 3, 5, 7, 9, 11, 13, 15, 17], 10).unwrap();

    assert_eq!(adaptive_jump_search(&arr, &7), Some(3));
    assert_eq!(adaptive_jump_search(&arr, &8), None);
    assert_eq!(adaptive_jump_search(&arr, &17), Some(8));
}

#[test]
fn test_is_sorted_check() {
    let sorted = Array::from_slice(&[1, 2, 3, 4, 5], 5).unwrap();
    assert!(is_sorted_for_jump(&sorted));

    let unsorted = Array::from_slice(&[1, 3, 2, 4, 5], 5).unwrap();
    assert!(!is_sorted_for_jump(&unsorted));
}

#[test]
fn jump_search_test_edge_cases() {
    let same = Array::from_slice(&[5, 5, 5, 5], 5).unwrap();
    assert!(same.jump_search(&5).is_some());
    assert_eq!(same.jump_search_first(&5), Some(0));
    assert_eq!(same.jump_search_last(&5), Some(3));

    let gaps = Array::from_slice(&[1, 100, 200, 300, 400], 5).unwrap();
    assert_eq!(gaps.jump_search(&200), Some(2));
    assert_eq!(gaps.jump_search(&150), None);
}

#[test]
fn jump_search_test_performance_comparison() {
    let mut arr = DynamicArray::with_capacity(10000);
    for i in 0..10000 {
        arr.push(i * 2);
    }

    assert_eq!(arr.jump_search(&5000), Some(2500));
    assert_eq!(arr.jump_search(&9998), Some(4999));
    assert_eq!(arr.jump_search(&5001), None);
}
