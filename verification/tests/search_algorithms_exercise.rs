use arrays::counting::compare_algorithms;
use arrays::counting::jump_search_counted;
use arrays::counting::linear_search_counted;
use arrays::interpolation_search::interpolation_search;
use arrays::jump_search::calculate_jump_size;
use arrays::jump_search::jump_search;
use arrays::jump_search::jump_search_custom;
use arrays::linear_search::linear_search;
use arrays::linear_search::linear_search_all;
use arrays::linear_search::linear_search_if;
use arrays::linear_search::reverse_linear_search;

#[test]
fn search_algorithms_exercise_test_linear_search_basic() {
    let arr = vec![3, 1, 4, 1, 5, 9, 2, 6];

    assert_eq!(linear_search(&arr, &4), Some(2));
    assert_eq!(linear_search(&arr, &7), None);
    assert_eq!(linear_search(&arr, &1), Some(1));
}

#[test]
fn test_linear_search_all() {
    let arr = vec![1, 2, 3, 2, 4, 2, 5];

    assert_eq!(linear_search_all(&arr, &2), vec![1, 3, 5]);
    assert_eq!(linear_search_all(&arr, &6), vec![]);
    assert_eq!(linear_search_all(&arr, &1), vec![0]);
}

#[test]
fn search_algorithms_exercise_test_linear_search_if() {
    let arr = vec![1, 3, 5, 7, 9];

    assert_eq!(linear_search_if(&arr, |&x| x % 2 == 0), None);

    assert_eq!(linear_search_if(&arr, |&x| x > 5), Some(3));
}

#[test]
fn search_algorithms_exercise_test_reverse_linear_search() {
    let arr = vec![1, 2, 3, 2, 4];

    assert_eq!(reverse_linear_search(&arr, &2), Some(3));
    assert_eq!(reverse_linear_search(&arr, &5), None);
}

#[test]
fn test_jump_size_calculation() {
    assert_eq!(calculate_jump_size(1), 1);
    assert_eq!(calculate_jump_size(4), 2);
    assert_eq!(calculate_jump_size(9), 3);
    assert_eq!(calculate_jump_size(16), 4);
    assert_eq!(calculate_jump_size(100), 10);
}

#[test]
fn test_jump_search() {
    let arr = vec![1, 3, 5, 7, 9, 11, 13, 15, 17, 19];

    assert_eq!(jump_search(&arr, &7), Some(3));
    assert_eq!(jump_search(&arr, &1), Some(0));
    assert_eq!(jump_search(&arr, &19), Some(9));
    assert_eq!(jump_search(&arr, &8), None);
}

#[test]
fn test_jump_search_custom_size() {
    let arr = vec![1, 3, 5, 7, 9, 11, 13];

    assert_eq!(jump_search_custom(&arr, &5, 2), Some(2));

    assert_eq!(jump_search_custom(&arr, &11, 1), Some(5));
}

#[test]
fn test_interpolation_search() {
    let arr = vec![10, 20, 30, 40, 50, 60, 70, 80, 90, 100];

    assert_eq!(interpolation_search(&arr, 70), Some(6));
    assert_eq!(interpolation_search(&arr, 10), Some(0));
    assert_eq!(interpolation_search(&arr, 100), Some(9));
    assert_eq!(interpolation_search(&arr, 55), None);
}

#[test]
fn search_algorithms_exercise_test_performance_comparison() {
    let arr: Vec<i32> = (0..100).collect();

    let linear_result = linear_search_counted(&arr, &75);
    let jump_result = jump_search_counted(&arr, &75);

    assert_eq!(linear_result.index, Some(75));
    assert_eq!(jump_result.index, Some(75));

    assert!(jump_result.comparisons < linear_result.comparisons);

    let (linear_comps, jump_comps) = compare_algorithms(&arr, 75);
    assert!(jump_comps < linear_comps);
}

#[test]
fn search_algorithms_exercise_test_edge_cases() {
    let empty: Vec<i32> = vec![];
    assert_eq!(linear_search(&empty, &5), None);
    assert_eq!(jump_search(&empty, &5), None);

    let single = vec![42];
    assert_eq!(linear_search(&single, &42), Some(0));
    assert_eq!(jump_search(&single, &42), Some(0));
}

#[test]
fn search_algorithms_exercise_test_large_array_performance() {
    let large_arr: Vec<i32> = (0..10000).collect();

    let (linear, jump) = compare_algorithms(&large_arr, 7500);

    assert!(linear > 7000);

    assert!(jump < 200);
}
