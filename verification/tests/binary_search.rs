use arrays::binary_search::is_sorted;
use arrays::binary_search::BinarySearchable;
use arrays::dynamic_array::DynamicArray;
use arrays::fixed_array::Array;

#[test]
fn test_binary_search_basic() {
    let arr = Array::from_slice(&[1, 3, 5, 7, 9, 11, 13], 10).unwrap();

    assert_eq!(arr.binary_search(&1), Some(0));
    assert_eq!(arr.binary_search(&7), Some(3));
    assert_eq!(arr.binary_search(&13), Some(6));

    assert_eq!(arr.binary_search(&0), None);
    assert_eq!(arr.binary_search(&4), None);
    assert_eq!(arr.binary_search(&14), None);
}

#[test]
fn test_binary_search_empty() {
    let arr: Array<i32> = Array::new(10);
    assert_eq!(arr.binary_search(&5), None);
}

#[test]
fn test_binary_search_single_element() {
    let arr = Array::from_slice(&[42], 5).unwrap();
    assert_eq!(arr.binary_search(&42), Some(0));
    assert_eq!(arr.binary_search(&41), None);
    assert_eq!(arr.binary_search(&43), None);
}

#[test]
fn test_binary_search_duplicates() {
    let arr = Array::from_slice(&[1, 2, 2, 2, 3, 4, 5], 10).unwrap();

    let result = arr.binary_search(&2);
    assert!(result.is_some());
    let idx = result.unwrap();
    assert!(idx >= 1 && idx <= 3);

    assert_eq!(arr.binary_search_first(&2), Some(1));

    assert_eq!(arr.binary_search_last(&2), Some(3));
}

#[derive(Debug, PartialEq, Clone)]
struct Person {
    name: String,
    age: u32,
}

#[test]
fn binary_search_test_binary_search_by() {
    let people = Array::from_slice(
        &[
            Person {
                name: "Alice".to_string(),
                age: 25,
            },
            Person {
                name: "Bob".to_string(),
                age: 30,
            },
            Person {
                name: "Charlie".to_string(),
                age: 35,
            },
        ],
        5,
    )
    .unwrap();

    let result = people.binary_search_by(|p| p.age.cmp(&30));
    assert_eq!(result, Some(1));
}

#[test]
fn test_insertion_point() {
    let arr = Array::from_slice(&[1, 3, 5, 7, 9], 10).unwrap();

    assert_eq!(arr.binary_search_insertion_point(&4), 2);

    assert_eq!(arr.binary_search_insertion_point(&0), 0);

    assert_eq!(arr.binary_search_insertion_point(&10), 5);

    assert_eq!(arr.binary_search_insertion_point(&5), 2);
}

#[test]
fn test_dynamic_array_binary_search() {
    let mut arr = DynamicArray::new();
    for i in &[1, 3, 5, 7, 9, 11, 13] {
        arr.push(*i);
    }

    assert_eq!(arr.binary_search(&7), Some(3));
    assert_eq!(arr.binary_search(&4), None);
    assert_eq!(arr.binary_search_first(&5), Some(2));
    assert_eq!(arr.binary_search_insertion_point(&8), 4);
}

#[test]
fn test_large_array() {
    let mut arr = DynamicArray::with_capacity(1000);
    for i in 0..1000 {
        arr.push(i * 2);
    }

    assert_eq!(arr.binary_search(&500), Some(250));
    assert_eq!(arr.binary_search(&1000), Some(500));
    assert_eq!(arr.binary_search(&1998), Some(999));

    assert_eq!(arr.binary_search(&501), None);
    assert_eq!(arr.binary_search(&999), None);
}

#[test]
fn binary_search_test_string_search() {
    let words = Array::from_slice(
        &[
            "apple".to_string(),
            "banana".to_string(),
            "cherry".to_string(),
            "date".to_string(),
            "elderberry".to_string(),
        ],
        10,
    )
    .unwrap();

    assert_eq!(words.binary_search(&"cherry".to_string()), Some(2));
    assert_eq!(words.binary_search(&"grape".to_string()), None);
}

#[test]
fn binary_search_test_edge_cases() {
    let arr = Array::from_slice(&[1, 2, 3], 5).unwrap();

    assert_eq!(arr.binary_search(&1), Some(0));
    assert_eq!(arr.binary_search(&3), Some(2));

    let same = Array::from_slice(&[5, 5, 5, 5], 5).unwrap();
    assert!(same.binary_search(&5).is_some());
    assert_eq!(same.binary_search_first(&5), Some(0));
    assert_eq!(same.binary_search_last(&5), Some(3));
}

#[test]
fn test_is_sorted_utility() {
    let sorted = Array::from_slice(&[1, 2, 3, 4, 5], 5).unwrap();
    assert!(is_sorted(&sorted));

    let unsorted = Array::from_slice(&[1, 3, 2, 4, 5], 5).unwrap();
    assert!(!is_sorted(&unsorted));
}
