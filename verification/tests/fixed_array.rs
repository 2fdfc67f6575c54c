use arrays::fixed_array::Array;

#[test]
fn core_test_new_array() {
    let arr: Array<i32> = Array::new(10);
    assert_eq!(arr.len(), 0);
    assert!(arr.is_empty());
    assert_eq!(arr.capacity(), 10);
}

#[test]
fn core_test_push_and_pop() {
    let mut arr: Array<i32> = Array::new(3);

    assert!(arr.push(1).is_ok());
    assert!(arr.push(2).is_ok());
    assert!(arr.push(3).is_ok());
    assert_eq!(arr.len(), 3);

    assert!(arr.push(4).is_err());

    assert_eq!(arr.pop(), Some(3));
    assert_eq!(arr.pop(), Some(2));
    assert_eq!(arr.pop(), Some(1));
    assert_eq!(arr.pop(), None);
}

#[test]
fn core_test_get_and_set() {
    let mut arr = Array::from_slice(&[10, 20, 30], 5).unwrap();

    assert_eq!(arr.get(0), Some(&10));
    assert_eq!(arr.get(2), Some(&30));
    assert_eq!(arr.get(3), None);

    arr.set(1, 25);
    assert_eq!(arr.get(1), Some(&25));
}

#[test]
fn core_test_drop() {
    {
        let mut arr = Array::new(100);
        for i in 0..50 {
            arr.push(i).unwrap();
        }
    }

    {
        let mut arr: Array<String> = Array::new(10);
        arr.push(String::from("Hello")).unwrap();
        arr.push(String::from("World")).unwrap();
    }
}

#[test]
fn core_test_clear() {
    let mut arr = Array::<i32>::from_slice(&[1, 2, 3], 5).unwrap();
    assert_eq!(arr.len(), 3);

    arr.clear();
    assert_eq!(arr.len(), 0);
    assert!(arr.is_empty());

    assert!(arr.push(10).is_ok());
    assert_eq!(arr.get(0), Some(&10));
}

#[test]
fn core_test_get_mut() {
    let mut arr = Array::<i32>::from_slice(&[10, 20, 30], 5).unwrap();

    if let Some(elem) = arr.get_mut(1) {
        *elem = 25;
    }
    assert_eq!(arr.get(1), Some(&25));

    assert!(arr.get_mut(5).is_none());
}

#[test]
fn core_test_index_trait() {
    let arr = Array::<i32>::from_slice(&[10, 20, 30], 5).unwrap();

    assert_eq!(arr[0], 10);
    assert_eq!(arr[1], 20);
    assert_eq!(arr[2], 30);
}

#[test]
fn core_test_debug_formatting() {
    let arr = Array::<i32>::from_slice(&[1, 2, 3], 5).unwrap();
    let debug_str = arr.to_debug_string();
    assert_eq!(debug_str, "[1, 2, 3]");

    let empty: Array<i32> = Array::new(5);
    assert_eq!(empty.to_debug_string(), "[]");
}

#[test]
fn core_test_with_strings() {
    let mut arr: Array<String> = Array::new(3);

    assert!(arr.push(String::from("Hello")).is_ok());
    assert!(arr.push(String::from("World")).is_ok());

    assert_eq!(arr.get(0), Some(&String::from("Hello")));
    assert_eq!(arr.get(1), Some(&String::from("World")));

    assert_eq!(arr.pop(), Some(String::from("World")));
    assert_eq!(arr.len(), 1);
}

#[test]
fn core_test_from_slice_capacity_exact() {
    let mut arr = Array::<i32>::from_slice(&[1, 2, 3], 3).unwrap();
    assert_eq!(arr.len(), 3);
    assert_eq!(arr.capacity(), 3);

    assert!(arr.push(4).is_err());
}

#[test]
fn core_test_from_slice_too_large() {
    let result = Array::<i32>::from_slice(&[1, 2, 3, 4, 5], 3);
    assert!(result.is_none());
}

#[test]
fn core_test_multiple_push_pop_cycles() {
    let mut arr: Array<i32> = Array::new(3);

    arr.push(1).unwrap();
    arr.push(2).unwrap();
    assert_eq!(arr.pop(), Some(2));
    assert_eq!(arr.pop(), Some(1));

    arr.push(10).unwrap();
    arr.push(20).unwrap();
    arr.push(30).unwrap();
    assert_eq!(arr.len(), 3);
    assert!(arr.push(40).is_err());
}

#[test]
fn core_test_edge_cases() {
    let mut single: Array<i32> = Array::new(1);
    assert!(single.push(42).is_ok());
    assert!(single.push(43).is_err());
    assert_eq!(single[0], 42);

    let mut large: Array<u8> = Array::new(1000);
    for i in 0..1000 {
        assert!(large.push(i as u8).is_ok());
    }
    assert_eq!(large.len(), 1000);
    assert!(large.push(0).is_err());
}

#[test]
fn core_test_set_with_drop_types() {
    let mut arr = Array::<String>::from_slice(
        &[String::from("A"), String::from("B"), String::from("C")],
        5,
    )
    .unwrap();

    arr.set(1, String::from("NEW"));
    assert_eq!(arr.get(1), Some(&String::from("NEW")));
}

#[derive(Debug, Clone, PartialEq)]
struct Point {
    x: i32,
    y: i32,
}

#[test]
fn core_test_custom_types() {
    let mut arr: Array<Point> = Array::new(3);

    let p1 = Point { x: 1, y: 2 };
    let p2 = Point { x: 3, y: 4 };

    assert!(arr.push(p1.clone()).is_ok());
    assert!(arr.push(p2.clone()).is_ok());

    assert_eq!(arr.get(0), Some(&p1));
    assert_eq!(arr.get(1), Some(&p2));

    let debug_str = arr.to_debug_string();
    assert!(debug_str.contains("Point"));
}
