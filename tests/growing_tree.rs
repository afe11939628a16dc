use fenwick_bit_tree::{FenwickTree, GrowingFenwickTree};
use rand::seq::SliceRandom;
use rand::Rng;

#[test]
fn growing_tree_empty_tree_query() {
    let tree = GrowingFenwickTree::<i32>::new(0);
    assert!(tree.query(0).is_ok_and(|val| val == 0));
    assert!(tree.query(1).is_ok_and(|val| val == 0));
}

#[test]
fn growing_tree_one_element_tree_query() {
    let tree = GrowingFenwickTree::<i32>::new(1);
    assert!(tree.query(0).is_ok_and(|val| val == 0));
    assert!(tree.query(1).is_ok_and(|val| val == 0));
}

#[test]
fn test_no_upper_bound_error_is_raised() {
    let tree = GrowingFenwickTree::<i32>::new(0);
    assert_eq!(tree.query(100).unwrap(), 0);
    assert_eq!(tree.range_query(10, 100).unwrap(), 0);
}

#[test]
fn tree_grows_one_by_one() {
    let mut tree = GrowingFenwickTree::<i32>::new(1);
    tree.update(3, 1).unwrap();
    assert_eq!(tree.query(3).unwrap(), 1);

    tree.update(0, 1).unwrap();
    assert_eq!(tree.query(3).unwrap(), 2);
}

#[test]
fn tree_suddenly_grows_much_bigger() {
    let mut tree = GrowingFenwickTree::<i32>::new(2);
    tree.update(0, 1).unwrap();
    assert_eq!(tree.query(0).unwrap(), 1);

    tree.update(1, 1).unwrap();
    assert_eq!(tree.query(1).unwrap(), 2);

    tree.update(7, 0).unwrap();
    assert_eq!(tree.query(7).unwrap(), 2);
}

#[test]
fn growing_tree_simple_tree_generation_with_queries() {
    let mut tree = GrowingFenwickTree::<i32>::new(11);
    for i in 0..32 {
        if let Err(_) = tree.update(i, 1) {
            assert!(false)
        }
    }
    assert_eq!(tree.query(3).unwrap(), 4);
    assert_eq!(tree.query(0).unwrap(), 1);
    assert_eq!(tree.query(31).unwrap(), 32);
}

#[test]
fn test_range_queries() {
    let mut tree = GrowingFenwickTree::<i32>::new(0);
    for i in 0..=29 {
        if let Err(_) = tree.update(i, 1) {
            assert!(false)
        }
    }

    match tree.range_query(10, 20) {
        Ok(10) => assert!(true),
        _ => assert!(false),
    }
    match tree.range_query(8, 29) {
        Ok(21) => assert!(true),
        _ => assert!(false),
    }
}

#[test]
fn growing_tree_update_existent_value() {
    let mut tree = GrowingFenwickTree::<i32>::new(0);
    for _i in 0..32 {
        if let Err(_) = tree.update(0, 1) {
            assert!(false)
        }
    }
    let res = tree.query(0).unwrap();
    assert_eq!(res, 32);
}

#[test]
fn growing_tree_random_100_point_data() {
    let size = 100;
    let mut input = vec![];
    let mut rng = rand::thread_rng();

    for _i in 0..size {
        input.push((rng.gen::<f32>() * 100.0) as i32);
    }

    let mut tree = GrowingFenwickTree::<i32>::new(0);
    for i in 0..size {
        if let Err(_) = tree.update(i, *input.get(i).unwrap()) {
            assert!(false)
        }
    }

    let mut sum = 0;
    for i in 0..size {
        sum += *input.get(i).unwrap();

        if let Ok(res) = tree.query(i) {
            assert_eq!(res, sum);
        } else {
            assert!(false)
        }
    }
}

#[test]
fn growing_tree_random_100_point_data_with_random_update_order() {
    let size = 100;
    let mut input = vec![];
    let mut rng = rand::thread_rng();

    for _i in 0..size {
        input.push((rng.gen::<f32>() * 100.0) as i32);
    }

    let mut tree = GrowingFenwickTree::<i32>::new(size);

    let mut random_indexes: Vec<usize> = (0..size).collect();
    random_indexes.shuffle(&mut rng);
    for i in random_indexes {
        if let Err(_) = tree.update(i, *input.get(i).unwrap()) {
            assert!(false)
        }
    }

    let mut sum = 0;
    for i in 0..size {
        sum += *input.get(i).unwrap();
        if let Ok(res) = tree.query(i) {
            assert_eq!(res, sum);
        } else {
            assert!(false);
        }
    }
}

#[test]
fn growing_tree_random_100_point_data_with_random_update_order_with_intermediate_asserts() {
    let size = 100;
    let mut input = vec![];
    let mut rng = rand::thread_rng();

    for _i in 0..size {
        input.push((rng.gen::<f32>() * 100.0) as i32);
    }

    let mut tree = GrowingFenwickTree::<i32>::new(size);

    let mut random_indexes: Vec<usize> = (0..size).collect();
    random_indexes.shuffle(&mut rng);
    for i in random_indexes {
        let sum_before_update = tree.query(i).unwrap();
        let value_to_update = *input.get(i).unwrap();
        if let Err(_) = tree.update(i, value_to_update) {
            assert!(false)
        }
        let sum_after_update = tree.query(i).unwrap();
        assert_eq!(sum_after_update - sum_before_update, value_to_update)
    }

    let mut sum = 0;
    for i in 0..size {
        sum += *input.get(i).unwrap();

        if let Ok(res) = tree.query(i) {
            assert_eq!(res, sum);
        } else {
            assert!(false)
        }
    }
}
