use fenwick_bit_tree::{FenwickTree, FixedSizeFenwickTree, TreeError};
use rand::seq::SliceRandom;
use rand::Rng;

#[test]
fn edge_case() {
    let mut tree = FixedSizeFenwickTree::<i32>::new(4);
    tree.update(3, 1).unwrap();
    assert_eq!(tree.query(3).unwrap(), 1);
}

#[test]
fn fixed_size_tree_empty_tree_query() {
    let tree = FixedSizeFenwickTree::<i32>::new(0);
    assert!(tree.query(0).is_err());
    assert!(tree.query(1).is_err());
}

#[test]
fn fixed_size_tree_one_element_tree_query() {
    let tree = FixedSizeFenwickTree::<i32>::new(1);
    assert!(tree.query(0).is_ok());
    assert!(tree.query(1).is_err());
}

#[test]
fn fixed_size_tree_simple_tree_generation_with_queries() {
    let mut tree = FixedSizeFenwickTree::<i32>::new(32);
    for i in 0..32 {
        if let Err(_) = tree.update(i, 1) {
            assert!(false)
        }
    }
    assert_eq!(tree.query(4).unwrap(), 5);
    assert_eq!(tree.query(0).unwrap(), 1);
    assert_eq!(tree.query(31).unwrap(), 32);
}

#[test]
fn tree_indexing_overflow() {
    let tree = FixedSizeFenwickTree::<i32>::new(0);

    match tree.query(1) {
        Ok(_) => assert!(false),
        Err(message) => assert_eq!(message, TreeError::IndexOutOfBounds(1)),
    }
}

#[test]
fn fixed_size_tree_update_existent_value() {
    let mut tree = FixedSizeFenwickTree::<i32>::new(32);
    for _i in 0..32 {
        if let Err(_) = tree.update(0, 1) {
            assert!(false)
        }
    }
    let res = tree.query(1).unwrap();
    assert_eq!(res, 32);
}

#[test]
fn fixed_size_tree_random_100_point_data() {
    let size = 100;
    let mut input = vec![];
    let mut rng = rand::thread_rng();

    for _i in 0..size {
        input.push((rng.gen::<f32>() * 100.0) as i32);
    }

    let mut tree = FixedSizeFenwickTree::<i32>::new(size);
    for i in 0..size {
        if let Err(_) = tree.update(i, *input.get(i).unwrap()) {
            assert!(false)
        }
    }

    let mut sum = 0;
    for i in 0..size {
        sum += *input.get(i).unwrap();

        if let Ok(res) = tree.query(i) {
            assert_eq!(res, sum);
        } else {
            assert!(false)
        }
    }
}

#[test]
fn fixed_size_tree_random_100_point_data_with_random_update_order() {
    let size = 100;
    let mut input = vec![];
    let mut rng = rand::thread_rng();

    for _i in 0..size {
        input.push((rng.gen::<f32>() * 100.0) as i32);
    }

    let mut tree = FixedSizeFenwickTree::<i32>::new(size);

    let mut random_indexes: Vec<usize> = (0..size).collect();
    random_indexes.shuffle(&mut rng);
    for i in random_indexes {
        if let Err(_) = tree.update(i, *input.get(i).unwrap()) {
            assert!(false)
        }
    }

    let mut sum = 0;
    for i in 0..size {
        sum += *input.get(i).unwrap();
        if let Ok(res) = tree.query(i) {
            assert_eq!(res, sum);
        } else {
            assert!(false);
        }
    }
}

#[test]
fn fixed_size_tree_random_100_point_data_with_random_update_order_with_intermediate_asserts() {
    let size = 100;
    let mut input = vec![];
    let mut rng = rand::thread_rng();

    for _i in 0..size {
        input.push((rng.gen::<f32>() * 100.0) as i32);
    }

    let mut tree = FixedSizeFenwickTree::<i32>::new(size);

    let mut random_indexes: Vec<usize> = (0..size).collect();
    random_indexes.shuffle(&mut rng);
    for i in random_indexes {
        let sum_before_update = tree.query(i).unwrap();
        let value_to_update = *input.get(i).unwrap();
        if let Err(_) = tree.update(i, value_to_update) {
            assert!(false)
        }
        let sum_after_update = tree.query(i).unwrap();
        assert_eq!(sum_after_update - sum_before_update, value_to_update)
    }

    let mut sum = 0;
    for i in 0..size {
        sum += *input.get(i).unwrap();

        if let Ok(res) = tree.query(i) {
            assert_eq!(res, sum);
        } else {
            assert!(false)
        }
    }
}
