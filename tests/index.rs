use fenwick_bit_tree::index::{
    least_significant_bit, LeastSignificantBitAscendingChain, LeastSignificantBitDescendingChain,
};
use fenwick_bit_tree::{TreeError, TreeIndex};

fn to_internal_index_vec(indexes: &[usize]) -> Vec<TreeIndex> {
    indexes.iter().map(|i| TreeIndex::Internal { val: *i }).collect::<Vec<TreeIndex>>()
}

fn collect_ascending(mut chain: LeastSignificantBitAscendingChain) -> Vec<TreeIndex> {
    let mut res = vec![];
    while let Some(idx) = chain.next() {
        res.push(idx);
    }
    res
}

fn collect_descending(mut chain: LeastSignificantBitDescendingChain) -> Vec<TreeIndex> {
    let mut res = vec![];
    while let Some(idx) = chain.next() {
        res.push(idx);
    }
    res
}

#[test]
fn test_index_transform_from_internal_to_external_with_error() {
    let idx = TreeIndex::Internal { val: 0 };
    idx.to_external().expect_err("Index is out of bounds.");
}

#[test]
fn test_index_transform_from_internal_to_external() {
    for val in 1..100 {
        let idx = TreeIndex::Internal { val: val };
        assert_eq!(idx.to_external().unwrap(), TreeIndex::External { val: val - 1 });
    }
}

#[test]
fn test_index_transform_from_external_to_internal() {
    for val in 0..100 {
        let idx = TreeIndex::External { val: val };
        assert_eq!(idx.to_internal(), TreeIndex::Internal { val: val + 1 });
    }
}

#[test]
fn test_index_transform_to_itseld() {
    for val in 0..100 {
        let idx = TreeIndex::External { val: val };
        assert_eq!(idx.to_external().unwrap(), TreeIndex::External { val });
    }

    for val in 0..100 {
        let idx = TreeIndex::Internal { val: val };
        assert_eq!(idx.to_internal(), TreeIndex::Internal { val: val });
    }
}

#[test]
fn test_ascending_lsb_chain() {
    let idx = TreeIndex::External { val: 0 };
    assert_eq!(
        collect_ascending(idx.lsb_ascending(64)),
        to_internal_index_vec(&[1, 2, 4, 8, 16, 32, 64])
    );

    let idx = TreeIndex::External { val: 1 };
    assert_eq!(
        collect_ascending(idx.lsb_ascending(64)),
        to_internal_index_vec(&[2, 4, 8, 16, 32, 64])
    );

    let idx = TreeIndex::External { val: 6 };
    assert_eq!(
        collect_ascending(idx.lsb_ascending(64)),
        to_internal_index_vec(&[7, 8, 16, 32, 64])
    );

    let idx = TreeIndex::External { val: 6 };
    assert_eq!(collect_ascending(idx.lsb_ascending(0)), vec![]);
}

#[test]
fn test_descending_lsb_chain() {
    let idx = TreeIndex::External { val: 5 };
    assert_eq!(idx, TreeIndex::External { val: 5 });
    assert_eq!(collect_descending(idx.lsb_descending()), to_internal_index_vec(&[6, 4]));

    let idx = TreeIndex::External { val: 4 };
    assert_eq!(collect_descending(idx.lsb_descending()), to_internal_index_vec(&[5, 4]));

    let idx = TreeIndex::Internal { val: 3 };
    assert_eq!(collect_descending(idx.lsb_descending()), to_internal_index_vec(&[3, 2]));

    let idx = TreeIndex::Internal { val: 12 };
    assert_eq!(collect_descending(idx.lsb_descending()), to_internal_index_vec(&[12, 8]));
}

#[test]
fn test_lsb() {
    assert_eq!(least_significant_bit(12), 4)
}

#[test]
fn to_external_of_internal_zero_reports_index_zero() {
    let idx = TreeIndex::Internal { val: 0 };
    assert_eq!(idx.to_external(), Err(TreeError::IndexOutOfBounds(0)));
}

#[test]
fn lsb_of_odd_and_power_of_two_values() {
    assert_eq!(least_significant_bit(1), 1);
    assert_eq!(least_significant_bit(7), 1);
    assert_eq!(least_significant_bit(64), 64);
    assert_eq!(least_significant_bit(96), 32);
    assert_eq!(least_significant_bit(usize::MAX), 1);
    assert_eq!(least_significant_bit(1usize << 40), 1usize << 40);
}

#[test]
fn power_of_two_test() {
    assert!(!TreeIndex::Internal { val: 0 }.is_power_of_2());
    assert!(TreeIndex::Internal { val: 1 }.is_power_of_2());
    assert!(TreeIndex::Internal { val: 64 }.is_power_of_2());
    assert!(!TreeIndex::Internal { val: 12 }.is_power_of_2());
    assert!(TreeIndex::External { val: 8 }.is_power_of_2());
    assert_eq!(TreeIndex::External { val: 8 }.val(), 8);
}

#[test]
fn ascending_chain_near_usize_max_ends() {
    let top = 1usize << (usize::BITS - 1);
    let idx = TreeIndex::Internal { val: top };
    assert_eq!(collect_ascending(idx.lsb_ascending(usize::MAX - 1)), to_internal_index_vec(&[top]));
}
