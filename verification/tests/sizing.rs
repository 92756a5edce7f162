use merkle_tree::sizing::{checked_capacity, estimated_height, rounded_log2_of_successor};

#[test]
fn height_of_small_leaf_counts() {
    let want = [0usize, 1, 2, 2, 2, 3, 3, 3, 3, 3, 3, 4, 4];
    for n in 0..want.len() {
        assert_eq!(estimated_height(n), want[n]);
    }
}

#[test]
fn single_leaf_height_is_the_formula_too() {
    assert_eq!(estimated_height(1), 1);
    assert_eq!(rounded_log2_of_successor(1), 1);
}

#[test]
fn height_turns_over_between_twenty_one_and_twenty_two() {
    assert_eq!(estimated_height(21), 4);
    assert_eq!(estimated_height(22), 5);
}

#[test]
fn height_matches_the_rounded_logarithm() {
    for n in 2usize..5000 {
        let want = (n as f64 + 1.0).log2().round() as usize;
        assert_eq!(estimated_height(n), want);
    }
}

#[test]
fn height_at_powers_of_two() {
    for k in 1usize..40 {
        let n = (1usize << k) - 1;
        assert_eq!(rounded_log2_of_successor(n), k);
    }
}

#[test]
fn height_of_the_largest_count() {
    assert_eq!(
        rounded_log2_of_successor(usize::MAX),
        usize::BITS as usize
    );
}

#[test]
fn capacity_of_a_complete_tree() {
    assert_eq!(checked_capacity(0), Some(1));
    assert_eq!(checked_capacity(1), Some(3));
    assert_eq!(checked_capacity(2), Some(7));
    assert_eq!(checked_capacity(3), Some(15));
    assert_eq!(checked_capacity(4), Some(31));
}

#[test]
fn capacity_at_the_machine_limit() {
    let bits = usize::BITS as usize;
    assert_eq!(checked_capacity(bits - 1), Some(usize::MAX));
    assert_eq!(checked_capacity(bits), None);
    assert_eq!(checked_capacity(usize::MAX), None);
}
