use fee_history::fee::FeeHistory;

fn with_base_fees(fees: Vec<u128>) -> FeeHistory {
    FeeHistory {
        base_fee_per_gas: fees,
        ..FeeHistory::default()
    }
}

fn with_blob_fees(fees: Vec<u128>) -> FeeHistory {
    FeeHistory {
        base_fee_per_blob_gas: fees,
        ..FeeHistory::default()
    }
}

#[test]
fn the_default_record_is_empty() {
    let h = FeeHistory::default();
    assert!(h.base_fee_per_gas.is_empty());
    assert!(h.gas_used_ratio.is_empty());
    assert!(h.base_fee_per_blob_gas.is_empty());
    assert!(h.blob_gas_used_ratio.is_empty());
    assert_eq!(h.oldest_block, 0);
    assert_eq!(h.reward, None);
}

#[test]
fn an_empty_record_yields_no_fee() {
    let h = FeeHistory::default();
    assert_eq!(h.latest_block_base_fee(), None);
    assert_eq!(h.next_block_base_fee(), None);
    assert_eq!(h.latest_block_blob_base_fee(), None);
    assert_eq!(h.next_block_blob_base_fee(), None);
}

#[test]
fn two_base_fees_are_the_latest_and_the_next() {
    let h = with_base_fees(vec![875000000, 765625000]);
    assert_eq!(h.latest_block_base_fee(), Some(875000000));
    assert_eq!(h.next_block_base_fee(), Some(765625000));
}

#[test]
fn a_single_base_fee_is_the_next_only() {
    let h = with_base_fees(vec![42]);
    assert_eq!(h.latest_block_base_fee(), None);
    assert_eq!(h.next_block_base_fee(), Some(42));
}

#[test]
fn of_many_base_fees_the_last_two_count() {
    let h = with_base_fees(vec![1, 2, 3, 4, 5]);
    assert_eq!(h.latest_block_base_fee(), Some(4));
    assert_eq!(h.next_block_base_fee(), Some(5));
}

#[test]
fn a_zero_base_fee_is_a_fee() {
    let h = with_base_fees(vec![0, 0]);
    assert_eq!(h.latest_block_base_fee(), Some(0));
    assert_eq!(h.next_block_base_fee(), Some(0));
}

#[test]
fn blob_fees_are_the_latest_and_the_next() {
    let h = with_blob_fees(vec![192, 178, 171]);
    assert_eq!(h.latest_block_blob_base_fee(), Some(178));
    assert_eq!(h.next_block_blob_base_fee(), Some(171));
}

#[test]
fn a_single_blob_fee_is_the_next_only() {
    let h = with_blob_fees(vec![7]);
    assert_eq!(h.latest_block_blob_base_fee(), None);
    assert_eq!(h.next_block_blob_base_fee(), Some(7));
}

#[test]
fn a_zero_blob_fee_is_no_fee() {
    let h = with_blob_fees(vec![0, 0]);
    assert_eq!(h.latest_block_blob_base_fee(), None);
    assert_eq!(h.next_block_blob_base_fee(), None);

    let h = with_blob_fees(vec![5, 0, 9]);
    assert_eq!(h.latest_block_blob_base_fee(), None);
    assert_eq!(h.next_block_blob_base_fee(), Some(9));

    let h = with_blob_fees(vec![5, 9, 0]);
    assert_eq!(h.latest_block_blob_base_fee(), Some(9));
    assert_eq!(h.next_block_blob_base_fee(), None);

    let h = with_blob_fees(vec![0]);
    assert_eq!(h.next_block_blob_base_fee(), None);
}

#[test]
fn zero_filtering_looks_at_no_other_field() {
    let h = FeeHistory {
        base_fee_per_gas: vec![875000000, 765625000],
        gas_used_ratio: vec![0.5f64.to_bits()],
        base_fee_per_blob_gas: vec![0, 0],
        blob_gas_used_ratio: vec![1.0f64.to_bits()],
        oldest_block: 17,
        reward: Some(vec![vec![1, 2, 3]]),
    };
    assert_eq!(h.next_block_blob_base_fee(), None);
    assert_eq!(h.latest_block_blob_base_fee(), None);
    assert_eq!(h.latest_block_base_fee(), Some(875000000));
    assert_eq!(h.next_block_base_fee(), Some(765625000));
}

#[test]
fn the_largest_fees_are_returned() {
    let h = FeeHistory {
        base_fee_per_gas: vec![u128::MAX, u128::MAX - 1],
        base_fee_per_blob_gas: vec![u128::MAX - 2, u128::MAX - 3],
        ..FeeHistory::default()
    };
    assert_eq!(h.latest_block_base_fee(), Some(u128::MAX));
    assert_eq!(h.next_block_base_fee(), Some(u128::MAX - 1));
    assert_eq!(h.latest_block_blob_base_fee(), Some(u128::MAX - 2));
    assert_eq!(h.next_block_blob_base_fee(), Some(u128::MAX - 3));
}

#[test]
fn fees_of_the_sample_response() {
    let h = FeeHistory {
        base_fee_per_blob_gas: vec![0, 0],
        base_fee_per_gas: vec![875000000, 765625000],
        blob_gas_used_ratio: vec![0.0f64.to_bits()],
        gas_used_ratio: vec![0.0f64.to_bits()],
        oldest_block: 1,
        reward: None,
    };
    assert_eq!(h.latest_block_base_fee(), Some(875000000));
    assert_eq!(h.next_block_base_fee(), Some(765625000));
    assert_eq!(h.next_block_blob_base_fee(), None);
    assert_eq!(h.latest_block_blob_base_fee(), None);
}

#[test]
fn records_are_equal_field_by_field() {
    let a = with_base_fees(vec![1, 2]);
    let b = with_base_fees(vec![1, 2]);
    let c = with_base_fees(vec![1, 3]);
    assert_eq!(a, b);
    assert_ne!(a, c);
    assert_eq!(a.clone(), a);
}

#[test]
fn the_lengths_of_the_default_record_agree() {
    assert!(FeeHistory::default().lengths_agree());
}

#[test]
fn a_fee_list_is_one_longer_than_its_ratios() {
    let h = FeeHistory {
        base_fee_per_gas: vec![1, 2, 3],
        gas_used_ratio: vec![0, 0],
        base_fee_per_blob_gas: vec![1, 2, 3],
        blob_gas_used_ratio: vec![0, 0],
        oldest_block: 9,
        reward: Some(vec![vec![1, 2], vec![3, 4]]),
    };
    assert!(h.lengths_agree());
    assert!(!FeeHistory { base_fee_per_gas: vec![1, 2], ..h.clone() }.lengths_agree());
    assert!(!FeeHistory { base_fee_per_gas: vec![1, 2, 3, 4], ..h.clone() }.lengths_agree());
    assert!(!FeeHistory { base_fee_per_blob_gas: vec![1, 2], ..h.clone() }.lengths_agree());
    assert!(!FeeHistory { blob_gas_used_ratio: vec![0], ..h.clone() }.lengths_agree());
    assert!(!FeeHistory { blob_gas_used_ratio: vec![0, 0, 0], ..h.clone() }.lengths_agree());
}

#[test]
fn an_empty_list_agrees_with_any_other() {
    let h = FeeHistory {
        base_fee_per_gas: vec![],
        gas_used_ratio: vec![0, 0, 0],
        base_fee_per_blob_gas: vec![1, 2, 3, 4, 5],
        blob_gas_used_ratio: vec![],
        oldest_block: 0,
        reward: None,
    };
    assert!(h.lengths_agree());
}

#[test]
fn rewards_have_a_row_for_each_block_and_rows_of_one_length() {
    let h = FeeHistory {
        base_fee_per_gas: vec![1, 2, 3],
        gas_used_ratio: vec![0, 0],
        ..FeeHistory::default()
    };
    assert!(FeeHistory { reward: Some(vec![vec![], vec![]]), ..h.clone() }.lengths_agree());
    assert!(FeeHistory { reward: Some(vec![vec![1, 2, 3], vec![4, 5, 6]]), ..h.clone() }
        .lengths_agree());
    assert!(!FeeHistory { reward: Some(vec![vec![1]]), ..h.clone() }.lengths_agree());
    assert!(!FeeHistory { reward: Some(vec![]), ..h.clone() }.lengths_agree());
    assert!(!FeeHistory { reward: Some(vec![vec![1], vec![2], vec![3]]), ..h.clone() }
        .lengths_agree());
    assert!(!FeeHistory { reward: Some(vec![vec![1], vec![2, 3]]), ..h.clone() }.lengths_agree());
    assert!(!FeeHistory { reward: Some(vec![vec![1, 2], vec![]]), ..h.clone() }.lengths_agree());
    assert!(FeeHistory { reward: Some(vec![]), ..FeeHistory::default() }.lengths_agree());
}
