use fee_history::reward::{sort_by_reward, TxGasAndReward};
use std::cmp::Ordering;

fn tx(gas_used: u64, reward: u128) -> TxGasAndReward {
    TxGasAndReward { gas_used, reward }
}

#[test]
fn transactions_are_compared_by_reward() {
    assert_eq!(tx(21000, 1).cmp(&tx(21000, 2)), Ordering::Less);
    assert_eq!(tx(21000, 2).cmp(&tx(21000, 1)), Ordering::Greater);
    assert_eq!(tx(21000, 2).cmp(&tx(21000, 2)), Ordering::Equal);
    assert_eq!(tx(0, u128::MAX).cmp(&tx(0, 0)), Ordering::Greater);
}

#[test]
fn gas_used_is_no_ordering_key() {
    assert_eq!(tx(1, 7).cmp(&tx(1_000_000, 7)), Ordering::Equal);
    assert_eq!(tx(1_000_000, 7).cmp(&tx(1, 7)), Ordering::Equal);
    assert_eq!(tx(1_000_000, 1).cmp(&tx(1, 2)), Ordering::Less);
    assert_eq!(tx(1, 2).cmp(&tx(1_000_000, 1)), Ordering::Greater);
}

#[test]
fn equality_looks_at_both_fields() {
    assert_eq!(tx(1, 7), tx(1, 7));
    assert_ne!(tx(1, 7), tx(2, 7));
    assert_ne!(tx(1, 7), tx(1, 8));
}

#[test]
fn the_partial_order_is_the_order() {
    assert_eq!(tx(5, 1).partial_cmp(&tx(4, 2)), Some(Ordering::Less));
    assert_eq!(tx(5, 2).partial_cmp(&tx(4, 2)), Some(Ordering::Equal));
    assert_eq!(tx(5, 3).partial_cmp(&tx(4, 2)), Some(Ordering::Greater));
    assert!(tx(5, 1) < tx(4, 2));
    assert!(tx(5, 2) <= tx(4, 2));
    assert!(tx(5, 2) >= tx(4, 2));
    assert!(tx(5, 3) > tx(4, 2));
    assert!(!(tx(5, 2) < tx(4, 2)));
}

#[test]
fn the_order_seen_by_generic_code_is_the_order() {
    assert_eq!(Ord::cmp(&tx(9, 1), &tx(0, 2)), Ordering::Less);
    assert_eq!(Ord::cmp(&tx(9, 2), &tx(0, 2)), Ordering::Equal);
    assert_eq!(Ord::cmp(&tx(9, 3), &tx(0, 2)), Ordering::Greater);
    assert_eq!(std::cmp::max(tx(9, 1), tx(0, 2)), tx(0, 2));
    assert_eq!(std::cmp::min(tx(9, 1), tx(0, 2)), tx(9, 1));
}

#[test]
fn a_standard_sort_orders_by_reward_and_keeps_ties_in_place() {
    let mut txs = vec![tx(1, 30), tx(2, 10), tx(3, 20), tx(4, 10), tx(5, 30), tx(6, 10)];
    txs.sort();
    assert_eq!(
        txs,
        vec![tx(2, 10), tx(4, 10), tx(6, 10), tx(3, 20), tx(1, 30), tx(5, 30)]
    );
}

#[test]
fn sorting_gives_rewards_that_never_fall() {
    let mut txs = vec![
        tx(21000, 5),
        tx(50000, 3),
        tx(21000, 9),
        tx(70000, 0),
        tx(30000, 3),
        tx(10, u128::MAX),
        tx(11, 1),
    ];
    let before = txs.clone();
    sort_by_reward(&mut txs);
    assert_eq!(txs.len(), before.len());
    for pair in txs.windows(2) {
        assert!(pair[0].reward <= pair[1].reward);
    }
    let rewards: Vec<u128> = txs.iter().map(|t| t.reward).collect();
    assert_eq!(rewards, vec![0, 1, 3, 3, 5, 9, u128::MAX]);
    for t in &before {
        let was = before.iter().filter(|o| *o == t).count();
        let is = txs.iter().filter(|o| *o == t).count();
        assert_eq!(was, is);
    }
}

#[test]
fn sorting_keeps_each_gas_with_its_reward() {
    let mut txs = vec![tx(300, 3), tx(100, 1), tx(200, 2)];
    sort_by_reward(&mut txs);
    assert_eq!(txs, vec![tx(100, 1), tx(200, 2), tx(300, 3)]);
}

#[test]
fn sorting_short_and_sorted_sequences() {
    let mut none: Vec<TxGasAndReward> = Vec::new();
    sort_by_reward(&mut none);
    assert!(none.is_empty());

    let mut one = vec![tx(1, 1)];
    sort_by_reward(&mut one);
    assert_eq!(one, vec![tx(1, 1)]);

    let mut sorted = vec![tx(1, 1), tx(2, 2), tx(3, 3)];
    sort_by_reward(&mut sorted);
    assert_eq!(sorted, vec![tx(1, 1), tx(2, 2), tx(3, 3)]);

    let mut reversed = vec![tx(3, 3), tx(2, 2), tx(1, 1)];
    sort_by_reward(&mut reversed);
    assert_eq!(reversed, vec![tx(1, 1), tx(2, 2), tx(3, 3)]);
}

#[test]
fn sorting_agrees_with_a_standard_sort_on_the_rewards() {
    let mut txs: Vec<TxGasAndReward> = Vec::new();
    let mut seed: u64 = 0x9e3779b97f4a7c15;
    for i in 0..200u64 {
        seed = seed.wrapping_mul(6364136223846793005).wrapping_add(1442695040888963407);
        txs.push(tx(i, (seed >> 40) as u128 % 50));
    }
    let mut expected = txs.clone();
    expected.sort_by_key(|t| t.reward);
    sort_by_reward(&mut txs);
    let got: Vec<u128> = txs.iter().map(|t| t.reward).collect();
    let want: Vec<u128> = expected.iter().map(|t| t.reward).collect();
    assert_eq!(got, want);
}

#[test]
fn sorting_keeps_equal_rewards_in_their_order() {
    let mut txs = vec![tx(1, 30), tx(2, 10), tx(3, 20), tx(4, 10), tx(5, 30), tx(6, 10)];
    sort_by_reward(&mut txs);
    assert_eq!(
        txs,
        vec![tx(2, 10), tx(4, 10), tx(6, 10), tx(3, 20), tx(1, 30), tx(5, 30)]
    );

    let mut same = vec![tx(3, 7), tx(1, 7), tx(2, 7)];
    sort_by_reward(&mut same);
    assert_eq!(same, vec![tx(3, 7), tx(1, 7), tx(2, 7)]);
}

#[test]
fn sorting_agrees_with_a_standard_sort() {
    let mut txs: Vec<TxGasAndReward> = Vec::new();
    let mut seed: u64 = 12345;
    for i in 0..300u64 {
        seed = seed.wrapping_mul(6364136223846793005).wrapping_add(1442695040888963407);
        txs.push(tx(i, (seed >> 33) as u128 % 17));
    }
    let mut expected = txs.clone();
    expected.sort();
    sort_by_reward(&mut txs);
    assert_eq!(txs, expected);
}
