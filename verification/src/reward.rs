//! Ranking of a block's transactions by effective priority fee.

use std::cmp::Ordering;
use vstd::prelude::*;
use vstd::seq_lib::{to_multiset_contains, to_multiset_update};
use vstd::std_specs::cmp::PartialOrdSpecImpl;

verus! {

/// One transaction's contribution to a block's reward statistics.
///
/// Equality looks at both fields; the order looks at `reward` alone, so two
/// values with the same tip and different gas rank as equal.
#[derive(Clone, Copy, Debug, PartialEq, Eq, Structural)]
pub struct TxGasAndReward {
    /// Gas used by the transaction. Carried along, never compared.
    pub gas_used: u64,
    /// The effective tip paid by the transaction: the only ordering key.
    pub reward: u128,
}

/// How two tips stand to each other, ascending.
pub open spec fn tip_order(a: u128, b: u128) -> Ordering {
    if a < b {
        Ordering::Less
    } else if a == b {
        Ordering::Equal
    } else {
        Ordering::Greater
    }
}

impl TxGasAndReward {
    /// The order of two transactions: that of their tips.
    pub open spec fn order(&self, other: &Self) -> Ordering {
        tip_order(self.reward, other.reward)
    }

    /// Compares two transactions by `reward` alone.
    pub fn cmp(&self, other: &Self) -> (o: Ordering)
        ensures
            o == self.order(other),
    {
        if self.reward < other.reward {
            Ordering::Less
        } else if self.reward == other.reward {
            Ordering::Equal
        } else {
            Ordering::Greater
        }
    }
}

impl PartialOrd for TxGasAndReward {
    fn partial_cmp(&self, other: &Self) -> (r: Option<Ordering>) {
        Some(self.cmp(other))
    }
}

impl PartialOrdSpecImpl for TxGasAndReward {
    open spec fn obeys_partial_cmp_spec() -> bool {
        true
    }

    open spec fn partial_cmp_spec(&self, other: &Self) -> Option<Ordering> {
        Some(self.order(other))
    }
}

impl Ord for TxGasAndReward {
    /// The total order that generic code such as a sort sees: `u128::cmp` on
    /// the two tips. Nothing is claimed of it here; verified code calls the
    /// inherent `cmp`.
    #[verifier::external_body]
    fn cmp(&self, other: &Self) -> (o: Ordering) {
        self.reward.cmp(&other.reward)
    }
}

/// The order is a total one on the tips: equal exactly for equal tips,
/// whatever the gas; reversed when the sides are swapped; and it carries
/// over from two steps to one.
pub proof fn lemma_order_is_total(a: TxGasAndReward, b: TxGasAndReward, c: TxGasAndReward)
    ensures
        a.order(&a) == Ordering::Equal,
        a.order(&b) == Ordering::Equal <==> a.reward == b.reward,
        a.order(&b) == Ordering::Less <==> a.reward < b.reward,
        a.order(&b) == Ordering::Less <==> b.order(&a) == Ordering::Greater,
        a.order(&b) != Ordering::Greater && b.order(&c) != Ordering::Greater ==> a.order(&c)
            != Ordering::Greater,
{
}

/// The order never looks at the gas: two transactions with the tips of `a`
/// and `b` stand to each other as `a` and `b` do.
pub proof fn lemma_order_ignores_gas(a: TxGasAndReward, b: TxGasAndReward, gas_a: u64, gas_b: u64)
    ensures
        (TxGasAndReward { gas_used: gas_a, reward: a.reward }).order(
            &(TxGasAndReward { gas_used: gas_b, reward: b.reward }),
        ) == a.order(&b),
{
}

/// Whether the tips never fall from one transaction to a later one.
pub open spec fn sorted_by_reward(txs: Seq<TxGasAndReward>) -> bool {
    forall|i: int, j: int| 0 <= i <= j < txs.len() ==> txs[i].reward <= txs[j].reward
}

/// A sequence is sorted by tip exactly when no transaction in it ranks
/// above a later one.
pub proof fn lemma_sorted_is_in_order(txs: Seq<TxGasAndReward>)
    ensures
        sorted_by_reward(txs) <==> forall|i: int, j: int|
            0 <= i <= j < txs.len() ==> txs[i].order(&txs[j]) != Ordering::Greater,
{
    if sorted_by_reward(txs) {
        assert forall|i: int, j: int| 0 <= i <= j < txs.len() implies txs[i].order(&txs[j])
            != Ordering::Greater by {
            assert(txs[i].reward <= txs[j].reward);
        }
    }
    if forall|i: int, j: int|
        0 <= i <= j < txs.len() ==> txs[i].order(&txs[j]) != Ordering::Greater {
        assert forall|i: int, j: int| 0 <= i <= j < txs.len() implies txs[i].reward
            <= txs[j].reward by {
            assert(txs[i].order(&txs[j]) != Ordering::Greater);
        }
    }
}

/// The transactions that paid the tip `reward`, in the order in which they
/// stand in `txs`.
pub open spec fn with_reward(txs: Seq<TxGasAndReward>, reward: u128) -> Seq<TxGasAndReward>
    decreases txs.len(),
{
    if txs.len() == 0 {
        Seq::empty()
    } else if txs.last().reward == reward {
        with_reward(txs.drop_last(), reward).push(txs.last())
    } else {
        with_reward(txs.drop_last(), reward)
    }
}

/// Two neighbours with different tips can change places without changing
/// the order among the transactions of any one tip.
proof fn lemma_swap_keeps_ties(
    before: Seq<TxGasAndReward>,
    after: Seq<TxGasAndReward>,
    j: int,
    reward: u128,
)
    requires
        0 < j < before.len(),
        before[j - 1].reward != before[j].reward,
        after == before.update(j - 1, before[j]).update(j, before[j - 1]),
    ensures
        with_reward(after, reward) == with_reward(before, reward),
    decreases before.len(),
{
    if j == before.len() - 1 {
        reveal_with_fuel(with_reward, 2);
        let front = before.drop_last().drop_last();
        assert(after.drop_last().drop_last() =~= front);
        assert(after.last() == before[j - 1]);
        assert(after.drop_last().last() == before[j]);
        assert(before.last() == before[j]);
        assert(before.drop_last().last() == before[j - 1]);
    } else {
        assert(after.last() == before.last());
        assert(after.drop_last() =~= before.drop_last().update(j - 1, before[j]).update(
            j,
            before[j - 1],
        ));
        lemma_swap_keeps_ties(before.drop_last(), after.drop_last(), j, reward);
    }
}

/// Sorts the transactions by tip, ascending.
///
/// Every transaction stays as it was, gas and tip together: only the places
/// change, and transactions with the same tip keep their order. The time
/// taken grows with the square of the length.
pub fn sort_by_reward(txs: &mut Vec<TxGasAndReward>)
    ensures
        final(txs)@.len() == old(txs)@.len(),
        final(txs)@.to_multiset() == old(txs)@.to_multiset(),
        sorted_by_reward(final(txs)@),
        forall|reward: u128|
            with_reward(final(txs)@, reward) == #[trigger] with_reward(old(txs)@, reward),
{
    let n = txs.len();
    let mut i: usize = 0;
    while i < n
        invariant
            i <= n,
            txs@.len() == n,
            txs@.to_multiset() == old(txs)@.to_multiset(),
            forall|reward: u128|
                with_reward(txs@, reward) == #[trigger] with_reward(old(txs)@, reward),
            forall|a: int, b: int| 0 <= a <= b < i ==> txs@[a].reward <= txs@[b].reward,
        decreases n - i,
    {
        let mut j: usize = i;
        while j > 0 && txs[j - 1].reward > txs[j].reward
            invariant
                j <= i < n,
                txs@.len() == n,
                txs@.to_multiset() == old(txs)@.to_multiset(),
                forall|reward: u128|
                    with_reward(txs@, reward) == #[trigger] with_reward(old(txs)@, reward),
                forall|a: int, b: int|
                    0 <= a <= b <= i && a != j && b != j ==> txs@[a].reward <= txs@[b].reward,
                forall|b: int| j < b <= i ==> txs@[j as int].reward <= txs@[b].reward,
            decreases j,
        {
            let ghost before = txs@;
            let left = txs[j - 1];
            let right = txs[j];
            txs.set(j - 1, right);
            let ghost between = txs@;
            txs.set(j, left);
            proof {
                broadcast use vstd::multiset::group_multiset_axioms;

                to_multiset_update(before, j - 1, right);
                to_multiset_update(between, j as int, left);
                to_multiset_contains(before, left);
                to_multiset_contains(between, right);
                assert(before[j - 1] == left && before.contains(left));
                assert(between[j - 1] == right && between.contains(right));
                assert(txs@.to_multiset() =~= before.to_multiset());
                assert forall|reward: u128|
                    with_reward(txs@, reward) == #[trigger] with_reward(old(txs)@, reward) by {
                    lemma_swap_keeps_ties(before, txs@, j as int, reward);
                }
            }
            j = j - 1;
        }
        i = i + 1;
    }
}

} // verus!
