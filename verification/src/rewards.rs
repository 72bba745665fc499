//! The effective priority fees at percentiles of a block's gas.
use alloy_consensus::{Transaction as _, TxEip1559, TxLegacy};
use itertools::Itertools;
use vstd::prelude::*;

use crate::double::Double;
use crate::percentile::{gas_threshold, gas_threshold_spec};

verus! {

/// What is read of a transaction in a block: the most it pays per unit of gas, and, where it
/// sets one, the most of that which goes to the block's producer.
#[derive(Clone, Copy, Debug, PartialEq, Eq, Structural)]
pub struct FeeTransaction {
    pub max_fee_per_gas: u128,
    pub max_priority_fee_per_gas: Option<u128>,
}

/// What is read of a transaction's receipt.
#[derive(Clone, Copy, Debug, PartialEq, Eq, Structural)]
pub struct Receipt {
    pub gas_used: u128,
}

/// What a transaction without a priority fee pays per unit of gas over the base fee; nothing
/// where it does not cover the base fee.
pub open spec fn tip_over_base(max_fee_per_gas: u128, base_fee: u64) -> Option<u128> {
    if max_fee_per_gas < base_fee {
        None
    } else {
        Some((max_fee_per_gas - base_fee) as u128)
    }
}

/// What a transaction with a priority fee pays per unit of gas over the base fee, the priority
/// fee at most; nothing where it does not cover the base fee.
pub open spec fn capped_tip_over_base(
    max_fee_per_gas: u128,
    max_priority_fee_per_gas: u128,
    base_fee: u64,
) -> Option<u128> {
    match tip_over_base(max_fee_per_gas, base_fee) {
        Some(tip) => Some(
            if tip < max_priority_fee_per_gas {
                tip
            } else {
                max_priority_fee_per_gas
            },
        ),
        None => None,
    }
}

/// `Transaction::effective_tip_per_gas` of `alloy_consensus` on a `TxLegacy`, whose gas price is
/// its maximum fee and which sets no priority fee: the gas price less the base fee, `None` where
/// that is negative.
#[verifier::external_body]
fn legacy_tip_per_gas(gas_price: u128, base_fee: u64) -> (tip: Option<u128>)
    ensures
        tip == tip_over_base(gas_price, base_fee),
{
    TxLegacy { gas_price, ..Default::default() }.effective_tip_per_gas(base_fee)
}

/// `Transaction::effective_tip_per_gas` of `alloy_consensus` on a `TxEip1559`: the smaller of the
/// priority fee and of the maximum fee less the base fee, `None` where the maximum fee is below
/// the base fee.
#[verifier::external_body]
fn dynamic_tip_per_gas(
    max_fee_per_gas: u128,
    max_priority_fee_per_gas: u128,
    base_fee: u64,
) -> (tip: Option<u128>)
    ensures
        tip == capped_tip_over_base(max_fee_per_gas, max_priority_fee_per_gas, base_fee),
{
    TxEip1559 {
        max_fee_per_gas,
        max_priority_fee_per_gas,
        ..Default::default()
    }.effective_tip_per_gas(base_fee)
}

impl FeeTransaction {
    /// What the transaction pays per unit of gas over the base fee, as far as it does.
    pub open spec fn effective_tip(self, base_fee: u64) -> Option<u128> {
        match self.max_priority_fee_per_gas {
            Some(priority) => capped_tip_over_base(self.max_fee_per_gas, priority, base_fee),
            None => tip_over_base(self.max_fee_per_gas, base_fee),
        }
    }

    /// What the transaction pays per unit of gas over the base fee.
    pub fn effective_tip_per_gas(&self, base_fee: u64) -> (tip: Option<u128>)
        ensures
            tip == self.effective_tip(base_fee),
            tip is None <==> self.max_fee_per_gas < base_fee,
            tip matches Some(paid) ==> paid <= self.max_fee_per_gas - base_fee,
            tip matches Some(paid) ==> (self.max_priority_fee_per_gas matches Some(priority)
                ==> paid <= priority && (paid == priority || paid == self.max_fee_per_gas
                - base_fee)),
            tip matches Some(paid) ==> self.max_priority_fee_per_gas is None ==> paid
                == self.max_fee_per_gas - base_fee,
    {
        match self.max_priority_fee_per_gas {
            Some(priority) => dynamic_tip_per_gas(self.max_fee_per_gas, priority, base_fee),
            None => legacy_tip_per_gas(self.max_fee_per_gas, base_fee),
        }
    }
}

/// The pairs of a given tip.
pub open spec fn with_tip(pairs: Seq<(u128, u128)>, tip: u128) -> Seq<(u128, u128)> {
    pairs.filter(|pair: (u128, u128)| pair.1 == tip)
}

/// Whether `sorted` holds the pairs in ascending order of their tips, those of equal tip in the
/// order in which they came.
pub open spec fn is_stable_sort(pairs: Seq<(u128, u128)>, sorted: Seq<(u128, u128)>) -> bool {
    &&& sorted.len() == pairs.len()
    &&& forall|i: int, j: int| 0 <= i <= j < sorted.len() ==> sorted[i].1 <= sorted[j].1
    &&& forall|tip: u128| #[trigger] with_tip(sorted, tip) == with_tip(pairs, tip)
}

/// The pairs in ascending order of their tips, those of equal tip in the order in which they came.
pub open spec fn sorted_by_tip(pairs: Seq<(u128, u128)>) -> Seq<(u128, u128)> {
    choose|sorted: Seq<(u128, u128)>| is_stable_sort(pairs, sorted)
}

/// `Itertools::sorted_by_key` by the second field, the tip: a stable sort in ascending order.
#[verifier::external_body]
fn sort_by_tip(pairs: Vec<(u128, u128)>) -> (sorted: Vec<(u128, u128)>)
    ensures
        is_stable_sort(pairs@, sorted@),
{
    pairs.into_iter().sorted_by_key(|pair| pair.1).collect()
}

proof fn lemma_with_tip_last(pairs: Seq<(u128, u128)>, tip: u128)
    requires
        pairs.len() > 0,
    ensures
        with_tip(pairs, tip) == if pairs.last().1 == tip {
            with_tip(pairs.drop_last(), tip).push(pairs.last())
        } else {
            with_tip(pairs.drop_last(), tip)
        },
{
    reveal_with_fuel(Seq::filter, 2);
}

proof fn lemma_with_tip_of(pairs: Seq<(u128, u128)>, tip: u128, i: int)
    requires
        0 <= i < pairs.len(),
        pairs[i].1 == tip,
    ensures
        with_tip(pairs, tip).len() > 0,
    decreases pairs.len(),
{
    lemma_with_tip_last(pairs, tip);
    if i < pairs.len() - 1 {
        lemma_with_tip_of(pairs.drop_last(), tip, i);
    }
}

proof fn lemma_with_tip_none(pairs: Seq<(u128, u128)>, tip: u128)
    requires
        with_tip(pairs, tip).len() > 0,
    ensures
        exists|i: int| 0 <= i < pairs.len() && (#[trigger] pairs[i]).1 == tip,
    decreases pairs.len(),
{
    reveal_with_fuel(Seq::filter, 2);
    if pairs.len() > 0 {
        lemma_with_tip_last(pairs, tip);
        if pairs.last().1 == tip {
            assert(pairs[pairs.len() - 1].1 == tip);
        } else {
            lemma_with_tip_none(pairs.drop_last(), tip);
            let i = choose|i: int|
                0 <= i < pairs.len() - 1 && (#[trigger] pairs.drop_last()[i]).1 == tip;
            assert(pairs[i].1 == tip);
        }
    }
}

/// Two sequences in ascending order of tips that agree on the pairs of each tip are the same.
proof fn lemma_sorted_unique(a: Seq<(u128, u128)>, b: Seq<(u128, u128)>)
    requires
        forall|i: int, j: int| 0 <= i <= j < a.len() ==> a[i].1 <= a[j].1,
        forall|i: int, j: int| 0 <= i <= j < b.len() ==> b[i].1 <= b[j].1,
        forall|tip: u128| #[trigger] with_tip(a, tip) == with_tip(b, tip),
    ensures
        a == b,
    decreases a.len(),
{
    if a.len() == 0 {
        if b.len() > 0 {
            lemma_with_tip_of(b, b[0].1, 0);
            lemma_with_tip_none(a, b[0].1);
        }
        assert(a =~= b);
    } else {
        let g = a.last().1;
        lemma_with_tip_of(a, g, a.len() - 1);
        lemma_with_tip_none(b, g);
        let h = b.last().1;
        lemma_with_tip_of(b, h, b.len() - 1);
        lemma_with_tip_none(a, h);
        assert(g == h);
        lemma_with_tip_last(a, g);
        lemma_with_tip_last(b, g);
        let (x, y) = (with_tip(a.drop_last(), g), with_tip(b.drop_last(), g));
        assert(x.push(a.last()).last() == a.last());
        assert(y.push(b.last()).last() == b.last());
        assert forall|tip: u128| #[trigger]
            with_tip(a.drop_last(), tip) == with_tip(b.drop_last(), tip) by {
            lemma_with_tip_last(a, tip);
            lemma_with_tip_last(b, tip);
            assert(with_tip(a, tip) == with_tip(b, tip));
            assert(x.push(a.last()).drop_last() =~= x);
            assert(y.push(b.last()).drop_last() =~= y);
        }
        lemma_sorted_unique(a.drop_last(), b.drop_last());
        assert(a =~= a.drop_last().push(a.last()));
        assert(b =~= b.drop_last().push(b.last()));
    }
}

/// Pairs have one stable sort.
pub proof fn law_sort_unique(pairs: Seq<(u128, u128)>, sorted: Seq<(u128, u128)>)
    requires
        is_stable_sort(pairs, sorted),
    ensures
        sorted_by_tip(pairs) == sorted,
{
    let other = sorted_by_tip(pairs);
    assert(is_stable_sort(pairs, other));
    assert forall|tip: u128| #[trigger] with_tip(sorted, tip) == with_tip(other, tip) by {
        assert(with_tip(sorted, tip) == with_tip(pairs, tip));
        assert(with_tip(other, tip) == with_tip(pairs, tip));
    }
    lemma_sorted_unique(sorted, other);
}

/// The gas used and the effective tip of each transaction that has a receipt; the tip is zero
/// where the transaction does not cover the base fee.
pub open spec fn gas_and_rewards(
    transactions: Seq<FeeTransaction>,
    receipts: Seq<Receipt>,
    base_fee: u64,
) -> Seq<(u128, u128)> {
    let n = if transactions.len() < receipts.len() {
        transactions.len()
    } else {
        receipts.len()
    };
    Seq::new(
        n,
        |i: int|
            (
                receipts[i].gas_used,
                match transactions[i].effective_tip(base_fee) {
                    Some(tip) => tip,
                    None => 0,
                },
            ),
    )
}

/// The gas of the first `k` pairs.
pub open spec fn gas_before(pairs: Seq<(u128, u128)>, k: int) -> nat
    decreases k,
{
    if k <= 0 {
        0
    } else {
        gas_before(pairs, k - 1) + pairs[k - 1].0 as nat
    }
}

/// Whether `k` is the least number of pairs whose gas reaches the threshold, or that of all pairs
/// where their gas does not.
pub open spec fn is_position(pairs: Seq<(u128, u128)>, threshold: u128, k: int) -> bool {
    &&& 0 <= k <= pairs.len()
    &&& k == pairs.len() || gas_before(pairs, k) >= threshold
    &&& forall|j: int| 0 <= j < k ==> #[trigger] gas_before(pairs, j) < threshold
}

/// The least number of pairs whose gas reaches the threshold, or that of all pairs where their
/// gas does not.
pub open spec fn position(pairs: Seq<(u128, u128)>, threshold: u128) -> int {
    choose|k: int| is_position(pairs, threshold, k)
}

/// The number of pairs that the thresholds up to the given one reach between them.
pub open spec fn reached(pairs: Seq<(u128, u128)>, thresholds: Seq<u128>, last: int) -> int
    decreases last + 1,
{
    if last < 0 {
        0
    } else {
        let before = reached(pairs, thresholds, last - 1);
        let here = position(pairs, thresholds[last]);
        if before < here {
            here
        } else {
            before
        }
    }
}

/// The reward at each threshold: that of the pair at which the gas reaches it, counted from
/// nought, or that of the last of the block's transactions.
pub open spec fn rewards_at(
    pairs: Seq<(u128, u128)>,
    transactions: nat,
    thresholds: Seq<u128>,
) -> Seq<u128> {
    Seq::new(
        thresholds.len(),
        |i: int|
            {
                let k = reached(pairs, thresholds, i);
                pairs[if k < transactions {
                    k
                } else {
                    transactions - 1
                }].1
            },
    )
}

/// Whether the pairs have a reward for the threshold, and 128 bits hold the gas up to it.
pub open spec fn reward_exists(
    pairs: Seq<(u128, u128)>,
    transactions: nat,
    threshold: u128,
) -> bool {
    let k = position(pairs, threshold);
    &&& k < pairs.len() || pairs.len() == transactions
    &&& gas_before(pairs, k) <= u128::MAX
}

/// Whether the pairs have a reward for each threshold.
pub open spec fn rewards_exist(
    pairs: Seq<(u128, u128)>,
    transactions: nat,
    thresholds: Seq<u128>,
) -> bool {
    forall|i: int|
        0 <= i < thresholds.len() ==> reward_exists(pairs, transactions, #[trigger] thresholds[i])
}

/// The thresholds of the percentiles of a block's gas.
pub open spec fn gas_thresholds(block_gas_used: u64, percentiles: Seq<Double>) -> Seq<u128> {
    percentiles.map_values(|p: Double| gas_threshold_spec(block_gas_used, p) as u128)
}

/// Whether the rewards of a block can be told: each threshold is reached within the receipts, or
/// every transaction has one, and 128 bits hold the gas.
pub open spec fn rewards_fit(
    transactions: Seq<FeeTransaction>,
    receipts: Seq<Receipt>,
    base_fee: u64,
    block_gas_used: u64,
    percentiles: Option<Seq<Double>>,
) -> bool {
    match percentiles {
        Some(percentiles) => transactions.len() > 0 ==> rewards_exist(
            sorted_by_tip(gas_and_rewards(transactions, receipts, base_fee)),
            transactions.len(),
            gas_thresholds(block_gas_used, percentiles),
        ),
        None => true,
    }
}

/// The rewards of a block: none without percentiles, zeros for a block without transactions, and
/// else the effective tips at the gas thresholds, the tips taken in ascending order and weighted
/// by the gas used.
pub open spec fn fee_history_rewards(
    transactions: Seq<FeeTransaction>,
    receipts: Seq<Receipt>,
    base_fee: u64,
    block_gas_used: u64,
    percentiles: Option<Seq<Double>>,
) -> Seq<u128> {
    match percentiles {
        Some(percentiles) => if transactions.len() == 0 {
            Seq::new(percentiles.len(), |i: int| 0u128)
        } else {
            rewards_at(
                sorted_by_tip(gas_and_rewards(transactions, receipts, base_fee)),
                transactions.len(),
                gas_thresholds(block_gas_used, percentiles),
            )
        },
        None => Seq::empty(),
    }
}

/// More pairs hold no less gas.
pub proof fn lemma_gas_before_monotone(pairs: Seq<(u128, u128)>, j: int, k: int)
    requires
        j <= k,
    ensures
        gas_before(pairs, j) <= gas_before(pairs, k),
    decreases k - j,
{
    if j < k {
        lemma_gas_before_monotone(pairs, j, k - 1);
    }
}

proof fn lemma_position_exists(pairs: Seq<(u128, u128)>, threshold: u128, k: int) -> (p: int)
    requires
        0 <= k <= pairs.len(),
        forall|j: int| 0 <= j < k ==> #[trigger] gas_before(pairs, j) < threshold,
    ensures
        is_position(pairs, threshold, p),
    decreases pairs.len() - k,
{
    if k < pairs.len() && gas_before(pairs, k) < threshold {
        lemma_position_exists(pairs, threshold, k + 1)
    } else {
        k
    }
}

/// A threshold has one position.
pub proof fn law_position_unique(pairs: Seq<(u128, u128)>, threshold: u128)
    ensures
        is_position(pairs, threshold, position(pairs, threshold)),
        forall|k: int| is_position(pairs, threshold, k) ==> k == position(pairs, threshold),
{
    let p = lemma_position_exists(pairs, threshold, 0);
    let q = position(pairs, threshold);
    assert(is_position(pairs, threshold, q));
    assert forall|k: int| is_position(pairs, threshold, k) implies k == q by {
        if k < q {
            assert(gas_before(pairs, k) < threshold);
        } else if q < k {
            assert(gas_before(pairs, q) < threshold);
        }
    }
}

/// Walks the pairs up to one threshold, from a position that lower thresholds reached. Gives
/// nothing where the pairs or 128 bits run out.
fn advance(
    pairs: &Vec<(u128, u128)>,
    transactions: usize,
    threshold: u128,
    start: usize,
    gas: u128,
) -> (r: Option<(usize, u128)>)
    requires
        pairs.len() <= transactions,
        0 < transactions,
        start <= pairs.len(),
        start == 0 || start < pairs.len() || pairs.len() == transactions,
        gas == gas_before(pairs@, start as int),
    ensures
        match r {
            Some((idx, total)) => {
                let p = position(pairs@, threshold);
                &&& reward_exists(pairs@, transactions as nat, threshold)
                &&& idx == if start < p {
                    p
                } else {
                    start as int
                }
                &&& idx < pairs.len() || pairs.len() == transactions
                &&& idx <= pairs.len()
                &&& total == gas_before(pairs@, idx as int)
            },
            None => !reward_exists(pairs@, transactions as nat, threshold),
        },
{
    let mut idx: usize = start;
    let mut total: u128 = gas;
    let ghost p = position(pairs@, threshold);
    proof {
        law_position_unique(pairs@, threshold);
    }
    while total < threshold && idx < transactions
        invariant
            pairs.len() <= transactions,
            start <= idx <= pairs.len(),
            total == gas_before(pairs@, idx as int),
            is_position(pairs@, threshold, p),
            p == position(pairs@, threshold),
            idx == start || idx <= p,
        decreases transactions - idx,
    {
        proof {
            if idx > p {
                lemma_gas_before_monotone(pairs@, p, idx as int);
            }
            if idx == p {
                assert(p == pairs.len());
            }
        }
        if idx >= pairs.len() {
            return None;
        }
        proof {
            assert(gas_before(pairs@, idx + 1) == gas_before(pairs@, idx as int)
                + pairs@[idx as int].0);
            lemma_gas_before_monotone(pairs@, idx + 1, p);
        }
        match total.checked_add(pairs[idx].0) {
            Some(sum) => {
                total = sum;
            },
            None => {
                return None;
            },
        }
        idx = idx + 1;
    }
    proof {
        lemma_gas_before_monotone(pairs@, p, if start < p { p } else { start as int });
        if start < p {
            if idx < p {
                assert(gas_before(pairs@, idx as int) < threshold);
            }
        }
    }
    if idx >= pairs.len() && pairs.len() < transactions {
        return None;
    }
    Some((idx, total))
}

/// The rewards at the percentiles of a block's gas, or nothing where one cannot be told.
fn walk(
    pairs: &Vec<(u128, u128)>,
    transactions: usize,
    block_gas_used: u64,
    percentiles: &Vec<Double>,
) -> (r: Option<Vec<u128>>)
    requires
        pairs.len() <= transactions,
        0 < transactions,
    ensures
        r is Some <==> rewards_exist(
            pairs@,
            transactions as nat,
            gas_thresholds(block_gas_used, percentiles@),
        ),
        r matches Some(rewards) ==> rewards@ == rewards_at(
            pairs@,
            transactions as nat,
            gas_thresholds(block_gas_used, percentiles@),
        ),
{
    let ghost thresholds = gas_thresholds(block_gas_used, percentiles@);
    let mut idx: usize = 0;
    let mut gas: u128 = 0;
    let mut rewards: Vec<u128> = Vec::new();
    let mut i: usize = 0;
    while i < percentiles.len()
        invariant
            pairs.len() <= transactions,
            0 < transactions,
            i <= percentiles.len(),
            thresholds == gas_thresholds(block_gas_used, percentiles@),
            idx <= pairs.len(),
            idx == 0 || idx < pairs.len() || pairs.len() == transactions,
            idx == reached(pairs@, thresholds, i - 1),
            gas == gas_before(pairs@, idx as int),
            rewards.len() == i,
            forall|j: int| 0 <= j < i ==> reward_exists(
                pairs@,
                transactions as nat,
                #[trigger] thresholds[j],
            ),
            forall|j: int|
                0 <= j < i ==> #[trigger] rewards@[j] == rewards_at(
                    pairs@,
                    transactions as nat,
                    thresholds,
                )[j],
        decreases percentiles.len() - i,
    {
        let threshold: u128 = gas_threshold(block_gas_used, percentiles[i]);
        assert(threshold == thresholds[i as int]);
        match advance(pairs, transactions, threshold, idx, gas) {
            Some((reached_idx, total)) => {
                idx = reached_idx;
                gas = total;
            },
            None => {
                return None;
            },
        }
        let reward_idx: usize = if idx < transactions - 1 {
            idx
        } else {
            transactions - 1
        };
        rewards.push(pairs[reward_idx].1);
        i = i + 1;
    }
    assert(rewards@ =~= rewards_at(pairs@, transactions as nat, thresholds));
    Some(rewards)
}

/// The gas used and the effective tip of each transaction that has a receipt.
fn pair_gas_and_rewards(
    transactions: &Vec<FeeTransaction>,
    receipts: &Vec<Receipt>,
    base_fee: u64,
) -> (pairs: Vec<(u128, u128)>)
    ensures
        pairs@ == gas_and_rewards(transactions@, receipts@, base_fee),
{
    let mut pairs: Vec<(u128, u128)> = Vec::new();
    let mut i: usize = 0;
    while i < transactions.len() && i < receipts.len()
        invariant
            i <= transactions.len(),
            i <= receipts.len(),
            pairs.len() == i,
            forall|j: int|
                0 <= j < i ==> #[trigger] pairs@[j] == gas_and_rewards(
                    transactions@,
                    receipts@,
                    base_fee,
                )[j],
        decreases transactions.len() - i,
    {
        let reward: u128 = match transactions[i].effective_tip_per_gas(base_fee) {
            Some(tip) => tip,
            None => 0,
        };
        pairs.push((receipts[i].gas_used, reward));
        i = i + 1;
    }
    assert(pairs@ =~= gas_and_rewards(transactions@, receipts@, base_fee));
    pairs
}

/// The percentiles, as a sequence.
pub open spec fn percentiles_view(percentiles: Option<&Vec<Double>>) -> Option<Seq<Double>> {
    match percentiles {
        Some(percentiles) => Some(percentiles@),
        None => None,
    }
}

/// The rewards of a block with transactions, or nothing where one cannot be told.
fn try_rewards(
    transactions: &Vec<FeeTransaction>,
    receipts: &Vec<Receipt>,
    base_fee: u64,
    block_gas_used: u64,
    percentiles: &Vec<Double>,
) -> (r: Option<Vec<u128>>)
    requires
        transactions.len() > 0,
    ensures
        r is Some <==> rewards_fit(
            transactions@,
            receipts@,
            base_fee,
            block_gas_used,
            Some(percentiles@),
        ),
        r matches Some(rewards) ==> rewards@ == fee_history_rewards(
            transactions@,
            receipts@,
            base_fee,
            block_gas_used,
            Some(percentiles@),
        ),
{
    let pairs = pair_gas_and_rewards(transactions, receipts, base_fee);
    let ghost unsorted = pairs@;
    let sorted = sort_by_tip(pairs);
    proof {
        law_sort_unique(unsorted, sorted@);
    }
    walk(&sorted, transactions.len(), block_gas_used, percentiles)
}

/// Whether the rewards of a block can be told.
pub fn rewards_can_be_told(
    transactions: &Vec<FeeTransaction>,
    receipts: &Vec<Receipt>,
    base_fee: u64,
    block_gas_used: u64,
    percentiles: Option<&Vec<Double>>,
) -> (fit: bool)
    ensures
        fit == rewards_fit(
            transactions@,
            receipts@,
            base_fee,
            block_gas_used,
            percentiles_view(percentiles),
        ),
{
    match percentiles {
        Some(percentiles) => transactions.len() == 0 || try_rewards(
            transactions,
            receipts,
            base_fee,
            block_gas_used,
            percentiles,
        ).is_some(),
        None => true,
    }
}

/// The rewards of a block: the requested percentiles of the effective priority fees per gas,
/// sorted in ascending order and weighted by gas used.
pub fn calculate_fee_history_rewards(
    transactions: &Vec<FeeTransaction>,
    receipts: &Vec<Receipt>,
    base_fee: u64,
    block_gas_used: u64,
    percentiles: Option<&Vec<Double>>,
) -> (rewards: Vec<u128>)
    requires
        rewards_fit(
            transactions@,
            receipts@,
            base_fee,
            block_gas_used,
            percentiles_view(percentiles),
        ),
    ensures
        rewards@ == fee_history_rewards(
            transactions@,
            receipts@,
            base_fee,
            block_gas_used,
            percentiles_view(percentiles),
        ),
{
    match percentiles {
        Some(percentiles) => {
            if transactions.len() == 0 {
                return vec![0u128; percentiles.len()];
            }
            match try_rewards(transactions, receipts, base_fee, block_gas_used, percentiles) {
                Some(rewards) => rewards,
                None => Vec::new(),
            }
        },
        None => Vec::new(),
    }
}

/// The tip of a transaction never exceeds the priority fee that it sets, be that zero, nor what
/// its maximum fee leaves over the base fee, and is one of the two; without a priority fee it is
/// all that is left. There is none exactly where the maximum fee is below the base fee.
pub proof fn law_effective_tip(transaction: FeeTransaction, base_fee: u64, tip: Option<u128>)
    requires
        call_ensures(FeeTransaction::effective_tip_per_gas, (&transaction, base_fee), tip) || tip
            == transaction.effective_tip(base_fee),
    ensures
        tip is None <==> transaction.max_fee_per_gas < base_fee,
        tip matches Some(paid) ==> paid <= transaction.max_fee_per_gas - base_fee,
        tip matches Some(paid) ==> (transaction.max_priority_fee_per_gas matches Some(priority)
            ==> paid <= priority && (paid == priority || paid == transaction.max_fee_per_gas
            - base_fee)),
        tip matches Some(paid) ==> transaction.max_priority_fee_per_gas is None ==> paid
            == transaction.max_fee_per_gas - base_fee,
{
}

/// A higher base fee leaves no higher a tip.
pub proof fn law_tip_falls_with_base_fee(
    transaction: FeeTransaction,
    low: u64,
    high: u64,
    low_tip: Option<u128>,
    high_tip: Option<u128>,
)
    requires
        low <= high,
        call_ensures(FeeTransaction::effective_tip_per_gas, (&transaction, low), low_tip),
        call_ensures(FeeTransaction::effective_tip_per_gas, (&transaction, high), high_tip),
    ensures
        high_tip matches Some(b) ==> (low_tip matches Some(a) && b <= a && a - b <= high - low),
{
}

} // verus!
