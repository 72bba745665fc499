//! What holds of the rewards of every block.
use vstd::arithmetic::div_mod::*;
use vstd::arithmetic::power2::*;
use vstd::prelude::*;

use crate::binary64::{
    from_integer, lemma_rounded_cancels, lemma_rounded_integer_scales, lemma_rounded_monotone,
    lemma_rounded_within_significand, lemma_small_integer_exact, one, product, quotient, rounded,
    to_integer,
};
use crate::double::Double;
use crate::fee_history::ascending;
use crate::percentile::{gas_threshold, gas_threshold_spec};
use crate::rewards::{
    calculate_fee_history_rewards, fee_history_rewards, gas_and_rewards, gas_before,
    gas_thresholds, is_stable_sort, law_position_unique, law_sort_unique,
    lemma_gas_before_monotone, position, reached, reward_exists, rewards_at, rewards_can_be_told,
    rewards_exist, rewards_fit, sorted_by_tip, with_tip, FeeTransaction, Receipt,
};

verus! {

/// The place at which a pair of the given tip goes into a sequence in ascending order.
proof fn lemma_place(sorted: Seq<(u128, u128)>, tip: u128) -> (k: int)
    requires
        forall|i: int, j: int| 0 <= i <= j < sorted.len() ==> sorted[i].1 <= sorted[j].1,
    ensures
        0 <= k <= sorted.len(),
        forall|i: int| 0 <= i < k ==> (#[trigger] sorted[i]).1 <= tip,
        forall|i: int| k <= i < sorted.len() ==> (#[trigger] sorted[i]).1 > tip,
    decreases sorted.len(),
{
    if sorted.len() == 0 {
        0
    } else if sorted.last().1 <= tip {
        sorted.len() as int
    } else {
        let shorter = sorted.drop_last();
        let k = lemma_place(shorter, tip);
        assert forall|i: int| 0 <= i < k implies (#[trigger] sorted[i]).1 <= tip by {
            assert(shorter[i] == sorted[i]);
        }
        assert forall|i: int| k <= i < sorted.len() implies (#[trigger] sorted[i]).1 > tip by {
            if i < shorter.len() {
                assert(shorter[i] == sorted[i]);
            }
        }
        k
    }
}

proof fn lemma_no_tip(pairs: Seq<(u128, u128)>, tip: u128)
    requires
        forall|i: int| 0 <= i < pairs.len() ==> (#[trigger] pairs[i]).1 != tip,
    ensures
        with_tip(pairs, tip) == Seq::<(u128, u128)>::empty(),
    decreases pairs.len(),
{
    reveal(Seq::filter);
    if pairs.len() > 0 {
        assert(pairs[pairs.len() - 1].1 != tip);
        assert forall|i: int| 0 <= i < pairs.drop_last().len() implies (
        #[trigger] pairs.drop_last()[i]).1 != tip by {
            assert(pairs.drop_last()[i] == pairs[i]);
        }
        lemma_no_tip(pairs.drop_last(), tip);
    }
}

/// All pairs can be sorted.
pub proof fn law_sort_exists(pairs: Seq<(u128, u128)>)
    ensures
        is_stable_sort(pairs, sorted_by_tip(pairs)),
    decreases pairs.len(),
{
    if pairs.len() == 0 {
        assert(is_stable_sort(pairs, pairs));
    } else {
        let rest = pairs.drop_last();
        let x = pairs.last();
        law_sort_exists(rest);
        let s = sorted_by_tip(rest);
        let k = lemma_place(s, x.1);
        let (low, high) = (s.take(k), s.skip(k));
        let new = low + seq![x] + high;
        assert(s =~= low + high);
        assert(pairs =~= rest + seq![x]);
        assert forall|tip: u128| #[trigger] with_tip(new, tip) == with_tip(pairs, tip) by {
            let of_tip = |pair: (u128, u128)| pair.1 == tip;
            Seq::filter_distributes_over_add(low + seq![x], high, of_tip);
            Seq::filter_distributes_over_add(low, seq![x], of_tip);
            Seq::filter_distributes_over_add(low, high, of_tip);
            Seq::filter_distributes_over_add(rest, seq![x], of_tip);
            assert(with_tip(s, tip) == with_tip(rest, tip));
            if tip == x.1 {
                lemma_no_tip(high, tip);
            } else {
                lemma_no_tip(seq![x], tip);
            }
            assert(with_tip(new, tip) =~= with_tip(pairs, tip));
        }
        assert forall|i: int, j: int| 0 <= i <= j < new.len() implies new[i].1 <= new[j].1 by {
            if i < k && j > k {
                assert(s[i].1 <= s[j - 1].1);
            } else if i > k {
                assert(s[i - 1].1 <= s[j - 1].1);
            } else if j < k {
                assert(s[i].1 <= s[j].1);
            }
        }
        assert(is_stable_sort(pairs, new));
    }
}

/// A pair of the stable sort is one of the pairs.
pub proof fn law_sort_keeps_pairs(pairs: Seq<(u128, u128)>, i: int)
    requires
        0 <= i < sorted_by_tip(pairs).len(),
    ensures
        pairs.contains(sorted_by_tip(pairs)[i]),
{
    law_sort_exists(pairs);
    let sorted = sorted_by_tip(pairs);
    let pair = sorted[i];
    let of_tip = |p: (u128, u128)| p.1 == pair.1;
    assert(sorted.filter(of_tip) == with_tip(sorted, pair.1));
    assert(pairs.filter(of_tip) == with_tip(pairs, pair.1));
    sorted.lemma_filter_contains(of_tip, i);
    pairs.lemma_filter_contains_rev(of_tip, pair);
}

proof fn lemma_small_gas(pairs: Seq<(u128, u128)>, k: int)
    requires
        0 <= k <= pairs.len(),
        forall|i: int| 0 <= i < pairs.len() ==> (#[trigger] pairs[i]).0 <= u64::MAX,
    ensures
        gas_before(pairs, k) <= k * u64::MAX,
    decreases k,
{
    if k > 0 {
        lemma_small_gas(pairs, k - 1);
        assert((k - 1) * u64::MAX + u64::MAX == k * u64::MAX) by (nonlinear_arith);
    }
}

/// The rewards of a block can be told where every transaction has a receipt and 64 bits hold the
/// number of transactions and the gas of each.
pub proof fn law_rewards_fit(
    transactions: Seq<FeeTransaction>,
    receipts: Seq<Receipt>,
    base_fee: u64,
    block_gas_used: u64,
    percentiles: Option<Seq<Double>>,
)
    requires
        transactions.len() <= receipts.len(),
        transactions.len() <= u64::MAX,
        forall|i: int| 0 <= i < receipts.len() ==> (#[trigger] receipts[i]).gas_used <= u64::MAX,
    ensures
        rewards_fit(transactions, receipts, base_fee, block_gas_used, percentiles),
{
    if let Some(percentiles) = percentiles {
        let pairs = gas_and_rewards(transactions, receipts, base_fee);
        let sorted = sorted_by_tip(pairs);
        let thresholds = gas_thresholds(block_gas_used, percentiles);
        law_sort_exists(pairs);
        assert forall|i: int| 0 <= i < sorted.len() implies (#[trigger] sorted[i]).0
            <= u64::MAX by {
            law_sort_keeps_pairs(pairs, i);
            let j = choose|j: int| 0 <= j < pairs.len() && pairs[j] == sorted[i];
            assert(receipts[j].gas_used <= u64::MAX);
        }
        assert forall|i: int| 0 <= i < thresholds.len() implies reward_exists(
            sorted,
            transactions.len(),
            #[trigger] thresholds[i],
        ) by {
            law_position_unique(sorted, thresholds[i]);
            let k = position(sorted, thresholds[i]);
            lemma_small_gas(sorted, k);
            assert(k * u64::MAX <= u128::MAX) by (nonlinear_arith)
                requires
                    0 <= k <= u64::MAX,
            ;
        }
    }
}

/// A reward of a block with transactions is the effective tip of one of them, or zero where that
/// transaction does not cover the base fee.
pub proof fn law_reward_is_a_tip(
    transactions: Seq<FeeTransaction>,
    receipts: Seq<Receipt>,
    base_fee: u64,
    block_gas_used: u64,
    percentiles: Seq<Double>,
    i: int,
)
    requires
        transactions.len() > 0,
        rewards_fit(transactions, receipts, base_fee, block_gas_used, Some(percentiles)),
        0 <= i < percentiles.len(),
    ensures
        exists|j: int|
            0 <= j < transactions.len() && fee_history_rewards(
                transactions,
                receipts,
                base_fee,
                block_gas_used,
                Some(percentiles),
            )[i] == match (#[trigger] transactions[j]).effective_tip(base_fee) {
                Some(tip) => tip,
                None => 0,
            },
{
    let pairs = gas_and_rewards(transactions, receipts, base_fee);
    let sorted = sorted_by_tip(pairs);
    let n = transactions.len();
    let thresholds = gas_thresholds(block_gas_used, percentiles);
    law_sort_exists(pairs);
    lemma_reached_within(sorted, n, thresholds, i);
    let k = reached(sorted, thresholds, i);
    let at = if k < n {
        k
    } else {
        n - 1
    };
    law_sort_keeps_pairs(pairs, at);
    let j = choose|j: int| 0 <= j < pairs.len() && pairs[j] == sorted[at];
    assert(transactions[j].effective_tip(base_fee) == transactions[j].effective_tip(base_fee));
}

proof fn lemma_reached_within(
    pairs: Seq<(u128, u128)>,
    transactions: nat,
    thresholds: Seq<u128>,
    last: int,
)
    requires
        0 <= last < thresholds.len(),
        rewards_exist(pairs, transactions, thresholds),
    ensures
        0 <= reached(pairs, thresholds, last) < pairs.len() || (pairs.len() == transactions && 0
            <= reached(pairs, thresholds, last) <= pairs.len()),
    decreases last,
{
    law_position_unique(pairs, thresholds[last]);
    assert(reward_exists(pairs, transactions, thresholds[last]));
    if last > 0 {
        lemma_reached_within(pairs, transactions, thresholds, last - 1);
    } else {
        assert(reached(pairs, thresholds, -1) == 0);
    }
}

/// A higher percentile has no lower threshold.
pub proof fn law_threshold_monotone(block_gas_used: u64, a: Double, b: Double)
    requires
        a.at_most_spec(b),
    ensures
        gas_threshold_spec(block_gas_used, a) <= gas_threshold_spec(block_gas_used, b),
{
    if !a.negative() && !b.negative() {
        let gas = from_integer(block_gas_used as nat);
        let (x, y) = (a.magnitude(), b.magnitude());
        lemma_pow2_pos(1074);
        assert(gas * x <= gas * y) by (nonlinear_arith)
            requires
                x <= y,
        ;
        lemma_rounded_monotone(gas * x, gas * y, one());
        let (p, q) = (product(gas, x), product(gas, y));
        assert(p * one() <= q * one()) by (nonlinear_arith)
            requires
                p <= q,
        ;
        lemma_hundred();
        lemma_rounded_monotone(p * one(), q * one(), from_integer(100));
        let (s, t) = (quotient(p, from_integer(100)), quotient(q, from_integer(100)));
        lemma_div_is_ordered(
            (2 * s + one()) as int,
            (2 * t + one()) as int,
            (2 * one()) as int,
        );
    } else if a.negative() {
        assert(gas_threshold_spec(block_gas_used, a) == 0);
    } else {
        // A positive number at most a negative one: both are zero.
        assert(a.magnitude() == 0);
        lemma_zero_threshold(block_gas_used, a);
    }
}

proof fn lemma_hundred()
    ensures
        from_integer(100) == 100 * one(),
        from_integer(100) > 0,
{
    lemma_rounded_integer_scales(100, 1074);
    lemma_small_integer_exact(100);
    lemma_pow2_pos(1074);
}

proof fn lemma_zero_threshold(block_gas_used: u64, a: Double)
    requires
        a.magnitude() == 0,
    ensures
        gas_threshold_spec(block_gas_used, a) == 0,
{
    lemma_hundred();
    lemma_pow2_pos(1074);
    let gas = from_integer(block_gas_used as nat);
    assert(gas * 0 == 0);
    lemma_rounded_within_significand(0, one());
    assert(0 * one() == 0);
    lemma_rounded_within_significand(0, 100 * one());
    lemma_basic_div(one() as int, (2 * one()) as int);
}

proof fn lemma_position_monotone(pairs: Seq<(u128, u128)>, low: u128, high: u128)
    requires
        low <= high,
    ensures
        0 <= position(pairs, low) <= position(pairs, high),
{
    law_position_unique(pairs, low);
    law_position_unique(pairs, high);
    let (p, q) = (position(pairs, low), position(pairs, high));
    if q < p {
        assert(gas_before(pairs, q) < low);
    }
}

/// Of ascending percentiles, each has the reward at its own threshold, whatever the others are.
pub proof fn law_ascending_rewards(
    pairs: Seq<(u128, u128)>,
    transactions: nat,
    block_gas_used: u64,
    percentiles: Seq<Double>,
    i: int,
)
    requires
        ascending(percentiles),
        0 <= i < percentiles.len(),
    ensures
        ({
            let thresholds = gas_thresholds(block_gas_used, percentiles);
            let k = position(pairs, thresholds[i]);
            &&& reached(pairs, thresholds, i) == k
            &&& rewards_at(pairs, transactions, thresholds)[i] == pairs[if k < transactions {
                k
            } else {
                transactions - 1
            }].1
        }),
    decreases i,
{
    let thresholds = gas_thresholds(block_gas_used, percentiles);
    if i > 0 {
        law_ascending_rewards(pairs, transactions, block_gas_used, percentiles, i - 1);
        assert(percentiles[i - 1].at_most_spec(percentiles[i]));
        law_threshold_monotone(block_gas_used, percentiles[i - 1], percentiles[i]);
        lemma_position_monotone(pairs, thresholds[i - 1], thresholds[i]);
    } else {
        assert(reached(pairs, thresholds, -1) == 0);
        lemma_position_monotone(pairs, thresholds[0], thresholds[0]);
    }
}

proof fn lemma_reached_monotone(
    pairs: Seq<(u128, u128)>,
    thresholds: Seq<u128>,
    i: int,
    j: int,
)
    requires
        0 <= i <= j,
    ensures
        reached(pairs, thresholds, i) <= reached(pairs, thresholds, j),
    decreases j - i,
{
    if i < j {
        lemma_reached_monotone(pairs, thresholds, i, j - 1);
    }
}

/// The rewards of ascending percentiles never descend, for every block whose rewards can be told
/// and for every block all of whose transactions have receipts.
pub proof fn law_rewards_ascend(
    transactions: Seq<FeeTransaction>,
    receipts: Seq<Receipt>,
    base_fee: u64,
    block_gas_used: u64,
    percentiles: Seq<Double>,
    i: int,
    j: int,
)
    requires
        ascending(percentiles),
        transactions.len() <= receipts.len() || rewards_fit(
            transactions,
            receipts,
            base_fee,
            block_gas_used,
            Some(percentiles),
        ),
        0 <= i <= j < percentiles.len(),
    ensures
        fee_history_rewards(transactions, receipts, base_fee, block_gas_used, Some(percentiles))[i]
            <= fee_history_rewards(
            transactions,
            receipts,
            base_fee,
            block_gas_used,
            Some(percentiles),
        )[j],
{
    if transactions.len() > 0 {
        let pairs = gas_and_rewards(transactions, receipts, base_fee);
        let sorted = sorted_by_tip(pairs);
        let n = transactions.len();
        let thresholds = gas_thresholds(block_gas_used, percentiles);
        law_sort_exists(pairs);
        law_ascending_rewards(sorted, n, block_gas_used, percentiles, i);
        law_ascending_rewards(sorted, n, block_gas_used, percentiles, j);
        law_position_unique(sorted, thresholds[i]);
        law_position_unique(sorted, thresholds[j]);
        lemma_reached_monotone(sorted, thresholds, i, j);
        if transactions.len() > receipts.len() {
            assert(reward_exists(sorted, n, thresholds[i]));
            assert(reward_exists(sorted, n, thresholds[j]));
        }
    }
}

/// A multiple of one half that the significand holds is a double.
proof fn lemma_dyadic_exact(m: nat, k: nat)
    requires
        m < 0x20_0000_0000_0000,
    ensures
        rounded(100 * (m * pow2(k)), 100) == m * pow2(k),
{
    lemma_rounded_cancels(m * pow2(k), 1, 100);
    lemma_rounded_integer_scales(m, k);
    lemma_small_integer_exact(m);
}

/// For whole percentages of amounts of gas that leave room in the significand, the threshold is
/// the exact percentage, rounded to the nearest integer and up from the half.
pub proof fn law_threshold_of_whole_percent(
    block_gas_used: u64,
    percentile: Double,
    percent: nat,
)
    requires
        !percentile.negative(),
        !percentile.is_nan_spec(),
        percentile.magnitude() == percent * one(),
        percent <= 100,
        block_gas_used < 0x20_0000_0000_0000,
        block_gas_used * percent < 0x10_0000_0000_0000,
    ensures
        gas_threshold_spec(block_gas_used, percentile) == (block_gas_used * percent + 50) / 100,
{
    let g = block_gas_used as nat;
    let x = g * percent;
    let n = x * one();
    lemma_pow2_pos(1074);
    lemma_hundred();
    lemma_rounded_integer_scales(g, 1074);
    lemma_small_integer_exact(g);
    assert(from_integer(g) == g * one());
    assert(product(g * one(), percent * one()) == n) by {
        assert((g * one()) * (percent * one()) == one() * n) by (nonlinear_arith)
            requires
                n == (g * percent) * one(),
        ;
        assert(one() * 1 == one());
        lemma_rounded_cancels(n, 1, one());
        lemma_rounded_integer_scales(x, 1074);
        lemma_small_integer_exact(x);
    }
    let part = quotient(n, 100 * one());
    assert(part == rounded(n, 100)) by {
        assert(n * one() == one() * n) by (nonlinear_arith);
        assert(one() * 100 == 100 * one());
        lemma_rounded_cancels(n, 100, one());
    }
    let k = (x + 50) / 100;
    // Below: at least k less one half. Above: at most k and 63 parts in 128.
    lemma_pow2_unfold(1074);
    lemma_pow2_adds(7, 1067);
    lemma2_to64();
    let h = pow2(1073);
    let e = pow2(1067);
    assert(one() == 2 * h);
    assert(one() == 128 * e);
    if k > 0 {
        let m = (2 * k - 1) as nat;
        lemma_dyadic_exact(m, 1073);
        assert(100 * (m * h) <= n) by (nonlinear_arith)
            requires
                n == x * (2 * h),
                m == 2 * k - 1,
                100 * k <= x + 50,
        ;
        lemma_rounded_monotone(100 * (m * h), n, 100);
    }
    let m = 128 * k + 63;
    lemma_dyadic_exact(m, 1067);
    assert(n <= 100 * (m * e)) by (nonlinear_arith)
        requires
            n == x * (128 * e),
            m == 128 * k + 63,
            x + 50 <= 100 * k + 99,
    ;
    lemma_rounded_monotone(n, 100 * (m * e), 100);
    assert(to_integer(part) == k) by {
        assert(m * e < (2 * k + 1) * h) by (nonlinear_arith)
            requires
                m == 128 * k + 63,
                2 * h == 128 * e,
                e > 0,
        ;
        assert(2 * part + one() >= k * (2 * one())) by (nonlinear_arith)
            requires
                one() == 2 * h,
                k > 0 ==> part >= (2 * k - 1) * h,
                k >= 0,
                h >= 0,
                part >= 0,
        ;
        assert(2 * part + one() < (k + 1) * (2 * one())) by (nonlinear_arith)
            requires
                one() == 2 * h,
                part < (2 * k + 1) * h,
        ;
        let r = 2 * part + one() - k * (2 * one());
        assert((k + 1) * (2 * one()) == k * (2 * one()) + 2 * one()) by (nonlinear_arith);
        lemma_fundamental_div_mod_converse(
            (2 * part + one()) as int,
            (2 * one()) as int,
            k as int,
            r,
        );
    }
}

/// Whether the pair at place `i` comes before that at place `j` in ascending order of tips: its
/// tip is lower, or is the same and the pair is the earlier in the block.
pub open spec fn comes_before(pairs: Seq<(u128, u128)>, i: int, j: int) -> bool {
    pairs[i].1 < pairs[j].1 || (pairs[i].1 == pairs[j].1 && i < j)
}

/// The gas of those of the first `n` pairs that come before the pair at place `j`.
pub open spec fn gas_ahead(pairs: Seq<(u128, u128)>, j: int, n: int) -> nat
    decreases n,
{
    if n <= 0 {
        0
    } else {
        gas_ahead(pairs, j, n - 1) + if comes_before(pairs, n - 1, j) {
            pairs[n - 1].0 as nat
        } else {
            0
        }
    }
}

/// The gas of those of the first `n` pairs whose tip is at most the given one.
spec fn gas_up_to(pairs: Seq<(u128, u128)>, tip: u128, n: int) -> nat
    decreases n,
{
    if n <= 0 {
        0
    } else {
        gas_up_to(pairs, tip, n - 1) + if pairs[n - 1].1 <= tip {
            pairs[n - 1].0 as nat
        } else {
            0
        }
    }
}

proof fn lemma_gas_up_to_extends(
    a: Seq<(u128, u128)>,
    b: Seq<(u128, u128)>,
    tip: u128,
    n: int,
)
    requires
        0 <= n <= a.len(),
        n <= b.len(),
        forall|i: int| 0 <= i < n ==> a[i] == b[i],
    ensures
        gas_up_to(a, tip, n) == gas_up_to(b, tip, n),
    decreases n,
{
    if n > 0 {
        lemma_gas_up_to_extends(a, b, tip, n - 1);
    }
}

proof fn lemma_gas_before_extends(a: Seq<(u128, u128)>, b: Seq<(u128, u128)>, n: int)
    requires
        0 <= n <= a.len(),
        n <= b.len(),
        forall|i: int| 0 <= i < n ==> a[i] == b[i],
    ensures
        gas_before(a, n) == gas_before(b, n),
    decreases n,
{
    if n > 0 {
        lemma_gas_before_extends(a, b, n - 1);
    }
}

/// The sums over a sequence and over the same one with a pair inserted.
proof fn lemma_inserted(
    s: Seq<(u128, u128)>,
    new: Seq<(u128, u128)>,
    k: int,
    x: (u128, u128),
    tip: u128,
    n: int,
)
    requires
        0 <= k <= s.len(),
        new == s.insert(k, x),
        k <= n <= s.len(),
    ensures
        gas_before(new, n + 1) == gas_before(s, n) + x.0,
        gas_up_to(new, tip, n + 1) == gas_up_to(s, tip, n) + if x.1 <= tip {
            x.0 as nat
        } else {
            0
        },
    decreases n - k,
{
    if n == k {
        lemma_gas_before_extends(s, new, k);
        lemma_gas_up_to_extends(s, new, tip, k);
    } else {
        lemma_inserted(s, new, k, x, tip, n - 1);
    }
}

/// The stable sort of pairs is that of all but the last, with the last inserted after those of
/// its tip.
proof fn lemma_sort_inserts(pairs: Seq<(u128, u128)>) -> (k: int)
    requires
        pairs.len() > 0,
    ensures
        0 <= k < pairs.len(),
        sorted_by_tip(pairs) == sorted_by_tip(pairs.drop_last()).insert(k, pairs.last()),
        is_stable_sort(pairs.drop_last(), sorted_by_tip(pairs.drop_last())),
        forall|i: int|
            0 <= i < k ==> (#[trigger] sorted_by_tip(pairs.drop_last())[i]).1 <= pairs.last().1,
        forall|i: int|
            k <= i < pairs.len() - 1 ==> (#[trigger] sorted_by_tip(pairs.drop_last())[i]).1
                > pairs.last().1,
{
    let rest = pairs.drop_last();
    let x = pairs.last();
    law_sort_exists(rest);
    let s = sorted_by_tip(rest);
    let k = lemma_place(s, x.1);
    let (low, high) = (s.take(k), s.skip(k));
    let new = low + seq![x] + high;
    assert(s =~= low + high);
    assert(pairs =~= rest + seq![x]);
    assert(new =~= s.insert(k, x));
    assert forall|tip: u128| #[trigger] with_tip(new, tip) == with_tip(pairs, tip) by {
        let of_tip = |pair: (u128, u128)| pair.1 == tip;
        Seq::filter_distributes_over_add(low + seq![x], high, of_tip);
        Seq::filter_distributes_over_add(low, seq![x], of_tip);
        Seq::filter_distributes_over_add(low, high, of_tip);
        Seq::filter_distributes_over_add(rest, seq![x], of_tip);
        assert(with_tip(s, tip) == with_tip(rest, tip));
        if tip == x.1 {
            lemma_no_tip(high, tip);
        } else {
            lemma_no_tip(seq![x], tip);
        }
        assert(with_tip(new, tip) =~= with_tip(pairs, tip));
    }
    assert forall|i: int, j: int| 0 <= i <= j < new.len() implies new[i].1 <= new[j].1 by {
        if i < k && j > k {
            assert(s[i].1 <= s[j - 1].1);
        } else if i > k {
            assert(s[i - 1].1 <= s[j - 1].1);
        } else if j < k {
            assert(s[i].1 <= s[j].1);
        }
    }
    assert(is_stable_sort(pairs, new));
    law_sort_unique(pairs, new);
    k
}

/// Sorting changes no sum of gas up to a tip.
proof fn lemma_sort_keeps_gas(pairs: Seq<(u128, u128)>, tip: u128)
    ensures
        gas_up_to(sorted_by_tip(pairs), tip, pairs.len() as int) == gas_up_to(
            pairs,
            tip,
            pairs.len() as int,
        ),
    decreases pairs.len(),
{
    if pairs.len() > 0 {
        let rest = pairs.drop_last();
        let n = rest.len() as int;
        lemma_sort_keeps_gas(rest, tip);
        let k = lemma_sort_inserts(pairs);
        lemma_inserted(sorted_by_tip(rest), sorted_by_tip(pairs), k, pairs.last(), tip, n);
        lemma_gas_up_to_extends(rest, pairs, tip, n);
    }
}

/// In ascending order of tips, the gas up to a tip is that of the pairs before the first with a
/// higher one.
proof fn lemma_gas_up_to_sorted(s: Seq<(u128, u128)>, tip: u128, k: int, n: int)
    requires
        0 <= k <= n <= s.len(),
        forall|i: int| 0 <= i < k ==> (#[trigger] s[i]).1 <= tip,
        forall|i: int| k <= i < s.len() ==> (#[trigger] s[i]).1 > tip,
    ensures
        gas_up_to(s, tip, n) == gas_before(s, k),
    decreases n,
{
    if n > k {
        lemma_gas_up_to_sorted(s, tip, k, n - 1);
        assert(s[n - 1].1 > tip);
    } else if k > 0 {
        lemma_gas_up_to_prefix(s, tip, k);
    }
}

proof fn lemma_gas_up_to_prefix(s: Seq<(u128, u128)>, tip: u128, k: int)
    requires
        0 <= k <= s.len(),
        forall|i: int| 0 <= i < k ==> (#[trigger] s[i]).1 <= tip,
    ensures
        gas_up_to(s, tip, k) == gas_before(s, k),
    decreases k,
{
    if k > 0 {
        lemma_gas_up_to_prefix(s, tip, k - 1);
        assert(s[k - 1].1 <= tip);
    }
}

proof fn lemma_ahead_extends(rest: Seq<(u128, u128)>, pairs: Seq<(u128, u128)>, j: int, n: int)
    requires
        rest == pairs.drop_last(),
        pairs.len() > 0,
        0 <= j < rest.len(),
        0 <= n <= rest.len(),
    ensures
        gas_ahead(pairs, j, n) == gas_ahead(rest, j, n),
    decreases n,
{
    if n > 0 {
        lemma_ahead_extends(rest, pairs, j, n - 1);
    }
}

/// The pairs before the last of a block are those of at most its tip.
proof fn lemma_ahead_of_last(pairs: Seq<(u128, u128)>, n: int)
    requires
        pairs.len() > 0,
        0 <= n < pairs.len(),
    ensures
        gas_ahead(pairs, pairs.len() - 1, n) == gas_up_to(pairs, pairs.last().1, n),
    decreases n,
{
    if n > 0 {
        lemma_ahead_of_last(pairs, n - 1);
    }
}

/// Where each pair stands in the stable sort, and which pair stands at each place of it: pairs
/// that come before others stand before them, and the gas before a pair is that of those that
/// come before it.
proof fn lemma_places(pairs: Seq<(u128, u128)>) -> (r: (Seq<int>, Seq<int>))
    ensures
        r.0.len() == pairs.len(),
        r.1.len() == pairs.len(),
        forall|j: int|
            0 <= j < pairs.len() ==> {
                &&& 0 <= #[trigger] r.0[j] < pairs.len()
                &&& sorted_by_tip(pairs)[r.0[j]] == pairs[j]
                &&& gas_before(sorted_by_tip(pairs), r.0[j]) == gas_ahead(
                    pairs,
                    j,
                    pairs.len() as int,
                )
            },
        forall|p: int|
            0 <= p < pairs.len() ==> 0 <= #[trigger] r.1[p] < pairs.len() && r.0[r.1[p]] == p,
        forall|i: int, j: int|
            0 <= i < pairs.len() && 0 <= j < pairs.len() && #[trigger] comes_before(pairs, i, j)
                ==> r.0[i] < r.0[j],
    decreases pairs.len(),
{
    if pairs.len() == 0 {
        (Seq::empty(), Seq::empty())
    } else {
        let rest = pairs.drop_last();
        let n = rest.len() as int;
        let x = pairs.last();
        let (s, new) = (sorted_by_tip(rest), sorted_by_tip(pairs));
        let (old_place, old_at) = lemma_places(rest);
        let k = lemma_sort_inserts(pairs);
        let place = Seq::new(
            pairs.len(),
            |j: int|
                if j == n {
                    k
                } else if old_place[j] < k {
                    old_place[j]
                } else {
                    old_place[j] + 1
                },
        );
        let at = old_at.insert(k, n);
        assert forall|j: int| 0 <= j < pairs.len() implies {
            &&& 0 <= #[trigger] place[j] < pairs.len()
            &&& new[place[j]] == pairs[j]
            &&& gas_before(new, place[j]) == gas_ahead(pairs, j, n + 1)
        } by {
            if j == n {
                lemma_ahead_of_last(pairs, n);
                lemma_gas_up_to_extends(rest, pairs, x.1, n);
                lemma_sort_keeps_gas(rest, x.1);
                lemma_gas_up_to_sorted(s, x.1, k, n);
                lemma_gas_before_extends(s, new, k);
            } else {
                let q = old_place[j];
                lemma_ahead_extends(rest, pairs, j, n);
                assert(s[q] == rest[j]);
                if q < k {
                    lemma_gas_before_extends(s, new, q);
                    assert(s[q].1 <= x.1);
                } else {
                    lemma_inserted(s, new, k, x, x.1, q);
                    assert(s[q].1 > x.1);
                }
            }
        }
        assert forall|p: int| 0 <= p < pairs.len() implies 0 <= #[trigger] at[p] < pairs.len()
            && place[at[p]] == p by {
            if p < k {
                assert(at[p] == old_at[p]);
            } else if p > k {
                assert(at[p] == old_at[p - 1]);
            }
        }
        assert forall|i: int, j: int|
            0 <= i < pairs.len() && 0 <= j < pairs.len() && #[trigger] comes_before(
                pairs,
                i,
                j,
            ) implies place[i] < place[j] by {
            if i < n {
                assert(s[old_place[i]] == rest[i]);
            }
            if j < n {
                assert(s[old_place[j]] == rest[j]);
            }
            if i < n && j < n {
                assert(comes_before(rest, i, j));
            }
        }
        (place, at)
    }
}

/// The thresholds up to the given place reach as far between them as the highest of them.
proof fn lemma_reached_is_top(
    pairs: Seq<(u128, u128)>,
    thresholds: Seq<u128>,
    i: int,
    top: int,
)
    requires
        0 <= top <= i < thresholds.len(),
        forall|j: int| 0 <= j <= i ==> #[trigger] thresholds[j] <= thresholds[top],
    ensures
        reached(pairs, thresholds, i) == position(pairs, thresholds[top]),
    decreases i,
{
    lemma_position_monotone(pairs, thresholds[i], thresholds[top]);
    if i == 0 {
        assert(reached(pairs, thresholds, -1) == 0);
    } else if top < i {
        lemma_reached_is_top(pairs, thresholds, i - 1, top);
    } else {
        let below = lemma_top(thresholds, i - 1);
        lemma_reached_is_top(pairs, thresholds, i - 1, below);
        lemma_position_monotone(pairs, thresholds[below], thresholds[top]);
    }
}

proof fn lemma_top(thresholds: Seq<u128>, i: int) -> (top: int)
    requires
        0 <= i < thresholds.len(),
    ensures
        0 <= top <= i,
        forall|j: int| 0 <= j <= i ==> #[trigger] thresholds[j] <= thresholds[top],
    decreases i,
{
    if i == 0 {
        0
    } else {
        let top = lemma_top(thresholds, i - 1);
        if thresholds[top] <= thresholds[i] {
            i
        } else {
            top
        }
    }
}

/// A reward of a block is the effective tip of one of its transactions, weighted by gas. Take the
/// transactions that have receipts in ascending order of tips, those of equal tip as they stand in
/// the block: the gas of those that come before that one reaches the threshold of the percentile,
/// or of an earlier and higher one, or else it is the last of them, and it is the first of which
/// that holds. So for every block whose rewards can be told, and every one all of whose
/// transactions have receipts.
pub proof fn law_reward_is_weighted(
    transactions: Vec<FeeTransaction>,
    receipts: Vec<Receipt>,
    base_fee: u64,
    block_gas_used: u64,
    percentiles: Vec<Double>,
    rewards: Vec<u128>,
    pairs: Seq<(u128, u128)>,
    thresholds: Seq<u128>,
    i: int,
    top: int,
)
    requires
        0 < transactions@.len(),
        transactions@.len() <= receipts@.len() || call_ensures(
            rewards_can_be_told,
            (&transactions, &receipts, base_fee, block_gas_used, Some(&percentiles)),
            true,
        ),
        thresholds.len() == percentiles@.len(),
        forall|j: int|
            0 <= j < thresholds.len() ==> call_ensures(
                gas_threshold,
                (block_gas_used, percentiles@[j]),
                #[trigger] thresholds[j],
            ),
        0 <= top <= i < percentiles@.len(),
        forall|j: int| 0 <= j <= i ==> #[trigger] thresholds[j] <= thresholds[top],
        pairs.len() == if transactions@.len() < receipts@.len() {
            transactions@.len()
        } else {
            receipts@.len()
        },
        forall|j: int|
            0 <= j < pairs.len() ==> {
                &&& (#[trigger] pairs[j]).0 == receipts@[j].gas_used
                &&& call_ensures(
                    FeeTransaction::effective_tip_per_gas,
                    (&transactions@[j], base_fee),
                    Some(pairs[j].1),
                ) || (pairs[j].1 == 0 && call_ensures(
                    FeeTransaction::effective_tip_per_gas,
                    (&transactions@[j], base_fee),
                    None,
                ))
            },
        call_ensures(
            calculate_fee_history_rewards,
            (&transactions, &receipts, base_fee, block_gas_used, Some(&percentiles)),
            rewards,
        ),
    ensures
        rewards@.len() == percentiles@.len(),
        exists|j: int|
            {
                &&& 0 <= j < pairs.len()
                &&& rewards@[i] == (#[trigger] pairs[j]).1
                &&& gas_ahead(pairs, j, pairs.len() as int) >= thresholds[top] || forall|k: int|
                    0 <= k < pairs.len() && k != j ==> #[trigger] comes_before(pairs, k, j)
                &&& forall|k: int|
                    0 <= k < pairs.len() && #[trigger] comes_before(pairs, k, j) ==> gas_ahead(
                        pairs,
                        k,
                        pairs.len() as int,
                    ) < thresholds[top]
            },
{
    let n = pairs.len();
    assert(pairs =~= gas_and_rewards(transactions@, receipts@, base_fee)) by {
        assert forall|j: int| 0 <= j < n implies #[trigger] pairs[j] == gas_and_rewards(
            transactions@,
            receipts@,
            base_fee,
        )[j] by {
            assert(pairs[j].0 == receipts@[j].gas_used);
        }
    }
    let sorted = sorted_by_tip(pairs);
    assert(thresholds =~= gas_thresholds(block_gas_used, percentiles@));
    law_sort_exists(pairs);
    lemma_reached_is_top(sorted, thresholds, i, top);
    law_position_unique(sorted, thresholds[top]);
    let p = position(sorted, thresholds[top]);
    if n < transactions@.len() {
        assert(reward_exists(sorted, transactions@.len(), thresholds[top]));
    }
    let (place, at) = lemma_places(pairs);
    let q = if p < n {
        p
    } else {
        n - 1
    };
    let j = at[q];
    assert(place[j] == q);
    assert(sorted[q] == pairs[j]);
    assert forall|k: int| 0 <= k < n && #[trigger] comes_before(pairs, k, j) implies gas_ahead(
        pairs,
        k,
        n as int,
    ) < thresholds[top] by {
        assert(place[k] < q);
        assert(gas_before(sorted, place[k]) < thresholds[top]);
    }
    if p == n {
        assert forall|k: int| 0 <= k < n && k != j implies #[trigger] comes_before(
            pairs,
            k,
            j,
        ) by {
            if !comes_before(pairs, k, j) {
                assert(comes_before(pairs, j, k));
                assert(place[j] < place[k]);
            }
        }
    }
    assert(rewards@[i] == pairs[j].1);
}

/// Of ascending percentiles, the threshold of each is the highest so far, so that each reward is
/// the one at its own percentile.
pub proof fn law_own_threshold_is_highest(
    block_gas_used: u64,
    percentiles: Seq<Double>,
    thresholds: Seq<u128>,
    i: int,
    j: int,
)
    requires
        forall|j: int, k: int|
            0 <= j && k == j + 1 && k < percentiles.len() ==> call_ensures(
                Double::at_most,
                (#[trigger] percentiles[j], #[trigger] percentiles[k]),
                true,
            ),
        thresholds.len() == percentiles.len(),
        forall|j: int|
            0 <= j < thresholds.len() ==> call_ensures(
                gas_threshold,
                (block_gas_used, percentiles[j]),
                #[trigger] thresholds[j],
            ),
        0 <= j <= i < percentiles.len(),
    ensures
        thresholds[j] <= thresholds[i],
    decreases i - j,
{
    if j < i {
        law_own_threshold_is_highest(block_gas_used, percentiles, thresholds, i - 1, j);
        assert(percentiles[i - 1].at_most_spec(percentiles[i]));
        law_threshold_monotone(block_gas_used, percentiles[i - 1], percentiles[i]);
        assert(thresholds[i - 1] == gas_threshold_spec(block_gas_used, percentiles[i - 1]));
        assert(thresholds[i] == gas_threshold_spec(block_gas_used, percentiles[i]));
    }
}

/// The rewards of a block never descend along the percentiles, and each is the tip of one of its
/// transactions. Up to a percentile whose threshold is zero they are the lowest tip.
pub proof fn law_rewards_between_tips(
    transactions: Vec<FeeTransaction>,
    receipts: Vec<Receipt>,
    base_fee: u64,
    block_gas_used: u64,
    percentiles: Vec<Double>,
    rewards: Vec<u128>,
    pairs: Seq<(u128, u128)>,
    thresholds: Seq<u128>,
    i: int,
    k: int,
)
    requires
        0 < transactions@.len(),
        transactions@.len() <= receipts@.len() || call_ensures(
            rewards_can_be_told,
            (&transactions, &receipts, base_fee, block_gas_used, Some(&percentiles)),
            true,
        ),
        thresholds.len() == percentiles@.len(),
        forall|j: int|
            0 <= j < thresholds.len() ==> call_ensures(
                gas_threshold,
                (block_gas_used, percentiles@[j]),
                #[trigger] thresholds[j],
            ),
        0 <= i <= k < percentiles@.len(),
        pairs.len() == if transactions@.len() < receipts@.len() {
            transactions@.len()
        } else {
            receipts@.len()
        },
        forall|j: int|
            0 <= j < pairs.len() ==> {
                &&& (#[trigger] pairs[j]).0 == receipts@[j].gas_used
                &&& call_ensures(
                    FeeTransaction::effective_tip_per_gas,
                    (&transactions@[j], base_fee),
                    Some(pairs[j].1),
                ) || (pairs[j].1 == 0 && call_ensures(
                    FeeTransaction::effective_tip_per_gas,
                    (&transactions@[j], base_fee),
                    None,
                ))
            },
        call_ensures(
            calculate_fee_history_rewards,
            (&transactions, &receipts, base_fee, block_gas_used, Some(&percentiles)),
            rewards,
        ),
    ensures
        rewards@[i] <= rewards@[k],
        exists|j: int| 0 <= j < pairs.len() && (#[trigger] pairs[j]).1 == rewards@[i],
        (forall|j: int| 0 <= j <= i ==> #[trigger] thresholds[j] == 0) ==> forall|j: int|
            0 <= j < pairs.len() ==> rewards@[i] <= (#[trigger] pairs[j]).1,
{
    let n = pairs.len() as int;
    let (a, b) = (lemma_top(thresholds, i), lemma_top(thresholds, k));
    law_reward_is_weighted(
        transactions,
        receipts,
        base_fee,
        block_gas_used,
        percentiles,
        rewards,
        pairs,
        thresholds,
        i,
        a,
    );
    law_reward_is_weighted(
        transactions,
        receipts,
        base_fee,
        block_gas_used,
        percentiles,
        rewards,
        pairs,
        thresholds,
        k,
        b,
    );
    let (s, t) = (thresholds[a], thresholds[b]);
    assert(s <= t);
    let x = choose|j: int|
        {
            &&& 0 <= j < pairs.len()
            &&& rewards@[i] == (#[trigger] pairs[j]).1
            &&& gas_ahead(pairs, j, n) >= s || forall|k: int|
                0 <= k < pairs.len() && k != j ==> #[trigger] comes_before(pairs, k, j)
            &&& forall|k: int|
                0 <= k < pairs.len() && #[trigger] comes_before(pairs, k, j) ==> gas_ahead(
                    pairs,
                    k,
                    n,
                ) < s
        };
    let y = choose|j: int|
        {
            &&& 0 <= j < pairs.len()
            &&& rewards@[k] == (#[trigger] pairs[j]).1
            &&& gas_ahead(pairs, j, n) >= t || forall|k: int|
                0 <= k < pairs.len() && k != j ==> #[trigger] comes_before(pairs, k, j)
            &&& forall|k: int|
                0 <= k < pairs.len() && #[trigger] comes_before(pairs, k, j) ==> gas_ahead(
                    pairs,
                    k,
                    n,
                ) < t
        };
    assert(pairs[x].1 == rewards@[i]);
    if pairs[y].1 < pairs[x].1 {
        assert(comes_before(pairs, y, x));
        assert(gas_ahead(pairs, y, n) < s);
        assert(!comes_before(pairs, x, y));
    }
    if s == 0 {
        assert forall|j: int| 0 <= j < pairs.len() implies rewards@[i] <= (
        #[trigger] pairs[j]).1 by {
            if pairs[j].1 < pairs[x].1 {
                assert(comes_before(pairs, j, x));
            }
        }
    }
}

/// Without percentiles there are no rewards. A block without transactions has a reward of zero
/// for each percentile.
pub proof fn law_rewards_of_nothing(
    transactions: Vec<FeeTransaction>,
    receipts: Vec<Receipt>,
    base_fee: u64,
    block_gas_used: u64,
    percentiles: Vec<Double>,
    none: Vec<u128>,
    rewards: Vec<u128>,
)
    requires
        call_ensures(
            calculate_fee_history_rewards,
            (&transactions, &receipts, base_fee, block_gas_used, None),
            none,
        ),
        call_ensures(
            calculate_fee_history_rewards,
            (&transactions, &receipts, base_fee, block_gas_used, Some(&percentiles)),
            rewards,
        ),
    ensures
        none@.len() == 0,
        rewards@.len() == percentiles@.len(),
        transactions@.len() == 0 ==> forall|i: int|
            0 <= i < rewards@.len() ==> #[trigger] rewards@[i] == 0,
{
}

/// The gas of the first `n` receipts.
pub open spec fn gas_of(receipts: Seq<Receipt>, n: int) -> nat
    decreases n,
{
    if n <= 0 {
        0
    } else {
        gas_of(receipts, n - 1) + receipts[n - 1].gas_used as nat
    }
}

proof fn lemma_gas_of_pairs(
    transactions: Seq<FeeTransaction>,
    receipts: Seq<Receipt>,
    base_fee: u64,
    n: int,
)
    requires
        0 <= n <= transactions.len() <= receipts.len(),
    ensures
        gas_up_to(gas_and_rewards(transactions, receipts, base_fee), u128::MAX, n) == gas_of(
            receipts,
            n,
        ),
    decreases n,
{
    if n > 0 {
        lemma_gas_of_pairs(transactions, receipts, base_fee, n - 1);
    }
}

/// Rewards can be told, and are owed, where each transaction has a receipt and 128 bits hold the
/// gas of all of them; without transactions they always are.
pub proof fn law_rewards_owed(
    transactions: Vec<FeeTransaction>,
    receipts: Vec<Receipt>,
    base_fee: u64,
    block_gas_used: u64,
    percentiles: Vec<Double>,
    told: bool,
)
    requires
        transactions@.len() <= receipts@.len(),
        gas_of(receipts@, transactions@.len() as int) <= u128::MAX,
        call_ensures(
            rewards_can_be_told,
            (&transactions, &receipts, base_fee, block_gas_used, Some(&percentiles)),
            told,
        ),
    ensures
        told,
        call_requires(
            calculate_fee_history_rewards,
            (&transactions, &receipts, base_fee, block_gas_used, Some(&percentiles)),
        ),
        call_requires(
            calculate_fee_history_rewards,
            (&transactions, &receipts, base_fee, block_gas_used, None),
        ),
{
    let pairs = gas_and_rewards(transactions@, receipts@, base_fee);
    let n = pairs.len() as int;
    let sorted = sorted_by_tip(pairs);
    let thresholds = gas_thresholds(block_gas_used, percentiles@);
    law_sort_exists(pairs);
    lemma_gas_of_pairs(transactions@, receipts@, base_fee, n);
    lemma_sort_keeps_gas(pairs, u128::MAX);
    lemma_gas_up_to_prefix(sorted, u128::MAX, n);
    assert forall|i: int| 0 <= i < thresholds.len() implies reward_exists(
        sorted,
        transactions@.len(),
        #[trigger] thresholds[i],
    ) by {
        law_position_unique(sorted, thresholds[i]);
        lemma_gas_before_monotone(sorted, position(sorted, thresholds[i]), n);
    }
}

/// For percentages that are whole or have a short binary fraction, of amounts of gas that leave
/// room in the significand, the threshold is the exact percentage, rounded to the nearest integer
/// and up from the half: with the percentage `part` over two to the power of `bits`, the threshold
/// is the integer within one half of the gas times that over one hundred.
pub proof fn law_threshold_of_binary_percent(
    block_gas_used: u64,
    percentile: Double,
    threshold: u128,
    part: nat,
    bits: nat,
)
    requires
        call_ensures(gas_threshold, (block_gas_used, percentile), threshold),
        percentile.bits <= 0x4059_0000_0000_0000,
        percentile.magnitude() == part * pow2((1074 - bits) as nat),
        bits <= 30,
        block_gas_used < 0x20_0000_0000_0000,
        block_gas_used * part < 0x8_0000_0000_0000,
    ensures
        200 * pow2(bits) * threshold <= 2 * (block_gas_used * part) + 100 * pow2(bits),
        2 * (block_gas_used * part) + 100 * pow2(bits) < 200 * pow2(bits) * (threshold + 1),
{
    let g = block_gas_used as nat;
    let b = pow2(bits);
    let u = pow2((1074 - bits) as nat);
    let x = g * part;
    let n = x * u;
    percentile.lemma_up_to_hundred();
    lemma_pow2_pos(bits);
    lemma_pow2_pos((1074 - bits) as nat);
    lemma_pow2_pos(1074);
    lemma_pow2_adds(bits, (1074 - bits) as nat);
    lemma2_to64();
    lemma2_to64_rest();
    if bits < 30 {
        lemma_pow2_strictly_increases(bits, 30);
    }
    lemma_hundred();
    lemma_rounded_integer_scales(g, 1074);
    lemma_small_integer_exact(g);
    assert(product(g * one(), part * u) == n) by {
        assert((g * one()) * (part * u) == one() * n) by (nonlinear_arith)
            requires
                n == (g * part) * u,
        ;
        assert(one() * 1 == one());
        lemma_rounded_cancels(n, 1, one());
        lemma_rounded_integer_scales(x, (1074 - bits) as nat);
        lemma_small_integer_exact(x);
    }
    let steps = quotient(n, 100 * one());
    assert(steps == rounded(n, 100)) by {
        assert(n * one() == one() * n) by (nonlinear_arith);
        assert(one() * 100 == 100 * one());
        lemma_rounded_cancels(n, 100, one());
    }
    let k = (x + 50 * b) / (100 * b);
    lemma_fundamental_div_mod((x + 50 * b) as int, (100 * b) as int);
    let kb = k * b;
    assert(100 * kb <= x + 50 * b && x + 50 * b < 100 * kb + 100 * b) by (nonlinear_arith)
        requires
            x + 50 * b == (100 * b) * k + (x + 50 * b) % (100 * b),
            0 <= (x + 50 * b) % (100 * b) < 100 * b,
            kb == k * b,
    ;
    assert(kb < 0x8_0000_0000_0000);
    assert(k <= kb) by (nonlinear_arith)
        requires
            kb == k * b,
            b >= 1,
    ;
    // Below: at least k less one half.
    lemma_pow2_unfold(1074);
    let h = pow2(1073);
    if k > 0 {
        let m = (2 * k - 1) as nat;
        lemma_dyadic_exact(m, 1073);
        assert(m * h * 2 == (2 * kb - b) * u) by (nonlinear_arith)
            requires
                m == 2 * k - 1,
                2 * h == b * u,
                kb == k * b,
        ;
        assert(100 * (m * h) <= n) by (nonlinear_arith)
            requires
                m * h * 2 == (2 * kb - b) * u,
                n == x * u,
                100 * kb <= x + 50 * b,
                u > 0,
        ;
        lemma_rounded_monotone(100 * (m * h), n, 100);
    }
    // Above: short of k and one half by a step of which 128 make up one of the fraction's.
    let e = pow2((1067 - bits) as nat);
    lemma_pow2_adds(7, (1067 - bits) as nat);
    lemma_pow2_pos((1067 - bits) as nat);
    let m = (128 * kb + 64 * b - 1) as nat;
    assert(m < 0x20_0000_0000_0000) by {
        assert(100 * kb <= x + 50 * b);
    }
    lemma_dyadic_exact(m, (1067 - bits) as nat);
    assert(n <= 100 * (m * e)) by (nonlinear_arith)
        requires
            n == x * u,
            u == 128 * e,
            m == 128 * kb + 64 * b - 1,
            x + 1 + 50 * b <= 100 * kb + 100 * b,
            e > 0,
    ;
    lemma_rounded_monotone(n, 100 * (m * e), 100);
    assert(2 * (m * e) < (2 * k + 1) * one()) by (nonlinear_arith)
        requires
            m == 128 * kb + 64 * b - 1,
            kb == k * b,
            one() == b * u,
            u == 128 * e,
            e > 0,
    ;
    assert(to_integer(steps) == k) by {
        assert(2 * steps + one() >= k * (2 * one())) by (nonlinear_arith)
            requires
                one() == 2 * h,
                k > 0 ==> steps >= (2 * k - 1) * h,
                k >= 0,
                h >= 0,
                steps >= 0,
        ;
        assert(2 * steps + one() < (k + 1) * (2 * one())) by (nonlinear_arith)
            requires
                steps <= m * e,
                2 * (m * e) < (2 * k + 1) * one(),
        ;
        let r = 2 * steps + one() - k * (2 * one());
        assert((k + 1) * (2 * one()) == k * (2 * one()) + 2 * one()) by (nonlinear_arith);
        lemma_fundamental_div_mod_converse(
            (2 * steps + one()) as int,
            (2 * one()) as int,
            k as int,
            r,
        );
    }
    assert(threshold == k);
    assert(200 * b * k == 200 * kb && 200 * b * (k + 1) == 200 * kb + 200 * b) by (nonlinear_arith)
        requires
            kb == k * b,
    ;
}

} // verus!
