use monad_gas::binary64::round_quotient;
use monad_gas::double::{ratio, Double};
use monad_gas::percentile::gas_threshold;
use monad_gas::rewards::{
    calculate_fee_history_rewards, rewards_can_be_told, FeeTransaction, Receipt,
};

fn percentile(p: f64) -> Double {
    Double { bits: p.to_bits() }
}

fn percentiles(list: &[f64]) -> Vec<Double> {
    list.iter().map(|p| percentile(*p)).collect()
}

fn legacy(gas_price: u128) -> FeeTransaction {
    FeeTransaction {
        max_fee_per_gas: gas_price,
        max_priority_fee_per_gas: None,
    }
}

fn receipts(gas: &[u128]) -> Vec<Receipt> {
    gas.iter().map(|gas_used| Receipt { gas_used: *gas_used }).collect()
}

#[test]
fn tips_are_capped_by_the_priority_fee() {
    let dynamic = |max: u128, priority: u128| FeeTransaction {
        max_fee_per_gas: max,
        max_priority_fee_per_gas: Some(priority),
    };
    assert_eq!(dynamic(1_500, 200).effective_tip_per_gas(1_000), Some(200));
    assert_eq!(dynamic(1_100, 200).effective_tip_per_gas(1_000), Some(100));
    assert_eq!(dynamic(1_000, 200).effective_tip_per_gas(1_000), Some(0));
    assert_eq!(dynamic(999, 200).effective_tip_per_gas(1_000), None);
    assert_eq!(legacy(1_500).effective_tip_per_gas(1_000), Some(500));
    assert_eq!(legacy(999).effective_tip_per_gas(1_000), None);
}

#[test]
fn rewards_are_tips_in_ascending_order_weighted_by_gas() {
    let transactions = vec![legacy(1_030), legacy(1_010), legacy(1_020), legacy(900)];
    let receipts = receipts(&[10, 50, 40, 0]);
    let told = percentiles(&[0.0, 1.0, 50.0, 51.0, 90.0, 91.0, 100.0]);
    // Tips 0, 10, 20 and 30 with gas 0, 50, 40 and 10, which reach 0, 50, 90 and 100.
    assert_eq!(
        calculate_fee_history_rewards(&transactions, &receipts, 1_000, 100, Some(&told)),
        vec![0, 20, 20, 30, 30, 30, 30]
    );
}

#[test]
fn rewards_of_ascending_percentiles_never_descend() {
    let transactions = vec![legacy(5), legacy(1)];
    let gas = receipts(&[100, 200]);
    let told = percentiles(&[0.0, 100.0]);
    assert_eq!(
        calculate_fee_history_rewards(&transactions, &gas, 0, 300, Some(&told)),
        vec![1, 5]
    );
    let transactions = vec![legacy(5), legacy(9), legacy(7), legacy(1)];
    let gas = receipts(&[10, 10, 10, 10]);
    let told = percentiles(&[0.0, 25.0, 50.0, 75.0, 100.0]);
    assert_eq!(
        calculate_fee_history_rewards(&transactions, &gas, 0, 40, Some(&told)),
        vec![1, 5, 7, 9, 9]
    );
}

#[test]
fn equal_tips_keep_the_order_of_the_block() {
    let transactions = vec![legacy(9), legacy(5), legacy(5)];
    let gas = receipts(&[60, 10, 30]);
    let told = percentiles(&[0.0, 10.0, 11.0, 40.0, 41.0]);
    // Gas 10, 30 and 60 in that order, which reach 10, 40 and 100.
    let rewards = |gas: &Vec<Receipt>| {
        calculate_fee_history_rewards(&transactions, gas, 0, 100, Some(&told))
    };
    assert_eq!(rewards(&gas), vec![5, 5, 9, 9, 9]);
    // Gas 30, 10 and 60, which reach 30, 40 and 100.
    assert_eq!(rewards(&receipts(&[60, 30, 10])), vec![5, 5, 5, 9, 9]);
}

#[test]
fn no_percentiles_no_rewards() {
    let transactions = vec![legacy(5)];
    let receipts = receipts(&[10]);
    assert!(calculate_fee_history_rewards(&transactions, &receipts, 0, 10, None).is_empty());
}

#[test]
fn empty_blocks_reward_nothing() {
    let told = percentiles(&[10.0, 90.0]);
    assert_eq!(
        calculate_fee_history_rewards(&vec![], &vec![], 0, 0, Some(&told)),
        vec![0, 0]
    );
}

#[test]
fn a_lower_threshold_does_not_go_back() {
    let transactions = vec![legacy(1), legacy(2), legacy(3)];
    let receipts = receipts(&[10, 20, 30]);
    let told = percentiles(&[50.0, 0.0]);
    assert_eq!(
        calculate_fee_history_rewards(&transactions, &receipts, 0, 60, Some(&told)),
        vec![3, 3]
    );
}

#[test]
fn missing_receipts_and_too_much_gas_are_told_apart() {
    let transactions = vec![legacy(1), legacy(2)];
    let none = percentiles(&[0.0]);
    let half = percentiles(&[50.0]);
    let tell = |gas: &[u128], told: &Vec<Double>| {
        rewards_can_be_told(&transactions, &receipts(gas), 0, 100, Some(told))
    };
    assert!(tell(&[50, 50], &half));
    assert!(tell(&[50], &none));
    assert!(!tell(&[50], &half));
    assert!(!tell(&[], &none));
    assert!(tell(&[1, u128::MAX - 1], &half));
    assert!(!tell(&[1, u128::MAX], &half));
    assert!(tell(&[1, u128::MAX], &none));
    assert!(rewards_can_be_told(&transactions, &vec![], 0, 100, None));
}

fn float_threshold(gas: u64, pct: f64) -> u128 {
    (gas as f64 * pct / 100.0).round() as u128
}

#[test]
fn thresholds_are_those_of_doubles() {
    let mut seed = 0x2545_f491_4f6c_dd1du64;
    let mut next = || {
        seed = seed.wrapping_mul(6364136223846793005).wrapping_add(1442695040888963407);
        seed ^ (seed >> 29)
    };
    for i in 0..200_000u64 {
        let gas = next() >> (i % 64);
        let pct = (next() % 100_001) as f64 / 1000.0;
        assert_eq!(gas_threshold(gas, percentile(pct)), float_threshold(gas, pct));
        // Any bits at all.
        let any = f64::from_bits(next());
        assert_eq!(gas_threshold(gas, percentile(any)), float_threshold(gas, any));
        // Ratios near one, where rounding matters most.
        let near = f64::from_bits(0x3fe0_0000_0000_0000 + (next() >> 8));
        assert_eq!(gas_threshold(gas, percentile(near)), float_threshold(gas, near));
    }
    let edges = [
        0.0,
        -0.0,
        100.0,
        -1.0,
        1e-320,
        5e-324,
        f64::MIN_POSITIVE,
        f64::MAX,
        f64::INFINITY,
        f64::NEG_INFINITY,
        f64::NAN,
        1e40,
        0.5,
        12.5,
    ];
    for pct in edges {
        for gas in [0, 1, 4, 100, 84_000, 1 << 53, (1 << 53) + 1, u64::MAX - 1, u64::MAX] {
            assert_eq!(gas_threshold(gas, percentile(pct)), float_threshold(gas, pct));
        }
    }
    assert_eq!(gas_threshold(84_000, percentile(50.0)), 42_000);
    assert_eq!(gas_threshold(84_000, percentile(75.0)), 63_000);
    assert_eq!(gas_threshold(1, percentile(50.0)), 1);
    assert_eq!(gas_threshold(1, percentile(49.0)), 0);
}

#[test]
fn percentiles_compare_as_doubles_do() {
    let values = [
        0.0,
        -0.0,
        1.0,
        -1.0,
        5e-324,
        -5e-324,
        99.99999999999999,
        100.0,
        100.00000000000001,
        -100.0,
        f64::INFINITY,
        f64::NEG_INFINITY,
        f64::NAN,
        -f64::NAN,
    ];
    for a in values {
        assert_eq!(percentile(a).below_zero(), a < 0.0);
        assert_eq!(percentile(a).above_hundred(), a > 100.0);
        assert_eq!(percentile(a).is_nan(), a.is_nan());
        for b in values {
            assert_eq!(percentile(a).at_most(percentile(b)), a <= b);
        }
    }
}

#[test]
fn integers_round_to_the_nearest_double() {
    let mut x = 1u64;
    for i in 0..100_000u64 {
        x = x.wrapping_mul(6364136223846793005).wrapping_add(1442695040888963407);
        let n = x >> (i % 60);
        assert_eq!(round_quotient(n as u128, 1), n as f64 as u128);
    }
    assert_eq!(round_quotient((1 << 53) + 1, 1), 1 << 53);
    assert_eq!(round_quotient((1 << 53) + 3, 1), (1 << 53) + 4);
    assert_eq!(round_quotient(5, 2), 2);
    assert_eq!(round_quotient(7, 2), 4);
}

#[test]
fn ratios_are_those_of_doubles() {
    let same = |n: u64, d: u64| {
        let quotient = f64::from_bits(ratio(n, d).bits);
        let expected = n as f64 / d as f64;
        assert!(quotient.to_bits() == expected.to_bits() || (quotient.is_nan() && expected.is_nan()));
    };
    let mut seed = 0x1234_5678_9abc_def1u64;
    for i in 0..200_000u64 {
        seed = seed.wrapping_mul(6364136223846793005).wrapping_add(1442695040888963407);
        let n = seed >> (i % 61);
        seed = seed.wrapping_mul(6364136223846793005).wrapping_add(1442695040888963407);
        let d = seed >> (i % 59);
        same(n, d);
    }
    for n in [0, 1, 2, 3, (1 << 53) - 1, 1 << 53, (1 << 53) + 1, u64::MAX - 1, u64::MAX] {
        for d in [0, 1, 2, 3, (1 << 53) - 1, 1 << 53, (1 << 53) + 1, u64::MAX - 1, u64::MAX] {
            same(n, d);
        }
    }
    assert_eq!(f64::from_bits(ratio(84_000, 30_000_000).bits), 0.0028);
}
