use monad_gas::error_ratio::within_error_ratio;
use monad_gas::estimation::{estimate_gas, EstimationAction, GasEstimation, Phase};
use monad_gas::types::{
    Address, CallResult, EthCallResult, FailureCallResult, JsonRpcError, Quantity,
    SuccessCallResult, Transaction, TxKind, U256,
};

const MAX: U256 = U256 {
    high: u128::MAX,
    low: u128::MAX,
};

struct MockGasEstimator {
    gas_used: u64,
    gas_refund: u64,
}

impl MockGasEstimator {
    fn eth_call(&self, gas_limit: u64) -> CallResult {
        if gas_limit >= self.gas_used + self.gas_refund {
            CallResult::Success(SuccessCallResult {
                gas_used: self.gas_used,
                gas_refund: self.gas_refund,
            })
        } else {
            failure(EthCallResult::OtherError)
        }
    }
}

fn failure(error_code: EthCallResult) -> CallResult {
    CallResult::Failure(FailureCallResult {
        error_code,
        message: "execution reverted".to_string(),
        data: Some("0x01".to_string()),
    })
}

fn transaction(gas: Option<U256>) -> Transaction {
    Transaction {
        gas_limit: match gas {
            Some(gas) => gas.low as u64,
            None => u64::MAX,
        },
        kind: TxKind::Call(Address { bytes: [7; 20] }),
        input: vec![],
    }
}

/// Runs an estimation and collects the gas limits that are executed.
fn run(
    provider: &MockGasEstimator,
    gas: Option<U256>,
    original_tx_gas: U256,
) -> (Result<Quantity, JsonRpcError>, Vec<u64>) {
    let mut estimation = estimate_gas(gas, original_tx_gas, u64::MAX, u64::MAX);
    let mut limit = 0;
    let mut executed = Vec::new();
    loop {
        let next = match estimation.action() {
            EstimationAction::Build(gas) => {
                let transaction = transaction(gas);
                limit = transaction.gas_limit;
                assert!(estimation.transaction_fits(limit));
                estimation.transaction_built(Ok(transaction))
            }
            EstimationAction::Execute => {
                executed.push(limit);
                let reply = provider.eth_call(limit);
                assert!(estimation.reply_fits(&reply));
                estimation.call_executed(reply)
            }
            EstimationAction::Finish(estimate) => return (Ok(estimate), executed),
        };
        estimation = match next {
            Ok(next) => next,
            Err(error) => return (Err(error), executed),
        };
    }
}

#[test]
fn test_gas_limit_too_low() {
    let provider = MockGasEstimator {
        gas_used: 50_000,
        gas_refund: 10_000,
    };
    let gas = U256::from_u64(30_000);
    let (result, _) = run(&provider, Some(gas), gas);
    assert!(result.is_err());
}

#[test]
fn test_gas_limit_unspecified() {
    let provider = MockGasEstimator {
        gas_used: 50_000,
        gas_refund: 10_000,
    };
    let (result, executed) = run(&provider, None, MAX);
    assert!(result.is_ok());
    assert_eq!(result.unwrap(), Quantity(60795));
    assert_eq!(executed, vec![u64::MAX, 63288, 56643, 59965, 61626, 60795]);
}

#[test]
fn test_gas_limit_sufficient() {
    let provider = MockGasEstimator {
        gas_used: 50_000,
        gas_refund: 10_000,
    };
    let gas = U256::from_u64(70_000);
    let (result, _) = run(&provider, Some(gas), gas);
    assert!(result.is_ok());
    assert_eq!(result.unwrap(), Quantity(60795));
}

#[test]
fn test_gas_limit_just_sufficient() {
    let provider = MockGasEstimator {
        gas_used: 50_000,
        gas_refund: 10_000,
    };
    let gas = U256::from_u64(60_000);
    let (result, executed) = run(&provider, Some(gas), gas);
    assert!(result.is_ok());
    assert_eq!(result.unwrap(), Quantity(60_000));
    assert_eq!(executed, vec![60_000, 54_999, 57_499, 58_749, 59_374]);
}

#[test]
fn failed_request_is_answered_with_its_own_error() {
    let gas = U256::from_u64(30_000);
    let provider = MockGasEstimator {
        gas_used: 50_000,
        gas_refund: 0,
    };
    let (result, executed) = run(&provider, Some(gas), gas);
    assert_eq!(
        result,
        Err(JsonRpcError::EthCall {
            message: "execution reverted".to_string(),
            data: Some("0x01".to_string()),
        })
    );
    assert_eq!(executed, vec![30_000]);
}

fn first_execution(provider: u64, protocol: u64, original: u64) -> GasEstimation {
    let gas = Some(U256::from_u64(100));
    estimate_gas(gas, U256::from_u64(original), provider, protocol)
        .transaction_built(Ok(transaction(gas)))
        .unwrap()
}

#[test]
fn out_of_gas_names_the_lower_limit() {
    let message = |provider: u64, protocol: u64, original: u64| {
        match first_execution(provider, protocol, original)
            .call_executed(failure(EthCallResult::OutOfGas))
        {
            Err(JsonRpcError::EthCall { message, data }) => {
                assert_eq!(data, Some("0x01".to_string()));
                message
            }
            other => panic!("{:?}", other),
        }
    };
    let provider = "provider-specified eth_estimateGas gas limit exceeded";
    assert_eq!(message(100, 200, 150), provider);
    assert_eq!(message(100, 200, 101), provider);
    assert_eq!(message(100, 200, 100), "out of gas");
    assert_eq!(message(200, 200, 250), "out of gas");
}

#[test]
fn unexpected_results_are_internal_errors() {
    assert_eq!(
        first_execution(1, 2, 3).call_executed(CallResult::Other),
        Err(JsonRpcError::Internal {
            message: "Unexpected CallResult type".to_string(),
        })
    );
    let probing = GasEstimation {
        phase: Phase::ExecuteProbe {
            lower: 100,
            upper: 200,
        },
        ..first_execution(1, 2, 3)
    };
    assert!(probing.call_executed(CallResult::Other).is_err());
}

#[test]
fn transactions_that_cannot_be_built_end_the_estimation() {
    let start = estimate_gas(None, MAX, 1, 2);
    assert_eq!(
        start.transaction_built(Err(JsonRpcError::InvalidParams)),
        Err(JsonRpcError::InvalidParams)
    );
}

#[test]
fn padded_gas_is_tried_after_the_request() {
    let used = CallResult::Success(SuccessCallResult {
        gas_used: 50_000,
        gas_refund: 10_000,
    });
    let next = first_execution(1, 2, 3).call_executed(used).unwrap();
    assert_eq!(
        next.action(),
        EstimationAction::Build(Some(U256::from_u64(63_288)))
    );
    // A padded transaction below the request's limit that fails raises the lower bound.
    let search = next.in_phase_for_test(Phase::ExecutePadded {
        gas_limit: 100_000,
        padded_limit: 63_288,
    });
    let search = search
        .call_executed(failure(EthCallResult::OutOfGas))
        .unwrap();
    assert_eq!(
        search.phase,
        Phase::BuildProbe {
            lower: 63_288,
            upper: 100_000
        }
    );
    assert_eq!(
        search.action(),
        EstimationAction::Build(Some(U256::from_u64(81_644)))
    );
}

trait InPhase {
    fn in_phase_for_test(self, phase: Phase) -> GasEstimation;
}

impl InPhase for GasEstimation {
    fn in_phase_for_test(self, phase: Phase) -> GasEstimation {
        GasEstimation { phase, ..self }
    }
}

#[test]
fn replies_out_of_range_are_told_apart() {
    let first = first_execution(1, 2, 3);
    let used = |gas_used: u64, gas_refund: u64| {
        CallResult::Success(SuccessCallResult {
            gas_used,
            gas_refund,
        })
    };
    let most = u64::MAX / 64 - 2_300;
    assert!(first.reply_fits(&used(most, 0)));
    assert!(!first.reply_fits(&used(most, 1)));
    assert!(!first.reply_fits(&used(u64::MAX, u64::MAX)));
    let padded = first.in_phase_for_test(Phase::ExecutePadded {
        gas_limit: 100,
        padded_limit: 50,
    });
    assert!(!padded.reply_fits(&used(0, 0)));
    assert!(padded.reply_fits(&used(1, 0)));
    assert!(padded.reply_fits(&used(51, 0)));
    assert!(!padded.reply_fits(&used(52, 0)));
    let wide = first.in_phase_for_test(Phase::ExecutePadded {
        gas_limit: u64::MAX,
        padded_limit: 50,
    });
    assert!(!wide.reply_fits(&failure(EthCallResult::OutOfGas)));
    let build = first.in_phase_for_test(Phase::BuildPadded {
        gas_limit: 100,
        gas_used: 0,
        padded: 50,
    });
    assert!(build.transaction_fits(99));
    assert!(!build.transaction_fits(100));
}

#[test]
fn estimates_lie_close_above_the_threshold() {
    let mut threshold = 21_000u64;
    while threshold < 40_000_000 {
        let refund = threshold / 7;
        let provider = MockGasEstimator {
            gas_used: threshold - refund,
            gas_refund: refund,
        };
        let gas = U256::from_u64(50_000_000);
        let (result, executed) = run(&provider, Some(gas), gas);
        let estimate = result.unwrap().0;
        assert!(executed.contains(&estimate));
        assert!(estimate >= threshold && estimate <= 50_000_000);
        assert!((estimate - threshold) * 1000 < estimate * 15);
        assert!(executed.len() <= 66);
        threshold = threshold * 5 / 4 + 13;
    }
}

#[test]
fn error_ratio_is_that_of_doubles() {
    let doubles = |lower: u64, upper: u64| (upper - lower) as f64 / (upper as f64) < 0.015;
    let mut seed = 0x9e37_79b9_7f4a_7c15u64;
    let mut close = 0;
    for i in 0..200_000u64 {
        seed = seed.wrapping_mul(6364136223846793005).wrapping_add(1442695040888963407);
        let upper = (seed >> (i % 63)).max(1);
        // Around the ratio, at it and off it by a little.
        let gap = (upper as u128 * 15 / 1000) as u64;
        for gap in [gap.saturating_sub(1), gap, gap + 1, gap + 2, seed % (upper - upper / 2)] {
            if gap <= upper {
                let lower = upper - gap;
                assert_eq!(within_error_ratio(lower, upper), doubles(lower, upper));
                close += doubles(lower, upper) as u32;
            }
        }
    }
    assert!(close > 1000);
    // Exactly fifteen parts in a thousand are not below the ratio.
    assert!(!within_error_ratio(985, 1000));
    assert!(within_error_ratio(986, 1000));
    assert!(!within_error_ratio(0, u64::MAX));
    assert!(within_error_ratio(u64::MAX, u64::MAX));
}
