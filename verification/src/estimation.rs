//! The search for the lowest gas limit at which a transaction succeeds.
//!
//! The search asks for transactions to be built and executed, and is told the outcomes.
use vstd::prelude::*;

use crate::error_ratio::{gap_below_ratio, within_error_ratio};
use crate::types::{
    CallResult, EthCallResult, FailureCallResult, JsonRpcError, JsonRpcResult, Quantity,
    SuccessCallResult, Transaction, U256,
};

verus! {

/// Additional gas added during a CALL.
pub const CALL_STIPEND: u64 = 2_300;

/// Where a gas estimation stands, and what it waits for.
#[derive(Clone, Copy, Debug, PartialEq, Eq, Structural)]
pub enum Phase {
    /// The transaction of the request as it came is to be built.
    BuildRequest,
    /// That transaction is to be executed.
    ExecuteRequest { gas_limit: u64 },
    /// It used `gas_used`; the transaction with `padded` gas is to be built.
    BuildPadded { gas_limit: u64, gas_used: u64, padded: u64 },
    /// The padded transaction is to be executed.
    ExecutePadded { gas_limit: u64, padded_limit: u64 },
    /// The transaction with the gas halfway between the bounds is to be built.
    BuildProbe { lower: u64, upper: u64 },
    /// That transaction is to be executed.
    ExecuteProbe { lower: u64, upper: u64 },
    /// The estimate is found.
    Done { estimate: u64 },
}

/// What is to be done next for a gas estimation.
#[derive(Clone, Copy, Debug, PartialEq, Eq, Structural)]
pub enum EstimationAction {
    /// Build the transaction of the request with this gas.
    Build(Option<U256>),
    /// Execute the transaction that was built last.
    Execute,
    /// Answer with the estimate.
    Finish(Quantity),
}

/// A gas estimation under way.
#[derive(Clone, Copy, Debug, PartialEq, Eq, Structural)]
pub struct GasEstimation {
    pub request_gas: Option<U256>,
    pub original_tx_gas: U256,
    pub provider_gas_limit: u64,
    pub protocol_gas_limit: u64,
    pub phase: Phase,
}

/// The gas with which a transaction that used `gas_used` is tried again: what it used, what it
/// was refunded and the call stipend, enlarged since a call passes on at most 63 parts in 64.
pub open spec fn padded_gas(gas_used: u64, gas_refund: u64) -> int {
    (gas_used + gas_refund + CALL_STIPEND) * 64 / 63
}

/// Whether the search goes on between the bounds.
pub open spec fn undecided(lower: u64, upper: u64) -> bool {
    upper - lower > 1 && !gap_below_ratio(lower, upper)
}

/// The gas halfway between the bounds.
pub open spec fn midpoint(lower: u64, upper: u64) -> u64 {
    ((lower + upper) / 2) as u64
}

/// The phase in which the search stands at the given bounds.
pub open spec fn search(lower: u64, upper: u64) -> Phase {
    if undecided(lower, upper) {
        Phase::BuildProbe { lower, upper }
    } else {
        Phase::Done { estimate: upper }
    }
}

/// Whether the bounds are in order and 64 bits hold the sum that the search needs of them.
pub open spec fn search_fits(lower: int, upper: u64) -> bool {
    &&& 0 <= lower <= upper
    &&& undecided(lower as u64, upper) ==> lower + upper <= u64::MAX
}

impl GasEstimation {
    /// The same estimation in another phase.
    pub open spec fn in_phase(self, phase: Phase) -> GasEstimation {
        GasEstimation { phase, ..self }
    }

    /// The bounds of a search under way are in order, and 64 bits hold their sum.
    pub open spec fn wf(self) -> bool {
        match self.phase {
            Phase::ExecutePadded { gas_limit, padded_limit } => padded_limit < gas_limit,
            Phase::BuildProbe { lower, upper } => undecided(lower, upper) && lower + upper
                <= u64::MAX,
            Phase::ExecuteProbe { lower, upper } => undecided(lower, upper) && lower + upper
                <= u64::MAX,
            _ => true,
        }
    }

    /// Whether a transaction is to be built.
    pub open spec fn awaits_transaction(self) -> bool {
        self.phase is BuildRequest || self.phase is BuildPadded || self.phase is BuildProbe
    }

    /// Whether a transaction is to be executed.
    pub open spec fn awaits_call(self) -> bool {
        self.phase is ExecuteRequest || self.phase is ExecutePadded || self.phase is ExecuteProbe
    }

    /// What is to be done next.
    pub open spec fn action_spec(self) -> EstimationAction {
        match self.phase {
            Phase::BuildRequest => EstimationAction::Build(self.request_gas),
            Phase::BuildPadded { padded, .. } => EstimationAction::Build(Some(U256::of(padded))),
            Phase::BuildProbe { lower, upper } => EstimationAction::Build(
                Some(U256::of(midpoint(lower, upper))),
            ),
            Phase::Done { estimate } => EstimationAction::Finish(Quantity(estimate)),
            _ => EstimationAction::Execute,
        }
    }

    /// The phase after a transaction with the given gas limit was built.
    pub open spec fn built(self, limit: u64) -> Phase {
        match self.phase {
            Phase::BuildRequest => Phase::ExecuteRequest { gas_limit: limit },
            Phase::BuildPadded { gas_limit, gas_used, padded } => if limit < gas_limit {
                Phase::ExecutePadded { gas_limit, padded_limit: limit }
            } else {
                search((gas_used - 1) as u64, gas_limit)
            },
            Phase::BuildProbe { lower, upper } => Phase::ExecuteProbe { lower, upper },
            other => other,
        }
    }

    /// Whether 64 bits hold what follows from a transaction with the given gas limit.
    pub open spec fn built_fits(self, limit: u64) -> bool {
        self.phase matches Phase::BuildPadded { gas_limit, gas_used, padded } ==> limit
            >= gas_limit ==> search_fits(gas_used - 1, gas_limit)
    }

    /// The phase after an execution that succeeded.
    pub open spec fn succeeded(self, result: SuccessCallResult) -> Phase {
        match self.phase {
            Phase::ExecuteRequest { gas_limit } => Phase::BuildPadded {
                gas_limit,
                gas_used: result.gas_used,
                padded: padded_gas(result.gas_used, result.gas_refund) as u64,
            },
            Phase::ExecutePadded { gas_limit, padded_limit } => search(
                (result.gas_used - 1) as u64,
                padded_limit,
            ),
            Phase::ExecuteProbe { lower, upper } => search(lower, midpoint(lower, upper)),
            other => other,
        }
    }

    /// Whether 64 bits hold what follows from an execution that succeeded.
    pub open spec fn succeeded_fits(self, result: SuccessCallResult) -> bool {
        match self.phase {
            Phase::ExecuteRequest { gas_limit } => (result.gas_used + result.gas_refund
                + CALL_STIPEND) * 64 <= u64::MAX,
            Phase::ExecutePadded { gas_limit, padded_limit } => search_fits(
                result.gas_used - 1,
                padded_limit,
            ),
            _ => true,
        }
    }

    /// The phase after an execution that failed, which ends no search.
    pub open spec fn failed(self) -> Phase {
        match self.phase {
            Phase::ExecutePadded { gas_limit, padded_limit } => search(padded_limit, gas_limit),
            Phase::ExecuteProbe { lower, upper } => search(midpoint(lower, upper), upper),
            other => other,
        }
    }

    /// Whether 64 bits hold what follows from an execution that failed.
    pub open spec fn failed_fits(self) -> bool {
        match self.phase {
            Phase::ExecutePadded { gas_limit, padded_limit } => search_fits(
                padded_limit as int,
                gas_limit,
            ),
            Phase::ExecuteProbe { lower, upper } => search_fits(
                midpoint(lower, upper) as int,
                upper,
            ),
            _ => true,
        }
    }

    /// Whether 64 bits hold what follows from an execution.
    pub open spec fn call_fits(self, reply: CallResult) -> bool {
        match reply {
            CallResult::Success(result) => self.succeeded_fits(result),
            CallResult::Failure(_) => self.failed_fits(),
            CallResult::Other => true,
        }
    }

    /// Whether the limit of the provider, and not that of the request, ran out of gas.
    pub open spec fn provider_limited(self) -> bool {
        &&& self.provider_gas_limit < self.protocol_gas_limit
        &&& self.provider_gas_limit < self.original_tx_gas.value()
    }

    /// What is to be done next.
    pub fn action(&self) -> (action: EstimationAction)
        requires
            self.wf(),
        ensures
            action == self.action_spec(),
            self.awaits_transaction() <==> action is Build,
            self.awaits_call() <==> action is Execute,
            self.phase matches Phase::BuildProbe { lower, upper } ==> (
            action matches EstimationAction::Build(Some(gas)) && gas.high == 0 && lower < gas.low
                < upper && gas.low - lower <= upper - gas.low <= gas.low - lower + 1),
            self.phase matches Phase::Done { estimate } ==> action == EstimationAction::Finish(
                Quantity(estimate),
            ),
    {
        match self.phase {
            Phase::BuildRequest => EstimationAction::Build(self.request_gas),
            Phase::BuildPadded { padded, .. } => EstimationAction::Build(
                Some(U256::from_u64(padded)),
            ),
            Phase::BuildProbe { lower, upper } => {
                let mid: u64 = (upper + lower) / 2;
                EstimationAction::Build(Some(U256::from_u64(mid)))
            },
            Phase::Done { estimate } => EstimationAction::Finish(Quantity(estimate)),
            _ => EstimationAction::Execute,
        }
    }

    /// Whether 64 bits hold what follows from a transaction with the given gas limit.
    pub fn transaction_fits(&self, limit: u64) -> (fits: bool)
        ensures
            fits == self.built_fits(limit),
    {
        match self.phase {
            Phase::BuildPadded { gas_limit, gas_used, .. } => limit < gas_limit || (gas_used >= 1
                && bounds_fit(gas_used - 1, gas_limit)),
            _ => true,
        }
    }

    /// Whether 64 bits hold what follows from an execution.
    pub fn reply_fits(&self, reply: &CallResult) -> (fits: bool)
        requires
            self.wf(),
        ensures
            fits == self.call_fits(*reply),
    {
        match reply {
            CallResult::Success(result) => match self.phase {
                Phase::ExecuteRequest { .. } => {
                    let gas: u128 = result.gas_used as u128 + result.gas_refund as u128
                        + CALL_STIPEND as u128;
                    gas * 64 <= u64::MAX as u128
                },
                Phase::ExecutePadded { padded_limit, .. } => result.gas_used >= 1 && bounds_fit(
                    result.gas_used - 1,
                    padded_limit,
                ),
                _ => true,
            },
            CallResult::Failure(_) => match self.phase {
                Phase::ExecutePadded { gas_limit, padded_limit } => bounds_fit(
                    padded_limit,
                    gas_limit,
                ),
                Phase::ExecuteProbe { lower, upper } => bounds_fit((upper + lower) / 2, upper),
                _ => true,
            },
            CallResult::Other => true,
        }
    }

    /// Goes on with the transaction that was asked for, or with the error that building it met.
    pub fn transaction_built(self, reply: JsonRpcResult<Transaction>) -> (next: JsonRpcResult<
        GasEstimation,
    >)
        requires
            self.wf(),
            self.awaits_transaction(),
            reply matches Ok(transaction) ==> self.built_fits(transaction.gas_limit),
        ensures
            match reply {
                Ok(transaction) => next == JsonRpcResult::Ok(
                    self.in_phase(self.built(transaction.gas_limit)),
                ),
                Err(error) => next == JsonRpcResult::<GasEstimation>::Err(error),
            },
            next matches Ok(estimation) ==> estimation.wf(),
    {
        let limit: u64 = match reply {
            Ok(transaction) => transaction.gas_limit,
            Err(error) => return Err(error),
        };
        let phase = match self.phase {
            Phase::BuildRequest => Phase::ExecuteRequest { gas_limit: limit },
            Phase::BuildPadded { gas_limit, gas_used, .. } => if limit < gas_limit {
                Phase::ExecutePadded { gas_limit, padded_limit: limit }
            } else {
                start_search(gas_used - 1, gas_limit)
            },
            Phase::BuildProbe { lower, upper } => Phase::ExecuteProbe { lower, upper },
            other => other,
        };
        Ok(GasEstimation { phase, ..self })
    }

    /// Goes on with the outcome of the execution that was asked for.
    ///
    /// Where the request itself fails, that is the answer: running out of gas is put down to the
    /// provider's limit where that is the lower one. A later failure only raises the lower bound.
    pub fn call_executed(self, reply: CallResult) -> (next: JsonRpcResult<GasEstimation>)
        requires
            self.wf(),
            self.awaits_call(),
            self.call_fits(reply),
        ensures
            match reply {
                CallResult::Success(result) => next == JsonRpcResult::Ok(
                    self.in_phase(self.succeeded(result)),
                ),
                CallResult::Failure(failure) => if !(self.phase is ExecuteRequest) {
                    next == JsonRpcResult::Ok(self.in_phase(self.failed()))
                } else if failure.error_code is OutOfGas {
                    next matches Err(error) && error.is_eth_call_error(
                        if self.provider_limited() {
                            "provider-specified eth_estimateGas gas limit exceeded"@
                        } else {
                            "out of gas"@
                        },
                        failure.data,
                    )
                } else {
                    next matches Err(error) && error.is_eth_call_error(
                        failure.message@,
                        failure.data,
                    )
                },
                CallResult::Other => next matches Err(error) && error.is_internal_error(
                    "Unexpected CallResult type"@,
                ),
            },
            next matches Ok(estimation) ==> estimation.wf(),
    {
        let phase = match reply {
            CallResult::Success(result) => match self.phase {
                Phase::ExecuteRequest { gas_limit } => {
                    let padded: u64 = (result.gas_used + result.gas_refund + CALL_STIPEND) * 64
                        / 63;
                    Phase::BuildPadded { gas_limit, gas_used: result.gas_used, padded }
                },
                Phase::ExecutePadded { padded_limit, .. } => start_search(
                    result.gas_used - 1,
                    padded_limit,
                ),
                Phase::ExecuteProbe { lower, upper } => start_search(lower, (upper + lower) / 2),
                other => other,
            },
            CallResult::Failure(failure) => match self.phase {
                Phase::ExecutePadded { gas_limit, padded_limit } => start_search(
                    padded_limit,
                    gas_limit,
                ),
                Phase::ExecuteProbe { lower, upper } => start_search((upper + lower) / 2, upper),
                _ => return Err(self.request_failed(failure)),
            },
            CallResult::Other => {
                return Err(JsonRpcError::internal_error("Unexpected CallResult type"));
            },
        };
        Ok(GasEstimation { phase, ..self })
    }

    /// The error that answers a request whose first execution failed.
    fn request_failed(&self, failure: FailureCallResult) -> (error: JsonRpcError)
        ensures
            error.is_eth_call_error(
                if failure.error_code is OutOfGas {
                    if self.provider_limited() {
                        "provider-specified eth_estimateGas gas limit exceeded"@
                    } else {
                        "out of gas"@
                    }
                } else {
                    failure.message@
                },
                failure.data,
            ),
    {
        match failure.error_code {
            EthCallResult::OutOfGas => {
                if self.provider_gas_limit < self.protocol_gas_limit && U256::from_u64(
                    self.provider_gas_limit,
                ).less_than(self.original_tx_gas) {
                    return JsonRpcError::eth_call_error(
                        "provider-specified eth_estimateGas gas limit exceeded",
                        failure.data,
                    );
                }
                JsonRpcError::eth_call_error("out of gas", failure.data)
            },
            EthCallResult::OtherError => JsonRpcError::EthCall {
                message: failure.message,
                data: failure.data,
            },
        }
    }
}

/// Whether the bounds are in order and 64 bits hold the sum that the search needs of them.
fn bounds_fit(lower: u64, upper: u64) -> (fits: bool)
    ensures
        fits == search_fits(lower as int, upper),
{
    lower <= upper && (upper - lower <= 1 || lower <= u64::MAX - upper || within_error_ratio(
        lower,
        upper,
    ))
}

/// The phase in which the search stands at the given bounds.
fn start_search(lower: u64, upper: u64) -> (phase: Phase)
    requires
        lower <= upper,
    ensures
        phase == search(lower, upper),
{
    if upper - lower > 1 && !within_error_ratio(lower, upper) {
        Phase::BuildProbe { lower, upper }
    } else {
        Phase::Done { estimate: upper }
    }
}

/// Starts the estimation for a request with the given gas, which stood at `original_tx_gas`
/// before the limits of the provider and the protocol were applied.
pub fn estimate_gas(
    request_gas: Option<U256>,
    original_tx_gas: U256,
    provider_gas_limit: u64,
    protocol_gas_limit: u64,
) -> (estimation: GasEstimation)
    ensures
        estimation == (GasEstimation {
            request_gas,
            original_tx_gas,
            provider_gas_limit,
            protocol_gas_limit,
            phase: Phase::BuildRequest,
        }),
        estimation.wf(),
{
    GasEstimation {
        request_gas,
        original_tx_gas,
        provider_gas_limit,
        protocol_gas_limit,
        phase: Phase::BuildRequest,
    }
}

} // verus!
