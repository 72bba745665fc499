//! What holds of every gas estimation, told by the transactions that are built and executed for
//! it and by the answer that it ends with.
use vstd::prelude::*;

use crate::error_ratio::{
    gap_below_ratio, law_error_ratio, law_error_ratio_of_all, lemma_gap_in_integers,
};
use crate::estimation::{estimate_gas, undecided, EstimationAction, GasEstimation, Phase};
use crate::estimation_laws::{
    after_all, executing, has_threshold, is_run, law_estimate_close, law_estimate_within_request,
    law_estimation_ends, law_replies_fit, Reply,
};
use crate::types::{
    CallResult, JsonRpcError, JsonRpcResult, Quantity, SuccessCallResult, Transaction, U256,
};

verus! {

/// What is done for an estimation at its asking.
pub enum Event {
    /// A transaction was asked for with this gas and was built.
    Built { gas: Option<U256>, transaction: Transaction },
    /// The transaction that was built last was executed, with this outcome.
    Executed(CallResult),
}

/// Whether an estimation asks for what is done, and goes on with it. A transaction that is asked
/// for with some gas has that gas as its limit.
pub open spec fn goes_on(before: GasEstimation, event: Event, after: GasEstimation) -> bool {
    match event {
        Event::Built { gas, transaction } => {
            &&& call_ensures(GasEstimation::action, (&before,), EstimationAction::Build(gas))
            &&& gas matches Some(asked) ==> asked.high == 0 && asked.low == transaction.gas_limit
            &&& call_ensures(
                GasEstimation::transaction_fits,
                (&before, transaction.gas_limit),
                true,
            )
            &&& call_ensures(
                GasEstimation::transaction_built,
                (before, JsonRpcResult::Ok(transaction)),
                JsonRpcResult::Ok(after),
            )
        },
        Event::Executed(outcome) => {
            &&& call_ensures(GasEstimation::action, (&before,), EstimationAction::Execute)
            &&& call_ensures(GasEstimation::reply_fits, (&before, &outcome), true)
            &&& call_ensures(
                GasEstimation::call_executed,
                (before, outcome),
                JsonRpcResult::Ok(after),
            )
        },
    }
}

/// Whether an estimation goes through the given states as the events come.
pub open spec fn is_trace(states: Seq<GasEstimation>, events: Seq<Event>) -> bool {
    &&& states.len() == events.len() + 1
    &&& exists|gas: Option<U256>, original: U256, provider: u64, protocol: u64| #[trigger]
        call_ensures(estimate_gas, (gas, original, provider, protocol), states[0])
    &&& forall|i: int|
        #![trigger events[i]]
        0 <= i < events.len() ==> goes_on(states[i], events[i], states[i + 1])
}

/// The gas limit of the last transaction that was built among the first `n` events.
pub open spec fn last_built(events: Seq<Event>, n: int) -> u64
    decreases n,
{
    if n <= 0 {
        0
    } else {
        match events[n - 1] {
            Event::Built { gas, transaction } => transaction.gas_limit,
            Event::Executed(_) => last_built(events, n - 1),
        }
    }
}

/// Whether the event at the given place is the execution of a transaction with this gas limit,
/// and it succeeded.
pub open spec fn success(events: Seq<Event>, i: int, limit: u64) -> bool {
    &&& 0 <= i < events.len()
    &&& events[i] matches Event::Executed(CallResult::Success(_))
    &&& last_built(events, i) == limit
}

/// Whether the event at the given place is the execution of a transaction with this gas limit,
/// and it failed.
pub open spec fn failure(events: Seq<Event>, i: int, limit: u64) -> bool {
    &&& 0 <= i < events.len()
    &&& events[i] matches Event::Executed(CallResult::Failure(_))
    &&& last_built(events, i) == limit
}

/// Whether an execution shows that the given gas limit is too low: it failed with that limit, or
/// succeeded having used more gas.
pub open spec fn shown_low(events: Seq<Event>, i: int, limit: u64) -> bool {
    ||| failure(events, i, limit)
    ||| {
        &&& 0 <= i < events.len()
        &&& events[i] matches Event::Executed(CallResult::Success(result))
        &&& result.gas_used == limit + 1
    }
}

spec fn reply_of(event: Event) -> Reply {
    match event {
        Event::Built { gas, transaction } => Reply::Built(transaction.gas_limit),
        Event::Executed(CallResult::Success(result)) => Reply::Succeeded(result),
        _ => Reply::Failed,
    }
}

spec fn replies_of(events: Seq<Event>) -> Seq<Reply> {
    events.map_values(|event: Event| reply_of(event))
}

proof fn lemma_prefix(states: Seq<GasEstimation>, events: Seq<Event>, n: int)
    requires
        is_trace(states, events),
        0 <= n <= events.len(),
    ensures
        is_trace(states.take(n + 1), events.take(n)),
        replies_of(events.take(n)) == replies_of(events).take(n),
{
    let (few_states, few) = (states.take(n + 1), events.take(n));
    assert(few_states[0] == states[0]);
    assert forall|i: int|
        #![trigger few[i]]
        0 <= i < few.len() implies goes_on(few_states[i], few[i], few_states[i + 1]) by {
        assert(few[i] == events[i]);
    }
    assert(replies_of(few) =~= replies_of(events).take(n));
}

/// A trace is a run of replies, and its states are those after them.
proof fn lemma_trace_is_run(states: Seq<GasEstimation>, events: Seq<Event>)
    requires
        is_trace(states, events),
    ensures
        states[0].phase is BuildRequest,
        is_run(states[0], replies_of(events)),
        after_all(states[0], replies_of(events)) == states.last(),
        states.last().wf(),
    decreases events.len(),
{
    let replies = replies_of(events);
    if events.len() > 0 {
        let n = events.len() - 1;
        lemma_prefix(states, events, n);
        lemma_trace_is_run(states.take(n + 1), events.take(n));
        assert(states.take(n + 1).last() == states[n]);
        assert(replies.drop_last() =~= replies.take(n));
        assert(goes_on(states[n], events[n], states[n + 1]));
        assert(replies.last() == reply_of(events[n]));
    }
}

/// What the events show of the limits that an estimation stands at.
spec fn shows(estimation: GasEstimation, events: Seq<Event>) -> bool {
    match estimation.phase {
        Phase::BuildRequest => events.len() == 0,
        Phase::ExecuteRequest { gas_limit } => {
            &&& gas_limit == last_built(events, events.len() as int)
            &&& events.len() == 1
            &&& events[0] is Built
        },
        Phase::BuildPadded { gas_limit, gas_used, padded } => {
            &&& events.len() == 2
            &&& some_success(events, gas_limit)
            &&& least_success(events, gas_limit)
            &&& failures_below(events, 0)
            &&& gas_used > 0 ==> some_low(events, (gas_used - 1) as u64)
        },
        Phase::ExecutePadded { gas_limit, padded_limit } => {
            &&& padded_limit == last_built(events, events.len() as int)
            &&& some_success(events, gas_limit)
            &&& least_success(events, gas_limit)
            &&& failures_below(events, 0)
        },
        Phase::BuildProbe { lower, upper } => {
            &&& some_success(events, upper)
            &&& least_success(events, upper)
            &&& failures_below(events, lower + 1)
            &&& some_low(events, lower)
        },
        Phase::ExecuteProbe { lower, upper } => {
            &&& executing(estimation) == last_built(events, events.len() as int)
            &&& some_success(events, upper)
            &&& least_success(events, upper)
            &&& failures_below(events, lower + 1)
            &&& some_low(events, lower)
        },
        Phase::Done { estimate } => {
            &&& some_success(events, estimate)
            &&& least_success(events, estimate)
            &&& failures_below(events, estimate as int)
            &&& exists|lower: u64| #[trigger]
                some_low(events, lower) && lower <= estimate && !undecided(lower, estimate)
        },
    }
}

spec fn some_success(events: Seq<Event>, limit: u64) -> bool {
    exists|i: int| success(events, i, limit)
}

spec fn some_low(events: Seq<Event>, limit: u64) -> bool {
    exists|i: int| shown_low(events, i, limit)
}

/// No execution succeeded with a lower limit.
spec fn least_success(events: Seq<Event>, limit: u64) -> bool {
    forall|i: int, other: u64| #[trigger] success(events, i, other) ==> other >= limit
}

/// Every execution that failed had a lower limit.
spec fn failures_below(events: Seq<Event>, limit: int) -> bool {
    forall|i: int, other: u64| #[trigger] failure(events, i, other) ==> other < limit
}

proof fn lemma_last_built_prefix(events: Seq<Event>, n: int, m: int)
    requires
        0 <= m <= n <= events.len(),
    ensures
        last_built(events.take(n), m) == last_built(events, m),
    decreases m,
{
    if m > 0 {
        lemma_last_built_prefix(events, n, m - 1);
        assert(events.take(n)[m - 1] == events[m - 1]);
    }
}

/// What the events show is still shown when one more comes, and each success or failure among
/// them is an earlier one or the last.
proof fn lemma_one_more(events: Seq<Event>)
    requires
        events.len() > 0,
    ensures
        ({
            let before = events.drop_last();
            let n = events.len() - 1;
            &&& last_built(before, n) == last_built(events, n)
            &&& forall|i: int, limit: u64| #[trigger]
                success(before, i, limit) ==> success(events, i, limit)
            &&& forall|i: int, limit: u64| #[trigger]
                shown_low(before, i, limit) ==> shown_low(events, i, limit)
            &&& forall|i: int, limit: u64| #[trigger]
                success(events, i, limit) ==> success(before, i, limit) || (i == n
                    && last_built(events, n) == limit && events[n] matches Event::Executed(
                    CallResult::Success(_),
                ))
            &&& forall|i: int, limit: u64| #[trigger]
                failure(events, i, limit) ==> failure(before, i, limit) || (i == n
                    && last_built(events, n) == limit && events[n] matches Event::Executed(
                    CallResult::Failure(_),
                ))
        }),
{
    let before = events.drop_last();
    let n = events.len() - 1;
    assert(before =~= events.take(n));
    assert forall|m: int| 0 <= m <= n implies #[trigger] last_built(before, m) == last_built(
        events,
        m,
    ) by {
        lemma_last_built_prefix(events, n, m);
    }
    assert forall|i: int| 0 <= i < n implies #[trigger] before[i] == events[i] by {}
    assert(last_built(before, n) == last_built(events, n));
    assert forall|i: int, limit: u64| #[trigger] success(before, i, limit) implies success(
        events,
        i,
        limit,
    ) by {
        assert(before[i] == events[i]);
        assert(last_built(before, i) == last_built(events, i));
    }
    assert forall|i: int, limit: u64| #[trigger] shown_low(before, i, limit) implies shown_low(
        events,
        i,
        limit,
    ) by {
        assert(before[i] == events[i]);
        assert(last_built(before, i) == last_built(events, i));
    }
    assert forall|i: int, limit: u64| #[trigger] success(events, i, limit) implies success(
        before,
        i,
        limit,
    ) || (i == n && last_built(events, n) == limit && events[n] matches Event::Executed(
        CallResult::Success(_),
    )) by {
        if i < n {
            assert(before[i] == events[i]);
            assert(last_built(before, i) == last_built(events, i));
        }
    }
    assert forall|i: int, limit: u64| #[trigger] failure(events, i, limit) implies failure(
        before,
        i,
        limit,
    ) || (i == n && last_built(events, n) == limit && events[n] matches Event::Executed(
        CallResult::Failure(_),
    )) by {
        if i < n {
            assert(before[i] == events[i]);
            assert(last_built(before, i) == last_built(events, i));
        }
    }
}

proof fn lemma_still_shown(events: Seq<Event>)
    requires
        events.len() > 0,
    ensures
        forall|limit: u64| #[trigger]
            some_success(events.drop_last(), limit) ==> some_success(events, limit),
        forall|limit: u64| #[trigger]
            some_low(events.drop_last(), limit) ==> some_low(events, limit),
        events.last() matches Event::Executed(CallResult::Success(result)) ==> {
            &&& some_success(events, last_built(events, events.len() - 1))
            &&& result.gas_used > 0 ==> some_low(events, (result.gas_used - 1) as u64)
        },
        events.last() matches Event::Executed(CallResult::Failure(_)) ==> some_low(
            events,
            last_built(events, events.len() - 1),
        ),
{
    lemma_one_more(events);
    let n = events.len() - 1;
    assert forall|limit: u64| #[trigger]
        some_success(events.drop_last(), limit) implies some_success(events, limit) by {
        let i = choose|i: int| success(events.drop_last(), i, limit);
        assert(success(events, i, limit));
    }
    assert forall|limit: u64| #[trigger] some_low(events.drop_last(), limit) implies some_low(
        events,
        limit,
    ) by {
        let i = choose|i: int| shown_low(events.drop_last(), i, limit);
        assert(shown_low(events, i, limit));
    }
    match events[n] {
        Event::Executed(CallResult::Success(result)) => {
            assert(success(events, n, last_built(events, n)));
            if result.gas_used > 0 {
                assert(shown_low(events, n, (result.gas_used - 1) as u64));
            }
        },
        Event::Executed(CallResult::Failure(_)) => {
            assert(shown_low(events, n, last_built(events, n)));
        },
        _ => {},
    }
}

proof fn lemma_shows(states: Seq<GasEstimation>, events: Seq<Event>)
    requires
        is_trace(states, events),
    ensures
        shows(states.last(), events),
    decreases events.len(),
{
    if events.len() > 0 {
        let n = events.len() - 1;
        let before = events.drop_last();
        lemma_prefix(states, events, n);
        assert(before =~= events.take(n));
        lemma_shows(states.take(n + 1), before);
        assert(states.take(n + 1).last() == states[n]);
        lemma_trace_is_run(states.take(n + 1), before);
        lemma_one_more(events);
        lemma_still_shown(events);
        let (last, now) = (states[n], states[n + 1]);
        assert(goes_on(last, events[n], now));
        assert(last_built(events, n + 1) == match events[n] {
            Event::Built { gas, transaction } => transaction.gas_limit,
            Event::Executed(_) => last_built(events, n),
        });
        match (last.phase, events[n]) {
            (Phase::ExecuteRequest { gas_limit }, Event::Executed(CallResult::Success(result))) => {
                assert(before[0] == events[0]);
            },
            (
                Phase::BuildPadded { gas_limit, gas_used, padded },
                Event::Built { gas, transaction },
            ) => {
                if transaction.gas_limit >= gas_limit {
                    assert(some_low(events, (gas_used - 1) as u64));
                }
            },
            (Phase::ExecutePadded { gas_limit, padded_limit }, Event::Executed(
                CallResult::Success(result),
            )) => {
                assert(some_low(events, (result.gas_used - 1) as u64));
            },
            (Phase::ExecutePadded { gas_limit, padded_limit }, Event::Executed(
                CallResult::Failure(_),
            )) => {
                assert(some_low(events, padded_limit));
            },
            (Phase::ExecuteProbe { lower, upper }, Event::Executed(CallResult::Success(_))) => {
                assert(some_low(events, lower));
            },
            (Phase::ExecuteProbe { lower, upper }, Event::Executed(CallResult::Failure(_))) => {
                assert(some_low(events, executing(last)));
            },
            _ => {},
        }
    }
}

/// Whenever an execution is asked for, a transaction was just built, and its gas limit is the one
/// that the outcome is taken for.
pub proof fn law_executes_what_was_built(states: Seq<GasEstimation>, events: Seq<Event>)
    requires
        is_trace(states, events),
        call_ensures(GasEstimation::action, (&states.last(),), EstimationAction::Execute),
    ensures
        events.len() > 0,
        events.last() matches Event::Built { gas, transaction } && executing(states.last())
            == transaction.gas_limit,
{
    lemma_shows(states, events);
    if events.len() > 0 {
        let n = events.len() - 1;
        assert(goes_on(states[n], events[n], states[n + 1]));
    }
}

/// An estimate is the lowest gas limit at which the transaction was executed and succeeded: it
/// succeeded with that limit, never with a lower one, and wherever it failed the limit was lower.
pub proof fn law_estimate_is_lowest_success(
    states: Seq<GasEstimation>,
    events: Seq<Event>,
    answer: Quantity,
)
    requires
        is_trace(states, events),
        call_ensures(GasEstimation::action, (&states.last(),), EstimationAction::Finish(answer)),
    ensures
        exists|i: int| success(events, i, answer.0),
        forall|i: int|
            0 <= i < events.len() && (#[trigger] events[i] matches Event::Executed(
                CallResult::Success(_),
            )) ==> last_built(events, i) >= answer.0,
        forall|i: int|
            0 <= i < events.len() && (#[trigger] events[i] matches Event::Executed(
                CallResult::Failure(_),
            )) ==> last_built(events, i) < answer.0,
{
    lemma_shows(states, events);
    assert(some_success(events, answer.0));
    assert forall|i: int|
        0 <= i < events.len() && (#[trigger] events[i] matches Event::Executed(
            CallResult::Success(_),
        )) implies last_built(events, i) >= answer.0 by {
        assert(success(events, i, last_built(events, i)));
    }
    assert forall|i: int|
        0 <= i < events.len() && (#[trigger] events[i] matches Event::Executed(
            CallResult::Failure(_),
        )) implies last_built(events, i) < answer.0 by {
        assert(failure(events, i, last_built(events, i)));
    }
}

/// An estimation ends no sooner than the next lower limit, or one within fifteen parts in a
/// thousand of the estimate, is shown to be too low. From two to the power of 53 on, those parts
/// are taken to within one in two to the power of 50.
pub proof fn law_estimate_is_settled(
    states: Seq<GasEstimation>,
    events: Seq<Event>,
    answer: Quantity,
)
    requires
        is_trace(states, events),
        call_ensures(GasEstimation::action, (&states.last(),), EstimationAction::Finish(answer)),
    ensures
        exists|i: int, lower: u64| #[trigger]
            shown_low(events, i, lower) && lower <= answer.0 && (answer.0 - lower <= 1 || ((
            answer.0 < 0x20_0000_0000_0000 ==> (answer.0 - lower) * 1000 < answer.0 * 15) && (
            answer.0 - lower) * 1000 * 0x4_0000_0000_0000 <= answer.0 * 15 * 0x4_0000_0000_0001)),
{
    lemma_shows(states, events);
    let lower = choose|lower: u64| #[trigger]
        some_low(events, lower) && lower <= answer.0 && !undecided(lower, answer.0);
    if answer.0 - lower > 1 {
        law_error_ratio_of_all(lower, answer.0, gap_below_ratio(lower, answer.0));
        if answer.0 < 0x20_0000_0000_0000 {
            lemma_gap_in_integers(lower, answer.0);
        }
    }
    let i = choose|i: int| shown_low(events, i, lower);
    assert(shown_low(events, i, lower));
}

/// The limits between which an estimation searches: with the upper one the transaction was
/// executed and succeeded, as with no lower one, the lower one is shown to be too low, and every
/// failure was at that or lower. It searches only while the limits are more than one apart, and
/// by fifteen parts in a thousand of the upper one or more; from two to the power of 50 on, those
/// parts are taken to within one in two to that power.
pub proof fn law_bounds_are_shown(
    states: Seq<GasEstimation>,
    events: Seq<Event>,
    lower: u64,
    upper: u64,
)
    requires
        is_trace(states, events),
        states.last().phase == (Phase::BuildProbe { lower, upper }) || states.last().phase == (
        Phase::ExecuteProbe { lower, upper }),
    ensures
        exists|i: int| success(events, i, upper),
        exists|i: int| shown_low(events, i, lower),
        forall|i: int, limit: u64| #[trigger] success(events, i, limit) ==> limit >= upper,
        forall|i: int, limit: u64| #[trigger] failure(events, i, limit) ==> limit <= lower,
        upper - lower > 1,
        upper < 0x4_0000_0000_0000 ==> (upper - lower) * 1000 >= upper * 15,
        (upper - lower) * 1000 * 0x4_0000_0000_0001 >= upper * 15 * 0x4_0000_0000_0000,
{
    lemma_shows(states, events);
    lemma_trace_is_run(states, events);
    assert(some_success(events, upper));
    assert(some_low(events, lower));
    law_error_ratio_of_all(lower, upper, gap_below_ratio(lower, upper));
    if upper < 0x4_0000_0000_0000 {
        law_error_ratio(lower, upper, gap_below_ratio(lower, upper));
    }
}

/// What an estimation asks for: the transaction with the request's own gas, with the padded gas,
/// or with gas that lies halfway between the bounds of the search; the execution of what was
/// built; or, once the estimate is found, that it be the answer.
pub proof fn law_asks_for(estimation: GasEstimation, action: EstimationAction)
    requires
        estimation.phase matches Phase::BuildProbe { lower, upper } ==> upper - lower > 1 && lower
            + upper <= u64::MAX,
        call_ensures(GasEstimation::action, (&estimation,), action),
    ensures
        estimation.phase is BuildRequest ==> action == EstimationAction::Build(
            estimation.request_gas,
        ),
        estimation.phase matches Phase::BuildPadded { gas_limit, gas_used, padded } ==> (
        action matches EstimationAction::Build(Some(asked)) && asked.high == 0 && asked.low
            == padded),
        estimation.phase matches Phase::BuildProbe { lower, upper } ==> (
        action matches EstimationAction::Build(Some(asked)) && asked.high == 0 && lower < asked.low
            < upper && asked.low - lower <= upper - asked.low <= asked.low - lower + 1),
        estimation.phase is ExecuteRequest || estimation.phase is ExecutePadded
            || estimation.phase is ExecuteProbe <==> action is Execute,
        estimation.phase matches Phase::Done { estimate } ==> action == EstimationAction::Finish(
            Quantity(estimate),
        ),
        action is Finish ==> estimation.phase is Done,
{
}

/// A probe halves what is left between the bounds, and the bound that its outcome moves is moved
/// to the gas that was asked for: the upper one where it succeeds, and the lower one where it
/// fails. The estimate is the upper bound.
pub proof fn law_probe_moves_its_bound(
    before: GasEstimation,
    lower: u64,
    upper: u64,
    gas: Option<U256>,
    transaction: Transaction,
    between: GasEstimation,
    outcome: CallResult,
    after: GasEstimation,
)
    requires
        upper - lower > 1,
        lower + upper <= u64::MAX,
        before.phase == (Phase::BuildProbe { lower, upper }),
        goes_on(before, (Event::Built { gas, transaction }), between),
        goes_on(between, Event::Executed(outcome), after),
    ensures
        gas matches Some(asked) && asked.high == 0 && lower < asked.low < upper,
        gas->Some_0.low - lower <= upper - gas->Some_0.low <= gas->Some_0.low - lower + 1,
        transaction.gas_limit == gas->Some_0.low,
        outcome is Success || outcome is Failure,
        after.phase is BuildProbe || after.phase is Done,
        outcome is Success ==> match after.phase {
            Phase::BuildProbe { lower: low, upper: high } => low == lower && high
                == gas->Some_0.low,
            Phase::Done { estimate } => estimate == gas->Some_0.low,
            _ => false,
        },
        outcome is Failure ==> match after.phase {
            Phase::BuildProbe { lower: low, upper: high } => low == gas->Some_0.low && high
                == upper,
            Phase::Done { estimate } => estimate == upper,
            _ => false,
        },
        after.request_gas == before.request_gas,
        after.original_tx_gas == before.original_tx_gas,
        after.provider_gas_limit == before.provider_gas_limit,
        after.protocol_gas_limit == before.protocol_gas_limit,
{
}

/// An estimation first asks for the transaction of the request with the request's own gas, and
/// has it executed. Where that succeeds, it asks for the transaction again, with the gas that was
/// used and refunded and the 2300 of a call, of which that is 63 parts in 64, rounded down.
pub proof fn law_first_steps(
    request_gas: Option<U256>,
    original_tx_gas: U256,
    provider_gas_limit: u64,
    protocol_gas_limit: u64,
    start: GasEstimation,
    gas: Option<U256>,
    transaction: Transaction,
    built: GasEstimation,
    result: SuccessCallResult,
    executed: GasEstimation,
    action: EstimationAction,
)
    requires
        call_ensures(
            estimate_gas,
            (request_gas, original_tx_gas, provider_gas_limit, protocol_gas_limit),
            start,
        ),
        goes_on(start, (Event::Built { gas, transaction }), built),
        goes_on(built, Event::Executed(CallResult::Success(result)), executed),
        call_ensures(GasEstimation::action, (&executed,), action),
    ensures
        gas == request_gas,
        action matches EstimationAction::Build(Some(asked)) && asked.high == 0 && 63 * asked.low
            <= 64 * (result.gas_used + result.gas_refund + 2300) < 63 * (asked.low + 1),
        executed.phase matches Phase::BuildPadded { gas_limit, gas_used, padded } && gas_limit
            == transaction.gas_limit && gas_used == result.gas_used,
{
}

/// The padded transaction is executed exactly where its limit is below that of the request's own.
/// The search then starts between what it used and its limit where it succeeds, and between the
/// two limits where it fails; without that execution, between what the first one used and its
/// limit. What was used counts less one, since with less the transaction cannot succeed.
pub proof fn law_search_starts(
    before: GasEstimation,
    gas_limit: u64,
    gas_used: u64,
    padded: u64,
    gas: Option<U256>,
    transaction: Transaction,
    built: GasEstimation,
    outcome: CallResult,
    executed: GasEstimation,
)
    requires
        before.phase == (Phase::BuildPadded { gas_limit, gas_used, padded }),
        goes_on(before, (Event::Built { gas, transaction }), built),
    ensures
        transaction.gas_limit < gas_limit ==> forall|action: EstimationAction| #[trigger]
            call_ensures(GasEstimation::action, (&built,), action) ==> action is Execute,
        transaction.gas_limit >= gas_limit ==> match built.phase {
            Phase::BuildProbe { lower, upper } => lower == gas_used - 1 && upper == gas_limit,
            Phase::Done { estimate } => estimate == gas_limit,
            _ => false,
        },
        transaction.gas_limit < gas_limit && goes_on(
            built,
            Event::Executed(outcome),
            executed,
        ) ==> match (outcome, executed.phase) {
            (CallResult::Success(result), Phase::BuildProbe { lower, upper }) => lower
                == result.gas_used - 1 && upper == transaction.gas_limit,
            (CallResult::Success(result), Phase::Done { estimate }) => estimate
                == transaction.gas_limit,
            (CallResult::Failure(_), Phase::BuildProbe { lower, upper }) => lower
                == transaction.gas_limit && upper == gas_limit,
            (CallResult::Failure(_), Phase::Done { estimate }) => estimate == gas_limit,
            _ => false,
        },
{
}

proof fn lemma_threshold(states: Seq<GasEstimation>, events: Seq<Event>, threshold: u64)
    requires
        is_trace(states, events),
        forall|i: int|
            0 <= i < events.len() ==> match #[trigger] events[i] {
                Event::Built { .. } => true,
                Event::Executed(CallResult::Success(result)) => last_built(events, i) >= threshold
                    && 1 <= result.gas_used <= threshold,
                Event::Executed(_) => last_built(events, i) < threshold,
            },
    ensures
        has_threshold(states[0], replies_of(events), threshold),
{
    let replies = replies_of(events);
    assert forall|i: int| 0 <= i < replies.len() implies match #[trigger] replies[i] {
        Reply::Built(_) => true,
        Reply::Succeeded(result) => executing(after_all(states[0], replies.take(i))) >= threshold
            && 1 <= result.gas_used <= threshold,
        Reply::Failed => executing(after_all(states[0], replies.take(i))) < threshold,
    } by {
        assert(replies[i] == reply_of(events[i]));
        if events[i] is Executed {
            lemma_prefix(states, events, i);
            let (few_states, few) = (states.take(i + 1), events.take(i));
            lemma_trace_is_run(few_states, few);
            lemma_shows(few_states, few);
            lemma_last_built_prefix(events, i, i);
            assert(few_states.last() == states[i]);
            assert(few_states[0] == states[0]);
            assert(goes_on(states[i], events[i], states[i + 1]));
        }
    }
}

/// Where a transaction succeeds exactly from some gas limit on, and never reports to have used
/// more than that, or nothing, the estimate is not below that limit, and is that limit or above
/// it by less than fifteen parts in a thousand of the estimate.
pub proof fn law_estimate_near_threshold(
    states: Seq<GasEstimation>,
    events: Seq<Event>,
    answer: Quantity,
    threshold: u64,
)
    requires
        is_trace(states, events),
        call_ensures(GasEstimation::action, (&states.last(),), EstimationAction::Finish(answer)),
        forall|i: int|
            0 <= i < events.len() ==> match #[trigger] events[i] {
                Event::Built { .. } => true,
                Event::Executed(CallResult::Success(result)) => last_built(events, i) >= threshold
                    && 1 <= result.gas_used <= threshold,
                Event::Executed(_) => last_built(events, i) < threshold,
            },
    ensures
        answer.0 >= threshold,
        answer.0 < 0x20_0000_0000_0000 ==> answer.0 == threshold || (answer.0 - threshold) * 1000
            < answer.0 * 15,
        answer.0 == threshold || (answer.0 - threshold) * 1000 * 0x4_0000_0000_0000 <= answer.0 * 15
            * 0x4_0000_0000_0001,
{
    if answer.0 > threshold && threshold > 0 {
        let lower = (threshold - 1) as u64;
        law_error_ratio_of_all(lower, answer.0, gap_below_ratio(lower, answer.0));
    }
    law_estimate_is_lowest_success(states, events, answer);
    lemma_trace_is_run(states, events);
    lemma_threshold(states, events, threshold);
    law_estimate_close(states[0], replies_of(events), threshold);
}

/// An estimation asks for no more than 132 transactions and executions between them.
pub proof fn law_trace_ends(states: Seq<GasEstimation>, events: Seq<Event>)
    requires
        is_trace(states, events),
    ensures
        events.len() <= 132,
{
    lemma_trace_is_run(states, events);
    law_estimation_ends(states[0], replies_of(events));
}

/// No estimate exceeds the limit of the request's own transaction.
pub proof fn law_estimate_within_first(
    states: Seq<GasEstimation>,
    events: Seq<Event>,
    answer: Quantity,
)
    requires
        is_trace(states, events),
        call_ensures(GasEstimation::action, (&states.last(),), EstimationAction::Finish(answer)),
    ensures
        events.len() > 0,
        events[0] matches Event::Built { gas, transaction } && answer.0 <= transaction.gas_limit,
{
    lemma_trace_is_run(states, events);
    law_estimate_within_request(states[0], replies_of(events));
    assert(replies_of(events)[0] == reply_of(events[0]));
}

/// What was asked for ends an estimation only where it could not be built, where the request's
/// own execution fails, or where the outcome is of another kind. Running out of gas is put down
/// to the provider where it allows less gas than the protocol does and than the request stood
/// at. All other failures are answered in their own words, and with their data.
pub proof fn law_errors_end_an_estimation(
    estimation: GasEstimation,
    error: JsonRpcError,
    unbuilt: JsonRpcResult<GasEstimation>,
    outcome: CallResult,
    next: JsonRpcResult<GasEstimation>,
)
    requires
        call_ensures(
            GasEstimation::transaction_built,
            (estimation, JsonRpcResult::Err(error)),
            unbuilt,
        ),
        call_ensures(GasEstimation::call_executed, (estimation, outcome), next),
    ensures
        unbuilt == JsonRpcResult::<GasEstimation>::Err(error),
        next is Ok <==> outcome is Success || (outcome is Failure && !(
        estimation.phase is ExecuteRequest)),
        outcome is Other ==> (next matches Err(JsonRpcError::Internal { message }) && message@
            == "Unexpected CallResult type"@),
        estimation.phase is ExecuteRequest ==> (outcome matches CallResult::Failure(failed) ==> {
            &&& next matches Err(JsonRpcError::EthCall { message, data })
            &&& data == failed.data
            &&& failed.error_code is OtherError ==> message@ == failed.message@
            &&& failed.error_code is OutOfGas ==> message@ == if estimation.provider_gas_limit
                < estimation.protocol_gas_limit && (estimation.original_tx_gas.high > 0
                || estimation.provider_gas_limit < estimation.original_tx_gas.low) {
                "provider-specified eth_estimateGas gas limit exceeded"@
            } else {
                "out of gas"@
            }
        }),
{
}

/// A transaction that was asked for and built is always gone on with.
pub proof fn law_built_is_gone_on_with(
    estimation: GasEstimation,
    transaction: Transaction,
    next: JsonRpcResult<GasEstimation>,
)
    requires
        call_ensures(
            GasEstimation::transaction_built,
            (estimation, JsonRpcResult::Ok(transaction)),
            next,
        ),
    ensures
        next matches Ok(estimating) && estimating.request_gas == estimation.request_gas
            && estimating.original_tx_gas == estimation.original_tx_gas
            && estimating.provider_gas_limit == estimation.provider_gas_limit
            && estimating.protocol_gas_limit == estimation.protocol_gas_limit,
        estimation.phase is BuildRequest ==> next->Ok_0.phase == (Phase::ExecuteRequest {
            gas_limit: transaction.gas_limit,
        }),
        estimation.phase matches Phase::BuildProbe { lower, upper } ==> next->Ok_0.phase == (
        Phase::ExecuteProbe { lower, upper }),
{
}

/// A built transaction fits, and can be gone on with, unless its limit is no lower than that of
/// the request's own and what that used is nothing, or more than its limit; limits of more than
/// half of what 64 bits hold may not fit.
pub proof fn law_transaction_fits(
    states: Seq<GasEstimation>,
    events: Seq<Event>,
    transaction: Transaction,
    gas: Option<U256>,
    fits: bool,
)
    requires
        is_trace(states, events),
        call_ensures(GasEstimation::action, (&states.last(),), EstimationAction::Build(gas)),
        call_ensures(
            GasEstimation::transaction_fits,
            (&states.last(), transaction.gas_limit),
            fits,
        ),
    ensures
        fits ==> call_requires(
            GasEstimation::transaction_built,
            (states.last(), JsonRpcResult::Ok(transaction)),
        ),
        call_requires(GasEstimation::action, (&states.last(),)),
        !(states.last().phase is BuildPadded) ==> fits,
        states.last().phase matches Phase::BuildPadded { gas_limit, gas_used, padded } ==> {
            &&& transaction.gas_limit < gas_limit ==> fits
            &&& 1 <= gas_used <= gas_limit && 2 * gas_limit <= u64::MAX ==> fits
            &&& transaction.gas_limit >= gas_limit && (gas_used == 0 || gas_used > gas_limit + 1)
                ==> !fits
        },
{
    lemma_trace_is_run(states, events);
}

/// An outcome fits, and can be gone on with, wherever some gas was used, but no more than the
/// limit, and that limit is at most half of what 64 bits hold; after the first execution it fits
/// exactly where 64 bits hold 64 times what was used and refunded and 2300 more.
pub proof fn law_outcome_fits(
    states: Seq<GasEstimation>,
    events: Seq<Event>,
    outcome: CallResult,
    fits: bool,
)
    requires
        is_trace(states, events),
        call_ensures(GasEstimation::action, (&states.last(),), EstimationAction::Execute),
        call_ensures(GasEstimation::reply_fits, (&states.last(), &outcome), fits),
    ensures
        fits ==> call_requires(GasEstimation::call_executed, (states.last(), outcome)),
        call_requires(GasEstimation::reply_fits, (&states.last(), &outcome)),
        outcome is Other ==> fits,
        states.last().phase is ExecuteRequest ==> (outcome matches CallResult::Success(result) ==> (
        fits <==> 64 * (result.gas_used + result.gas_refund + 2300) <= u64::MAX)),
        !(states.last().phase is ExecuteRequest) && (events[0] matches Event::Built {
            gas,
            transaction,
        } && 2 * transaction.gas_limit <= u64::MAX) && (outcome matches CallResult::Success(result)
            ==> 1 <= result.gas_used <= last_built(events, events.len() as int)) ==> fits,
        states.last().phase is ExecuteRequest && outcome is Failure ==> fits,
        states.last().phase is ExecutePadded && (outcome matches CallResult::Success(result)
            && result.gas_used == 0) ==> !fits,
{
    lemma_trace_is_run(states, events);
    lemma_shows(states, events);
    let replies = replies_of(events);
    if events.len() > 0 {
        assert(replies[0] == reply_of(events[0]));
        if events[0] matches Event::Built { gas, transaction } && 2 * transaction.gas_limit
            <= u64::MAX {
            law_replies_fit(states[0], replies);
        }
    }
}

} // verus!
