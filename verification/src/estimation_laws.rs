//! What holds of every gas estimation, whatever its executions report.
use vstd::arithmetic::power2::*;
use vstd::prelude::*;

use crate::error_ratio::{gap_below_ratio, lemma_gap_in_integers, lemma_gap_monotone};
use crate::estimation::{
    midpoint, search, EstimationAction, GasEstimation, Phase,
};
use crate::types::SuccessCallResult;

verus! {

/// A reply after which an estimation goes on.
pub enum Reply {
    /// A transaction with this gas limit was built.
    Built(u64),
    /// The transaction was executed and succeeded.
    Succeeded(SuccessCallResult),
    /// The transaction was executed and failed.
    Failed,
}

/// The estimation after a reply.
pub open spec fn after(estimation: GasEstimation, reply: Reply) -> GasEstimation {
    match reply {
        Reply::Built(limit) => estimation.in_phase(estimation.built(limit)),
        Reply::Succeeded(result) => estimation.in_phase(estimation.succeeded(result)),
        Reply::Failed => estimation.in_phase(estimation.failed()),
    }
}

/// Whether a reply is one that the estimation waits for and goes on with. A transaction that was
/// asked for with some gas has that gas as its limit.
pub open spec fn admits(estimation: GasEstimation, reply: Reply) -> bool {
    match reply {
        Reply::Built(limit) => {
            &&& estimation.awaits_transaction()
            &&& estimation.built_fits(limit)
            &&& estimation.action_spec() matches EstimationAction::Build(Some(gas))
                ==> gas.value() == limit
        },
        Reply::Succeeded(result) => {
            &&& estimation.awaits_call()
            &&& estimation.succeeded_fits(result)
        },
        Reply::Failed => {
            &&& estimation.awaits_call()
            &&& !(estimation.phase is ExecuteRequest)
            &&& estimation.failed_fits()
        },
    }
}

/// The estimation after a sequence of replies.
pub open spec fn after_all(start: GasEstimation, replies: Seq<Reply>) -> GasEstimation
    decreases replies.len(),
{
    if replies.len() == 0 {
        start
    } else {
        after(after_all(start, replies.drop_last()), replies.last())
    }
}

/// Whether each reply is one that the estimation goes on with at that point.
pub open spec fn is_run(start: GasEstimation, replies: Seq<Reply>) -> bool
    decreases replies.len(),
{
    replies.len() > 0 ==> {
        &&& is_run(start, replies.drop_last())
        &&& admits(after_all(start, replies.drop_last()), replies.last())
    }
}

/// The gas limit of the transaction that is to be executed.
pub open spec fn executing(estimation: GasEstimation) -> u64 {
    match estimation.phase {
        Phase::ExecuteRequest { gas_limit } => gas_limit,
        Phase::ExecutePadded { gas_limit, padded_limit } => padded_limit,
        Phase::ExecuteProbe { lower, upper } => midpoint(lower, upper),
        _ => 0,
    }
}

/// Whether the reply at the given place reports that a transaction with the given gas limit
/// succeeded.
pub open spec fn succeeded_at(start: GasEstimation, replies: Seq<Reply>, i: int, limit: u64) -> bool {
    &&& 0 <= i < replies.len()
    &&& replies[i] is Succeeded
    &&& executing(after_all(start, replies.take(i))) == limit
}

/// Whether some reply reports that a transaction with the given gas limit succeeded.
pub open spec fn some_success(start: GasEstimation, replies: Seq<Reply>, limit: u64) -> bool {
    exists|i: int| succeeded_at(start, replies, i, limit)
}

/// The gas limits at which a transaction succeeds are those from `threshold` on, and it never
/// reports to have used more than that, or nothing.
pub open spec fn has_threshold(start: GasEstimation, replies: Seq<Reply>, threshold: u64) -> bool {
    forall|i: int|
        0 <= i < replies.len() ==> match #[trigger] replies[i] {
            Reply::Built(_) => true,
            Reply::Succeeded(result) => executing(after_all(start, replies.take(i))) >= threshold
                && 1 <= result.gas_used <= threshold,
            Reply::Failed => executing(after_all(start, replies.take(i))) < threshold,
        }
}

/// The upper bound, or the limit that takes its place, of an estimation past its first execution.
spec fn proven_limit(estimation: GasEstimation) -> Option<u64> {
    match estimation.phase {
        Phase::BuildRequest => None,
        Phase::ExecuteRequest { .. } => None,
        Phase::BuildPadded { gas_limit, .. } => Some(gas_limit),
        Phase::ExecutePadded { gas_limit, .. } => Some(gas_limit),
        Phase::BuildProbe { upper, .. } => Some(upper),
        Phase::ExecuteProbe { upper, .. } => Some(upper),
        Phase::Done { estimate } => Some(estimate),
    }
}

proof fn lemma_success_stays(start: GasEstimation, replies: Seq<Reply>, limit: u64)
    requires
        replies.len() > 0,
        some_success(start, replies.drop_last(), limit),
    ensures
        some_success(start, replies, limit),
{
    let i = choose|i: int| succeeded_at(start, replies.drop_last(), i, limit);
    assert(replies.drop_last().take(i) =~= replies.take(i));
    assert(succeeded_at(start, replies, i, limit));
}

proof fn lemma_limits_succeeded(start: GasEstimation, replies: Seq<Reply>)
    requires
        start.phase is BuildRequest,
        is_run(start, replies),
    ensures
        proven_limit(after_all(start, replies)) matches Some(limit) ==> some_success(
            start,
            replies,
            limit,
        ),
    decreases replies.len(),
{
    if replies.len() > 0 {
        let before = replies.drop_last();
        let last = after_all(start, before);
        lemma_limits_succeeded(start, before);
        if let Some(limit) = proven_limit(last) {
            lemma_success_stays(start, replies, limit);
        }
        if replies.last() is Succeeded {
            assert(replies.take(replies.len() - 1) =~= before);
            assert(succeeded_at(start, replies, replies.len() - 1, executing(last)));
        }
    }
}

/// Whenever an execution is awaited, the last reply is that a transaction was built, and the gas
/// limit taken for the execution is the limit of that transaction.
pub proof fn law_executing_what_was_built(start: GasEstimation, replies: Seq<Reply>)
    requires
        start.phase is BuildRequest,
        is_run(start, replies),
    ensures
        after_all(start, replies).awaits_call() ==> {
            &&& replies.len() > 0
            &&& replies.last() matches Reply::Built(limit)
            &&& executing(after_all(start, replies)) == limit
        },
    decreases replies.len(),
{
    if replies.len() > 0 {
        law_executing_what_was_built(start, replies.drop_last());
    }
}

/// An estimate is a gas limit at which the transaction was executed and succeeded.
pub proof fn law_estimate_succeeded(start: GasEstimation, replies: Seq<Reply>)
    requires
        start.phase is BuildRequest,
        is_run(start, replies),
    ensures
        after_all(start, replies).phase matches Phase::Done { estimate } ==> some_success(
            start,
            replies,
            estimate,
        ),
{
    lemma_limits_succeeded(start, replies);
}

/// The bounds of an estimation, as far as they are known.
spec fn bounded_by(estimation: GasEstimation, limit: u64) -> bool {
    match estimation.phase {
        Phase::BuildRequest => false,
        Phase::ExecuteRequest { gas_limit } => gas_limit == limit,
        Phase::BuildPadded { gas_limit, .. } => gas_limit == limit,
        Phase::ExecutePadded { gas_limit, padded_limit } => gas_limit == limit && padded_limit
            < gas_limit,
        Phase::BuildProbe { lower, upper } => lower < upper <= limit,
        Phase::ExecuteProbe { lower, upper } => lower < upper <= limit,
        Phase::Done { estimate } => estimate <= limit,
    }
}

proof fn lemma_bounded(start: GasEstimation, replies: Seq<Reply>)
    requires
        start.phase is BuildRequest,
        is_run(start, replies),
        replies.len() > 0,
    ensures
        replies[0] matches Reply::Built(limit) && bounded_by(after_all(start, replies), limit),
    decreases replies.len(),
{
    let before = replies.drop_last();
    if replies.len() > 1 {
        lemma_bounded(start, before);
        assert(before[0] == replies[0]);
    } else {
        assert(after_all(start, before) == start);
    }
}

/// An estimate does not exceed the gas limit of the request's own transaction.
pub proof fn law_estimate_within_request(start: GasEstimation, replies: Seq<Reply>)
    requires
        start.phase is BuildRequest,
        is_run(start, replies),
    ensures
        after_all(start, replies).phase matches Phase::Done { estimate } ==> {
            &&& replies.len() > 0
            &&& replies[0] matches Reply::Built(limit)
            &&& estimate <= limit
        },
{
    if replies.len() > 0 {
        lemma_bounded(start, replies);
    }
}

/// Where the threshold lies, as far as an estimation knows.
spec fn encloses(estimation: GasEstimation, threshold: u64) -> bool {
    match estimation.phase {
        Phase::BuildRequest => true,
        Phase::ExecuteRequest { .. } => true,
        Phase::BuildPadded { gas_limit, gas_used, .. } => 1 <= gas_used <= threshold <= gas_limit,
        Phase::ExecutePadded { gas_limit, padded_limit } => threshold <= gas_limit,
        Phase::BuildProbe { lower, upper } => lower < threshold <= upper,
        Phase::ExecuteProbe { lower, upper } => lower < threshold <= upper,
        Phase::Done { estimate } => threshold <= estimate && (estimate == threshold
            || gap_below_ratio((threshold - 1) as u64, estimate)),
    }
}

proof fn lemma_search_encloses(lower: u64, upper: u64, threshold: u64)
    requires
        lower < threshold <= upper,
    ensures
        search(lower, upper) matches Phase::Done { estimate } ==> estimate == threshold
            || gap_below_ratio((threshold - 1) as u64, estimate),
{
    if upper - lower > 1 && gap_below_ratio(lower, upper) {
        lemma_gap_monotone(lower, (threshold - 1) as u64, upper);
    }
}

proof fn lemma_encloses(start: GasEstimation, replies: Seq<Reply>, threshold: u64)
    requires
        start.phase is BuildRequest,
        is_run(start, replies),
        has_threshold(start, replies, threshold),
    ensures
        encloses(after_all(start, replies), threshold),
    decreases replies.len(),
{
    if replies.len() > 0 {
        let before = replies.drop_last();
        let last = after_all(start, before);
        let n = replies.len() - 1;
        assert forall|i: int| 0 <= i < before.len() implies match #[trigger] before[i] {
            Reply::Built(_) => true,
            Reply::Succeeded(result) => executing(after_all(start, before.take(i))) >= threshold
                && 1 <= result.gas_used <= threshold,
            Reply::Failed => executing(after_all(start, before.take(i))) < threshold,
        } by {
            assert(before[i] == replies[i]);
            assert(before.take(i) =~= replies.take(i));
        }
        lemma_encloses(start, before, threshold);
        assert(replies.take(n) =~= before);
        assert(replies[n] == replies.last());
        match (last.phase, replies.last()) {
            (Phase::BuildPadded { gas_limit, gas_used, padded }, Reply::Built(limit)) => {
                if limit >= gas_limit {
                    lemma_search_encloses((gas_used - 1) as u64, gas_limit, threshold);
                }
            },
            (Phase::ExecutePadded { gas_limit, padded_limit }, Reply::Succeeded(result)) => {
                lemma_search_encloses((result.gas_used - 1) as u64, padded_limit, threshold);
            },
            (Phase::ExecutePadded { gas_limit, padded_limit }, Reply::Failed) => {
                lemma_search_encloses(padded_limit, gas_limit, threshold);
            },
            (Phase::ExecuteProbe { lower, upper }, Reply::Succeeded(result)) => {
                lemma_search_encloses(lower, midpoint(lower, upper), threshold);
            },
            (Phase::ExecuteProbe { lower, upper }, Reply::Failed) => {
                lemma_search_encloses(midpoint(lower, upper), upper, threshold);
            },
            _ => {},
        }
    }
}

/// Where a transaction succeeds exactly from some gas limit on, the estimate is that limit, or
/// one above it by less than the error ratio.
pub proof fn law_estimate_close(start: GasEstimation, replies: Seq<Reply>, threshold: u64)
    requires
        start.phase is BuildRequest,
        is_run(start, replies),
        has_threshold(start, replies, threshold),
    ensures
        after_all(start, replies).phase matches Phase::Done { estimate } ==> {
            &&& estimate >= threshold
            &&& estimate == threshold || gap_below_ratio((threshold - 1) as u64, estimate)
            &&& estimate < 0x20_0000_0000_0000 ==> (estimate - threshold) * 1000 < estimate * 15
                || estimate == threshold
        },
{
    lemma_encloses(start, replies, threshold);
    if let Phase::Done { estimate } = after_all(start, replies).phase {
        if estimate > threshold && estimate < 0x20_0000_0000_0000 {
            if threshold > 0 {
                lemma_gap_in_integers((threshold - 1) as u64, estimate);
            }
        }
    }
}

/// Each probe is tried strictly between the bounds.
pub proof fn law_probe_between(estimation: GasEstimation)
    requires
        estimation.wf(),
    ensures
        estimation.phase matches Phase::BuildProbe { lower, upper } ==> {
            &&& estimation.action_spec() matches EstimationAction::Build(Some(gas))
            &&& lower < gas.value() < upper
        },
{
}

/// How many replies an estimation may have had, by the width that is left between its bounds.
spec fn narrowed(estimation: GasEstimation, replies: nat) -> bool {
    match estimation.phase {
        Phase::BuildRequest => replies == 0,
        Phase::ExecuteRequest { .. } => replies == 1,
        Phase::BuildPadded { .. } => replies == 2,
        Phase::ExecutePadded { .. } => replies == 3,
        Phase::BuildProbe { lower, upper } => exists|k: nat|
            #![trigger pow2(k)]
            upper - lower <= pow2(k) && replies + 2 * k <= 132,
        Phase::ExecuteProbe { lower, upper } => exists|k: nat|
            #![trigger pow2(k)]
            upper - lower <= pow2(k) && replies + 2 * k <= 133,
        Phase::Done { .. } => replies <= 132,
    }
}

proof fn lemma_search_narrowed(estimation: GasEstimation, lower: u64, upper: u64, replies: nat, k: nat)
    requires
        estimation.phase == search(lower, upper),
        upper - lower <= pow2(k),
        replies + 2 * k <= 132,
    ensures
        narrowed(estimation, replies),
{
}

proof fn lemma_narrowed(start: GasEstimation, replies: Seq<Reply>)
    requires
        start.phase is BuildRequest,
        is_run(start, replies),
    ensures
        narrowed(after_all(start, replies), replies.len()),
        replies.len() > 0 ==> after_all(start, replies).phase != Phase::BuildRequest,
        after_all(start, replies).wf(),
    decreases replies.len(),
{
    lemma2_to64();
    lemma2_to64_rest();
    if replies.len() > 0 {
        let before = replies.drop_last();
        let last = after_all(start, before);
        let now = after_all(start, replies);
        let n = replies.len();
        lemma_narrowed(start, before);
        match (last.phase, replies.last()) {
            (Phase::BuildPadded { gas_limit, gas_used, padded }, Reply::Built(limit)) => {
                if limit >= gas_limit {
                    lemma_search_narrowed(now, (gas_used - 1) as u64, gas_limit, n, 64);
                }
            },
            (Phase::ExecutePadded { gas_limit, padded_limit }, Reply::Succeeded(result)) => {
                lemma_search_narrowed(now, (result.gas_used - 1) as u64, padded_limit, n, 64);
            },
            (Phase::ExecutePadded { gas_limit, padded_limit }, Reply::Failed) => {
                lemma_search_narrowed(now, padded_limit, gas_limit, n, 64);
            },
            (Phase::BuildProbe { lower, upper }, Reply::Built(limit)) => {
                let k = choose|k: nat|
                    #![trigger pow2(k)]
                    upper - lower <= pow2(k) && before.len() + 2 * k <= 132;
                assert(upper - lower <= pow2(k) && n + 2 * k <= 133);
            },
            (Phase::ExecuteProbe { lower, upper }, _) => {
                let k = choose|k: nat|
                    #![trigger pow2(k)]
                    upper - lower <= pow2(k) && before.len() + 2 * k <= 133;
                lemma_pow2_unfold(k);
                let j = (k - 1) as nat;
                let mid = midpoint(lower, upper);
                if replies.last() is Succeeded {
                    lemma_search_narrowed(now, lower, mid, n, j);
                } else {
                    lemma_search_narrowed(now, mid, upper, n, j);
                }
            },
            _ => {},
        }
    }
}

/// An estimation ends: after at most four replies it searches, and each of at most 64 probes
/// takes two.
pub proof fn law_estimation_ends(start: GasEstimation, replies: Seq<Reply>)
    requires
        start.phase is BuildRequest,
        is_run(start, replies),
    ensures
        replies.len() <= 132,
{
    lemma_narrowed(start, replies);
    lemma2_to64();
    if let Phase::ExecuteProbe { lower, upper } = after_all(start, replies).phase {
        let k = choose|k: nat|
            #![trigger pow2(k)]
            upper - lower <= pow2(k) && replies.len() + 2 * k <= 133;
        assert(k > 0);
    }
}

/// Where 64 bits hold twice the gas limit of the request's own transaction, and an execution
/// uses some gas but no more than its limit, 64 bits hold all that the search needs: after an
/// execution that failed or succeeded, and after the padded transaction was built.
pub proof fn law_replies_fit(start: GasEstimation, replies: Seq<Reply>)
    requires
        start.phase is BuildRequest,
        is_run(start, replies),
        replies.len() > 0,
        replies[0] matches Reply::Built(limit) ==> 2 * limit <= u64::MAX,
    ensures
        after_all(start, replies).failed_fits(),
        forall|result: SuccessCallResult|
            !(after_all(start, replies).phase is ExecuteRequest) && 1 <= result.gas_used
                <= executing(after_all(start, replies)) ==> #[trigger] after_all(
                start,
                replies,
            ).succeeded_fits(result),
        replies.len() > 1 ==> (replies[0] matches Reply::Built(first_limit) ==> (
        replies[1] matches Reply::Succeeded(first) ==> 1 <= first.gas_used <= first_limit
            ==> forall|limit: u64| #[trigger] after_all(start, replies).built_fits(limit))),
{
    lemma_bounded(start, replies);
    lemma_narrowed(start, replies);
}

} // verus!
