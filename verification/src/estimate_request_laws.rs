//! What holds of every request for a gas estimate, up to the search.
use vstd::prelude::*;

use crate::estimate_request::{
    monad_eth_estimateGas, EstimateGasAt, EstimateGasFill, EstimateGasReady, EstimateGasRequest,
    EstimatePlan, EthCallArguments, GasEstimator, MonadEthEstimateGasParams,
};
use crate::estimation::{estimate_gas, GasEstimation};
use crate::types::{
    Address, BlockKey, CallRequest, CallResult, Header, JsonRpcError, JsonRpcResult, Quantity,
    Transaction, TxKind, U256,
};

verus! {

/// A request is refused exactly where it gives two inputs that differ, or more gas than the
/// provider allows. An accepted one keeps its sender, gas, chain and block, and has its input
/// under one name, whichever it was given under.
pub proof fn law_request_accepted(
    chain_id: u64,
    provider_gas_limit: u64,
    params: MonadEthEstimateGasParams,
    request: JsonRpcResult<EstimateGasRequest>,
)
    requires
        call_ensures(monad_eth_estimateGas, (chain_id, provider_gas_limit, params), request),
    ensures
        (params.tx.input.input matches Some(input) && params.tx.input.data matches Some(data)
            && input@ != data@) ==> request == JsonRpcResult::<EstimateGasRequest>::Err(
            JsonRpcError::InvalidParams,
        ),
        request matches Err(JsonRpcError::InvalidParams) ==> (params.tx.input.input matches Some(
            input,
        ) && params.tx.input.data matches Some(data) && input@ != data@),
        !(request matches Err(JsonRpcError::InvalidParams)) ==> (request is Err <==> (
        params.tx.gas matches Some(gas) && (gas.high > 0 || gas.low > provider_gas_limit))),
        request matches Err(error) ==> error is InvalidParams || (error matches
            JsonRpcError::EthCall { message, data } && message@
            == "user-specified gas exceeds provider limit"@ && data is None),
        request matches Ok(accepted) ==> {
            &&& accepted.chain_id == chain_id
            &&& accepted.provider_gas_limit == provider_gas_limit
            &&& accepted.block == params.block
            &&& accepted.tx.from == params.tx.from
            &&& accepted.tx.gas == params.tx.gas
            &&& accepted.tx.chain_id == params.tx.chain_id
            &&& accepted.tx.input.data is None
            &&& params.tx.input.input is Some ==> accepted.tx.input.input == params.tx.input.input
            &&& params.tx.input.input is None ==> accepted.tx.input.input == params.tx.input.data
        },
{
}

/// A request goes on exactly where its block is found.
pub proof fn law_block_found(
    request: EstimateGasRequest,
    block_key: Option<BlockKey>,
    at: JsonRpcResult<EstimateGasAt>,
)
    requires
        call_ensures(EstimateGasRequest::with_block_key, (request, block_key), at),
    ensures
        block_key is None ==> at == JsonRpcResult::<EstimateGasAt>::Err(
            JsonRpcError::BlockNotFound,
        ),
        block_key matches Some(key) ==> (at matches Ok(found) && found.block_key == key
            && found.tx == request.tx && found.chain_id == request.chain_id
            && found.provider_gas_limit == request.provider_gas_limit),
{
}

/// A request goes on exactly where the header of its block is fetched. It is filled with no more
/// gas than the provider or the block allows, and with as much as the lower of the two. The gas
/// that it stood at is its own, or that of the block where it gives none.
pub proof fn law_header_fetched(
    at: EstimateGasAt,
    header: Result<Option<Header>, String>,
    fill: JsonRpcResult<EstimateGasFill>,
    cap: U256,
)
    requires
        call_ensures(EstimateGasAt::with_header, (at, header), fill),
        fill matches Ok(next) ==> call_ensures(EstimateGasFill::gas_cap, (&next,), cap),
    ensures
        header matches Err(text) ==> (fill matches Err(JsonRpcError::Internal { message })
            && message == text),
        header matches Ok(None) ==> fill == JsonRpcResult::<EstimateGasFill>::Err(
            JsonRpcError::BlockNotFound,
        ),
        header matches Ok(Some(block)) ==> {
            &&& fill matches Ok(next)
            &&& next.provider_gas_limit <= at.provider_gas_limit
            &&& next.provider_gas_limit <= block.gas_limit
            &&& next.provider_gas_limit == at.provider_gas_limit || next.provider_gas_limit
                == block.gas_limit
            &&& cap.high == 0
            &&& cap.low == next.provider_gas_limit
            &&& at.tx.gas matches Some(gas) ==> next.original_tx_gas == gas
            &&& at.tx.gas is None ==> next.original_tx_gas.high == 0 && next.original_tx_gas.low
                == block.gas_limit
            &&& next.gas_specified == (at.tx.gas is Some)
            &&& next.tx == at.tx
            &&& next.chain_id == at.chain_id
            &&& next.block_key == at.block_key
        },
{
}

/// A filled request is refused exactly where it names another chain, and with the error that
/// filling met. Else it is executed on its chain, on top of its block as it was left, from the
/// account that it names; only one that names none is sent from the address of zeros.
pub proof fn law_request_filled(
    fill: EstimateGasFill,
    filled: JsonRpcResult<(CallRequest, Header)>,
    ready: JsonRpcResult<EstimateGasReady>,
)
    requires
        call_ensures(EstimateGasFill::with_filled, (fill, filled), ready),
    ensures
        filled matches Err(error) ==> ready == JsonRpcResult::<EstimateGasReady>::Err(error),
        filled matches Ok((tx, header)) ==> (tx.chain_id matches Some(got) ==> got
            != fill.chain_id ==> ready == JsonRpcResult::<EstimateGasReady>::Err(
            (JsonRpcError::InvalidChainId { expected: fill.chain_id, got }),
        )),
        filled matches Ok((tx, header)) ==> (tx.chain_id is None || tx.chain_id == Some(
            fill.chain_id,
        )) ==> {
            &&& ready matches Ok(next)
            &&& next.tx.from == tx.from
            &&& next.tx.gas == tx.gas
            &&& next.tx.input == tx.input
            &&& next.tx.chain_id == Some(fill.chain_id)
            &&& next.original_tx_gas == fill.original_tx_gas
            &&& next.provider_gas_limit == fill.provider_gas_limit
            &&& next.protocol_gas_limit == header.gas_limit
            &&& next.estimator.chain_id == fill.chain_id
            &&& next.estimator.block_header == header
            &&& next.estimator.block_key == fill.block_key
            &&& next.estimator.gas_specified == fill.gas_specified
            &&& tx.from matches Some(account) ==> next.estimator.sender == account
            &&& tx.from is None ==> forall|i: int|
                0 <= i < 20 ==> next.estimator.sender.bytes@[i] == 0
        },
{
}

/// What an estimator is made of is what its executions are sent with. A block that is finalized
/// is named by its number, a proposed one by its identifier too.
pub proof fn law_executed_with(
    chain_id: u64,
    header: Header,
    sender: Address,
    block_key: BlockKey,
    gas_specified: bool,
    estimator: GasEstimator,
    arguments: EthCallArguments,
)
    requires
        call_ensures(
            GasEstimator::new,
            (chain_id, header, sender, block_key, gas_specified),
            estimator,
        ),
        call_ensures(GasEstimator::eth_call, (&estimator,), arguments),
    ensures
        arguments.chain_id == chain_id,
        arguments.header == header,
        arguments.sender == sender,
        arguments.gas_specified == gas_specified,
        block_key matches BlockKey::Finalized(number) ==> arguments.block_number == number
            && arguments.block_id is None,
        block_key matches BlockKey::Proposed(number, id) ==> arguments.block_number == number
            && arguments.block_id == Some(id),
{
}

/// From the parameters to the arguments of an execution: the executions are sent from the
/// account that the request names, on the chain and on top of the block that were found for it,
/// and told whether the request itself gave gas. Filling may set the gas, and leaves the sender.
pub proof fn law_executed_as_requested(
    chain_id: u64,
    provider_gas_limit: u64,
    params: MonadEthEstimateGasParams,
    request: EstimateGasRequest,
    block_key: BlockKey,
    at: EstimateGasAt,
    header: Header,
    fill: EstimateGasFill,
    filled: CallRequest,
    filled_header: Header,
    ready: EstimateGasReady,
    arguments: EthCallArguments,
)
    requires
        call_ensures(
            monad_eth_estimateGas,
            (chain_id, provider_gas_limit, params),
            JsonRpcResult::Ok(request),
        ),
        call_ensures(
            EstimateGasRequest::with_block_key,
            (request, Some(block_key)),
            JsonRpcResult::Ok(at),
        ),
        call_ensures(
            EstimateGasAt::with_header,
            (at, Result::<Option<Header>, String>::Ok(Some(header))),
            JsonRpcResult::Ok(fill),
        ),
        filled.from == fill.tx.from,
        call_ensures(
            EstimateGasFill::with_filled,
            (fill, JsonRpcResult::Ok((filled, filled_header))),
            JsonRpcResult::Ok(ready),
        ),
        call_ensures(GasEstimator::eth_call, (&ready.estimator,), arguments),
    ensures
        params.tx.from matches Some(account) ==> arguments.sender == account,
        params.tx.from is None ==> forall|i: int| 0 <= i < 20 ==> arguments.sender.bytes@[i] == 0,
        arguments.chain_id == chain_id,
        arguments.header == filled_header,
        arguments.gas_specified <==> params.tx.gas is Some,
        block_key matches BlockKey::Finalized(number) ==> arguments.block_number == number
            && arguments.block_id is None,
        block_key matches BlockKey::Proposed(number, id) ==> arguments.block_number == number
            && arguments.block_id == Some(id),
        ready.tx.gas == filled.gas,
        ready.tx.chain_id == Some(chain_id),
        ready.provider_gas_limit <= provider_gas_limit,
        ready.provider_gas_limit <= header.gas_limit,
        ready.provider_gas_limit == provider_gas_limit || ready.provider_gas_limit
            == header.gas_limit,
        ready.protocol_gas_limit == filled_header.gas_limit,
        params.tx.gas matches Some(gas) ==> ready.original_tx_gas == gas && gas.high == 0
            && gas.low <= provider_gas_limit,
        params.tx.gas is None ==> ready.original_tx_gas.high == 0 && ready.original_tx_gas.low
            == header.gas_limit,
        params.tx.chain_id matches Some(id) ==> filled.chain_id == params.tx.chain_id ==> id
            == chain_id,
{
}

/// The search of a request starts with the gas and the limits of the request. Only a call
/// without input is first tried as a transfer, and all such calls are.
pub proof fn law_transfers_are_told_apart(
    ready: EstimateGasReady,
    reply: JsonRpcResult<Transaction>,
    plan: JsonRpcResult<EstimatePlan>,
)
    requires
        call_ensures(EstimateGasReady::with_transaction, (&ready, reply), plan),
    ensures
        reply matches Err(error) ==> plan == JsonRpcResult::<EstimatePlan>::Err(error),
        reply matches Ok(transaction) ==> plan is Ok && (plan->Ok_0 is BuildTransfer
            || plan->Ok_0 is Search),
        reply matches Ok(transaction) ==> (plan->Ok_0 is BuildTransfer <==> transaction.kind is Call
            && transaction.input@.len() == 0),
        reply is Ok ==> {
            let search = if plan->Ok_0 is BuildTransfer {
                plan->Ok_0->BuildTransfer_search
            } else {
                plan->Ok_0->Search_search
            };
            &&& search.request_gas == ready.tx.gas
            &&& search.original_tx_gas == ready.original_tx_gas
            &&& search.provider_gas_limit == ready.provider_gas_limit
            &&& search.protocol_gas_limit == ready.protocol_gas_limit
            &&& search.phase is BuildRequest
        },
{
}

/// A search is started with the gas and the limits that it is given.
pub proof fn law_search_started(
    request_gas: Option<U256>,
    original_tx_gas: U256,
    provider_gas_limit: u64,
    protocol_gas_limit: u64,
    search: GasEstimation,
)
    requires
        call_ensures(
            estimate_gas,
            (request_gas, original_tx_gas, provider_gas_limit, protocol_gas_limit),
            search,
        ),
    ensures
        search.request_gas == request_gas,
        search.original_tx_gas == original_tx_gas,
        search.provider_gas_limit == provider_gas_limit,
        search.protocol_gas_limit == protocol_gas_limit,
        search.phase is BuildRequest,
{
}

/// A transfer is tried with 21000 gas, at the account that it goes to, and the account is read
/// first. An error in building it is the answer.
pub proof fn law_transfer_tried(
    search: GasEstimation,
    reply: JsonRpcResult<Transaction>,
    plan: JsonRpcResult<EstimatePlan>,
    gas: U256,
)
    requires
        reply matches Ok(transaction) ==> transaction.kind is Call,
        call_ensures(EstimatePlan::transfer_gas, (), gas),
        call_ensures(
            EstimatePlan::transfer_built,
            (EstimatePlan::BuildTransfer { search }, reply),
            plan,
        ),
    ensures
        gas.high == 0,
        gas.low == 21_000,
        reply matches Err(error) ==> plan == JsonRpcResult::<EstimatePlan>::Err(error),
        reply matches Ok(transaction) ==> (transaction.kind matches TxKind::Call(account) ==> plan
            == JsonRpcResult::Ok((EstimatePlan::ReadAccount { to: account, search }))),
{
}

/// A transfer is answered with 21000 exactly where the account could be read, has no code, and
/// the execution with that gas succeeded. Else the estimate is searched for, with the search that
/// the transfer stood in for.
pub proof fn law_transfer_answered(
    to: Address,
    search: GasEstimation,
    code_hash: Option<[u8; 32]>,
    read: EstimatePlan,
    outcome: CallResult,
    executed: EstimatePlan,
)
    requires
        call_ensures(
            EstimatePlan::account_read,
            (EstimatePlan::ReadAccount { to, search }, code_hash),
            read,
        ),
        call_ensures(
            EstimatePlan::transfer_executed,
            (EstimatePlan::ExecuteTransfer { search }, outcome),
            executed,
        ),
    ensures
        (code_hash matches Some(hash) && forall|i: int| 0 <= i < 32 ==> hash@[i] == 0) ==> read == (
        EstimatePlan::ExecuteTransfer { search }),
        !(code_hash matches Some(hash) && forall|i: int| 0 <= i < 32 ==> hash@[i] == 0) ==> read
            == (EstimatePlan::Search { search }),
        outcome is Success ==> executed == (EstimatePlan::Finished {
            estimate: Quantity(21_000),
        }),
        !(outcome is Success) ==> executed == (EstimatePlan::Search { search }),
{
}

/// Every step of a transfer is one that can be taken.
pub proof fn law_transfer_steps_owed(
    to: Address,
    search: GasEstimation,
    reply: JsonRpcResult<Transaction>,
    code_hash: Option<[u8; 32]>,
    outcome: CallResult,
)
    requires
        reply matches Ok(transaction) ==> transaction.kind is Call,
    ensures
        call_requires(
            EstimatePlan::transfer_built,
            (EstimatePlan::BuildTransfer { search }, reply),
        ),
        call_requires(
            EstimatePlan::account_read,
            (EstimatePlan::ReadAccount { to, search }, code_hash),
        ),
        call_requires(
            EstimatePlan::transfer_executed,
            (EstimatePlan::ExecuteTransfer { search }, outcome),
        ),
{
}

} // verus!
