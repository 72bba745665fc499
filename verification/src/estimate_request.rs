//! The handling of a request for a gas estimate, up to the search for it.
use vstd::prelude::*;

use crate::estimation::{estimate_gas, GasEstimation, Phase};
use crate::types::{
    Address, BlockKey, BlockTags, CallInput, CallRequest, CallResult, Header, JsonRpcError,
    JsonRpcResult, Quantity, Transaction, TxKind, U256,
};

verus! {

/// The gas that a plain transfer of value takes.
pub const TRANSFER_GAS: u64 = 21_000;

/// A request for a gas estimate.
#[derive(Debug, PartialEq, Eq)]
pub struct MonadEthEstimateGasParams {
    pub tx: CallRequest,
    pub block: BlockTags,
}

/// What transactions are executed with.
#[derive(Clone, Copy, Debug, PartialEq, Eq)]
pub struct GasEstimator {
    pub chain_id: u64,
    pub block_header: Header,
    pub sender: Address,
    pub block_key: BlockKey,
    pub gas_specified: bool,
}

/// The arguments of an execution besides the transaction.
#[derive(Clone, Copy, Debug, PartialEq, Eq)]
pub struct EthCallArguments {
    pub chain_id: u64,
    pub header: Header,
    pub sender: Address,
    pub block_number: u64,
    pub block_id: Option<[u8; 32]>,
    pub gas_specified: bool,
}

impl GasEstimator {
    /// An estimator on top of the given block.
    pub fn new(
        chain_id: u64,
        block_header: Header,
        sender: Address,
        block_key: BlockKey,
        gas_specified: bool,
    ) -> (estimator: Self)
        ensures
            estimator == (GasEstimator {
                chain_id,
                block_header,
                sender,
                block_key,
                gas_specified,
            }),
    {
        GasEstimator { chain_id, block_header, sender, block_key, gas_specified }
    }

    /// The arguments of an execution: a block that is only proposed is named by its identifier
    /// too.
    pub fn eth_call(&self) -> (arguments: EthCallArguments)
        ensures
            arguments.chain_id == self.chain_id,
            arguments.header == self.block_header,
            arguments.sender == self.sender,
            arguments.gas_specified == self.gas_specified,
            match self.block_key {
                BlockKey::Finalized(number) => arguments.block_number == number
                    && arguments.block_id is None,
                BlockKey::Proposed(number, id) => arguments.block_number == number
                    && arguments.block_id == Some(id),
            },
    {
        let (block_number, block_id): (u64, Option<[u8; 32]>) = match self.block_key {
            BlockKey::Finalized(number) => (number, None),
            BlockKey::Proposed(number, id) => (number, Some(id)),
        };
        EthCallArguments {
            chain_id: self.chain_id,
            header: self.block_header,
            sender: self.sender,
            block_number,
            block_id,
            gas_specified: self.gas_specified,
        }
    }
}

/// A request that was accepted. Its block is to be looked up.
#[derive(Debug, PartialEq, Eq)]
pub struct EstimateGasRequest {
    pub chain_id: u64,
    pub provider_gas_limit: u64,
    pub tx: CallRequest,
    pub block: BlockTags,
}

/// A request whose block was found. The header of that block is to be fetched.
#[derive(Debug, PartialEq, Eq)]
pub struct EstimateGasAt {
    pub chain_id: u64,
    pub provider_gas_limit: u64,
    pub tx: CallRequest,
    pub block_key: BlockKey,
}

/// A request whose header was fetched. Its gas fields are to be filled, with at most the gas of
/// `provider_gas_limit`.
#[derive(Debug, PartialEq, Eq)]
pub struct EstimateGasFill {
    pub chain_id: u64,
    pub provider_gas_limit: u64,
    pub original_tx_gas: U256,
    pub gas_specified: bool,
    pub tx: CallRequest,
    pub block_key: BlockKey,
}

/// A request that is ready to be executed. Its transaction is to be built.
#[derive(Debug, PartialEq, Eq)]
pub struct EstimateGasReady {
    pub estimator: GasEstimator,
    pub tx: CallRequest,
    pub original_tx_gas: U256,
    pub provider_gas_limit: u64,
    pub protocol_gas_limit: u64,
}

/// How an estimate comes about.
#[derive(Clone, Copy, Debug, PartialEq, Eq)]
pub enum EstimatePlan {
    /// The transaction with the gas of a transfer is to be built.
    BuildTransfer { search: GasEstimation },
    /// The account at the address is to be read.
    ReadAccount { to: Address, search: GasEstimation },
    /// The transaction with the gas of a transfer is to be executed.
    ExecuteTransfer { search: GasEstimation },
    /// The estimate is to be searched for.
    Search { search: GasEstimation },
    /// The estimate is known.
    Finished { estimate: Quantity },
}

/// Whether the input is given under both names, with different bytes.
pub open spec fn conflicting(input: CallInput) -> bool {
    input.input matches Some(bytes) && input.data matches Some(other) && bytes@ != other@
}

/// The input under one name, whichever it was given under.
pub open spec fn merged(input: CallInput) -> CallInput {
    CallInput {
        input: match input.input {
            Some(bytes) => Some(bytes),
            None => input.data,
        },
        data: None,
    }
}

/// Whether a request asks for more gas than the provider allows.
pub open spec fn exceeds_provider(tx: CallRequest, provider_gas_limit: u64) -> bool {
    tx.gas matches Some(gas) && gas.value() > provider_gas_limit
}

/// Whether the bytes are the same.
fn same_bytes(a: &Vec<u8>, b: &Vec<u8>) -> (same: bool)
    ensures
        same == (a@ == b@),
{
    if a.len() != b.len() {
        return false;
    }
    let mut i: usize = 0;
    while i < a.len()
        invariant
            i <= a.len(),
            a.len() == b.len(),
            forall|j: int| 0 <= j < i ==> #[trigger] a@[j] == b@[j],
        decreases a.len() - i,
    {
        if a[i] != b[i] {
            assert(a@[i as int] != b@[i as int]);
            return false;
        }
        i = i + 1;
    }
    assert(a@ =~= b@);
    true
}

/// Accepts a request for an estimate of how much gas is necessary to allow the transaction to
/// complete, unless it gives two different inputs or more gas than the provider allows.
#[allow(non_snake_case)]
pub fn monad_eth_estimateGas(
    chain_id: u64,
    provider_gas_limit: u64,
    params: MonadEthEstimateGasParams,
) -> (request: JsonRpcResult<EstimateGasRequest>)
    ensures
        if conflicting(params.tx.input) {
            request == JsonRpcResult::<EstimateGasRequest>::Err(JsonRpcError::InvalidParams)
        } else if exceeds_provider(params.tx, provider_gas_limit) {
            request matches Err(error) && error.is_eth_call_error(
                "user-specified gas exceeds provider limit"@,
                None,
            )
        } else {
            request == JsonRpcResult::Ok(
                (EstimateGasRequest {
                    chain_id,
                    provider_gas_limit,
                    tx: (CallRequest { input: merged(params.tx.input), ..params.tx }),
                    block: params.block,
                }),
            )
        },
{
    let tx = params.tx;
    let input: Option<Vec<u8>> = match (tx.input.input, tx.input.data) {
        (Some(input), Some(data)) => {
            if !same_bytes(&input, &data) {
                return Err(JsonRpcError::InvalidParams);
            }
            Some(input)
        },
        (Some(input), None) => Some(input),
        (None, data) => data,
    };
    if let Some(gas) = tx.gas {
        if U256::from_u64(provider_gas_limit).less_than(gas) {
            return Err(
                JsonRpcError::eth_call_error("user-specified gas exceeds provider limit", None),
            );
        }
    }
    Ok(
        EstimateGasRequest {
            chain_id,
            provider_gas_limit,
            tx: CallRequest {
                from: tx.from,
                gas: tx.gas,
                input: CallInput { input, data: None },
                chain_id: tx.chain_id,
            },
            block: params.block,
        },
    )
}

impl EstimateGasRequest {
    /// Goes on with the key of the request's block, where there is such a block.
    pub fn with_block_key(self, block_key: Option<BlockKey>) -> (next: JsonRpcResult<EstimateGasAt>)
        ensures
            match block_key {
                Some(block_key) => next == JsonRpcResult::Ok(
                    (EstimateGasAt {
                        chain_id: self.chain_id,
                        provider_gas_limit: self.provider_gas_limit,
                        tx: self.tx,
                        block_key,
                    }),
                ),
                None => next == JsonRpcResult::<EstimateGasAt>::Err(JsonRpcError::BlockNotFound),
            },
    {
        match block_key {
            Some(block_key) => Ok(
                EstimateGasAt {
                    chain_id: self.chain_id,
                    provider_gas_limit: self.provider_gas_limit,
                    tx: self.tx,
                    block_key,
                },
            ),
            None => Err(JsonRpcError::BlockNotFound),
        }
    }
}

impl EstimateGasAt {
    /// The request on top of a block with the given header: the provider's limit does not exceed
    /// the block's, which is also the gas of a request that gives none.
    pub open spec fn on_header(self, header: Header) -> EstimateGasFill {
        EstimateGasFill {
            chain_id: self.chain_id,
            provider_gas_limit: if self.provider_gas_limit < header.gas_limit {
                self.provider_gas_limit
            } else {
                header.gas_limit
            },
            original_tx_gas: match self.tx.gas {
                Some(gas) => gas,
                None => U256::of(header.gas_limit),
            },
            gas_specified: self.tx.gas is Some,
            tx: self.tx,
            block_key: self.block_key,
        }
    }

    /// Goes on with the header of the block, where there is one, or with the error that fetching
    /// it met.
    pub fn with_header(self, header: Result<Option<Header>, String>) -> (next: JsonRpcResult<
        EstimateGasFill,
    >)
        ensures
            match header {
                Ok(Some(header)) => next == JsonRpcResult::Ok(self.on_header(header)),
                Ok(None) => next == JsonRpcResult::<EstimateGasFill>::Err(
                    JsonRpcError::BlockNotFound,
                ),
                Err(message) => next == JsonRpcResult::<EstimateGasFill>::Err(
                    (JsonRpcError::Internal { message }),
                ),
            },
    {
        let header = match header {
            Ok(Some(header)) => header,
            Ok(None) => return Err(JsonRpcError::BlockNotFound),
            Err(message) => return Err(JsonRpcError::Internal { message }),
        };
        let provider_gas_limit: u64 = if self.provider_gas_limit < header.gas_limit {
            self.provider_gas_limit
        } else {
            header.gas_limit
        };
        let original_tx_gas: U256 = match self.tx.gas {
            Some(gas) => gas,
            None => U256::from_u64(header.gas_limit),
        };
        Ok(
            EstimateGasFill {
                chain_id: self.chain_id,
                provider_gas_limit,
                original_tx_gas,
                gas_specified: self.tx.gas.is_some(),
                tx: self.tx,
                block_key: self.block_key,
            },
        )
    }
}

impl EstimateGasFill {
    /// The most gas that the request is filled with.
    pub fn gas_cap(&self) -> (cap: U256)
        ensures
            cap == U256::of(self.provider_gas_limit),
    {
        U256::from_u64(self.provider_gas_limit)
    }

    /// Whether `ready` is the filled request on top of the block as it was left, with the chain
    /// set, sent from no account in particular where none is named.
    pub open spec fn is_ready(self, tx: CallRequest, header: Header, ready: EstimateGasReady) -> bool {
        &&& ready.tx == (CallRequest { chain_id: Some(self.chain_id), ..tx })
        &&& ready.original_tx_gas == self.original_tx_gas
        &&& ready.provider_gas_limit == self.provider_gas_limit
        &&& ready.protocol_gas_limit == header.gas_limit
        &&& ready.estimator.chain_id == self.chain_id
        &&& ready.estimator.block_header == header
        &&& ready.estimator.block_key == self.block_key
        &&& ready.estimator.gas_specified == self.gas_specified
        &&& match tx.from {
            Some(sender) => ready.estimator.sender == sender,
            None => forall|i: int| 0 <= i < 20 ==> ready.estimator.sender.bytes@[i] == 0,
        }
    }

    /// Goes on with the filled request and the header as filling left it, or with the error that
    /// filling met. A request for another chain is refused.
    pub fn with_filled(self, filled: JsonRpcResult<(CallRequest, Header)>) -> (next: JsonRpcResult<
        EstimateGasReady,
    >)
        ensures
            match filled {
                Ok((tx, header)) => if tx.chain_id is Some && tx.chain_id != Some(self.chain_id) {
                    next == JsonRpcResult::<EstimateGasReady>::Err(
                        (JsonRpcError::InvalidChainId {
                            expected: self.chain_id,
                            got: tx.chain_id->Some_0,
                        }),
                    )
                } else {
                    next matches Ok(ready) && self.is_ready(tx, header, ready)
                },
                Err(error) => next == JsonRpcResult::<EstimateGasReady>::Err(error),
            },
            next matches Ok(ready) ==> (filled matches Ok((tx, header)) && ready.tx.from == tx.from
                && (tx.from matches Some(account) ==> ready.estimator.sender == account)),
    {
        let (tx, header) = match filled {
            Ok(filled) => filled,
            Err(error) => return Err(error),
        };
        if let Some(tx_chain_id) = tx.chain_id {
            if tx_chain_id != self.chain_id {
                return Err(
                    JsonRpcError::InvalidChainId { expected: self.chain_id, got: tx_chain_id },
                );
            }
        }
        let sender = match tx.from {
            Some(sender) => sender,
            None => Address::default(),
        };
        let estimator = GasEstimator::new(
            self.chain_id,
            header,
            sender,
            self.block_key,
            self.gas_specified,
        );
        Ok(
            EstimateGasReady {
                estimator,
                tx: CallRequest {
                    from: tx.from,
                    gas: tx.gas,
                    input: tx.input,
                    chain_id: Some(self.chain_id),
                },
                original_tx_gas: self.original_tx_gas,
                provider_gas_limit: self.provider_gas_limit,
                protocol_gas_limit: header.gas_limit,
            },
        )
    }
}

/// Whether a transaction is a plain transfer of value: a call without input.
pub open spec fn is_transfer(transaction: Transaction) -> bool {
    transaction.kind is Call && transaction.input@.len() == 0
}

/// Whether an account has no code.
pub open spec fn is_codeless(code_hash: [u8; 32]) -> bool {
    forall|i: int| 0 <= i < 32 ==> code_hash@[i] == 0
}

fn codeless(code_hash: &[u8; 32]) -> (r: bool)
    ensures
        r == is_codeless(*code_hash),
{
    let mut i: usize = 0;
    while i < 32
        invariant
            i <= 32,
            forall|j: int| 0 <= j < i ==> code_hash@[j] == 0,
        decreases 32 - i,
    {
        if code_hash[i] != 0 {
            assert(code_hash@[i as int] != 0);
            return false;
        }
        i = i + 1;
    }
    true
}

impl EstimateGasReady {
    /// The search for the estimate.
    pub open spec fn search(self) -> GasEstimation {
        GasEstimation {
            request_gas: self.tx.gas,
            original_tx_gas: self.original_tx_gas,
            provider_gas_limit: self.provider_gas_limit,
            protocol_gas_limit: self.protocol_gas_limit,
            phase: Phase::BuildRequest,
        }
    }

    /// Goes on with the transaction of the request, or with the error that building it met: a
    /// plain transfer is first tried with the gas that a transfer takes.
    pub fn with_transaction(&self, reply: JsonRpcResult<Transaction>) -> (plan: JsonRpcResult<
        EstimatePlan,
    >)
        ensures
            match reply {
                Ok(transaction) => plan == JsonRpcResult::Ok(
                    if is_transfer(transaction) {
                        (EstimatePlan::BuildTransfer { search: self.search() })
                    } else {
                        (EstimatePlan::Search { search: self.search() })
                    },
                ),
                Err(error) => plan == JsonRpcResult::<EstimatePlan>::Err(error),
            },
    {
        let transaction = match reply {
            Ok(transaction) => transaction,
            Err(error) => return Err(error),
        };
        let search = estimate_gas(
            self.tx.gas,
            self.original_tx_gas,
            self.provider_gas_limit,
            self.protocol_gas_limit,
        );
        match transaction.kind {
            TxKind::Call(_) => {
                if transaction.input.len() == 0 {
                    Ok(EstimatePlan::BuildTransfer { search })
                } else {
                    Ok(EstimatePlan::Search { search })
                }
            },
            TxKind::Create => Ok(EstimatePlan::Search { search }),
        }
    }
}

impl EstimatePlan {
    /// The gas of a transfer.
    pub fn transfer_gas() -> (gas: U256)
        ensures
            gas == U256::of(TRANSFER_GAS),
    {
        U256::from_u64(TRANSFER_GAS)
    }

    /// Goes on with the transaction that has the gas of a transfer, or with the error that
    /// building it met.
    pub fn transfer_built(self, reply: JsonRpcResult<Transaction>) -> (plan: JsonRpcResult<
        EstimatePlan,
    >)
        requires
            self is BuildTransfer,
            reply matches Ok(transaction) ==> transaction.kind is Call,
        ensures
            match reply {
                Ok(transaction) => plan == JsonRpcResult::Ok(
                    (EstimatePlan::ReadAccount {
                        to: transaction.kind->Call_0,
                        search: self->BuildTransfer_search,
                    }),
                ),
                Err(error) => plan == JsonRpcResult::<EstimatePlan>::Err(error),
            },
    {
        let transaction = match reply {
            Ok(transaction) => transaction,
            Err(error) => return Err(error),
        };
        match (self, transaction.kind) {
            (EstimatePlan::BuildTransfer { search }, TxKind::Call(to)) => Ok(
                EstimatePlan::ReadAccount { to, search },
            ),
            (plan, _) => Ok(plan),
        }
    }

    /// Goes on with the code hash of the account, where it could be read: only where the account
    /// has no code is the transfer executed.
    pub fn account_read(self, code_hash: Option<[u8; 32]>) -> (plan: EstimatePlan)
        requires
            self is ReadAccount,
        ensures
            plan == if code_hash is Some && is_codeless(code_hash->Some_0) {
                (EstimatePlan::ExecuteTransfer { search: self->ReadAccount_search })
            } else {
                (EstimatePlan::Search { search: self->ReadAccount_search })
            },
    {
        match self {
            EstimatePlan::ReadAccount { search, .. } => {
                if let Some(code_hash) = code_hash {
                    if codeless(&code_hash) {
                        return EstimatePlan::ExecuteTransfer { search };
                    }
                }
                EstimatePlan::Search { search }
            },
            plan => plan,
        }
    }

    /// Goes on with the outcome of the transfer: where it succeeds, its gas is the estimate.
    pub fn transfer_executed(self, reply: CallResult) -> (plan: EstimatePlan)
        requires
            self is ExecuteTransfer,
        ensures
            plan == if reply is Success {
                (EstimatePlan::Finished { estimate: Quantity(TRANSFER_GAS) })
            } else {
                (EstimatePlan::Search { search: self->ExecuteTransfer_search })
            },
    {
        match self {
            EstimatePlan::ExecuteTransfer { search } => match reply {
                CallResult::Success(_) => EstimatePlan::Finished { estimate: Quantity(TRANSFER_GAS) },
                _ => EstimatePlan::Search { search },
            },
            plan => plan,
        }
    }
}

/// Running out of gas is put down to the provider's limit only where the request gave no gas and
/// the provider allows less than the block does, as long as filling leaves the block's limit.
pub proof fn law_out_of_gas_cause(
    request: EstimateGasRequest,
    block_key: BlockKey,
    header: Header,
    filled: CallRequest,
    filled_header: Header,
    ready: EstimateGasReady,
)
    requires
        !exceeds_provider(request.tx, request.provider_gas_limit),
        filled_header.gas_limit == header.gas_limit,
        (EstimateGasAt {
            chain_id: request.chain_id,
            provider_gas_limit: request.provider_gas_limit,
            tx: request.tx,
            block_key,
        }).on_header(header).is_ready(filled, filled_header, ready),
    ensures
        ready.search().provider_limited() <==> request.tx.gas is None && request.provider_gas_limit
            < header.gas_limit,
{
}

} // verus!
