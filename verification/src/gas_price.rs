//! Gas prices and base fees.
use vstd::prelude::*;

use crate::types::{BlockTags, Header, JsonRpcError, JsonRpcResult, Quantity};

verus! {

/// The priority fee that is suggested, in wei: two gwei.
pub const SUGGESTED_PRIORITY_FEE: u64 = 2_000_000_000;

/// The priority fee that is suggested.
pub fn suggested_priority_fee() -> (fee: Result<u64, JsonRpcError>)
    ensures
        fee == Result::<u64, JsonRpcError>::Ok(SUGGESTED_PRIORITY_FEE),
{
    Ok(SUGGESTED_PRIORITY_FEE)
}

/// The priority fee that is suggested, zero where none is.
fn priority_fee_or_zero() -> (fee: u64)
    ensures
        fee == SUGGESTED_PRIORITY_FEE,
{
    match suggested_priority_fee() {
        Ok(fee) => fee,
        Err(_) => 0,
    }
}

/// The block whose base fee enters the gas price.
pub fn gas_price_block() -> (block: BlockTags)
    ensures
        block == BlockTags::Latest,
{
    BlockTags::Latest
}

/// The current price per gas in wei, by the header of the latest block where that could be
/// fetched: its base fee and the suggested priority fee.
#[allow(non_snake_case)]
pub fn monad_eth_gasPrice(header: Option<Header>) -> (price: JsonRpcResult<Quantity>)
    requires
        header matches Some(header) ==> header.base_fee_spec() + SUGGESTED_PRIORITY_FEE
            <= u64::MAX,
    ensures
        match header {
            Some(header) => price == JsonRpcResult::Ok(
                Quantity((header.base_fee_spec() + SUGGESTED_PRIORITY_FEE) as u64),
            ),
            None => price matches Err(error) && error.is_internal_error(
                "could not get block data"@,
            ),
        },
        header matches Some(latest) ==> (latest.base_fee_per_gas matches Some(fee) ==> price
            == JsonRpcResult::Ok(Quantity((fee + SUGGESTED_PRIORITY_FEE) as u64))),
        header matches Some(latest) ==> latest.base_fee_per_gas is None ==> price
            == JsonRpcResult::Ok(Quantity(SUGGESTED_PRIORITY_FEE)),
{
    match header {
        Some(header) => Ok(Quantity(header.base_fee() + priority_fee_or_zero())),
        None => Err(JsonRpcError::internal_error("could not get block data")),
    }
}

/// The current maximum priority fee per gas in wei.
#[allow(non_snake_case)]
pub fn monad_eth_maxPriorityFeePerGas() -> (fee: JsonRpcResult<Quantity>)
    ensures
        fee == JsonRpcResult::Ok(Quantity(SUGGESTED_PRIORITY_FEE)),
{
    Ok(Quantity(priority_fee_or_zero()))
}

/// How the base fee of the block after a range comes about.
#[derive(Clone, Copy, Debug, PartialEq, Eq, Structural)]
pub enum BaseFeeQuery {
    /// It is taken to be this.
    Known(u64),
    /// It is that of this block, whose header is to be fetched.
    Fetch(BlockTags),
}

/// How the base fee of the block after `latest` comes about.
pub open spec fn next_base_fee_query(latest: BlockTags, previous_base_fee: u64) -> BaseFeeQuery {
    match latest {
        BlockTags::Latest => BaseFeeQuery::Known(previous_base_fee),
        BlockTags::Safe => BaseFeeQuery::Known(previous_base_fee),
        BlockTags::Number(number) => BaseFeeQuery::Fetch(
            BlockTags::Number(Quantity((number.0 + 1) as u64)),
        ),
        BlockTags::Finalized => BaseFeeQuery::Fetch(BlockTags::Latest),
    }
}

/// Whether 64 bits hold the number of the block after the given one.
pub open spec fn has_next(block: BlockTags) -> bool {
    block matches BlockTags::Number(number) ==> number.0 < u64::MAX
}

/// How the base fee of the block after `latest` comes about. The block after the latest is not
/// known, so its base fee is taken to be the previous one.
pub fn get_next_block_base_fee(latest: BlockTags, previous_base_fee: u64) -> (query: BaseFeeQuery)
    requires
        has_next(latest),
    ensures
        query == next_base_fee_query(latest, previous_base_fee),
{
    match latest {
        BlockTags::Latest | BlockTags::Safe => BaseFeeQuery::Known(previous_base_fee),
        BlockTags::Number(number) => BaseFeeQuery::Fetch(
            BlockTags::Number(Quantity(number.0 + 1)),
        ),
        BlockTags::Finalized => BaseFeeQuery::Fetch(BlockTags::Latest),
    }
}

impl BaseFeeQuery {
    /// The base fee, by the fetched header where one was to be fetched and could be.
    pub open spec fn answer_spec(self, header: Option<Header>) -> Option<u64> {
        match self {
            BaseFeeQuery::Known(fee) => Some(fee),
            BaseFeeQuery::Fetch(_) => match header {
                Some(header) => Some(header.base_fee_spec()),
                None => None,
            },
        }
    }

    /// The base fee, by the fetched header where one was to be fetched.
    pub fn answer(self, header: Option<Header>) -> (fee: JsonRpcResult<u64>)
        ensures
            match self.answer_spec(header) {
                Some(known) => fee == JsonRpcResult::Ok(known),
                None => fee matches Err(error) && error.is_internal_error(
                    "could not get block data"@,
                ),
            },
    {
        match self {
            BaseFeeQuery::Known(fee) => Ok(fee),
            BaseFeeQuery::Fetch(_) => match header {
                Some(header) => Ok(header.base_fee()),
                None => Err(JsonRpcError::internal_error("could not get block data")),
            },
        }
    }
}

/// The price of gas is the base fee that the latest header holds, whole, and two gwei more; two
/// gwei where the header holds none. Without a header there is no price.
pub proof fn law_gas_price(header: Option<Header>, price: JsonRpcResult<Quantity>)
    requires
        call_ensures(monad_eth_gasPrice, (header,), price),
    ensures
        header is None ==> (price matches Err(JsonRpcError::Internal { message }) && message@
            == "could not get block data"@),
        header matches Some(latest) ==> (latest.base_fee_per_gas matches Some(fee) ==> fee
            + 2_000_000_000 <= u64::MAX ==> price == JsonRpcResult::Ok(
            Quantity((fee + 2_000_000_000) as u64),
        )),
        header matches Some(latest) ==> latest.base_fee_per_gas is None ==> price
            == JsonRpcResult::Ok(Quantity(2_000_000_000)),
{
}

/// There is a price for every header whose base fee leaves room for the priority fee.
pub proof fn law_gas_price_owed(header: Option<Header>)
    ensures
        (header matches Some(latest) ==> latest.base_fee_per_gas matches Some(fee) ==> fee
            + 2_000_000_000 <= u64::MAX) ==> call_requires(monad_eth_gasPrice, (header,)),
{
}

/// Of two latest blocks, the prices differ by as much as the base fees.
pub proof fn law_price_follows_base_fee(
    a: Header,
    b: Header,
    low: u64,
    high: u64,
    a_price: JsonRpcResult<Quantity>,
    b_price: JsonRpcResult<Quantity>,
)
    requires
        a.base_fee_per_gas == Some(low),
        b.base_fee_per_gas == Some(high),
        high + 2_000_000_000 <= u64::MAX,
        low <= high,
        call_ensures(monad_eth_gasPrice, (Some(a),), a_price),
        call_ensures(monad_eth_gasPrice, (Some(b),), b_price),
    ensures
        a_price is Ok,
        b_price is Ok,
        b_price->Ok_0.0 - a_price->Ok_0.0 == high - low,
{
}

/// The priority fee that is suggested is two gwei, and what the price holds over the base fee.
pub proof fn law_priority_fee(
    suggested: Result<u64, JsonRpcError>,
    most: JsonRpcResult<Quantity>,
    header: Header,
    fee: u64,
    price: JsonRpcResult<Quantity>,
)
    requires
        call_ensures(suggested_priority_fee, (), suggested),
        call_ensures(monad_eth_maxPriorityFeePerGas, (), most),
        header.base_fee_per_gas == Some(fee),
        fee + 2_000_000_000 <= u64::MAX,
        call_ensures(monad_eth_gasPrice, (Some(header),), price),
    ensures
        suggested == Result::<u64, JsonRpcError>::Ok(2_000_000_000),
        most == JsonRpcResult::Ok(Quantity(2_000_000_000)),
        price is Ok,
        price->Ok_0.0 == fee + most->Ok_0.0,
{
}

/// The price is that on top of the latest block.
pub proof fn law_price_of_the_latest(block: BlockTags)
    requires
        call_ensures(gas_price_block, (), block),
    ensures
        block is Latest,
{
}

/// After the latest block and after the safe one, the base fee is taken to be the previous one,
/// and no header is read. After a block with a number it is that of the block with the next
/// number, and after the finalized block that of the latest, as the fetched header holds it.
pub proof fn law_next_base_fee(
    latest: BlockTags,
    previous_base_fee: u64,
    query: BaseFeeQuery,
    header: Option<Header>,
    fee: JsonRpcResult<u64>,
)
    requires
        latest matches BlockTags::Number(number) ==> number.0 < u64::MAX,
        call_ensures(get_next_block_base_fee, (latest, previous_base_fee), query),
        call_ensures(BaseFeeQuery::answer, (query, header), fee),
    ensures
        latest is Latest || latest is Safe ==> query == BaseFeeQuery::Known(previous_base_fee)
            && fee == JsonRpcResult::Ok(previous_base_fee),
        latest is Finalized ==> query == BaseFeeQuery::Fetch(BlockTags::Latest),
        latest matches BlockTags::Number(number) ==> (query matches BaseFeeQuery::Fetch(
            BlockTags::Number(next),
        ) && next.0 == number.0 + 1),
        latest is Finalized || latest is Number ==> match header {
            Some(fetched) => match fetched.base_fee_per_gas {
                Some(held) => fee == JsonRpcResult::Ok(held),
                None => fee == JsonRpcResult::Ok(0u64),
            },
            None => fee matches Err(JsonRpcError::Internal { message }) && message@
                == "could not get block data"@,
        },
{
}

/// The base fee after a block can be asked for unless the block has the last number there is.
pub proof fn law_next_base_fee_owed(latest: BlockTags, previous_base_fee: u64)
    ensures
        (latest matches BlockTags::Number(number) ==> number.0 < u64::MAX) ==> call_requires(
            get_next_block_base_fee,
            (latest, previous_base_fee),
        ),
{
}

} // verus!
