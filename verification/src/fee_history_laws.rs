//! What holds of every fee history.
use vstd::prelude::*;

use crate::double::{law_value_has_one_form, ratio, Double};
use crate::fee_history::{
    all_fetched, fetch_error_text, first_failure, monad_eth_feeHistory, optional_view,
    out_of_range, BlockData, BlockFetchError, FeeHistoryDraft, FeeHistoryRange, FeeHistoryRequest,
    MonadEthHistoryParams, MonadFeeHistory,
};
use crate::gas_price::BaseFeeQuery;
use crate::rewards::calculate_fee_history_rewards;
use crate::rewards_laws::law_rewards_fit;
use crate::types::{BlockTags, Header, JsonRpcError, JsonRpcResult};

verus! {

/// A history may span from one to 1024 blocks, and a request for one keeps what it asks for.
pub proof fn law_block_count(
    params: MonadEthHistoryParams,
    request: JsonRpcResult<FeeHistoryRequest>,
)
    requires
        call_ensures(monad_eth_feeHistory, (params,), request),
    ensures
        request is Ok <==> 1 <= params.block_count.0 <= 1024,
        request matches Ok(accepted) ==> accepted.block_count == params.block_count.0
            && accepted.newest_block == params.newest_block && accepted.reward_percentiles
            == params.reward_percentiles,
        request matches Err(error) ==> (error matches JsonRpcError::Custom { message } && message@
            == "block count must be between 1 and 1024"@),
{
}

/// A range ends with the block whose header was fetched and goes back over as many blocks as
/// were asked for, or to the first block where there are fewer. An empty list of percentiles is
/// the same as none.
pub proof fn law_range(
    request: FeeHistoryRequest,
    header: Header,
    range: JsonRpcResult<FeeHistoryRange>,
)
    requires
        1 <= request.block_count <= 1024,
        call_ensures(FeeHistoryRequest::with_header, (request, Some(header)), range),
    ensures
        range matches Ok(accepted) ==> {
            &&& accepted.newest == header.number
            &&& accepted.oldest <= accepted.newest
            &&& accepted.newest - accepted.oldest < request.block_count
            &&& accepted.oldest == 0 || accepted.newest - accepted.oldest + 1
                == request.block_count
            &&& accepted.block_count == request.block_count
            &&& accepted.newest_block == request.newest_block
            &&& request.reward_percentiles is None ==> accepted.percentiles is None
            &&& request.reward_percentiles matches Some(list) ==> list@.len() == 0
                ==> accepted.percentiles is None
            &&& request.reward_percentiles matches Some(list) ==> list@.len() > 0
                ==> accepted.percentiles == Some(list)
        },
        request.reward_percentiles is None ==> range is Ok,
{
}

/// A request is refused exactly where the header could not be fetched, where a percentile is
/// below zero or above one hundred, or else where one is not at most the next, by the
/// comparisons of doubles.
pub proof fn law_range_refused(
    request: FeeHistoryRequest,
    header: Option<Header>,
    range: JsonRpcResult<FeeHistoryRange>,
)
    requires
        1 <= request.block_count <= 1024,
        call_ensures(FeeHistoryRequest::with_header, (request, header), range),
    ensures
        header is None ==> (range matches Err(JsonRpcError::Internal { message }) && message@
            == "could not get block data"@),
        header is Some ==> (request.reward_percentiles matches Some(list) ==> (exists|i: int|
            0 <= i < list@.len() && call_ensures(
                Double::below_zero,
                (#[trigger] list@[i],),
                true,
            )) ==> (range matches Err(JsonRpcError::Internal { message }) && message@
            == "reward percentiles must be between 0-100"@)),
        header is Some ==> (request.reward_percentiles matches Some(list) ==> (exists|i: int|
            0 <= i < list@.len() && call_ensures(
                Double::above_hundred,
                (#[trigger] list@[i],),
                true,
            )) ==> (range matches Err(JsonRpcError::Internal { message }) && message@
            == "reward percentiles must be between 0-100"@)),
        header is Some ==> (request.reward_percentiles matches Some(list) ==> (forall|i: int|
            0 <= i < list@.len() ==> call_ensures(Double::below_zero, (#[trigger] list@[i],), false)
                && call_ensures(Double::above_hundred, (list@[i],), false)) ==> {
            &&& (forall|i: int, j: int|
                0 <= i && j == i + 1 && j < list@.len() ==> call_ensures(
                    Double::at_most,
                    (#[trigger] list@[i], #[trigger] list@[j]),
                    true,
                )) ==> range is Ok
            &&& (exists|i: int, j: int|
                0 <= i && j == i + 1 && j < list@.len() && call_ensures(
                    Double::at_most,
                    (#[trigger] list@[i], #[trigger] list@[j]),
                    false,
                )) ==> (range matches Err(JsonRpcError::Internal { message }) && message@
                == "reward percentiles must be sorted"@)
        }),
{
    if let Some(list) = request.reward_percentiles {
        if exists|i: int|
            0 <= i < list@.len() && call_ensures(Double::below_zero, (#[trigger] list@[i],), true) {
            assert(out_of_range(list@));
        }
        if exists|i: int|
            0 <= i < list@.len() && call_ensures(
                Double::above_hundred,
                (#[trigger] list@[i],),
                true,
            ) {
            assert(out_of_range(list@));
        }
    }
}

/// A history is drafted exactly where every block of the range was fetched; else the answer says
/// what could not be fetched of the first block that was not.
pub proof fn law_blocks_fetched(
    range: FeeHistoryRange,
    blocks: Vec<Result<BlockData, BlockFetchError>>,
    draft: JsonRpcResult<FeeHistoryDraft>,
)
    requires
        call_ensures(FeeHistoryRange::with_blocks, (range, blocks), draft),
    ensures
        draft is Ok <==> forall|i: int| 0 <= i < blocks@.len() ==> (#[trigger] blocks@[i]) is Ok,
        forall|i: int|
            0 <= i < blocks@.len() && (#[trigger] blocks@[i]) is Err && (forall|j: int|
                0 <= j < i ==> (#[trigger] blocks@[j]) is Ok) ==> match blocks@[i] {
                Err(BlockFetchError::Block) => draft matches Err(JsonRpcError::Internal { message })
                    && message@ == "could not get block data"@,
                Err(BlockFetchError::Receipts) => draft matches Err(
                    JsonRpcError::Internal { message },
                ) && message@ == "could not get block receipts"@,
                Ok(_) => false,
            },
{
    assert forall|i: int|
        0 <= i < blocks@.len() && (#[trigger] blocks@[i]) is Err && (forall|j: int|
            0 <= j < i ==> (#[trigger] blocks@[j]) is Ok) implies match blocks@[i] {
        Err(BlockFetchError::Block) => draft matches Err(JsonRpcError::Internal { message })
            && message@ == "could not get block data"@,
        Err(BlockFetchError::Receipts) => draft matches Err(JsonRpcError::Internal { message })
            && message@ == "could not get block receipts"@,
        Ok(_) => false,
    } by {
        let (k, failure) = choose|k: int, failure: BlockFetchError| #[trigger]
            first_failure(blocks@, k, failure) && draft->Err_0.is_internal_error(
                fetch_error_text(failure),
            );
        assert(blocks@[k] is Err);
        if k < i {
            assert(blocks@[k] is Ok);
        }
        if i < k {
            assert(blocks@[i] is Ok);
        }
    }
}

/// The entry of a history at each place is that of the block at that place of the range: the base
/// fee that its header holds, the ratio of the gas that it used to its limit, and its own rewards.
pub proof fn law_history_entries(
    range: FeeHistoryRange,
    blocks: Vec<Result<BlockData, BlockFetchError>>,
    draft: FeeHistoryDraft,
    header: Option<Header>,
    history: MonadFeeHistory,
    i: int,
    block: BlockData,
)
    requires
        call_ensures(FeeHistoryRange::with_blocks, (range, blocks), JsonRpcResult::Ok(draft)),
        call_ensures(FeeHistoryDraft::finish, (draft, header), JsonRpcResult::Ok(history)),
        0 <= i < blocks@.len(),
        blocks@[i] == Result::<BlockData, BlockFetchError>::Ok(block),
    ensures
        history.base_fee_per_gas@.len() == blocks@.len() + 1,
        history.gas_used_ratio@.len() == blocks@.len(),
        history.reward matches Some(rewards) ==> rewards@.len() == blocks@.len(),
        block.header.base_fee_per_gas matches Some(fee) ==> history.base_fee_per_gas@[i] == fee,
        block.header.base_fee_per_gas is None ==> history.base_fee_per_gas@[i] == 0,
        forall|own: Double|
            block.header.gas_limit > 0 && #[trigger] call_ensures(
                ratio,
                (block.header.gas_used, block.header.gas_limit),
                own,
            ) ==> history.gas_used_ratio@[i] == own,
        block.header.gas_limit == 0 && block.header.gas_used > 0
            ==> history.gas_used_ratio@[i].bits == 0x7ff0_0000_0000_0000,
        block.header.gas_limit == 0 && block.header.gas_used == 0
            ==> history.gas_used_ratio@[i].bits % 0x8000_0000_0000_0000 > 0x7ff0_0000_0000_0000,
        history.reward matches Some(rewards) ==> (range.percentiles matches Some(percentiles)
            ==> forall|fee: u64, own: Vec<u128>|
            block.header.base_fee_per_gas == Some(fee) && #[trigger] call_ensures(
                calculate_fee_history_rewards,
                (
                    &block.transactions,
                    &block.receipts,
                    fee,
                    block.header.gas_used,
                    Some(&percentiles),
                ),
                own,
            ) ==> rewards@[i]@ == own@),
        history.reward matches Some(rewards) ==> (range.percentiles matches Some(percentiles)
            ==> forall|own: Vec<u128>|
            block.header.base_fee_per_gas is None && #[trigger] call_ensures(
                calculate_fee_history_rewards,
                (
                    &block.transactions,
                    &block.receipts,
                    0u64,
                    block.header.gas_used,
                    Some(&percentiles),
                ),
                own,
            ) ==> rewards@[i]@ == own@),
{
    assert forall|own: Double|
        block.header.gas_limit > 0 && #[trigger] call_ensures(
            ratio,
            (block.header.gas_used, block.header.gas_limit),
            own,
        ) implies history.gas_used_ratio@[i] == own by {
        law_value_has_one_form(history.gas_used_ratio@[i], own);
    }
}

/// Histories go from the oldest block of the range to the newest: where the blocks of the range
/// were fetched in the order of their numbers, the base fee of each number stands as many places
/// in as that number lies above the oldest.
pub proof fn law_history_in_order(
    range: FeeHistoryRange,
    blocks: Vec<Result<BlockData, BlockFetchError>>,
    draft: FeeHistoryDraft,
    header: Option<Header>,
    history: MonadFeeHistory,
    block: BlockData,
    fee: u64,
)
    requires
        call_ensures(FeeHistoryRange::with_blocks, (range, blocks), JsonRpcResult::Ok(draft)),
        call_ensures(FeeHistoryDraft::finish, (draft, header), JsonRpcResult::Ok(history)),
        forall|i: int|
            0 <= i < blocks@.len() ==> (#[trigger] blocks@[i] matches Ok(fetched)
                ==> fetched.header.number == range.oldest + i),
        blocks@.contains(Result::<BlockData, BlockFetchError>::Ok(block)),
        block.header.base_fee_per_gas == Some(fee),
    ensures
        0 <= block.header.number - range.oldest < history.base_fee_per_gas@.len() - 1,
        history.base_fee_per_gas@[block.header.number - range.oldest] == fee,
{
    let i = choose|i: int|
        0 <= i < blocks@.len() && blocks@[i] == Result::<BlockData, BlockFetchError>::Ok(block);
    assert(blocks@[i] is Ok);
    law_history_entries(range, blocks, draft, header, history, i, block);
}

/// After the base fees of its blocks, a history has that of the block after them. For a range up
/// to the latest or the safe block that is the base fee of its last block again, and no header is
/// asked for. For one up to a block with a number it is the base fee that the header of the block
/// with the next number holds, and for one up to the finalized block that of the latest: those
/// headers are asked for, and without one there is no history.
pub proof fn law_history_ends_with_next(
    range: FeeHistoryRange,
    blocks: Vec<Result<BlockData, BlockFetchError>>,
    draft: FeeHistoryDraft,
    header: Option<Header>,
    history: JsonRpcResult<MonadFeeHistory>,
)
    requires
        range.newest_block matches BlockTags::Number(number) ==> number.0 < u64::MAX,
        call_ensures(FeeHistoryRange::with_blocks, (range, blocks), JsonRpcResult::Ok(draft)),
        call_ensures(FeeHistoryDraft::finish, (draft, header), history),
    ensures
        range.newest_block is Finalized ==> draft.next == BaseFeeQuery::Fetch(BlockTags::Latest),
        range.newest_block matches BlockTags::Number(number) ==> (draft.next matches
            BaseFeeQuery::Fetch(BlockTags::Number(next)) && next.0 == number.0 + 1),
        range.newest_block is Latest || range.newest_block is Safe ==> draft.next is Known
            && history is Ok && history->Ok_0.base_fee_per_gas@.len() == blocks@.len() + 1 && (
        blocks@.len() > 0 ==> history->Ok_0.base_fee_per_gas@[blocks@.len() as int]
            == history->Ok_0.base_fee_per_gas@[blocks@.len() - 1]),
        range.newest_block is Number || range.newest_block is Finalized ==> match header {
            None => history matches Err(JsonRpcError::Internal { message }) && message@
                == "could not get block data"@,
            Some(next) => {
                &&& history matches Ok(told)
                &&& told.base_fee_per_gas@.len() == blocks@.len() + 1
                &&& next.base_fee_per_gas matches Some(fee) ==> told.base_fee_per_gas@.last() == fee
                &&& next.base_fee_per_gas is None ==> told.base_fee_per_gas@.last() == 0
            },
        },
{
}

/// Blobs are neither priced nor used: a history has a zero for each of the blocks that were asked
/// for, and one more for the price after them.
pub proof fn law_history_without_blobs(
    range: FeeHistoryRange,
    blocks: Vec<Result<BlockData, BlockFetchError>>,
    draft: FeeHistoryDraft,
    header: Option<Header>,
    history: MonadFeeHistory,
)
    requires
        call_ensures(FeeHistoryRange::with_blocks, (range, blocks), JsonRpcResult::Ok(draft)),
        call_ensures(FeeHistoryDraft::finish, (draft, header), JsonRpcResult::Ok(history)),
    ensures
        history.base_fee_per_blob_gas@.len() == range.block_count + 1,
        history.blob_gas_used_ratio@.len() == range.block_count,
        forall|i: int|
            0 <= i < history.base_fee_per_blob_gas@.len()
                ==> #[trigger] history.base_fee_per_blob_gas@[i] == 0,
        forall|i: int|
            0 <= i < history.blob_gas_used_ratio@.len()
                ==> (#[trigger] history.blob_gas_used_ratio@[i]).bits == 0,
{
}

/// The number that a history gives for its oldest block lies as many below the newest as blocks
/// were asked for, and is zero where the chain does not reach that far back.
pub proof fn law_history_oldest(
    range: FeeHistoryRange,
    blocks: Vec<Result<BlockData, BlockFetchError>>,
    draft: FeeHistoryDraft,
    header: Option<Header>,
    history: MonadFeeHistory,
)
    requires
        call_ensures(FeeHistoryRange::with_blocks, (range, blocks), JsonRpcResult::Ok(draft)),
        call_ensures(FeeHistoryDraft::finish, (draft, header), JsonRpcResult::Ok(history)),
    ensures
        range.block_count <= range.newest ==> history.oldest_block + range.block_count
            == range.newest,
        range.block_count > range.newest ==> history.oldest_block == 0,
{
}

/// A history of some blocks has rewards exactly where percentiles were asked for, one list for
/// each block and in it one reward for each percentile.
pub proof fn law_history_rewards(
    range: FeeHistoryRange,
    blocks: Vec<Result<BlockData, BlockFetchError>>,
    draft: FeeHistoryDraft,
    header: Option<Header>,
    history: MonadFeeHistory,
)
    requires
        blocks@.len() > 0,
        range.percentiles matches Some(percentiles) ==> percentiles@.len() > 0,
        call_ensures(FeeHistoryRange::with_blocks, (range, blocks), JsonRpcResult::Ok(draft)),
        call_ensures(FeeHistoryDraft::finish, (draft, header), JsonRpcResult::Ok(history)),
    ensures
        history.reward is Some <==> range.percentiles is Some,
        history.reward matches Some(rewards) ==> {
            &&& rewards@.len() == blocks@.len()
            &&& forall|i: int|
                0 <= i < rewards@.len() ==> (#[trigger] rewards@[i])@.len()
                    == range.percentiles->Some_0@.len()
        },
{
    match range.percentiles {
        Some(percentiles) => {
            assert forall|i: int| 0 <= i < blocks@.len() implies (
            #[trigger] draft.rewards@[i])@.len() == percentiles@.len() by {
                assert(draft.rewards@[i]@ == blocks@[i]->Ok_0.rewards(Some(percentiles)));
            }
        },
        None => {
            assert(draft.rewards@[0]@ == blocks@[0]->Ok_0.rewards(None));
            assert(draft.rewards@[0]@.len() == 0);
        },
    }
}

/// The history of a range can be told, and every step towards it taken, where each transaction
/// has a receipt, 64 bits hold what each used, and the last of the blocks is not the last there
/// can be.
pub proof fn law_history_owed(
    request: FeeHistoryRequest,
    range: FeeHistoryRange,
    blocks: Vec<Result<BlockData, BlockFetchError>>,
    draft: FeeHistoryDraft,
    header: Option<Header>,
    fit: bool,
)
    requires
        1 <= request.block_count <= 1024,
        1 <= range.block_count <= 1024,
        1 <= draft.block_count <= 1024,
        range.newest_block matches BlockTags::Number(number) ==> number.0 < u64::MAX,
        forall|i: int|
            0 <= i < blocks@.len() ==> (#[trigger] blocks@[i] matches Ok(block) ==> {
                &&& block.transactions@.len() <= block.receipts@.len()
                &&& forall|j: int|
                    0 <= j < block.receipts@.len() ==> (#[trigger] block.receipts@[j]).gas_used
                        <= u64::MAX
            }),
        forall|i: int|
            0 <= i < blocks@.len() ==> (#[trigger] blocks@[i] matches Ok(block)
                ==> block.transactions@.len() <= u64::MAX),
        call_ensures(FeeHistoryRange::blocks_fit, (&range, &blocks), fit),
    ensures
        fit,
        call_requires(FeeHistoryRequest::with_header, (request, header)),
        call_requires(FeeHistoryRange::with_blocks, (range, blocks)),
        call_requires(FeeHistoryDraft::finish, (draft, header)),
{
    assert forall|i: int| 0 <= i < blocks@.len() && all_fetched(blocks@) implies (
    #[trigger] blocks@[i])->Ok_0.rewards_fit(range.percentiles) by {
        let block = blocks@[i]->Ok_0;
        assert(blocks@[i] == Result::<BlockData, BlockFetchError>::Ok(block));
        law_rewards_fit(
            block.transactions@,
            block.receipts@,
            block.header.base_fee_spec(),
            block.header.gas_used,
            optional_view(range.percentiles),
        );
    }
}

} // verus!
