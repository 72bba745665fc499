//! The history of fees over a range of blocks.
use vstd::prelude::*;

use crate::double::{is_ratio, ratio, Double};
use crate::gas_price::{
    get_next_block_base_fee, has_next, next_base_fee_query, BaseFeeQuery,
};
use crate::rewards::{
    calculate_fee_history_rewards, fee_history_rewards, percentiles_view, rewards_can_be_told,
    rewards_fit, FeeTransaction, Receipt,
};
use crate::types::{BlockTags, Header, JsonRpcError, JsonRpcResult, Quantity};

verus! {

/// The most blocks that a history may span.
pub const MAX_BLOCK_COUNT: u64 = 1024;

/// A request for a fee history.
#[derive(Debug, PartialEq, Eq)]
pub struct MonadEthHistoryParams {
    pub block_count: Quantity,
    pub newest_block: BlockTags,
    pub reward_percentiles: Option<Vec<Double>>,
}

/// A request whose block count was accepted. The header of its newest block is to be fetched.
#[derive(Debug, PartialEq, Eq)]
pub struct FeeHistoryRequest {
    pub block_count: u64,
    pub newest_block: BlockTags,
    pub reward_percentiles: Option<Vec<Double>>,
}

/// An accepted request. The blocks from `oldest` to `newest` and their receipts are to be
/// fetched.
#[derive(Debug, PartialEq, Eq)]
pub struct FeeHistoryRange {
    pub block_count: u64,
    pub newest_block: BlockTags,
    pub newest: u64,
    pub oldest: u64,
    pub percentiles: Option<Vec<Double>>,
}

/// What is read of a block and of its receipts.
#[derive(Debug, PartialEq, Eq)]
pub struct BlockData {
    pub header: Header,
    pub transactions: Vec<FeeTransaction>,
    pub receipts: Vec<Receipt>,
}

/// What could not be fetched of a block.
#[derive(Clone, Copy, Debug, PartialEq, Eq, Structural)]
pub enum BlockFetchError {
    Block,
    Receipts,
}

/// A history that lacks only the base fee of the block after its range.
#[derive(Debug, PartialEq, Eq)]
pub struct FeeHistoryDraft {
    pub block_count: u64,
    pub newest: u64,
    pub base_fees: Vec<u128>,
    pub gas_used_ratio: Vec<Double>,
    pub rewards: Vec<Vec<u128>>,
    pub next: BaseFeeQuery,
}

/// A history of fees.
#[derive(Debug, PartialEq, Eq)]
pub struct MonadFeeHistory {
    pub base_fee_per_gas: Vec<u128>,
    pub gas_used_ratio: Vec<Double>,
    pub base_fee_per_blob_gas: Vec<u128>,
    pub blob_gas_used_ratio: Vec<Double>,
    pub oldest_block: u64,
    pub reward: Option<Vec<Vec<u128>>>,
}

/// Accepts a request for a history of one to 1024 blocks.
#[allow(non_snake_case)]
pub fn monad_eth_feeHistory(params: MonadEthHistoryParams) -> (request: JsonRpcResult<
    FeeHistoryRequest,
>)
    ensures
        if 1 <= params.block_count.0 <= MAX_BLOCK_COUNT {
            request == JsonRpcResult::Ok(
                (FeeHistoryRequest {
                    block_count: params.block_count.0,
                    newest_block: params.newest_block,
                    reward_percentiles: params.reward_percentiles,
                }),
            )
        } else {
            request matches Err(error) && error.is_custom("block count must be between 1 and 1024"@)
        },
        request matches Ok(request) ==> request.wf(),
{
    let block_count: u64 = params.block_count.0;
    if block_count < 1 || block_count > MAX_BLOCK_COUNT {
        return Err(JsonRpcError::custom("block count must be between 1 and 1024"));
    }
    Ok(
        FeeHistoryRequest {
            block_count,
            newest_block: params.newest_block,
            reward_percentiles: params.reward_percentiles,
        },
    )
}

/// Whether a percentile is below zero or above one hundred.
pub open spec fn out_of_range(percentiles: Seq<Double>) -> bool {
    exists|i: int|
        0 <= i < percentiles.len() && ((#[trigger] percentiles[i]).below_zero_spec()
            || percentiles[i].above_hundred_spec())
}

/// Whether each percentile is at most the next.
pub open spec fn ascending(percentiles: Seq<Double>) -> bool {
    forall|i: int, j: int|
        0 <= i && j == i + 1 && j < percentiles.len() ==> (#[trigger] percentiles[i]).at_most_spec(
            #[trigger] percentiles[j],
        )
}

/// The percentiles of which rewards are told: no list is the same as an empty one.
pub open spec fn requested(percentiles: Option<Vec<Double>>) -> Option<Vec<Double>> {
    match percentiles {
        Some(percentiles) => if percentiles@.len() == 0 {
            None
        } else {
            Some(percentiles)
        },
        None => None,
    }
}

/// The error, if any, that answers a request with the given percentiles.
pub open spec fn percentiles_error(percentiles: Option<Vec<Double>>) -> Option<Seq<char>> {
    match percentiles {
        Some(percentiles) => if out_of_range(percentiles@) {
            Some("reward percentiles must be between 0-100"@)
        } else if !ascending(percentiles@) {
            Some("reward percentiles must be sorted"@)
        } else {
            None
        },
        None => None,
    }
}

fn any_out_of_range(percentiles: &Vec<Double>) -> (found: bool)
    ensures
        found == out_of_range(percentiles@),
{
    let mut i: usize = 0;
    while i < percentiles.len()
        invariant
            i <= percentiles.len(),
            forall|j: int|
                0 <= j < i ==> !(#[trigger] percentiles@[j]).below_zero_spec()
                    && !percentiles@[j].above_hundred_spec(),
        decreases percentiles.len() - i,
    {
        if percentiles[i].below_zero() || percentiles[i].above_hundred() {
            return true;
        }
        i = i + 1;
    }
    false
}

fn are_ascending(percentiles: &Vec<Double>) -> (sorted: bool)
    ensures
        sorted == ascending(percentiles@),
{
    let mut i: usize = 1;
    while i < percentiles.len()
        invariant
            1 <= i,
            forall|j: int, k: int|
                0 <= j && k == j + 1 && k < i && k < percentiles.len() ==> (
                #[trigger] percentiles@[j]).at_most_spec(#[trigger] percentiles@[k]),
        decreases percentiles.len() - i,
    {
        if !percentiles[i - 1].at_most(percentiles[i]) {
            assert(!percentiles@[i - 1].at_most_spec(percentiles@[i as int]));
            return false;
        }
        i = i + 1;
    }
    true
}

impl FeeHistoryRequest {
    /// The block count is one that was accepted.
    pub open spec fn wf(self) -> bool {
        1 <= self.block_count <= MAX_BLOCK_COUNT
    }

    /// The range of blocks that the request spans, up to the block of the given header.
    pub open spec fn range(self, header: Header) -> FeeHistoryRange {
        FeeHistoryRange {
            block_count: self.block_count,
            newest_block: self.newest_block,
            newest: header.number,
            oldest: if header.number >= self.block_count - 1 {
                (header.number - (self.block_count - 1)) as u64
            } else {
                0
            },
            percentiles: requested(self.reward_percentiles),
        }
    }

    /// Goes on with the header of the newest block, where that could be fetched, and checks the
    /// percentiles.
    pub fn with_header(self, header: Option<Header>) -> (range: JsonRpcResult<FeeHistoryRange>)
        requires
            self.wf(),
        ensures
            range matches Ok(range) ==> range.wf(),
            match header {
                None => range matches Err(error) && error.is_internal_error(
                    "could not get block data"@,
                ),
                Some(header) => match percentiles_error(self.reward_percentiles) {
                    Some(text) => range matches Err(error) && error.is_internal_error(text),
                    None => range == JsonRpcResult::Ok(self.range(header)),
                },
            },
    {
        let header = match header {
            Some(header) => header,
            None => return Err(JsonRpcError::internal_error("could not get block data")),
        };
        let percentiles = match self.reward_percentiles {
            Some(percentiles) => {
                if any_out_of_range(&percentiles) {
                    return Err(
                        JsonRpcError::internal_error("reward percentiles must be between 0-100"),
                    );
                }
                if !are_ascending(&percentiles) {
                    return Err(JsonRpcError::internal_error("reward percentiles must be sorted"));
                }
                if percentiles.len() == 0 {
                    None
                } else {
                    Some(percentiles)
                }
            },
            None => None,
        };
        Ok(
            FeeHistoryRange {
                block_count: self.block_count,
                newest_block: self.newest_block,
                newest: header.number,
                oldest: header.number.saturating_sub(self.block_count - 1),
                percentiles,
            },
        )
    }
}

/// The answer to a request of which a block could not be fetched.
pub open spec fn fetch_error_text(error: BlockFetchError) -> Seq<char> {
    match error {
        BlockFetchError::Block => "could not get block data"@,
        BlockFetchError::Receipts => "could not get block receipts"@,
    }
}

/// Whether every block was fetched.
pub open spec fn all_fetched(blocks: Seq<Result<BlockData, BlockFetchError>>) -> bool {
    forall|i: int| 0 <= i < blocks.len() ==> (#[trigger] blocks[i]) is Ok
}

/// Whether the block at the given place is the first that could not be fetched, for the given
/// reason.
pub open spec fn first_failure(
    blocks: Seq<Result<BlockData, BlockFetchError>>,
    i: int,
    error: BlockFetchError,
) -> bool {
    &&& 0 <= i < blocks.len()
    &&& blocks[i] == Result::<BlockData, BlockFetchError>::Err(error)
    &&& forall|j: int| 0 <= j < i ==> (#[trigger] blocks[j]) is Ok
}

impl BlockData {
    /// The rewards of the block.
    pub open spec fn rewards(self, percentiles: Option<Vec<Double>>) -> Seq<u128> {
        fee_history_rewards(
            self.transactions@,
            self.receipts@,
            self.header.base_fee_spec(),
            self.header.gas_used,
            optional_view(percentiles),
        )
    }

    /// Whether the rewards of the block can be told.
    pub open spec fn rewards_fit(self, percentiles: Option<Vec<Double>>) -> bool {
        rewards_fit(
            self.transactions@,
            self.receipts@,
            self.header.base_fee_spec(),
            self.header.gas_used,
            optional_view(percentiles),
        )
    }
}

/// The percentiles, as a sequence.
pub open spec fn optional_view(percentiles: Option<Vec<Double>>) -> Option<Seq<Double>> {
    match percentiles {
        Some(percentiles) => Some(percentiles@),
        None => None,
    }
}

impl FeeHistoryRange {
    /// The block count is one that was accepted.
    pub open spec fn wf(self) -> bool {
        1 <= self.block_count <= MAX_BLOCK_COUNT
    }

    /// Whether the history of the given blocks can be told: the rewards of each can, and 64 bits
    /// hold the number of the block after them.
    pub open spec fn blocks_fit_spec(
        self,
        blocks: Seq<Result<BlockData, BlockFetchError>>,
    ) -> bool {
        all_fetched(blocks) ==> {
            &&& has_next(self.newest_block)
            &&& forall|i: int|
                0 <= i < blocks.len() ==> (#[trigger] blocks[i])->Ok_0.rewards_fit(
                    self.percentiles,
                )
        }
    }

    /// The base fee of the last of the blocks, zero where there is none.
    pub open spec fn last_base_fee(blocks: Seq<Result<BlockData, BlockFetchError>>) -> u64 {
        if blocks.len() == 0 {
            0
        } else {
            blocks.last()->Ok_0.header.base_fee_spec()
        }
    }

    /// Whether the draft holds, for each block in order, its base fee, the gas it used out of its
    /// limit and its rewards, and asks for the base fee of the block after them.
    pub open spec fn drafts(
        self,
        blocks: Seq<Result<BlockData, BlockFetchError>>,
        draft: FeeHistoryDraft,
    ) -> bool {
        &&& draft.block_count == self.block_count
        &&& draft.newest == self.newest
        &&& draft.base_fees@ == Seq::new(
            blocks.len(),
            |i: int| blocks[i]->Ok_0.header.base_fee_spec() as u128,
        )
        &&& draft.gas_used_ratio@.len() == blocks.len()
        &&& forall|i: int|
            0 <= i < blocks.len() ==> is_ratio(
                blocks[i]->Ok_0.header.gas_used,
                blocks[i]->Ok_0.header.gas_limit,
                #[trigger] draft.gas_used_ratio@[i],
            )
        &&& draft.rewards@.len() == blocks.len()
        &&& forall|i: int|
            0 <= i < blocks.len() ==> (#[trigger] draft.rewards@[i])@ == blocks[i]->Ok_0.rewards(
                self.percentiles,
            )
        &&& draft.next == next_base_fee_query(self.newest_block, Self::last_base_fee(blocks))
    }

    /// The percentiles of which rewards are told.
    fn percentiles_ref(&self) -> (r: Option<&Vec<Double>>)
        ensures
            percentiles_view(r) == optional_view(self.percentiles),
    {
        match &self.percentiles {
            Some(percentiles) => Some(percentiles),
            None => None,
        }
    }

    /// Whether the history of the given blocks can be told.
    pub fn blocks_fit(&self, blocks: &Vec<Result<BlockData, BlockFetchError>>) -> (fit: bool)
        ensures
            fit == self.blocks_fit_spec(blocks@),
    {
        let mut fit = match self.newest_block {
            BlockTags::Number(number) => number.0 < u64::MAX,
            _ => true,
        };
        assert(fit == has_next(self.newest_block));
        let mut i: usize = 0;
        while i < blocks.len()
            invariant
                i <= blocks.len(),
                forall|j: int| 0 <= j < i ==> (#[trigger] blocks@[j]) is Ok,
                fit <==> (has_next(self.newest_block) && forall|j: int|
                    0 <= j < i ==> (#[trigger] blocks@[j])->Ok_0.rewards_fit(self.percentiles)),
            decreases blocks.len() - i,
        {
            match &blocks[i] {
                Ok(block) => {
                    let told = rewards_can_be_told(
                        &block.transactions,
                        &block.receipts,
                        block.header.base_fee(),
                        block.header.gas_used,
                        self.percentiles_ref(),
                    );
                    assert(told == blocks@[i as int]->Ok_0.rewards_fit(self.percentiles));
                    fit = fit && told;
                },
                Err(_) => {
                    return true;
                },
            }
            i = i + 1;
        }
        fit
    }

    /// Goes on with the blocks of the range, in order, as far as they could be fetched.
    pub fn with_blocks(self, blocks: Vec<Result<BlockData, BlockFetchError>>) -> (draft:
        JsonRpcResult<FeeHistoryDraft>)
        requires
            self.wf(),
            self.blocks_fit_spec(blocks@),
        ensures
            draft matches Ok(draft) ==> draft.wf(),
            match draft {
                Ok(draft) => all_fetched(blocks@) && self.drafts(blocks@, draft),
                Err(error) => exists|i: int, failure: BlockFetchError| #[trigger]
                    first_failure(blocks@, i, failure) && error.is_internal_error(
                        fetch_error_text(failure),
                    ),
            },
            draft matches Ok(draft) ==> draft.base_fees@.len() == blocks@.len() && forall|i: int|
                0 <= i < blocks@.len() ==> #[trigger] draft.base_fees@[i] == match (
                blocks@[i]->Ok_0).header.base_fee_per_gas {
                    Some(fee) => fee,
                    None => 0,
                },
    {
        let mut i: usize = 0;
        while i < blocks.len()
            invariant
                i <= blocks.len(),
                forall|j: int| 0 <= j < i ==> (#[trigger] blocks@[j]) is Ok,
            decreases blocks.len() - i,
        {
            match &blocks[i] {
                Ok(_) => {},
                Err(failure) => {
                    assert(first_failure(blocks@, i as int, *failure));
                    return Err(
                        match failure {
                            BlockFetchError::Block => JsonRpcError::internal_error(
                                "could not get block data",
                            ),
                            BlockFetchError::Receipts => JsonRpcError::internal_error(
                                "could not get block receipts",
                            ),
                        },
                    );
                },
            }
            i = i + 1;
        }
        let mut base_fees: Vec<u128> = Vec::new();
        let mut gas_used_ratio: Vec<Double> = Vec::new();
        let mut rewards: Vec<Vec<u128>> = Vec::new();
        let mut last_base_fee: u64 = 0;
        let mut k: usize = 0;
        while k < blocks.len()
            invariant
                k <= blocks.len(),
                all_fetched(blocks@),
                self.blocks_fit_spec(blocks@),
                base_fees.len() == k,
                gas_used_ratio.len() == k,
                rewards.len() == k,
                last_base_fee == Self::last_base_fee(blocks@.take(k as int)),
                forall|j: int|
                    0 <= j < k ==> #[trigger] base_fees@[j]
                        == blocks@[j]->Ok_0.header.base_fee_spec(),
                forall|j: int|
                    0 <= j < k ==> is_ratio(
                        blocks@[j]->Ok_0.header.gas_used,
                        blocks@[j]->Ok_0.header.gas_limit,
                        #[trigger] gas_used_ratio@[j],
                    ),
                forall|j: int|
                    0 <= j < k ==> (#[trigger] rewards@[j])@ == blocks@[j]->Ok_0.rewards(
                        self.percentiles,
                    ),
            decreases blocks.len() - k,
        {
            assert(blocks@[k as int] is Ok);
            assert(blocks@[k as int]->Ok_0.rewards_fit(self.percentiles));
            if let Ok(block) = &blocks[k] {
                let base_fee: u64 = block.header.base_fee();
                base_fees.push(base_fee as u128);
                gas_used_ratio.push(ratio(block.header.gas_used, block.header.gas_limit));
                rewards.push(
                    calculate_fee_history_rewards(
                        &block.transactions,
                        &block.receipts,
                        base_fee,
                        block.header.gas_used,
                        self.percentiles_ref(),
                    ),
                );
                last_base_fee = base_fee;
                assert(blocks@.take(k + 1).last() == blocks@[k as int]);
            }
            k = k + 1;
        }
        assert(blocks@.take(k as int) =~= blocks@);
        let next = get_next_block_base_fee(self.newest_block, last_base_fee);
        assert(base_fees@ =~= Seq::new(
            blocks@.len(),
            |i: int| blocks@[i]->Ok_0.header.base_fee_spec() as u128,
        ));
        Ok(
            FeeHistoryDraft {
                block_count: self.block_count,
                newest: self.newest,
                base_fees,
                gas_used_ratio,
                rewards,
                next,
            },
        )
    }
}

/// Whether every block has a reward.
pub open spec fn all_rewarded(rewards: Seq<Vec<u128>>) -> bool {
    forall|i: int| 0 <= i < rewards.len() ==> (#[trigger] rewards[i])@.len() > 0
}

impl FeeHistoryDraft {
    /// The block count is one that was accepted.
    pub open spec fn wf(self) -> bool {
        1 <= self.block_count <= MAX_BLOCK_COUNT
    }

    /// Whether the history is the draft with the given base fee after its own. The rewards are
    /// left out unless every block has some, and blobs are neither priced nor used.
    pub open spec fn completes(self, next_base_fee: u64, history: MonadFeeHistory) -> bool {
        &&& history.base_fee_per_gas@ == self.base_fees@.push(next_base_fee as u128)
        &&& history.gas_used_ratio == self.gas_used_ratio
        &&& history.base_fee_per_blob_gas@ == Seq::new(
            (self.block_count + 1) as nat,
            |i: int| 0u128,
        )
        &&& history.blob_gas_used_ratio@ == Seq::new(
            self.block_count as nat,
            |i: int| Double { bits: 0 },
        )
        &&& history.oldest_block == if self.newest >= self.block_count {
            self.newest - self.block_count
        } else {
            0
        }
        &&& history.reward == if all_rewarded(self.rewards@) {
            Some(self.rewards)
        } else {
            None
        }
    }

    /// Completes the history, with the fetched header where one was to be fetched.
    pub fn finish(self, header: Option<Header>) -> (history: JsonRpcResult<MonadFeeHistory>)
        requires
            self.wf(),
        ensures
            match self.next.answer_spec(header) {
                Some(fee) => history matches Ok(history) && self.completes(fee, history),
                None => history matches Err(error) && error.is_internal_error(
                    "could not get block data"@,
                ),
            },
    {
        let next_base_fee: u64 = match self.next.answer(header) {
            Ok(fee) => fee,
            Err(error) => return Err(error),
        };
        let mut base_fee_per_gas = self.base_fees;
        base_fee_per_gas.push(next_base_fee as u128);
        let mut rewarded: bool = true;
        let mut i: usize = 0;
        while i < self.rewards.len()
            invariant
                i <= self.rewards.len(),
                rewarded <==> forall|j: int| 0 <= j < i ==> (#[trigger] self.rewards@[j])@.len() > 0,
            decreases self.rewards.len() - i,
        {
            rewarded = rewarded && self.rewards[i].len() > 0;
            i = i + 1;
        }
        let count: usize = self.block_count as usize;
        let base_fee_per_blob_gas: Vec<u128> = vec![0u128; count + 1];
        let blob_gas_used_ratio: Vec<Double> = vec![Double { bits: 0 }; count];
        assert(base_fee_per_blob_gas@ =~= Seq::new(
            (self.block_count + 1) as nat,
            |i: int| 0u128,
        ));
        assert(blob_gas_used_ratio@ =~= Seq::new(
            self.block_count as nat,
            |i: int| Double { bits: 0 },
        ));
        Ok(
            MonadFeeHistory {
                base_fee_per_gas,
                gas_used_ratio: self.gas_used_ratio,
                base_fee_per_blob_gas,
                blob_gas_used_ratio,
                oldest_block: self.newest.saturating_sub(self.block_count),
                reward: if rewarded {
                    Some(self.rewards)
                } else {
                    None
                },
            },
        )
    }
}

/// How many blocks a history spans: as many as requested, but no more than the chain has.
pub open spec fn spanned(request: FeeHistoryRequest, header: Header) -> int {
    if request.block_count <= header.number + 1 {
        request.block_count as int
    } else {
        header.number + 1
    }
}

/// A history has as many blocks as requested, as far back as the chain reaches, a base fee for
/// each and for the block after them, and either no rewards or one per percentile and block. What
/// it says of blobs follows the requested number of blocks.
pub proof fn law_history_shape(
    request: FeeHistoryRequest,
    header: Header,
    blocks: Seq<Result<BlockData, BlockFetchError>>,
    draft: FeeHistoryDraft,
    next_base_fee: u64,
    history: MonadFeeHistory,
)
    requires
        request.wf(),
        blocks.len() == request.range(header).newest - request.range(header).oldest + 1,
        request.range(header).drafts(blocks, draft),
        draft.completes(next_base_fee, history),
    ensures
        blocks.len() == spanned(request, header),
        history.base_fee_per_gas@.len() == spanned(request, header) + 1,
        history.gas_used_ratio@.len() == spanned(request, header),
        history.base_fee_per_blob_gas@.len() == request.block_count + 1,
        history.blob_gas_used_ratio@.len() == request.block_count,
        requested(request.reward_percentiles) is None ==> history.reward is None,
        requested(request.reward_percentiles) matches Some(percentiles) ==> {
            &&& history.reward matches Some(rewards)
            &&& rewards@.len() == spanned(request, header)
            &&& forall|i: int|
                0 <= i < rewards@.len() ==> (#[trigger] rewards@[i])@.len() == percentiles@.len()
        },
{
    match requested(request.reward_percentiles) {
        Some(percentiles) => {
            assert forall|i: int| 0 <= i < blocks.len() implies (
            #[trigger] draft.rewards@[i])@.len() == percentiles@.len() by {
                assert(draft.rewards@[i]@ == blocks[i]->Ok_0.rewards(Some(percentiles)));
            }
        },
        None => {
            assert(draft.rewards@[0]@ == blocks[0]->Ok_0.rewards(None));
            assert(draft.rewards@[0]@.len() == 0);
        },
    }
}

/// Without percentiles to tell rewards of, a history of at least one block has none; with some,
/// it has rewards for every block, however far back the chain reaches.
pub proof fn law_rewards_on_request(
    range: FeeHistoryRange,
    blocks: Seq<Result<BlockData, BlockFetchError>>,
    draft: FeeHistoryDraft,
    next_base_fee: u64,
    history: MonadFeeHistory,
)
    requires
        blocks.len() > 0,
        range.percentiles matches Some(percentiles) ==> percentiles@.len() > 0,
        range.drafts(blocks, draft),
        draft.completes(next_base_fee, history),
    ensures
        history.reward is Some <==> range.percentiles is Some,
{
    match range.percentiles {
        Some(percentiles) => {
            assert forall|i: int| 0 <= i < blocks.len() implies (
            #[trigger] draft.rewards@[i])@.len() > 0 by {
                assert(draft.rewards@[i]@ == blocks[i]->Ok_0.rewards(Some(percentiles)));
            }
        },
        None => {
            assert(draft.rewards@[0]@ == blocks[0]->Ok_0.rewards(None));
            assert(draft.rewards@[0]@.len() == 0);
        },
    }
}

} // verus!
