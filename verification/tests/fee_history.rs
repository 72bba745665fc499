use monad_gas::double::Double;
use monad_gas::fee_history::{
    monad_eth_feeHistory, BlockData, BlockFetchError, FeeHistoryRange, MonadEthHistoryParams,
    MonadFeeHistory,
};
use monad_gas::gas_price::{
    gas_price_block, get_next_block_base_fee, monad_eth_gasPrice, monad_eth_maxPriorityFeePerGas,
    suggested_priority_fee, BaseFeeQuery,
};
use monad_gas::rewards::{FeeTransaction, Receipt};
use monad_gas::types::{BlockTags, Header, JsonRpcError, Quantity};

fn percentiles(list: &[f64]) -> Vec<Double> {
    list.iter().map(|p| Double { bits: p.to_bits() }).collect()
}

fn make_header(number: u64, gas_used: u64) -> Header {
    Header {
        number,
        gas_limit: 30_000_000,
        gas_used,
        base_fee_per_gas: Some(1_000),
    }
}

fn make_block(number: u64, transactions: Vec<FeeTransaction>) -> BlockData {
    let receipts = transactions.iter().map(|_| Receipt { gas_used: 21_000 }).collect();
    BlockData {
        header: make_header(number, 21_000 * transactions.len() as u64),
        transactions,
        receipts,
    }
}

fn make_tx(max_fee_per_gas: u128, max_priority_fee_per_gas: u128) -> FeeTransaction {
    FeeTransaction {
        max_fee_per_gas,
        max_priority_fee_per_gas: Some(max_priority_fee_per_gas),
    }
}

fn params(
    block_count: u64,
    newest_block: BlockTags,
    reward_percentiles: Option<Vec<Double>>,
) -> MonadEthHistoryParams {
    MonadEthHistoryParams {
        block_count: Quantity(block_count),
        newest_block,
        reward_percentiles,
    }
}

/// The history of a chain on which each block holds the same transactions.
fn history(
    params: MonadEthHistoryParams,
    head: u64,
    transactions: &dyn Fn() -> Vec<FeeTransaction>,
) -> Result<MonadFeeHistory, JsonRpcError> {
    let range = monad_eth_feeHistory(params)?.with_header(Some(make_header(head, 0)))?;
    let blocks = (range.oldest..=range.newest)
        .map(|number| Ok(make_block(number, transactions())))
        .collect::<Vec<_>>();
    assert!(range.blocks_fit(&blocks));
    let draft = range.with_blocks(blocks)?;
    let header = match draft.next {
        BaseFeeQuery::Known(_) => None,
        BaseFeeQuery::Fetch(_) => Some(Header {
            base_fee_per_gas: Some(1_234),
            ..make_header(head + 1, 0)
        }),
    };
    draft.finish(header)
}

fn ratios(list: &[Double]) -> Vec<f64> {
    list.iter().map(|ratio| f64::from_bits(ratio.bits)).collect()
}

#[test]
fn test_eth_fee_history() {
    // Fetch fee history for an empty block.
    let res = history(
        params(
            1,
            BlockTags::Latest,
            Some(percentiles(&[0.0, 25.0, 50.0, 75.0, 100.0])),
        ),
        1000,
        &|| vec![],
    )
    .expect("should get fee history");
    assert_eq!(res.oldest_block, 999);
    assert_eq!(res.base_fee_per_blob_gas, vec![0, 0]);
    assert_eq!(ratios(&res.blob_gas_used_ratio), vec![0.0]);
    assert_eq!(ratios(&res.gas_used_ratio), vec![0.0]);
    assert_eq!(res.base_fee_per_gas, vec![1_000, 1_000]);
    assert_eq!(res.reward, Some(vec![vec![0, 0, 0, 0, 0]]));

    // Fetch fee history for blocks that have 4 transactions.
    let res = history(
        params(1, BlockTags::Latest, Some(percentiles(&[50.0, 75.0]))),
        1000,
        &|| (1..=4).map(|i| make_tx(1000 * i, 1000 * i)).collect(),
    )
    .expect("should get fee history");

    let gas_used = 21_000.0 * 4.0 / 30_000_000.0;

    assert_eq!(res.oldest_block, 999);
    assert_eq!(res.base_fee_per_gas, vec![1_000, 1_000]);
    assert_eq!(ratios(&res.gas_used_ratio), vec![gas_used]);
    assert_eq!(res.reward, Some(vec![vec![2000, 3000]]));
}

#[test]
fn block_counts_are_limited() {
    for count in [0, 1025, u64::MAX] {
        assert_eq!(
            monad_eth_feeHistory(params(count, BlockTags::Latest, None)),
            Err(JsonRpcError::Custom {
                message: "block count must be between 1 and 1024".to_string(),
            })
        );
    }
    for count in [1, 1024] {
        assert_eq!(
            monad_eth_feeHistory(params(count, BlockTags::Latest, None))
                .unwrap()
                .block_count,
            count
        );
    }
}

fn internal<T>(message: &str) -> Result<T, JsonRpcError> {
    Err(JsonRpcError::Internal {
        message: message.to_string(),
    })
}

fn range_of(list: &[f64], header: Option<Header>) -> Result<FeeHistoryRange, JsonRpcError> {
    monad_eth_feeHistory(params(4, BlockTags::Safe, Some(percentiles(list))))
        .unwrap()
        .with_header(header)
}

#[test]
fn percentiles_are_checked_after_the_header() {
    let header = Some(make_header(1000, 0));
    let out_of_range = "reward percentiles must be between 0-100";
    assert_eq!(range_of(&[101.0], None), internal("could not get block data"));
    assert_eq!(range_of(&[100.5], header), internal(out_of_range));
    assert_eq!(range_of(&[-0.5, 3.0], header), internal(out_of_range));
    assert_eq!(range_of(&[3.0, 2.0, 101.0], header), internal(out_of_range));
    assert_eq!(
        range_of(&[3.0, 2.0], header),
        internal("reward percentiles must be sorted")
    );
    assert_eq!(
        range_of(&[f64::NAN, 2.0], header),
        internal("reward percentiles must be sorted")
    );
    let range = range_of(&[2.0, 2.0, 100.0], header).unwrap();
    assert_eq!((range.oldest, range.newest), (997, 1000));
    assert_eq!(range.percentiles, Some(percentiles(&[2.0, 2.0, 100.0])));
    assert!(range_of(&[f64::NAN], header).is_ok());
    assert_eq!(range_of(&[], header).unwrap().percentiles, None);
}

#[test]
fn the_first_block_that_fails_is_the_answer() {
    let blocks = |first: BlockFetchError, second: BlockFetchError| {
        vec![Ok(make_block(998, vec![])), Err(first), Err(second)]
    };
    let range = || range_of(&[50.0], Some(make_header(1000, 0))).unwrap();
    assert_eq!(
        range().with_blocks(blocks(BlockFetchError::Block, BlockFetchError::Receipts)),
        internal("could not get block data")
    );
    assert_eq!(
        range().with_blocks(blocks(BlockFetchError::Receipts, BlockFetchError::Block)),
        internal("could not get block receipts")
    );
}

#[test]
fn blocks_without_enough_receipts_do_not_fit() {
    let range = range_of(&[50.0], Some(make_header(1000, 0))).unwrap();
    let mut block = make_block(1000, vec![make_tx(1, 1), make_tx(2, 2)]);
    block.receipts.clear();
    assert!(!range.blocks_fit(&vec![Ok(make_block(999, vec![])), Ok(block)]));
    let range = monad_eth_feeHistory(params(1, BlockTags::Number(Quantity(u64::MAX)), None))
        .unwrap()
        .with_header(Some(make_header(u64::MAX, 0)))
        .unwrap();
    assert!(!range.blocks_fit(&vec![Ok(make_block(u64::MAX, vec![]))]));
}

#[test]
fn rewards_are_left_out_unless_requested() {
    for list in [None, Some(vec![])] {
        let res = history(params(3, BlockTags::Latest, list), 1000, &|| vec![make_tx(1, 1)]).unwrap();
        assert_eq!(res.reward, None);
        assert_eq!(res.base_fee_per_gas, vec![1_000; 4]);
        assert_eq!(res.gas_used_ratio.len(), 3);
    }
}

#[test]
fn histories_end_with_the_base_fee_after_them() {
    let res = history(
        params(2, BlockTags::Number(Quantity(1000)), Some(percentiles(&[10.0]))),
        1000,
        &|| vec![],
    )
    .unwrap();
    assert_eq!(res.base_fee_per_gas, vec![1_000, 1_000, 1_234]);
    assert_eq!(res.oldest_block, 998);
    assert_eq!(res.base_fee_per_blob_gas, vec![0; 3]);
    assert_eq!(res.blob_gas_used_ratio.len(), 2);
    assert_eq!(res.reward, Some(vec![vec![0], vec![0]]));
    // A chain shorter than the history.
    let res = history(params(5, BlockTags::Finalized, None), 1, &|| vec![]).unwrap();
    assert_eq!(res.base_fee_per_gas, vec![1_000, 1_000, 1_234]);
    assert_eq!(res.oldest_block, 0);
    assert_eq!(res.gas_used_ratio.len(), 2);
    assert_eq!(res.base_fee_per_blob_gas, vec![0; 6]);
    assert_eq!(res.blob_gas_used_ratio.len(), 5);
}

#[test]
fn a_missing_header_after_the_range_is_an_error() {
    let range = range_with_tag(BlockTags::Finalized);
    let draft = range.with_blocks(vec![Ok(make_block(1000, vec![]))]).unwrap();
    assert_eq!(draft.next, BaseFeeQuery::Fetch(BlockTags::Latest));
    assert_eq!(draft.finish(None), internal("could not get block data"));
    let draft = range_with_tag(BlockTags::Safe)
        .with_blocks(vec![Ok(make_block(1000, vec![]))])
        .unwrap();
    assert!(draft.finish(None).is_ok());
}

fn range_with_tag(tag: BlockTags) -> FeeHistoryRange {
    monad_eth_feeHistory(params(1, tag, None))
        .unwrap()
        .with_header(Some(make_header(1000, 0)))
        .unwrap()
}

#[test]
fn base_fees_of_the_next_block() {
    let number = |n: u64| BlockTags::Number(Quantity(n));
    assert_eq!(get_next_block_base_fee(BlockTags::Latest, 7), BaseFeeQuery::Known(7));
    assert_eq!(get_next_block_base_fee(BlockTags::Safe, 8), BaseFeeQuery::Known(8));
    assert_eq!(get_next_block_base_fee(number(41), 7), BaseFeeQuery::Fetch(number(42)));
    assert_eq!(
        get_next_block_base_fee(BlockTags::Finalized, 7),
        BaseFeeQuery::Fetch(BlockTags::Latest)
    );
    let query = BaseFeeQuery::Fetch(BlockTags::Latest);
    assert_eq!(query.answer(Some(make_header(1, 0))), Ok(1_000));
    let free = Header {
        base_fee_per_gas: None,
        ..make_header(1, 0)
    };
    assert_eq!(query.answer(Some(free)), Ok(0));
    assert_eq!(query.answer(None), internal("could not get block data"));
    assert_eq!(BaseFeeQuery::Known(9).answer(None), Ok(9));
}

#[test]
fn gas_prices_add_the_priority_fee() {
    assert_eq!(suggested_priority_fee(), Ok(2_000_000_000));
    assert_eq!(monad_eth_maxPriorityFeePerGas(), Ok(Quantity(2_000_000_000)));
    assert_eq!(gas_price_block(), BlockTags::Latest);
    assert_eq!(
        monad_eth_gasPrice(Some(make_header(1, 0))),
        Ok(Quantity(2_000_001_000))
    );
    assert_eq!(monad_eth_gasPrice(None), internal("could not get block data"));
}
