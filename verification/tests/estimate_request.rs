use monad_gas::estimate_request::{
    monad_eth_estimateGas, EstimateGasReady, EstimateGasRequest, EstimatePlan, GasEstimator,
    MonadEthEstimateGasParams,
};
use monad_gas::estimation::Phase;
use monad_gas::types::{
    Address, BlockKey, BlockTags, CallInput, CallRequest, CallResult, Header, JsonRpcError,
    Quantity, SuccessCallResult, Transaction, TxKind, U256,
};

fn request(gas: Option<u64>, input: Option<Vec<u8>>, data: Option<Vec<u8>>) -> CallRequest {
    CallRequest {
        from: None,
        gas: gas.map(U256::from_u64),
        input: CallInput { input, data },
        chain_id: None,
    }
}

fn params(tx: CallRequest) -> MonadEthEstimateGasParams {
    MonadEthEstimateGasParams {
        tx,
        block: BlockTags::Latest,
    }
}

fn header(gas_limit: u64) -> Header {
    Header {
        number: 10,
        gas_limit,
        gas_used: 0,
        base_fee_per_gas: Some(1),
    }
}

fn accepted(gas: Option<u64>) -> EstimateGasRequest {
    monad_eth_estimateGas(20143, 1_000, params(request(gas, None, None))).unwrap()
}

#[test]
fn inputs_under_two_names_must_agree() {
    let accept = |input: Option<Vec<u8>>, data: Option<Vec<u8>>| {
        monad_eth_estimateGas(1, 2, params(request(None, input, data)))
            .map(|accepted| (accepted.tx.input.input, accepted.tx.input.data))
    };
    assert_eq!(
        accept(Some(vec![1]), Some(vec![2])),
        Err(JsonRpcError::InvalidParams)
    );
    assert_eq!(
        accept(Some(vec![1]), Some(vec![1, 2])),
        Err(JsonRpcError::InvalidParams)
    );
    assert_eq!(accept(Some(vec![1]), Some(vec![1])), Ok((Some(vec![1]), None)));
    assert_eq!(accept(Some(vec![1]), None), Ok((Some(vec![1]), None)));
    assert_eq!(accept(None, Some(vec![2])), Ok((Some(vec![2]), None)));
    assert_eq!(accept(None, None), Ok((None, None)));
}

#[test]
fn requests_beyond_the_provider_limit_are_refused() {
    let refused = monad_eth_estimateGas(1, 1_000, params(request(Some(1_001), None, None)));
    assert_eq!(
        refused,
        Err(JsonRpcError::EthCall {
            message: "user-specified gas exceeds provider limit".to_string(),
            data: None,
        })
    );
    assert!(monad_eth_estimateGas(1, 1_000, params(request(Some(1_000), None, None))).is_ok());
    let mut huge = request(None, None, None);
    huge.gas = Some(U256 { high: 1, low: 0 });
    assert!(monad_eth_estimateGas(1, u64::MAX, params(huge)).is_err());
}

#[test]
fn blocks_and_headers_must_exist() {
    assert_eq!(
        accepted(None).with_block_key(None),
        Err(JsonRpcError::BlockNotFound)
    );
    let at = || accepted(None).with_block_key(Some(BlockKey::Finalized(10))).unwrap();
    assert_eq!(at().with_header(Ok(None)), Err(JsonRpcError::BlockNotFound));
    assert_eq!(
        at().with_header(Err("database".to_string())),
        Err(JsonRpcError::Internal {
            message: "database".to_string(),
        })
    );
}

#[test]
fn the_block_bounds_the_gas() {
    let fill = |gas: Option<u64>, gas_limit: u64| {
        accepted(gas)
            .with_block_key(Some(BlockKey::Finalized(10)))
            .unwrap()
            .with_header(Ok(Some(header(gas_limit))))
            .unwrap()
    };
    let low = fill(None, 800);
    assert_eq!(low.gas_cap(), U256::from_u64(800));
    assert_eq!(low.original_tx_gas, U256::from_u64(800));
    assert!(!low.gas_specified);
    let high = fill(Some(900), 5_000);
    assert_eq!(high.gas_cap(), U256::from_u64(1_000));
    assert_eq!(high.original_tx_gas, U256::from_u64(900));
    assert!(high.gas_specified);
}

fn ready_from(tx: CallRequest) -> Result<EstimateGasReady, JsonRpcError> {
    accepted(None)
        .with_block_key(Some(BlockKey::Proposed(11, [3; 32])))
        .unwrap()
        .with_header(Ok(Some(header(5_000))))
        .unwrap()
        .with_filled(Ok((tx, header(6_000))))
}

#[test]
fn requests_for_other_chains_are_refused() {
    let on_chain = |chain_id: Option<u64>| {
        let mut tx = request(Some(1_000), None, None);
        tx.chain_id = chain_id;
        ready_from(tx)
    };
    assert_eq!(
        on_chain(Some(1)),
        Err(JsonRpcError::InvalidChainId {
            expected: 20143,
            got: 1,
        })
    );
    assert_eq!(on_chain(Some(20143)).unwrap().tx.chain_id, Some(20143));
    let ready = on_chain(None).unwrap();
    assert_eq!(ready.tx.chain_id, Some(20143));
    assert_eq!(ready.estimator.chain_id, 20143);
    assert_eq!(ready.estimator.sender, Address { bytes: [0; 20] });
    assert_eq!(ready.protocol_gas_limit, 6_000);
    assert_eq!(ready.provider_gas_limit, 1_000);
}

#[test]
fn errors_of_filling_are_passed_on() {
    let fill = accepted(None)
        .with_block_key(Some(BlockKey::Finalized(10)))
        .unwrap()
        .with_header(Ok(Some(header(5_000))))
        .unwrap();
    assert_eq!(
        fill.with_filled(Err(JsonRpcError::InvalidParams)),
        Err(JsonRpcError::InvalidParams)
    );
}

#[test]
fn executions_name_the_block() {
    let sender = Address { bytes: [9; 20] };
    let finalized = GasEstimator::new(1, header(5), sender, BlockKey::Finalized(12), true);
    let arguments = finalized.eth_call();
    assert_eq!((arguments.block_number, arguments.block_id), (12, None));
    assert_eq!(arguments.sender, sender);
    assert!(arguments.gas_specified);
    let proposed = GasEstimator::new(1, header(5), sender, BlockKey::Proposed(13, [4; 32]), false);
    let arguments = proposed.eth_call();
    assert_eq!((arguments.block_number, arguments.block_id), (13, Some([4; 32])));
}

fn ready() -> EstimateGasReady {
    ready_from(request(Some(1_000), None, None)).unwrap()
}

fn transaction(kind: TxKind, input: Vec<u8>) -> Result<Transaction, JsonRpcError> {
    Ok(Transaction {
        gas_limit: 1_000,
        kind,
        input,
    })
}

const TO: Address = Address { bytes: [5; 20] };

fn search(plan: EstimatePlan) -> bool {
    match plan {
        EstimatePlan::Search { search } => {
            assert_eq!(search.request_gas, Some(U256::from_u64(1_000)));
            assert_eq!(search.phase, Phase::BuildRequest);
            true
        }
        _ => false,
    }
}

#[test]
fn only_plain_transfers_are_tried_as_such() {
    let plan = |kind: TxKind, input: Vec<u8>| ready().with_transaction(transaction(kind, input)).unwrap();
    assert!(search(plan(TxKind::Create, vec![])));
    assert!(search(plan(TxKind::Call(TO), vec![1])));
    assert!(!search(plan(TxKind::Call(TO), vec![])));
    assert_eq!(
        ready().with_transaction(Err(JsonRpcError::InvalidParams)),
        Err(JsonRpcError::InvalidParams)
    );
}

fn transfer() -> EstimatePlan {
    ready()
        .with_transaction(transaction(TxKind::Call(TO), vec![]))
        .unwrap()
        .transfer_built(transaction(TxKind::Call(TO), vec![]))
        .unwrap()
}

#[test]
fn transfers_to_accounts_without_code_take_fixed_gas() {
    assert_eq!(EstimatePlan::transfer_gas(), U256::from_u64(21_000));
    match transfer() {
        EstimatePlan::ReadAccount { to, .. } => assert_eq!(to, TO),
        other => panic!("{:?}", other),
    }
    let success = CallResult::Success(SuccessCallResult {
        gas_used: 21_000,
        gas_refund: 0,
    });
    assert_eq!(
        transfer().account_read(Some([0; 32])).transfer_executed(success),
        EstimatePlan::Finished {
            estimate: Quantity(21_000)
        }
    );
}

#[test]
fn transfers_that_do_not_apply_are_searched_for() {
    let mut code_hash = [0; 32];
    code_hash[31] = 1;
    assert!(search(transfer().account_read(Some(code_hash))));
    assert!(search(transfer().account_read(None)));
    assert!(search(
        transfer().account_read(Some([0; 32])).transfer_executed(CallResult::Other)
    ));
    let built = ready()
        .with_transaction(transaction(TxKind::Call(TO), vec![]))
        .unwrap()
        .transfer_built(Err(JsonRpcError::InvalidParams));
    assert_eq!(built, Err(JsonRpcError::InvalidParams));
}

#[test]
fn wide_integers_compare_by_value() {
    let wide = |high: u128, low: u128| U256 { high, low };
    assert!(wide(0, 5).less_than(wide(0, 6)));
    assert!(wide(0, u128::MAX).less_than(wide(1, 0)));
    assert!(!wide(1, 0).less_than(wide(0, u128::MAX)));
    assert!(!wide(1, 1).less_than(wide(1, 1)));
}

#[test]
fn out_of_gas_is_the_providers_only_without_gas() {
    let cause = |gas: Option<u64>, gas_limit: u64| {
        let ready = accepted(gas)
            .with_block_key(Some(BlockKey::Finalized(10)))
            .unwrap()
            .with_header(Ok(Some(header(gas_limit))))
            .unwrap()
            .with_filled(Ok((request(Some(500), None, None), header(gas_limit))))
            .unwrap();
        ready.provider_gas_limit < ready.protocol_gas_limit
            && U256::from_u64(ready.provider_gas_limit).less_than(ready.original_tx_gas)
    };
    assert!(cause(None, 2_000));
    assert!(!cause(None, 1_000));
    assert!(!cause(Some(1_000), 2_000));
    assert!(!cause(Some(900), 800));
}
