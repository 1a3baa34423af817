use chain_balances::abi::{decode_aggregate_output, encode_aggregate_output, encode_balance_of_call};
use chain_balances::error::Error;
use chain_balances::evm;
use chain_balances::hex::{parse_evm_address, Uint256};
use chain_balances::node_clients::{Chain, NodeClient};
use chain_balances::service::{
    AssetsBalancesRequest, AssetsBalancesResponse, BalanceKind, NativeBalanceRequest,
    NativeBalanceResponse, Service,
};

const HOLDER: &str = "0x1111111111111111111111111111111111111111";
const TOKEN_A: &str = "0xaaaaaaaaaaaaaaaaaaaaaaaaaaaaaaaaaaaaaaaa";
const TOKEN_B: &str = "0xbbbbbbbbbbbbbbbbbbbbbbbbbbbbbbbbbbbbbbbb";
const MULTICALL: &str = "0xcccccccccccccccccccccccccccccccccccccccc";

fn evm_client(multicall: Option<&str>) -> NodeClient {
    NodeClient::Evm(
        evm::NodeClient::try_new(
            "http://evm-node",
            "ETHEREUM",
            1,
            &None,
            &multicall.map(|s| s.to_string()),
        )
        .unwrap(),
    )
}

fn service(multicall: Option<&str>) -> Service {
    Service::new(vec![(Chain::Ethereum, evm_client(multicall))])
}

/// The 32-byte return word carrying `v`.
fn word(v: u64) -> Vec<u8> {
    Uint256::from_u64(v).bytes
}

#[test]
fn unbatched_path_returns_balances_in_request_order() {
    let service = service(None);
    let ids = vec![TOKEN_A.to_string(), TOKEN_B.to_string()];
    let request = service
        .get_assets_balances_request(Chain::Ethereum, HOLDER.to_string(), ids.clone())
        .unwrap();
    match &request {
        AssetsBalancesRequest::EvmUnbatched { base_url, chain_id, calls } => {
            assert_eq!(base_url, "http://evm-node");
            assert_eq!(*chain_id, 1);
            assert_eq!(calls.len(), 2);
            assert_eq!(calls[0].target.bytes, vec![0xaa; 20]);
            assert_eq!(calls[1].target.bytes, vec![0xbb; 20]);
        }
        other => panic!("expected the unbatched path, got {:?}", other),
    }
    let balances = service
        .get_assets_balances_response(
            Chain::Ethereum,
            &ids,
            AssetsBalancesResponse::EvmUnbatched(vec![word(5), word(42)]),
        )
        .unwrap();
    assert_eq!(balances.len(), 2);
    assert_eq!(balances[0].asset_id, TOKEN_A);
    assert_eq!(balances[0].balances[0].kind, BalanceKind::Wallet);
    assert_eq!(balances[0].balances[0].amount, 5);
    assert_eq!(balances[1].asset_id, TOKEN_B);
    assert_eq!(balances[1].balances[0].kind, BalanceKind::Wallet);
    assert_eq!(balances[1].balances[0].amount, 42);
}

#[test]
fn batched_path_gives_the_same_balances_as_the_unbatched_one() {
    let unbatched = service(None);
    let ids = vec![TOKEN_A.to_string(), TOKEN_B.to_string()];
    let via_unbatched = unbatched
        .get_assets_balances_response(
            Chain::Ethereum,
            &ids,
            AssetsBalancesResponse::EvmUnbatched(vec![word(5), word(42)]),
        )
        .unwrap();

    let batched = service(Some(MULTICALL));
    let request = batched
        .get_assets_balances_request(Chain::Ethereum, HOLDER.to_string(), ids.clone())
        .unwrap();
    match &request {
        AssetsBalancesRequest::EvmBatched { target, .. } => {
            assert_eq!(target.bytes, vec![0xcc; 20]);
        }
        other => panic!("expected the batched path, got {:?}", other),
    }
    let answer = encode_aggregate_output(123, &vec![word(5), word(42)]);
    let via_batched = batched
        .get_assets_balances_response(
            Chain::Ethereum,
            &ids,
            AssetsBalancesResponse::EvmBatched(answer),
        )
        .unwrap();

    assert_eq!(via_batched.len(), via_unbatched.len());
    for (b, u) in via_batched.iter().zip(via_unbatched.iter()) {
        assert_eq!(b.asset_id, u.asset_id);
        assert_eq!(b.balances[0].kind, u.balances[0].kind);
        assert_eq!(b.balances[0].amount, u.balances[0].amount);
    }
}

#[test]
fn batched_answer_with_wrong_count_is_a_decode_error() {
    let service = service(Some(MULTICALL));
    let ids = vec![TOKEN_A.to_string(), TOKEN_B.to_string()];
    let answer = encode_aggregate_output(123, &vec![word(5)]);
    let r = service.get_assets_balances_response(
        Chain::Ethereum,
        &ids,
        AssetsBalancesResponse::EvmBatched(answer),
    );
    assert!(matches!(r, Err(Error::UpstreamDecode(_))));
}

#[test]
fn truncated_batched_answer_is_a_decode_error() {
    let service = service(Some(MULTICALL));
    let ids = vec![TOKEN_A.to_string()];
    let r = service.get_assets_balances_response(
        Chain::Ethereum,
        &ids,
        AssetsBalancesResponse::EvmBatched(vec![0u8; 40]),
    );
    assert!(matches!(r, Err(Error::UpstreamDecode(_))));
}

#[test]
fn return_word_round_trips_at_boundary_values() {
    for v in [0u64, 1, u64::MAX] {
        let w = Uint256::from_u64(v);
        assert_eq!(w.to_u64(), Some(v));
    }
}

#[test]
fn values_at_and_over_two_to_the_sixty_four_overflow() {
    // 2^64: byte 23 is one, the low eight bytes are zero.
    let mut two_64 = vec![0u8; 32];
    two_64[23] = 1;
    let w = Uint256::from_word(two_64).unwrap();
    assert_eq!(w.to_u64(), None);
    // 2^256 - 1: every byte is 0xff.
    let max = Uint256::from_word(vec![0xffu8; 32]).unwrap();
    assert_eq!(max.to_u64(), None);

    let service = service(None);
    let r = service.get_balance_response(Chain::Ethereum, NativeBalanceResponse::EvmWei(max));
    match r {
        Err(Error::NumericOverflow(m)) => assert_eq!(m, "ETHEREUM"),
        other => panic!("expected an overflow error, got {:?}", other),
    }
}

#[test]
fn native_balance_carries_the_native_token() {
    let service = service(None);
    let request = service
        .get_balance_request(Chain::Ethereum, HOLDER.to_string())
        .unwrap();
    match &request {
        NativeBalanceRequest::EvmGetBalance { base_url, chain_id, address } => {
            assert_eq!(base_url, "http://evm-node");
            assert_eq!(*chain_id, 1);
            assert_eq!(address.bytes, vec![0x11; 20]);
        }
        other => panic!("expected a native balance call, got {:?}", other),
    }
    let wei = Uint256::from_u64(12345);
    let balance = service
        .get_balance_response(Chain::Ethereum, NativeBalanceResponse::EvmWei(wei))
        .unwrap();
    assert_eq!(balance.asset_id, "ETHEREUM");
    assert_eq!(balance.balances.len(), 1);
    assert_eq!(balance.balances[0].kind, BalanceKind::Wallet);
    assert_eq!(balance.balances[0].amount, 12345);
}

#[test]
fn malformed_holder_address_is_invalid_address() {
    let service = service(None);
    let r = service.get_balance_request(Chain::Ethereum, "0x123".to_string());
    assert!(matches!(r, Err(Error::InvalidAddress(_))));
    let r = service.get_assets_balances_request(
        Chain::Ethereum,
        HOLDER.to_string(),
        vec!["not-an-address".to_string()],
    );
    match r {
        Err(Error::InvalidAddress(m)) => assert_eq!(m, "not-an-address"),
        other => panic!("expected InvalidAddress, got {:?}", other),
    }
}

#[test]
fn empty_asset_list_gives_an_empty_balance_list_on_both_paths() {
    let ids: Vec<String> = vec![];
    let unbatched = service(None);
    let request = unbatched
        .get_assets_balances_request(Chain::Ethereum, HOLDER.to_string(), ids.clone())
        .unwrap();
    match &request {
        AssetsBalancesRequest::EvmUnbatched { calls, .. } => assert!(calls.is_empty()),
        other => panic!("expected the unbatched path, got {:?}", other),
    }
    let balances = unbatched
        .get_assets_balances_response(
            Chain::Ethereum,
            &ids,
            AssetsBalancesResponse::EvmUnbatched(vec![]),
        )
        .unwrap();
    assert!(balances.is_empty());

    let batched = service(Some(MULTICALL));
    let answer = encode_aggregate_output(7, &vec![]);
    let balances = batched
        .get_assets_balances_response(
            Chain::Ethereum,
            &ids,
            AssetsBalancesResponse::EvmBatched(answer),
        )
        .unwrap();
    assert!(balances.is_empty());
}

#[test]
fn duplicate_asset_ids_each_get_their_balance() {
    let service = service(None);
    let ids = vec![TOKEN_A.to_string(), TOKEN_A.to_string()];
    let balances = service
        .get_assets_balances_response(
            Chain::Ethereum,
            &ids,
            AssetsBalancesResponse::EvmUnbatched(vec![word(5), word(5)]),
        )
        .unwrap();
    assert_eq!(balances.len(), 2);
    assert_eq!(balances[0].asset_id, TOKEN_A);
    assert_eq!(balances[1].asset_id, TOKEN_A);
    assert_eq!(balances[0].balances[0].amount, 5);
    assert_eq!(balances[1].balances[0].amount, 5);
}

#[test]
fn per_asset_overflow_names_the_asset() {
    let service = service(None);
    let ids = vec![TOKEN_A.to_string(), TOKEN_B.to_string()];
    let mut wide = vec![0u8; 32];
    wide[0] = 1;
    let r = service.get_assets_balances_response(
        Chain::Ethereum,
        &ids,
        AssetsBalancesResponse::EvmUnbatched(vec![word(5), wide]),
    );
    match r {
        Err(Error::NumericOverflow(m)) => assert_eq!(m, TOKEN_B),
        other => panic!("expected an overflow error, got {:?}", other),
    }
}

fn balance_of_function() -> ethabi::Function {
    #[allow(deprecated)]
    ethabi::Function {
        name: "balanceOf".to_string(),
        inputs: vec![ethabi::Param {
            name: "address".to_string(),
            kind: ethabi::ParamType::Address,
            internal_type: None,
        }],
        outputs: vec![ethabi::Param {
            name: "balanceOf".to_string(),
            kind: ethabi::ParamType::Uint(256),
            internal_type: None,
        }],
        constant: None,
        state_mutability: ethabi::StateMutability::View,
    }
}

fn aggregate_function() -> ethabi::Function {
    #[allow(deprecated)]
    ethabi::Function {
        name: "aggregate".to_string(),
        inputs: vec![ethabi::Param {
            name: "calls".to_string(),
            kind: ethabi::ParamType::Array(Box::new(ethabi::ParamType::Tuple(vec![
                ethabi::ParamType::Address,
                ethabi::ParamType::Bytes,
            ]))),
            internal_type: None,
        }],
        outputs: vec![
            ethabi::Param {
                name: "blockNumber".to_string(),
                kind: ethabi::ParamType::Uint(256),
                internal_type: None,
            },
            ethabi::Param {
                name: "returnData".to_string(),
                kind: ethabi::ParamType::Array(Box::new(ethabi::ParamType::Bytes)),
                internal_type: None,
            },
        ],
        constant: None,
        state_mutability: ethabi::StateMutability::View,
    }
}

#[test]
fn balance_of_call_data_matches_the_reference_encoder() {
    let holder = parse_evm_address(HOLDER).unwrap();
    let ours = encode_balance_of_call(&holder);
    let reference = balance_of_function()
        .encode_input(&[ethabi::Token::Address(ethabi::Address::from_slice(&holder.bytes))])
        .unwrap();
    assert_eq!(ours, reference);
}

#[test]
fn aggregate_call_data_matches_the_reference_encoder() {
    let holder = parse_evm_address(HOLDER).unwrap();
    let targets = vec![
        parse_evm_address(TOKEN_A).unwrap(),
        parse_evm_address(TOKEN_B).unwrap(),
    ];
    let ours = chain_balances::abi::encode_aggregate_call(&targets, &holder);

    let call_data = encode_balance_of_call(&holder);
    let tuples: Vec<ethabi::Token> = targets
        .iter()
        .map(|t| {
            ethabi::Token::Tuple(vec![
                ethabi::Token::Address(ethabi::Address::from_slice(&t.bytes)),
                ethabi::Token::Bytes(call_data.clone()),
            ])
        })
        .collect();
    let reference = aggregate_function()
        .encode_input(&[ethabi::Token::Array(tuples)])
        .unwrap();
    assert_eq!(ours, reference);
}

#[test]
fn aggregate_answers_decode_like_the_reference_decoder() {
    // An answer produced by the reference encoder decodes to its parts.
    let reference_answer = ethabi::encode(&[
        ethabi::Token::Uint(ethabi::ethereum_types::U256::from(99u64)),
        ethabi::Token::Array(vec![
            ethabi::Token::Bytes(word(5)),
            ethabi::Token::Bytes(word(42)),
        ]),
    ]);
    let decoded = decode_aggregate_output(&reference_answer).unwrap();
    assert_eq!(decoded, vec![word(5), word(42)]);

    // And an answer produced here decodes under the reference decoder.
    let ours = encode_aggregate_output(99, &vec![word(5), word(42)]);
    assert_eq!(ours, reference_answer);
    let tokens = aggregate_function().decode_output(&ours).unwrap();
    assert_eq!(
        tokens[0],
        ethabi::Token::Uint(ethabi::ethereum_types::U256::from(99u64))
    );
    match &tokens[1] {
        ethabi::Token::Array(elems) => {
            assert_eq!(elems.len(), 2);
            assert_eq!(elems[0], ethabi::Token::Bytes(word(5)));
            assert_eq!(elems[1], ethabi::Token::Bytes(word(42)));
        }
        other => panic!("expected an array, got {:?}", other),
    }
}

#[test]
fn balance_of_return_decodes_like_the_reference_decoder() {
    let tokens = balance_of_function().decode_output(&word(42)).unwrap();
    assert_eq!(
        tokens[0],
        ethabi::Token::Uint(ethabi::ethereum_types::U256::from(42u64))
    );
    let w = Uint256::from_word(word(42)).unwrap();
    assert_eq!(w.to_u64(), Some(42));
}
