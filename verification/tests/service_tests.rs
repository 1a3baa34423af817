use chain_balances::error::Error;
use chain_balances::node_clients::{new, Chain, Config, NodeClient, NodeType};
use chain_balances::service::{
    AddressBalancesService, AssetsBalancesResponse, BalanceKind, BalancesService,
    NativeBalanceRequest, NativeBalanceResponse, Service,
};
use chain_balances::waves;

fn waves_client(allow: Option<Vec<String>>) -> NodeClient {
    NodeClient::Waves(waves::NodeClient::try_new("http://waves-node", &allow).unwrap())
}

fn service_with_waves(allow: Option<Vec<String>>) -> Service {
    Service::new(vec![(Chain::Waves, waves_client(allow))])
}

#[test]
fn unset_allow_list_reports_no_unsupported_assets() {
    let service = service_with_waves(None);
    let ids = vec!["anything".to_string(), "at".to_string(), "all".to_string()];
    let unsupported = service.check_assets_support(Chain::Waves, ids).unwrap();
    assert!(unsupported.is_empty());
}

#[test]
fn allow_list_reports_exactly_the_missing_assets() {
    let allow = Some(vec!["X".to_string(), "Y".to_string()]);
    let service = service_with_waves(allow);
    let ids = vec!["X".to_string(), "Z".to_string()];
    let unsupported = service.check_assets_support(Chain::Waves, ids).unwrap();
    assert_eq!(unsupported, vec!["Z".to_string()]);
}

#[test]
fn unconfigured_chain_is_chain_not_configured_everywhere() {
    let service = service_with_waves(None);
    let r = service.check_assets_support(Chain::Ethereum, vec!["X".to_string()]);
    assert!(matches!(r, Err(Error::ChainNotConfigured(_))));
    let r = service.get_balance_request(Chain::BSC, "0xabc".to_string());
    assert!(matches!(r, Err(Error::ChainNotConfigured(_))));
    let details = waves::AddressBalanceDetailsResponse {
        address: "a".to_string(),
        regular: 1,
        available: 1,
        effective: 1,
    };
    let r = service.get_balance_response(
        Chain::Ethereum,
        NativeBalanceResponse::WavesDetails(details),
    );
    assert!(matches!(r, Err(Error::ChainNotConfigured(_))));
}

#[test]
fn chain_not_configured_carries_the_chain_token() {
    let service = Service::new(vec![]);
    match service.get_balance_request(Chain::Ethereum, "x".to_string()) {
        Err(Error::ChainNotConfigured(m)) => assert_eq!(m, "ethereum"),
        other => panic!("expected ChainNotConfigured, got {:?}", other),
    }
}

#[test]
fn later_registry_entry_replaces_earlier_one() {
    let allow = Some(vec!["ONLY".to_string()]);
    let service = Service::new(vec![
        (Chain::Waves, waves_client(None)),
        (Chain::Waves, waves_client(allow)),
    ]);
    let ids = vec!["ONLY".to_string(), "OTHER".to_string()];
    let unsupported = service.check_assets_support(Chain::Waves, ids).unwrap();
    assert_eq!(unsupported, vec!["OTHER".to_string()]);
}

#[test]
fn waves_native_balance_has_three_kinds() {
    let service = service_with_waves(None);
    let details = waves::AddressBalanceDetailsResponse {
        address: "addr".to_string(),
        regular: 100,
        available: 80,
        effective: 90,
    };
    let balance = service
        .get_balance_response(Chain::Waves, NativeBalanceResponse::WavesDetails(details))
        .unwrap();
    assert_eq!(balance.asset_id, "WAVES");
    assert_eq!(balance.balances.len(), 3);
    assert_eq!(balance.balances[0].kind, BalanceKind::Wallet);
    assert_eq!(balance.balances[0].amount, 100);
    assert_eq!(balance.balances[1].kind, BalanceKind::Available);
    assert_eq!(balance.balances[1].amount, 80);
    assert_eq!(balance.balances[2].kind, BalanceKind::Effective);
    assert_eq!(balance.balances[2].amount, 90);
}

#[test]
fn waves_native_request_names_the_endpoint_parts() {
    let service = service_with_waves(None);
    match service
        .get_balance_request(Chain::Waves, "3PAbc".to_string())
        .unwrap()
    {
        NativeBalanceRequest::WavesDetails { base_url, address } => {
            assert_eq!(base_url, "http://waves-node");
            assert_eq!(address, "3PAbc");
        }
        other => panic!("expected a details request, got {:?}", other),
    }
}

#[test]
fn waves_asset_balances_reassociate_by_identifier() {
    let service = service_with_waves(None);
    let ids = vec!["A".to_string(), "B".to_string()];
    let response = waves::AddressAssetsBalancesResponse {
        address: "addr".to_string(),
        balances: vec![
            waves::AddressAssetBalance { asset_id: "B".to_string(), balance: 7 },
            waves::AddressAssetBalance { asset_id: "A".to_string(), balance: 3 },
        ],
    };
    let balances = service
        .get_assets_balances_response(Chain::Waves, &ids, AssetsBalancesResponse::Waves(response))
        .unwrap();
    assert_eq!(balances.len(), 2);
    assert_eq!(balances[0].asset_id, "A");
    assert_eq!(balances[0].balances[0].amount, 3);
    assert_eq!(balances[1].asset_id, "B");
    assert_eq!(balances[1].balances[0].amount, 7);
}

#[test]
fn waves_asset_balances_missing_identifier_is_a_decode_error() {
    let service = service_with_waves(None);
    let ids = vec!["A".to_string(), "MISSING".to_string()];
    let response = waves::AddressAssetsBalancesResponse {
        address: "addr".to_string(),
        balances: vec![waves::AddressAssetBalance { asset_id: "A".to_string(), balance: 3 }],
    };
    let r = service.get_assets_balances_response(
        Chain::Waves,
        &ids,
        AssetsBalancesResponse::Waves(response),
    );
    match r {
        Err(Error::UpstreamDecode(m)) => assert_eq!(m, "MISSING"),
        other => panic!("expected a decode error, got {:?}", other),
    }
}

#[test]
fn mismatched_answer_family_is_a_decode_error() {
    let service = service_with_waves(None);
    let ids = vec!["A".to_string()];
    let r = service.get_assets_balances_response(
        Chain::Waves,
        &ids,
        AssetsBalancesResponse::EvmBatched(vec![0u8; 96]),
    );
    assert!(matches!(r, Err(Error::UpstreamDecode(_))));
}

#[test]
fn chain_tokens_parse_case_insensitively() {
    assert!(matches!(Chain::try_from_str("waves"), Ok(Chain::Waves)));
    assert!(matches!(Chain::try_from_str("WAVES"), Ok(Chain::Waves)));
    assert!(matches!(Chain::try_from_str("Ethereum"), Ok(Chain::Ethereum)));
    assert!(matches!(Chain::try_from_str("bSc"), Ok(Chain::BSC)));
    match Chain::try_from_str("dogecoin") {
        Err(Error::UnexpectedChain(m)) => assert_eq!(m, "dogecoin"),
        other => panic!("expected UnexpectedChain, got {:?}", other),
    }
}

#[test]
fn chain_name_round_trips_through_parsing() {
    for chain in [Chain::Waves, Chain::Ethereum, Chain::BSC] {
        let token = chain.name();
        assert!(matches!(Chain::try_from_str(token.as_str()), Ok(c) if c == chain));
    }
    assert_eq!(Chain::Waves.name(), "waves");
    assert_eq!(Chain::Ethereum.name(), "ethereum");
    assert_eq!(Chain::BSC.name(), "bsc");
}

#[test]
fn node_type_follows_chain_family() {
    assert_eq!(Chain::Waves.node_type(), NodeType::Waves);
    assert_eq!(Chain::Ethereum.node_type(), NodeType::Evm);
    assert_eq!(Chain::BSC.node_type(), NodeType::Evm);
}

#[test]
fn config_selects_family_and_native_token() {
    let evm_cfg = chain_balances::evm::Config {
        chain_id: 1,
        base_url: "http://eth".to_string(),
        supported_asset_ids: None,
        multicall_contract_address: None,
    };
    let waves_cfg = waves::Config {
        chain_id: 87,
        base_url: "http://waves".to_string(),
        supported_asset_ids: None,
    };
    let eth = Config::Ethereum(evm_cfg.clone());
    let bsc = Config::Bsc(evm_cfg);
    let wav = Config::Waves(waves_cfg);
    assert_eq!(eth.chain(), Chain::Ethereum);
    assert_eq!(bsc.chain(), Chain::BSC);
    assert_eq!(wav.chain(), Chain::Waves);
    assert_eq!(eth.native_token(), "ETHEREUM");
    assert_eq!(bsc.native_token(), "BNB");
    assert_eq!(wav.native_token(), "WAVES");
    assert!(matches!(new(&eth).unwrap(), NodeClient::Evm(_)));
    assert!(matches!(new(&wav).unwrap(), NodeClient::Waves(_)));
}

#[test]
fn startup_fails_on_malformed_batch_read_address() {
    let cfg = Config::Ethereum(chain_balances::evm::Config {
        chain_id: 1,
        base_url: "http://eth".to_string(),
        supported_asset_ids: None,
        multicall_contract_address: Some("0xnothex".to_string()),
    });
    assert!(matches!(new(&cfg), Err(Error::InvalidAddress(_))));
}

#[test]
fn is_asset_supported_follows_the_allow_list() {
    let client = waves_client(Some(vec!["X".to_string()]));
    assert!(client.is_asset_supported("X".to_string()));
    assert!(!client.is_asset_supported("Y".to_string()));
    let open = waves_client(None);
    assert!(open.is_asset_supported("anything".to_string()));
}

#[test]
fn registry_construction_is_all_or_nothing() {
    let good = Config::Waves(waves::Config {
        chain_id: 87,
        base_url: "http://waves".to_string(),
        supported_asset_ids: None,
    });
    let bad = Config::Bsc(chain_balances::evm::Config {
        chain_id: 56,
        base_url: "http://bsc".to_string(),
        supported_asset_ids: None,
        multicall_contract_address: Some("not an address".to_string()),
    });
    let r = chain_balances::node_clients::build_registry(&vec![good.clone(), bad]);
    assert!(matches!(r, Err(Error::InvalidAddress(_))));
    let registry = chain_balances::node_clients::build_registry(&vec![good]).unwrap();
    assert_eq!(registry.len(), 1);
    assert_eq!(registry[0].0, Chain::Waves);
}
