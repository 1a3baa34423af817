//! The chain-agnostic balance representation, the capability traits of the
//! aggregation layer, and the service façade that routes a request to the
//! configured per-chain node client.

use vstd::prelude::*;

use crate::error::Error;
use crate::hex::{parse_evm_address, spec_parse_address, EvmAddress, Uint256};
use crate::node_clients::{Chain, NodeClient};
use crate::words::pow256;
use crate::{abi, evm, waves};

verus! {

/// Which notion of balance an amount carries. `Wallet` is universal;
/// `Available` and `Effective` exist only on chains with lease semantics.
#[derive(Clone, Copy, Debug, PartialEq, Eq, Structural)]
pub enum BalanceKind {
    Wallet,
    Available,
    Effective,
}

/// One amount of one kind. Amounts are unsigned 64-bit; wider on-chain
/// values are rejected as overflow before they reach this type.
#[derive(Clone, Copy, Debug, PartialEq, Eq, Structural)]
pub struct BalanceAmount {
    pub kind: BalanceKind,
    pub amount: u64,
}

impl BalanceAmount {
    pub fn new(kind: &BalanceKind, amount: u64) -> (r: Self)
        ensures
            r == (BalanceAmount { kind: *kind, amount }),
    {
        BalanceAmount { kind: *kind, amount }
    }
}

/// The balance of one asset: the asset's identifier and one amount per
/// reported kind, in the order the adapter reports them.
#[derive(Clone, Debug)]
pub struct Balance {
    pub asset_id: String,
    pub balances: Vec<BalanceAmount>,
}

impl Balance {
    /// A balance carrying one single amount.
    pub fn single(asset_id: &str, kind: &BalanceKind, amount: u64) -> (r: Self)
        ensures
            r.asset_id@ == asset_id@,
            r.balances@ =~= seq![BalanceAmount { kind: *kind, amount }],
    {
        let mut balances: Vec<BalanceAmount> = Vec::new();
        balances.push(BalanceAmount::new(kind, amount));
        Balance { asset_id: asset_id.to_owned(), balances }
    }
}

/// Whether an asset is admitted by an allow-list: an absent list admits
/// every asset, a present one exactly its members.
pub open spec fn spec_asset_supported(allow: Option<Seq<Seq<char>>>, id: Seq<char>) -> bool {
    match allow {
        Option::None => true,
        Option::Some(l) => l.contains(id),
    }
}

/// The per-chain balance-fetch capability: the pure part every node client
/// offers, a membership test against its preloaded allow-list.
pub trait AddressBalancesService {
    /// The configured allow-list; `None` admits every asset.
    spec fn allow_list(&self) -> Option<Seq<Seq<char>>>;

    fn is_asset_supported(&self, asset_id: String) -> (r: bool)
        ensures
            r == spec_asset_supported(self.allow_list(), asset_id@),
    ;
}

/// Whether `id` occurs in `l`, compared by characters.
pub fn contains_string(l: &Vec<String>, id: &String) -> (r: bool)
    ensures
        r == l.deep_view().contains(id@),
{
    let mut i: usize = 0;
    while i < l.len()
        invariant
            i <= l@.len(),
            forall|j: int| 0 <= j < i ==> l.deep_view()[j] != id@,
        decreases l@.len() - i,
    {
        proof {
            assert(l.deep_view()[i as int] == l@[i as int]@);
        }
        if l[i].eq(id) {
            proof {
                assert(l.deep_view()[i as int] == id@);
            }
            return true;
        }
        i = i + 1;
    }
    proof {
        assert(forall|j: int| 0 <= j < l.deep_view().len() ==> l.deep_view()[j] != id@);
    }
    false
}

/// The one upstream read a native-balance request needs. The caller
/// performs it and hands the answer back as a `NativeBalanceResponse`.
#[derive(Clone, Debug)]
pub enum NativeBalanceRequest {
    /// `GET {base_url}/addresses/balance/details/{address}`.
    WavesDetails { base_url: String, address: String },
    /// The provider's native balance query for `address`, against the
    /// JSON-RPC endpoint at `base_url` on network `chain_id`.
    EvmGetBalance { base_url: String, chain_id: u64, address: EvmAddress },
}

/// The decoded answer of a native-balance read.
#[derive(Clone, Debug)]
pub enum NativeBalanceResponse {
    WavesDetails(waves::AddressBalanceDetailsResponse),
    EvmWei(Uint256),
}

/// One read-only contract call: its target contract and its call data.
#[derive(Clone, Debug)]
pub struct EvmCall {
    pub target: EvmAddress,
    pub call_data: Vec<u8>,
}

/// The upstream reads an asset-balances request needs: one GET for an
/// account/REST chain, one aggregate call when a batch-read contract is
/// configured, or one call per asset when none is.
#[derive(Clone, Debug)]
pub enum AssetsBalancesRequest {
    /// `GET {base_url}/assets/balance/{address}?id=...` with one `id`
    /// parameter per asset, in order.
    Waves { base_url: String, address: String, asset_ids: Vec<String> },
    /// One read-only call of the batch-read contract.
    EvmBatched { base_url: String, chain_id: u64, target: EvmAddress, call_data: Vec<u8> },
    /// One read-only call per asset contract, in request order.
    EvmUnbatched { base_url: String, chain_id: u64, calls: Vec<EvmCall> },
}

/// The raw answers of the reads of an `AssetsBalancesRequest`, in the same
/// order the request listed them.
#[derive(Clone, Debug)]
pub enum AssetsBalancesResponse {
    Waves(waves::AddressAssetsBalancesResponse),
    EvmBatched(Vec<u8>),
    EvmUnbatched(Vec<Vec<u8>>),
}

/// Which client a registry built from `entries` serves for `chain`: the
/// last entry wins, as when collecting pairs into a map.
pub open spec fn spec_registry_lookup(entries: Seq<(Chain, NodeClient)>, chain: Chain) -> Option<
    NodeClient,
>
    decreases entries.len(),
{
    if entries.len() == 0 {
        None
    } else if entries.last().0 == chain {
        Some(entries.last().1)
    } else {
        spec_registry_lookup(entries.drop_last(), chain)
    }
}

/// The aggregation façade: at most one node client per supported chain,
/// built once at startup and read-only afterwards.
pub struct Service {
    pub waves: Option<NodeClient>,
    pub ethereum: Option<NodeClient>,
    pub bsc: Option<NodeClient>,
}

/// The service abstraction the boundary layer programs against: validate
/// asset support without suspending; everything else is routed per chain.
pub trait BalancesService {
    /// Whether `chain` has a node client.
    spec fn configured(&self, chain: Chain) -> bool;

    /// The allow-list of `chain`'s client; meaningful only when configured.
    spec fn chain_allow_list(&self, chain: Chain) -> Option<Seq<Seq<char>>>;

    /// Which of the requested asset ids the chain's client does not
    /// support, in request order. Unsupported assets are reported, not an
    /// error: the caller decides the rejection policy.
    fn check_assets_support(&self, chain: Chain, asset_ids: Vec<String>) -> (r: Result<
        Vec<String>,
        Error,
    >)
        ensures
            !self.configured(chain) ==> (r matches Err(e) && (e matches Error::ChainNotConfigured(
                m,
            ) && m@ == chain.spec_token())),
            self.configured(chain) ==> (r matches Ok(v) && v.deep_view()
                == asset_ids.deep_view().filter(
                |id: Seq<char>| !spec_asset_supported(self.chain_allow_list(chain), id),
            )),
    ;
}

impl Service {
    /// The client serving `chain`, if one was configured.
    pub open spec fn spec_client(&self, chain: Chain) -> Option<NodeClient> {
        match chain {
            Chain::Waves => self.waves,
            Chain::Ethereum => self.ethereum,
            Chain::BSC => self.bsc,
        }
    }

    /// Builds the registry: one slot per chain, a later entry for the same
    /// chain replacing an earlier one.
    pub fn new(chain_clients: Vec<(Chain, NodeClient)>) -> (r: Service)
        ensures
            forall|c: Chain| #[trigger] r.spec_client(c) == spec_registry_lookup(chain_clients@, c),
    {
        let ghost orig = chain_clients@;
        let mut rest = chain_clients;
        let mut service = Service { waves: None, ethereum: None, bsc: None };
        proof {
            assert(orig.take(0) =~= Seq::<(Chain, NodeClient)>::empty());
        }
        while rest.len() > 0
            invariant
                rest@.len() <= orig.len(),
                rest@ =~= orig.skip(orig.len() - rest@.len()),
                forall|c: Chain| #[trigger] service.spec_client(c) == spec_registry_lookup(
                    orig.take(orig.len() - rest@.len()),
                    c,
                ),
            decreases rest@.len(),
        {
            let ghost done = orig.len() - rest@.len();
            let ghost prev = service;
            let (chain, client) = rest.remove(0);
            proof {
                assert(orig.skip(done).len() > 0);
                assert((chain, client) == orig.skip(done)[0]);
                assert((chain, client) == orig[done]);
                assert(rest@ =~= orig.skip(done + 1));
                assert(orig.take(done + 1).drop_last() =~= orig.take(done));
                assert(orig.take(done + 1).last() == orig[done]);
            }
            match chain {
                Chain::Waves => {
                    service.waves = Some(client);
                },
                Chain::Ethereum => {
                    service.ethereum = Some(client);
                },
                Chain::BSC => {
                    service.bsc = Some(client);
                },
            }
            proof {
                assert forall|c: Chain| #[trigger] service.spec_client(c) == spec_registry_lookup(
                    orig.take(done + 1),
                    c,
                ) by {
                    assert(prev.spec_client(c) == spec_registry_lookup(orig.take(done), c));
                    assert(orig.take(done + 1).last() == orig[done]);
                    match c {
                        Chain::Waves => {
                            assert(service.spec_client(c) == service.waves);
                        },
                        Chain::Ethereum => {
                            assert(service.spec_client(c) == service.ethereum);
                        },
                        Chain::BSC => {
                            assert(service.spec_client(c) == service.bsc);
                        },
                    }
                    assert(spec_registry_lookup(orig.take(done + 1), c) == if orig[done].0 == c {
                        Some(orig[done].1)
                    } else {
                        spec_registry_lookup(orig.take(done), c)
                    });
                }
            }
        }
        proof {
            assert(orig.take(orig.len() as int) =~= orig);
        }
        service
    }

    /// A borrow of the client serving `chain`.
    fn client(&self, chain: Chain) -> (r: Option<&NodeClient>)
        ensures
            match r {
                Some(c) => self.spec_client(chain) == Some(*c),
                None => self.spec_client(chain) is None,
            },
    {
        match chain {
            Chain::Waves => self.waves.as_ref(),
            Chain::Ethereum => self.ethereum.as_ref(),
            Chain::BSC => self.bsc.as_ref(),
        }
    }

    /// The upstream read that answers a native-balance request, routed to
    /// the chain's client; an unconfigured chain is refused here, before
    /// any transport work.
    pub fn get_balance_request(&self, chain: Chain, address: String) -> (r: Result<
        NativeBalanceRequest,
        Error,
    >)
        ensures
            match self.spec_client(chain) {
                Option::None => r matches Err(e) && (e matches Error::ChainNotConfigured(m) && m@
                    == chain.spec_token()),
                Option::Some(client) => match client {
                    NodeClient::Waves(w) => r matches Ok(q) && (q matches
                        NativeBalanceRequest::WavesDetails { base_url, address: a } && base_url@
                        == w.base_url@ && a@ == address@),
                    NodeClient::Evm(ec) => match spec_parse_address(address@) {
                        Option::Some(b) => r matches Ok(q) && (q matches
                            NativeBalanceRequest::EvmGetBalance { base_url, chain_id, address: a }
                            && base_url@ == ec.base_url@ && chain_id == ec.chain_id && a.bytes@
                            == b),
                        Option::None => r matches Err(e) && (e matches Error::InvalidAddress(m)
                            && m@ == address@),
                    },
                },
            },
    {
        let client = match self.client(chain) {
            Some(c) => c,
            None => {
                return Err(Error::ChainNotConfigured(chain.name()));
            },
        };
        match client {
            NodeClient::Waves(w) => Ok(
                NativeBalanceRequest::WavesDetails { base_url: w.base_url.clone(), address },
            ),
            NodeClient::Evm(ec) => match parse_evm_address(address.as_str()) {
                Option::Some(a) => Ok(
                    NativeBalanceRequest::EvmGetBalance {
                        base_url: ec.base_url.clone(),
                        chain_id: ec.chain_id,
                        address: a,
                    },
                ),
                Option::None => Err(Error::InvalidAddress(address)),
            },
        }
    }

    /// The native balance an upstream answer denotes, for the chain it was
    /// fetched from: three kinds for an account/REST chain, the wallet
    /// amount for an EVM chain, and an overflow error instead of any
    /// truncation.
    pub fn get_balance_response(&self, chain: Chain, response: NativeBalanceResponse) -> (r: Result<
        Balance,
        Error,
    >)
        requires
            response matches NativeBalanceResponse::EvmWei(u) ==> u.wf(),
        ensures
            match self.spec_client(chain) {
                Option::None => r matches Err(e) && (e matches Error::ChainNotConfigured(m) && m@
                    == chain.spec_token()),
                Option::Some(client) => match client {
                    NodeClient::Waves(w) => match response {
                        NativeBalanceResponse::WavesDetails(d) => r matches Ok(b) && b.asset_id@
                            == "WAVES"@ && b.balances@ =~= seq![
                            (BalanceAmount { kind: BalanceKind::Wallet, amount: d.regular }),
                            (BalanceAmount { kind: BalanceKind::Available, amount: d.available }),
                            (BalanceAmount { kind: BalanceKind::Effective, amount: d.effective }),
                        ],
                        NativeBalanceResponse::EvmWei(_) => r matches Err(e) && e matches
                            Error::UpstreamDecode(m),
                    },
                    NodeClient::Evm(ec) => match response {
                        NativeBalanceResponse::EvmWei(u) => {
                            &&& u.value() < pow256(8) ==> (r matches Ok(b) && b.asset_id@
                                == ec.native_token@ && b.balances@ =~= seq![
                                (BalanceAmount {
                                    kind: BalanceKind::Wallet,
                                    amount: u.value() as u64,
                                }),
                            ])
                            &&& u.value() >= pow256(8) ==> (r matches Err(e) && (e matches
                                Error::NumericOverflow(m) && m@ == ec.native_token@))
                        },
                        NativeBalanceResponse::WavesDetails(_) => r matches Err(e) && e matches
                            Error::UpstreamDecode(m),
                    },
                },
            },
    {
        let client = match self.client(chain) {
            Some(c) => c,
            None => {
                return Err(Error::ChainNotConfigured(chain.name()));
            },
        };
        match (client, response) {
            (NodeClient::Waves(w), NativeBalanceResponse::WavesDetails(d)) => Ok(
                w.balance_from_details(&d),
            ),
            (NodeClient::Evm(ec), NativeBalanceResponse::EvmWei(u)) => ec.balance_from_wei(&u),
            _ => Err(
                Error::UpstreamDecode("answer does not belong to this chain family".to_owned()),
            ),
        }
    }

    /// The address bytes each requested asset id parses to.
    pub open spec fn spec_targets(ids: Seq<Seq<char>>) -> Seq<Seq<u8>> {
        Seq::new(ids.len(), |i: int| spec_parse_address(ids[i])->Some_0)
    }

    /// The upstream reads that answer an asset-balances request, routed to
    /// the chain's client. For an EVM chain the path is chosen here, purely
    /// by whether a batch-read contract is configured: one aggregate call,
    /// or one call per asset.
    pub fn get_assets_balances_request(
        &self,
        chain: Chain,
        address: String,
        asset_ids: Vec<String>,
    ) -> (r: Result<AssetsBalancesRequest, Error>)
        requires
            68 + 192 * asset_ids@.len() <= usize::MAX,
        ensures
            match self.spec_client(chain) {
                Option::None => r matches Err(e) && (e matches Error::ChainNotConfigured(m) && m@
                    == chain.spec_token()),
                Option::Some(client) => match client {
                    NodeClient::Waves(w) => r matches Ok(q) && (q matches
                        AssetsBalancesRequest::Waves { base_url, address: a, asset_ids: ids }
                        && base_url@ == w.base_url@ && a@ == address@ && ids.deep_view()
                        == asset_ids.deep_view()),
                    NodeClient::Evm(ec) => match spec_parse_address(address@) {
                        Option::None => r matches Err(e) && (e matches Error::InvalidAddress(m)
                            && m@ == address@),
                        Option::Some(holder) => {
                            if forall|i: int|
                                0 <= i < asset_ids@.len() ==> spec_parse_address(
                                    #[trigger] asset_ids.deep_view()[i],
                                ) is Some {
                                match ec.multicall_contract_address {
                                    Option::Some(mc) => r matches Ok(q) && (q matches
                                        AssetsBalancesRequest::EvmBatched {
                                            base_url,
                                            chain_id,
                                            target,
                                            call_data,
                                        } && base_url@ == ec.base_url@ && chain_id == ec.chain_id
                                        && target.bytes@ == mc.bytes@ && call_data@
                                        == abi::spec_aggregate_call_data(
                                        Self::spec_targets(asset_ids.deep_view()),
                                        holder,
                                    )),
                                    Option::None => r matches Ok(q) && (q matches
                                        AssetsBalancesRequest::EvmUnbatched {
                                            base_url,
                                            chain_id,
                                            calls,
                                        } && base_url@ == ec.base_url@ && chain_id == ec.chain_id
                                        && calls@.len() == asset_ids@.len() && forall|i: int|
                                        0 <= i < calls@.len() ==> (#[trigger] calls@[i]).target.bytes@
                                            == spec_parse_address(asset_ids.deep_view()[i])->Some_0
                                            && calls@[i].call_data@
                                            == abi::spec_balance_of_call_data(holder)),
                                }
                            } else {
                                r matches Err(e) && (e matches Error::InvalidAddress(m) && exists|
                                    i: int,
                                |
                                    0 <= i < asset_ids@.len() && m@
                                        == #[trigger] asset_ids.deep_view()[i]
                                        && spec_parse_address(asset_ids.deep_view()[i]) is None)
                            }
                        },
                    },
                },
            },
    {
        let client = match self.client(chain) {
            Some(c) => c,
            None => {
                return Err(Error::ChainNotConfigured(chain.name()));
            },
        };
        match client {
            NodeClient::Waves(w) => Ok(
                AssetsBalancesRequest::Waves {
                    base_url: w.base_url.clone(),
                    address,
                    asset_ids,
                },
            ),
            NodeClient::Evm(ec) => {
                let holder = match parse_evm_address(address.as_str()) {
                    Option::Some(a) => a,
                    Option::None => {
                        return Err(Error::InvalidAddress(address));
                    },
                };
                let targets = evm::parse_targets(&asset_ids)?;
                proof {
                    assert(targets@.map_values(|a: EvmAddress| a.bytes@) =~~= Self::spec_targets(
                        asset_ids.deep_view(),
                    ));
                }
                match &ec.multicall_contract_address {
                    Option::Some(mc) => {
                        let call_data = abi::encode_aggregate_call(&targets, &holder);
                        Ok(
                            AssetsBalancesRequest::EvmBatched {
                                base_url: ec.base_url.clone(),
                                chain_id: ec.chain_id,
                                target: mc.duplicate(),
                                call_data,
                            },
                        )
                    },
                    Option::None => {
                        let mut calls: Vec<EvmCall> = Vec::new();
                        let mut targets = targets;
                        let n = targets.len();
                        let ghost tviews = targets@;
                        let mut i: usize = 0;
                        proof {
                            assert(tviews.skip(0) =~= tviews);
                        }
                        while targets.len() > 0
                            invariant
                                holder.wf(),
                                n == tviews.len(),
                                i <= n,
                                calls@.len() + targets@.len() == tviews.len(),
                                calls@.len() == i,
                                targets@ =~= tviews.skip(i as int),
                                forall|j: int|
                                    0 <= j < i ==> (#[trigger] calls@[j]).target == tviews[j]
                                        && calls@[j].call_data@ == abi::spec_balance_of_call_data(
                                        holder.bytes@,
                                    ),
                            decreases targets@.len(),
                        {
                            let target = targets.remove(0);
                            let call_data = abi::encode_balance_of_call(&holder);
                            proof {
                                assert(target == tviews.skip(i as int)[0]);
                                assert(target == tviews[i as int]);
                                assert(targets@ =~= tviews.skip(i as int + 1));
                            }
                            calls.push(EvmCall { target, call_data });
                            i = i + 1;
                        }
                        Ok(
                            AssetsBalancesRequest::EvmUnbatched {
                                base_url: ec.base_url.clone(),
                                chain_id: ec.chain_id,
                                calls,
                            },
                        )
                    },
                }
            },
        }
    }

    /// The balances the upstream answers denote, re-ordered and checked for
    /// the chain the request was made on. Whatever the path, a successful
    /// list has exactly one balance per requested asset, in request order.
    pub fn get_assets_balances_response(
        &self,
        chain: Chain,
        asset_ids: &Vec<String>,
        response: AssetsBalancesResponse,
    ) -> (r: Result<Vec<Balance>, Error>)
        ensures
            r matches Ok(v) ==> v@.len() == asset_ids@.len() && (forall|i: int|
                0 <= i < v@.len() ==> (#[trigger] v@[i]).asset_id@ == asset_ids@[i]@),
            match self.spec_client(chain) {
                Option::None => r matches Err(e) && (e matches Error::ChainNotConfigured(m) && m@
                    == chain.spec_token()),
                Option::Some(client) => match client {
                    NodeClient::Waves(w) => match response {
                        AssetsBalancesResponse::Waves(resp) => {
                            &&& (r is Ok <==> waves::spec_all_found(asset_ids@, resp.balances@))
                            &&& (r matches Ok(v) ==> waves::spec_reassociated(
                                asset_ids@,
                                resp.balances@,
                                v@,
                            ))
                            &&& (r matches Err(e) ==> e matches Error::UpstreamDecode(m))
                        },
                        _ => r matches Err(e) && e matches Error::UpstreamDecode(m),
                    },
                    NodeClient::Evm(ec) => match response {
                        AssetsBalancesResponse::EvmBatched(answer) => {
                            &&& (abi::spec_decode_aggregate(answer@) is None ==> (r matches Err(e)
                                && e matches Error::UpstreamDecode(m)))
                            &&& (abi::spec_decode_aggregate(answer@) matches Some(rs) ==> {
                                &&& (r is Ok <==> evm::spec_wallet_balances(
                                    asset_ids.deep_view(),
                                    rs,
                                ) is Some)
                                &&& (r matches Ok(v) ==> evm::is_wallet_balances(
                                    v@,
                                    evm::spec_wallet_balances(asset_ids.deep_view(), rs)->Some_0,
                                ))
                                &&& (r matches Err(e) ==> (e matches Error::UpstreamDecode(m)
                                    || e matches Error::NumericOverflow(m)))
                            })
                        },
                        AssetsBalancesResponse::EvmUnbatched(data) => {
                            &&& (r is Ok <==> evm::spec_wallet_balances(
                                asset_ids.deep_view(),
                                data.deep_view(),
                            ) is Some)
                            &&& (r matches Ok(v) ==> evm::is_wallet_balances(
                                v@,
                                evm::spec_wallet_balances(
                                    asset_ids.deep_view(),
                                    data.deep_view(),
                                )->Some_0,
                            ))
                            &&& (r matches Err(e) ==> (e matches Error::UpstreamDecode(m)
                                || e matches Error::NumericOverflow(m)))
                        },
                        AssetsBalancesResponse::Waves(_) => r matches Err(e) && e matches
                            Error::UpstreamDecode(m),
                    },
                },
            },
    {
        let client = match self.client(chain) {
            Some(c) => c,
            None => {
                return Err(Error::ChainNotConfigured(chain.name()));
            },
        };
        match (client, response) {
            (NodeClient::Waves(w), AssetsBalancesResponse::Waves(resp)) => {
                let r = w.balances_from_assets_response(asset_ids, &resp);
                proof {
                    if r is Ok {
                        assert(forall|i: int|
                            0 <= i < asset_ids@.len() ==> (#[trigger] r->Ok_0@[i]).asset_id@
                                == asset_ids@[i]@);
                    }
                }
                r
            },
            (NodeClient::Evm(_), AssetsBalancesResponse::EvmBatched(answer)) => {
                let r = evm::balances_from_batched(asset_ids, &answer);
                proof {
                    lemma_wallet_balances_order(asset_ids@, r);
                }
                r
            },
            (NodeClient::Evm(_), AssetsBalancesResponse::EvmUnbatched(data)) => {
                let r = evm::balances_from_return_data(asset_ids, &data);
                proof {
                    lemma_wallet_balances_order(asset_ids@, r);
                }
                r
            },
            _ => Err(
                Error::UpstreamDecode("answer does not belong to this chain family".to_owned()),
            ),
        }
    }
}

/// Law: without an allow-list every asset is supported, so checking any
/// request against an unset allow-list reports nothing as unsupported.
pub proof fn lemma_unset_allow_list_reports_nothing(ids: Seq<Seq<char>>)
    ensures
        ids.filter(|id: Seq<char>| !spec_asset_supported(None, id)) == Seq::<Seq<char>>::empty(),
{
    let pred = |id: Seq<char>| !spec_asset_supported(None, id);
    assert(ids.all(|id: Seq<char>| !pred(id)));
    ids.lemma_all_neg_filter_empty(pred);
    assert(ids.filter(pred) =~= Seq::<Seq<char>>::empty());
}

/// A successful wallet-balance list built for `ids` names `ids` in order.
proof fn lemma_wallet_balances_order(ids: Seq<String>, r: Result<Vec<Balance>, Error>)
    requires
        r matches Ok(v) ==> exists|pairs: Seq<(Seq<char>, u64)>|
            #[trigger] evm::is_wallet_balances(v@, pairs) && pairs.len() == ids.len() && forall|
                i: int,
            | 0 <= i < pairs.len() ==> (#[trigger] pairs[i]).0 == ids[i]@,
    ensures
        r matches Ok(v) ==> v@.len() == ids.len() && (forall|i: int|
            0 <= i < v@.len() ==> (#[trigger] v@[i]).asset_id@ == ids[i]@),
{
}

impl BalancesService for Service {
    open spec fn configured(&self, chain: Chain) -> bool {
        self.spec_client(chain) is Some
    }

    open spec fn chain_allow_list(&self, chain: Chain) -> Option<Seq<Seq<char>>> {
        match self.spec_client(chain) {
            Option::Some(c) => c.allow_list(),
            Option::None => None,
        }
    }

    fn check_assets_support(&self, chain: Chain, asset_ids: Vec<String>) -> (r: Result<
        Vec<String>,
        Error,
    >) {
        let client = match self.client(chain) {
            Some(c) => c,
            None => {
                return Err(Error::ChainNotConfigured(chain.name()));
            },
        };
        let ghost ids_dv = asset_ids.deep_view();
        let ghost pred = |id: Seq<char>| !spec_asset_supported(client.allow_list(), id);
        let mut out: Vec<String> = Vec::new();
        let mut i: usize = 0;
        proof {
            assert(ids_dv.take(0) =~= Seq::<Seq<char>>::empty());
        }
        while i < asset_ids.len()
            invariant
                i <= asset_ids@.len(),
                ids_dv == asset_ids.deep_view(),
                self.spec_client(chain) == Some(*client),
                pred == (|id: Seq<char>| !spec_asset_supported(client.allow_list(), id)),
                out.deep_view() == ids_dv.take(i as int).filter(pred),
            decreases asset_ids@.len() - i,
        {
            proof {
                assert(ids_dv[i as int] == asset_ids@[i as int]@);
                assert(ids_dv.take(i as int + 1).drop_last() =~= ids_dv.take(i as int));
                assert(ids_dv.take(i as int + 1).last() == ids_dv[i as int]);
            }
            let ghost prev_dv = out.deep_view();
            let supported = client.is_asset_supported(asset_ids[i].clone());
            proof {
                assert(pred(ids_dv[i as int]) == !supported);
            }
            proof {
                assert(ids_dv.take(i as int + 1) =~= ids_dv.take(i as int).push(
                    ids_dv[i as int],
                ));
                ids_dv.take(i as int).lemma_filter_push(ids_dv[i as int], pred);
            }
            if !supported {
                out.push(asset_ids[i].clone());
                proof {
                    assert(out.deep_view() =~~= prev_dv.push(ids_dv[i as int]));
                }
            }
            i = i + 1;
        }
        proof {
            assert(ids_dv.take(asset_ids@.len() as int) =~= ids_dv);
        }
        Ok(out)
    }
}

} // verus!
