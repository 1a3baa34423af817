//! The EVM-family node client. The read-only contract calls are performed
//! outside the library; this module holds the client's configuration, the
//! choice between the batched and the unbatched read path, and the logic
//! that turns raw return data into chain-agnostic balances.

use vstd::prelude::*;

use crate::abi::spec_decode_aggregate;
use crate::error::Error;
use crate::hex::{parse_evm_address, spec_parse_address, EvmAddress, Uint256};
use crate::service::{
    spec_asset_supported, AddressBalancesService, Balance, BalanceAmount, BalanceKind,
    contains_string,
};
use crate::words::{be_val, pow256};

verus! {

/// Per-chain configuration of an EVM-family chain.
#[derive(Clone, Debug)]
pub struct Config {
    pub chain_id: u64,
    pub base_url: String,
    pub supported_asset_ids: Option<Vec<String>>,
    pub multicall_contract_address: Option<String>,
}

/// The node client of an EVM-family chain, fixed at startup: its upstream
/// URL, the token naming its native currency, its network id, its optional
/// asset allow-list, and the batch-read contract if one is configured.
#[derive(Clone, Debug)]
pub struct NodeClient {
    pub base_url: String,
    pub native_token: String,
    pub chain_id: u64,
    pub supported_asset_ids: Option<Vec<String>>,
    pub multicall_contract_address: Option<EvmAddress>,
}

/// Every return-data string is one 32-byte word whose value fits the
/// 64-bit external representation.
pub open spec fn good_return_data(data: Seq<Seq<u8>>) -> bool {
    forall|i: int|
        0 <= i < data.len() ==> (#[trigger] data[i]).len() == 32 && be_val(data[i]) < pow256(8)
}

/// The balances a list of per-asset return-data strings denotes: one
/// `(asset id, amount)` pair per requested asset, in request order. `None`
/// when the count does not match the request or some value is out of shape.
pub open spec fn spec_wallet_balances(ids: Seq<Seq<char>>, data: Seq<Seq<u8>>) -> Option<
    Seq<(Seq<char>, u64)>,
> {
    if data.len() == ids.len() && good_return_data(data) {
        Some(Seq::new(ids.len(), |i: int| (ids[i], (be_val(data[i]) as u64))))
    } else {
        None
    }
}

/// `v` carries exactly `pairs`: one single-amount wallet balance each.
pub open spec fn is_wallet_balances(v: Seq<Balance>, pairs: Seq<(Seq<char>, u64)>) -> bool {
    &&& v.len() == pairs.len()
    &&& forall|i: int|
        0 <= i < v.len() ==> (#[trigger] v[i]).asset_id@ == pairs[i].0 && v[i].balances@
            =~= seq![BalanceAmount { kind: BalanceKind::Wallet, amount: pairs[i].1 }]
}

impl NodeClient {
    pub fn try_new(
        base_url: &str,
        native_token: &str,
        chain_id: u64,
        supported_asset_ids: &Option<Vec<String>>,
        multicall_contract_address: &Option<String>,
    ) -> (r: Result<Self, Error>)
        ensures
            match r {
                Ok(c) => {
                    &&& c.base_url@ == base_url@
                    &&& c.native_token@ == native_token@
                    &&& c.chain_id == chain_id
                    &&& c.supported_asset_ids.deep_view() == supported_asset_ids.deep_view()
                    &&& (c.supported_asset_ids is Some <==> *supported_asset_ids is Some)
                    &&& match *multicall_contract_address {
                        Option::None => c.multicall_contract_address is None,
                        Option::Some(s) => c.multicall_contract_address matches Some(a) && a.wf()
                            && spec_parse_address(s@) == Some(a.bytes@),
                    }
                },
                Err(e) => e matches Error::InvalidAddress(m)
                    && *multicall_contract_address matches Some(s) && m@ == s@
                    && spec_parse_address(s@) is None,
            },
    {
        let multicall = match multicall_contract_address {
            Option::None => None,
            Option::Some(s) => match parse_evm_address(s.as_str()) {
                Option::Some(a) => Some(a),
                Option::None => {
                    return Err(Error::InvalidAddress(s.clone()));
                },
            },
        };
        Ok(
            NodeClient {
                base_url: base_url.to_owned(),
                native_token: native_token.to_owned(),
                chain_id,
                supported_asset_ids: clone_string_list_opt(supported_asset_ids),
                multicall_contract_address: multicall,
            },
        )
    }

    /// The native balance a wei amount denotes: overflow of the external
    /// 64-bit representation is an error, never a truncation.
    pub fn balance_from_wei(&self, wei: &Uint256) -> (r: Result<Balance, Error>)
        requires
            wei.wf(),
        ensures
            match r {
                Ok(b) => {
                    &&& wei.value() < pow256(8)
                    &&& b.asset_id@ == self.native_token@
                    &&& b.balances@ =~= seq![
                        BalanceAmount { kind: BalanceKind::Wallet, amount: wei.value() as u64 },
                    ]
                },
                Err(e) => wei.value() >= pow256(8) && (e matches Error::NumericOverflow(m) && m@
                    == self.native_token@),
            },
    {
        match wei.to_u64() {
            Option::Some(amount) => Ok(
                Balance::single(self.native_token.as_str(), &BalanceKind::Wallet, amount),
            ),
            Option::None => Err(Error::NumericOverflow(self.native_token.clone())),
        }
    }
}

/// One wallet balance per requested asset from its raw return data, in
/// request order: return data that is not one 32-byte word is a decode
/// error, a value over 64 bits an overflow error.
pub fn balances_from_return_data(asset_ids: &Vec<String>, data: &Vec<Vec<u8>>) -> (r: Result<
    Vec<Balance>,
    Error,
>)
    ensures
        r is Ok <==> spec_wallet_balances(asset_ids.deep_view(), data.deep_view()) is Some,
        match r {
            Ok(v) => is_wallet_balances(
                v@,
                spec_wallet_balances(asset_ids.deep_view(), data.deep_view())->Some_0,
            ),
            Err(e) => {
                &&& (e matches Error::UpstreamDecode(m) || e matches Error::NumericOverflow(m))
                &&& data.deep_view().len() == asset_ids@.len() ==> exists|i: int|
                    {
                        &&& 0 <= i < asset_ids@.len()
                        &&& forall|j: int|
                            0 <= j < i ==> (#[trigger] data.deep_view()[j]).len() == 32 && be_val(
                                data.deep_view()[j],
                            ) < pow256(8)
                        &&& match e {
                            Error::UpstreamDecode(m) => m@ == #[trigger] asset_ids.deep_view()[i]
                                && data.deep_view()[i].len() != 32,
                            Error::NumericOverflow(m) => m@ == asset_ids.deep_view()[i]
                                && data.deep_view()[i].len() == 32 && be_val(
                                data.deep_view()[i],
                            ) >= pow256(8),
                            _ => false,
                        }
                    }
            },
        },
{
    let ghost ids_dv = asset_ids.deep_view();
    let ghost data_dv = data.deep_view();
    if data.len() != asset_ids.len() {
        return Err(Error::UpstreamDecode("batch answer count differs from request".to_owned()));
    }
    let mut out: Vec<Balance> = Vec::new();
    let mut i: usize = 0;
    while i < asset_ids.len()
        invariant
            i <= asset_ids@.len(),
            data@.len() == asset_ids@.len(),
            ids_dv == asset_ids.deep_view(),
            data_dv == data.deep_view(),
            out@.len() == i,
            forall|j: int|
                0 <= j < i ==> (#[trigger] data_dv[j]).len() == 32 && be_val(data_dv[j]) < pow256(
                    8,
                ),
            forall|j: int|
                0 <= j < i ==> (#[trigger] out@[j]).asset_id@ == ids_dv[j] && out@[j].balances@
                    =~= seq![
                    BalanceAmount { kind: BalanceKind::Wallet, amount: be_val(data_dv[j]) as u64 },
                ],
        decreases asset_ids@.len() - i,
    {
        proof {
            assert(data_dv[i as int] =~= data@[i as int]@);
            assert(ids_dv[i as int] == asset_ids@[i as int]@);
        }
        if data[i].len() != 32 {
            return Err(Error::UpstreamDecode(asset_ids[i].clone()));
        }
        proof {
            assert(data@[i as int]@.subrange(0, 32) =~= data_dv[i as int]);
        }
        let amount = match crate::words::read_word_u64(&data[i], 0) {
            Option::Some(x) => x,
            Option::None => {
                return Err(Error::NumericOverflow(asset_ids[i].clone()));
            },
        };
        out.push(Balance::single(asset_ids[i].as_str(), &BalanceKind::Wallet, amount));
        i = i + 1;
    }
    proof {
        assert(good_return_data(data_dv));
        let pairs = spec_wallet_balances(ids_dv, data_dv)->Some_0;
        assert(forall|j: int| 0 <= j < pairs.len() ==> #[trigger] pairs[j]
            == (ids_dv[j], (be_val(data_dv[j]) as u64)));
    }
    Ok(out)
}

/// The batched read path's decode stage: the aggregate answer is decoded
/// into per-asset return data, then read as `balances_from_return_data`.
pub fn balances_from_batched(asset_ids: &Vec<String>, answer: &Vec<u8>) -> (r: Result<
    Vec<Balance>,
    Error,
>)
    ensures
        spec_decode_aggregate(answer@) is None ==> (r matches Err(e) && e matches
            Error::UpstreamDecode(m)),
        spec_decode_aggregate(answer@) matches Some(rs) ==> {
            &&& (r is Ok <==> spec_wallet_balances(asset_ids.deep_view(), rs) is Some)
            &&& match r {
                Ok(v) => is_wallet_balances(
                    v@,
                    spec_wallet_balances(asset_ids.deep_view(), rs)->Some_0,
                ),
                Err(e) => e matches Error::UpstreamDecode(m) || e matches Error::NumericOverflow(m),
            }
        },
{
    match crate::abi::decode_aggregate_output(answer) {
        Option::Some(rs) => balances_from_return_data(asset_ids, &rs),
        Option::None => Err(Error::UpstreamDecode("aggregate answer out of shape".to_owned())),
    }
}

/// Parses every requested asset id as a contract address, keeping order.
pub fn parse_targets(asset_ids: &Vec<String>) -> (r: Result<Vec<EvmAddress>, Error>)
    ensures
        r is Ok <==> (forall|i: int|
            0 <= i < asset_ids@.len() ==> spec_parse_address(
                #[trigger] asset_ids.deep_view()[i],
            ) is Some),
        match r {
            Ok(v) => v@.len() == asset_ids@.len() && forall|i: int|
                0 <= i < v@.len() ==> (#[trigger] v@[i]).wf() && spec_parse_address(
                    asset_ids.deep_view()[i],
                ) == Some(v@[i].bytes@),
            Err(e) => e matches Error::InvalidAddress(m) && exists|i: int|
                0 <= i < asset_ids@.len() && m@ == #[trigger] asset_ids.deep_view()[i]
                    && spec_parse_address(asset_ids.deep_view()[i]) is None,
        },
{
    let ghost ids_dv = asset_ids.deep_view();
    let mut out: Vec<EvmAddress> = Vec::new();
    let mut i: usize = 0;
    while i < asset_ids.len()
        invariant
            i <= asset_ids@.len(),
            ids_dv == asset_ids.deep_view(),
            out@.len() == i,
            forall|j: int| 0 <= j < i ==> spec_parse_address(#[trigger] ids_dv[j]) is Some,
            forall|j: int|
                0 <= j < i ==> (#[trigger] out@[j]).wf() && spec_parse_address(ids_dv[j]) == Some(
                    out@[j].bytes@,
                ),
        decreases asset_ids@.len() - i,
    {
        proof {
            assert(ids_dv[i as int] == asset_ids@[i as int]@);
        }
        match parse_evm_address(asset_ids[i].as_str()) {
            Option::Some(a) => {
                out.push(a);
            },
            Option::None => {
                return Err(Error::InvalidAddress(asset_ids[i].clone()));
            },
        }
        i = i + 1;
    }
    Ok(out)
}

/// A copy of an optional list of identifiers.
fn clone_string_list_opt(list: &Option<Vec<String>>) -> (r: Option<Vec<String>>)
    ensures
        r.deep_view() == list.deep_view(),
        r is Some <==> *list is Some,
{
    match list {
        Option::None => None,
        Option::Some(l) => {
            let mut copy: Vec<String> = Vec::new();
            let mut i: usize = 0;
            while i < l.len()
                invariant
                    i <= l@.len(),
                    copy@ =~= l@.take(i as int),
                decreases l@.len() - i,
            {
                copy.push(l[i].clone());
                proof {
                    assert(copy@ =~= l@.take(i as int + 1));
                }
                i = i + 1;
            }
            proof {
                assert(copy@ =~= l@);
                assert(copy.deep_view() =~~= l.deep_view());
            }
            Some(copy)
        },
    }
}

impl AddressBalancesService for NodeClient {
    open spec fn allow_list(&self) -> Option<Seq<Seq<char>>> {
        match self.supported_asset_ids {
            Option::None => None,
            Option::Some(l) => Some(l.deep_view()),
        }
    }

    fn is_asset_supported(&self, asset_id: String) -> (r: bool)
        ensures
            r == spec_asset_supported(self.allow_list(), asset_id@),
    {
        match &self.supported_asset_ids {
            Option::None => true,
            Option::Some(l) => contains_string(l, &asset_id),
        }
    }
}

/// Law: the batched and the unbatched read path are output-equivalent.
/// When the aggregate answer is well formed and carries the same per-asset
/// return data the unbatched path would have read one by one, both paths
/// denote the same balances — the decode stage loses nothing.
pub proof fn lemma_batched_unbatched_equivalent(
    ids: Seq<Seq<char>>,
    block: nat,
    rs: Seq<Seq<u8>>,
)
    requires
        crate::abi::spec_aggregate_output(block, rs).len() < pow256(32),
    ensures
        spec_decode_aggregate(crate::abi::spec_aggregate_output(block, rs)) == Some(rs),
        ({
            let decoded = spec_decode_aggregate(crate::abi::spec_aggregate_output(block, rs));
            spec_wallet_balances(ids, decoded->Some_0) == spec_wallet_balances(ids, rs)
        }),
{
    crate::abi::lemma_decode_of_aggregate_output(block, rs);
}

} // verus!
