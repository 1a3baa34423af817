//! The account/REST-style node client. The transport (two GET endpoints)
//! is performed outside the library; this module holds the client's
//! configuration, its support check, and the logic that turns the
//! endpoints' decoded answers into chain-agnostic balances.

use vstd::prelude::*;

use crate::error::Error;
use crate::service::{
    spec_asset_supported, AddressBalancesService, Balance, BalanceAmount, BalanceKind,
    contains_string,
};

verus! {

/// Per-chain configuration of an account/REST chain.
#[derive(Clone, Debug)]
pub struct Config {
    pub chain_id: u16,
    pub base_url: String,
    pub supported_asset_ids: Option<Vec<String>>,
}

/// The answer of the balance-details endpoint: the regular amount, the
/// regular amount without what is leased out, and the latter with what is
/// leased in.
#[derive(Clone, Debug)]
pub struct AddressBalanceDetailsResponse {
    pub address: String,
    pub regular: u64,
    pub available: u64,
    pub effective: u64,
}

/// One entry of the asset-balances endpoint's answer.
#[derive(Clone, Debug)]
pub struct AddressAssetBalance {
    pub asset_id: String,
    pub balance: u64,
}

/// The answer of the asset-balances endpoint.
#[derive(Clone, Debug)]
pub struct AddressAssetsBalancesResponse {
    pub address: String,
    pub balances: Vec<AddressAssetBalance>,
}

/// The node client of an account/REST chain: its upstream base URL and its
/// optional asset allow-list, fixed at startup.
#[derive(Clone, Debug)]
pub struct NodeClient {
    pub base_url: String,
    pub supported_asset_ids: Option<Vec<String>>,
}

/// The amount the upstream answer reports for `id`: the first entry whose
/// identifier matches, never a positional guess.
pub open spec fn spec_lookup(pairs: Seq<AddressAssetBalance>, id: Seq<char>) -> Option<u64>
    decreases pairs.len(),
{
    if pairs.len() == 0 {
        None
    } else if pairs.first().asset_id@ == id {
        Some(pairs.first().balance)
    } else {
        spec_lookup(pairs.drop_first(), id)
    }
}

/// Every requested asset is named somewhere in the answer.
pub open spec fn spec_all_found(ids: Seq<String>, pairs: Seq<AddressAssetBalance>) -> bool {
    forall|i: int| 0 <= i < ids.len() ==> spec_lookup(pairs, (#[trigger] ids[i])@) is Some
}

/// `v` carries, in request order, the amount the answer names for each
/// requested asset, each as a single wallet balance.
pub open spec fn spec_reassociated(
    ids: Seq<String>,
    pairs: Seq<AddressAssetBalance>,
    v: Seq<Balance>,
) -> bool {
    &&& v.len() == ids.len()
    &&& forall|i: int|
        0 <= i < v.len() ==> (#[trigger] v[i]).asset_id@ == ids[i]@ && v[i].balances@ =~= seq![
            BalanceAmount {
                kind: BalanceKind::Wallet,
                amount: spec_lookup(pairs, ids[i]@)->Some_0,
            },
        ]
}

impl NodeClient {
    pub fn try_new(base_url: &str, supported_asset_ids: &Option<Vec<String>>) -> (r: Result<
        Self,
        Error,
    >)
        ensures
            r matches Ok(c) && c.base_url@ == base_url@ && c.supported_asset_ids.deep_view()
                == supported_asset_ids.deep_view() && (c.supported_asset_ids is Some
                <==> *supported_asset_ids is Some),
    {
        Ok(
            NodeClient {
                base_url: base_url.to_owned(),
                supported_asset_ids: clone_allow_list(supported_asset_ids),
            },
        )
    }

    /// The native balance the balance-details answer denotes: one amount of
    /// each kind, in the order wallet, available, effective.
    pub fn balance_from_details(&self, details: &AddressBalanceDetailsResponse) -> (r: Balance)
        ensures
            r.asset_id@ == "WAVES"@,
            r.balances@ =~= seq![
                BalanceAmount { kind: BalanceKind::Wallet, amount: details.regular },
                BalanceAmount { kind: BalanceKind::Available, amount: details.available },
                BalanceAmount { kind: BalanceKind::Effective, amount: details.effective },
            ],
    {
        let mut balances: Vec<BalanceAmount> = Vec::new();
        balances.push(BalanceAmount { kind: BalanceKind::Wallet, amount: details.regular });
        balances.push(BalanceAmount { kind: BalanceKind::Available, amount: details.available });
        balances.push(BalanceAmount { kind: BalanceKind::Effective, amount: details.effective });
        Balance { asset_id: "WAVES".to_owned(), balances }
    }

    /// One balance per requested asset, in request order, each re-associated
    /// with the answer by its returned identifier. An asset the answer does
    /// not name at all is a decode error, not a zero.
    pub fn balances_from_assets_response(
        &self,
        asset_ids: &Vec<String>,
        response: &AddressAssetsBalancesResponse,
    ) -> (r: Result<Vec<Balance>, Error>)
        ensures
            r is Ok <==> spec_all_found(asset_ids@, response.balances@),
            match r {
                Ok(v) => spec_reassociated(asset_ids@, response.balances@, v@),
                Err(e) => e matches Error::UpstreamDecode(m) && exists|i: int|
                    {
                        &&& 0 <= i < asset_ids@.len()
                        &&& m@ == (#[trigger] asset_ids@[i])@
                        &&& spec_lookup(response.balances@, asset_ids@[i]@) is None
                        &&& forall|j: int|
                            0 <= j < i ==> spec_lookup(
                                response.balances@,
                                (#[trigger] asset_ids@[j])@,
                            ) is Some
                    },
            },
    {
        let mut out: Vec<Balance> = Vec::new();
        let mut i: usize = 0;
        while i < asset_ids.len()
            invariant
                i <= asset_ids@.len(),
                out@.len() == i,
                forall|j: int|
                    0 <= j < i ==> spec_lookup(
                        response.balances@,
                        (#[trigger] asset_ids@[j])@,
                    ) is Some,
                forall|j: int|
                    0 <= j < i ==> (#[trigger] out@[j]).asset_id@ == asset_ids@[j]@
                        && out@[j].balances@ =~= seq![
                        BalanceAmount {
                            kind: BalanceKind::Wallet,
                            amount: spec_lookup(response.balances@, asset_ids@[j]@)->Some_0,
                        },
                    ],
            decreases asset_ids@.len() - i,
        {
            let amount = match lookup_balance(&response.balances, &asset_ids[i]) {
                Some(a) => a,
                None => {
                    proof {
                        assert(spec_lookup(response.balances@, asset_ids@[i as int]@) is None);
                    }
                    return Err(Error::UpstreamDecode(asset_ids[i].clone()));
                },
            };
            out.push(Balance::single(asset_ids[i].as_str(), &BalanceKind::Wallet, amount));
            i = i + 1;
        }
        Ok(out)
    }
}

/// The first entry of `pairs` whose identifier is `id`, if any.
pub fn lookup_balance(pairs: &Vec<AddressAssetBalance>, id: &String) -> (r: Option<u64>)
    ensures
        r == spec_lookup(pairs@, id@),
{
    let mut i: usize = 0;
    proof {
        assert(pairs@.skip(0) =~= pairs@);
    }
    while i < pairs.len()
        invariant
            i <= pairs@.len(),
            spec_lookup(pairs@, id@) == spec_lookup(pairs@.skip(i as int), id@),
        decreases pairs@.len() - i,
    {
        proof {
            assert(pairs@.skip(i as int).first() == pairs@[i as int]);
        }
        if pairs[i].asset_id.eq(id) {
            return Some(pairs[i].balance);
        }
        proof {
            assert(pairs@.skip(i as int).drop_first() =~= pairs@.skip(i as int + 1));
        }
        i = i + 1;
    }
    proof {
        assert(pairs@.skip(i as int).len() == 0);
    }
    None
}

/// A copy of the configured allow-list.
fn clone_allow_list(allow: &Option<Vec<String>>) -> (r: Option<Vec<String>>)
    ensures
        r.deep_view() == allow.deep_view(),
        r is Some <==> *allow is Some,
{
    match allow {
        Option::None => None,
        Option::Some(l) => {
            let mut copy: Vec<String> = Vec::new();
            let mut i: usize = 0;
            while i < l.len()
                invariant
                    i <= l@.len(),
                    copy@ =~= l@.take(i as int),
                decreases l@.len() - i,
            {
                copy.push(l[i].clone());
                proof {
                    assert(copy@ =~= l@.take(i as int + 1));
                }
                i = i + 1;
            }
            proof {
                assert(copy@ =~= l@);
                assert(copy.deep_view() =~~= l.deep_view());
            }
            Some(copy)
        },
    }
}

impl AddressBalancesService for NodeClient {
    open spec fn allow_list(&self) -> Option<Seq<Seq<char>>> {
        match self.supported_asset_ids {
            Option::None => None,
            Option::Some(l) => Some(l.deep_view()),
        }
    }

    fn is_asset_supported(&self, asset_id: String) -> (r: bool)
        ensures
            r == spec_asset_supported(self.allow_list(), asset_id@),
    {
        match &self.supported_asset_ids {
            Option::None => true,
            Option::Some(l) => contains_string(l, &asset_id),
        }
    }
}

} // verus!
