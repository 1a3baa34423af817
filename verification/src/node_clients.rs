//! The closed set of supported chains, their case-insensitive string
//! tokens, the per-chain configuration, and the construction of one node
//! client per configured chain.

use vstd::prelude::*;

use crate::error::Error;
use crate::evm;
use crate::service::{spec_asset_supported, AddressBalancesService};
use crate::waves;

verus! {

/// The two chain families a node client can belong to.
#[derive(Clone, Copy, Debug, PartialEq, Eq, Structural)]
pub enum NodeType {
    Waves,
    Evm,
}

/// The closed set of supported chains.
#[derive(Clone, Copy, Debug, PartialEq, Eq, Hash, Structural)]
pub enum Chain {
    Waves,
    Ethereum,
    BSC,
}

/// `c` mapped to lower case where it is an ASCII capital letter.
pub open spec fn lower_char(c: char) -> char {
    if 'A' <= c && c <= 'Z' {
        ((c as u32) + 32) as char
    } else {
        c
    }
}

/// `s` with every ASCII capital letter mapped to lower case.
pub open spec fn ascii_lower(s: Seq<char>) -> Seq<char> {
    s.map_values(|c: char| lower_char(c))
}

impl Chain {
    /// The canonical lowercase token of this chain.
    pub open spec fn spec_token(self) -> Seq<char> {
        match self {
            Chain::Waves => "waves"@,
            Chain::Ethereum => "ethereum"@,
            Chain::BSC => "bsc"@,
        }
    }

    pub open spec fn spec_node_type(self) -> NodeType {
        match self {
            Chain::Waves => NodeType::Waves,
            Chain::Ethereum => NodeType::Evm,
            Chain::BSC => NodeType::Evm,
        }
    }

    /// The canonical token of this chain.
    pub fn name(&self) -> (r: String)
        ensures
            r@ == self.spec_token(),
    {
        match self {
            Chain::Waves => "waves".to_owned(),
            Chain::Ethereum => "ethereum".to_owned(),
            Chain::BSC => "bsc".to_owned(),
        }
    }

    /// Which chain family serves this chain.
    pub fn node_type(&self) -> (r: NodeType)
        ensures
            r == self.spec_node_type(),
    {
        match self {
            Chain::Waves => NodeType::Waves,
            Chain::Ethereum => NodeType::Evm,
            Chain::BSC => NodeType::Evm,
        }
    }

    /// Parses a chain token, case-insensitively.
    pub fn try_from_str(value: &str) -> (r: Result<Chain, Error>)
        ensures
            match r {
                Ok(c) => ascii_lower(value@) == c.spec_token(),
                Err(e) => (e matches Error::UnexpectedChain(m) && m@ == value@) && forall|c: Chain|
                    ascii_lower(value@) != #[trigger] c.spec_token(),
            },
    {
        if matches_lowered(value, "waves") {
            Ok(Chain::Waves)
        } else if matches_lowered(value, "ethereum") {
            Ok(Chain::Ethereum)
        } else if matches_lowered(value, "bsc") {
            Ok(Chain::BSC)
        } else {
            proof {
                assert forall|c: Chain| ascii_lower(value@) != #[trigger] c.spec_token() by {
                    match c {
                        Chain::Waves => {},
                        Chain::Ethereum => {},
                        Chain::BSC => {},
                    }
                }
            }
            Err(Error::UnexpectedChain(value.to_owned()))
        }
    }
}

/// Law: every chain token is its own lower case, and no two chains share a
/// token even case-insensitively — so a chain's token parses back to that
/// chain and to no other.
pub proof fn lemma_chain_token_round_trip()
    ensures
        forall|c: Chain| #[trigger] ascii_lower(c.spec_token()) == c.spec_token(),
        forall|c1: Chain, c2: Chain|
            ascii_lower(#[trigger] c1.spec_token()) == #[trigger] c2.spec_token() ==> c1 == c2,
{
    reveal_strlit("waves");
    reveal_strlit("ethereum");
    reveal_strlit("bsc");
    assert(ascii_lower("waves"@) =~= "waves"@);
    assert(ascii_lower("ethereum"@) =~= "ethereum"@);
    assert(ascii_lower("bsc"@) =~= "bsc"@);
    assert(forall|c: Chain| #[trigger] ascii_lower(c.spec_token()) == c.spec_token()) by {
        assert(ascii_lower(Chain::Waves.spec_token()) == Chain::Waves.spec_token());
        assert(ascii_lower(Chain::Ethereum.spec_token()) == Chain::Ethereum.spec_token());
        assert(ascii_lower(Chain::BSC.spec_token()) == Chain::BSC.spec_token());
    }
    assert("waves"@.len() != "ethereum"@.len());
    assert("waves"@.len() != "bsc"@.len());
    assert("ethereum"@.len() != "bsc"@.len());
}

/// `c` mapped to lower case where it is an ASCII capital letter.
pub fn lower_char_exec(c: char) -> (r: char)
    ensures
        r == lower_char(c),
{
    let u = c as u32;
    if 0x41 <= u && u <= 0x5a {
        ((u + 32) as u8) as char
    } else {
        c
    }
}

/// Whether `s`, lowered, is exactly the (already lowercase) token `t`.
fn matches_lowered(s: &str, t: &str) -> (r: bool)
    ensures
        r == (ascii_lower(s@) == t@),
{
    let n = s.unicode_len();
    if n != t.unicode_len() {
        proof {
            assert(ascii_lower(s@).len() == s@.len());
        }
        return false;
    }
    let mut i: usize = 0;
    while i < n
        invariant
            i <= n,
            n == s@.len(),
            n == t@.len(),
            forall|j: int| 0 <= j < i ==> #[trigger] ascii_lower(s@)[j] == t@[j],
        decreases n - i,
    {
        let c = lower_char_exec(s.get_char(i));
        if c != t.get_char(i) {
            proof {
                assert(ascii_lower(s@)[i as int] == lower_char(s@[i as int]));
            }
            return false;
        }
        proof {
            assert(ascii_lower(s@)[i as int] == lower_char(s@[i as int]));
        }
        i = i + 1;
    }
    proof {
        assert(ascii_lower(s@) =~= t@);
    }
    true
}

/// The configuration of one chain, tagged by its chain family.
#[derive(Clone, Debug)]
pub enum Config {
    Ethereum(evm::Config),
    Bsc(evm::Config),
    Waves(waves::Config),
}

impl Config {
    pub open spec fn spec_chain(&self) -> Chain {
        match self {
            Config::Ethereum(_) => Chain::Ethereum,
            Config::Bsc(_) => Chain::BSC,
            Config::Waves(_) => Chain::Waves,
        }
    }

    /// The token naming this chain's native currency.
    pub open spec fn spec_native_token(&self) -> Seq<char> {
        match self {
            Config::Ethereum(_) => "ETHEREUM"@,
            Config::Bsc(_) => "BNB"@,
            Config::Waves(_) => "WAVES"@,
        }
    }

    pub fn chain(&self) -> (r: Chain)
        ensures
            r == self.spec_chain(),
    {
        match self {
            Config::Ethereum(_) => Chain::Ethereum,
            Config::Bsc(_) => Chain::BSC,
            Config::Waves(_) => Chain::Waves,
        }
    }

    pub fn native_token(&self) -> (r: String)
        ensures
            r@ == self.spec_native_token(),
    {
        match self {
            Config::Ethereum(_) => "ETHEREUM".to_owned(),
            Config::Bsc(_) => "BNB".to_owned(),
            Config::Waves(_) => "WAVES".to_owned(),
        }
    }
}

/// One node client, of either chain family.
#[derive(Clone, Debug)]
pub enum NodeClient {
    Waves(waves::NodeClient),
    Evm(evm::NodeClient),
}

impl AddressBalancesService for NodeClient {
    open spec fn allow_list(&self) -> Option<Seq<Seq<char>>> {
        match self {
            NodeClient::Waves(c) => c.allow_list(),
            NodeClient::Evm(c) => c.allow_list(),
        }
    }

    fn is_asset_supported(&self, asset_id: String) -> (r: bool)
        ensures
            r == spec_asset_supported(self.allow_list(), asset_id@),
    {
        match self {
            NodeClient::Waves(c) => c.is_asset_supported(asset_id),
            NodeClient::Evm(c) => c.is_asset_supported(asset_id),
        }
    }
}

/// Whether a chain's configuration constructs: only a malformed
/// batch-read contract address refuses one.
pub open spec fn spec_config_ok(config: Config) -> bool {
    match config {
        Config::Waves(_) => true,
        Config::Ethereum(cfg) | Config::Bsc(cfg) => match cfg.multicall_contract_address {
            Option::None => true,
            Option::Some(s) => crate::hex::spec_parse_address(s@) is Some,
        },
    }
}

/// The node client `c` is the one `config` asks for.
pub open spec fn spec_client_of_config(c: NodeClient, config: Config) -> bool {
    match config {
        Config::Waves(cfg) => c matches NodeClient::Waves(w) && w.base_url@ == cfg.base_url@
            && w.supported_asset_ids.deep_view() == cfg.supported_asset_ids.deep_view() && (
        w.supported_asset_ids is Some <==> cfg.supported_asset_ids is Some),
        Config::Ethereum(cfg) | Config::Bsc(cfg) => c matches NodeClient::Evm(e) && {
            &&& e.base_url@ == cfg.base_url@
            &&& e.native_token@ == config.spec_native_token()
            &&& e.chain_id == cfg.chain_id
            &&& e.supported_asset_ids.deep_view() == cfg.supported_asset_ids.deep_view()
            &&& (e.supported_asset_ids is Some <==> cfg.supported_asset_ids is Some)
            &&& match cfg.multicall_contract_address {
                Option::None => e.multicall_contract_address is None,
                Option::Some(s) => e.multicall_contract_address matches Some(a) && a.wf()
                    && crate::hex::spec_parse_address(s@) == Some(a.bytes@),
            }
        },
    }
}

/// Builds the node client a chain's configuration asks for. Fails only on
/// a malformed batch-read contract address, so that startup as a whole can
/// be failed before any request is served.
pub fn new(config: &Config) -> (r: Result<NodeClient, Error>)
    ensures
        match r {
            Ok(c) => spec_config_ok(*config) && spec_client_of_config(c, *config),
            Err(e) => !spec_config_ok(*config) && (e matches Error::InvalidAddress(m) && match (
            *config) {
                Config::Waves(_) => false,
                Config::Ethereum(cfg) | Config::Bsc(cfg) => cfg.multicall_contract_address
                    matches Some(s) && m@ == s@ && crate::hex::spec_parse_address(s@) is None,
            }),
        },
{
    match config {
        Config::Waves(cfg) => {
            let client = waves::NodeClient::try_new(
                cfg.base_url.as_str(),
                &cfg.supported_asset_ids,
            )?;
            Ok(NodeClient::Waves(client))
        },
        Config::Ethereum(cfg) | Config::Bsc(cfg) => {
            let native = config.native_token();
            let client = evm::NodeClient::try_new(
                cfg.base_url.as_str(),
                native.as_str(),
                cfg.chain_id,
                &cfg.supported_asset_ids,
                &cfg.multicall_contract_address,
            )?;
            Ok(NodeClient::Evm(client))
        },
    }
}

/// Builds the whole registry input from the full configuration list: one
/// client per entry, keyed by the entry's chain, in configuration order.
/// If any single client's construction fails, the whole startup fails: no
/// partial registry is ever handed out.
pub fn build_registry(configs: &Vec<Config>) -> (r: Result<Vec<(Chain, NodeClient)>, Error>)
    ensures
        r is Ok <==> (forall|i: int|
            0 <= i < configs@.len() ==> spec_config_ok(#[trigger] configs@[i])),
        match r {
            Ok(v) => v@.len() == configs@.len() && forall|i: int|
                0 <= i < v@.len() ==> (#[trigger] v@[i]).0 == configs@[i].spec_chain()
                    && spec_client_of_config(v@[i].1, configs@[i]),
            Err(e) => e matches Error::InvalidAddress(m) && exists|i: int|
                {
                    &&& 0 <= i < configs@.len()
                    &&& !spec_config_ok(#[trigger] configs@[i])
                    &&& forall|j: int| 0 <= j < i ==> spec_config_ok(#[trigger] configs@[j])
                },
        },
{
    let mut out: Vec<(Chain, NodeClient)> = Vec::new();
    let mut i: usize = 0;
    while i < configs.len()
        invariant
            i <= configs@.len(),
            out@.len() == i,
            forall|j: int| 0 <= j < i ==> spec_config_ok(#[trigger] configs@[j]),
            forall|j: int|
                0 <= j < i ==> (#[trigger] out@[j]).0 == configs@[j].spec_chain()
                    && spec_client_of_config(out@[j].1, configs@[j]),
        decreases configs@.len() - i,
    {
        let config = &configs[i];
        let chain = config.chain();
        let client = match new(config) {
            Ok(c) => c,
            Err(e) => {
                return Err(e);
            },
        };
        out.push((chain, client));
        i = i + 1;
    }
    Ok(out)
}

} // verus!
