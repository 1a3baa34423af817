//! A multi-chain balance aggregation library: one uniform balance API over
//! otherwise incompatible blockchains. A `Service` routes each request to
//! the node client configured for the chain and validates asset support;
//! the EVM batch-read protocol — packing many `balanceOf(address)` reads
//! into one `aggregate` call and re-ordering the nested results — is
//! encoded and decoded here, with a proved equivalence between the batched
//! and the unbatched path. The transport (HTTP, JSON-RPC) is left to the
//! caller: every function here plans upstream reads or interprets their
//! answers, as plain values with exact contracts.

pub mod abi;
pub mod error;
pub mod evm;
pub mod hex;
pub mod node_clients;
pub mod service;
pub mod waves;
pub mod words;
