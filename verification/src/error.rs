//! The error taxonomy of the balance service. Every failure a caller can
//! see is one of these variants; the payload is human-readable context
//! (the offending chain token, asset id or upstream detail).

use vstd::prelude::*;

verus! {

#[derive(Clone, Debug)]
pub enum Error {
    /// A chain token that names no supported chain.
    UnexpectedChain(String),
    /// The requested chain has no configured node client.
    ChainNotConfigured(String),
    /// An address or asset id that is not a well-formed contract address.
    InvalidAddress(String),
    /// The upstream node could not be reached or answered abnormally.
    UpstreamTransport(String),
    /// The upstream answer did not have the promised shape.
    UpstreamDecode(String),
    /// An on-chain value does not fit the 64-bit external representation.
    NumericOverflow(String),
}

} // verus!
