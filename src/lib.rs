//! The state and ledger engine of an EVM-compatible chain driven by an external
//! BFT consensus engine: a versioned, branchable key-value store, the
//! transaction preflight, per-role state branches, block assembly and
//! historical rewind.
use vstd::prelude::*;

pub mod block;
pub mod bytes;
pub mod common;
pub mod encode;
pub mod evm;
pub mod genesis;
pub mod laws;
pub mod ledger;
pub mod net;
pub mod order;
pub mod query;
pub mod rewind;
pub mod store;
pub mod tx;
pub mod u256;

verus! {

} // verus!
