//! Client-side engine for snapshot-isolated transactions over a partitioned
//! multi-version key-value store.
//!
//! - `key`: the byte-wise order on keys.
//! - `range`: key intervals with included, excluded or open ends.
//! - `buffer`: a transaction's buffered writes.
//! - `scan`: reads that merge buffered writes over what the store holds.
//! - `txn`: the transaction state machine and its two-phase commit.
//! - `snapshot`: read-only views at a timestamp.
//! - `client`: checks on connection settings.
//! - `store`: an in-memory multi-version store with locks, on which the
//!   commit protocol runs without a cluster.
use vstd::prelude::*;

pub mod client;
pub mod key;
pub mod range;
pub mod buffer;
pub mod scan;
pub mod txn;
pub mod snapshot;
pub mod store;

verus! {

} // verus!
