//! Verified core of a rollup batch indexer.
//!
//! The library is the indexing-and-reconciliation engine for rollup
//! batches on a base chain: decoded proposal and proof events are folded
//! into a durable batch table together with a five-field progress
//! checkpoint, and a read-only query surface serves the accumulated
//! rows.  Every function that decides or computes something carries a
//! contract; the chain RPC transport, the storage backend and the
//! process bootstrap are outside collaborators that hand the library
//! plain values and mirror its state.
//!
//! The modules, leaves first: [`errors`] holds the typed failures,
//! [`decimal`] the verified decimal-string arithmetic fees are stored
//! in, [`batch`] the batch row and the checkpoint record, [`events`]
//! the decoded on-chain observations, [`db`] the batch table and the
//! checkpoint store, [`config`] the validated settings, [`indexer`] the
//! two processors and the orchestrator's decisions, [`accounting`] the
//! debit/credit fee ledger, and [`query`] the read-only query surface.

pub mod errors;
pub mod decimal;
pub mod batch;
pub mod events;
pub mod db;
pub mod config;
pub mod indexer;
pub mod accounting;
pub mod query;
