//! Validated indexer configuration.
//!
//! The process bootstrap reads these values from its environment and
//! hands them over as plain values; the constructor enforces the
//! positivity every numeric setting must satisfy.

use vstd::prelude::*;

use crate::errors::IndexerError;

verus! {

pub struct Config {
    pub db_filename: String,
    pub l1_rpc_url: String,
    pub l2_rpc_url: String,
    pub taiko_inbox_address: String,
    /// First base-chain block to index; must be positive.
    pub l1_start_block: u64,
    /// Blocks per indexing window beyond the first; must be positive.
    pub indexing_step: u64,
    /// Base poll interval in seconds; must be positive.
    pub sleep_duration_sec: u64,
    /// Maximum tolerated fork depth; must be positive (not consulted by
    /// the reconciliation logic).
    pub max_l1_fork_depth: u64,
}

impl Config {
    /// Builds a configuration, rejecting any zero numeric setting.
    pub fn new(
        db_filename: String,
        l1_rpc_url: String,
        l2_rpc_url: String,
        taiko_inbox_address: String,
        l1_start_block: u64,
        indexing_step: u64,
        sleep_duration_sec: u64,
        max_l1_fork_depth: u64,
    ) -> (r: Result<Config, IndexerError>)
        ensures
            match r {
                Ok(c) => {
                    &&& l1_start_block > 0
                    &&& indexing_step > 0
                    &&& sleep_duration_sec > 0
                    &&& max_l1_fork_depth > 0
                    &&& c.db_filename == db_filename
                    &&& c.l1_rpc_url == l1_rpc_url
                    &&& c.l2_rpc_url == l2_rpc_url
                    &&& c.taiko_inbox_address == taiko_inbox_address
                    &&& c.l1_start_block == l1_start_block
                    &&& c.indexing_step == indexing_step
                    &&& c.sleep_duration_sec == sleep_duration_sec
                    &&& c.max_l1_fork_depth == max_l1_fork_depth
                },
                Err(e) => {
                    &&& e == IndexerError::InvalidConfig
                    &&& (l1_start_block == 0 || indexing_step == 0 || sleep_duration_sec == 0
                        || max_l1_fork_depth == 0)
                },
            },
    {
        if l1_start_block == 0 || indexing_step == 0 || sleep_duration_sec == 0
            || max_l1_fork_depth == 0 {
            return Err(IndexerError::InvalidConfig);
        }
        Ok(
            Config {
                db_filename,
                l1_rpc_url,
                l2_rpc_url,
                taiko_inbox_address,
                l1_start_block,
                indexing_step,
                sleep_duration_sec,
                max_l1_fork_depth,
            },
        )
    }
}

} // verus!
