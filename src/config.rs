//! The settings the pipeline runs with.

use vstd::prelude::*;
use crate::nep::text_is;

verus! {

#[derive(Clone, Copy, Debug, PartialEq, Eq, Structural)]
pub enum Chain {
    Mainnet,
    Testnet,
}

/// Reads a chain name: "mainnet" or "testnet".
pub fn parse_chain(name: &String) -> (r: Option<Chain>)
    ensures
        name@ == "mainnet"@ ==> r == Some(Chain::Mainnet),
        name@ == "testnet"@ ==> r == Some(Chain::Testnet),
        name@ != "mainnet"@ && name@ != "testnet"@ ==> r is None,
{
    proof {
        reveal_strlit("mainnet");
        reveal_strlit("testnet");
        assert("mainnet"@[0] != "testnet"@[0]);
    }
    if text_is(name, "mainnet") {
        Some(Chain::Mainnet)
    } else if text_is(name, "testnet") {
        Some(Chain::Testnet)
    } else {
        None
    }
}

#[derive(Clone, Copy, Debug, PartialEq, Eq, Structural)]
pub struct PipelineConfig {
    pub start_block_height: u64,
    pub chain: Chain,
    pub balance_cache_capacity: u64,
    pub retry_attempts: u64,
    pub retry_initial_ms: u64,
    pub retry_max_ms: u64,
    pub insert_chunk_size: u64,
}

impl PipelineConfig {
    /// The settings for a run from `start_block_height`, with the usual
    /// limits: a cache of 100 000 balances, ten tries from 100 ms up to
    /// 120 s, inserts of 100 rows.
    pub fn new(start_block_height: u64, chain: Chain) -> (r: PipelineConfig)
        ensures
            r.start_block_height == start_block_height,
            r.chain == chain,
            r.balance_cache_capacity == 100_000,
            r.retry_attempts == crate::oracle::RETRY_ATTEMPTS,
            r.retry_initial_ms == crate::oracle::INITIAL_DELAY_MS,
            r.retry_max_ms == crate::oracle::MAX_DELAY_MS,
            r.insert_chunk_size == 100,
    {
        PipelineConfig {
            start_block_height,
            chain,
            balance_cache_capacity: 100_000,
            retry_attempts: crate::oracle::RETRY_ATTEMPTS,
            retry_initial_ms: crate::oracle::INITIAL_DELAY_MS,
            retry_max_ms: crate::oracle::MAX_DELAY_MS,
            insert_chunk_size: 100,
        }
    }
}

} // verus!
