//! Core state-transition logic of a UTXO-plus-accounts blockchain node.
//!
//! The crate decides, for a candidate block, whether it is valid, which chain
//! is best, and how to apply or unwind its effects on the coupled ledgers:
//! coin UTXOs, proof-of-stake pool and delegation accounting, token
//! accounting, and per-address derived balances.  Disconnecting a block is
//! the exact inverse of connecting it, which is what makes reorganisations
//! safe; the central lemmas of the delta module state that inverse exactly.

pub mod amount;
pub mod amounts_map;
pub mod block_checks;
pub mod builder;
pub mod chain;
pub mod chain_index;
pub mod chainstate;
pub mod config;
pub mod constraints;
pub mod delta;
pub mod delta_amount;
pub mod mempool;
pub mod orphans;
pub mod reorg;
pub mod scanner;
pub mod subsys;
pub mod token_checks;
pub mod tokens;
pub mod tokens_ledger;
pub mod tx_utils;
pub mod utxo_db;
pub mod wallet;
