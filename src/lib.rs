//! Reconstruction of fungible and non-fungible token events from the
//! receipts of a block, with balance tracking and a consistency gate.

pub mod amount;
pub mod index;
pub mod event;
pub mod balances;
pub mod contracts;
pub mod builder;
pub mod reconcile;
pub mod outside;
pub mod block;
pub mod token;
pub mod nep;
pub mod legacy;
pub mod collect;
pub mod cache;
pub mod pipeline;
pub mod nft;
pub mod laws;
pub mod oracle;
pub mod config;
pub mod pairs;
