//! What the stream hands the pipeline for one block.

use vstd::prelude::*;
use crate::event::ExecutionStatus;

verus! {

#[derive(Clone, Debug)]
pub struct FunctionCall {
    pub method_name: String,
    /// The call's arguments, base64-encoded.
    pub args: String,
    /// The deposit attached to the call.
    pub deposit: u128,
}

#[derive(Clone, Debug)]
pub enum Action {
    FunctionCall(FunctionCall),
    Other,
}

/// A receipt and the outcome of executing it.
#[derive(Clone, Debug)]
pub struct ReceiptOutcome {
    pub receipt_id: String,
    pub predecessor_id: String,
    pub receiver_id: String,
    pub executor_id: String,
    pub actions: Vec<Action>,
    pub logs: Vec<String>,
    pub status: ExecutionStatus,
}

#[derive(Clone, Debug)]
pub struct Shard {
    pub shard_id: u64,
    pub outcomes: Vec<ReceiptOutcome>,
}

#[derive(Clone, Debug)]
pub struct BlockHeader {
    pub height: u64,
    pub hash: String,
    pub prev_hash: String,
    /// Nanoseconds since the Unix epoch.
    pub timestamp: u64,
}

} // verus!
