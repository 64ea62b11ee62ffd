//! Typed records that flow through the pipeline: what a decoder produces and
//! what the sink receives.

use vstd::prelude::*;
use crate::amount::Amount;
use crate::index::EventKind;

verus! {

#[derive(Clone, Copy, Debug, PartialEq, Eq, Structural)]
pub enum Cause {
    Mint,
    Transfer,
    Burn,
}

impl Cause {
    pub fn as_str(self) -> (r: &'static str)
        ensures
            self == Cause::Mint ==> r@ == "MINT"@,
            self == Cause::Transfer ==> r@ == "TRANSFER"@,
            self == Cause::Burn ==> r@ == "BURN"@,
    {
        match self {
            Cause::Mint => "MINT",
            Cause::Transfer => "TRANSFER",
            Cause::Burn => "BURN",
        }
    }
}

/// The status stored with an event.
#[derive(Clone, Copy, Debug, PartialEq, Eq, Structural)]
pub enum StatusLabel {
    Success,
    Failure,
    Unknown,
}

impl StatusLabel {
    pub fn as_str(self) -> (r: &'static str)
        ensures
            self == StatusLabel::Success ==> r@ == "SUCCESS"@,
            self == StatusLabel::Failure ==> r@ == "FAILURE"@,
            self == StatusLabel::Unknown ==> r@ == "UNKNOWN"@,
    {
        match self {
            StatusLabel::Success => "SUCCESS",
            StatusLabel::Failure => "FAILURE",
            StatusLabel::Unknown => "UNKNOWN",
        }
    }
}

/// How a receipt ended. `SuccessValue` carries the base64 text of the value
/// the call returned.
#[derive(Clone, Debug)]
pub enum ExecutionStatus {
    Unknown,
    Failure,
    SuccessValue(String),
    SuccessReceiptId,
}

impl ExecutionStatus {
    pub open spec fn spec_label(&self) -> StatusLabel {
        match self {
            ExecutionStatus::Unknown => StatusLabel::Unknown,
            ExecutionStatus::Failure => StatusLabel::Failure,
            ExecutionStatus::SuccessValue(_) => StatusLabel::Success,
            ExecutionStatus::SuccessReceiptId => StatusLabel::Success,
        }
    }

    pub fn label(&self) -> (r: StatusLabel)
        ensures
            r == self.spec_label(),
    {
        match self {
            ExecutionStatus::Unknown => StatusLabel::Unknown,
            ExecutionStatus::Failure => StatusLabel::Failure,
            ExecutionStatus::SuccessValue(_) => StatusLabel::Success,
            ExecutionStatus::SuccessReceiptId => StatusLabel::Success,
        }
    }

    pub fn succeeded(&self) -> (r: bool)
        ensures
            r == (self.spec_label() == StatusLabel::Success),
    {
        match self {
            ExecutionStatus::SuccessValue(_) | ExecutionStatus::SuccessReceiptId => true,
            _ => false,
        }
    }
}

/// The token standard a row is stored under.
#[derive(Clone, Copy, Debug, PartialEq, Eq, Structural)]
pub enum Standard {
    FtNep141,
    FtLegacy,
    NftNep171,
}

impl Standard {
    pub fn as_str(self) -> (r: &'static str)
        ensures
            self == Standard::FtNep141 ==> r@ == "FT_NEP141"@,
            self == Standard::FtLegacy ==> r@ == "FT_LEGACY"@,
            self == Standard::NftNep171 ==> r@ == "NFT_NEP171"@,
    {
        match self {
            Standard::FtNep141 => "FT_NEP141",
            Standard::FtLegacy => "FT_LEGACY",
            Standard::NftNep171 => "NFT_NEP171",
        }
    }
}

/// A balance change decoded from a receipt, before its absolute amount is
/// known. `fresh_account` marks a change whose account starts from zero
/// (the owner of a token contract that is being initialised).
#[derive(Debug)]
pub struct TokenEvent {
    pub shard_id: u64,
    pub kind: EventKind,
    pub standard: Standard,
    pub receipt_id: String,
    pub contract_id: String,
    pub status: StatusLabel,
    pub affected_id: String,
    pub involved_id: Option<String>,
    pub delta: Amount,
    pub cause: Cause,
    pub memo: Option<String>,
    pub fresh_account: bool,
}

/// A fungible-token event row as the sink stores it.
#[derive(Debug)]
pub struct CoinEventRow {
    pub event_index: u128,
    pub standard: Standard,
    pub receipt_id: String,
    pub block_height: u64,
    pub block_timestamp: u64,
    pub contract_account_id: String,
    pub affected_account_id: String,
    pub involved_account_id: Option<String>,
    pub delta_amount: Amount,
    pub absolute_amount: u128,
    pub cause: Cause,
    pub status: StatusLabel,
    pub event_memo: Option<String>,
    pub shard_id: u64,
    pub kind: EventKind,
}

/// A non-fungible-token event row as the sink stores it.
#[derive(Debug)]
pub struct NftEventRow {
    pub event_index: u128,
    pub receipt_id: String,
    pub block_timestamp: u64,
    pub contract_account_id: String,
    pub token_id: String,
    pub cause: Cause,
    pub status: StatusLabel,
    pub old_owner_account_id: Option<String>,
    pub new_owner_account_id: Option<String>,
    pub authorized_account_id: Option<String>,
    pub event_memo: Option<String>,
}

pub fn copy_text(s: &String) -> (r: String)
    ensures
        r == *s,
{
    s.clone()
}

pub fn copy_opt_text(s: &Option<String>) -> (r: Option<String>)
    ensures
        r == *s,
{
    match s {
        Some(t) => Some(t.clone()),
        None => None,
    }
}

} // verus!
