//! The decisions of the balance oracle client: how a failed view call is
//! classified, when it is tried again, and how a response is read. The
//! calls themselves are made by the caller.

use vstd::prelude::*;
use crate::amount::{decimal_value, is_canonical_decimal, Amount};
use crate::outside::{json_text, json_text_of};

verus! {

pub open spec fn contains_text(s: Seq<char>, p: Seq<char>) -> bool {
    exists|i: int| 0 <= i && i + p.len() <= s.len() && #[trigger] s.subrange(i, i + p.len()) == p
}

/// Relies on `str::contains` with a `&str` pattern.
#[verifier::external_body]
fn text_contains(s: &str, pattern: &str) -> (r: bool)
    ensures
        r == contains_text(s@, pattern@),
{
    s.contains(pattern)
}

/// Why a view call failed.
#[derive(Clone, Copy, Debug, PartialEq, Eq, Structural)]
pub enum OracleFailure {
    /// The account has no contract, or no balance method: permanent at this
    /// block.
    ContractAbsent,
    /// Anything else (network, rate limits): worth another try.
    Transient,
}

pub open spec fn failure_of(message: Seq<char>) -> OracleFailure {
    if contains_text(message, "CodeDoesNotExist"@) || contains_text(message, "MethodNotFound"@) {
        OracleFailure::ContractAbsent
    } else {
        OracleFailure::Transient
    }
}

/// Classifies a failed view call by the text of its error.
pub fn classify_failure(message: &str) -> (r: OracleFailure)
    ensures
        r == failure_of(message@),
{
    if text_contains(message, "CodeDoesNotExist") || text_contains(message, "MethodNotFound") {
        OracleFailure::ContractAbsent
    } else {
        OracleFailure::Transient
    }
}

pub const RETRY_ATTEMPTS: u64 = 10;
pub const INITIAL_DELAY_MS: u64 = 100;
pub const MAX_DELAY_MS: u64 = 120_000;

/// The wait after the `attempt`-th failed try: it starts at 100 ms and
/// doubles, up to 120 s.
pub open spec fn backoff_ms(attempt: nat) -> nat
    decreases attempt,
{
    if attempt <= 1 {
        INITIAL_DELAY_MS as nat
    } else {
        let d = 2 * backoff_ms((attempt - 1) as nat);
        if d > MAX_DELAY_MS {
            MAX_DELAY_MS as nat
        } else {
            d
        }
    }
}

proof fn lemma_backoff_bounded(attempt: nat)
    ensures
        backoff_ms(attempt) <= MAX_DELAY_MS,
    decreases attempt,
{
    if attempt > 1 {
        lemma_backoff_bounded((attempt - 1) as nat);
    }
}

/// Where a run of tries stands: the number of the try being made.
#[derive(Clone, Copy, Debug, PartialEq, Eq, Structural)]
pub struct RetryState {
    pub attempt: u64,
    pub delay_ms: u64,
}

impl RetryState {
    pub open spec fn wf(&self) -> bool {
        1 <= self.attempt <= RETRY_ATTEMPTS && self.delay_ms == backoff_ms(self.attempt as nat)
    }

    /// The state of the first try.
    pub fn first() -> (r: RetryState)
        ensures
            r.wf(),
            r.attempt == 1,
    {
        RetryState { attempt: 1, delay_ms: INITIAL_DELAY_MS }
    }
}

/// What to do after a failed try.
#[derive(Clone, Copy, Debug, PartialEq, Eq, Structural)]
pub enum RetryStep {
    /// Wait this long, then make the next try.
    Retry(u64, RetryState),
    /// Stop: the contract is absent.
    ContractAbsent,
    /// Stop: every try failed.
    Unavailable,
}

/// Decides what follows a failed try: an absent contract is final, other
/// failures are tried again after the back-off, ten tries in all.
pub fn after_failure(state: &RetryState, failure: OracleFailure) -> (r: RetryStep)
    requires
        state.wf(),
    ensures
        failure == OracleFailure::ContractAbsent ==> r == RetryStep::ContractAbsent,
        failure == OracleFailure::Transient && state.attempt >= RETRY_ATTEMPTS ==> r == RetryStep::Unavailable,
        failure == OracleFailure::Transient && state.attempt < RETRY_ATTEMPTS ==> r == RetryStep::Retry(
            state.delay_ms,
            RetryState { attempt: (state.attempt + 1) as u64, delay_ms: backoff_ms((state.attempt + 1) as nat) as u64 },
        ),
        r matches RetryStep::Retry(_, next) ==> next.wf(),
{
    match failure {
        OracleFailure::ContractAbsent => RetryStep::ContractAbsent,
        OracleFailure::Transient => {
            if state.attempt >= RETRY_ATTEMPTS {
                RetryStep::Unavailable
            } else {
                proof {
                    lemma_backoff_bounded(state.attempt as nat);
                }
                let doubled = state.delay_ms * 2;
                let next_delay = if doubled > MAX_DELAY_MS {
                    MAX_DELAY_MS
                } else {
                    doubled
                };
                RetryStep::Retry(state.delay_ms, RetryState { attempt: state.attempt + 1, delay_ms: next_delay })
            }
        },
    }
}

pub open spec fn balance_of_response(body: Seq<u8>) -> Option<u128> {
    match json_text_of(body) {
        Some(t) => if is_canonical_decimal(t) && decimal_value(t) <= u128::MAX {
            Some(decimal_value(t) as u128)
        } else {
            None
        },
        None => None,
    }
}

/// Reads the result of `ft_balance_of`: a JSON string of decimal digits, or
/// a bare JSON integer.
pub fn parse_balance_response(body: &[u8]) -> (r: Option<u128>)
    ensures
        r == balance_of_response(body@),
{
    match json_text(body) {
        Some(t) => match Amount::parse_unsigned(t.as_str()) {
            Some(a) => a.magnitude_u128(),
            None => None,
        },
        None => None,
    }
}

} // verus!
