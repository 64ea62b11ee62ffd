//! Adapters for token contracts that predate the event standard: their
//! balance changes are inferred from method names, arguments and logs.

use vstd::prelude::*;
use crate::amount::{decimal_value, is_canonical_decimal, Amount};
use crate::block::{FunctionCall, ReceiptOutcome};
use crate::event::{Cause, ExecutionStatus, StatusLabel, TokenEvent};
use crate::nep::{escaped_opt, read_text_field, text_field, text_is, DecodeError};
use crate::outside::{
    base64_decoded,
    decode_base64,
    json_text,
    json_text_of,
    opt_view,
    regex_captures,
    regex_captures_of,
    strip_prefix,
};
use crate::token::{
    all_wf,
    escape_memo,
    event_view,
    event_views,
    push_event,
    push_transfer,
    rollback,
    transfer_views,
    EventContext,
    TokenEventView,
};

verus! {

pub type Events = Result<Seq<TokenEventView>, DecodeError>;

/// What unreadable arguments lead to: nothing for a receipt that did not
/// succeed, an error for one that did.
pub open spec fn bad_args(status: StatusLabel) -> Events {
    if status == StatusLabel::Success {
        Err(DecodeError::BadArguments)
    } else {
        Ok(Seq::empty())
    }
}

/// `r` says that `out` grew by what `spec` holds, or failed as `spec` says
/// and was left as it was.
pub open spec fn appended(
    old_out: Seq<TokenEvent>,
    new_out: Seq<TokenEvent>,
    r: Result<(), DecodeError>,
    spec: Events,
) -> bool {
    &&& all_wf(new_out)
    &&& match spec {
        Ok(v) => r is Ok && event_views(new_out) == event_views(old_out) + v,
        Err(e) => r == Err::<(), DecodeError>(e) && event_views(new_out) == event_views(old_out),
    }
}

fn bad_args_result(status: StatusLabel) -> (r: Result<(), DecodeError>)
    ensures
        match bad_args(status) {
            Ok(_) => r is Ok,
            Err(e) => r == Err::<(), DecodeError>(e),
        },
{
    if status == StatusLabel::Success {
        Err(DecodeError::BadArguments)
    } else {
        Ok(())
    }
}

/// A call of `ft_transfer` or `ft_transfer_call` by `sender`.
pub open spec fn transfer_call_events(ctx: EventContext, sender: Seq<char>, doc: Seq<u8>) -> Events {
    let receiver = text_field(doc, "receiver_id"@);
    let amount = text_field(doc, "amount"@);
    if receiver is None || amount is None {
        bad_args(ctx.status)
    } else if !is_canonical_decimal(amount->0) {
        Err(DecodeError::BadAmount)
    } else {
        Ok(
            transfer_views(
                ctx,
                sender,
                receiver->0,
                decimal_value(amount->0) as int,
                escaped_opt(text_field(doc, "memo"@)),
            ),
        )
    }
}

/// The arguments of `ft_transfer` and `ft_transfer_call`.
#[derive(Debug)]
pub struct FtTransfer {
    pub receiver_id: String,
    pub amount: String,
    pub memo: Option<String>,
}

impl FtTransfer {
    /// Reads the arguments from their JSON; `None` when a required field is
    /// missing or not a string.
    pub fn read(doc: &[u8]) -> (r: Option<FtTransfer>)
        ensures
            r is None <==> (text_field(doc@, "receiver_id"@) is None || text_field(doc@, "amount"@) is None),
            r matches Some(t) ==> Some(t.receiver_id@) == text_field(doc@, "receiver_id"@) && Some(t.amount@)
                == text_field(doc@, "amount"@) && opt_view(t.memo) == text_field(doc@, "memo"@),
    {
        let receiver = read_text_field(doc, "receiver_id");
        let amount = read_text_field(doc, "amount");
        let memo = read_text_field(doc, "memo");
        match (receiver, amount) {
            (Some(receiver_id), Some(amount)) => Some(FtTransfer { receiver_id, amount, memo }),
            _ => None,
        }
    }
}

pub fn push_transfer_call(out: &mut Vec<TokenEvent>, ctx: &EventContext, sender: &String, doc: &[u8]) -> (r:
    Result<(), DecodeError>)
    requires
        all_wf(old(out)@),
    ensures
        appended(old(out)@, final(out)@, r, transfer_call_events(*ctx, sender@, doc@)),
{
    match FtTransfer::read(doc) {
        Some(args) => match Amount::parse_unsigned(args.amount.as_str()) {
            Some(v) => {
                let memo = escape_memo(&args.memo);
                push_transfer(out, ctx, sender, &args.receiver_id, &v, &memo);
                Ok(())
            },
            None => Err(DecodeError::BadAmount),
        },
        None => {
            let r = bad_args_result(ctx.status);
            assert(event_views(out@) =~= event_views(out@) + Seq::<TokenEventView>::empty());
            r
        },
    }
}

/// A single change of `affected` by the amount in the argument `key`,
/// negated for a burn.
pub open spec fn amount_arg_events(ctx: EventContext, affected: Seq<char>, doc: Seq<u8>, cause: Cause) -> Events {
    let amount = text_field(doc, "amount"@);
    if amount is None {
        bad_args(ctx.status)
    } else if !is_canonical_decimal(amount->0) {
        Err(DecodeError::BadAmount)
    } else {
        let v = decimal_value(amount->0) as int;
        Ok(
            seq![event_view(
                ctx,
                affected,
                None,
                if cause == Cause::Burn {
                    -v
                } else {
                    v
                },
                cause,
                None,
                false,
            )],
        )
    }
}

pub fn push_amount_arg(
    out: &mut Vec<TokenEvent>,
    ctx: &EventContext,
    affected: &String,
    doc: &[u8],
    cause: Cause,
) -> (r: Result<(), DecodeError>)
    requires
        all_wf(old(out)@),
    ensures
        appended(old(out)@, final(out)@, r, amount_arg_events(*ctx, affected@, doc@, cause)),
{
    match read_text_field(doc, "amount") {
        Some(a) => match Amount::parse_unsigned(a.as_str()) {
            Some(v) => {
                let delta = if cause == Cause::Burn {
                    v.negated()
                } else {
                    v
                };
                let ghost before = event_views(out@);
                push_event(out, ctx, affected, None, delta, cause, &None, false);
                assert(event_views(out@) =~= before + seq![
                    event_view(*ctx, affected@, None, delta.value(), cause, None, false),
                ]);
                Ok(())
            },
            None => Err(DecodeError::BadAmount),
        },
        None => {
            let r = bad_args_result(ctx.status);
            assert(event_views(out@) =~= event_views(out@) + Seq::<TokenEventView>::empty());
            r
        },
    }
}

pub open spec fn starts_with(s: Seq<char>, p: Seq<char>) -> bool {
    p.len() <= s.len() && s.subrange(0, p.len() as int) == p
}

/// How a refund is logged: `Some(true)` when the first telling line says the
/// sender's account was deleted, `Some(false)` when it is a `Refund ...`
/// line, `None` when no line tells.
pub open spec fn refund_kind(logs: Seq<String>) -> Option<bool>
    decreases logs.len(),
{
    if logs.len() == 0 {
        None
    } else if logs[0]@ == "The account of the sender was deleted"@ {
        Some(true)
    } else if starts_with(logs[0]@, "Refund "@) {
        Some(false)
    } else {
        refund_kind(logs.drop_first())
    }
}

fn read_refund_kind(logs: &Vec<String>) -> (r: Option<bool>)
    ensures
        r == refund_kind(logs@),
{
    let mut i: usize = 0;
    assert(logs@.skip(0) =~= logs@);
    while i < logs.len()
        invariant
            i <= logs@.len(),
            refund_kind(logs@.skip(i as int)) == refund_kind(logs@),
        decreases logs@.len() - i,
    {
        assert(logs@.skip(i as int)[0] == logs@[i as int]);
        assert(logs@.skip(i as int).drop_first() =~= logs@.skip(i + 1));
        if text_is(&logs[i], "The account of the sender was deleted") {
            return Some(true);
        }
        if strip_prefix(logs[i].as_str(), "Refund ").is_some() {
            return Some(false);
        }
        i = i + 1;
    }
    assert(logs@.skip(i as int) =~= Seq::<String>::empty());
    None
}

/// A call of `ft_resolve_transfer`: when its logs say so, the unused part of
/// a transfer goes back from the receiver to the sender, or is burnt when
/// the sender's account is gone. `returned` is the part the receiver kept,
/// when the call reports one.
pub open spec fn refund_events(ctx: EventContext, doc: Seq<u8>, logs: Seq<String>, returned: Option<nat>) -> Events {
    let receiver = text_field(doc, "receiver_id"@);
    let sender = text_field(doc, "sender_id"@);
    let amount = text_field(doc, "amount"@);
    if logs.len() == 0 {
        Ok(Seq::empty())
    } else if receiver is None || sender is None || amount is None {
        bad_args(ctx.status)
    } else if !is_canonical_decimal(amount->0) {
        Err(DecodeError::BadAmount)
    } else {
        let delta = decimal_value(amount->0) - match returned {
            Some(x) => x as int,
            None => 0,
        };
        let memo = escaped_opt(text_field(doc, "memo"@));
        match refund_kind(logs) {
            Some(true) => Ok(seq![event_view(ctx, receiver->0, None, -delta, Cause::Burn, memo, false)]),
            Some(false) => Ok(transfer_views(ctx, receiver->0, sender->0, delta, memo)),
            None => Ok(Seq::empty()),
        }
    }
}

pub fn push_refund(
    out: &mut Vec<TokenEvent>,
    ctx: &EventContext,
    doc: &[u8],
    logs: &Vec<String>,
    returned: &Option<Amount>,
) -> (r: Result<(), DecodeError>)
    requires
        all_wf(old(out)@),
        returned matches Some(a) ==> a.wf() && !a.negative,
    ensures
        appended(
            old(out)@,
            final(out)@,
            r,
            refund_events(
                *ctx,
                doc@,
                logs@,
                match *returned {
                    Some(a) => Some(a.magnitude()),
                    None => None,
                },
            ),
        ),
{
    proof {
        assert(event_views(out@) =~= event_views(out@) + Seq::<TokenEventView>::empty());
    }
    if logs.len() == 0 {
        return Ok(());
    }
    let receiver = read_text_field(doc, "receiver_id");
    let sender = read_text_field(doc, "sender_id");
    let amount = read_text_field(doc, "amount");
    let (rc, sd, a) = match (receiver, sender, amount) {
        (Some(rc), Some(sd), Some(a)) => (rc, sd, a),
        _ => {
            return bad_args_result(ctx.status);
        },
    };
    let value = match Amount::parse_unsigned(a.as_str()) {
        Some(v) => v,
        None => {
            return Err(DecodeError::BadAmount);
        },
    };
    let delta = match returned {
        Some(kept) => value.minus(kept),
        None => value,
    };
    let memo = escape_memo(&read_text_field(doc, "memo"));
    match read_refund_kind(logs) {
        Some(true) => {
            let ghost before = event_views(out@);
            let burnt = delta.negated();
            push_event(out, ctx, &rc, None, burnt, Cause::Burn, &memo, false);
            assert(event_views(out@) =~= before + seq![
                event_view(*ctx, rc@, None, burnt.value(), Cause::Burn, opt_view(memo), false),
            ]);
        },
        Some(false) => {
            push_transfer(out, ctx, &rc, &sd, &delta, &memo);
        },
        None => {},
    }
    Ok(())
}

pub const MINT_LOG_PATTERN: &'static str = "^Mint (?P<amount>(0|[1-9][0-9]*)) nETH tokens for: (?P<account_id>[a-z0-9\\.\\-]+)$";

pub const REFUND_LOG_PATTERN: &'static str = "^Refund amount (?P<amount>(0|[1-9][0-9]*)) from (?P<from_account_id>[a-z0-9\\.\\-]+) to (?P<to_account_id>[a-z0-9\\.\\-]+)$";

/// The number that 16 little-endian bytes encode.
pub open spec fn le_value(b: Seq<u8>) -> nat
    decreases b.len(),
{
    if b.len() == 0 {
        0
    } else {
        b[0] as nat + 256 * le_value(b.drop_first())
    }
}

/// Relies on `u128::from_le_bytes`: the integer that the 16 bytes from
/// `offset` encode, least significant first.
#[verifier::external_body]
fn read_u128_le(b: &[u8], offset: usize) -> (r: u128)
    requires
        offset + 16 <= b@.len(),
    ensures
        r as nat == le_value(b@.subrange(offset as int, offset + 16)),
{
    u128::from_le_bytes(b[offset..offset + 16].try_into().unwrap())
}

/// The events of one log of an Aurora `finish_deposit`: `Mint <n> nETH
/// tokens for: <account>` mints, other lines make none.
pub open spec fn mint_log_events(ctx: EventContext, log: Seq<char>) -> Events {
    match regex_captures_of(MINT_LOG_PATTERN@, log) {
        None => Ok(Seq::empty()),
        Some(c) => if c.len() < 4 || c[1] is None || c[3] is None {
            Err(DecodeError::BadArguments)
        } else if c[1]->0 == "0"@ {
            Ok(Seq::empty())
        } else if !is_canonical_decimal(c[1]->0) {
            Err(DecodeError::BadAmount)
        } else {
            Ok(seq![event_view(ctx, c[3]->0, None, decimal_value(c[1]->0) as int, Cause::Mint, None, false)])
        },
    }
}

/// The events of one log of an Aurora `ft_resolve_transfer`: `Refund amount
/// <n> from <a> to <b>` moves the amount back from `a` to `b`.
pub open spec fn refund_log_events(ctx: EventContext, log: Seq<char>) -> Events {
    match regex_captures_of(REFUND_LOG_PATTERN@, log) {
        None => Ok(Seq::empty()),
        Some(c) => if c.len() < 5 || c[1] is None || c[3] is None || c[4] is None {
            Err(DecodeError::BadArguments)
        } else if c[1]->0 == "0"@ {
            Ok(Seq::empty())
        } else if !is_canonical_decimal(c[1]->0) {
            Err(DecodeError::BadAmount)
        } else {
            Ok(transfer_views(ctx, c[3]->0, c[4]->0, decimal_value(c[1]->0) as int, None))
        },
    }
}

pub open spec fn log_events(ctx: EventContext, log: Seq<char>, refund: bool) -> Events {
    if refund {
        refund_log_events(ctx, log)
    } else {
        mint_log_events(ctx, log)
    }
}

/// The events of a list of logs, in order; the first error wins.
pub open spec fn logs_events(ctx: EventContext, logs: Seq<String>, refund: bool) -> Events
    decreases logs.len(),
{
    if logs.len() == 0 {
        Ok(Seq::empty())
    } else {
        match logs_events(ctx, logs.drop_last(), refund) {
            Err(e) => Err(e),
            Ok(a) => match log_events(ctx, logs.last()@, refund) {
                Err(e) => Err(e),
                Ok(b) => Ok(a + b),
            },
        }
    }
}

fn push_log_events(out: &mut Vec<TokenEvent>, ctx: &EventContext, log: &String, refund: bool) -> (r: Result<
    (),
    DecodeError,
>)
    requires
        all_wf(old(out)@),
    ensures
        appended(old(out)@, final(out)@, r, log_events(*ctx, log@, refund)),
{
    proof {
        assert(event_views(out@) =~= event_views(out@) + Seq::<TokenEventView>::empty());
    }
    let pattern = if refund {
        REFUND_LOG_PATTERN
    } else {
        MINT_LOG_PATTERN
    };
    let caps = match regex_captures(pattern, log.as_str()) {
        None => {
            return Ok(());
        },
        Some(c) => c,
    };
    let ghost cv = crate::outside::text_views(caps@);
    assert(cv.len() == caps@.len());
    if caps.len() < 5 && (refund || caps.len() < 4) {
        return Err(DecodeError::BadArguments);
    }
    let amount = match &caps[1] {
        Some(a) => a,
        None => {
            return Err(DecodeError::BadArguments);
        },
    };
    assert(cv[1] == Some(amount@));
    let first = match &caps[3] {
        Some(a) => a,
        None => {
            return Err(DecodeError::BadArguments);
        },
    };
    assert(cv[3] == Some(first@));
    if refund {
        let second = match &caps[4] {
            Some(a) => a,
            None => {
                return Err(DecodeError::BadArguments);
            },
        };
        assert(cv[4] == Some(second@));
        if text_is(amount, "0") {
            return Ok(());
        }
        match Amount::parse_unsigned(amount.as_str()) {
            Some(v) => {
                push_transfer(out, ctx, first, second, &v, &None);
                Ok(())
            },
            None => Err(DecodeError::BadAmount),
        }
    } else {
        if text_is(amount, "0") {
            return Ok(());
        }
        match Amount::parse_unsigned(amount.as_str()) {
            Some(v) => {
                let ghost before = event_views(out@);
                let ghost value = v.value();
                push_event(out, ctx, first, None, v, Cause::Mint, &None, false);
                assert(event_views(out@) =~= before + seq![
                    event_view(*ctx, first@, None, value, Cause::Mint, None, false),
                ]);
                Ok(())
            },
            None => Err(DecodeError::BadAmount),
        }
    }
}

fn push_logs_events(out: &mut Vec<TokenEvent>, ctx: &EventContext, logs: &Vec<String>, refund: bool) -> (r:
    Result<(), DecodeError>)
    requires
        all_wf(old(out)@),
    ensures
        appended(old(out)@, final(out)@, r, logs_events(*ctx, logs@, refund)),
{
    let ghost start = event_views(out@);
    let n0 = out.len();
    let mut i: usize = 0;
    assert(logs@.take(0) =~= Seq::<String>::empty());
    assert(start + Seq::<TokenEventView>::empty() =~= start);
    while i < logs.len()
        invariant
            start == event_views(old(out)@),
            n0 == start.len(),
            i <= logs@.len(),
            all_wf(out@),
            logs_events(*ctx, logs@.take(i as int), refund) matches Ok(done) && event_views(out@)
                == start + done,
        decreases logs@.len() - i,
    {
        assert(logs@.take(i + 1).drop_last() =~= logs@.take(i as int));
        assert(logs@.take(i + 1).last() == logs@[i as int]);
        let ghost done = logs_events(*ctx, logs@.take(i as int), refund)->Ok_0;
        let ghost before = event_views(out@);
        match push_log_events(out, ctx, &logs[i], refund) {
            Ok(()) => {
                proof {
                    let more = log_events(*ctx, logs@[i as int]@, refund)->Ok_0;
                    assert(start + (done + more) =~= (start + done) + more);
                }
            },
            Err(e) => {
                proof {
                    lemma_logs_events_fail(*ctx, logs@, refund, i as int);
                }
                proof {
                    assert((start + done).subrange(0, n0 as int) =~= start);
                    assert(event_views(out@).len() == out@.len());
                }
                rollback(out, n0);
                return Err(e);
            },
        }
        i = i + 1;
    }
    assert(logs@.take(i as int) =~= logs@);
    Ok(())
}

proof fn lemma_logs_events_fail(ctx: EventContext, logs: Seq<String>, refund: bool, i: int)
    requires
        0 <= i < logs.len(),
        logs_events(ctx, logs.take(i + 1), refund) is Err,
    ensures
        logs_events(ctx, logs, refund) == logs_events(ctx, logs.take(i + 1), refund),
    decreases logs.len() - i,
{
    if i + 1 < logs.len() {
        assert(logs.take(i + 2).drop_last() =~= logs.take(i + 1));
        lemma_logs_events_fail(ctx, logs, refund, i + 1);
    } else {
        assert(logs.take(i + 1) =~= logs);
    }
}

/// An Aurora `withdraw`: 20 bytes of recipient address, then the amount as
/// 16 little-endian bytes; the caller's balance is burnt.
pub open spec fn withdraw_events(ctx: EventContext, sender: Seq<char>, doc: Seq<u8>) -> Events {
    if doc.len() == 36 {
        Ok(
            seq![event_view(
                ctx,
                sender,
                None,
                -(le_value(doc.subrange(20, 36)) as int),
                Cause::Burn,
                None,
                false,
            )],
        )
    } else {
        bad_args(ctx.status)
    }
}

/// The initialisation of a token contract: the owner starts from zero and
/// receives the whole supply.
pub open spec fn new_token_events(ctx: EventContext, doc: Seq<u8>) -> Events {
    let owner = text_field(doc, "owner_id"@);
    let supply = text_field(doc, "total_supply"@);
    if owner is None || supply is None {
        bad_args(ctx.status)
    } else if !is_canonical_decimal(supply->0) {
        Err(DecodeError::BadAmount)
    } else {
        Ok(
            seq![event_view(
                ctx,
                owner->0,
                None,
                decimal_value(supply->0) as int,
                Cause::Mint,
                None,
                true,
            )],
        )
    }
}

/// The amount a successful `ft_resolve_transfer` reports as used (a JSON
/// string in its base64 return value).
pub open spec fn returned_of(status: ExecutionStatus) -> Result<Option<nat>, DecodeError> {
    match status {
        ExecutionStatus::SuccessValue(v) => match base64_decoded(v@) {
            None => Err(DecodeError::BadBase64),
            Some(b) => match json_text_of(b) {
                None => Err(DecodeError::BadArguments),
                Some(t) => if is_canonical_decimal(t) {
                    Ok(Some(decimal_value(t)))
                } else {
                    Err(DecodeError::BadAmount)
                },
            },
        },
        _ => Ok(None),
    }
}

pub open spec fn method_is(call: FunctionCall, name: Seq<char>) -> bool {
    call.method_name@ == name
}

pub open spec fn is_transfer_call(call: FunctionCall) -> bool {
    method_is(call, "ft_transfer"@) || method_is(call, "ft_transfer_call"@)
}

/// `wrap.near`: deposits of NEAR mint, withdrawals burn, transfers move.
pub open spec fn wrap_near_call_events(ctx: EventContext, rc: ReceiptOutcome, call: FunctionCall, doc: Seq<u8>) -> Events {
    if method_is(call, "near_deposit"@) {
        Ok(seq![event_view(ctx, rc.predecessor_id@, None, call.deposit as int, Cause::Mint, None, false)])
    } else if is_transfer_call(call) {
        transfer_call_events(ctx, rc.predecessor_id@, doc)
    } else if method_is(call, "ft_resolve_transfer"@) {
        refund_events(ctx, doc, rc.logs@, None)
    } else if method_is(call, "near_withdraw"@) {
        amount_arg_events(ctx, rc.predecessor_id@, doc, Cause::Burn)
    } else {
        Ok(Seq::empty())
    }
}

/// `token.skyward.near`: initialisation mints the supply, transfers move, a
/// resolved transfer call refunds what the receiver did not use.
pub open spec fn skyward_call_events(ctx: EventContext, rc: ReceiptOutcome, call: FunctionCall, doc: Seq<u8>) -> Events {
    if method_is(call, "new"@) {
        new_token_events(ctx, doc)
    } else if is_transfer_call(call) {
        transfer_call_events(ctx, rc.predecessor_id@, doc)
    } else if method_is(call, "ft_resolve_transfer"@) {
        if rc.logs@.len() == 0 {
            Ok(Seq::empty())
        } else {
            match returned_of(rc.status) {
                Err(e) => Err(e),
                Ok(r) => refund_events(ctx, doc, rc.logs@, r),
            }
        }
    } else {
        Ok(Seq::empty())
    }
}

/// `aurora`: bridged deposits mint per log line, withdrawals burn, transfers
/// move and refunds move back per log line.
pub open spec fn aurora_call_events(ctx: EventContext, rc: ReceiptOutcome, call: FunctionCall, doc: Seq<u8>) -> Events {
    if method_is(call, "finish_deposit"@) {
        logs_events(ctx, rc.logs@, false)
    } else if is_transfer_call(call) {
        transfer_call_events(ctx, rc.predecessor_id@, doc)
    } else if method_is(call, "ft_resolve_transfer"@) {
        logs_events(ctx, rc.logs@, true)
    } else if method_is(call, "withdraw"@) {
        withdraw_events(ctx, rc.predecessor_id@, doc)
    } else {
        Ok(Seq::empty())
    }
}

/// The events of one function call to a legacy contract.
pub open spec fn call_events(ctx: EventContext, rc: ReceiptOutcome, call: FunctionCall) -> Events {
    match base64_decoded(call.args@) {
        None => Err(DecodeError::BadBase64),
        Some(doc) => match ctx.kind {
            crate::index::EventKind::WrapNear => wrap_near_call_events(ctx, rc, call, doc),
            crate::index::EventKind::Skyward => skyward_call_events(ctx, rc, call, doc),
            crate::index::EventKind::Aurora => aurora_call_events(ctx, rc, call, doc),
            _ => Ok(Seq::empty()),
        },
    }
}

fn read_returned(status: &ExecutionStatus) -> (r: Result<Option<Amount>, DecodeError>)
    ensures
        match returned_of(*status) {
            Ok(None) => r == Ok::<Option<Amount>, DecodeError>(None),
            Ok(Some(x)) => r matches Ok(Some(a)) && a.wf() && !a.negative && a.magnitude() == x,
            Err(e) => r == Err::<Option<Amount>, DecodeError>(e),
        },
{
    match status {
        ExecutionStatus::SuccessValue(v) => match decode_base64(v.as_str()) {
            None => Err(DecodeError::BadBase64),
            Some(b) => match json_text(b.as_slice()) {
                None => Err(DecodeError::BadArguments),
                Some(t) => match Amount::parse_unsigned(t.as_str()) {
                    Some(a) => Ok(Some(a)),
                    None => Err(DecodeError::BadAmount),
                },
            },
        },
        _ => Ok(None),
    }
}

/// An Ethereum address.
#[derive(Debug)]
pub struct Address {
    pub bytes: Vec<u8>,
}

/// The arguments of an Aurora `withdraw`: the recipient on Ethereum and the
/// amount, in their binary form.
#[derive(Debug)]
pub struct WithdrawCallArgs {
    pub recipient_address: Address,
    pub amount: u128,
}

impl WithdrawCallArgs {
    /// Reads 20 address bytes and a little-endian `u128`, and nothing more.
    pub fn try_from_slice(b: &[u8]) -> (r: Option<WithdrawCallArgs>)
        ensures
            r is Some <==> b@.len() == 36,
            r matches Some(a) ==> a.recipient_address.bytes@ == b@.subrange(0, 20) && a.amount as nat
                == le_value(b@.subrange(20, 36)),
    {
        if b.len() != 36 {
            return None;
        }
        let mut bytes: Vec<u8> = Vec::new();
        let mut i: usize = 0;
        while i < 20
            invariant
                b@.len() == 36,
                i <= 20,
                bytes@ == b@.subrange(0, i as int),
            decreases 20 - i,
        {
            bytes.push(b[i]);
            assert(bytes@ =~= b@.subrange(0, i + 1));
            i = i + 1;
        }
        Some(WithdrawCallArgs { recipient_address: Address { bytes }, amount: read_u128_le(b, 20) })
    }
}

fn push_withdraw(out: &mut Vec<TokenEvent>, ctx: &EventContext, sender: &String, doc: &[u8]) -> (r: Result<
    (),
    DecodeError,
>)
    requires
        all_wf(old(out)@),
    ensures
        appended(old(out)@, final(out)@, r, withdraw_events(*ctx, sender@, doc@)),
{
    proof {
        assert(event_views(out@) =~= event_views(out@) + Seq::<TokenEventView>::empty());
    }
    let args = match WithdrawCallArgs::try_from_slice(doc) {
        Some(a) => a,
        None => {
            return bad_args_result(ctx.status);
        },
    };
    let amount = Amount::from_u128(args.amount).negated();
    let ghost before = event_views(out@);
    let ghost value = amount.value();
    push_event(out, ctx, sender, None, amount, Cause::Burn, &None, false);
    assert(event_views(out@) =~= before + seq![event_view(*ctx, sender@, None, value, Cause::Burn, None, false)]);
    Ok(())
}

fn push_new_token(out: &mut Vec<TokenEvent>, ctx: &EventContext, doc: &[u8]) -> (r: Result<(), DecodeError>)
    requires
        all_wf(old(out)@),
    ensures
        appended(old(out)@, final(out)@, r, new_token_events(*ctx, doc@)),
{
    proof {
        assert(event_views(out@) =~= event_views(out@) + Seq::<TokenEventView>::empty());
    }
    let owner = read_text_field(doc, "owner_id");
    let supply = read_text_field(doc, "total_supply");
    match (owner, supply) {
        (Some(o), Some(t)) => match Amount::parse_unsigned(t.as_str()) {
            Some(v) => {
                let ghost before = event_views(out@);
                let ghost value = v.value();
                push_event(out, ctx, &o, None, v, Cause::Mint, &None, true);
                assert(event_views(out@) =~= before + seq![
                    event_view(*ctx, o@, None, value, Cause::Mint, None, true),
                ]);
                Ok(())
            },
            None => Err(DecodeError::BadAmount),
        },
        _ => bad_args_result(ctx.status),
    }
}

fn is_transfer_method(call: &FunctionCall) -> (r: bool)
    ensures
        r == is_transfer_call(*call),
{
    text_is(&call.method_name, "ft_transfer") || text_is(&call.method_name, "ft_transfer_call")
}

fn push_wrap_near_call(out: &mut Vec<TokenEvent>, ctx: &EventContext, rc: &ReceiptOutcome, call: &FunctionCall, doc: &[u8]) -> (r:
    Result<(), DecodeError>)
    requires
        all_wf(old(out)@),
    ensures
        appended(old(out)@, final(out)@, r, wrap_near_call_events(*ctx, *rc, *call, doc@)),
{
    proof {
        assert(event_views(out@) =~= event_views(out@) + Seq::<TokenEventView>::empty());
    }
    if text_is(&call.method_name, "near_deposit") {
        let v = Amount::from_u128(call.deposit);
        let ghost before = event_views(out@);
        push_event(out, ctx, &rc.predecessor_id, None, v, Cause::Mint, &None, false);
        assert(event_views(out@) =~= before + seq![
            event_view(*ctx, rc.predecessor_id@, None, call.deposit as int, Cause::Mint, None, false),
        ]);
        Ok(())
    } else if is_transfer_method(call) {
        push_transfer_call(out, ctx, &rc.predecessor_id, doc)
    } else if text_is(&call.method_name, "ft_resolve_transfer") {
        push_refund(out, ctx, doc, &rc.logs, &None)
    } else if text_is(&call.method_name, "near_withdraw") {
        push_amount_arg(out, ctx, &rc.predecessor_id, doc, Cause::Burn)
    } else {
        Ok(())
    }
}

fn push_skyward_call(out: &mut Vec<TokenEvent>, ctx: &EventContext, rc: &ReceiptOutcome, call: &FunctionCall, doc: &[u8]) -> (r:
    Result<(), DecodeError>)
    requires
        all_wf(old(out)@),
    ensures
        appended(old(out)@, final(out)@, r, skyward_call_events(*ctx, *rc, *call, doc@)),
{
    proof {
        assert(event_views(out@) =~= event_views(out@) + Seq::<TokenEventView>::empty());
    }
    if text_is(&call.method_name, "new") {
        push_new_token(out, ctx, doc)
    } else if is_transfer_method(call) {
        push_transfer_call(out, ctx, &rc.predecessor_id, doc)
    } else if text_is(&call.method_name, "ft_resolve_transfer") {
        if rc.logs.len() == 0 {
            return Ok(());
        }
        match read_returned(&rc.status) {
            Err(e) => Err(e),
            Ok(kept) => push_refund(out, ctx, doc, &rc.logs, &kept),
        }
    } else {
        Ok(())
    }
}

fn push_aurora_call(out: &mut Vec<TokenEvent>, ctx: &EventContext, rc: &ReceiptOutcome, call: &FunctionCall, doc: &[u8]) -> (r:
    Result<(), DecodeError>)
    requires
        all_wf(old(out)@),
    ensures
        appended(old(out)@, final(out)@, r, aurora_call_events(*ctx, *rc, *call, doc@)),
{
    proof {
        assert(event_views(out@) =~= event_views(out@) + Seq::<TokenEventView>::empty());
    }
    if text_is(&call.method_name, "finish_deposit") {
        push_logs_events(out, ctx, &rc.logs, false)
    } else if is_transfer_method(call) {
        push_transfer_call(out, ctx, &rc.predecessor_id, doc)
    } else if text_is(&call.method_name, "ft_resolve_transfer") {
        push_logs_events(out, ctx, &rc.logs, true)
    } else if text_is(&call.method_name, "withdraw") {
        push_withdraw(out, ctx, &rc.predecessor_id, doc)
    } else {
        Ok(())
    }
}

/// Appends the events of one function call to a legacy contract.
pub fn push_call_events(out: &mut Vec<TokenEvent>, ctx: &EventContext, rc: &ReceiptOutcome, call: &FunctionCall) -> (r:
    Result<(), DecodeError>)
    requires
        all_wf(old(out)@),
    ensures
        appended(old(out)@, final(out)@, r, call_events(*ctx, *rc, *call)),
{
    proof {
        assert(event_views(out@) =~= event_views(out@) + Seq::<TokenEventView>::empty());
    }
    let doc = match decode_base64(call.args.as_str()) {
        None => {
            return Err(DecodeError::BadBase64);
        },
        Some(d) => d,
    };
    match ctx.kind {
        crate::index::EventKind::WrapNear => push_wrap_near_call(out, ctx, rc, call, doc.as_slice()),
        crate::index::EventKind::Skyward => push_skyward_call(out, ctx, rc, call, doc.as_slice()),
        crate::index::EventKind::Aurora => push_aurora_call(out, ctx, rc, call, doc.as_slice()),
        _ => Ok(()),
    }
}

} // verus!
