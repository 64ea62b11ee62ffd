//! Decoded balance changes, and the helpers that make them.

use vstd::prelude::*;
use crate::amount::Amount;
use crate::event::{copy_opt_text, copy_text, Cause, Standard, StatusLabel, TokenEvent};
use crate::index::EventKind;
use crate::outside::opt_view;

verus! {

/// A balance change with its text fields as character sequences.
pub struct TokenEventView {
    pub shard_id: u64,
    pub kind: EventKind,
    pub standard: Standard,
    pub receipt_id: Seq<char>,
    pub contract_id: Seq<char>,
    pub status: StatusLabel,
    pub affected_id: Seq<char>,
    pub involved_id: Option<Seq<char>>,
    pub delta: int,
    pub cause: Cause,
    pub memo: Option<Seq<char>>,
    pub fresh_account: bool,
}

impl View for TokenEvent {
    type V = TokenEventView;

    open spec fn view(&self) -> TokenEventView {
        TokenEventView {
            shard_id: self.shard_id,
            kind: self.kind,
            standard: self.standard,
            receipt_id: self.receipt_id@,
            contract_id: self.contract_id@,
            status: self.status,
            affected_id: self.affected_id@,
            involved_id: opt_view(self.involved_id),
            delta: self.delta.value(),
            cause: self.cause,
            memo: opt_view(self.memo),
            fresh_account: self.fresh_account,
        }
    }
}

pub open spec fn event_views(s: Seq<TokenEvent>) -> Seq<TokenEventView> {
    s.map_values(|e: TokenEvent| e@)
}

pub open spec fn all_wf(s: Seq<TokenEvent>) -> bool {
    forall|i: int| 0 <= i < s.len() ==> (#[trigger] s[i]).delta.wf()
}

/// What the events of one receipt share.
pub struct EventContext {
    pub shard_id: u64,
    pub kind: EventKind,
    pub standard: Standard,
    pub receipt_id: String,
    pub contract_id: String,
    pub status: StatusLabel,
}

pub open spec fn event_view(
    ctx: EventContext,
    affected: Seq<char>,
    involved: Option<Seq<char>>,
    delta: int,
    cause: Cause,
    memo: Option<Seq<char>>,
    fresh: bool,
) -> TokenEventView {
    TokenEventView {
        shard_id: ctx.shard_id,
        kind: ctx.kind,
        standard: ctx.standard,
        receipt_id: ctx.receipt_id@,
        contract_id: ctx.contract_id@,
        status: ctx.status,
        affected_id: affected,
        involved_id: involved,
        delta,
        cause,
        memo,
        fresh_account: fresh,
    }
}

/// The two changes of a transfer: the sender's first, then the receiver's.
pub open spec fn transfer_views(
    ctx: EventContext,
    from: Seq<char>,
    to: Seq<char>,
    amount: int,
    memo: Option<Seq<char>>,
) -> Seq<TokenEventView> {
    seq![
        event_view(ctx, from, Some(to), -amount, Cause::Transfer, memo, false),
        event_view(ctx, to, Some(from), amount, Cause::Transfer, memo, false),
    ]
}

/// Appends one change.
pub fn push_event(
    out: &mut Vec<TokenEvent>,
    ctx: &EventContext,
    affected: &String,
    involved: Option<String>,
    delta: Amount,
    cause: Cause,
    memo: &Option<String>,
    fresh: bool,
)
    requires
        delta.wf(),
        all_wf(old(out)@),
    ensures
        all_wf(final(out)@),
        event_views(final(out)@) == event_views(old(out)@).push(
            event_view(*ctx, affected@, opt_view(involved), delta.value(), cause, opt_view(*memo), fresh),
        ),
{
    let e = TokenEvent {
        shard_id: ctx.shard_id,
        kind: ctx.kind,
        standard: ctx.standard,
        receipt_id: copy_text(&ctx.receipt_id),
        contract_id: copy_text(&ctx.contract_id),
        status: ctx.status,
        affected_id: copy_text(affected),
        involved_id: involved,
        delta,
        cause,
        memo: copy_opt_text(memo),
        fresh_account: fresh,
    };
    out.push(e);
    assert(event_views(final(out)@) =~= event_views(old(out)@).push(e@));
}

/// Appends the two changes of a transfer of `amount` from `from` to `to`.
pub fn push_transfer(
    out: &mut Vec<TokenEvent>,
    ctx: &EventContext,
    from: &String,
    to: &String,
    amount: &Amount,
    memo: &Option<String>,
)
    requires
        amount.wf(),
        all_wf(old(out)@),
    ensures
        all_wf(final(out)@),
        event_views(final(out)@) == event_views(old(out)@) + transfer_views(
            *ctx,
            from@,
            to@,
            amount.value(),
            opt_view(*memo),
        ),
{
    push_event(out, ctx, from, Some(copy_text(to)), amount.negated(), Cause::Transfer, memo, false);
    push_event(out, ctx, to, Some(copy_text(from)), amount.duplicate(), Cause::Transfer, memo, false);
    assert(event_views(final(out)@) =~= event_views(old(out)@) + transfer_views(
        *ctx,
        from@,
        to@,
        amount.value(),
        opt_view(*memo),
    ));
}

/// An escaped copy of the memo, when there is one.
pub fn escape_memo(memo: &Option<String>) -> (r: Option<String>)
    ensures
        opt_view(r) == match *memo {
            Some(m) => Some(crate::outside::escaped(m@)),
            None => None,
        },
{
    match memo {
        Some(m) => Some(crate::outside::escape_text(m.as_str())),
        None => None,
    }
}

/// Drops what was appended after the first `len` events.
pub fn rollback(out: &mut Vec<TokenEvent>, len: usize)
    requires
        len <= old(out)@.len(),
    ensures
        final(out)@ == old(out)@.subrange(0, len as int),
        event_views(final(out)@) == event_views(old(out)@).subrange(0, len as int),
{
    out.truncate(len);
    assert(event_views(out@) =~= event_views(old(out)@).subrange(0, len as int));
}

} // verus!
