//! Per-receipt, per-shard and per-block collection of decoded events.

use vstd::prelude::*;
use crate::block::{Action, ReceiptOutcome, Shard};
use crate::contracts::ContractSet;
use crate::event::{copy_text, Standard, TokenEvent};
use crate::index::EventKind;
use crate::legacy::{appended, call_events, push_call_events, Events};
use crate::nep::{
    event_payloads,
    ft_events_of,
    log_payloads,
    push_ft_events,
    read_standard_event,
    standard_event_of,
    str_views,
    text_is,
    utf8,
    DecodeError,
    StandardEvent,
    StandardEventView,
};
use crate::token::{all_wf, event_views, rollback, EventContext, TokenEventView};

verus! {

/// The legacy adapter for a contract, by the account that executes it.
pub open spec fn legacy_kind_of(executor: Seq<char>) -> Option<EventKind> {
    if executor == "wrap.near"@ {
        Some(EventKind::WrapNear)
    } else if executor == "token.skyward.near"@ {
        Some(EventKind::Skyward)
    } else if executor == "aurora"@ {
        Some(EventKind::Aurora)
    } else {
        None
    }
}

pub fn legacy_adapter(executor: &String) -> (r: Option<EventKind>)
    ensures
        r == legacy_kind_of(executor@),
{
    if text_is(executor, "wrap.near") {
        Some(EventKind::WrapNear)
    } else if text_is(executor, "token.skyward.near") {
        Some(EventKind::Skyward)
    } else if text_is(executor, "aurora") {
        Some(EventKind::Aurora)
    } else {
        None
    }
}

pub open spec fn context_of(shard_id: u64, kind: EventKind, standard: Standard, rc: ReceiptOutcome, contract: String) -> EventContext {
    EventContext {
        shard_id,
        kind,
        standard,
        receipt_id: rc.receipt_id,
        contract_id: contract,
        status: rc.status.spec_label(),
    }
}

fn make_context(shard_id: u64, kind: EventKind, standard: Standard, rc: &ReceiptOutcome, contract: &String) -> (r:
    EventContext)
    ensures
        r == context_of(shard_id, kind, standard, *rc, *contract),
{
    EventContext {
        shard_id,
        kind,
        standard,
        receipt_id: copy_text(&rc.receipt_id),
        contract_id: copy_text(contract),
        status: rc.status.label(),
    }
}

pub open spec fn then(a: Events, b: Events) -> Events {
    match a {
        Err(e) => Err(e),
        Ok(x) => match b {
            Err(e) => Err(e),
            Ok(y) => Ok(x + y),
        },
    }
}

pub open spec fn action_events(ctx: EventContext, rc: ReceiptOutcome, a: Action) -> Events {
    match a {
        Action::FunctionCall(c) => call_events(ctx, rc, c),
        Action::Other => Ok(Seq::empty()),
    }
}

pub open spec fn actions_events(ctx: EventContext, rc: ReceiptOutcome, actions: Seq<Action>) -> Events
    decreases actions.len(),
{
    if actions.len() == 0 {
        Ok(Seq::empty())
    } else {
        then(actions_events(ctx, rc, actions.drop_last()), action_events(ctx, rc, actions.last()))
    }
}

pub open spec fn payload_events(ctx: EventContext, payload: Seq<char>) -> Events {
    match standard_event_of(utf8(payload)) {
        Some(StandardEventView::Ft(c, items)) => match ft_events_of(ctx, c, items) {
            Some(v) => Ok(v),
            None => Err(DecodeError::BadAmount),
        },
        _ => Ok(Seq::empty()),
    }
}

pub open spec fn payloads_events(ctx: EventContext, payloads: Seq<Seq<char>>) -> Events
    decreases payloads.len(),
{
    if payloads.len() == 0 {
        Ok(Seq::empty())
    } else {
        then(payloads_events(ctx, payloads.drop_last()), payload_events(ctx, payloads.last()))
    }
}

/// The fungible-token events of one receipt: those of its standard event
/// lines, or, when it has none, those its legacy adapter infers. A contract
/// already known to be inconsistent yields none.
pub open spec fn receipt_events(shard_id: u64, rc: ReceiptOutcome, known: Set<Seq<char>>) -> Events {
    let payloads = log_payloads(rc.logs@);
    if payloads.len() > 0 {
        if known.contains(rc.receiver_id@) {
            Ok(Seq::empty())
        } else {
            payloads_events(context_of(shard_id, EventKind::Nep141, Standard::FtNep141, rc, rc.receiver_id), payloads)
        }
    } else {
        match legacy_kind_of(rc.executor_id@) {
            Some(k) => if known.contains(rc.executor_id@) {
                Ok(Seq::empty())
            } else {
                actions_events(context_of(shard_id, k, Standard::FtLegacy, rc, rc.executor_id), rc, rc.actions@)
            },
            None => Ok(Seq::empty()),
        }
    }
}

pub open spec fn receipts_events(shard_id: u64, rcs: Seq<ReceiptOutcome>, known: Set<Seq<char>>) -> Events
    decreases rcs.len(),
{
    if rcs.len() == 0 {
        Ok(Seq::empty())
    } else {
        then(receipts_events(shard_id, rcs.drop_last(), known), receipt_events(shard_id, rcs.last(), known))
    }
}

/// The fungible-token events of a block: shard by shard, receipt by receipt.
pub open spec fn block_events(shards: Seq<Shard>, known: Set<Seq<char>>) -> Events
    decreases shards.len(),
{
    if shards.len() == 0 {
        Ok(Seq::empty())
    } else {
        then(
            block_events(shards.drop_last(), known),
            receipts_events(shards.last().shard_id, shards.last().outcomes@, known),
        )
    }
}

proof fn lemma_then_ok(a: Seq<TokenEventView>, done: Seq<TokenEventView>, more: Seq<TokenEventView>)
    ensures
        a + (done + more) == (a + done) + more,
{
    assert(a + (done + more) =~= (a + done) + more);
}

proof fn lemma_empty_tail(a: Seq<TokenEventView>)
    ensures
        a + Seq::<TokenEventView>::empty() == a,
{
    assert(a + Seq::<TokenEventView>::empty() =~= a);
}

fn push_actions_events(out: &mut Vec<TokenEvent>, ctx: &EventContext, rc: &ReceiptOutcome) -> (r: Result<
    (),
    DecodeError,
>)
    requires
        all_wf(old(out)@),
    ensures
        appended(old(out)@, final(out)@, r, actions_events(*ctx, *rc, rc.actions@)),
{
    let ghost start = event_views(out@);
    let n0 = out.len();
    let ghost acts = rc.actions@;
    let mut i: usize = 0;
    assert(acts.take(0) =~= Seq::<Action>::empty());
    proof {
        lemma_empty_tail(start);
    }
    while i < rc.actions.len()
        invariant
            start == event_views(old(out)@),
            n0 == start.len(),
            acts == rc.actions@,
            i <= acts.len(),
            all_wf(out@),
            actions_events(*ctx, *rc, acts.take(i as int)) matches Ok(done) && event_views(out@)
                == start + done,
        decreases acts.len() - i,
    {
        assert(acts.take(i + 1).drop_last() =~= acts.take(i as int));
        assert(acts.take(i + 1).last() == acts[i as int]);
        let ghost done = actions_events(*ctx, *rc, acts.take(i as int))->Ok_0;
        let res = match &rc.actions[i] {
            Action::FunctionCall(c) => push_call_events(out, ctx, rc, c),
            Action::Other => {
                proof {
                    lemma_empty_tail(event_views(out@));
                }
                Ok(())
            },
        };
        match res {
            Ok(()) => {
                proof {
                    lemma_then_ok(start, done, action_events(*ctx, *rc, acts[i as int])->Ok_0);
                }
            },
            Err(e) => {
                proof {
                    lemma_actions_fail(*ctx, *rc, acts, i as int);
                }
                proof {
                    assert((start + done).subrange(0, n0 as int) =~= start);
                    assert(event_views(out@).len() == out@.len());
                }
                rollback(out, n0);
                return Err(e);
            },
        }
        i = i + 1;
    }
    assert(acts.take(i as int) =~= acts);
    Ok(())
}

proof fn lemma_actions_fail(ctx: EventContext, rc: ReceiptOutcome, acts: Seq<Action>, i: int)
    requires
        0 <= i < acts.len(),
        actions_events(ctx, rc, acts.take(i + 1)) is Err,
    ensures
        actions_events(ctx, rc, acts) == actions_events(ctx, rc, acts.take(i + 1)),
    decreases acts.len() - i,
{
    if i + 1 < acts.len() {
        assert(acts.take(i + 2).drop_last() =~= acts.take(i + 1));
        lemma_actions_fail(ctx, rc, acts, i + 1);
    } else {
        assert(acts.take(i + 1) =~= acts);
    }
}

fn push_payloads_events(out: &mut Vec<TokenEvent>, ctx: &EventContext, payloads: &Vec<&str>) -> (r: Result<
    (),
    DecodeError,
>)
    requires
        all_wf(old(out)@),
    ensures
        appended(old(out)@, final(out)@, r, payloads_events(*ctx, str_views(payloads@))),
{
    let ghost start = event_views(out@);
    let n0 = out.len();
    let ghost ps = str_views(payloads@);
    let mut i: usize = 0;
    assert(ps.take(0) =~= Seq::<Seq<char>>::empty());
    proof {
        lemma_empty_tail(start);
    }
    while i < payloads.len()
        invariant
            start == event_views(old(out)@),
            n0 == start.len(),
            ps == str_views(payloads@),
            i <= ps.len(),
            all_wf(out@),
            payloads_events(*ctx, ps.take(i as int)) matches Ok(done) && event_views(out@) == start
                + done,
        decreases ps.len() - i,
    {
        assert(ps.take(i + 1).drop_last() =~= ps.take(i as int));
        assert(ps.take(i + 1).last() == payloads@[i as int]@);
        let ghost done = payloads_events(*ctx, ps.take(i as int))->Ok_0;
        let p: &str = payloads[i];
        let res = match read_standard_event(p.as_bytes()) {
            Some(StandardEvent::Ft(c, items)) => match push_ft_events(out, ctx, c, &items) {
                Ok(()) => Ok(()),
                Err(_) => Err(DecodeError::BadAmount),
            },
            _ => {
                proof {
                    lemma_empty_tail(event_views(out@));
                }
                Ok(())
            },
        };
        match res {
            Ok(()) => {
                proof {
                    lemma_then_ok(start, done, payload_events(*ctx, ps[i as int])->Ok_0);
                }
            },
            Err(e) => {
                proof {
                    lemma_payloads_fail(*ctx, ps, i as int);
                }
                proof {
                    assert((start + done).subrange(0, n0 as int) =~= start);
                    assert(event_views(out@).len() == out@.len());
                }
                rollback(out, n0);
                return Err(e);
            },
        }
        i = i + 1;
    }
    assert(ps.take(i as int) =~= ps);
    Ok(())
}

proof fn lemma_payloads_fail(ctx: EventContext, ps: Seq<Seq<char>>, i: int)
    requires
        0 <= i < ps.len(),
        payloads_events(ctx, ps.take(i + 1)) is Err,
    ensures
        payloads_events(ctx, ps) == payloads_events(ctx, ps.take(i + 1)),
    decreases ps.len() - i,
{
    if i + 1 < ps.len() {
        assert(ps.take(i + 2).drop_last() =~= ps.take(i + 1));
        lemma_payloads_fail(ctx, ps, i + 1);
    } else {
        assert(ps.take(i + 1) =~= ps);
    }
}

/// Appends the fungible-token events of one receipt.
pub fn push_receipt_events(out: &mut Vec<TokenEvent>, shard_id: u64, rc: &ReceiptOutcome, known: &ContractSet) -> (r:
    Result<(), DecodeError>)
    requires
        all_wf(old(out)@),
    ensures
        appended(old(out)@, final(out)@, r, receipt_events(shard_id, *rc, known@)),
{
    proof {
        lemma_empty_tail(event_views(out@));
    }
    let payloads = event_payloads(&rc.logs);
    if payloads.len() > 0 {
        if known.contains(&rc.receiver_id) {
            return Ok(());
        }
        let ctx = make_context(shard_id, EventKind::Nep141, Standard::FtNep141, rc, &rc.receiver_id);
        push_payloads_events(out, &ctx, &payloads)
    } else {
        match legacy_adapter(&rc.executor_id) {
            Some(k) => {
                if known.contains(&rc.executor_id) {
                    return Ok(());
                }
                let ctx = make_context(shard_id, k, Standard::FtLegacy, rc, &rc.executor_id);
                push_actions_events(out, &ctx, rc)
            },
            None => Ok(()),
        }
    }
}

/// Appends the fungible-token events of a shard's receipts, in order.
pub fn push_shard_events(out: &mut Vec<TokenEvent>, shard: &Shard, known: &ContractSet) -> (r: Result<
    (),
    DecodeError,
>)
    requires
        all_wf(old(out)@),
    ensures
        appended(old(out)@, final(out)@, r, receipts_events(shard.shard_id, shard.outcomes@, known@)),
{
    let ghost start = event_views(out@);
    let n0 = out.len();
    let ghost rcs = shard.outcomes@;
    let mut i: usize = 0;
    assert(rcs.take(0) =~= Seq::<ReceiptOutcome>::empty());
    proof {
        lemma_empty_tail(start);
    }
    while i < shard.outcomes.len()
        invariant
            start == event_views(old(out)@),
            n0 == start.len(),
            rcs == shard.outcomes@,
            i <= rcs.len(),
            all_wf(out@),
            receipts_events(shard.shard_id, rcs.take(i as int), known@) matches Ok(done)
                && event_views(out@) == start + done,
        decreases rcs.len() - i,
    {
        assert(rcs.take(i + 1).drop_last() =~= rcs.take(i as int));
        assert(rcs.take(i + 1).last() == rcs[i as int]);
        let ghost done = receipts_events(shard.shard_id, rcs.take(i as int), known@)->Ok_0;
        match push_receipt_events(out, shard.shard_id, &shard.outcomes[i], known) {
            Ok(()) => {
                proof {
                    lemma_then_ok(start, done, receipt_events(shard.shard_id, rcs[i as int], known@)->Ok_0);
                }
            },
            Err(e) => {
                proof {
                    lemma_receipts_fail(shard.shard_id, rcs, known@, i as int);
                }
                proof {
                    assert((start + done).subrange(0, n0 as int) =~= start);
                    assert(event_views(out@).len() == out@.len());
                }
                rollback(out, n0);
                return Err(e);
            },
        }
        i = i + 1;
    }
    assert(rcs.take(i as int) =~= rcs);
    Ok(())
}

proof fn lemma_receipts_fail(shard_id: u64, rcs: Seq<ReceiptOutcome>, known: Set<Seq<char>>, i: int)
    requires
        0 <= i < rcs.len(),
        receipts_events(shard_id, rcs.take(i + 1), known) is Err,
    ensures
        receipts_events(shard_id, rcs, known) == receipts_events(shard_id, rcs.take(i + 1), known),
    decreases rcs.len() - i,
{
    if i + 1 < rcs.len() {
        assert(rcs.take(i + 2).drop_last() =~= rcs.take(i + 1));
        lemma_receipts_fail(shard_id, rcs, known, i + 1);
    } else {
        assert(rcs.take(i + 1) =~= rcs);
    }
}

/// Decodes the fungible-token events of a block, shard by shard.
pub fn collect_block_events(shards: &Vec<Shard>, known: &ContractSet) -> (r: Result<Vec<TokenEvent>, DecodeError>)
    ensures
        match block_events(shards@, known@) {
            Ok(v) => r matches Ok(es) && event_views(es@) == v && all_wf(es@),
            Err(e) => r == Err::<Vec<TokenEvent>, DecodeError>(e),
        },
{
    let mut out: Vec<TokenEvent> = Vec::new();
    let mut i: usize = 0;
    assert(shards@.take(0) =~= Seq::<Shard>::empty());
    assert(event_views(out@) =~= Seq::<TokenEventView>::empty());
    while i < shards.len()
        invariant
            i <= shards@.len(),
            all_wf(out@),
            block_events(shards@.take(i as int), known@) matches Ok(done) && event_views(out@) == done,
        decreases shards@.len() - i,
    {
        assert(shards@.take(i + 1).drop_last() =~= shards@.take(i as int));
        assert(shards@.take(i + 1).last() == shards@[i as int]);
        match push_shard_events(&mut out, &shards[i], known) {
            Ok(()) => {},
            Err(e) => {
                proof {
                    lemma_block_fail(shards@, known@, i as int);
                }
                return Err(e);
            },
        }
        i = i + 1;
    }
    assert(shards@.take(i as int) =~= shards@);
    Ok(out)
}

proof fn lemma_block_fail(shards: Seq<Shard>, known: Set<Seq<char>>, i: int)
    requires
        0 <= i < shards.len(),
        block_events(shards.take(i + 1), known) is Err,
    ensures
        block_events(shards, known) == block_events(shards.take(i + 1), known),
    decreases shards.len() - i,
{
    if i + 1 < shards.len() {
        assert(shards.take(i + 2).drop_last() =~= shards.take(i + 1));
        lemma_block_fail(shards, known, i + 1);
    } else {
        assert(shards.take(i + 1) =~= shards);
    }
}

} // verus!
