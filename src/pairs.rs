//! Transfers stay in pairs: every decoder emits a transfer as two adjacent
//! changes of one receipt (sender, then receiver), and building, the zero
//! filter, the consistency filter and numbering keep such pairs together.

use vstd::prelude::*;
use crate::balances::BalanceKey;
use crate::builder::build_all;
use crate::event::{Cause, CoinEventRow, TokenEvent};
use crate::outside::opt_view;
use crate::reconcile::{indexed, nonzero_rows, rows_outside, with_index};
use crate::token::event_views;
use crate::block::{Action, FunctionCall, ReceiptOutcome, Shard};
use crate::collect::{
    action_events,
    actions_events,
    block_events,
    payload_events,
    payloads_events,
    receipt_events,
    receipts_events,
    then,
};
use crate::legacy::{
    amount_arg_events,
    aurora_call_events,
    bad_args,
    call_events,
    log_events,
    logs_events,
    mint_log_events,
    new_token_events,
    refund_events,
    refund_log_events,
    skyward_call_events,
    transfer_call_events,
    withdraw_events,
    wrap_near_call_events,
    Events,
};
use crate::nep::{ft_events_of, ft_item_events, standard_event_of, utf8, FtItemView, StandardEventView};
use crate::token::{transfer_views, EventContext, TokenEventView};

verus! {

pub open spec fn partners(a: TokenEventView, b: TokenEventView) -> bool {
    &&& a.cause == Cause::Transfer
    &&& b.cause == Cause::Transfer
    &&& a.receipt_id == b.receipt_id
    &&& a.contract_id == b.contract_id
    &&& a.delta == -b.delta
    &&& a.involved_id == Some(b.affected_id)
    &&& b.involved_id == Some(a.affected_id)
}

/// Every transfer change is the first of two adjacent partners, or the
/// second.
pub open spec fn paired(s: Seq<TokenEventView>) -> bool
    decreases s.len(),
{
    if s.len() == 0 {
        true
    } else if s[0].cause == Cause::Transfer {
        s.len() >= 2 && partners(s[0], s[1]) && paired(s.skip(2))
    } else {
        paired(s.skip(1))
    }
}

pub proof fn lemma_paired_concat(a: Seq<TokenEventView>, b: Seq<TokenEventView>)
    requires
        paired(a),
        paired(b),
    ensures
        paired(a + b),
    decreases a.len(),
{
    if a.len() == 0 {
        assert(a + b =~= b);
    } else if a[0].cause == Cause::Transfer {
        lemma_paired_concat(a.skip(2), b);
        assert((a + b).skip(2) =~= a.skip(2) + b);
        assert((a + b)[0] == a[0] && (a + b)[1] == a[1]);
    } else {
        lemma_paired_concat(a.skip(1), b);
        assert((a + b).skip(1) =~= a.skip(1) + b);
        assert((a + b)[0] == a[0]);
    }
}

pub proof fn lemma_transfer_paired(ctx: EventContext, from: Seq<char>, to: Seq<char>, amount: int, memo: Option<Seq<char>>)
    ensures
        paired(transfer_views(ctx, from, to, amount, memo)),
{
    let v = transfer_views(ctx, from, to, amount, memo);
    assert(v.skip(2) =~= Seq::<TokenEventView>::empty());
    assert(paired(v.skip(2)));
}

pub proof fn lemma_single_paired(x: TokenEventView)
    requires
        x.cause != Cause::Transfer,
    ensures
        paired(seq![x]),
{
    assert(seq![x].skip(1) =~= Seq::<TokenEventView>::empty());
    assert(paired(seq![x].skip(1)));
}

pub proof fn lemma_empty_paired()
    ensures
        paired(Seq::<TokenEventView>::empty()),
{
}

pub open spec fn ok_paired(e: Events) -> bool {
    match e {
        Ok(v) => paired(v),
        Err(_) => true,
    }
}

pub open spec fn some_paired(e: Option<Seq<TokenEventView>>) -> bool {
    match e {
        Some(v) => paired(v),
        None => true,
    }
}

proof fn lemma_then(a: Events, b: Events)
    requires
        ok_paired(a),
        ok_paired(b),
    ensures
        ok_paired(then(a, b)),
{
    if a is Ok && b is Ok {
        lemma_paired_concat(a->Ok_0, b->Ok_0);
    }
}

proof fn lemma_ft_item(ctx: EventContext, cause: Cause, it: FtItemView)
    ensures
        some_paired(ft_item_events(ctx, cause, it)),
{
    match ft_item_events(ctx, cause, it) {
        Some(v) => {
            if v.len() == 0 {
                lemma_empty_paired();
            } else if cause == Cause::Transfer {
                lemma_transfer_paired(ctx, it.owner_id, it.new_owner_id->0, v[1].delta, v[0].memo);
            } else {
                lemma_single_paired(v[0]);
                assert(v =~= seq![v[0]]);
            }
        },
        None => {},
    }
}

proof fn lemma_ft_events(ctx: EventContext, cause: Cause, items: Seq<FtItemView>)
    ensures
        some_paired(ft_events_of(ctx, cause, items)),
    decreases items.len(),
{
    if items.len() > 0 {
        lemma_ft_events(ctx, cause, items.drop_last());
        lemma_ft_item(ctx, cause, items.last());
        match (ft_events_of(ctx, cause, items.drop_last()), ft_item_events(ctx, cause, items.last())) {
            (Some(a), Some(b)) => lemma_paired_concat(a, b),
            _ => {},
        }
    }
}

proof fn lemma_payload(ctx: EventContext, payload: Seq<char>)
    ensures
        ok_paired(payload_events(ctx, payload)),
{
    match standard_event_of(utf8(payload)) {
        Some(StandardEventView::Ft(c, items)) => lemma_ft_events(ctx, c, items),
        _ => lemma_empty_paired(),
    }
}

proof fn lemma_payloads(ctx: EventContext, ps: Seq<Seq<char>>)
    ensures
        ok_paired(payloads_events(ctx, ps)),
    decreases ps.len(),
{
    if ps.len() > 0 {
        lemma_payloads(ctx, ps.drop_last());
        lemma_payload(ctx, ps.last());
        lemma_then(payloads_events(ctx, ps.drop_last()), payload_events(ctx, ps.last()));
    }
}

proof fn lemma_bad_args(ctx: EventContext)
    ensures
        ok_paired(bad_args(ctx.status)),
{
    lemma_empty_paired();
}

proof fn lemma_one_event(v: Seq<TokenEventView>)
    requires
        v.len() == 1,
        v[0].cause != Cause::Transfer,
    ensures
        paired(v),
{
    lemma_single_paired(v[0]);
    assert(v =~= seq![v[0]]);
}

proof fn lemma_pair_events(v: Seq<TokenEventView>)
    requires
        v.len() == 2,
        partners(v[0], v[1]),
    ensures
        paired(v),
{
    assert(v.skip(2) =~= Seq::<TokenEventView>::empty());
    assert(paired(v.skip(2)));
}

proof fn lemma_call(ctx: EventContext, rc: ReceiptOutcome, call: FunctionCall)
    ensures
        ok_paired(call_events(ctx, rc, call)),
{
    match call_events(ctx, rc, call) {
        Ok(v) => lemma_logs_call(ctx, rc, call, v),
        Err(_) => {},
    }
}

proof fn lemma_logs_call(ctx: EventContext, rc: ReceiptOutcome, call: FunctionCall, v: Seq<TokenEventView>)
    requires
        call_events(ctx, rc, call) == Ok::<Seq<TokenEventView>, crate::nep::DecodeError>(v),
    ensures
        paired(v),
{
    lemma_empty_paired();
    let doc = crate::outside::base64_decoded(call.args@)->0;
    lemma_logs(ctx, rc.logs@, false);
    lemma_logs(ctx, rc.logs@, true);
    lemma_refund(ctx, doc, rc.logs@, None);
    lemma_transfer_call(ctx, rc.predecessor_id@, doc);
    lemma_amount_arg(ctx, rc.predecessor_id@, doc, Cause::Burn);
    lemma_withdraw(ctx, rc.predecessor_id@, doc);
    lemma_new_token(ctx, doc);
    match crate::legacy::returned_of(rc.status) {
        Ok(r) => lemma_refund(ctx, doc, rc.logs@, r),
        Err(_) => {},
    }
    let deposit = seq![crate::token::event_view(ctx, rc.predecessor_id@, None, call.deposit as int, Cause::Mint, None, false)];
    lemma_one_event(deposit);
}

proof fn lemma_transfer_call(ctx: EventContext, sender: Seq<char>, doc: Seq<u8>)
    ensures
        ok_paired(transfer_call_events(ctx, sender, doc)),
{
    lemma_bad_args(ctx);
    match transfer_call_events(ctx, sender, doc) {
        Ok(v) => if v.len() == 2 {
            lemma_pair_events(v);
        },
        Err(_) => {},
    }
}

proof fn lemma_amount_arg(ctx: EventContext, affected: Seq<char>, doc: Seq<u8>, cause: Cause)
    requires
        cause != Cause::Transfer,
    ensures
        ok_paired(amount_arg_events(ctx, affected, doc, cause)),
{
    lemma_bad_args(ctx);
    match amount_arg_events(ctx, affected, doc, cause) {
        Ok(v) => if v.len() == 1 {
            lemma_one_event(v);
        },
        Err(_) => {},
    }
}

proof fn lemma_refund(ctx: EventContext, doc: Seq<u8>, logs: Seq<String>, returned: Option<nat>)
    ensures
        ok_paired(refund_events(ctx, doc, logs, returned)),
{
    lemma_bad_args(ctx);
    lemma_empty_paired();
    match refund_events(ctx, doc, logs, returned) {
        Ok(v) => if v.len() == 1 {
            lemma_one_event(v);
        } else if v.len() == 2 {
            lemma_pair_events(v);
        },
        Err(_) => {},
    }
}

proof fn lemma_withdraw(ctx: EventContext, sender: Seq<char>, doc: Seq<u8>)
    ensures
        ok_paired(withdraw_events(ctx, sender, doc)),
{
    lemma_bad_args(ctx);
    match withdraw_events(ctx, sender, doc) {
        Ok(v) => if v.len() == 1 {
            lemma_one_event(v);
        },
        Err(_) => {},
    }
}

proof fn lemma_new_token(ctx: EventContext, doc: Seq<u8>)
    ensures
        ok_paired(new_token_events(ctx, doc)),
{
    lemma_bad_args(ctx);
    match new_token_events(ctx, doc) {
        Ok(v) => if v.len() == 1 {
            lemma_one_event(v);
        },
        Err(_) => {},
    }
}

proof fn lemma_log(ctx: EventContext, log: Seq<char>, refund: bool)
    ensures
        ok_paired(log_events(ctx, log, refund)),
{
    lemma_empty_paired();
    match log_events(ctx, log, refund) {
        Ok(v) => if v.len() == 1 {
            lemma_one_event(v);
        } else if v.len() == 2 {
            lemma_pair_events(v);
        },
        Err(_) => {},
    }
}

proof fn lemma_logs(ctx: EventContext, logs: Seq<String>, refund: bool)
    ensures
        ok_paired(logs_events(ctx, logs, refund)),
    decreases logs.len(),
{
    lemma_empty_paired();
    if logs.len() > 0 {
        lemma_logs(ctx, logs.drop_last(), refund);
        lemma_log(ctx, logs.last()@, refund);
        match logs_events(ctx, logs.drop_last(), refund) {
            Ok(a) => match log_events(ctx, logs.last()@, refund) {
                Ok(b) => lemma_paired_concat(a, b),
                Err(_) => {},
            },
            Err(_) => {},
        }
    }
}

proof fn lemma_actions(ctx: EventContext, rc: ReceiptOutcome, actions: Seq<Action>)
    ensures
        ok_paired(actions_events(ctx, rc, actions)),
    decreases actions.len(),
{
    lemma_empty_paired();
    if actions.len() > 0 {
        lemma_actions(ctx, rc, actions.drop_last());
        match actions.last() {
            Action::FunctionCall(c) => lemma_call(ctx, rc, c),
            Action::Other => {},
        }
        lemma_then(actions_events(ctx, rc, actions.drop_last()), action_events(ctx, rc, actions.last()));
    }
}

proof fn lemma_receipt(shard_id: u64, rc: ReceiptOutcome, known: Set<Seq<char>>)
    ensures
        ok_paired(receipt_events(shard_id, rc, known)),
{
    lemma_empty_paired();
    let payloads = crate::nep::log_payloads(rc.logs@);
    lemma_payloads(
        crate::collect::context_of(shard_id, crate::index::EventKind::Nep141, crate::event::Standard::FtNep141, rc, rc.receiver_id),
        payloads,
    );
    match crate::collect::legacy_kind_of(rc.executor_id@) {
        Some(k) => lemma_actions(
            crate::collect::context_of(shard_id, k, crate::event::Standard::FtLegacy, rc, rc.executor_id),
            rc,
            rc.actions@,
        ),
        None => {},
    }
}

proof fn lemma_receipts(shard_id: u64, rcs: Seq<ReceiptOutcome>, known: Set<Seq<char>>)
    ensures
        ok_paired(receipts_events(shard_id, rcs, known)),
    decreases rcs.len(),
{
    lemma_empty_paired();
    if rcs.len() > 0 {
        lemma_receipts(shard_id, rcs.drop_last(), known);
        lemma_receipt(shard_id, rcs.last(), known);
        lemma_then(receipts_events(shard_id, rcs.drop_last(), known), receipt_events(shard_id, rcs.last(), known));
    }
}

/// Every transfer a block's receipts make comes out as two adjacent
/// changes of one receipt and one contract: the sender's, then the
/// receiver's, by amounts of equal size and opposite sign.
pub proof fn law_block_events_paired(shards: Seq<Shard>, known: Set<Seq<char>>)
    ensures
        ok_paired(block_events(shards, known)),
    decreases shards.len(),
{
    lemma_empty_paired();
    if shards.len() > 0 {
        law_block_events_paired(shards.drop_last(), known);
        lemma_receipts(shards.last().shard_id, shards.last().outcomes@, known);
        lemma_then(
            block_events(shards.drop_last(), known),
            receipts_events(shards.last().shard_id, shards.last().outcomes@, known),
        );
    }
}

pub open spec fn row_partners(a: CoinEventRow, b: CoinEventRow) -> bool {
    &&& a.cause == Cause::Transfer
    &&& b.cause == Cause::Transfer
    &&& a.receipt_id@ == b.receipt_id@
    &&& a.contract_account_id@ == b.contract_account_id@
    &&& a.delta_amount.value() == -b.delta_amount.value()
    &&& opt_view(a.involved_account_id) == Some(b.affected_account_id@)
    &&& opt_view(b.involved_account_id) == Some(a.affected_account_id@)
}

/// Every transfer row is the first of two adjacent partner rows, or the
/// second.
pub open spec fn rows_paired(s: Seq<CoinEventRow>) -> bool
    decreases s.len(),
{
    if s.len() == 0 {
        true
    } else if s[0].cause == Cause::Transfer {
        s.len() >= 2 && row_partners(s[0], s[1]) && rows_paired(s.skip(2))
    } else {
        rows_paired(s.skip(1))
    }
}

pub open spec fn row_matches(v: TokenEventView, r: CoinEventRow) -> bool {
    &&& v.cause == r.cause
    &&& v.receipt_id == r.receipt_id@
    &&& v.contract_id == r.contract_account_id@
    &&& v.delta == r.delta_amount.value()
    &&& v.affected_id == r.affected_account_id@
    &&& v.involved_id == opt_view(r.involved_account_id)
}

pub open spec fn same_pair_fields(a: CoinEventRow, b: CoinEventRow) -> bool {
    &&& a.cause == b.cause
    &&& a.receipt_id@ == b.receipt_id@
    &&& a.contract_account_id@ == b.contract_account_id@
    &&& a.delta_amount.value() == b.delta_amount.value()
    &&& a.affected_account_id@ == b.affected_account_id@
    &&& opt_view(a.involved_account_id) == opt_view(b.involved_account_id)
}

proof fn lemma_rows_from_events(v: Seq<TokenEventView>, rows: Seq<CoinEventRow>)
    requires
        v.len() == rows.len(),
        forall|i: int| 0 <= i < v.len() ==> row_matches(#[trigger] v[i], rows[i]),
        paired(v),
    ensures
        rows_paired(rows),
    decreases v.len(),
{
    if v.len() > 0 {
        if v[0].cause == Cause::Transfer {
            lemma_rows_from_events(v.skip(2), rows.skip(2));
            assert(row_matches(v[0], rows[0]) && row_matches(v[1], rows[1]));
        } else {
            lemma_rows_from_events(v.skip(1), rows.skip(1));
            assert(row_matches(v[0], rows[0]));
        }
    }
}

proof fn lemma_rows_same_fields(s: Seq<CoinEventRow>, t: Seq<CoinEventRow>)
    requires
        s.len() == t.len(),
        forall|i: int| 0 <= i < s.len() ==> same_pair_fields(#[trigger] s[i], t[i]),
        rows_paired(s),
    ensures
        rows_paired(t),
    decreases s.len(),
{
    if s.len() > 0 {
        if s[0].cause == Cause::Transfer {
            lemma_rows_same_fields(s.skip(2), t.skip(2));
            assert(same_pair_fields(s[0], t[0]) && same_pair_fields(s[1], t[1]));
        } else {
            lemma_rows_same_fields(s.skip(1), t.skip(1));
            assert(same_pair_fields(s[0], t[0]));
        }
    }
}

proof fn lemma_rows_paired_concat(a: Seq<CoinEventRow>, b: Seq<CoinEventRow>)
    requires
        rows_paired(a),
        rows_paired(b),
    ensures
        rows_paired(a + b),
    decreases a.len(),
{
    if a.len() == 0 {
        assert(a + b =~= b);
    } else if a[0].cause == Cause::Transfer {
        lemma_rows_paired_concat(a.skip(2), b);
        assert((a + b).skip(2) =~= a.skip(2) + b);
        assert((a + b)[0] == a[0] && (a + b)[1] == a[1]);
    } else {
        lemma_rows_paired_concat(a.skip(1), b);
        assert((a + b).skip(1) =~= a.skip(1) + b);
        assert((a + b)[0] == a[0]);
    }
}

proof fn lemma_nonzero_concat(a: Seq<CoinEventRow>, b: Seq<CoinEventRow>)
    ensures
        nonzero_rows(a + b) == nonzero_rows(a) + nonzero_rows(b),
    decreases b.len(),
{
    if b.len() == 0 {
        assert(a + b =~= a);
        assert(nonzero_rows(a) + nonzero_rows(b) =~= nonzero_rows(a));
    } else {
        lemma_nonzero_concat(a, b.drop_last());
        assert((a + b).drop_last() =~= a + b.drop_last());
        assert((a + b).last() == b.last());
        if b.last().delta_amount.value() != 0 {
            assert(nonzero_rows(a) + nonzero_rows(b) =~= (nonzero_rows(a) + nonzero_rows(b.drop_last())).push(b.last()));
        }
    }
}

proof fn lemma_outside_concat(a: Seq<CoinEventRow>, b: Seq<CoinEventRow>, bad: Set<Seq<char>>)
    ensures
        rows_outside(a + b, bad) == rows_outside(a, bad) + rows_outside(b, bad),
    decreases b.len(),
{
    if b.len() == 0 {
        assert(a + b =~= a);
        assert(rows_outside(a, bad) + rows_outside(b, bad) =~= rows_outside(a, bad));
    } else {
        lemma_outside_concat(a, b.drop_last(), bad);
        assert((a + b).drop_last() =~= a + b.drop_last());
        assert((a + b).last() == b.last());
        if !bad.contains(b.last().contract_account_id@) {
            assert(rows_outside(a, bad) + rows_outside(b, bad) =~= (rows_outside(a, bad) + rows_outside(
                b.drop_last(),
                bad,
            )).push(b.last()));
        }
    }
}

proof fn lemma_pair_rows(a: CoinEventRow, b: CoinEventRow)
    requires
        row_partners(a, b),
    ensures
        rows_paired(seq![a, b]),
{
    assert(seq![a, b].skip(2) =~= Seq::<CoinEventRow>::empty());
    assert(rows_paired(seq![a, b].skip(2)));
}

proof fn lemma_single_row(a: CoinEventRow)
    requires
        a.cause != Cause::Transfer,
    ensures
        rows_paired(seq![a]),
{
    assert(seq![a].skip(1) =~= Seq::<CoinEventRow>::empty());
    assert(rows_paired(seq![a].skip(1)));
}

proof fn lemma_short_rows(s: Seq<CoinEventRow>, bad: Set<Seq<char>>)
    requires
        1 <= s.len() <= 2,
        s.len() == 2 ==> row_partners(s[0], s[1]),
        s.len() == 1 ==> s[0].cause != Cause::Transfer,
    ensures
        rows_paired(nonzero_rows(s)),
        rows_paired(rows_outside(s, bad)),
{
    let e = Seq::<CoinEventRow>::empty();
    assert(rows_paired(e));
    if s.len() == 1 {
        assert(s.drop_last() =~= e);
        assert(s.last() == s[0]);
        assert(nonzero_rows(s.drop_last()) == e);
        assert(rows_outside(s.drop_last(), bad) == e);
        lemma_single_row(s[0]);
        assert(e.push(s[0]) =~= seq![s[0]]);
        if s[0].delta_amount.value() != 0 {
            assert(nonzero_rows(s) == e.push(s[0]));
        } else {
            assert(nonzero_rows(s) == e);
        }
        if bad.contains(s[0].contract_account_id@) {
            assert(rows_outside(s, bad) == e);
        } else {
            assert(rows_outside(s, bad) == e.push(s[0]));
        }
    } else {
        let p = s.drop_last();
        assert(p.drop_last() =~= e);
        assert(p.last() == s[0]);
        assert(s.last() == s[1]);
        assert(nonzero_rows(p.drop_last()) == e);
        assert(rows_outside(p.drop_last(), bad) == e);
        lemma_pair_rows(s[0], s[1]);
        assert(e.push(s[0]).push(s[1]) =~= seq![s[0], s[1]]);
        if s[0].delta_amount.value() != 0 {
            assert(nonzero_rows(p) == e.push(s[0]));
            assert(nonzero_rows(s) == e.push(s[0]).push(s[1]));
        } else {
            assert(nonzero_rows(p) == e);
            assert(nonzero_rows(s) == e);
        }
        if bad.contains(s[0].contract_account_id@) {
            assert(rows_outside(p, bad) == e);
            assert(rows_outside(s, bad) == e);
        } else {
            assert(rows_outside(p, bad) == e.push(s[0]));
            assert(rows_outside(s, bad) == e.push(s[0]).push(s[1]));
        }
    }
}

proof fn lemma_filters_keep_pairs(s: Seq<CoinEventRow>, bad: Set<Seq<char>>)
    requires
        rows_paired(s),
    ensures
        rows_paired(nonzero_rows(s)),
        rows_paired(rows_outside(s, bad)),
    decreases s.len(),
{
    if s.len() > 0 {
        let k: int = if s[0].cause == Cause::Transfer {
            2
        } else {
            1
        };
        let head = s.take(k);
        let tail = s.skip(k);
        assert(s =~= head + tail);
        lemma_filters_keep_pairs(tail, bad);
        if k == 2 {
            assert(head[0] == s[0] && head[1] == s[1]);
        } else {
            assert(head[0] == s[0]);
        }
        lemma_short_rows(head, bad);
        lemma_nonzero_concat(head, tail);
        lemma_outside_concat(head, tail, bad);
        lemma_rows_paired_concat(nonzero_rows(head), nonzero_rows(tail));
        lemma_rows_paired_concat(rows_outside(head, bad), rows_outside(tail, bad));
    }
}

/// The rows a block keeps hold every transfer as two adjacent partner rows:
/// same receipt and contract, sender first, deltas of equal size and
/// opposite sign. Building keeps the events' pairs, and neither the zero
/// filter, nor dropping the rows of inconsistent contracts, nor numbering
/// separates them.
pub proof fn law_kept_rows_paired(
    bal: Map<BalanceKey, u128>,
    es: Seq<TokenEvent>,
    height: u64,
    timestamp: u64,
    bad: Set<Seq<char>>,
)
    requires
        paired(event_views(es)),
        build_all(bal, es, height, timestamp) is Some,
    ensures
        ({
            let (rows, _, _) = build_all(bal, es, height, timestamp)->0;
            rows_paired(indexed(rows_outside(nonzero_rows(rows), bad), timestamp))
        }),
{
    crate::laws::law_rows_follow_events(bal, es, height, timestamp);
    let (rows, _, _) = build_all(bal, es, height, timestamp)->0;
    let v = event_views(es);
    assert forall|i: int| 0 <= i < v.len() implies row_matches(#[trigger] v[i], rows[i]) by {
        assert(v[i] == es[i]@);
    }
    lemma_rows_from_events(v, rows);
    lemma_filters_keep_pairs(rows, bad);
    let n = nonzero_rows(rows);
    lemma_filters_keep_pairs(n, bad);
    let o = rows_outside(n, bad);
    let t = indexed(o, timestamp);
    assert forall|i: int| 0 <= i < o.len() implies same_pair_fields(#[trigger] o[i], t[i]) by {}
    lemma_rows_same_fields(o, t);
}

} // verus!
