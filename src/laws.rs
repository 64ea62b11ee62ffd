//! Properties that relate the pipeline's steps to one another.

use vstd::prelude::*;
use crate::balances::BalanceKey;
use crate::builder::{balance_after, build_all, event_key, prior_balance};
use crate::event::{Cause, CoinEventRow, StatusLabel, TokenEvent};
use crate::reconcile::{condemned, condemns, is_checked, nonzero_rows, EndBalance};
use crate::block::ReceiptOutcome;
use crate::collect::receipt_events;
use crate::token::{transfer_views, EventContext};

verus! {

/// A transfer is two changes of one receipt: the sender's first, then the
/// receiver's, by amounts of equal size and opposite sign.
pub proof fn law_transfer_pair(ctx: EventContext, from: Seq<char>, to: Seq<char>, amount: int, memo: Option<Seq<char>>)
    ensures
        ({
            let v = transfer_views(ctx, from, to, amount, memo);
            &&& v.len() == 2
            &&& v[0].receipt_id == v[1].receipt_id
            &&& v[0].cause == Cause::Transfer && v[1].cause == Cause::Transfer
            &&& v[0].affected_id == from && v[1].affected_id == to
            &&& v[0].involved_id == Some(to) && v[1].involved_id == Some(from)
            &&& v[0].delta == -v[1].delta
        }),
{
}

/// Building keeps the events' order: row `i` records event `i`.
pub proof fn law_rows_follow_events(bal: Map<BalanceKey, u128>, es: Seq<TokenEvent>, height: u64, timestamp: u64)
    requires
        build_all(bal, es, height, timestamp) is Some,
    ensures
        ({
            let (rows, _, _) = build_all(bal, es, height, timestamp)->0;
            &&& rows.len() == es.len()
            &&& forall|i: int|
                0 <= i < es.len() ==> (#[trigger] rows[i]).receipt_id == es[i].receipt_id
                    && rows[i].delta_amount == es[i].delta && rows[i].cause == es[i].cause
                    && rows[i].affected_account_id == es[i].affected_id
                    && rows[i].contract_account_id == es[i].contract_id && rows[i].status == es[i].status
                    && rows[i].involved_account_id == es[i].involved_id
        }),
    decreases es.len(),
{
    if es.len() > 0 {
        law_rows_follow_events(bal, es.drop_last(), height, timestamp);
        let (rows, _, _) = build_all(bal, es, height, timestamp)->0;
        let (prev, _, _) = build_all(bal, es.drop_last(), height, timestamp)->0;
        assert forall|i: int| 0 <= i < es.len() implies (#[trigger] rows[i]).receipt_id == es[i].receipt_id
            && rows[i].delta_amount == es[i].delta && rows[i].cause == es[i].cause
            && rows[i].affected_account_id == es[i].affected_id
            && rows[i].contract_account_id == es[i].contract_id && rows[i].status == es[i].status
            && rows[i].involved_account_id == es[i].involved_id by {
            if i < es.len() - 1 {
                assert(rows[i] == prev[i]);
                assert(es.drop_last()[i] == es[i]);
            }
        }
    }
}

/// A receipt that did not succeed leaves the balance where it was.
pub proof fn law_failed_keeps_balance(prior: u128, e: TokenEvent)
    requires
        e.status != StatusLabel::Success,
    ensures
        balance_after(prior, e) == Some(prior),
{
}

pub open spec fn row_key(r: CoinEventRow) -> BalanceKey {
    (r.affected_account_id@, r.contract_account_id@)
}

/// The balance of `k` that the first `n` rows leave: the absolute amount of
/// the last of them that changes `k`, or the starting balance.
pub open spec fn last_absolute(rows: Seq<CoinEventRow>, n: int, k: BalanceKey, start: Map<BalanceKey, u128>) -> Option<
    u128,
>
    decreases n,
{
    if n <= 0 {
        if start.contains_key(k) {
            Some(start[k])
        } else {
            None
        }
    } else if row_key(rows[n - 1]) == k {
        Some(rows[n - 1].absolute_amount)
    } else {
        last_absolute(rows, n - 1, k, start)
    }
}

pub open spec fn none_fresh(es: Seq<TokenEvent>) -> bool {
    forall|i: int| 0 <= i < es.len() ==> !(#[trigger] es[i]).fresh_account
}

pub open spec fn row_replays(rows: Seq<CoinEventRow>, i: int, start: Map<BalanceKey, u128>) -> bool {
    let r = rows[i];
    let before = last_absolute(rows, i, row_key(r), start);
    &&& before is Some
    &&& if r.status == StatusLabel::Success {
        r.absolute_amount == before->0 + r.delta_amount.value()
    } else {
        r.absolute_amount == before->0
    }
}

/// Folding the rows' deltas in order, from the balances the block started
/// from, gives each row's absolute amount: a row of a successful receipt
/// adds its delta to the last absolute amount of its (account, contract),
/// another keeps it. This holds for every row of a receipt that did not
/// succeed, and for every row whose contract did not leave the range. The
/// balances the block ends with are the last absolute amounts the rows
/// carry.
pub proof fn law_rows_replay(bal: Map<BalanceKey, u128>, es: Seq<TokenEvent>, height: u64, timestamp: u64)
    requires
        none_fresh(es),
        build_all(bal, es, height, timestamp) is Some,
    ensures
        ({
            let (rows, b, bad) = build_all(bal, es, height, timestamp)->0;
            &&& forall|i: int|
                0 <= i < rows.len() && (!bad.contains(#[trigger] rows[i].contract_account_id@)
                    || rows[i].status != StatusLabel::Success) ==> row_replays(rows, i, bal)
            &&& forall|k: BalanceKey|
                #[trigger] last_absolute(rows, rows.len() as int, k, bal) == (if b.contains_key(
                    k,
                ) {
                    Some(b[k])
                } else {
                    None::<u128>
                })
        }),
    decreases es.len(),
{
    if es.len() > 0 {
        let p = es.drop_last();
        assert(none_fresh(p)) by {
            assert forall|i: int| 0 <= i < p.len() implies !(#[trigger] p[i]).fresh_account by {
                assert(p[i] == es[i]);
            }
        }
        law_rows_replay(bal, p, height, timestamp);
        law_rows_follow_events(bal, es, height, timestamp);
        let (rows0, b0, bad0) = build_all(bal, p, height, timestamp)->0;
        let (rows, b, bad) = build_all(bal, es, height, timestamp)->0;
        let e = es.last();
        assert(!e.fresh_account) by {
            assert(es[es.len() - 1] == e);
        }
        let k = event_key(e);
        let prior = prior_balance(b0, e)->0;
        let n = rows0.len() as int;
        assert(rows.len() == n + 1);
        assert forall|j: int| 0 <= j < n implies rows[j] == rows0[j] by {}
        assert(bad0.subset_of(bad));
        assert forall|k2: BalanceKey, m: int| 0 <= m <= n implies #[trigger] last_absolute(rows, m, k2, bal)
            == last_absolute(rows0, m, k2, bal) by {
            lemma_last_absolute_prefix(rows, rows0, m, k2, bal);
        }
        assert(row_key(rows[n]) == k);
        assert forall|i: int|
            0 <= i < rows.len() && (!bad.contains(#[trigger] rows[i].contract_account_id@)
                || rows[i].status != StatusLabel::Success) implies row_replays(rows, i, bal) by {
            if i < n {
                assert(rows[i] == rows0[i]);
                assert(last_absolute(rows, i, row_key(rows[i]), bal) == last_absolute(rows0, i, row_key(rows[i]), bal));
            } else {
                assert(last_absolute(rows, n, k, bal) == last_absolute(rows0, n, k, bal));
            }
        }
        assert forall|k2: BalanceKey| #[trigger] last_absolute(rows, rows.len() as int, k2, bal)
            == (if b.contains_key(k2) {
            Some(b[k2])
        } else {
            None::<u128>
        }) by {
            assert(last_absolute(rows, n, k2, bal) == last_absolute(rows0, n, k2, bal));
        }
    }
}

proof fn lemma_last_absolute_prefix(
    rows: Seq<CoinEventRow>,
    rows0: Seq<CoinEventRow>,
    m: int,
    k: BalanceKey,
    bal: Map<BalanceKey, u128>,
)
    requires
        0 <= m <= rows0.len(),
        rows0.len() <= rows.len(),
        forall|j: int| 0 <= j < rows0.len() ==> rows[j] == rows0[j],
    ensures
        last_absolute(rows, m, k, bal) == last_absolute(rows0, m, k, bal),
    decreases m,
{
    if m > 0 {
        lemma_last_absolute_prefix(rows, rows0, m - 1, k, bal);
    }
}

/// Building the same events from the same balances twice gives the same
/// rows, the same balances and the same contracts out of range.
pub proof fn law_replay_is_identical(
    bal: Map<BalanceKey, u128>,
    es: Seq<TokenEvent>,
    height: u64,
    timestamp: u64,
    first: Option<(Seq<CoinEventRow>, Map<BalanceKey, u128>, Set<Seq<char>>)>,
    second: Option<(Seq<CoinEventRow>, Map<BalanceKey, u128>, Set<Seq<char>>)>,
)
    requires
        first == build_all(bal, es, height, timestamp),
        second == build_all(bal, es, height, timestamp),
    ensures
        first == second,
{
}

/// No row left by the zero filter has a zero delta.
pub proof fn law_no_zero_delta(s: Seq<CoinEventRow>)
    ensures
        forall|k: int| 0 <= k < nonzero_rows(s).len() ==> (#[trigger] nonzero_rows(s)[k]).delta_amount.value() != 0,
    decreases s.len(),
{
    if s.len() > 0 {
        law_no_zero_delta(s.drop_last());
        let p = nonzero_rows(s.drop_last());
        if s.last().delta_amount.value() != 0 {
            assert forall|k: int| 0 <= k < nonzero_rows(s).len() implies (#[trigger] nonzero_rows(s)[k]).delta_amount.value() != 0 by {
                if k < p.len() {
                    assert(nonzero_rows(s)[k] == p[k]);
                }
            }
        }
    }
}

/// When the chain no longer has the contract at the end of the block, the
/// checked row condemns its contract.
pub proof fn law_absent_contract_condemns(s: Seq<CoinEventRow>, known: Set<Seq<char>>, answers: Seq<EndBalance>, i: int)
    requires
        0 <= i < s.len(),
        is_checked(s, known, i),
        answers[i] == EndBalance::ContractAbsent,
    ensures
        condemned(s, known, answers, s.len() as int).contains(s[i].contract_account_id@),
{
    lemma_condemned_has(s, known, answers, s.len() as int, i);
}

proof fn lemma_condemned_has(s: Seq<CoinEventRow>, known: Set<Seq<char>>, answers: Seq<EndBalance>, k: int, i: int)
    requires
        0 <= i < k <= s.len(),
        condemns(s, known, answers, i),
    ensures
        condemned(s, known, answers, k).contains(s[i].contract_account_id@),
    decreases k,
{
    if i < k - 1 {
        lemma_condemned_has(s, known, answers, k - 1, i);
    }
}

/// A receipt of a contract already known to be inconsistent yields no
/// events.
pub proof fn law_known_inconsistent_yields_nothing(shard_id: u64, rc: ReceiptOutcome, known: Set<Seq<char>>)
    requires
        known.contains(rc.receiver_id@),
        known.contains(rc.executor_id@),
    ensures
        receipt_events(shard_id, rc, known) == Ok::<Seq<crate::token::TokenEventView>, crate::nep::DecodeError>(
            Seq::empty(),
        ),
{
}

} // verus!
