//! The event builder: from a decoded balance change and the balance before
//! it, the absolute balance after it and the row that records it.

use vstd::prelude::*;
use crate::balances::{BalanceKey, Balances};
use crate::contracts::ContractSet;
use crate::event::{copy_opt_text, copy_text, CoinEventRow, StatusLabel, TokenEvent};
use crate::token::all_wf;

verus! {

pub open spec fn event_key(e: TokenEvent) -> BalanceKey {
    (e.affected_id@, e.contract_id@)
}

/// The balance the event starts from, if it is known.
pub open spec fn prior_balance(bal: Map<BalanceKey, u128>, e: TokenEvent) -> Option<u128> {
    if e.fresh_account {
        Some(0)
    } else if bal.contains_key(event_key(e)) {
        Some(bal[event_key(e)])
    } else {
        None
    }
}

/// The absolute balance after the event; `None` when it is negative or does
/// not fit in a `u128`. A receipt that did not succeed leaves it unchanged.
pub open spec fn balance_after(prior: u128, e: TokenEvent) -> Option<u128> {
    if e.status == StatusLabel::Success {
        let v = prior + e.delta.value();
        if 0 <= v <= u128::MAX {
            Some(v as u128)
        } else {
            None
        }
    } else {
        Some(prior)
    }
}

pub open spec fn row_for(e: TokenEvent, height: u64, timestamp: u64, absolute: u128) -> CoinEventRow {
    CoinEventRow {
        event_index: 0,
        standard: e.standard,
        receipt_id: e.receipt_id,
        block_height: height,
        block_timestamp: timestamp,
        contract_account_id: e.contract_id,
        affected_account_id: e.affected_id,
        involved_account_id: e.involved_id,
        delta_amount: e.delta,
        absolute_amount: absolute,
        cause: e.cause,
        status: e.status,
        event_memo: e.memo,
        shard_id: e.shard_id,
        kind: e.kind,
    }
}

pub open spec fn seeded(bal: Map<BalanceKey, u128>, e: TokenEvent) -> Map<BalanceKey, u128> {
    if e.fresh_account {
        bal.insert(event_key(e), 0)
    } else {
        bal
    }
}

/// The balances after the event: the new absolute balance, or zero when it
/// left the range, so that the balances always hold what the rows carry.
pub open spec fn balances_after(bal: Map<BalanceKey, u128>, e: TokenEvent, prior: u128) -> Map<
    BalanceKey,
    u128,
> {
    match balance_after(prior, e) {
        Some(v) => seeded(bal, e).insert(event_key(e), v),
        None => seeded(bal, e).insert(event_key(e), 0),
    }
}

/// Building a list of events in order: the rows, the balances after them,
/// and the contracts whose balance left the range. `None` when some event's
/// prior balance is unknown.
pub open spec fn build_all(
    bal: Map<BalanceKey, u128>,
    es: Seq<TokenEvent>,
    height: u64,
    timestamp: u64,
) -> Option<(Seq<CoinEventRow>, Map<BalanceKey, u128>, Set<Seq<char>>)>
    decreases es.len(),
{
    if es.len() == 0 {
        Some((Seq::empty(), bal, Set::empty()))
    } else {
        match build_all(bal, es.drop_last(), height, timestamp) {
            None => None,
            Some((rows, b, bad)) => {
                let e = es.last();
                match prior_balance(b, e) {
                    None => None,
                    Some(p) => match balance_after(p, e) {
                        Some(a) => Some(
                            (rows.push(row_for(e, height, timestamp, a)), balances_after(b, e, p), bad),
                        ),
                        None => Some(
                            (
                                rows.push(row_for(e, height, timestamp, 0)),
                                balances_after(b, e, p),
                                bad.insert(e.contract_id@),
                            ),
                        ),
                    },
                }
            },
        }
    }
}

/// A built row, and whether its absolute balance was in range. Out of range,
/// the row carries zero and its contract is to be marked inconsistent.
#[derive(Debug)]
pub struct BuiltEvent {
    pub row: CoinEventRow,
    pub in_range: bool,
}

/// Builds the row of one event from the balances of the block so far, and
/// records the new balance. `None` when the prior balance is unknown.
pub fn build_event(bal: &mut Balances, e: &TokenEvent, height: u64, timestamp: u64) -> (r: Option<
    BuiltEvent,
>)
    requires
        e.delta.wf(),
    ensures
        match prior_balance(old(bal)@, *e) {
            None => r is None && final(bal)@ == old(bal)@,
            Some(p) => r matches Some(b) && b.in_range == (balance_after(p, *e) is Some) && b.row
                == row_for(
                *e,
                height,
                timestamp,
                match balance_after(p, *e) {
                    Some(a) => a,
                    None => 0,
                },
            ) && final(bal)@ == balances_after(old(bal)@, *e, p),
        },
        // a receipt that did not succeed keeps the balance it started from
        e.status != StatusLabel::Success ==> (r matches Some(b) ==> prior_balance(old(bal)@, *e)
            == Some(b.row.absolute_amount) && b.in_range),
{
    if e.fresh_account {
        bal.set(&e.affected_id, &e.contract_id, 0);
    }
    let prior = match bal.get(&e.affected_id, &e.contract_id) {
        Some(p) => p,
        None => {
            return None;
        },
    };
    let after: Option<u128> = if e.status == StatusLabel::Success {
        e.delta.add_to(prior)
    } else {
        Some(prior)
    };
    let (absolute, in_range) = match after {
        Some(a) => {
            bal.set(&e.affected_id, &e.contract_id, a);
            (a, true)
        },
        None => {
            bal.set(&e.affected_id, &e.contract_id, 0);
            (0u128, false)
        },
    };
    let row = CoinEventRow {
        event_index: 0,
        standard: e.standard,
        receipt_id: copy_text(&e.receipt_id),
        block_height: height,
        block_timestamp: timestamp,
        contract_account_id: copy_text(&e.contract_id),
        affected_account_id: copy_text(&e.affected_id),
        involved_account_id: copy_opt_text(&e.involved_id),
        delta_amount: e.delta.duplicate(),
        absolute_amount: absolute,
        cause: e.cause,
        status: e.status,
        event_memo: copy_opt_text(&e.memo),
        shard_id: e.shard_id,
        kind: e.kind,
    };
    Some(BuiltEvent { row, in_range })
}

/// Builds the rows of a block's events in order. Contracts whose balance
/// leaves the range are added to `inconsistent`. `None` when some event's
/// prior balance is unknown.
pub fn build_events(
    bal: &mut Balances,
    es: &Vec<TokenEvent>,
    inconsistent: &mut ContractSet,
    height: u64,
    timestamp: u64,
) -> (r: Option<Vec<CoinEventRow>>)
    requires
        all_wf(es@),
    ensures
        match build_all(old(bal)@, es@, height, timestamp) {
            None => r is None,
            Some((rows, b, bad)) => r matches Some(v) && v@ == rows && final(bal)@ == b
                && final(inconsistent)@ == old(inconsistent)@.union(bad),
        },
{
    let mut rows: Vec<CoinEventRow> = Vec::new();
    let mut i: usize = 0;
    let ghost bal0 = bal@;
    let ghost set0 = inconsistent@;
    assert(es@.take(0) =~= Seq::<TokenEvent>::empty());
    assert(set0.union(Set::empty()) =~= set0);
    while i < es.len()
        invariant
            i <= es@.len(),
            all_wf(es@),
            bal0 == old(bal)@,
            set0 == old(inconsistent)@,
            build_all(bal0, es@.take(i as int), height, timestamp) matches Some((rs, b, bad)) && rs
                == rows@ && b == bal@ && inconsistent@ == set0.union(bad),
        decreases es@.len() - i,
    {
        assert(es@.take(i + 1).drop_last() =~= es@.take(i as int));
        assert(es@.take(i + 1).last() == es@[i as int]);
        let e = &es[i];
        match build_event(bal, e, height, timestamp) {
            None => {
                proof {
                    lemma_build_all_stuck(bal0, es@, i as int, height, timestamp);
                }
                return None;
            },
            Some(b) => {
                if !b.in_range {
                    let ghost before = inconsistent@;
                    inconsistent.insert(&e.contract_id);
                    proof {
                        let (_, _, bad) = build_all(bal0, es@.take(i as int), height, timestamp)->0;
                        assert(set0.union(bad.insert(e.contract_id@)) =~= before.insert(
                            e.contract_id@,
                        ));
                    }
                }
                rows.push(b.row);
            },
        }
        i = i + 1;
    }
    assert(es@.take(i as int) =~= es@);
    Some(rows)
}

/// Once building stops on an unknown prior balance, building a longer list
/// stops too.
proof fn lemma_build_all_stuck(bal: Map<BalanceKey, u128>, es: Seq<TokenEvent>, i: int, height: u64, timestamp: u64)
    requires
        0 <= i < es.len(),
        build_all(bal, es.take(i + 1), height, timestamp) is None,
    ensures
        build_all(bal, es, height, timestamp) is None,
    decreases es.len() - i,
{
    if i + 1 < es.len() {
        assert(es.take(i + 2).drop_last() =~= es.take(i + 1));
        lemma_build_all_stuck(bal, es, i + 1, height, timestamp);
    } else {
        assert(es.take(i + 1) =~= es);
    }
}

} // verus!
