//! The steps of a block that sit between the decoders, the builder and the
//! reconciler: which prior balances the chain must be asked for, and which
//! contract records the sink must hold.

use vstd::prelude::*;
use crate::balances::{BalanceKey, Balances};
use crate::builder::event_key;
use crate::cache::BalanceCache;
use crate::contracts::ContractSet;
use crate::block::{BlockHeader, Shard};
use crate::builder::{build_all, build_events};
use crate::collect::{block_events, collect_block_events};
use crate::event::{copy_text, CoinEventRow, Standard, TokenEvent};
use crate::nep::DecodeError;
use crate::reconcile::{consistency_checks, filter_zero_delta, indexed, is_checked, nonzero_rows, rows_outside, settle, condemned, EndBalance, Settled};
use crate::token::{all_wf, event_views};

verus! {

/// What the chain said of a balance just before the block.
#[derive(Clone, Copy, Debug, PartialEq, Eq, Structural)]
pub enum PriorBalance {
    Balance(u128),
    /// The contract has no code or no balance method there.
    ContractAbsent,
}

pub open spec fn prior_value(p: PriorBalance) -> u128 {
    match p {
        PriorBalance::Balance(v) => v,
        PriorBalance::ContractAbsent => 0,
    }
}

/// An account's balance at a token contract: the key of every balance.
#[derive(Debug)]
pub struct AccountWithContract {
    pub account_id: String,
    pub contract_account_id: String,
}

pub open spec fn pair_key(r: AccountWithContract) -> BalanceKey {
    (r.account_id@, r.contract_account_id@)
}

pub open spec fn requested(rs: Seq<AccountWithContract>, k: BalanceKey) -> bool {
    exists|j: int| 0 <= j < rs.len() && pair_key(#[trigger] rs[j]) == k
}

fn is_requested(rs: &Vec<AccountWithContract>, account_id: &String, contract_id: &String) -> (r: bool)
    ensures
        r == requested(rs@, (account_id@, contract_id@)),
{
    let mut j: usize = 0;
    while j < rs.len()
        invariant
            j <= rs@.len(),
            forall|m: int| 0 <= m < j ==> pair_key(#[trigger] rs@[m]) != (account_id@, contract_id@),
        decreases rs@.len() - j,
    {
        if rs[j].account_id == *account_id && rs[j].contract_account_id == *contract_id {
            return true;
        }
        j = j + 1;
    }
    false
}

/// The balances a block starts from, as far as the cache knows them, and
/// the pairs whose balance before the block must be asked of the chain.
/// Every event that does not start from zero has its pair in one of them.
pub fn plan_priors(cache: &mut BalanceCache, events: &Vec<TokenEvent>) -> (r: (Balances, Vec<AccountWithContract>))
    ensures
        final(cache)@ == old(cache)@,
        forall|i: int|
            0 <= i < events@.len() && !(#[trigger] events@[i]).fresh_account ==> r.0@.contains_key(
                event_key(events@[i]),
            ) || requested(r.1@, event_key(events@[i])),
        forall|k: BalanceKey| #[trigger] r.0@.contains_key(k) ==> old(cache)@.contains_key(k) && r.0@[k] == old(cache)@[k],
        forall|j: int| 0 <= j < r.1@.len() ==> !old(cache)@.contains_key(pair_key(#[trigger] r.1@[j])),
{
    let mut known = Balances::new();
    let mut missing: Vec<AccountWithContract> = Vec::new();
    let mut i: usize = 0;
    while i < events.len()
        invariant
            i <= events@.len(),
            cache@ == old(cache)@,
            forall|m: int|
                0 <= m < i && !(#[trigger] events@[m]).fresh_account ==> known@.contains_key(
                    event_key(events@[m]),
                ) || requested(missing@, event_key(events@[m])),
            forall|k: BalanceKey| #[trigger] known@.contains_key(k) ==> old(cache)@.contains_key(k) && known@[k] == old(cache)@[k],
            forall|j: int| 0 <= j < missing@.len() ==> !old(cache)@.contains_key(pair_key(#[trigger] missing@[j])),
        decreases events@.len() - i,
    {
        let e = &events[i];
        if !e.fresh_account && known.get(&e.affected_id, &e.contract_id).is_none() && !is_requested(
            &missing,
            &e.affected_id,
            &e.contract_id,
        ) {
            match cache.get(&e.affected_id, &e.contract_id) {
                Some(v) => {
                    known.set(&e.affected_id, &e.contract_id, v);
                },
                None => {
                    let ghost before = missing@;
                    missing.push(AccountWithContract {
                        account_id: copy_text(&e.affected_id),
                        contract_account_id: copy_text(&e.contract_id),
                    });
                    proof {
                        assert(pair_key(missing@[missing@.len() - 1]) == event_key(events@[i as int]));
                        assert forall|m: int|
                            0 <= m < i && !(#[trigger] events@[m]).fresh_account && !known@.contains_key(
                                event_key(events@[m]),
                            ) implies requested(missing@, event_key(events@[m])) by {
                            let j = choose|j: int| 0 <= j < before.len() && pair_key(#[trigger] before[j]) == event_key(events@[m]);
                            assert(missing@[j] == before[j]);
                        }
                    }
                },
            }
        }
        i = i + 1;
    }
    (known, missing)
}

/// Records the chain's answer for a pair: a contract that is absent counts
/// as a zero balance.
pub fn add_prior(bal: &mut Balances, request: &AccountWithContract, answer: PriorBalance)
    ensures
        final(bal)@ == old(bal)@.insert(pair_key(*request), prior_value(answer)),
{
    let v = match answer {
        PriorBalance::Balance(v) => v,
        PriorBalance::ContractAbsent => 0,
    };
    bal.set(&request.account_id, &request.contract_account_id, v);
}

/// A contract as the sink records it.
#[derive(Debug)]
pub struct ContractRecord {
    pub contract_account_id: String,
    pub standard: Standard,
    pub first_event_at_timestamp: u64,
    pub first_event_at_block_height: u64,
    pub inconsistency_found_at_timestamp: Option<u64>,
    pub inconsistency_found_at_block_height: Option<u64>,
}

/// One record per contract that the rows mention (only those in `only`,
/// when given), in the order of first mention. Records made for an
/// inconsistency carry the block as where it was found.
pub fn contract_records(
    rows: &Vec<CoinEventRow>,
    only: Option<&ContractSet>,
    height: u64,
    timestamp: u64,
) -> (r: Vec<ContractRecord>)
    ensures
        forall|a: int, b: int|
            0 <= a < b < r@.len() ==> (#[trigger] r@[a]).contract_account_id@ != (#[trigger] r@[b]).contract_account_id@,
        forall|i: int|
            0 <= i < rows@.len() && (only matches Some(s) ==> s@.contains(
                (#[trigger] rows@[i]).contract_account_id@,
            )) ==> exists|j: int|
                0 <= j < r@.len() && (#[trigger] r@[j]).contract_account_id@ == rows@[i].contract_account_id@,
        forall|j: int|
            0 <= j < r@.len() ==> {
                let c = #[trigger] r@[j];
                &&& (only matches Some(s) ==> s@.contains(c.contract_account_id@))
                &&& exists|i: int| 0 <= i < rows@.len() && rows@[i].contract_account_id@ == c.contract_account_id@ && rows@[i].standard == c.standard
                &&& c.first_event_at_timestamp == timestamp
                &&& c.first_event_at_block_height == height
                &&& c.inconsistency_found_at_timestamp == (if only is Some { Some(timestamp) } else { None::<u64> })
                &&& c.inconsistency_found_at_block_height == (if only is Some { Some(height) } else { None::<u64> })
            },
{
    let mut seen = ContractSet::new();
    let mut out: Vec<ContractRecord> = Vec::new();
    let mut i: usize = 0;
    while i < rows.len()
        invariant
            i <= rows@.len(),
            forall|j: int| 0 <= j < out@.len() ==> seen@.contains((#[trigger] out@[j]).contract_account_id@),
            forall|c: Seq<char>| #[trigger] seen@.contains(c) ==> exists|j: int| 0 <= j < out@.len() && out@[j].contract_account_id@ == c,
            forall|a: int, b: int|
                0 <= a < b < out@.len() ==> (#[trigger] out@[a]).contract_account_id@ != (#[trigger] out@[b]).contract_account_id@,
            forall|m: int|
                0 <= m < i && (only matches Some(s) ==> s@.contains(
                    (#[trigger] rows@[m]).contract_account_id@,
                )) ==> seen@.contains(rows@[m].contract_account_id@),
            forall|j: int|
                0 <= j < out@.len() ==> {
                    let c = #[trigger] out@[j];
                    &&& (only matches Some(s) ==> s@.contains(c.contract_account_id@))
                    &&& exists|m: int| 0 <= m < rows@.len() && rows@[m].contract_account_id@ == c.contract_account_id@ && rows@[m].standard == c.standard
                    &&& c.first_event_at_timestamp == timestamp
                    &&& c.first_event_at_block_height == height
                    &&& c.inconsistency_found_at_timestamp == (if only is Some { Some(timestamp) } else { None::<u64> })
                    &&& c.inconsistency_found_at_block_height == (if only is Some { Some(height) } else { None::<u64> })
                },
        decreases rows@.len() - i,
    {
        let row = &rows[i];
        let wanted = match only {
            Some(s) => s.contains(&row.contract_account_id),
            None => true,
        };
        if wanted && !seen.contains(&row.contract_account_id) {
            let rec = ContractRecord {
                contract_account_id: copy_text(&row.contract_account_id),
                standard: row.standard,
                first_event_at_timestamp: timestamp,
                first_event_at_block_height: height,
                inconsistency_found_at_timestamp: if only.is_some() { Some(timestamp) } else { None },
                inconsistency_found_at_block_height: if only.is_some() { Some(height) } else { None },
            };
            let ghost before = out@;
            seen.insert(&row.contract_account_id);
            out.push(rec);
            proof {
                assert(out@[out@.len() - 1] == rec);
                assert forall|j: int| 0 <= j < before.len() implies out@[j] == before[j] by {}
                assert forall|c: Seq<char>| #[trigger] seen@.contains(c) implies exists|j: int| 0 <= j < out@.len() && out@[j].contract_account_id@ == c by {
                    if c == row.contract_account_id@ {
                        assert(out@[out@.len() - 1].contract_account_id@ == c);
                    } else {
                        let j = choose|j: int| 0 <= j < before.len() && before[j].contract_account_id@ == c;
                        assert(out@[j] == before[j]);
                    }
                }
            }
        }
        i = i + 1;
    }
    proof {
        assert forall|m: int|
            0 <= m < rows@.len() && (only matches Some(s) ==> s@.contains(
                (#[trigger] rows@[m]).contract_account_id@,
            )) implies exists|j: int| 0 <= j < out@.len() && (#[trigger] out@[j]).contract_account_id@ == rows@[m].contract_account_id@ by {
            assert(seen@.contains(rows@[m].contract_account_id@));
        }
    }
    out
}

/// The balances after recording the answers for the requested pairs.
pub open spec fn with_answers(m: Map<BalanceKey, u128>, rs: Seq<AccountWithContract>, answers: Seq<PriorBalance>) -> Map<
    BalanceKey,
    u128,
>
    decreases rs.len(),
{
    if rs.len() == 0 || answers.len() != rs.len() {
        m
    } else {
        with_answers(m, rs.drop_last(), answers.drop_last()).insert(pair_key(rs.last()), prior_value(answers.last()))
    }
}

/// Why a block could not be processed.
#[derive(Clone, Copy, Debug, PartialEq, Eq, Structural)]
pub enum BlockError {
    /// Its receipts could not be decoded.
    Decode(DecodeError),
    /// The answers handed back do not match what was asked.
    MissingAnswers,
    /// A balance before the block is unknown.
    MissingPrior,
}

/// A block on its way through the pipeline: decoded, waiting for the
/// chain's answers on balances before the block, then on balances after it.
#[derive(Debug)]
pub struct BlockRun {
    pub height: u64,
    pub timestamp: u64,
    pub events: Vec<TokenEvent>,
    pub balances: Balances,
    /// The pairs whose balance before the block must be asked of the chain.
    pub requests: Vec<AccountWithContract>,
    /// The built rows with a non-zero delta.
    pub rows: Vec<CoinEventRow>,
    /// For each row, whether its balance after the block must be asked.
    pub checks: Vec<bool>,
}

/// Decodes the block's fungible-token events and plans the prior balances
/// to ask for.
pub fn begin_block(header: &BlockHeader, shards: &Vec<Shard>, cache: &mut BalanceCache, known: &ContractSet) -> (r:
    Result<BlockRun, BlockError>)
    ensures
        final(cache)@ == old(cache)@,
        match block_events(shards@, known@) {
            Err(e) => r == Err::<BlockRun, BlockError>(BlockError::Decode(e)),
            Ok(v) => r matches Ok(run) && event_views(run.events@) == v && all_wf(run.events@)
                && run.height == header.height && run.timestamp == header.timestamp && run.rows@.len() == 0
                && (forall|i: int|
                0 <= i < run.events@.len() && !(#[trigger] run.events@[i]).fresh_account
                    ==> run.balances@.contains_key(event_key(run.events@[i])) || requested(
                    run.requests@,
                    event_key(run.events@[i]),
                )) && (forall|k: BalanceKey| #[trigger] run.balances@.contains_key(k) ==> old(cache)@.contains_key(k)
                && run.balances@[k] == old(cache)@[k]),
        },
{
    let events = match collect_block_events(shards, known) {
        Ok(es) => es,
        Err(e) => {
            return Err(BlockError::Decode(e));
        },
    };
    let (balances, requests) = plan_priors(cache, &events);
    Ok(BlockRun {
        height: header.height,
        timestamp: header.timestamp,
        events,
        balances,
        requests,
        rows: Vec::new(),
        checks: Vec::new(),
    })
}

/// Records the chain's answers for the requested pairs (an absent contract
/// counts as zero), builds the rows, writes the balances the block ends
/// with into the cache, drops the rows with a zero delta, and says which
/// rows must be checked. Contracts whose balance leaves the range are added
/// to `known`.
pub fn give_priors(
    run: &mut BlockRun,
    answers: &Vec<PriorBalance>,
    cache: &mut BalanceCache,
    known: &mut ContractSet,
) -> (r: Result<(), BlockError>)
    requires
        all_wf(old(run).events@),
    ensures
        answers@.len() != old(run).requests@.len() ==> r == Err::<(), BlockError>(BlockError::MissingAnswers)
            && final(known)@ == old(known)@,
        answers@.len() == old(run).requests@.len() ==> match build_all(
            with_answers(old(run).balances@, old(run).requests@, answers@),
            old(run).events@,
            old(run).height,
            old(run).timestamp,
        ) {
            None => r == Err::<(), BlockError>(BlockError::MissingPrior),
            Some((rows, b, bad)) => r is Ok && final(run).rows@ == nonzero_rows(rows) && final(run).balances@ == b
                && final(known)@ == old(known)@.union(bad) && final(run).checks@.len() == final(run).rows@.len()
                && (forall|i: int|
                0 <= i < final(run).rows@.len() ==> final(run).checks@[i] == is_checked(
                    final(run).rows@,
                    final(known)@,
                    i,
                ))
                && (forall|k: BalanceKey|
                #[trigger] final(cache)@.contains_key(k) ==> (b.contains_key(k) && final(cache)@[k] == b[k]) || (
                !b.contains_key(k) && old(cache)@.contains_key(k) && final(cache)@[k] == old(cache)@[k]))
                && (old(cache)@.dom().finite() && old(cache)@.dom().len() + final(run).balances.writes@.len()
                <= old(cache).capacity() ==> forall|k: BalanceKey|
                #[trigger] b.contains_key(k) ==> final(cache)@.contains_key(k) && final(cache)@[k] == b[k]),
        },
        r is Err ==> final(cache)@ == old(cache)@,
        final(cache).capacity() == old(cache).capacity(),
        old(cache)@.dom().finite() ==> final(cache)@.dom().finite(),
        final(run).events == old(run).events,
        final(run).requests == old(run).requests,
        final(run).height == old(run).height,
        final(run).timestamp == old(run).timestamp,
{
    if answers.len() != run.requests.len() {
        return Err(BlockError::MissingAnswers);
    }
    let mut i: usize = 0;
    let ghost start = run.balances@;
    assert(run.requests@.take(0) =~= Seq::<AccountWithContract>::empty());
    assert(answers@.take(0) =~= Seq::<PriorBalance>::empty());
    while i < answers.len()
        invariant
            answers@.len() == run.requests@.len(),
            i <= answers@.len(),
            run.events == old(run).events,
            run.requests == old(run).requests,
            run.height == old(run).height,
            run.timestamp == old(run).timestamp,
            start == old(run).balances@,
            run.balances@ == with_answers(start, run.requests@.take(i as int), answers@.take(i as int)),
        decreases answers@.len() - i,
    {
        assert(run.requests@.take(i + 1).drop_last() =~= run.requests@.take(i as int));
        assert(answers@.take(i + 1).drop_last() =~= answers@.take(i as int));
        assert(run.requests@.take(i + 1).last() == run.requests@[i as int]);
        assert(answers@.take(i + 1).last() == answers@[i as int]);
        add_prior(&mut run.balances, &run.requests[i], answers[i]);
        i = i + 1;
    }
    assert(run.requests@.take(i as int) =~= run.requests@);
    assert(answers@.take(i as int) =~= answers@);
    let built = build_events(&mut run.balances, &run.events, known, run.height, run.timestamp);
    let rows = match built {
        Some(rows) => rows,
        None => {
            return Err(BlockError::MissingPrior);
        },
    };
    cache.store_all(&run.balances);
    proof {
        lemma_built_rows_wf(with_answers(start, run.requests@, answers@), run.events@, run.height, run.timestamp);
    }
    run.rows = filter_zero_delta(&rows);
    run.checks = consistency_checks(&run.rows, known);
    Ok(())
}

proof fn lemma_built_rows_wf(bal: Map<BalanceKey, u128>, es: Seq<TokenEvent>, height: u64, timestamp: u64)
    requires
        all_wf(es),
        build_all(bal, es, height, timestamp) is Some,
    ensures
        ({
            let (rows, _, _) = build_all(bal, es, height, timestamp)->0;
            crate::reconcile::rows_wf(rows)
        }),
{
    crate::laws::law_rows_follow_events(bal, es, height, timestamp);
    let (rows, _, _) = build_all(bal, es, height, timestamp)->0;
    assert forall|i: int| 0 <= i < rows.len() implies (#[trigger] rows[i]).delta_amount.wf() by {
        assert(rows[i].delta_amount == es[i].delta);
    }
}

/// Takes, for each row, what the chain said of its balance after the block,
/// and settles the block: inconsistent contracts are marked in `known`, their
/// rows dropped, the rest numbered.
pub fn finish_block(run: &BlockRun, known: &mut ContractSet, answers: &Vec<EndBalance>) -> (r: Result<Settled, BlockError>)
    ensures
        r is Ok <==> !(answers@.len() != run.rows@.len() || exists|i: int|
            0 <= i < run.rows@.len() && is_checked(run.rows@, old(known)@, i) && #[trigger] answers@[i]
                == EndBalance::NotAsked),
        r is Err ==> r == Err::<Settled, BlockError>(BlockError::MissingAnswers) && final(known)@ == old(known)@,
        r matches Ok(st) ==> {
            let bad = condemned(run.rows@, old(known)@, answers@, run.rows@.len() as int);
            &&& st.newly_inconsistent@ == bad
            &&& final(known)@ == old(known)@.union(bad)
            &&& st.rows@ == indexed(rows_outside(run.rows@, bad), run.timestamp)
            &&& forall|k: int|
                0 <= k < st.rows@.len() ==> !final(known)@.contains(#[trigger] st.rows@[k].contract_account_id@)
        },
{
    match settle(&run.rows, known, answers, run.timestamp) {
        Some(st) => Ok(st),
        None => Err(BlockError::MissingAnswers),
    }
}

} // verus!
