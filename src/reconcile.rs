//! The block reconciler: drops empty changes, cross-checks the last balance
//! of each account against the chain, drops the events of inconsistent
//! contracts and numbers the rest.

use vstd::prelude::*;
use crate::contracts::{ids_set, ContractSet};
use crate::event::{copy_opt_text, copy_text, CoinEventRow};
use crate::index::{
    compose_db_index,
    event_index,
    lemma_event_index_fits,
    lemma_index_increasing,
    lemma_index_windows,
    EventKind,
};

verus! {

pub open spec fn rows_wf(s: Seq<CoinEventRow>) -> bool {
    forall|i: int| 0 <= i < s.len() ==> (#[trigger] s[i]).delta_amount.wf()
}

pub fn copy_row(r: &CoinEventRow) -> (c: CoinEventRow)
    ensures
        c == *r,
{
    CoinEventRow {
        event_index: r.event_index,
        standard: r.standard,
        receipt_id: copy_text(&r.receipt_id),
        block_height: r.block_height,
        block_timestamp: r.block_timestamp,
        contract_account_id: copy_text(&r.contract_account_id),
        affected_account_id: copy_text(&r.affected_account_id),
        involved_account_id: copy_opt_text(&r.involved_account_id),
        delta_amount: r.delta_amount.duplicate(),
        absolute_amount: r.absolute_amount,
        cause: r.cause,
        status: r.status,
        event_memo: copy_opt_text(&r.event_memo),
        shard_id: r.shard_id,
        kind: r.kind,
    }
}

/// The rows whose delta is not zero, in order.
pub open spec fn nonzero_rows(s: Seq<CoinEventRow>) -> Seq<CoinEventRow>
    decreases s.len(),
{
    if s.len() == 0 {
        s
    } else if s.last().delta_amount.value() != 0 {
        nonzero_rows(s.drop_last()).push(s.last())
    } else {
        nonzero_rows(s.drop_last())
    }
}

/// Drops the rows whose delta is zero.
pub fn filter_zero_delta(rows: &Vec<CoinEventRow>) -> (r: Vec<CoinEventRow>)
    requires
        rows_wf(rows@),
    ensures
        r@ == nonzero_rows(rows@),
{
    let mut out: Vec<CoinEventRow> = Vec::new();
    let mut i: usize = 0;
    assert(rows@.take(0) =~= Seq::<CoinEventRow>::empty());
    while i < rows.len()
        invariant
            i <= rows@.len(),
            rows_wf(rows@),
            out@ == nonzero_rows(rows@.take(i as int)),
        decreases rows@.len() - i,
    {
        assert(rows@.take(i + 1).drop_last() =~= rows@.take(i as int));
        assert(rows@.take(i + 1).last() == rows@[i as int]);
        if !rows[i].delta_amount.is_zero() {
            out.push(copy_row(&rows[i]));
        }
        i = i + 1;
    }
    assert(rows@.take(i as int) =~= rows@);
    out
}

/// Whether the row's balance is checked against the chain: its contract is
/// not already inconsistent, and no later row of a contract that is not
/// inconsistent changes the same account.
pub open spec fn is_checked(s: Seq<CoinEventRow>, known: Set<Seq<char>>, i: int) -> bool {
    &&& !known.contains(s[i].contract_account_id@)
    &&& forall|j: int|
        i < j < s.len() && !known.contains(#[trigger] s[j].contract_account_id@)
            ==> s[j].affected_account_id@ != s[i].affected_account_id@
}

/// For each row, whether its balance at the end of the block is to be asked
/// of the chain.
pub fn consistency_checks(rows: &Vec<CoinEventRow>, known: &ContractSet) -> (r: Vec<bool>)
    ensures
        r@.len() == rows@.len(),
        forall|i: int| 0 <= i < rows@.len() ==> r@[i] == is_checked(rows@, known@, i),
{
    let n = rows.len();
    let mut flags: Vec<bool> = Vec::new();
    let mut i: usize = 0;
    while i < n
        invariant
            n == rows@.len(),
            i <= n,
            flags@.len() == i,
            forall|k: int| 0 <= k < i ==> flags@[k] == is_checked(rows@, known@, k),
        decreases n - i,
    {
        let mut checked = !known.contains(&rows[i].contract_account_id);
        if checked {
            let mut j: usize = i + 1;
            while j < n
                invariant
                    n == rows@.len(),
                    i < n,
                    i < j <= n,
                    !known@.contains(rows@[i as int].contract_account_id@),
                    checked == forall|m: int|
                        i < m < j && !known@.contains(#[trigger] rows@[m].contract_account_id@)
                            ==> rows@[m].affected_account_id@ != rows@[i as int].affected_account_id@,
                decreases n - j,
            {
                if checked && !known.contains(&rows[j].contract_account_id)
                    && rows[j].affected_account_id == rows[i].affected_account_id {
                    checked = false;
                }
                j = j + 1;
            }
        }
        flags.push(checked);
        i = i + 1;
    }
    flags
}

/// What the chain said of an account's balance at the end of the block.
#[derive(Clone, Copy, Debug, PartialEq, Eq, Structural)]
pub enum EndBalance {
    NotAsked,
    Balance(u128),
    ContractAbsent,
}

/// The row's contract is to be marked inconsistent: it already is, or the
/// row was checked and the chain disagrees (an absent contract disagrees).
pub open spec fn condemns(s: Seq<CoinEventRow>, known: Set<Seq<char>>, answers: Seq<EndBalance>, i: int) -> bool {
    known.contains(s[i].contract_account_id@) || (is_checked(s, known, i) && answers[i]
        != EndBalance::Balance(s[i].absolute_amount))
}

/// The contracts that the first `k` rows condemn.
pub open spec fn condemned(s: Seq<CoinEventRow>, known: Set<Seq<char>>, answers: Seq<EndBalance>, k: int) -> Set<
    Seq<char>,
>
    decreases k,
{
    if k <= 0 {
        Set::empty()
    } else if condemns(s, known, answers, k - 1) {
        condemned(s, known, answers, k - 1).insert(s[k - 1].contract_account_id@)
    } else {
        condemned(s, known, answers, k - 1)
    }
}

/// The rows whose contract is not in `bad`, in order.
pub open spec fn rows_outside(s: Seq<CoinEventRow>, bad: Set<Seq<char>>) -> Seq<CoinEventRow>
    decreases s.len(),
{
    if s.len() == 0 {
        s
    } else if bad.contains(s.last().contract_account_id@) {
        rows_outside(s.drop_last(), bad)
    } else {
        rows_outside(s.drop_last(), bad).push(s.last())
    }
}

/// How many of the first `i` rows share the given shard and family.
pub open spec fn group_count(s: Seq<CoinEventRow>, i: int, shard_id: u64, kind: EventKind) -> nat
    decreases i,
{
    if i <= 0 {
        0
    } else if s[i - 1].shard_id == shard_id && s[i - 1].kind == kind {
        group_count(s, i - 1, shard_id, kind) + 1
    } else {
        group_count(s, i - 1, shard_id, kind)
    }
}

/// The row's position among the rows of its shard and family.
pub open spec fn group_position(s: Seq<CoinEventRow>, i: int) -> nat {
    group_count(s, i, s[i].shard_id, s[i].kind)
}

pub open spec fn with_index(r: CoinEventRow, index: u128) -> CoinEventRow {
    CoinEventRow { event_index: index, ..r }
}

/// The rows numbered by block time, shard, family and position.
pub open spec fn indexed(s: Seq<CoinEventRow>, timestamp: u64) -> Seq<CoinEventRow> {
    Seq::new(
        s.len(),
        |i: int| with_index(s[i], event_index(timestamp, s[i].shard_id, s[i].kind, group_position(s, i)) as u128),
    )
}

proof fn lemma_group_count_bound(s: Seq<CoinEventRow>, i: int, shard_id: u64, kind: EventKind)
    requires
        0 <= i <= s.len(),
    ensures
        group_count(s, i, shard_id, kind) <= i,
    decreases i,
{
    if i > 0 {
        lemma_group_count_bound(s, i - 1, shard_id, kind);
    }
}

proof fn lemma_group_count_grows(s: Seq<CoinEventRow>, i: int, j: int, shard_id: u64, kind: EventKind)
    requires
        0 <= i < j <= s.len(),
        s[i].shard_id == shard_id,
        s[i].kind == kind,
    ensures
        group_count(s, i, shard_id, kind) < group_count(s, j, shard_id, kind),
    decreases j - i,
{
    if j > i + 1 {
        lemma_group_count_grows(s, i, j - 1, shard_id, kind);
    }
}

/// Numbers the rows of a block: each row's index is made of the block time,
/// its shard, its family and its position among the rows of that shard and
/// family.
pub fn assign_indices(rows: &Vec<CoinEventRow>, timestamp: u64) -> (r: Vec<CoinEventRow>)
    ensures
        r@ == indexed(rows@, timestamp),
{
    let n = rows.len();
    let mut out: Vec<CoinEventRow> = Vec::new();
    let mut i: usize = 0;
    while i < n
        invariant
            n == rows@.len(),
            i <= n,
            out@.len() == i,
            forall|k: int| 0 <= k < i ==> out@[k] == indexed(rows@, timestamp)[k],
        decreases n - i,
    {
        let shard_id = rows[i].shard_id;
        let kind = rows[i].kind;
        let mut position: usize = 0;
        let mut j: usize = 0;
        while j < i
            invariant
                n == rows@.len(),
                i < n,
                j <= i,
                shard_id == rows@[i as int].shard_id,
                kind == rows@[i as int].kind,
                position == group_count(rows@, j as int, shard_id, kind),
            decreases i - j,
        {
            proof {
                lemma_group_count_bound(rows@, j as int, shard_id, kind);
            }
            if rows[j].shard_id == shard_id && rows[j].kind == kind {
                position = position + 1;
            }
            j = j + 1;
        }
        let index = compose_db_index(timestamp, shard_id, kind, position);
        let mut row = copy_row(&rows[i]);
        row.event_index = index;
        out.push(row);
        i = i + 1;
    }
    assert(out@ =~= indexed(rows@, timestamp));
    out
}

/// Within a shard and a family, numbered rows keep their order and get
/// strictly increasing indices; while shard ids stay below 10^15 and each
/// shard and family holds fewer than 10^4 rows, no two rows of the block
/// share an index.
pub proof fn law_indices_ordered(s: Seq<CoinEventRow>, timestamp: u64, i: int, j: int)
    requires
        0 <= i < j < s.len(),
        s.len() <= usize::MAX,
    ensures
        s[i].shard_id == s[j].shard_id && s[i].kind == s[j].kind ==> indexed(s, timestamp)[i].event_index
            < indexed(s, timestamp)[j].event_index,
        s[i].shard_id < 1_000_000_000_000_000 && s[j].shard_id < 1_000_000_000_000_000 && (forall|
            k: int,
        |
            0 <= k < s.len() ==> group_position(s, k) < 10_000) ==> indexed(s, timestamp)[i].event_index
            != indexed(s, timestamp)[j].event_index,
{
    let pi = group_position(s, i);
    let pj = group_position(s, j);
    lemma_group_count_bound(s, i, s[i].shard_id, s[i].kind);
    lemma_group_count_bound(s, j, s[j].shard_id, s[j].kind);
    lemma_event_index_fits(timestamp, s[i].shard_id, s[i].kind, pi);
    lemma_event_index_fits(timestamp, s[j].shard_id, s[j].kind, pj);
    if s[i].shard_id == s[j].shard_id && s[i].kind == s[j].kind {
        lemma_group_count_grows(s, i, j, s[i].shard_id, s[i].kind);
        lemma_index_increasing(timestamp, s[i].shard_id, s[i].kind, pi, pj);
    }
    if s[i].shard_id < 1_000_000_000_000_000 && s[j].shard_id < 1_000_000_000_000_000 && (forall|
        k: int,
    |
        0 <= k < s.len() ==> group_position(s, k) < 10_000) {
        assert(pi < 10_000 && pj < 10_000);
        lemma_index_windows(timestamp, s[i].shard_id, s[i].kind, pi, timestamp, s[j].shard_id, s[j].kind, pj);
        if s[i].shard_id == s[j].shard_id && s[i].kind == s[j].kind {
            lemma_group_count_grows(s, i, j, s[i].shard_id, s[i].kind);
        }
    }
}

/// Every row of a condemning contract is left out; what remains is neither
/// condemned nor of a contract known to be inconsistent.
proof fn lemma_rows_outside(s: Seq<CoinEventRow>, bad: Set<Seq<char>>, known: Set<Seq<char>>)
    requires
        forall|i: int| 0 <= i < s.len() && known.contains(#[trigger] s[i].contract_account_id@)
            ==> bad.contains(s[i].contract_account_id@),
    ensures
        forall|k: int| 0 <= k < rows_outside(s, bad).len() ==> !bad.contains(
            #[trigger] rows_outside(s, bad)[k].contract_account_id@,
        ) && !known.contains(rows_outside(s, bad)[k].contract_account_id@),
    decreases s.len(),
{
    if s.len() > 0 {
        let p = s.drop_last();
        assert forall|i: int| 0 <= i < p.len() && known.contains(#[trigger] p[i].contract_account_id@)
            implies bad.contains(p[i].contract_account_id@) by {
            assert(p[i] == s[i]);
        }
        lemma_rows_outside(p, bad, known);
        assert(s.last() == s[s.len() - 1]);
    }
}

proof fn lemma_condemned_covers_known(
    s: Seq<CoinEventRow>,
    known: Set<Seq<char>>,
    answers: Seq<EndBalance>,
    k: int,
    i: int,
)
    requires
        0 <= i < k <= s.len(),
        known.contains(s[i].contract_account_id@),
    ensures
        condemned(s, known, answers, k).contains(s[i].contract_account_id@),
    decreases k,
{
    if i < k - 1 {
        lemma_condemned_covers_known(s, known, answers, k - 1, i);
    }
}

/// The result of reconciling a block.
#[derive(Debug)]
pub struct Settled {
    /// The rows that are kept, numbered.
    pub rows: Vec<CoinEventRow>,
    /// The contracts found inconsistent in this block.
    pub newly_inconsistent: ContractSet,
}

/// Marks inconsistent every contract that a row condemns, drops the rows of
/// those contracts and numbers the rest. `answers` holds, for each row, what
/// the chain said of its account at the end of the block; `None` when an
/// answer is missing for a row that `consistency_checks` flags.
pub fn settle(
    rows: &Vec<CoinEventRow>,
    known: &mut ContractSet,
    answers: &Vec<EndBalance>,
    timestamp: u64,
) -> (r: Option<Settled>)
    ensures
        r is None <==> (answers@.len() != rows@.len() || exists|i: int|
            0 <= i < rows@.len() && is_checked(rows@, old(known)@, i) && #[trigger] answers@[i]
                == EndBalance::NotAsked),
        r is None ==> final(known)@ == old(known)@,
        r matches Some(st) ==> {
            let bad = condemned(rows@, old(known)@, answers@, rows@.len() as int);
            &&& st.newly_inconsistent@ == bad
            &&& final(known)@ == old(known)@.union(bad)
            &&& st.rows@ == indexed(rows_outside(rows@, bad), timestamp)
            &&& forall|k: int|
                0 <= k < st.rows@.len() ==> !final(known)@.contains(
                    #[trigger] st.rows@[k].contract_account_id@,
                )
        },
{
    let n = rows.len();
    let flags = consistency_checks(rows, known);
    if answers.len() != n {
        return None;
    }
    let mut i: usize = 0;
    while i < n
        invariant
            n == rows@.len(),
            answers@.len() == n,
            flags@.len() == n,
            forall|k: int| 0 <= k < n ==> flags@[k] == is_checked(rows@, known@, k),
            i <= n,
            forall|k: int| 0 <= k < i ==> !(is_checked(rows@, known@, k) && #[trigger] answers@[k]
                == EndBalance::NotAsked),
        decreases n - i,
    {
        if flags[i] && answers[i] == EndBalance::NotAsked {
            return None;
        }
        i = i + 1;
    }
    let ghost known0 = known@;
    let mut newly = ContractSet::new();
    i = 0;
    while i < n
        invariant
            n == rows@.len(),
            answers@.len() == n,
            flags@.len() == n,
            known0 == known@,
            forall|k: int| 0 <= k < n ==> flags@[k] == is_checked(rows@, known0, k),
            i <= n,
            newly@ == condemned(rows@, known0, answers@, i as int),
        decreases n - i,
    {
        let c = &rows[i].contract_account_id;
        if known.contains(c) || (flags[i] && answers[i] != EndBalance::Balance(rows[i].absolute_amount)) {
            newly.insert(c);
        }
        i = i + 1;
    }
    let ghost bad = newly@;
    let mut kept: Vec<CoinEventRow> = Vec::new();
    i = 0;
    assert(rows@.take(0) =~= Seq::<CoinEventRow>::empty());
    while i < n
        invariant
            n == rows@.len(),
            bad == newly@,
            i <= n,
            kept@ == rows_outside(rows@.take(i as int), bad),
        decreases n - i,
    {
        assert(rows@.take(i + 1).drop_last() =~= rows@.take(i as int));
        assert(rows@.take(i + 1).last() == rows@[i as int]);
        if !newly.contains(&rows[i].contract_account_id) {
            kept.push(copy_row(&rows[i]));
        }
        i = i + 1;
    }
    assert(rows@.take(n as int) =~= rows@);
    let mut j: usize = 0;
    assert(newly.ids@.take(0) =~= Seq::<String>::empty());
    assert(known0.union(Set::empty()) =~= known0);
    while j < newly.ids.len()
        invariant
            j <= newly.ids@.len(),
            bad == newly@,
            known@ == known0.union(ids_set(newly.ids@.take(j as int))),
        decreases newly.ids@.len() - j,
    {
        assert(newly.ids@.take(j + 1).drop_last() =~= newly.ids@.take(j as int));
        let ghost before = known@;
        known.insert(&newly.ids[j]);
        assert(known0.union(ids_set(newly.ids@.take(j + 1))) =~= before.insert(newly.ids@[j as int]@));
        j = j + 1;
    }
    assert(newly.ids@.take(j as int) =~= newly.ids@);
    proof {
        assert forall|k: int| 0 <= k < rows@.len() && known0.contains(#[trigger] rows@[k].contract_account_id@)
            implies bad.contains(rows@[k].contract_account_id@) by {
            lemma_condemned_covers_known(rows@, known0, answers@, n as int, k);
        }
        lemma_rows_outside(rows@, bad, known0);
    }
    let numbered = assign_indices(&kept, timestamp);
    proof {
        assert forall|k: int| 0 <= k < numbered@.len() implies !known@.contains(
            #[trigger] numbered@[k].contract_account_id@,
        ) by {
            assert(numbered@[k].contract_account_id == kept@[k].contract_account_id);
        }
    }
    Some(Settled { rows: numbered, newly_inconsistent: newly })
}

} // verus!
