//! The balances one block works on: the balance of each (account, contract)
//! pair as the block's events change it.

use vstd::prelude::*;

verus! {

pub type BalanceKey = (Seq<char>, Seq<char>);

#[derive(Debug)]
pub struct BalanceEntry {
    pub account_id: String,
    pub contract_id: String,
    pub amount: u128,
}

pub open spec fn entry_key(e: BalanceEntry) -> BalanceKey {
    (e.account_id@, e.contract_id@)
}

/// The map that a list of writes leaves: a later write wins.
pub open spec fn entries_map(s: Seq<BalanceEntry>) -> Map<BalanceKey, u128>
    decreases s.len(),
{
    if s.len() == 0 {
        Map::empty()
    } else {
        entries_map(s.drop_last()).insert(entry_key(s.last()), s.last().amount)
    }
}

/// Balances by (account, contract), kept as the list of writes made to them.
#[derive(Debug)]
pub struct Balances {
    pub writes: Vec<BalanceEntry>,
}

impl View for Balances {
    type V = Map<BalanceKey, u128>;

    open spec fn view(&self) -> Map<BalanceKey, u128> {
        entries_map(self.writes@)
    }
}

impl Balances {
    pub fn new() -> (r: Balances)
        ensures
            r@ == Map::<BalanceKey, u128>::empty(),
    {
        Balances { writes: Vec::new() }
    }

    pub fn set(&mut self, account_id: &String, contract_id: &String, amount: u128)
        ensures
            final(self)@ == old(self)@.insert((account_id@, contract_id@), amount),
    {
        let e = BalanceEntry { account_id: account_id.clone(), contract_id: contract_id.clone(), amount };
        self.writes.push(e);
        assert(self.writes@.drop_last() =~= old(self).writes@);
    }

    pub fn get(&self, account_id: &String, contract_id: &String) -> (r: Option<u128>)
        ensures
            r is Some <==> self@.contains_key((account_id@, contract_id@)),
            r matches Some(v) ==> v == self@[(account_id@, contract_id@)],
    {
        let ghost k = (account_id@, contract_id@);
        let mut i: usize = self.writes.len();
        assert(self.writes@.take(i as int) =~= self.writes@);
        while i > 0
            invariant
                i <= self.writes@.len(),
                k == (account_id@, contract_id@),
                entries_map(self.writes@.take(i as int)).contains_key(k) == self@.contains_key(k),
                self@.contains_key(k) ==> entries_map(self.writes@.take(i as int))[k] == self@[k],
            decreases i,
        {
            let e = &self.writes[i - 1];
            assert(self.writes@.take(i as int).drop_last() =~= self.writes@.take(i - 1));
            assert(self.writes@.take(i as int).last() == *e);
            if e.account_id == *account_id && e.contract_id == *contract_id {
                return Some(e.amount);
            }
            i = i - 1;
        }
        None
    }
}

} // verus!
