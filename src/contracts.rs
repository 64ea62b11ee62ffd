//! The set of contracts whose reconstructed balances disagreed with the chain.

use vstd::prelude::*;

verus! {

pub open spec fn ids_set(s: Seq<String>) -> Set<Seq<char>>
    decreases s.len(),
{
    if s.len() == 0 {
        Set::empty()
    } else {
        ids_set(s.drop_last()).insert(s.last()@)
    }
}

/// Contract ids; once a contract is in the set it stays there.
#[derive(Debug)]
pub struct ContractSet {
    pub ids: Vec<String>,
}

impl View for ContractSet {
    type V = Set<Seq<char>>;

    open spec fn view(&self) -> Set<Seq<char>> {
        ids_set(self.ids@)
    }
}

impl ContractSet {
    pub fn new() -> (r: ContractSet)
        ensures
            r@ == Set::<Seq<char>>::empty(),
    {
        ContractSet { ids: Vec::new() }
    }

    pub fn contains(&self, id: &String) -> (r: bool)
        ensures
            r == self@.contains(id@),
    {
        let mut i: usize = self.ids.len();
        assert(self.ids@.take(i as int) =~= self.ids@);
        while i > 0
            invariant
                i <= self.ids@.len(),
                ids_set(self.ids@.take(i as int)).contains(id@) == self@.contains(id@),
            decreases i,
        {
            assert(self.ids@.take(i as int).drop_last() =~= self.ids@.take(i - 1));
            if self.ids[i - 1] == *id {
                return true;
            }
            i = i - 1;
        }
        false
    }

    pub fn insert(&mut self, id: &String)
        ensures
            final(self)@ == old(self)@.insert(id@),
    {
        if !self.contains(id) {
            self.ids.push(id.clone());
            assert(self.ids@.drop_last() =~= old(self).ids@);
        } else {
            assert(old(self)@.insert(id@) =~= old(self)@);
        }
    }
}

} // verus!
