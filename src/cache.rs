//! The process-wide balance cache: a bounded map from (account, contract)
//! to the last known balance, evicting the least recently used entry when
//! full. It is read before a block is built and written after.

use vstd::prelude::*;
use cached::SizedCache;
use crate::balances::{BalanceKey, Balances, entries_map, entry_key};
use crate::event::copy_text;

verus! {

/// Declares `cached::SizedCache` so that the store can be held in a field.
#[verifier::external_type_specification]
#[verifier::external_body]
#[verifier::reject_recursive_types(K)]
#[verifier::reject_recursive_types(V)]
pub struct ExSizedCache<K, V>(SizedCache<K, V>);

/// The store behind the balance cache.
pub type BalanceStore = SizedCache<(String, String), u128>;

/// The entries a balance cache holds.
pub uninterp spec fn cached_balances(c: SizedCache<(String, String), u128>) -> Map<BalanceKey, u128>;

/// The number of entries a balance cache was made to hold.
pub uninterp spec fn cache_capacity(c: SizedCache<(String, String), u128>) -> nat;

/// Relies on `SizedCache::with_size`: an empty cache of that capacity (it
/// panics on zero).
#[verifier::external_body]
fn sized_cache_new(capacity: usize) -> (r: BalanceStore)
    requires
        capacity > 0,
    ensures
        cached_balances(r) =~= Map::empty(),
        cache_capacity(r) == capacity,
{
    SizedCache::with_size(capacity)
}

/// Relies on `Cached::cache_get` of `SizedCache`: the entry under the key;
/// only the order of use changes.
#[verifier::external_body]
fn sized_cache_get(c: &mut BalanceStore, key: &(String, String)) -> (r: Option<u128>)
    ensures
        cached_balances(*final(c)) == cached_balances(*old(c)),
        cache_capacity(*final(c)) == cache_capacity(*old(c)),
        r is Some <==> cached_balances(*old(c)).contains_key((key.0@, key.1@)),
        r matches Some(v) ==> v == cached_balances(*old(c))[(key.0@, key.1@)],
{
    cached::Cached::cache_get(c, key).copied()
}

/// Relies on `Cached::cache_set` of `SizedCache`: the key then maps to the
/// value; when the cache was full, one other entry may have been evicted.
/// The store holds finitely many entries.
#[verifier::external_body]
fn sized_cache_set(c: &mut BalanceStore, key: (String, String), value: u128)
    ensures
        cache_capacity(*final(c)) == cache_capacity(*old(c)),
        cached_balances(*final(c)).contains_key((key.0@, key.1@)),
        cached_balances(*final(c))[(key.0@, key.1@)] == value,
        forall|k: BalanceKey|
            k != (key.0@, key.1@) && #[trigger] cached_balances(*final(c)).contains_key(k) ==> cached_balances(
                *old(c),
            ).contains_key(k) && cached_balances(*final(c))[k] == cached_balances(*old(c))[k],
        cached_balances(*final(c)).dom().finite(),
        cached_balances(*old(c)).dom().len() < cache_capacity(*old(c)) ==> forall|k: BalanceKey|
            #[trigger] cached_balances(*old(c)).contains_key(k) ==> cached_balances(
                *final(c),
            ).contains_key(k),
{
    cached::Cached::cache_set(c, key, value);
}

/// The balance cache shared by the blocks of a run.
pub struct BalanceCache {
    inner: BalanceStore,
}

impl View for BalanceCache {
    type V = Map<BalanceKey, u128>;

    closed spec fn view(&self) -> Map<BalanceKey, u128> {
        cached_balances(self.inner)
    }
}

impl BalanceCache {
    pub closed spec fn capacity(&self) -> nat {
        cache_capacity(self.inner)
    }

    pub fn new(capacity: usize) -> (r: BalanceCache)
        requires
            capacity > 0,
        ensures
            r@ == Map::<BalanceKey, u128>::empty(),
            r@.dom().finite(),
            r.capacity() == capacity,
    {
        BalanceCache { inner: sized_cache_new(capacity) }
    }

    pub fn get(&mut self, account_id: &String, contract_id: &String) -> (r: Option<u128>)
        ensures
            final(self)@ == old(self)@,
            final(self).capacity() == old(self).capacity(),
            r is Some <==> old(self)@.contains_key((account_id@, contract_id@)),
            r matches Some(v) ==> v == old(self)@[(account_id@, contract_id@)],
    {
        let key = (copy_text(account_id), copy_text(contract_id));
        sized_cache_get(&mut self.inner, &key)
    }

    pub fn set(&mut self, account_id: &String, contract_id: &String, value: u128)
        ensures
            final(self).capacity() == old(self).capacity(),
            final(self)@.dom().finite(),
            final(self)@.contains_key((account_id@, contract_id@)),
            final(self)@[(account_id@, contract_id@)] == value,
            forall|k: BalanceKey|
                k != (account_id@, contract_id@) && #[trigger] final(self)@.contains_key(k) ==> old(
                    self,
                )@.contains_key(k) && final(self)@[k] == old(self)@[k],
            old(self)@.dom().len() < old(self).capacity() ==> forall|k: BalanceKey|
                #[trigger] old(self)@.contains_key(k) ==> final(self)@.contains_key(k),
    {
        let key = (copy_text(account_id), copy_text(contract_id));
        sized_cache_set(&mut self.inner, key, value);
    }

    /// Writes the balances a block ended with back into the cache. When the
    /// cache has room for them, all of them stay.
    pub fn store_all(&mut self, bal: &Balances)
        ensures
            final(self).capacity() == old(self).capacity(),
            old(self)@.dom().finite() ==> final(self)@.dom().finite(),
            forall|k: BalanceKey|
                #[trigger] final(self)@.contains_key(k) ==> (bal@.contains_key(k) && final(self)@[k] == bal@[k])
                    || (!bal@.contains_key(k) && old(self)@.contains_key(k) && final(self)@[k] == old(self)@[k]),
            old(self)@.dom().finite() && old(self)@.dom().len() + bal.writes@.len() <= old(self).capacity()
                ==> forall|k: BalanceKey|
                #[trigger] bal@.contains_key(k) ==> final(self)@.contains_key(k) && final(self)@[k] == bal@[k],
    {
        let ghost fits = old(self)@.dom().finite() && old(self)@.dom().len() + bal.writes@.len() <= old(self).capacity();
        let ghost n0 = old(self)@.dom().len();
        let mut i: usize = 0;
        assert(bal.writes@.take(0) =~= Seq::<crate::balances::BalanceEntry>::empty());
        while i < bal.writes.len()
            invariant
                i <= bal.writes@.len(),
                self.capacity() == old(self).capacity(),
                old(self)@.dom().finite() ==> self@.dom().finite(),
                i > 0 ==> self@.dom().finite(),
                fits == (old(self)@.dom().finite() && n0 + bal.writes@.len() <= old(self).capacity()),
                n0 == old(self)@.dom().len(),
                forall|k: BalanceKey|
                    #[trigger] self@.contains_key(k) ==> (entries_map(bal.writes@.take(i as int)).contains_key(k)
                        && self@[k] == entries_map(bal.writes@.take(i as int))[k]) || (!entries_map(
                        bal.writes@.take(i as int),
                    ).contains_key(k) && old(self)@.contains_key(k) && self@[k] == old(self)@[k]),
                fits ==> self@.dom().len() <= n0 + i,
                fits ==> forall|k: BalanceKey|
                    #[trigger] entries_map(bal.writes@.take(i as int)).contains_key(k) ==> self@.contains_key(k)
                        && self@[k] == entries_map(bal.writes@.take(i as int))[k],
            decreases bal.writes@.len() - i,
        {
            assert(bal.writes@.take(i + 1).drop_last() =~= bal.writes@.take(i as int));
            assert(bal.writes@.take(i + 1).last() == bal.writes@[i as int]);
            let e = &bal.writes[i];
            let ghost before = self@;
            self.set(&e.account_id, &e.contract_id, e.amount);
            proof {
                let key = (e.account_id@, e.contract_id@);
                assert forall|k: BalanceKey| #[trigger] self@.dom().contains(k) implies before.dom().insert(key).contains(k) by {
                    if k != key {
                        assert(self@.contains_key(k));
                    }
                }
                if fits {
                    vstd::set_lib::lemma_len_subset(self@.dom(), before.dom().insert(key));
                    assert(before.dom().len() < self.capacity());
                    let m0 = entries_map(bal.writes@.take(i as int));
                    let m1 = entries_map(bal.writes@.take(i + 1));
                    assert(m1 == m0.insert(key, e.amount));
                    assert forall|k: BalanceKey| #[trigger] m1.contains_key(k) implies self@.contains_key(k)
                        && self@[k] == m1[k] by {
                        if k != key {
                            assert(m0.contains_key(k));
                            assert(before.contains_key(k));
                        }
                    }
                }
            }
            i = i + 1;
        }
        assert(bal.writes@.take(i as int) =~= bal.writes@);
    }
}

proof fn lemma_nonempty_writes(s: Seq<crate::balances::BalanceEntry>)
    requires
        entries_map(s).dom().len() > 0,
    ensures
        s.len() > 0,
        entries_map(s).contains_key(entry_key(s.last())),
{
    if s.len() == 0 {
        assert(entries_map(s).dom() =~= Set::<BalanceKey>::empty());
    }
}

} // verus!
