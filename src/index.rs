//! Composite event indices: block time, shard, event family and position
//! each take a disjoint window of decimal digits.

use vstd::prelude::*;
use vstd::arithmetic::div_mod::{
    lemma_fundamental_div_mod_converse_div,
    lemma_fundamental_div_mod_converse_mod,
};

verus! {

/// The family an event comes from; each has its own tag in the index.
#[derive(Clone, Copy, Debug, PartialEq, Eq, Structural)]
pub enum EventKind {
    Nep141,
    Nep171,
    RainbowBridge,
    TknNear,
    Wentokensir,
    WrapNear,
    Aurora,
    Skyward,
}

impl EventKind {
    pub open spec fn spec_tag(self) -> nat {
        match self {
            EventKind::Nep141 => 1,
            EventKind::Nep171 => 2,
            EventKind::RainbowBridge => 3,
            EventKind::TknNear => 4,
            EventKind::Wentokensir => 5,
            EventKind::WrapNear => 6,
            EventKind::Aurora => 7,
            EventKind::Skyward => 8,
        }
    }

    pub fn tag(self) -> (r: u128)
        ensures
            r == self.spec_tag(),
    {
        match self {
            EventKind::Nep141 => 1,
            EventKind::Nep171 => 2,
            EventKind::RainbowBridge => 3,
            EventKind::TknNear => 4,
            EventKind::Wentokensir => 5,
            EventKind::WrapNear => 6,
            EventKind::Aurora => 7,
            EventKind::Skyward => 8,
        }
    }
}

pub const TIME_FACTOR: u128 = 10_000_000_000_000_000_000_000;
pub const SHARD_FACTOR: u128 = 10_000_000;
pub const KIND_FACTOR: u128 = 10_000;
pub const NANOS_PER_MILLI: u64 = 1_000_000;

/// The index of the event at `position` among the events of one shard and
/// one family in a block with timestamp `timestamp_ns` (in nanoseconds).
pub open spec fn event_index(timestamp_ns: u64, shard_id: u64, kind: EventKind, position: nat) -> nat {
    (timestamp_ns / NANOS_PER_MILLI) as nat * TIME_FACTOR as nat
        + shard_id as nat * SHARD_FACTOR as nat
        + kind.spec_tag() * KIND_FACTOR as nat
        + position
}

pub fn compose_db_index(timestamp_ns: u64, shard_id: u64, kind: EventKind, position: usize) -> (r: u128)
    ensures
        r == event_index(timestamp_ns, shard_id, kind, position as nat),
{
    let millis: u128 = (timestamp_ns / NANOS_PER_MILLI) as u128;
    assert(millis <= 18_446_744_073_709u128);
    assert(millis * TIME_FACTOR <= 18_446_744_073_709u128 * TIME_FACTOR) by (nonlinear_arith)
        requires
            millis <= 18_446_744_073_709u128,
    ;
    assert(shard_id as u128 * SHARD_FACTOR <= 18_446_744_073_709_551_615u128 * SHARD_FACTOR) by (nonlinear_arith)
        requires
            shard_id as u128 <= 18_446_744_073_709_551_615u128,
    ;
    millis * TIME_FACTOR + (shard_id as u128) * SHARD_FACTOR + kind.tag() * KIND_FACTOR
        + (position as u128)
}

pub proof fn lemma_event_index_fits(timestamp_ns: u64, shard_id: u64, kind: EventKind, position: nat)
    requires
        position <= usize::MAX,
    ensures
        event_index(timestamp_ns, shard_id, kind, position) <= u128::MAX,
{
    let millis = (timestamp_ns / NANOS_PER_MILLI) as nat;
    assert(millis * TIME_FACTOR <= 18_446_744_073_709nat * TIME_FACTOR) by (nonlinear_arith)
        requires
            millis <= 18_446_744_073_709nat,
    ;
    assert(shard_id as nat * SHARD_FACTOR <= 18_446_744_073_709_551_615nat * SHARD_FACTOR) by (nonlinear_arith)
        requires
            shard_id as nat <= 18_446_744_073_709_551_615nat,
    ;
}

/// Within one shard and one family, a later position has a larger index.
pub proof fn lemma_index_increasing(timestamp_ns: u64, shard_id: u64, kind: EventKind, pos_a: nat, pos_b: nat)
    requires
        pos_a < pos_b,
    ensures
        event_index(timestamp_ns, shard_id, kind, pos_a) < event_index(timestamp_ns, shard_id, kind, pos_b),
{
}

/// While shard ids stay below 10^15 and positions below 10^4, distinct
/// (shard, family, position) triples of one block get distinct indices, and
/// every index of a block with an earlier millisecond is smaller than every
/// index of a later one.
pub proof fn lemma_index_windows(
    t1: u64,
    s1: u64,
    k1: EventKind,
    pos_a: nat,
    t2: u64,
    s2: u64,
    k2: EventKind,
    pos_b: nat,
)
    requires
        s1 < 1_000_000_000_000_000,
        s2 < 1_000_000_000_000_000,
        pos_a < 10_000,
        pos_b < 10_000,
    ensures
        event_index(t1, s1, k1, pos_a) == event_index(t2, s2, k2, pos_b) ==> t1 / NANOS_PER_MILLI == t2
            / NANOS_PER_MILLI && s1 == s2 && k1 == k2 && pos_a == pos_b,
        t1 / NANOS_PER_MILLI < t2 / NANOS_PER_MILLI ==> event_index(t1, s1, k1, pos_a) < event_index(
            t2,
            s2,
            k2,
            pos_b,
        ),
{
    let m1 = (t1 / NANOS_PER_MILLI) as int;
    let m2 = (t2 / NANOS_PER_MILLI) as int;
    let a1 = m1 * 1_000_000_000_000_000 + s1;
    let a2 = m2 * 1_000_000_000_000_000 + s2;
    let b1 = k1.spec_tag() as int;
    let b2 = k2.spec_tag() as int;
    let i1 = event_index(t1, s1, k1, pos_a) as int;
    let i2 = event_index(t2, s2, k2, pos_b) as int;
    assert(i1 == (a1 * 1000 + b1) * 10_000 + pos_a) by (nonlinear_arith)
        requires
            i1 == m1 * 10_000_000_000_000_000_000_000 + s1 * 10_000_000 + b1 * 10_000 + pos_a,
            a1 == m1 * 1_000_000_000_000_000 + s1,
    ;
    assert(i2 == (a2 * 1000 + b2) * 10_000 + pos_b) by (nonlinear_arith)
        requires
            i2 == m2 * 10_000_000_000_000_000_000_000 + s2 * 10_000_000 + b2 * 10_000 + pos_b,
            a2 == m2 * 1_000_000_000_000_000 + s2,
    ;
    if i1 == i2 {
        lemma_fundamental_div_mod_converse_mod(i1, 10_000, a1 * 1000 + b1, pos_a as int);
        lemma_fundamental_div_mod_converse_mod(i2, 10_000, a2 * 1000 + b2, pos_b as int);
        lemma_fundamental_div_mod_converse_div(i1, 10_000, a1 * 1000 + b1, pos_a as int);
        lemma_fundamental_div_mod_converse_div(i2, 10_000, a2 * 1000 + b2, pos_b as int);
        let q = a1 * 1000 + b1;
        lemma_fundamental_div_mod_converse_mod(q, 1000, a1, b1);
        lemma_fundamental_div_mod_converse_mod(q, 1000, a2, b2);
        lemma_fundamental_div_mod_converse_div(q, 1000, a1, b1);
        lemma_fundamental_div_mod_converse_div(q, 1000, a2, b2);
        lemma_fundamental_div_mod_converse_mod(a1, 1_000_000_000_000_000, m1, s1 as int);
        lemma_fundamental_div_mod_converse_mod(a1, 1_000_000_000_000_000, m2, s2 as int);
        lemma_fundamental_div_mod_converse_div(a1, 1_000_000_000_000_000, m1, s1 as int);
        lemma_fundamental_div_mod_converse_div(a1, 1_000_000_000_000_000, m2, s2 as int);
    }
    if m1 < m2 {
        assert(a1 < a2) by (nonlinear_arith)
            requires
                m1 < m2,
                a1 == m1 * 1_000_000_000_000_000 + s1,
                a2 == m2 * 1_000_000_000_000_000 + s2,
                0 <= s2,
                s1 < 1_000_000_000_000_000,
        ;
        assert(i1 < i2) by (nonlinear_arith)
            requires
                a1 < a2,
                i1 == (a1 * 1000 + b1) * 10_000 + pos_a,
                i2 == (a2 * 1000 + b2) * 10_000 + pos_b,
                0 <= b1 < 1000,
                0 <= b2,
                0 <= pos_a < 10_000,
                0 <= pos_b,
        ;
    }
}

} // verus!
