//! The NFT path: one row per token of each NEP-171 event, numbered per shard.

use vstd::prelude::*;
use crate::block::{ReceiptOutcome, Shard};
use crate::event::{copy_text, NftEventRow};
use crate::nep::{
    event_payloads,
    log_payloads,
    nft_row_views,
    nft_rows_of,
    push_nft_rows,
    read_standard_event,
    standard_event_of,
    str_views,
    token_pairs,
    utf8,
    NftContext,
    NftEventRowView,
    StandardEvent,
    StandardEventView,
};

verus! {

pub open spec fn nft_context_of(shard_id: u64, timestamp: u64, rc: ReceiptOutcome) -> NftContext {
    NftContext {
        shard_id,
        receipt_id: rc.receipt_id,
        contract_id: rc.receiver_id,
        status: rc.status.spec_label(),
        timestamp,
    }
}

pub open spec fn payload_nft_rows(ctx: NftContext, payload: Seq<char>, start: nat) -> Seq<NftEventRowView> {
    match standard_event_of(utf8(payload)) {
        Some(StandardEventView::Nft(c, items)) => nft_rows_of(ctx, c, token_pairs(items), start),
        _ => Seq::empty(),
    }
}

pub open spec fn payloads_nft_rows(ctx: NftContext, ps: Seq<Seq<char>>, start: nat) -> Seq<NftEventRowView>
    decreases ps.len(),
{
    if ps.len() == 0 {
        Seq::empty()
    } else {
        let prev = payloads_nft_rows(ctx, ps.drop_last(), start);
        prev + payload_nft_rows(ctx, ps.last(), start + prev.len())
    }
}

/// The NFT rows of a shard's receipts, numbered from `start`.
pub open spec fn receipts_nft_rows(shard_id: u64, timestamp: u64, rcs: Seq<ReceiptOutcome>, start: nat) -> Seq<
    NftEventRowView,
>
    decreases rcs.len(),
{
    if rcs.len() == 0 {
        Seq::empty()
    } else {
        let prev = receipts_nft_rows(shard_id, timestamp, rcs.drop_last(), start);
        prev + payloads_nft_rows(
            nft_context_of(shard_id, timestamp, rcs.last()),
            log_payloads(rcs.last().logs@),
            start + prev.len(),
        )
    }
}

/// The NFT rows of a block, shard by shard.
pub open spec fn block_nft_rows(shards: Seq<Shard>, timestamp: u64) -> Seq<NftEventRowView>
    decreases shards.len(),
{
    if shards.len() == 0 {
        Seq::empty()
    } else {
        block_nft_rows(shards.drop_last(), timestamp) + receipts_nft_rows(
            shards.last().shard_id,
            timestamp,
            shards.last().outcomes@,
            0,
        )
    }
}

proof fn lemma_concat_assoc(a: Seq<NftEventRowView>, b: Seq<NftEventRowView>, c: Seq<NftEventRowView>)
    ensures
        a + (b + c) == (a + b) + c,
{
    assert(a + (b + c) =~= (a + b) + c);
}

fn push_receipt_nft_rows(out: &mut Vec<NftEventRow>, shard_id: u64, timestamp: u64, rc: &ReceiptOutcome)
    ensures
        nft_row_views(final(out)@) == nft_row_views(old(out)@) + payloads_nft_rows(
            nft_context_of(shard_id, timestamp, *rc),
            log_payloads(rc.logs@),
            old(out)@.len() as nat,
        ),
{
    let ctx = NftContext {
        shard_id,
        receipt_id: copy_text(&rc.receipt_id),
        contract_id: copy_text(&rc.receiver_id),
        status: rc.status.label(),
        timestamp,
    };
    assert(ctx == nft_context_of(shard_id, timestamp, *rc));
    let payloads = event_payloads(&rc.logs);
    let ghost ps = str_views(payloads@);
    let ghost start = nft_row_views(out@);
    let ghost n0 = out@.len() as nat;
    let mut i: usize = 0;
    assert(ps.take(0) =~= Seq::<Seq<char>>::empty());
    assert(start + Seq::<NftEventRowView>::empty() =~= start);
    while i < payloads.len()
        invariant
            ps == str_views(payloads@),
            ps == log_payloads(rc.logs@),
            ctx == nft_context_of(shard_id, timestamp, *rc),
            start == nft_row_views(old(out)@),
            n0 == old(out)@.len(),
            i <= ps.len(),
            nft_row_views(out@) == start + payloads_nft_rows(ctx, ps.take(i as int), n0),
        decreases ps.len() - i,
    {
        assert(ps.take(i + 1).drop_last() =~= ps.take(i as int));
        assert(ps.take(i + 1).last() == payloads@[i as int]@);
        let ghost prev = payloads_nft_rows(ctx, ps.take(i as int), n0);
        proof {
            assert(nft_row_views(out@).len() == out@.len());
            assert(out@.len() == n0 + prev.len());
        }
        let p: &str = payloads[i];
        match read_standard_event(p.as_bytes()) {
            Some(StandardEvent::Nft(c, items)) => {
                let ghost before = nft_row_views(out@);
                push_nft_rows(out, &ctx, c, &items);
                proof {
                    lemma_concat_assoc(start, prev, payload_nft_rows(ctx, ps[i as int], n0 + prev.len()));
                }
            },
            _ => {
                assert(nft_row_views(out@) + Seq::<NftEventRowView>::empty() =~= nft_row_views(out@));
                proof {
                    lemma_concat_assoc(start, prev, Seq::empty());
                }
            },
        }
        i = i + 1;
    }
    assert(ps.take(i as int) =~= ps);
}

/// The NFT rows of one shard, numbered in receipt order.
pub fn collect_shard_nft_rows(shard: &Shard, timestamp: u64) -> (r: Vec<NftEventRow>)
    ensures
        nft_row_views(r@) == receipts_nft_rows(shard.shard_id, timestamp, shard.outcomes@, 0),
{
    let mut out: Vec<NftEventRow> = Vec::new();
    let ghost rcs = shard.outcomes@;
    let mut i: usize = 0;
    assert(rcs.take(0) =~= Seq::<ReceiptOutcome>::empty());
    assert(nft_row_views(out@) =~= Seq::<NftEventRowView>::empty());
    while i < shard.outcomes.len()
        invariant
            rcs == shard.outcomes@,
            i <= rcs.len(),
            nft_row_views(out@) == receipts_nft_rows(shard.shard_id, timestamp, rcs.take(i as int), 0),
        decreases rcs.len() - i,
    {
        assert(rcs.take(i + 1).drop_last() =~= rcs.take(i as int));
        assert(rcs.take(i + 1).last() == rcs[i as int]);
        assert(nft_row_views(out@).len() == out@.len());
        push_receipt_nft_rows(&mut out, shard.shard_id, timestamp, &shard.outcomes[i]);
        i = i + 1;
    }
    assert(rcs.take(i as int) =~= rcs);
    out
}

/// The NFT rows of a block, shard by shard.
pub fn collect_block_nft_rows(shards: &Vec<Shard>, timestamp: u64) -> (r: Vec<NftEventRow>)
    ensures
        nft_row_views(r@) == block_nft_rows(shards@, timestamp),
{
    let mut out: Vec<NftEventRow> = Vec::new();
    let mut i: usize = 0;
    assert(shards@.take(0) =~= Seq::<Shard>::empty());
    assert(nft_row_views(out@) =~= Seq::<NftEventRowView>::empty());
    while i < shards.len()
        invariant
            i <= shards@.len(),
            nft_row_views(out@) == block_nft_rows(shards@.take(i as int), timestamp),
        decreases shards@.len() - i,
    {
        assert(shards@.take(i + 1).drop_last() =~= shards@.take(i as int));
        assert(shards@.take(i + 1).last() == shards@[i as int]);
        let mut rows = collect_shard_nft_rows(&shards[i], timestamp);
        let ghost before = nft_row_views(out@);
        let ghost added = nft_row_views(rows@);
        out.append(&mut rows);
        assert(nft_row_views(out@) =~= before + added);
        i = i + 1;
    }
    assert(shards@.take(i as int) =~= shards@);
    out
}

} // verus!
