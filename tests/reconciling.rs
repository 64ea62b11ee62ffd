use indexer_events::balances::Balances;
use indexer_events::block::{BlockHeader, ReceiptOutcome, Shard};
use indexer_events::builder::build_events;
use indexer_events::cache::BalanceCache;
use indexer_events::collect::collect_block_events;
use indexer_events::contracts::ContractSet;
use indexer_events::event::{CoinEventRow, ExecutionStatus};
use indexer_events::pipeline::{add_prior, contract_records, plan_priors, PriorBalance};
use indexer_events::reconcile::{assign_indices, consistency_checks, filter_zero_delta, settle, EndBalance};

fn receipt(id: &str, contract: &str, log: String) -> ReceiptOutcome {
    ReceiptOutcome {
        receipt_id: id.to_string(),
        predecessor_id: "p.near".to_string(),
        receiver_id: contract.to_string(),
        executor_id: contract.to_string(),
        actions: vec![],
        logs: vec![log],
        status: ExecutionStatus::SuccessReceiptId,
    }
}

fn ft_log(event: &str, data: &str) -> String {
    format!("EVENT_JSON:{{\"standard\":\"nep141\",\"version\":\"1.0.0\",\"event\":\"{}\",\"data\":[{}]}}", event, data)
}

fn mint(owner: &str, amount: &str) -> String {
    ft_log("ft_mint", &format!("{{\"owner_id\":\"{}\",\"amount\":\"{}\"}}", owner, amount))
}

fn transfer(from: &str, to: &str, amount: &str) -> String {
    ft_log("ft_transfer", &format!("{{\"old_owner_id\":\"{}\",\"new_owner_id\":\"{}\",\"amount\":\"{}\"}}", from, to, amount))
}

fn burn(owner: &str, amount: &str) -> String {
    ft_log("ft_burn", &format!("{{\"owner_id\":\"{}\",\"amount\":\"{}\"}}", owner, amount))
}

fn header() -> BlockHeader {
    BlockHeader { height: 7, hash: "h".to_string(), prev_hash: "g".to_string(), timestamp: 3_000_000 }
}

fn built_rows(shards: &Vec<Shard>, prior: PriorBalance) -> (Vec<CoinEventRow>, ContractSet, BalanceCache) {
    let h = header();
    let mut known = ContractSet::new();
    let mut cache = BalanceCache::new(1000);
    let events = collect_block_events(shards, &known).unwrap();
    let (mut bal, missing) = plan_priors(&mut cache, &events);
    for req in &missing {
        add_prior(&mut bal, req, prior);
    }
    let rows = build_events(&mut bal, &events, &mut known, h.height, h.timestamp).unwrap();
    cache.store_all(&bal);
    (rows, known, cache)
}

fn describe(rows: &Vec<CoinEventRow>) -> Vec<String> {
    rows.iter().map(|r| format!("{:?}", r)).collect()
}

#[test]
fn replaying_a_block_gives_identical_rows() {
    let shards = vec![
        Shard { shard_id: 0, outcomes: vec![receipt("R1", "c.near", mint("a.near", "9")), receipt("R2", "c.near", transfer("a.near", "b.near", "4"))] },
        Shard { shard_id: 1, outcomes: vec![receipt("R3", "d.near", burn("a.near", "1"))] },
    ];
    let (r1, _, mut c1) = built_rows(&shards, PriorBalance::Balance(1));
    let (r2, _, mut c2) = built_rows(&shards, PriorBalance::Balance(1));
    let i1 = assign_indices(&r1, 3_000_000);
    let i2 = assign_indices(&r2, 3_000_000);
    assert_eq!(describe(&i1), describe(&i2));
    for (a, c) in [("a.near", "c.near"), ("b.near", "c.near"), ("a.near", "d.near")] {
        assert_eq!(c1.get(&a.to_string(), &c.to_string()), c2.get(&a.to_string(), &c.to_string()));
    }
    assert_eq!(c1.get(&"a.near".to_string(), &"c.near".to_string()), Some(6));
    assert_eq!(c1.get(&"a.near".to_string(), &"d.near".to_string()), Some(0));
}

#[test]
fn folding_deltas_gives_absolute_amounts() {
    let shards = vec![Shard {
        shard_id: 0,
        outcomes: vec![
            receipt("R1", "c.near", mint("a.near", "10")),
            receipt("R2", "c.near", transfer("a.near", "b.near", "3")),
            receipt("R3", "c.near", burn("a.near", "2")),
            receipt("R4", "c.near", transfer("b.near", "a.near", "1")),
        ],
    }];
    let (rows, _, _) = built_rows(&shards, PriorBalance::Balance(5));
    let absolutes: Vec<u128> = rows.iter().map(|r| r.absolute_amount).collect();
    assert_eq!(absolutes, vec![15, 12, 8, 10, 7, 11]);
}

#[test]
fn zero_deltas_are_dropped() {
    let shards = vec![Shard {
        shard_id: 0,
        outcomes: vec![receipt("R1", "c.near", transfer("a.near", "b.near", "0")), receipt("R2", "c.near", mint("a.near", "0"))],
    }];
    let (rows, _, _) = built_rows(&shards, PriorBalance::Balance(5));
    assert_eq!(rows.len(), 2);
    assert!(filter_zero_delta(&rows).is_empty());
}

#[test]
fn absent_contract_before_block_counts_as_zero() {
    let shards = vec![Shard { shard_id: 0, outcomes: vec![receipt("R1", "c.near", mint("a.near", "10"))] }];
    let (rows, known, _) = built_rows(&shards, PriorBalance::ContractAbsent);
    assert_eq!(rows[0].absolute_amount, 10);
    assert!(!known.contains(&"c.near".to_string()));
}

#[test]
fn absent_contract_at_end_of_block_is_inconsistent() {
    let shards = vec![Shard { shard_id: 0, outcomes: vec![receipt("R1", "c.near", mint("a.near", "10"))] }];
    let (rows, mut known, _) = built_rows(&shards, PriorBalance::Balance(0));
    let flags = consistency_checks(&rows, &known);
    assert_eq!(flags, vec![true]);
    let settled = settle(&rows, &mut known, &vec![EndBalance::ContractAbsent], 3_000_000).unwrap();
    assert!(settled.rows.is_empty());
    assert!(known.contains(&"c.near".to_string()));
}

#[test]
fn negative_balance_marks_contract() {
    let shards = vec![Shard { shard_id: 0, outcomes: vec![receipt("R1", "c.near", burn("a.near", "10"))] }];
    let (rows, known, mut cache) = built_rows(&shards, PriorBalance::Balance(3));
    assert_eq!(rows[0].absolute_amount, 0);
    assert!(known.contains(&"c.near".to_string()));
    assert_eq!(cache.get(&"a.near".to_string(), &"c.near".to_string()), Some(0));
}

#[test]
fn only_the_last_change_of_an_account_is_checked() {
    let shards = vec![Shard {
        shard_id: 0,
        outcomes: vec![receipt("R1", "c.near", mint("a.near", "10")), receipt("R2", "d.near", mint("a.near", "1"))],
    }];
    let (rows, mut known, _) = built_rows(&shards, PriorBalance::Balance(0));
    assert_eq!(consistency_checks(&rows, &known), vec![false, true]);
    assert!(settle(&rows, &mut known, &vec![EndBalance::NotAsked, EndBalance::NotAsked], 3_000_000).is_none());
    assert!(settle(&rows, &mut known, &vec![EndBalance::NotAsked], 3_000_000).is_none());
    let settled = settle(&rows, &mut known, &vec![EndBalance::NotAsked, EndBalance::Balance(1)], 3_000_000).unwrap();
    assert_eq!(settled.rows.len(), 2);
}

#[test]
fn indices_increase_within_shard_and_family() {
    let shards = vec![
        Shard { shard_id: 0, outcomes: vec![receipt("R1", "c.near", mint("a.near", "1")), receipt("R2", "c.near", mint("b.near", "2"))] },
        Shard { shard_id: 5, outcomes: vec![receipt("R3", "c.near", mint("e.near", "3"))] },
    ];
    let (rows, _, _) = built_rows(&shards, PriorBalance::Balance(0));
    let rows = assign_indices(&rows, 3_000_000);
    let base: u128 = 3 * 10_000_000_000_000_000_000_000 + 10_000;
    assert_eq!(rows[0].event_index, base);
    assert_eq!(rows[1].event_index, base + 1);
    assert_eq!(rows[2].event_index, base + 5 * 10_000_000);
}

#[test]
fn new_contracts_are_registered_once() {
    let shards = vec![Shard {
        shard_id: 0,
        outcomes: vec![
            receipt("R1", "c.near", mint("a.near", "1")),
            receipt("R2", "d.near", mint("a.near", "1")),
            receipt("R3", "c.near", mint("b.near", "1")),
        ],
    }];
    let (rows, _, _) = built_rows(&shards, PriorBalance::Balance(0));
    let records = contract_records(&rows, None, 7, 3_000_000);
    let ids: Vec<&str> = records.iter().map(|r| r.contract_account_id.as_str()).collect();
    assert_eq!(ids, vec!["c.near", "d.near"]);
    assert_eq!(records[0].first_event_at_block_height, 7);
    assert_eq!(records[0].inconsistency_found_at_block_height, None);
}

#[test]
fn priors_come_from_cache_or_are_requested_once() {
    let shards = vec![Shard {
        shard_id: 0,
        outcomes: vec![
            receipt("R1", "c.near", mint("a.near", "1")),
            receipt("R2", "c.near", mint("a.near", "2")),
            receipt("R3", "c.near", mint("b.near", "1")),
        ],
    }];
    let events = collect_block_events(&shards, &ContractSet::new()).unwrap();
    let mut cache = BalanceCache::new(10);
    cache.set(&"b.near".to_string(), &"c.near".to_string(), 40);
    let (bal, missing) = plan_priors(&mut cache, &events);
    assert_eq!(missing.len(), 1);
    assert_eq!(missing[0].account_id, "a.near");
    assert_eq!(bal.get(&"b.near".to_string(), &"c.near".to_string()), Some(40));
    let empty = Balances::new();
    assert_eq!(empty.get(&"b.near".to_string(), &"c.near".to_string()), None);
}

#[test]
fn cache_evicts_least_recently_used() {
    let mut cache = BalanceCache::new(2);
    let c = "c.near".to_string();
    cache.set(&"a".to_string(), &c, 1);
    cache.set(&"b".to_string(), &c, 2);
    assert_eq!(cache.get(&"a".to_string(), &c), Some(1));
    cache.set(&"d".to_string(), &c, 3);
    assert_eq!(cache.get(&"b".to_string(), &c), None);
    assert_eq!(cache.get(&"a".to_string(), &c), Some(1));
    assert_eq!(cache.get(&"d".to_string(), &c), Some(3));
}
