use indexer_events::block::{Action, BlockHeader, FunctionCall, ReceiptOutcome, Shard};
use indexer_events::cache::BalanceCache;
use indexer_events::contracts::ContractSet;
use indexer_events::event::{Cause, ExecutionStatus, StatusLabel};
use indexer_events::pipeline::{begin_block, contract_records, finish_block, give_priors, BlockError, PriorBalance};
use indexer_events::reconcile::{EndBalance, Settled};

const T: u64 = 1_700_000_000_000_000_000;
const MS: u128 = 1_700_000_000_000;
const TIME: u128 = 10_000_000_000_000_000_000_000;

fn header(height: u64, timestamp: u64) -> BlockHeader {
    BlockHeader { height, hash: format!("cur{}", height), prev_hash: format!("prev{}", height), timestamp }
}

fn nep141_receipt(id: &str, contract: &str, log: &str, status: ExecutionStatus) -> ReceiptOutcome {
    ReceiptOutcome {
        receipt_id: id.to_string(),
        predecessor_id: "a.near".to_string(),
        receiver_id: contract.to_string(),
        executor_id: contract.to_string(),
        actions: vec![],
        logs: vec![log.to_string()],
        status,
    }
}

fn mint_log(owner: &str, amount: &str) -> String {
    format!(
        "EVENT_JSON:{{\"standard\":\"nep141\",\"version\":\"1.0.0\",\"event\":\"ft_mint\",\"data\":[{{\"owner_id\":\"{}\",\"amount\":\"{}\"}}]}}",
        owner, amount
    )
}

fn transfer_log(from: &str, to: &str, amount: &str) -> String {
    format!(
        "EVENT_JSON:{{\"standard\":\"nep141\",\"version\":\"1.0.0\",\"event\":\"ft_transfer\",\"data\":[{{\"old_owner_id\":\"{}\",\"new_owner_id\":\"{}\",\"amount\":\"{}\"}}]}}",
        from, to, amount
    )
}

fn success() -> ExecutionStatus {
    ExecutionStatus::SuccessValue(String::new())
}

fn run_block(
    h: &BlockHeader,
    shards: &Vec<Shard>,
    cache: &mut BalanceCache,
    known: &mut ContractSet,
    prior: &dyn Fn(&str, &str) -> PriorBalance,
    end: &dyn Fn(&str, &str) -> EndBalance,
) -> (Settled, Vec<indexer_events::pipeline::ContractRecord>) {
    let mut run = begin_block(h, shards, cache, known).expect("block decodes");
    let priors: Vec<PriorBalance> = run.requests.iter().map(|r| prior(&r.account_id, &r.contract_account_id)).collect();
    give_priors(&mut run, &priors, cache, known).expect("priors known");
    let answers: Vec<EndBalance> = run
        .rows
        .iter()
        .zip(run.checks.iter())
        .map(|(r, f)| if *f { end(&r.affected_account_id, &r.contract_account_id) } else { EndBalance::NotAsked })
        .collect();
    let settled = finish_block(&run, known, &answers).expect("answers complete");
    let records = contract_records(&run.rows, Some(&settled.newly_inconsistent), h.height, h.timestamp);
    (settled, records)
}

fn zero_prior(_: &str, _: &str) -> PriorBalance {
    PriorBalance::Balance(0)
}

#[test]
fn simple_mint_is_one_row() {
    let h = header(100, T);
    let shards = vec![Shard {
        shard_id: 0,
        outcomes: vec![nep141_receipt("R1", "c.near", &mint_log("a.near", "100"), success())],
    }];
    let mut cache = BalanceCache::new(100_000);
    let mut known = ContractSet::new();
    let end = |a: &str, _: &str| if a == "a.near" { EndBalance::Balance(100) } else { EndBalance::Balance(0) };
    let (settled, records) = run_block(&h, &shards, &mut cache, &mut known, &zero_prior, &end);
    assert_eq!(settled.rows.len(), 1);
    let row = &settled.rows[0];
    assert_eq!(row.absolute_amount, 100);
    assert!(!row.delta_amount.negative);
    assert_eq!(row.delta_amount.digits, "100");
    assert_eq!(row.cause, Cause::Mint);
    assert_eq!(row.cause.as_str(), "MINT");
    assert_eq!(row.status, StatusLabel::Success);
    assert_eq!(row.event_index, MS * TIME + 0 * 10_000_000 + 1 * 10_000 + 0);
    assert_eq!(row.receipt_id, "R1");
    assert_eq!(row.standard.as_str(), "FT_NEP141");
    assert!(records.is_empty());
}

fn mint_and_transfer_shards() -> Vec<Shard> {
    vec![Shard {
        shard_id: 0,
        outcomes: vec![
            nep141_receipt("R1", "c.near", &mint_log("a.near", "100"), success()),
            nep141_receipt("R2", "c.near", &transfer_log("a.near", "b.near", "40"), success()),
        ],
    }]
}

#[test]
fn transfer_is_two_rows() {
    let h = header(100, T);
    let shards = mint_and_transfer_shards();
    let mut cache = BalanceCache::new(100_000);
    let mut known = ContractSet::new();
    let end = |a: &str, _: &str| match a {
        "a.near" => EndBalance::Balance(60),
        "b.near" => EndBalance::Balance(40),
        _ => EndBalance::Balance(0),
    };
    let (settled, _) = run_block(&h, &shards, &mut cache, &mut known, &zero_prior, &end);
    assert_eq!(settled.rows.len(), 3);
    let sender = &settled.rows[1];
    let receiver = &settled.rows[2];
    assert_eq!(sender.affected_account_id, "a.near");
    assert!(sender.delta_amount.negative);
    assert_eq!(sender.delta_amount.digits, "40");
    assert_eq!(sender.absolute_amount, 60);
    assert_eq!(receiver.affected_account_id, "b.near");
    assert!(!receiver.delta_amount.negative);
    assert_eq!(receiver.delta_amount.digits, "40");
    assert_eq!(receiver.absolute_amount, 40);
    assert_eq!(sender.receipt_id, receiver.receipt_id);
    assert_eq!(sender.involved_account_id.as_deref(), Some("b.near"));
    assert_eq!(receiver.involved_account_id.as_deref(), Some("a.near"));
    assert_eq!(sender.event_index, MS * TIME + 10_000 + 1);
    assert_eq!(receiver.event_index, MS * TIME + 10_000 + 2);
}

#[test]
fn inconsistency_drops_contract() {
    let h = header(100, T);
    let shards = mint_and_transfer_shards();
    let mut cache = BalanceCache::new(100_000);
    let mut known = ContractSet::new();
    let end = |a: &str, _: &str| match a {
        "a.near" => EndBalance::Balance(50),
        "b.near" => EndBalance::Balance(40),
        _ => EndBalance::Balance(0),
    };
    let (settled, records) = run_block(&h, &shards, &mut cache, &mut known, &zero_prior, &end);
    assert!(settled.rows.is_empty());
    assert!(known.contains(&"c.near".to_string()));
    assert!(settled.newly_inconsistent.contains(&"c.near".to_string()));
    assert_eq!(records.len(), 1);
    assert_eq!(records[0].contract_account_id, "c.near");
    assert_eq!(records[0].inconsistency_found_at_timestamp, Some(T));
    assert_eq!(records[0].inconsistency_found_at_block_height, Some(100));

    // a later block of the same contract yields nothing
    let h2 = header(101, T + 1_000_000_000);
    let later = vec![Shard {
        shard_id: 0,
        outcomes: vec![nep141_receipt("R9", "c.near", &mint_log("z.near", "5"), success())],
    }];
    let any_end = |_: &str, _: &str| EndBalance::Balance(5);
    let (settled2, _) = run_block(&h2, &later, &mut cache, &mut known, &zero_prior, &any_end);
    assert!(settled2.rows.is_empty());
}

#[test]
fn failed_receipt_keeps_balances() {
    let h = header(100, T);
    let shards = vec![Shard {
        shard_id: 0,
        outcomes: vec![nep141_receipt("R3", "c.near", &transfer_log("a.near", "b.near", "10"), ExecutionStatus::Failure)],
    }];
    let mut cache = BalanceCache::new(100_000);
    cache.set(&"a.near".to_string(), &"c.near".to_string(), 60);
    cache.set(&"b.near".to_string(), &"c.near".to_string(), 40);
    let mut known = ContractSet::new();
    let no_prior = |_: &str, _: &str| -> PriorBalance { panic!("cache holds both balances") };
    let end = |a: &str, _: &str| match a {
        "a.near" => EndBalance::Balance(60),
        _ => EndBalance::Balance(40),
    };
    let (settled, _) = run_block(&h, &shards, &mut cache, &mut known, &no_prior, &end);
    assert_eq!(settled.rows.len(), 2);
    assert_eq!(settled.rows[0].status, StatusLabel::Failure);
    assert_eq!(settled.rows[0].status.as_str(), "FAILURE");
    assert_eq!(settled.rows[1].status, StatusLabel::Failure);
    assert_eq!(settled.rows[0].absolute_amount, 60);
    assert_eq!(settled.rows[1].absolute_amount, 40);
    assert!(settled.rows[0].delta_amount.negative);
    assert_eq!(settled.rows[0].delta_amount.digits, "10");
    assert!(!settled.rows[1].delta_amount.negative);
    assert_eq!(settled.rows[1].delta_amount.digits, "10");
}

#[test]
fn legacy_near_deposit_mints() {
    let h = header(100, T);
    let rc = ReceiptOutcome {
        receipt_id: "R5".to_string(),
        predecessor_id: "u.near".to_string(),
        receiver_id: "wrap.near".to_string(),
        executor_id: "wrap.near".to_string(),
        actions: vec![Action::FunctionCall(FunctionCall {
            method_name: "near_deposit".to_string(),
            args: base64::encode("{}"),
            deposit: 1_000_000_000_000_000_000_000_000,
        })],
        logs: vec![],
        status: success(),
    };
    let shards = vec![Shard { shard_id: 0, outcomes: vec![rc] }];
    let mut cache = BalanceCache::new(100_000);
    let mut known = ContractSet::new();
    let prior = |_: &str, _: &str| PriorBalance::Balance(5);
    let end = |_: &str, _: &str| EndBalance::Balance(1_000_000_000_000_000_000_000_005);
    let (settled, _) = run_block(&h, &shards, &mut cache, &mut known, &prior, &end);
    assert_eq!(settled.rows.len(), 1);
    let row = &settled.rows[0];
    assert_eq!(row.cause, Cause::Mint);
    assert_eq!(row.affected_account_id, "u.near");
    assert_eq!(row.contract_account_id, "wrap.near");
    assert_eq!(row.delta_amount.digits, "1000000000000000000000000");
    assert_eq!(row.absolute_amount, 1_000_000_000_000_000_000_000_005);
    assert_eq!(row.standard.as_str(), "FT_LEGACY");
    assert_eq!(row.event_index, MS * TIME + 6 * 10_000);
}

#[test]
fn out_of_range_amount_marks_contract() {
    let h = header(100, T);
    let shards = vec![Shard {
        shard_id: 0,
        outcomes: vec![nep141_receipt("R6", "c.near", &mint_log("a.near", "10"), success())],
    }];
    let mut cache = BalanceCache::new(100_000);
    let mut known = ContractSet::new();
    let prior = |_: &str, _: &str| PriorBalance::Balance(u128::MAX - 1);
    let end = |_: &str, _: &str| EndBalance::Balance(u128::MAX - 1);
    let (settled, records) = run_block(&h, &shards, &mut cache, &mut known, &prior, &end);
    assert!(settled.rows.is_empty());
    assert!(known.contains(&"c.near".to_string()));
    assert_eq!(records.len(), 1);
    // the cache holds the sentinel the row carries
    assert_eq!(cache.get(&"a.near".to_string(), &"c.near".to_string()), Some(0));
}

#[test]
fn answers_must_match_requests() {
    let h = header(100, T);
    let shards = vec![Shard {
        shard_id: 0,
        outcomes: vec![nep141_receipt("R1", "c.near", &mint_log("a.near", "100"), success())],
    }];
    let mut cache = BalanceCache::new(10);
    let mut known = ContractSet::new();
    let mut run = begin_block(&h, &shards, &mut cache, &known).unwrap();
    assert_eq!(run.requests.len(), 1);
    assert_eq!(give_priors(&mut run, &vec![], &mut cache, &mut known).unwrap_err(), BlockError::MissingAnswers);
    give_priors(&mut run, &vec![PriorBalance::Balance(1)], &mut cache, &mut known).unwrap();
    assert_eq!(run.checks, vec![true]);
    assert_eq!(finish_block(&run, &mut known, &vec![EndBalance::NotAsked]).unwrap_err(), BlockError::MissingAnswers);
    let settled = finish_block(&run, &mut known, &vec![EndBalance::Balance(101)]).unwrap();
    assert_eq!(settled.rows[0].absolute_amount, 101);
    assert_eq!(cache.get(&"a.near".to_string(), &"c.near".to_string()), Some(101));
}
