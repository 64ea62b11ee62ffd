use indexer_events::amount::Amount;
use indexer_events::block::{Action, FunctionCall, ReceiptOutcome, Shard};
use indexer_events::collect::{collect_block_events, push_receipt_events};
use indexer_events::contracts::ContractSet;
use indexer_events::event::{Cause, ExecutionStatus, StatusLabel};
use indexer_events::index::{compose_db_index, EventKind};
use indexer_events::nep::{event_payloads, read_standard_event, read_text_field, DecodeError, StandardEvent};
use indexer_events::nft::collect_block_nft_rows;
use indexer_events::token::escape_memo;

fn call(method: &str, args: &[u8], deposit: u128) -> Action {
    Action::FunctionCall(FunctionCall { method_name: method.to_string(), args: base64::encode(args), deposit })
}

fn legacy_receipt(executor: &str, predecessor: &str, actions: Vec<Action>, logs: Vec<&str>, status: ExecutionStatus) -> ReceiptOutcome {
    ReceiptOutcome {
        receipt_id: "RX".to_string(),
        predecessor_id: predecessor.to_string(),
        receiver_id: executor.to_string(),
        executor_id: executor.to_string(),
        actions,
        logs: logs.into_iter().map(|l| l.to_string()).collect(),
        status,
    }
}

fn one_shard(rc: ReceiptOutcome) -> Vec<Shard> {
    vec![Shard { shard_id: 2, outcomes: vec![rc] }]
}

fn ok() -> ExecutionStatus {
    ExecutionStatus::SuccessReceiptId
}

#[test]
fn amounts_parse_only_canonical_decimals() {
    assert_eq!(Amount::parse_unsigned("123").unwrap().digits, "123");
    assert!(Amount::parse_unsigned("0").is_some());
    assert!(Amount::parse_unsigned("007").is_none());
    assert!(Amount::parse_unsigned("").is_none());
    assert!(Amount::parse_unsigned("1.5").is_none());
    assert!(Amount::parse_unsigned("-1").is_none());
    assert!(Amount::parse_unsigned("12a").is_none());
}

#[test]
fn amounts_beyond_u128_are_kept_exactly() {
    let max = Amount::parse_unsigned("340282366920938463463374607431768211455").unwrap();
    assert_eq!(max.magnitude_u128(), Some(u128::MAX));
    let over = Amount::parse_unsigned("340282366920938463463374607431768211456").unwrap();
    assert_eq!(over.magnitude_u128(), None);
    assert_eq!(over.add_to(0), None);
    assert_eq!(over.negated().add_to(u128::MAX), None);
}

#[test]
fn amounts_from_integers_and_arithmetic() {
    assert_eq!(Amount::from_u128(1234).digits, "1234");
    assert_eq!(Amount::from_u128(0).digits, "0");
    assert!(Amount::from_u128(0).is_zero());
    assert!(!Amount::from_u128(0).negated().negative);
    let ten = Amount::from_u128(10);
    assert_eq!(ten.add_to(5), Some(15));
    assert_eq!(ten.negated().add_to(5), None);
    assert_eq!(ten.negated().add_to(15), Some(5));
    assert_eq!(ten.add_to(u128::MAX - 9), None);
    let d = Amount::from_u128(5).minus(&Amount::from_u128(7));
    assert!(d.negative);
    assert_eq!(d.digits, "2");
    assert_eq!(Amount::from_u128(7).minus(&Amount::from_u128(7)).digits, "0");
    let big = Amount::parse_unsigned("1000000000000000000000000000000000000000000").unwrap();
    let e = big.minus(&Amount::from_u128(1));
    assert!(!e.negative);
    assert_eq!(e.digits, "999999999999999999999999999999999999999999");
}

#[test]
fn index_formula_windows() {
    let idx = compose_db_index(1_700_000_000_123_456_789, 3, EventKind::Aurora, 42);
    assert_eq!(idx, 1_700_000_000_123u128 * 10_000_000_000_000_000_000_000 + 3 * 10_000_000 + 7 * 10_000 + 42);
    assert_eq!(EventKind::Nep171.tag(), 2);
    assert_eq!(EventKind::Skyward.tag(), 8);
}

#[test]
fn standard_lines_are_found_and_trimmed() {
    let logs = vec![
        "  EVENT_JSON:  {\"a\":1}  ".to_string(),
        "plain log".to_string(),
        "EVENT_JSONx".to_string(),
    ];
    let ps = event_payloads(&logs);
    assert_eq!(ps, vec!["{\"a\":1}"]);
}

#[test]
fn json_fields_read_strings_and_numbers() {
    let doc = br#"{"amount": 12, "memo": "m", "flag": true}"#;
    assert_eq!(read_text_field(doc, "amount").as_deref(), Some("12"));
    assert_eq!(read_text_field(doc, "memo").as_deref(), Some("m"));
    assert_eq!(read_text_field(doc, "flag"), None);
    assert_eq!(read_text_field(doc, "missing"), None);
    assert_eq!(read_text_field(b"not json", "amount"), None);
}

#[test]
fn nft_event_is_decoded_per_record() {
    let doc = br#"{"standard":"nep171","version":"1.0.0","event":"nft_transfer","data":[{"old_owner_id":"o.near","new_owner_id":"n.near","token_ids":["t1","t2"],"authorized_id":"z.near"}]}"#;
    match read_standard_event(doc) {
        Some(StandardEvent::Nft(cause, items)) => {
            assert_eq!(cause, Cause::Transfer);
            assert_eq!(items.len(), 1);
            assert_eq!(items[0].owner_id, "o.near");
            assert_eq!(items[0].new_owner_id.as_deref(), Some("n.near"));
            assert_eq!(items[0].token_ids, vec!["t1".to_string(), "t2".to_string()]);
            assert_eq!(items[0].authorized_id.as_deref(), Some("z.near"));
        },
        other => panic!("unexpected {:?}", other),
    }
    assert!(read_standard_event(br#"{"standard":"nep999","event":"ft_mint","data":[]}"#).is_none());
}

#[test]
fn memos_are_escaped() {
    let m = Some("a\"b\n".to_string());
    assert_eq!(escape_memo(&m).as_deref(), Some("a\\\"b\\n"));
    assert_eq!(escape_memo(&None), None);
}

#[test]
fn nft_rows_one_per_token() {
    let log = r#"EVENT_JSON:{"standard":"nep171","version":"1.0.0","event":"nft_transfer","data":[{"old_owner_id":"o.near","new_owner_id":"n.near","token_ids":["t1","t2"]}]}"#;
    let rc = ReceiptOutcome {
        receipt_id: "RN".to_string(),
        predecessor_id: "o.near".to_string(),
        receiver_id: "nft.near".to_string(),
        executor_id: "nft.near".to_string(),
        actions: vec![],
        logs: vec![log.to_string()],
        status: ok(),
    };
    let rows = collect_block_nft_rows(&one_shard(rc), 5_000_000);
    assert_eq!(rows.len(), 2);
    assert_eq!(rows[0].token_id, "t1");
    assert_eq!(rows[1].token_id, "t2");
    assert_eq!(rows[0].event_index, 5 * 10_000_000_000_000_000_000_000 + 2 * 10_000_000 + 2 * 10_000);
    assert_eq!(rows[1].event_index, rows[0].event_index + 1);
    assert_eq!(rows[0].old_owner_account_id.as_deref(), Some("o.near"));
    assert_eq!(rows[0].new_owner_account_id.as_deref(), Some("n.near"));
    assert_eq!(rows[0].contract_account_id, "nft.near");
    assert_eq!(rows[0].status, StatusLabel::Success);
}

#[test]
fn aurora_finish_deposit_mints_per_log() {
    let rc = legacy_receipt(
        "aurora",
        "bridge.near",
        vec![call("finish_deposit", b"\x01\x02", 0)],
        vec!["Mint 25 nETH tokens for: x.near", "Mint 0 nETH tokens for: y.near", "unrelated"],
        ok(),
    );
    let es = collect_block_events(&one_shard(rc), &ContractSet::new()).unwrap();
    assert_eq!(es.len(), 1);
    assert_eq!(es[0].affected_id, "x.near");
    assert_eq!(es[0].delta.digits, "25");
    assert_eq!(es[0].cause, Cause::Mint);
    assert_eq!(es[0].kind, EventKind::Aurora);
    assert_eq!(es[0].contract_id, "aurora");
    assert_eq!(es[0].shard_id, 2);
}

#[test]
fn aurora_withdraw_reads_binary_amount() {
    let mut args = vec![7u8; 20];
    args.extend_from_slice(&1000u128.to_le_bytes());
    let rc = legacy_receipt("aurora", "w.near", vec![call("withdraw", &args, 0)], vec![], ok());
    let es = collect_block_events(&one_shard(rc), &ContractSet::new()).unwrap();
    assert_eq!(es.len(), 1);
    assert_eq!(es[0].affected_id, "w.near");
    assert!(es[0].delta.negative);
    assert_eq!(es[0].delta.digits, "1000");
    assert_eq!(es[0].cause, Cause::Burn);
    let short = legacy_receipt("aurora", "w.near", vec![call("withdraw", &[1u8; 10], 0)], vec![], ok());
    assert_eq!(collect_block_events(&one_shard(short), &ContractSet::new()).unwrap_err(), DecodeError::BadArguments);
}

#[test]
fn aurora_refund_log_moves_back() {
    let rc = legacy_receipt(
        "aurora",
        "aurora",
        vec![call("ft_resolve_transfer", b"{}", 0)],
        vec!["Refund amount 7 from p.near to q.near"],
        ok(),
    );
    let es = collect_block_events(&one_shard(rc), &ContractSet::new()).unwrap();
    assert_eq!(es.len(), 2);
    assert_eq!(es[0].affected_id, "p.near");
    assert!(es[0].delta.negative);
    assert_eq!(es[1].affected_id, "q.near");
    assert!(!es[1].delta.negative);
    assert_eq!(es[1].delta.digits, "7");
}

#[test]
fn skyward_new_mints_supply_from_zero() {
    let rc = legacy_receipt(
        "token.skyward.near",
        "deployer.near",
        vec![call("new", br#"{"owner_id":"owner.near","total_supply":"1000"}"#, 0)],
        vec![],
        ok(),
    );
    let es = collect_block_events(&one_shard(rc), &ContractSet::new()).unwrap();
    assert_eq!(es.len(), 1);
    assert!(es[0].fresh_account);
    assert_eq!(es[0].affected_id, "owner.near");
    assert_eq!(es[0].delta.digits, "1000");
    assert_eq!(es[0].kind, EventKind::Skyward);
}

#[test]
fn skyward_refund_subtracts_used_amount() {
    let rc = legacy_receipt(
        "token.skyward.near",
        "token.skyward.near",
        vec![call("ft_resolve_transfer", br#"{"sender_id":"s.near","receiver_id":"r.near","amount":"10"}"#, 0)],
        vec!["Refund 7 from r.near to s.near"],
        ExecutionStatus::SuccessValue(base64::encode("\"3\"")),
    );
    let es = collect_block_events(&one_shard(rc), &ContractSet::new()).unwrap();
    assert_eq!(es.len(), 2);
    assert_eq!(es[0].affected_id, "r.near");
    assert!(es[0].delta.negative);
    assert_eq!(es[0].delta.digits, "7");
    assert_eq!(es[1].affected_id, "s.near");
    assert_eq!(es[1].delta.digits, "7");
}

#[test]
fn wrap_near_transfer_and_withdraw() {
    let rc = legacy_receipt(
        "wrap.near",
        "alice.near",
        vec![
            call("ft_transfer", br#"{"receiver_id":"bob.near","amount":"5","memo":"hi"}"#, 1),
            call("near_withdraw", br#"{"amount":"2"}"#, 1),
            call("storage_deposit", b"{}", 1),
            call("something_else", b"{}", 1),
        ],
        vec![],
        ok(),
    );
    let es = collect_block_events(&one_shard(rc), &ContractSet::new()).unwrap();
    assert_eq!(es.len(), 3);
    assert_eq!(es[0].affected_id, "alice.near");
    assert!(es[0].delta.negative);
    assert_eq!(es[0].memo.as_deref(), Some("hi"));
    assert_eq!(es[1].affected_id, "bob.near");
    assert_eq!(es[1].involved_id.as_deref(), Some("alice.near"));
    assert_eq!(es[2].cause, Cause::Burn);
    assert_eq!(es[2].delta.digits, "2");
}

#[test]
fn wrap_near_refund_when_sender_deleted_burns() {
    let rc = legacy_receipt(
        "wrap.near",
        "wrap.near",
        vec![call("ft_resolve_transfer", br#"{"sender_id":"s.near","receiver_id":"r.near","amount":"4"}"#, 0)],
        vec!["The account of the sender was deleted"],
        ok(),
    );
    let es = collect_block_events(&one_shard(rc), &ContractSet::new()).unwrap();
    assert_eq!(es.len(), 1);
    assert_eq!(es[0].affected_id, "r.near");
    assert_eq!(es[0].cause, Cause::Burn);
    assert!(es[0].delta.negative);
}

#[test]
fn unreadable_arguments_depend_on_status() {
    let failed = legacy_receipt("wrap.near", "a.near", vec![call("ft_transfer", b"garbage", 0)], vec![], ExecutionStatus::Failure);
    assert_eq!(collect_block_events(&one_shard(failed), &ContractSet::new()).unwrap().len(), 0);
    let succeeded = legacy_receipt("wrap.near", "a.near", vec![call("ft_transfer", b"garbage", 0)], vec![], ok());
    assert_eq!(collect_block_events(&one_shard(succeeded), &ContractSet::new()).unwrap_err(), DecodeError::BadArguments);
    let bad_amount = legacy_receipt("wrap.near", "a.near", vec![call("ft_transfer", br#"{"receiver_id":"b.near","amount":"1.5"}"#, 0)], vec![], ok());
    assert_eq!(collect_block_events(&one_shard(bad_amount), &ContractSet::new()).unwrap_err(), DecodeError::BadAmount);
}

#[test]
fn malformed_base64_is_an_error() {
    let mut rc = legacy_receipt("wrap.near", "a.near", vec![], vec![], ok());
    rc.actions = vec![Action::FunctionCall(FunctionCall { method_name: "near_deposit".to_string(), args: "%%%".to_string(), deposit: 1 })];
    assert_eq!(collect_block_events(&one_shard(rc), &ContractSet::new()).unwrap_err(), DecodeError::BadBase64);
}

#[test]
fn receipts_with_standard_lines_skip_adapters() {
    let log = r#"EVENT_JSON:{"standard":"nep141","version":"1.0.0","event":"ft_burn","data":[{"owner_id":"a.near","amount":"3"}]}"#;
    let rc = legacy_receipt("wrap.near", "a.near", vec![call("near_deposit", b"{}", 9)], vec![log], ok());
    let es = collect_block_events(&one_shard(rc), &ContractSet::new()).unwrap();
    assert_eq!(es.len(), 1);
    assert_eq!(es[0].cause, Cause::Burn);
    assert_eq!(es[0].kind, EventKind::Nep141);
}

#[test]
fn known_inconsistent_contracts_are_skipped() {
    let log = r#"EVENT_JSON:{"standard":"nep141","version":"1.0.0","event":"ft_mint","data":[{"owner_id":"a.near","amount":"3"}]}"#;
    let rc = legacy_receipt("c.near", "a.near", vec![], vec![log], ok());
    let mut known = ContractSet::new();
    known.insert(&"c.near".to_string());
    assert!(collect_block_events(&one_shard(rc), &known).unwrap().is_empty());
}

#[test]
fn skyward_refund_of_amounts_beyond_u128() {
    let rc = legacy_receipt(
        "token.skyward.near",
        "token.skyward.near",
        vec![call(
            "ft_resolve_transfer",
            br#"{"sender_id":"s.near","receiver_id":"r.near","amount":"500000000000000000000000000000000000000000"}"#,
            0,
        )],
        vec!["Refund 1 from r.near to s.near"],
        ExecutionStatus::SuccessValue(base64::encode("\"400000000000000000000000000000000000000000\"")),
    );
    let es = collect_block_events(&one_shard(rc), &ContractSet::new()).unwrap();
    assert_eq!(es.len(), 2);
    assert!(es[0].delta.negative);
    assert_eq!(es[0].delta.digits, "100000000000000000000000000000000000000000");
    assert_eq!(es[1].delta.digits, "100000000000000000000000000000000000000000");
}

#[test]
fn bare_integer_amounts_beyond_u64_are_exact() {
    let rc = legacy_receipt(
        "wrap.near",
        "alice.near",
        vec![call("ft_transfer", br#"{"receiver_id":"bob.near","amount":1000000000000000000000000}"#, 1)],
        vec![],
        ok(),
    );
    let es = collect_block_events(&one_shard(rc), &ContractSet::new()).unwrap();
    assert_eq!(es.len(), 2);
    assert_eq!(es[1].delta.digits, "1000000000000000000000000");
}

#[test]
fn failed_decoding_leaves_events_unchanged() {
    let rc = legacy_receipt(
        "wrap.near",
        "alice.near",
        vec![call("near_deposit", b"{}", 3), call("ft_transfer", b"garbage", 0)],
        vec![],
        ok(),
    );
    let mut out = Vec::new();
    let first = legacy_receipt("wrap.near", "u.near", vec![call("near_deposit", b"{}", 1)], vec![], ok());
    push_receipt_events(&mut out, 0, &first, &ContractSet::new()).unwrap();
    assert_eq!(out.len(), 1);
    assert_eq!(push_receipt_events(&mut out, 0, &rc, &ContractSet::new()).unwrap_err(), DecodeError::BadArguments);
    assert_eq!(out.len(), 1);
    assert_eq!(out[0].affected_id, "u.near");
}
