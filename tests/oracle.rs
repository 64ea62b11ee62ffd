use indexer_events::config::{parse_chain, Chain, PipelineConfig};
use indexer_events::legacy::{FtTransfer, WithdrawCallArgs};
use indexer_events::oracle::{after_failure, classify_failure, parse_balance_response, OracleFailure, RetryState, RetryStep};

#[test]
fn missing_contract_errors_are_permanent() {
    assert_eq!(
        classify_failure("wasm execution failed with error: CompilationError(CodeDoesNotExist { account_id: \"x\" })"),
        OracleFailure::ContractAbsent
    );
    assert_eq!(classify_failure("FunctionCallError(MethodResolveError(MethodNotFound))"), OracleFailure::ContractAbsent);
    assert_eq!(classify_failure("timeout"), OracleFailure::Transient);
    assert_eq!(after_failure(&RetryState::first(), OracleFailure::ContractAbsent), RetryStep::ContractAbsent);
}

#[test]
fn retries_double_and_stop_after_ten_tries() {
    let mut state = RetryState::first();
    let mut waits = vec![];
    loop {
        match after_failure(&state, OracleFailure::Transient) {
            RetryStep::Retry(wait, next) => {
                waits.push(wait);
                state = next;
            },
            RetryStep::Unavailable => break,
            RetryStep::ContractAbsent => panic!("transient failures are retried"),
        }
    }
    assert_eq!(waits, vec![100, 200, 400, 800, 1600, 3200, 6400, 12800, 25600]);
    assert_eq!(state.attempt, 10);
}

#[test]
fn backoff_is_capped() {
    let state = RetryState { attempt: 9, delay_ms: 120_000 };
    assert_eq!(after_failure(&state, OracleFailure::Transient), RetryStep::Retry(120_000, RetryState { attempt: 10, delay_ms: 120_000 }));
}

#[test]
fn balance_responses_are_strings_or_integers() {
    assert_eq!(parse_balance_response(b"\"12345\""), Some(12345));
    assert_eq!(parse_balance_response(b"678"), Some(678));
    assert_eq!(parse_balance_response(b"1000000000000000000000000"), Some(1_000_000_000_000_000_000_000_000));
    assert_eq!(parse_balance_response(b"\"340282366920938463463374607431768211456\""), None);
    assert_eq!(parse_balance_response(b"\"-5\""), None);
    assert_eq!(parse_balance_response(b"null"), None);
}

#[test]
fn configuration_defaults() {
    assert_eq!(parse_chain(&"mainnet".to_string()), Some(Chain::Mainnet));
    assert_eq!(parse_chain(&"testnet".to_string()), Some(Chain::Testnet));
    assert_eq!(parse_chain(&"devnet".to_string()), None);
    let c = PipelineConfig::new(42, Chain::Testnet);
    assert_eq!(c.start_block_height, 42);
    assert_eq!(c.balance_cache_capacity, 100_000);
    assert_eq!(c.retry_attempts, 10);
    assert_eq!(c.retry_initial_ms, 100);
    assert_eq!(c.retry_max_ms, 120_000);
    assert_eq!(c.insert_chunk_size, 100);
}

#[test]
fn withdraw_arguments_are_binary() {
    let mut args: Vec<u8> = (1..=20).collect();
    args.extend_from_slice(&(u128::MAX - 3).to_le_bytes());
    let parsed = WithdrawCallArgs::try_from_slice(&args).unwrap();
    assert_eq!(parsed.amount, u128::MAX - 3);
    assert_eq!(parsed.recipient_address.bytes, (1..=20).collect::<Vec<u8>>());
    args.push(0);
    assert!(WithdrawCallArgs::try_from_slice(&args).is_none());
}

#[test]
fn transfer_arguments_read_from_json() {
    let t = FtTransfer::read(br#"{"receiver_id":"b.near","amount":"40","msg":null}"#).unwrap();
    assert_eq!(t.receiver_id, "b.near");
    assert_eq!(t.amount, "40");
    assert_eq!(t.memo, None);
    assert!(FtTransfer::read(br#"{"amount":"40"}"#).is_none());
}
