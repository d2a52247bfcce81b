use anyhow::Context;
use grpcbench::collector::{
    account_filter, aperture_outcome, client_config, decode_signature, is_auth_error, jetstream_outcome,
    parse_x_token, shredstream_outcome, shreder_outcome, subscribe_filters, subscribe_request, yellowstone_outcome,
    AfterMessage, CollectorError, NextStep, RetryPolicy, SessionEnd, ShredTransaction, StreamUpdate,
    TransactionSignatures,
};
use grpcbench::config::{Endpoint, Protocol};

const SYSTEM_PROGRAM: &str = "11111111111111111111111111111111";

fn zero_signature_text() -> String {
    "1".repeat(64)
}

#[test]
fn initial_request_forwards_shared_account_filter() {
    let request = subscribe_request(&["account".to_string()], None);
    assert_eq!(request.transactions["bench"].account_include, vec!["account"]);
    assert!(request.ping.is_none());
}

#[test]
fn ping_reply_carries_no_filter() {
    let request = subscribe_request(&["account".to_string()], Some(1));
    assert!(request.transactions.is_empty());
    assert_eq!(request.ping.expect("ping").id, 1);
}

#[test]
fn subscribe_filters_forward_include_simulation() {
    let filters = subscribe_filters(&[], true, true).expect("build filters");
    assert!(filters.signatures_only);
    assert!(filters.include_simulation);
}

#[test]
fn subscribe_filters_reject_invalid_accounts() {
    let accounts = vec![SYSTEM_PROGRAM.to_string(), "not-a-key".to_string()];
    match subscribe_filters(&accounts, false, false) {
        Err(CollectorError::InvalidAccount(account)) => assert_eq!(account, "not-a-key"),
        other => panic!("unexpected {other:?}"),
    }
    let filters = subscribe_filters(&[SYSTEM_PROGRAM.to_string()], false, false).expect("valid");
    assert_eq!(filters.accounts, vec![[0u8; 32]]);
    assert!(filters.include_votes);
}

#[test]
fn recognizes_wrapped_auth_status() {
    let error = Err::<(), _>(tonic::Status::unauthenticated("denied"))
        .context("subscribe")
        .expect_err("auth error");
    let codes: Vec<i32> = error
        .chain()
        .filter_map(|source| source.downcast_ref::<tonic::Status>())
        .map(|status| status.code() as i32)
        .collect();
    assert!(is_auth_error(&codes));
    assert!(!is_auth_error(&[tonic::Code::Unavailable as i32]));
    assert!(is_auth_error(&[tonic::Code::PermissionDenied as i32]));
}

#[test]
fn retry_delay_doubles_to_a_cap_and_resets() {
    let mut policy = RetryPolicy::new(false);
    let mut waits = Vec::new();
    for _ in 0..6 {
        match policy.after(SessionEnd::Failed { auth: false }, false) {
            NextStep::RetryAfter(secs) => waits.push(secs),
            other => panic!("unexpected {other:?}"),
        }
    }
    assert_eq!(waits, vec![2, 4, 8, 16, 30, 30]);
    assert_eq!(policy.after(SessionEnd::Completed, false), NextStep::Subscribe);
    assert_eq!(policy.delay_secs(), 2);
    assert_eq!(policy.after(SessionEnd::Failed { auth: true }, false), NextStep::RetryAfter(2));
    assert_eq!(policy.after(SessionEnd::Completed, true), NextStep::Stop);
}

#[test]
fn auth_failures_stop_collectors_that_give_up_on_them() {
    let mut policy = RetryPolicy::new(true);
    assert_eq!(policy.after(SessionEnd::Failed { auth: true }, false), NextStep::Stop);
    assert_eq!(policy.after(SessionEnd::Failed { auth: false }, false), NextStep::RetryAfter(2));
}

#[test]
fn x_token_must_be_metadata_safe() {
    assert_eq!(parse_x_token(""), Ok(None));
    assert_eq!(parse_x_token("abc-123"), Ok(Some("abc-123".to_string())));
    assert_eq!(parse_x_token("bad\ntoken"), Err(CollectorError::InvalidToken));
}

#[test]
fn signatures_decode_to_base58() {
    assert_eq!(decode_signature(&[0u8; 64]), Ok(zero_signature_text()));
    assert_eq!(decode_signature(&[0u8; 63]), Err(CollectorError::BadSignature));
    let mut bytes = [0u8; 64];
    bytes[63] = 1;
    assert_eq!(decode_signature(&bytes), Ok(format!("{}2", "1".repeat(63))));
}

#[test]
fn jetstream_falls_back_to_the_first_signature() {
    let tx = TransactionSignatures { signature: Vec::new(), signatures: vec![vec![0u8; 64], vec![1u8; 64]] };
    let outcome = jetstream_outcome(&StreamUpdate::Transaction(Some(tx)));
    assert_eq!(outcome.signatures, vec![zero_signature_text()]);
    assert!(outcome.active);
    assert_eq!(outcome.next, AfterMessage::Continue);

    let empty = TransactionSignatures { signature: Vec::new(), signatures: Vec::new() };
    let outcome = jetstream_outcome(&StreamUpdate::Transaction(Some(empty)));
    assert!(outcome.signatures.is_empty() && !outcome.active);

    assert_eq!(jetstream_outcome(&StreamUpdate::Ping).next, AfterMessage::ReplyPing);
    assert_eq!(jetstream_outcome(&StreamUpdate::Other).next, AfterMessage::Continue);
}

#[test]
fn yellowstone_fails_on_a_malformed_signature() {
    let tx = TransactionSignatures { signature: vec![0u8; 10], signatures: vec![vec![0u8; 64]] };
    let outcome = yellowstone_outcome(&StreamUpdate::Transaction(Some(tx)));
    assert_eq!(outcome.next, AfterMessage::Fail(CollectorError::BadSignature));
    assert!(outcome.signatures.is_empty());
    assert_eq!(yellowstone_outcome(&StreamUpdate::Transaction(None)).next, AfterMessage::Continue);
}

#[test]
fn shreder_records_the_first_signature() {
    let tx = TransactionSignatures { signature: Vec::new(), signatures: vec![vec![0u8; 64]] };
    assert_eq!(shreder_outcome(&Some(tx)).signatures, vec![zero_signature_text()]);
    assert!(shreder_outcome(&None).signatures.is_empty());
}

#[test]
fn aperture_records_every_signature_until_a_bad_one() {
    let outcome = aperture_outcome(&vec![vec![0u8; 64], vec![0u8; 64]]);
    assert_eq!(outcome.signatures.len(), 2);
    assert_eq!(outcome.next, AfterMessage::Continue);

    let outcome = aperture_outcome(&vec![vec![0u8; 64], vec![0u8; 3], vec![0u8; 64]]);
    assert_eq!(outcome.signatures.len(), 1);
    assert!(outcome.active);
    assert_eq!(outcome.next, AfterMessage::Fail(CollectorError::BadSignature));

    let outcome = aperture_outcome(&Vec::new());
    assert!(!outcome.active);
}

#[test]
fn shredstream_filters_by_account() {
    assert!(account_filter(&[]).expect("no filter").is_none());
    let filter = account_filter(&[SYSTEM_PROGRAM.to_string()]).expect("filter");
    let touching = ShredTransaction { account_keys: vec![[1u8; 32], [0u8; 32]], signatures: vec![[0u8; 64]] };
    let elsewhere = ShredTransaction { account_keys: vec![[1u8; 32]], signatures: vec![[0u8; 64]] };
    let unsigned = ShredTransaction { account_keys: vec![[0u8; 32]], signatures: Vec::new() };
    let outcome = shredstream_outcome(&filter, &vec![touching.clone(), elsewhere.clone(), unsigned]);
    assert_eq!(outcome.signatures, vec![zero_signature_text()]);
    assert!(outcome.active);
    let outcome = shredstream_outcome(&None, &vec![touching, elsewhere]);
    assert_eq!(outcome.signatures.len(), 2);
    assert!(matches!(account_filter(&["bad".to_string()]), Err(CollectorError::InvalidAccount(_))));
}

#[test]
fn aperture_client_settings_follow_the_endpoint() {
    let endpoint = Endpoint {
        alias: "ap".to_string(),
        protocol: Protocol::ApertureTxstream,
        url: "https://aperture.example.com".to_string(),
        token: "tok".to_string(),
        signatures_only: true,
        include_simulation: false,
        batch_mode: false,
    };
    let settings = client_config(&endpoint, 4 * 1024 * 1024);
    assert_eq!(settings.url, "https://aperture.example.com");
    assert_eq!(settings.max_decoding_message_size, 4 * 1024 * 1024);
    assert_eq!(settings.initial_stream_window_size, Some(4 * 1024 * 1024));
    assert_eq!(settings.user_agent.as_deref(), Some("rpcfast-grpcbench/aperture-txstream"));
    assert_eq!(settings.x_token.as_deref(), Some("tok"));
    let huge = client_config(&endpoint, usize::MAX);
    assert_eq!(huge.initial_connection_window_size, Some(u32::MAX));
}
