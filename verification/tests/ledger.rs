use guest_boundary::Arena;
use guest_boundary::MemoryBlock;
use guest_boundary::decode_string_nul;
use guest_boundary::execute_credit_leg;
use guest_boundary::execute_debit_leg;
use guest_boundary::generate_balance_query;
use guest_boundary::process_credit_result;

fn store(arena: &mut Arena, bytes: &[u8]) -> MemoryBlock {
    arena.store_bytes(bytes).unwrap()
}

fn credit_summary(result: &[u8], amount: &[u8]) -> Vec<u8> {
    let mut arena = Arena::new();
    let r = store(&mut arena, result);
    let a = store(&mut arena, amount);
    let out = process_credit_result(&mut arena, r.address, r.length, a.address, a.length).unwrap();
    decode_string_nul(&arena, out.address).unwrap()
}

#[test]
fn balance_query_embeds_the_account_once() {
    let query = generate_balance_query(b"alice");
    let text = String::from_utf8(query).unwrap();
    assert_eq!(text.matches("alice").count(), 1);
    assert!(text.starts_with("PREFIX ex: <http://example.org/>"));
    assert!(text.contains("ex:alice ex:hasBalance ?balance ."));
}

#[test]
fn credit_result_reports_the_exact_sum() {
    let summary = credit_summary(b"{\"results\":[{\"balance\":\"100.50\"}]}", b"25.25");
    assert_eq!(
        summary,
        b"Current balance: 100.5. After credit of 25.25, new balance: 125.75".to_vec()
    );
}

#[test]
fn credit_result_sum_has_no_rounding_drift() {
    let summary = credit_summary(b"{\"results\":[{\"balance\":\"0.1\"}]}", b"0.2");
    assert_eq!(
        summary,
        b"Current balance: 0.1. After credit of 0.2, new balance: 0.3".to_vec()
    );
}

#[test]
fn credit_result_handles_a_negative_credit() {
    let summary = credit_summary(b"{\"results\":[{\"balance\":\"10.00\"}]}", b"-2.5");
    assert_eq!(
        summary,
        b"Current balance: 10. After credit of -2.5, new balance: 7.5".to_vec()
    );
}

#[test]
fn credit_result_of_non_json_blob_is_a_parse_error() {
    let summary = credit_summary(b"definitely not json {", b"25.25");
    assert_eq!(summary, b"Failed to parse result JSON".to_vec());
}

#[test]
fn credit_result_without_balance_is_a_missing_balance_error() {
    let summary = credit_summary(b"{\"results\":[]}", b"25.25");
    assert_eq!(summary, b"Failed to extract balance from result".to_vec());
}

#[test]
fn credit_result_with_non_decimal_balance_is_a_missing_balance_error() {
    let summary = credit_summary(b"{\"results\":[{\"balance\":\"12a\"}]}", b"25.25");
    assert_eq!(summary, b"Failed to extract balance from result".to_vec());
}

#[test]
fn credit_result_with_bad_amount_is_an_invalid_amount_error() {
    let summary = credit_summary(b"{\"results\":[{\"balance\":\"100.50\"}]}", b"abc");
    assert_eq!(summary, b"Failed to parse amount as decimal".to_vec());
}

#[test]
fn credit_result_with_oversized_amount_is_an_invalid_amount_error() {
    let summary = credit_summary(
        b"{\"results\":[{\"balance\":\"1\"}]}",
        b"9999999999999999999",
    );
    assert_eq!(summary, b"Failed to parse amount as decimal".to_vec());
}

#[test]
fn credit_result_of_bad_utf8_is_an_encoding_error() {
    let summary = credit_summary(&[0xff, 0xfe], b"25.25");
    assert_eq!(summary, b"Failed to decode input as UTF-8".to_vec());
}

#[test]
fn credit_leg_returns_the_query_for_the_account() {
    let mut arena = Arena::new();
    let amount = store(&mut arena, b"100");
    let account = store(&mut arena, b"bob");
    let out = execute_credit_leg(
        &mut arena,
        amount.address,
        amount.length,
        account.address,
        account.length,
    )
    .unwrap();
    let query = decode_string_nul(&arena, out.address).unwrap();
    assert_eq!(query, generate_balance_query(b"bob"));
}

#[test]
fn debit_leg_formats_the_description() {
    let mut arena = Arena::new();
    let amount = store(&mut arena, b"100");
    let account = store(&mut arena, b"bob");
    let out = execute_debit_leg(
        &mut arena,
        amount.address,
        amount.length,
        account.address,
        account.length,
    )
    .unwrap();
    let text = decode_string_nul(&arena, out.address).unwrap();
    assert_eq!(text, b"Debiting 100 from account bob".to_vec());
}

#[test]
fn ledger_entry_points_reject_unknown_addresses() {
    let mut arena = Arena::new();
    let amount = store(&mut arena, b"100");
    assert!(process_credit_result(&mut arena, 9999, 1, amount.address, amount.length).is_err());
    assert!(execute_credit_leg(&mut arena, amount.address, 500, 9999, 1).is_err());
}
