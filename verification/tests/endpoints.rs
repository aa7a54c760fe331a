use wallet_ledger::currency::create_currency_converter;
use wallet_ledger::idgen::IdGen;
use wallet_ledger::models::Ledger;
use wallet_ledger::routes::{
    process_balance, process_commit, process_reserve, process_top_up, CommitInput, ReserveInput,
    TopUpInput,
};

fn top_up_input(key: &str, user: &str, currency: &str, value: &str) -> TopUpInput {
    TopUpInput {
        idempotency_key: key.to_string(),
        user_id: user.to_string(),
        currency: currency.to_string(),
        value: value.to_string(),
        merchant_data: String::new(),
    }
}

fn reserve_input(user: &str, currency: &str, value: &str, order: &str) -> ReserveInput {
    ReserveInput {
        user_id: user.to_string(),
        currency: currency.to_string(),
        value: value.to_string(),
        order_id: order.to_string(),
        item_id: String::new(),
    }
}

fn bad_parameter_body(field: &str) -> Vec<u8> {
    format!(
        "{{\"userBalance\":null,\"error\":{{\"oneError\":{{\"badParameter\":{{\"name\":\"{}\"}}}}}}}}",
        field
    )
    .into_bytes()
}

#[test]
fn zero_or_negative_value_is_bad_parameter() {
    let mut ledger = Ledger::new();
    let curr = create_currency_converter();
    let mut gen = IdGen::new(0, 0);

    let p = process_top_up(&mut ledger, &curr, &mut gen, &top_up_input("k", "u", "USD", "0"), false, 0)
        .unwrap();
    assert_eq!(p.body, bad_parameter_body("value"));

    let p = process_top_up(&mut ledger, &curr, &mut gen, &top_up_input("k", "u", "USD", "-5"), false, 0)
        .unwrap();
    assert_eq!(p.body, bad_parameter_body("value"));

    let p = process_reserve(&mut ledger, &curr, &reserve_input("u", "USD", "x", "o"), false, 0)
        .unwrap();
    assert_eq!(p.body, bad_parameter_body("value"));
}

#[test]
fn unknown_currency_is_bad_parameter() {
    let mut ledger = Ledger::new();
    let curr = create_currency_converter();
    let mut gen = IdGen::new(0, 0);

    let p = process_top_up(&mut ledger, &curr, &mut gen, &top_up_input("k", "u", "XYZ", "1"), false, 0)
        .unwrap();
    assert_eq!(p.body, bad_parameter_body("currency"));

    let p = process_reserve(&mut ledger, &curr, &reserve_input("u", "XYZ", "1", "o"), false, 0)
        .unwrap();
    assert_eq!(p.body, bad_parameter_body("currency"));
}

#[test]
fn empty_identifiers_are_bad_parameters() {
    let mut ledger = Ledger::new();
    let curr = create_currency_converter();
    let mut gen = IdGen::new(0, 0);

    let p = process_top_up(&mut ledger, &curr, &mut gen, &top_up_input("", "u", "USD", "1"), false, 0)
        .unwrap();
    assert_eq!(p.body, bad_parameter_body("idempotency_key"));

    let p = process_top_up(&mut ledger, &curr, &mut gen, &top_up_input("k", "", "USD", "1"), false, 0)
        .unwrap();
    assert_eq!(p.body, bad_parameter_body("user_id"));

    let p = process_reserve(&mut ledger, &curr, &reserve_input("", "USD", "1", "o"), false, 0)
        .unwrap();
    assert_eq!(p.body, bad_parameter_body("user_id"));

    let p = process_reserve(&mut ledger, &curr, &reserve_input("u", "USD", "1", ""), false, 0)
        .unwrap();
    assert_eq!(p.body, bad_parameter_body("order_id"));

    let p = process_commit(
        &mut ledger,
        &curr,
        &mut gen,
        &CommitInput { order_id: String::new() },
        false,
        0,
    )
    .unwrap();
    assert_eq!(p.body, bad_parameter_body("order_id"));
}

#[test]
fn invalid_merchant_data_is_bad_parameter() {
    let mut ledger = Ledger::new();
    let curr = create_currency_converter();
    let mut gen = IdGen::new(0, 0);

    let mut input = top_up_input("k", "u", "USD", "1");
    input.merchant_data = "{not json".to_string();
    let p = process_top_up(&mut ledger, &curr, &mut gen, &input, false, 0).unwrap();
    assert_eq!(p.body, bad_parameter_body("merchant_data"));

    input.merchant_data = "{\"a\": 1}".to_string();
    let p = process_top_up(&mut ledger, &curr, &mut gen, &input, false, 0).unwrap();
    let v: serde_json::Value = serde_json::from_slice(&p.body).unwrap();
    assert_eq!(v["userBalance"]["value"], "1");
}

#[test]
fn balance_endpoint_reports_user_not_found() {
    let ledger = Ledger::new();
    let p = process_balance(&ledger, "ghost", false);
    assert_eq!(
        p.body,
        br#"{"userBalance":null,"error":{"oneError":{"userNotFound":{}}}}"#
    );
}

#[test]
fn full_flow_over_endpoints() {
    let mut ledger = Ledger::new();
    let curr = create_currency_converter();
    let mut gen = IdGen::new(1, 1);

    let p = process_top_up(
        &mut ledger,
        &curr,
        &mut gen,
        &top_up_input("k1", "alice", "USD", "100"),
        false,
        0,
    )
    .unwrap();
    let v: serde_json::Value = serde_json::from_slice(&p.body).unwrap();
    assert_eq!(v["userBalance"]["value"], "100");
    assert_eq!(v["userBalance"]["reservedValue"], "0");
    assert_eq!(v["userBalance"]["isOverdraft"], false);

    let p = process_reserve(
        &mut ledger,
        &curr,
        &reserve_input("alice", "USD", "50", "o1"),
        false,
        0,
    )
    .unwrap();
    let v: serde_json::Value = serde_json::from_slice(&p.body).unwrap();
    assert_eq!(v["userBalance"]["value"], "50");
    assert_eq!(v["userBalance"]["reservedValue"], "50");

    let p = process_reserve(
        &mut ledger,
        &curr,
        &reserve_input("bob", "USD", "10", "o2"),
        false,
        0,
    )
    .unwrap();
    let v: serde_json::Value = serde_json::from_slice(&p.body).unwrap();
    assert!(v["error"]["oneError"]["userNotFound"].is_object());

    let p = process_commit(
        &mut ledger,
        &curr,
        &mut gen,
        &CommitInput { order_id: "o1".to_string() },
        false,
        0,
    )
    .unwrap();
    assert!(p.body.is_empty());

    let p = process_balance(&ledger, "alice", false);
    let v: serde_json::Value = serde_json::from_slice(&p.body).unwrap();
    assert_eq!(v["userBalance"]["value"], "50");
    assert_eq!(v["userBalance"]["reservedValue"], "0");

    // protobuf negotiation flips only the encoding
    let p = process_balance(&ledger, "alice", true);
    assert!(p.protobuf);
    assert_eq!(p.body[0], 10);
}

#[test]
fn currency_snapshot_knows_its_rates() {
    let curr = create_currency_converter();
    assert!(curr.is_currency_valid("EUR"));
    assert!(curr.is_currency_valid("USD"));
    assert!(curr.is_currency_valid("JPY"));
    assert!(!curr.is_currency_valid("XYZ"));
    assert!(!curr.is_currency_valid(""));
}
