use wallet_ledger::currency::{create_currency_converter, CurrencyConverter};
use wallet_ledger::decimal_text::parse_amount;
use wallet_ledger::models::Ledger;
use wallet_ledger::mutations::{commit, reserve, top_up, CommitResult, ReserveResult};
use wallet_ledger::queries::{load_balance, UserBalance};
use wallet_ledger::routes::process_balance;
use wallet_ledger::strutil::amount_to_string;

#[test]
fn reserve_replay_keeps_one_hold() {
    let mut ledger = Ledger::new();
    let curr = create_currency_converter();
    top_up(&mut ledger, &curr, "k1", "alice", "USD", parse_amount("100").unwrap(), None, 1, 0)
        .unwrap();
    let first = reserve(
        &mut ledger,
        &curr,
        "alice",
        "USD",
        parse_amount("50").unwrap(),
        "o1",
        None,
        0,
    )
    .unwrap();
    assert_eq!(first, ReserveResult::Reserved);
    let again = reserve(
        &mut ledger,
        &curr,
        "alice",
        "USD",
        parse_amount("50").unwrap(),
        "o1",
        None,
        0,
    )
    .unwrap();
    assert_eq!(again, ReserveResult::Reserved);
    assert_eq!(ledger.reserves.len(), 1);
}

#[test]
fn top_up_writes_the_audit_row() {
    let mut ledger = Ledger::new();
    let curr = create_currency_converter();
    top_up(
        &mut ledger,
        &curr,
        "k1",
        "alice",
        "USD",
        parse_amount("100").unwrap(),
        Some("{\"order\": 5}"),
        41,
        1234,
    )
    .unwrap();
    assert_eq!(ledger.transactions.len(), 1);
    let tx = &ledger.transactions[0];
    assert_eq!(tx.id, 41);
    assert_eq!(tx.transaction_currency, "USD");
    assert_eq!(amount_to_string(&tx.transaction_value), "100");
    assert_eq!(tx.recipient_id.as_deref(), Some("alice"));
    assert_eq!(tx.recipient_currency.as_deref(), Some("USD"));
    assert_eq!(amount_to_string(tx.recipient_value.as_ref().unwrap()), "100");
    assert_eq!(amount_to_string(tx.recipient_balance_before.as_ref().unwrap()), "0");
    assert_eq!(amount_to_string(tx.recipient_balance_after.as_ref().unwrap()), "100");
    assert_eq!(tx.merchant_data.as_deref(), Some("{\"order\": 5}"));
    assert_eq!(tx.idempotency_key.as_deref(), Some("k1"));
    assert_eq!(tx.created_at, 1234);
    assert!(tx.sender_id.is_none());
    assert!(tx.order_data.is_none());
}

#[test]
fn cross_currency_top_up_converts_into_native() {
    let mut ledger = Ledger::new();
    let curr = create_currency_converter();
    // The first top-up fixes USD as alice's native currency.
    top_up(&mut ledger, &curr, "k1", "alice", "USD", parse_amount("100").unwrap(), None, 1, 0)
        .unwrap();
    // 40 EUR credit 41.382 USD at the 1.03455 snapshot rate.
    top_up(&mut ledger, &curr, "k2", "alice", "EUR", parse_amount("40").unwrap(), None, 2, 0)
        .unwrap();
    match load_balance(&ledger, "alice") {
        UserBalance::Found(v) => {
            assert_eq!(v.currency, "USD");
            assert_eq!(amount_to_string(&v.balance), "141.382");
        },
        UserBalance::NotFound => panic!("balance missing"),
    }
}

#[test]
fn settlement_at_new_rates_can_overdraw() {
    let mut ledger = Ledger::new();
    let curr = create_currency_converter();
    top_up(&mut ledger, &curr, "k1", "alice", "USD", parse_amount("100").unwrap(), None, 1, 0)
        .unwrap();
    let res = reserve(
        &mut ledger,
        &curr,
        "alice",
        "EUR",
        parse_amount("40").unwrap(),
        "o1",
        None,
        0,
    )
    .unwrap();
    assert_eq!(res, ReserveResult::Reserved);

    // The snapshot moved threefold between the hold and the settlement.
    let mut moved = CurrencyConverter::empty("EUR".to_string());
    moved.add_rate_str("USD", "3.10365");
    let c = commit(&mut ledger, &moved, "o1", 2, 0).unwrap();
    assert_eq!(c, CommitResult::Committed(2));

    match load_balance(&ledger, "alice") {
        UserBalance::Found(v) => {
            assert_eq!(amount_to_string(&v.balance), "-24.146");
            assert_eq!(amount_to_string(&v.reserved), "0");
            assert!(v.balance.is_negative());
        },
        UserBalance::NotFound => panic!("balance missing"),
    }
    let p = process_balance(&ledger, "alice", false);
    let v: serde_json::Value = serde_json::from_slice(&p.body).unwrap();
    assert_eq!(v["userBalance"]["isOverdraft"], true);
    assert_eq!(v["userBalance"]["value"], "-24.146");
}

#[test]
fn second_currency_keeps_the_native_one() {
    let mut ledger = Ledger::new();
    let curr = create_currency_converter();
    top_up(&mut ledger, &curr, "k1", "alice", "USD", parse_amount("10").unwrap(), None, 1, 0)
        .unwrap();
    top_up(&mut ledger, &curr, "k2", "alice", "JPY", parse_amount("1000").unwrap(), None, 2, 0)
        .unwrap();
    match load_balance(&ledger, "alice") {
        UserBalance::Found(v) => assert_eq!(v.currency, "USD"),
        UserBalance::NotFound => panic!("balance missing"),
    }
}

#[test]
fn amount_out_of_range_is_reported() {
    let mut ledger = Ledger::new();
    let curr = create_currency_converter();
    let big = parse_amount("99999999999999999").unwrap();
    top_up(&mut ledger, &curr, "k1", "alice", "USD", big, None, 1, 0).unwrap();
    let second = top_up(&mut ledger, &curr, "k2", "alice", "USD", big, None, 2, 0);
    assert_eq!(second, Err(wallet_ledger::mutations::EngineError::AmountOutOfRange));
    // the failed call left the ledger as it was
    match load_balance(&ledger, "alice") {
        UserBalance::Found(v) => assert_eq!(amount_to_string(&v.balance), "99999999999999999"),
        UserBalance::NotFound => panic!("balance missing"),
    }
}

#[test]
fn unknown_native_currency_is_reported() {
    let mut ledger = Ledger::new();
    let mut private_snapshot = CurrencyConverter::empty("EUR".to_string());
    private_snapshot.add_rate_str("ZZZ", "2");
    top_up(
        &mut ledger,
        &private_snapshot,
        "k1",
        "alice",
        "ZZZ",
        parse_amount("10").unwrap(),
        None,
        1,
        0,
    )
    .unwrap();

    // The service snapshot does not know alice's native currency.
    let curr = create_currency_converter();
    let mut gen = wallet_ledger::idgen::IdGen::new(0, 0);
    let input = wallet_ledger::routes::TopUpInput {
        idempotency_key: "k2".to_string(),
        user_id: "alice".to_string(),
        currency: "USD".to_string(),
        value: "1".to_string(),
        merchant_data: String::new(),
    };
    let r = wallet_ledger::routes::process_top_up(&mut ledger, &curr, &mut gen, &input, false, 0);
    assert_eq!(
        r.err(),
        Some(wallet_ledger::mutations::EngineError::NativeCurrencyUnknown)
    );
}
