use wallet_ledger::currency::create_currency_converter;
use wallet_ledger::decimal_text::parse_amount;
use wallet_ledger::models::Ledger;
use wallet_ledger::mutations::{commit, reserve, top_up, CommitResult, ReserveResult};
use wallet_ledger::queries::{load_balance, UserBalance};
use wallet_ledger::strutil::amount_to_string;

fn found(b: UserBalance) -> (String, String, String) {
    match b {
        UserBalance::Found(v) => (
            v.currency,
            amount_to_string(&v.balance),
            amount_to_string(&v.reserved),
        ),
        UserBalance::NotFound => panic!("balance missing"),
    }
}

#[test]
fn top_up_creates_balance_and_replays() {
    let mut ledger = Ledger::new();
    let curr = create_currency_converter();

    let id = top_up(
        &mut ledger,
        &curr,
        "k1",
        "alice",
        "USD",
        parse_amount("100").unwrap(),
        None,
        101,
        0,
    )
    .unwrap();
    assert!(id > 0);
    let (currency, balance, reserved) = found(load_balance(&ledger, "alice"));
    assert_eq!(currency, "USD");
    assert_eq!(balance, "100");
    assert_eq!(reserved, "0");

    let id2 = top_up(
        &mut ledger,
        &curr,
        "k1",
        "alice",
        "USD",
        parse_amount("100").unwrap(),
        None,
        102,
        0,
    )
    .unwrap();
    assert_eq!(id2, id);
    let (_, balance2, _) = found(load_balance(&ledger, "alice"));
    assert_eq!(balance2, "100");
}

#[test]
fn reserve_same_currency_holds_funds() {
    let mut ledger = Ledger::new();
    let curr = create_currency_converter();
    top_up(&mut ledger, &curr, "k1", "alice", "USD", parse_amount("100").unwrap(), None, 101, 0)
        .unwrap();

    let res = reserve(
        &mut ledger,
        &curr,
        "alice",
        "USD",
        parse_amount("50").unwrap(),
        "o1",
        None,
        0,
    )
    .unwrap();
    assert_eq!(res, ReserveResult::Reserved);
    let (currency, balance, reserved) = found(load_balance(&ledger, "alice"));
    assert_eq!(currency, "USD");
    assert_eq!(balance, "50");
    assert_eq!(reserved, "50");
}

#[test]
fn reserve_beyond_spendable_is_refused() {
    let mut ledger = Ledger::new();
    let curr = create_currency_converter();
    top_up(&mut ledger, &curr, "k1", "alice", "USD", parse_amount("100").unwrap(), None, 101, 0)
        .unwrap();
    reserve(&mut ledger, &curr, "alice", "USD", parse_amount("50").unwrap(), "o1", None, 0)
        .unwrap();

    let res = reserve(
        &mut ledger,
        &curr,
        "alice",
        "USD",
        parse_amount("60").unwrap(),
        "o2",
        None,
        0,
    )
    .unwrap();
    assert_eq!(res, ReserveResult::InsufficientFunds);
}

#[test]
fn commit_settles_and_replays() {
    let mut ledger = Ledger::new();
    let curr = create_currency_converter();
    top_up(&mut ledger, &curr, "k1", "alice", "USD", parse_amount("100").unwrap(), None, 101, 0)
        .unwrap();
    reserve(&mut ledger, &curr, "alice", "USD", parse_amount("50").unwrap(), "o1", None, 0)
        .unwrap();

    let c = commit(&mut ledger, &curr, "o1", 202, 0).unwrap();
    assert_eq!(c, CommitResult::Committed(202));
    let (_, balance, reserved) = found(load_balance(&ledger, "alice"));
    assert_eq!(balance, "50");
    assert_eq!(reserved, "0");

    // The settling transaction carries the sender's side of the movement.
    let tx = ledger
        .transactions
        .iter()
        .find(|t| t.order_data.as_ref().map(|o| o.order_id.as_str()) == Some("o1"))
        .unwrap();
    assert_eq!(tx.sender_id.as_deref(), Some("alice"));
    assert_eq!(amount_to_string(tx.sender_value.as_ref().unwrap()), "50");
    assert_eq!(amount_to_string(tx.sender_balance_before.as_ref().unwrap()), "100");
    assert_eq!(amount_to_string(tx.sender_balance_after.as_ref().unwrap()), "50");

    let c2 = commit(&mut ledger, &curr, "o1", 203, 0).unwrap();
    assert_eq!(c2, CommitResult::Committed(202));
    let (_, balance2, reserved2) = found(load_balance(&ledger, "alice"));
    assert_eq!(balance2, "50");
    assert_eq!(reserved2, "0");
}

#[test]
fn reserve_cross_currency_applies_surcharge() {
    let mut ledger = Ledger::new();
    let curr = create_currency_converter();
    top_up(&mut ledger, &curr, "k1", "alice", "USD", parse_amount("100").unwrap(), None, 101, 0)
        .unwrap();

    // 40 EUR into USD at 1.03455 is 41.382; the six percent surcharge
    // holds 43.86492 USD.
    let res = reserve(
        &mut ledger,
        &curr,
        "alice",
        "EUR",
        parse_amount("40").unwrap(),
        "o3",
        None,
        0,
    )
    .unwrap();
    assert_eq!(res, ReserveResult::Reserved);
    let (_, balance, reserved) = found(load_balance(&ledger, "alice"));
    assert_eq!(reserved, "43.86492");
    assert_eq!(balance, "56.13508");
}

#[test]
fn reserve_unknown_user_is_reported() {
    let mut ledger = Ledger::new();
    let curr = create_currency_converter();
    top_up(&mut ledger, &curr, "k1", "alice", "USD", parse_amount("100").unwrap(), None, 101, 0)
        .unwrap();

    let res = reserve(
        &mut ledger,
        &curr,
        "bob",
        "USD",
        parse_amount("10").unwrap(),
        "o9",
        None,
        0,
    )
    .unwrap();
    assert_eq!(res, ReserveResult::UserNotFound);
}

#[test]
fn commit_without_hold_is_invalid_state() {
    let mut ledger = Ledger::new();
    let curr = create_currency_converter();
    let c = commit(&mut ledger, &curr, "nope", 301, 0).unwrap();
    assert_eq!(c, CommitResult::InvalidTransactionState);
}

#[test]
fn reserve_after_settlement_is_invalid_state() {
    let mut ledger = Ledger::new();
    let curr = create_currency_converter();
    top_up(&mut ledger, &curr, "k1", "alice", "USD", parse_amount("100").unwrap(), None, 101, 0)
        .unwrap();
    reserve(&mut ledger, &curr, "alice", "USD", parse_amount("50").unwrap(), "o1", None, 0)
        .unwrap();
    commit(&mut ledger, &curr, "o1", 202, 0).unwrap();

    let res = reserve(
        &mut ledger,
        &curr,
        "alice",
        "USD",
        parse_amount("10").unwrap(),
        "o1",
        None,
        0,
    )
    .unwrap();
    assert_eq!(res, ReserveResult::InvalidTransactionState);
}
