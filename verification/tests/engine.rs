use wallet_ledger::currency::create_currency_converter;
use wallet_ledger::decimal_text::parse_amount;
use wallet_ledger::models::Ledger;
use wallet_ledger::mutations::{reserve, top_up, ReserveResult};
use wallet_ledger::queries::{load_balance, UserBalance, UserBalanceValues};
use wallet_ledger::Amount;

#[test]
fn test_top_up() {
    let mut ledger = Ledger::new();
    let curr = create_currency_converter();

    let user_id = "test_user";
    let currency = "USD";
    let value = parse_amount("100").unwrap();
    let idempotency_key = "test";

    let tx_id = top_up(
        &mut ledger,
        &curr,
        idempotency_key,
        user_id,
        currency,
        value,
        None,
        7001,
        0,
    )
    .unwrap();
    assert!(tx_id > 0);

    let balance = load_balance(&ledger, user_id);
    assert_eq!(
        balance,
        UserBalance::Found(UserBalanceValues {
            currency: currency.to_string(),
            balance: value,
            reserved: Amount::zero(),
        })
    );

    let tx_id2 = top_up(
        &mut ledger,
        &curr,
        idempotency_key,
        user_id,
        currency,
        value,
        None,
        7002,
        0,
    )
    .unwrap();
    assert_eq!(tx_id, tx_id2);

    let balance2 = load_balance(&ledger, user_id);
    assert_eq!(balance2, balance);
}

#[test]
fn test_reserve() {
    let mut ledger = Ledger::new();
    let curr = create_currency_converter();

    let user_id = "test_user";
    let currency = "USD";
    let value = parse_amount("100").unwrap();
    let order_id = "test_order";

    let tx_id = top_up(&mut ledger, &curr, "id1", user_id, currency, value, None, 8001, 0).unwrap();
    assert!(tx_id > 0);

    let balance = load_balance(&ledger, user_id);
    assert_eq!(
        balance,
        UserBalance::Found(UserBalanceValues {
            currency: currency.to_string(),
            balance: value,
            reserved: Amount::zero(),
        })
    );

    let res = reserve(&mut ledger, &curr, user_id, currency, value, order_id, None, 0).unwrap();
    assert_eq!(res, ReserveResult::Reserved);

    let balance2 = load_balance(&ledger, user_id);
    assert_eq!(
        balance2,
        UserBalance::Found(UserBalanceValues {
            currency: currency.to_string(),
            balance: parse_amount("0").unwrap(),
            reserved: value,
        })
    );
}

#[test]
fn test_load_balance() {
    let mut ledger = Ledger::new();
    let curr = create_currency_converter();
    let user_id = "test_load_balance";
    let currency = "USD";
    let value = parse_amount("100").unwrap();
    let merchant_data = Some("{\"test\": 1}");
    let idempotency_key = "test_load_balance";

    let tx_id = top_up(
        &mut ledger,
        &curr,
        idempotency_key,
        user_id,
        currency,
        value,
        merchant_data,
        9001,
        0,
    )
    .unwrap();
    assert!(tx_id > 0);

    let balance = load_balance(&ledger, user_id);
    assert_eq!(
        balance,
        UserBalance::Found(UserBalanceValues {
            currency: currency.to_string(),
            balance: parse_amount("100").unwrap(),
            reserved: parse_amount("0").unwrap(),
        })
    );
}
