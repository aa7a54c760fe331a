//! The mutating ledger operations: top-up, reserve and commit.
//!
//! Every operation is a transition on a well-formed [`Ledger`] and is
//! specified exactly: which rows it reads, which it writes, and which
//! outcome it returns on every input. Idempotency is part of the
//! contracts: replaying a top-up key returns the recorded transaction id
//! and changes nothing; replaying a reserve or a commit behaves as the
//! order's state machine demands.

use crate::amount::{Amount, MAX_UNITS};
use crate::currency::{spec_convert, CurrencyConverter};
use crate::models::{
    bal_idx, lemma_bal_idx_first, lemma_bal_idx_props, lemma_bal_idx_push,
    lemma_log_sum_absent, lemma_log_sum_push, lemma_reserve_sum_absent,
    lemma_reserve_sum_nonneg, lemma_reserve_sum_prefix, lemma_reserve_sum_push,
    lemma_reserve_sum_remove,
    lemma_res_idx_props, lemma_tx_key_idx_props, lemma_tx_order_idx_props,
    log_sum, res_idx, reserve_sum, tx_contrib, tx_has_order,
    tx_key_idx, tx_order_idx, wf, Balance, BalanceV, Ledger, LedgerV, ReserveV, Transaction,
    TransactionV,
};
use vstd::prelude::*;

verus! {

/// Failures of the engine itself, apart from the business outcomes: an
/// exact result left the range the ledger can hold, or a stored native
/// currency is unknown to the rate snapshot in use.
#[derive(Clone, Copy, Debug, PartialEq, Eq, Structural)]
pub enum EngineError {
    AmountOutOfRange,
    NativeCurrencyUnknown,
}

/// The balances after the initial upsert: unchanged when the user exists,
/// extended by a zero balance in the request currency otherwise.
pub open spec fn upsert_balance(bs: Seq<BalanceV>, user: Seq<char>, currency: Seq<char>) -> Seq<
    BalanceV,
> {
    if bal_idx(bs, user) >= 0 {
        bs
    } else {
        bs.push(BalanceV { user_id: user, currency: currency, current_value: 0 })
    }
}

/// The audit row a successful top-up appends.
pub open spec fn topup_transaction(
    key: Seq<char>,
    user: Seq<char>,
    req_currency: Seq<char>,
    req_value: int,
    native_currency: Seq<char>,
    delta: int,
    before: int,
    merchant: Option<Seq<char>>,
    id: int,
    now: int,
) -> TransactionV {
    TransactionV {
        id: id,
        transaction_currency: req_currency,
        transaction_value: req_value,
        sender_id: None,
        sender_currency: None,
        sender_value: None,
        sender_balance_before: None,
        sender_balance_after: None,
        recipient_id: Some(user),
        recipient_currency: Some(native_currency),
        recipient_value: Some(delta),
        recipient_balance_before: Some(before),
        recipient_balance_after: Some(before + delta),
        merchant_data: merchant,
        order_data: None,
        created_at: now,
        idempotency_key: Some(key),
    }
}

/// Two balance tables with the same users index every user alike.
proof fn lemma_bal_idx_same_users(a: Seq<BalanceV>, b: Seq<BalanceV>, user: Seq<char>)
    requires
        a.len() == b.len(),
        forall|i: int| 0 <= i < a.len() ==> (#[trigger] a[i].user_id) == b[i].user_id,
    ensures
        bal_idx(a, user) == bal_idx(b, user),
{
    lemma_bal_idx_props(a, user);
    lemma_bal_idx_props(b, user);
    if bal_idx(a, user) >= 0 {
        assert forall|j: int| 0 <= j < bal_idx(a, user) implies (#[trigger] b[j].user_id)
            != user by {
            assert(a[j].user_id == b[j].user_id);
        }
        assert(b[bal_idx(a, user)].user_id == user);
        lemma_bal_idx_first(b, user, bal_idx(a, user));
    } else {
        if bal_idx(b, user) >= 0 {
            assert(a[bal_idx(b, user)].user_id == user);
        }
    }
}

/// Adding a fresh zero balance keeps the ledger well-formed.
proof fn lemma_wf_upsert(l: LedgerV, user: Seq<char>, currency: Seq<char>)
    requires
        wf(l),
        bal_idx(l.balances, user) < 0,
    ensures
        wf(
            LedgerV {
                balances: l.balances.push(
                    BalanceV { user_id: user, currency: currency, current_value: 0 },
                ),
                reserves: l.reserves,
                transactions: l.transactions,
            },
        ),
        bal_idx(
            l.balances.push(BalanceV { user_id: user, currency: currency, current_value: 0 }),
            user,
        ) == l.balances.len(),
{
    let b = BalanceV { user_id: user, currency: currency, current_value: 0 };
    let bs = l.balances;
    let e = bs.push(b);
    let n = LedgerV { balances: e, reserves: l.reserves, transactions: l.transactions };
    lemma_bal_idx_props(bs, user);
    assert(forall|i: int| 0 <= i < bs.len() ==> (#[trigger] bs[i].user_id) != user);
    lemma_bal_idx_push(bs, b, user);
    assert forall|u: Seq<char>| bal_idx(bs, u) >= 0 implies bal_idx(e, u) == bal_idx(
        bs,
        u,
    ) by {
        lemma_bal_idx_push(bs, b, u);
    }
    assert forall|i: int|
        0 <= i < n.reserves.len() implies bal_idx(n.balances, (#[trigger] n.reserves[i]).user_id)
        >= 0 && 0 <= n.reserves[i].user_currency_value <= MAX_UNITS && 0 < n.reserves[i].value
        <= MAX_UNITS by {
        assert(bal_idx(bs, l.reserves[i].user_id) >= 0);
    }
    assert forall|i: int|
        0 <= i < n.transactions.len() implies ((#[trigger] n.transactions[i]).recipient_id
        is Some ==> bal_idx(n.balances, n.transactions[i].recipient_id->0) >= 0
        && n.transactions[i].recipient_value is Some) && (n.transactions[i].sender_id is Some
        ==> bal_idx(n.balances, n.transactions[i].sender_id->0) >= 0
        && n.transactions[i].sender_value is Some) by {
        if l.transactions[i].recipient_id is Some {
            assert(bal_idx(bs, l.transactions[i].recipient_id->0) >= 0);
        }
        if l.transactions[i].sender_id is Some {
            assert(bal_idx(bs, l.transactions[i].sender_id->0) >= 0);
        }
    }
    assert forall|i: int|
        0 <= i < n.balances.len() implies -MAX_UNITS <= (
    #[trigger] n.balances[i]).current_value <= MAX_UNITS && n.balances[i].current_value
        == log_sum(n.transactions, n.balances[i].user_id) && 0 <= reserve_sum(
        n.reserves,
        n.balances[i].user_id,
    ) <= MAX_UNITS by {
        if i < bs.len() {
            assert(l.balances[i].current_value == log_sum(l.transactions, l.balances[i].user_id));
        } else {
            assert forall|j: int|
                0 <= j < l.transactions.len() implies (#[trigger] l.transactions[j].recipient_id)
                != Some(user) && (#[trigger] l.transactions[j].sender_id) != Some(user) by {
                if l.transactions[j].recipient_id == Some(user) {
                    assert(bal_idx(bs, user) >= 0);
                }
                if l.transactions[j].sender_id == Some(user) {
                    assert(bal_idx(bs, user) >= 0);
                }
            }
            lemma_log_sum_absent(l.transactions, user);
            assert forall|j: int|
                0 <= j < l.reserves.len() implies (#[trigger] l.reserves[j].user_id) != user by {
                if l.reserves[j].user_id == user {
                    assert(bal_idx(bs, user) >= 0);
                }
            }
            lemma_reserve_sum_absent(l.reserves, user);
        }
    }
}

/// Appending one audit row and writing its contribution back to the single
/// balance row it names keeps the ledger well-formed.
proof fn lemma_wf_settle(l: LedgerV, bi: int, t: TransactionV, new_val: int)
    requires
        wf(l),
        0 <= bi < l.balances.len(),
        t.recipient_id is Some ==> t.recipient_id == Some(l.balances[bi].user_id)
            && t.recipient_value is Some,
        t.sender_id is Some ==> t.sender_id == Some(l.balances[bi].user_id)
            && t.sender_value is Some,
        new_val == l.balances[bi].current_value + tx_contrib(t, l.balances[bi].user_id),
        -MAX_UNITS <= new_val <= MAX_UNITS,
        t.idempotency_key matches Some(k) ==> tx_key_idx(l.transactions, k) < 0,
        t.order_data matches Some(o) ==> tx_order_idx(l.transactions, o.order_id) < 0
            && res_idx(l.reserves, o.order_id) < 0,
    ensures
        wf(
            LedgerV {
                balances: l.balances.update(
                    bi,
                    BalanceV { current_value: new_val, ..l.balances[bi] },
                ),
                reserves: l.reserves,
                transactions: l.transactions.push(t),
            },
        ),
{
    let bs = l.balances;
    let bs2 = bs.update(bi, BalanceV { current_value: new_val, ..bs[bi] });
    let ts2 = l.transactions.push(t);
    let n = LedgerV { balances: bs2, reserves: l.reserves, transactions: ts2 };
    let user = bs[bi].user_id;
    assert(forall|i: int| 0 <= i < bs.len() ==> (#[trigger] bs2[i].user_id) == bs[i].user_id);
    assert forall|u: Seq<char>| true implies bal_idx(bs2, u) == bal_idx(bs, u) by {
        lemma_bal_idx_same_users(bs2, bs, u);
    }
    if t.idempotency_key is Some {
        lemma_tx_key_idx_props(l.transactions, t.idempotency_key->0);
    }
    if t.order_data is Some {
        lemma_tx_order_idx_props(l.transactions, t.order_data->0.order_id);
        lemma_res_idx_props(l.reserves, t.order_data->0.order_id);
        assert forall|i: int|
            0 <= i < l.reserves.len() implies (#[trigger] l.reserves[i].order_id)
            != t.order_data->0.order_id by {
            if l.reserves[i].order_id == t.order_data->0.order_id {
                assert(res_idx(l.reserves, t.order_data->0.order_id) >= 0);
            }
        }
        assert forall|j: int|
            0 <= j < l.transactions.len() implies !tx_has_order(
            #[trigger] l.transactions[j],
            t.order_data->0.order_id,
        ) by {
            if tx_has_order(l.transactions[j], t.order_data->0.order_id) {
                assert(tx_order_idx(l.transactions, t.order_data->0.order_id) >= 0);
            }
        }
    }
    if t.idempotency_key is Some {
        assert forall|j: int|
            0 <= j < l.transactions.len() implies (#[trigger] l.transactions[j].idempotency_key)
            != t.idempotency_key by {
            if l.transactions[j].idempotency_key == t.idempotency_key {
                assert(tx_key_idx(l.transactions, t.idempotency_key->0) >= 0);
            }
        }
    }
    assert forall|i: int, j: int|
        0 <= i < j < ts2.len() && ts2[i].idempotency_key is Some && ts2[j].idempotency_key
        is Some implies (#[trigger] ts2[i].idempotency_key) != (
    #[trigger] ts2[j].idempotency_key) by {
        if j == ts2.len() - 1 {
            assert(ts2[j] == t);
        }
    }
    assert forall|i: int, j: int|
        0 <= i < j < ts2.len() && (#[trigger] ts2[i].order_data) is Some && (
    #[trigger] ts2[j].order_data) is Some implies ts2[i].order_data->0.order_id
        != ts2[j].order_data->0.order_id by {
        if j == ts2.len() - 1 {
            assert(ts2[j] == t);
        }
    }
    assert forall|i: int, j: int|
        0 <= i < n.reserves.len() && 0 <= j < ts2.len() implies !tx_has_order(
        #[trigger] ts2[j],
        #[trigger] n.reserves[i].order_id,
    ) by {
        if j < l.transactions.len() {
            assert(!tx_has_order(l.transactions[j], l.reserves[i].order_id));
        } else {
            assert(ts2[j] == t);
        }
    }
    assert forall|i: int|
        0 <= i < n.balances.len() implies -MAX_UNITS <= (
    #[trigger] n.balances[i]).current_value <= MAX_UNITS && n.balances[i].current_value
        == log_sum(n.transactions, n.balances[i].user_id) && 0 <= reserve_sum(
        n.reserves,
        n.balances[i].user_id,
    ) <= MAX_UNITS by {
        lemma_log_sum_push(l.transactions, t, bs[i].user_id);
        if i == bi {
            assert(n.balances[i].current_value == new_val);
            assert(0 <= reserve_sum(l.reserves, bs[bi].user_id) <= MAX_UNITS);
        } else {
            assert(bs[i].user_id != user);
            assert(tx_contrib(t, bs[i].user_id) == 0);
            assert(l.balances[i].current_value == log_sum(l.transactions, l.balances[i].user_id));
        }
    }
    assert forall|i: int|
        0 <= i < ts2.len() implies ((#[trigger] ts2[i]).recipient_id is Some ==> bal_idx(
        n.balances,
        ts2[i].recipient_id->0,
    ) >= 0 && ts2[i].recipient_value is Some) && (ts2[i].sender_id is Some ==> bal_idx(
        n.balances,
        ts2[i].sender_id->0,
    ) >= 0 && ts2[i].sender_value is Some) by {
        if i < l.transactions.len() {
            if l.transactions[i].recipient_id is Some {
                assert(bal_idx(bs, l.transactions[i].recipient_id->0) >= 0);
            }
            if l.transactions[i].sender_id is Some {
                assert(bal_idx(bs, l.transactions[i].sender_id->0) >= 0);
            }
        } else {
            assert(ts2[i] == t);
            lemma_bal_idx_props(bs, user);
            lemma_bal_idx_first(bs, user, bi);
        }
    }
}

/// The exact relation `top_up` establishes between the ledger before and
/// after the call, its arguments, the generated id, and its result.
pub open spec fn top_up_post(
    lv: LedgerV,
    fv: LedgerV,
    c: (Seq<char>, crate::currency::RatesV),
    key: Seq<char>,
    user: Seq<char>,
    req_currency: Seq<char>,
    req_value: int,
    merchant: Option<Seq<char>>,
    tx_id: i64,
    now: int,
    r: Result<i64, EngineError>,
) -> bool {
    let bs1 = upsert_balance(lv.balances, user, req_currency);
    let bi = bal_idx(bs1, user);
    let native = bs1[bi].currency;
    let before = bs1[bi].current_value;
    let delta = spec_convert(c, req_currency, req_value, native);
    let ki = tx_key_idx(lv.transactions, key);
    &&& fv.reserves == lv.reserves
    &&& if ki >= 0 {
        &&& r matches Ok(id) && id as int == lv.transactions[ki].id
        &&& fv.balances == bs1
        &&& fv.transactions == lv.transactions
    } else if -MAX_UNITS <= delta <= MAX_UNITS && -MAX_UNITS <= before + delta <= MAX_UNITS {
        &&& r matches Ok(id) && id == tx_id
        &&& fv.balances == bs1.update(bi, BalanceV { current_value: before + delta, ..bs1[bi] })
        &&& fv.transactions == lv.transactions.push(
            topup_transaction(
                key,
                user,
                req_currency,
                req_value,
                native,
                delta,
                before,
                merchant,
                tx_id as int,
                now,
            ),
        )
    } else {
        &&& r matches Err(e) && e == EngineError::AmountOutOfRange
        &&& fv.balances == bs1
        &&& fv.transactions == lv.transactions
    }
}

/// Adds funds to a user's balance, creating it on first use.
///
/// Replaying an idempotency key returns the recorded transaction id and
/// changes nothing beyond the initial balance upsert. A fresh key converts
/// the value into the user's native currency, appends one audit row with
/// the recipient's before and after balances, and writes the new balance.
pub fn top_up(
    ledger: &mut Ledger,
    curr: &CurrencyConverter,
    req_idempotency_key: &str,
    req_user_id: &str,
    req_currency: &str,
    req_value: Amount,
    req_merchant_data: Option<&str>,
    tx_id: i64,
    now_millis: i64,
) -> (r: Result<i64, EngineError>)
    requires
        wf(old(ledger)@),
        curr.wf(),
        curr.spec_is_valid(req_currency@),
        0 < req_value@ <= MAX_UNITS,
        req_idempotency_key@.len() > 0,
        req_user_id@.len() > 0,
        bal_idx(old(ledger)@.balances, req_user_id@) >= 0 ==> curr.spec_is_valid(
            old(ledger)@.balances[bal_idx(old(ledger)@.balances, req_user_id@)].currency,
        ),
    ensures
        wf(final(ledger)@),
        final(ledger)@.reserves == old(ledger)@.reserves,
        final(ledger)@.balances.len() >= old(ledger)@.balances.len(),
        top_up_post(
            old(ledger)@,
            final(ledger)@,
            curr@,
            req_idempotency_key@,
            req_user_id@,
            req_currency@,
            req_value@,
            match req_merchant_data {
                Some(m) => Some(m@),
                None => None,
            },
            tx_id,
            now_millis as int,
            r,
        ),
{
    let ghost lv = ledger@;
    proof {
        lemma_bal_idx_props(lv.balances, req_user_id@);
    }

    // Ensure a balance row exists; the first top-up fixes the native currency.
    let bi: usize = match ledger.find_balance(req_user_id) {
        Some(i) => i,
        None => {
            let idx = ledger.balances.len();
            let fresh = Balance {
                user_id: req_user_id.to_owned(),
                currency: req_currency.to_owned(),
                current_value: Amount::zero(),
            };
            ledger.balances.push(fresh);
            proof {
                assert(ledger@.balances =~= lv.balances.push(
                    BalanceV {
                        user_id: req_user_id@,
                        currency: req_currency@,
                        current_value: 0,
                    },
                ));
                assert(ledger@.reserves =~= lv.reserves);
                assert(ledger@.transactions =~= lv.transactions);
                lemma_wf_upsert(lv, req_user_id@, req_currency@);
            }
            idx
        },
    };
    let ghost l1 = ledger@;
    proof {
        assert(l1.balances == upsert_balance(lv.balances, req_user_id@, req_currency@));
        assert(wf(l1));
        assert(bal_idx(l1.balances, req_user_id@) == bi as int);
        lemma_bal_idx_props(l1.balances, req_user_id@);
    }

    // Idempotent replay: return the recorded id, change nothing further.
    if let Some(j) = ledger.find_transaction_by_key(req_idempotency_key) {
        proof {
            lemma_tx_key_idx_props(l1.transactions, req_idempotency_key@);
        }
        return Ok(ledger.transactions[j].id);
    }

    // Convert into the user's native currency and settle.
    let native_currency = ledger.balances[bi].currency.clone();
    let before = ledger.balances[bi].current_value;
    let delta = match curr.convert(req_currency, req_value, native_currency.as_str()) {
        Some(d) => d,
        None => {
            return Err(EngineError::AmountOutOfRange);
        },
    };
    let new_value = match before.checked_add(delta) {
        Some(v) => v,
        None => {
            return Err(EngineError::AmountOutOfRange);
        },
    };

    let tx = Transaction {
        id: tx_id,
        transaction_currency: req_currency.to_owned(),
        transaction_value: req_value,
        sender_id: None,
        sender_currency: None,
        sender_value: None,
        sender_balance_before: None,
        sender_balance_after: None,
        recipient_id: Some(req_user_id.to_owned()),
        recipient_currency: Some(native_currency.clone()),
        recipient_value: Some(delta),
        recipient_balance_before: Some(before),
        recipient_balance_after: Some(new_value),
        merchant_data: match req_merchant_data {
            Some(m) => Some(m.to_owned()),
            None => None,
        },
        order_data: None,
        created_at: now_millis,
        idempotency_key: Some(req_idempotency_key.to_owned()),
    };
    let ghost tv = tx@;
    ledger.transactions.push(tx);
    let updated = Balance {
        user_id: req_user_id.to_owned(),
        currency: native_currency,
        current_value: new_value,
    };
    ledger.balances[bi] = updated;
    proof {
        assert(ledger@.transactions =~= l1.transactions.push(tv));
        assert(ledger@.reserves =~= l1.reserves);
        assert(ledger@.balances =~= l1.balances.update(
            bi as int,
            BalanceV { current_value: new_value@, ..l1.balances[bi as int] },
        ));
        assert(tx_contrib(tv, l1.balances[bi as int].user_id) == delta@);
        lemma_wf_settle(l1, bi as int, tv, new_value@);
        assert(tv == topup_transaction(
            req_idempotency_key@,
            req_user_id@,
            req_currency@,
            req_value@,
            l1.balances[bi as int].currency,
            delta@,
            before@,
            match req_merchant_data {
                Some(m) => Some(m@),
                None => None,
            },
            tx_id as int,
            now_millis as int,
        ));
    }
    Ok(tx_id)
}

/// Business outcomes of `reserve`, returned in-band.
#[derive(Clone, Copy, Debug, PartialEq, Eq, Structural)]
pub enum ReserveResult {
    Reserved,
    UserNotFound,
    InsufficientFunds,
    InvalidTransactionState,
}

/// The hold a successful reserve inserts.
pub open spec fn reserve_row(
    order: Seq<char>,
    user: Seq<char>,
    item: Option<Seq<char>>,
    req_currency: Seq<char>,
    req_value: int,
    native_total: int,
    now: int,
) -> ReserveV {
    ReserveV {
        order_id: order,
        user_id: user,
        item_id: match item {
            Some(s) => s,
            None => Seq::empty(),
        },
        currency: req_currency,
        value: req_value,
        user_currency_value: native_total,
        created_at: now,
    }
}

/// The amount held for a request: the converted value, with the
/// cross-currency surcharge of six percent when the request currency is
/// not the user's native one.
pub open spec fn held_amount(
    c: (Seq<char>, crate::currency::RatesV),
    req_currency: Seq<char>,
    req_value: int,
    native: Seq<char>,
) -> int {
    let conv = spec_convert(c, req_currency, req_value, native);
    if native == req_currency {
        conv
    } else {
        crate::amount::round_half_even(conv * 106, 100)
    }
}

/// Inserting a fresh hold for an existing user keeps the ledger
/// well-formed, provided the user's holds stay within range.
proof fn lemma_wf_insert_reserve(l: LedgerV, rv: ReserveV)
    requires
        wf(l),
        res_idx(l.reserves, rv.order_id) < 0,
        tx_order_idx(l.transactions, rv.order_id) < 0,
        bal_idx(l.balances, rv.user_id) >= 0,
        0 <= rv.user_currency_value <= MAX_UNITS,
        0 < rv.value <= MAX_UNITS,
        reserve_sum(l.reserves, rv.user_id) + rv.user_currency_value <= MAX_UNITS,
    ensures
        wf(
            LedgerV {
                balances: l.balances,
                reserves: l.reserves.push(rv),
                transactions: l.transactions,
            },
        ),
{
    let rs2 = l.reserves.push(rv);
    let n = LedgerV { balances: l.balances, reserves: rs2, transactions: l.transactions };
    lemma_res_idx_props(l.reserves, rv.order_id);
    assert forall|i: int|
        0 <= i < l.reserves.len() implies (#[trigger] l.reserves[i].order_id)
        != rv.order_id by {
        if l.reserves[i].order_id == rv.order_id {
            assert(res_idx(l.reserves, rv.order_id) >= 0);
        }
    }
    lemma_tx_order_idx_props(l.transactions, rv.order_id);
    assert forall|j: int|
        0 <= j < l.transactions.len() implies !tx_has_order(
        #[trigger] l.transactions[j],
        rv.order_id,
    ) by {
        if tx_has_order(l.transactions[j], rv.order_id) {
            assert(tx_order_idx(l.transactions, rv.order_id) >= 0);
        }
    }
    assert forall|i: int|
        0 <= i < n.balances.len() implies -MAX_UNITS <= (
    #[trigger] n.balances[i]).current_value <= MAX_UNITS && n.balances[i].current_value
        == log_sum(n.transactions, n.balances[i].user_id) && 0 <= reserve_sum(
        n.reserves,
        n.balances[i].user_id,
    ) <= MAX_UNITS by {
        lemma_reserve_sum_push(l.reserves, rv, l.balances[i].user_id);
        assert(l.balances[i].current_value == log_sum(l.transactions, l.balances[i].user_id));
        assert(0 <= reserve_sum(l.reserves, l.balances[i].user_id) <= MAX_UNITS);
    }
}

/// Sums the active holds of a user.
pub(crate) fn sum_user_reserves(ledger: &Ledger, user_id: &str) -> (r: Amount)
    requires
        wf(ledger@),
        bal_idx(ledger@.balances, user_id@) >= 0,
    ensures
        r@ == reserve_sum(ledger@.reserves, user_id@),
        0 <= r@ <= MAX_UNITS,
{
    let ghost rv = ledger@.reserves;
    let ghost total = reserve_sum(rv, user_id@);
    proof {
        lemma_bal_idx_props(ledger@.balances, user_id@);
        assert(0 <= total <= MAX_UNITS);
    }
    let n = ledger.reserves.len();
    let mut acc: i128 = 0;
    let mut i: usize = 0;
    proof {
        assert(rv.take(0) =~= Seq::<ReserveV>::empty());
    }
    while i < n
        invariant
            0 <= i <= n,
            n == ledger.reserves.len(),
            rv == ledger@.reserves,
            rv.len() == n as int,
            total == reserve_sum(rv, user_id@),
            0 <= total <= MAX_UNITS,
            forall|k: int| 0 <= k < rv.len() ==> (#[trigger] rv[k].user_currency_value) >= 0,
            acc == reserve_sum(rv.take(i as int), user_id@),
            0 <= acc,
        decreases n - i,
    {
        proof {
            lemma_reserve_sum_prefix(rv, i as int + 1, user_id@);
            assert(rv.take(i as int + 1).drop_last() =~= rv.take(i as int));
            assert(rv.take(i as int + 1).last() == rv[i as int]);
        }
        if crate::strutil::str_eq(user_id, ledger.reserves[i].user_id.as_str()) {
            acc = acc + ledger.reserves[i].user_currency_value.units();
        }
        i = i + 1;
    }
    proof {
        assert(rv.take(n as int) =~= rv);
    }
    Amount::from_units(acc)
}

/// The exact relation `reserve` establishes between the states, its
/// arguments and its result.
pub open spec fn reserve_post(
    lv: LedgerV,
    fv: LedgerV,
    c: (Seq<char>, crate::currency::RatesV),
    user: Seq<char>,
    req_currency: Seq<char>,
    req_value: int,
    order: Seq<char>,
    item: Option<Seq<char>>,
    now: int,
    r: Result<ReserveResult, EngineError>,
) -> bool {
    let bi = bal_idx(lv.balances, user);
    &&& fv.balances == lv.balances
    &&& fv.transactions == lv.transactions
    &&& if bi < 0 {
        r matches Ok(v) && v == ReserveResult::UserNotFound && fv.reserves == lv.reserves
    } else if res_idx(lv.reserves, order) >= 0 {
        r matches Ok(v) && v == ReserveResult::Reserved && fv.reserves == lv.reserves
    } else if tx_order_idx(lv.transactions, order) >= 0 {
        r matches Ok(v) && v == ReserveResult::InvalidTransactionState && fv.reserves
            == lv.reserves
    } else {
        let native = lv.balances[bi].currency;
        let conv = spec_convert(c, req_currency, req_value, native);
        let total = held_amount(c, req_currency, req_value, native);
        if !(-MAX_UNITS <= conv <= MAX_UNITS) || !(-MAX_UNITS <= total <= MAX_UNITS) {
            r matches Err(e) && e == EngineError::AmountOutOfRange && fv.reserves == lv.reserves
        } else if lv.balances[bi].current_value - reserve_sum(lv.reserves, user) < total {
            r matches Ok(v) && v == ReserveResult::InsufficientFunds && fv.reserves
                == lv.reserves
        } else {
            r matches Ok(v) && v == ReserveResult::Reserved && fv.reserves == lv.reserves.push(
                reserve_row(order, user, item, req_currency, req_value, total, now),
            )
        }
    }
}

/// Places a hold on a user's funds for an order.
///
/// The outcome follows the order's state machine: an unknown user is
/// reported, an already-held order replays as success, a settled order is
/// an invalid state, and a hold is inserted only when the user's spendable
/// funds cover the converted value with its surcharge.
pub fn reserve(
    ledger: &mut Ledger,
    curr: &CurrencyConverter,
    req_user_id: &str,
    req_currency: &str,
    req_value: Amount,
    req_order_id: &str,
    req_item_id: Option<&str>,
    now_millis: i64,
) -> (r: Result<ReserveResult, EngineError>)
    requires
        wf(old(ledger)@),
        curr.wf(),
        curr.spec_is_valid(req_currency@),
        0 < req_value@ <= MAX_UNITS,
        req_user_id@.len() > 0,
        req_order_id@.len() > 0,
        bal_idx(old(ledger)@.balances, req_user_id@) >= 0 ==> curr.spec_is_valid(
            old(ledger)@.balances[bal_idx(old(ledger)@.balances, req_user_id@)].currency,
        ),
    ensures
        wf(final(ledger)@),
        final(ledger)@.balances == old(ledger)@.balances,
        final(ledger)@.transactions == old(ledger)@.transactions,
        reserve_post(
            old(ledger)@,
            final(ledger)@,
            curr@,
            req_user_id@,
            req_currency@,
            req_value@,
            req_order_id@,
            match req_item_id {
                Some(s) => Some(s@),
                None => None,
            },
            now_millis as int,
            r,
        ),
{
    let ghost lv = ledger@;

    // Load the user's balance row.
    let bi: usize = match ledger.find_balance(req_user_id) {
        Some(i) => i,
        None => {
            return Ok(ReserveResult::UserNotFound);
        },
    };
    proof {
        lemma_bal_idx_props(lv.balances, req_user_id@);
    }

    // Sum the user's active holds.
    let reserved = sum_user_reserves(ledger, req_user_id);

    // Idempotent replay: the order is already held.
    if ledger.find_reserve(req_order_id).is_some() {
        return Ok(ReserveResult::Reserved);
    }
    // A settled order can no longer be held.
    if ledger.find_transaction_by_order(req_order_id).is_some() {
        return Ok(ReserveResult::InvalidTransactionState);
    }

    // Convert into the user's native currency, with the cross-currency
    // surcharge.
    let native_currency = ledger.balances[bi].currency.clone();
    let conv = match curr.convert(req_currency, req_value, native_currency.as_str()) {
        Some(c) => c,
        None => {
            return Err(EngineError::AmountOutOfRange);
        },
    };
    let total: Amount = if crate::strutil::str_eq(native_currency.as_str(), req_currency) {
        conv
    } else {
        match crate::amount::mul_div_round(conv.units(), 106, 100) {
            Some(t) => Amount::from_units(t),
            None => {
                return Err(EngineError::AmountOutOfRange);
            },
        }
    };
    proof {
        crate::currency::lemma_spec_convert_nonneg(
            curr@,
            req_currency@,
            req_value@,
            lv.balances[bi as int].currency,
        );
        crate::amount::lemma_round_half_even_nonneg(conv@ * 106, 100);
    }

    // The spendable check: current value less active holds must cover it.
    let spendable = ledger.balances[bi].current_value.sub_wide(reserved);
    if spendable.lt(&total) {
        return Ok(ReserveResult::InsufficientFunds);
    }

    let row = crate::models::BalanceReserve {
        order_id: req_order_id.to_owned(),
        user_id: req_user_id.to_owned(),
        item_id: match req_item_id {
            Some(s) => s.to_owned(),
            None => String::new(),
        },
        currency: req_currency.to_owned(),
        value: req_value,
        user_currency_value: total,
        created_at: now_millis,
    };
    let ghost rvv = row@;
    ledger.reserves.push(row);
    proof {
        assert(ledger@.reserves =~= lv.reserves.push(rvv));
        assert(ledger@.balances =~= lv.balances);
        assert(ledger@.transactions =~= lv.transactions);
        lemma_wf_insert_reserve(lv, rvv);
        assert(rvv == reserve_row(
            req_order_id@,
            req_user_id@,
            match req_item_id {
                Some(s) => Some(s@),
                None => None,
            },
            req_currency@,
            req_value@,
            total@,
            now_millis as int,
        ));
    }
    Ok(ReserveResult::Reserved)
}

/// Outcomes of `commit`: the settling transaction's id, or a report that
/// the order has no active hold.
#[derive(Clone, Copy, Debug, PartialEq, Eq, Structural)]
pub enum CommitResult {
    Committed(i64),
    InvalidTransactionState,
}

/// The audit row a successful commit appends: the sender's side is filled
/// and the order reference is carried in the order data.
pub open spec fn commit_transaction(
    rv: ReserveV,
    native_currency: Seq<char>,
    settle: int,
    before: int,
    id: int,
    now: int,
) -> TransactionV {
    TransactionV {
        id: id,
        transaction_currency: rv.currency,
        transaction_value: rv.value,
        sender_id: Some(rv.user_id),
        sender_currency: Some(native_currency),
        sender_value: Some(settle),
        sender_balance_before: Some(before),
        sender_balance_after: Some(before - settle),
        recipient_id: None,
        recipient_currency: None,
        recipient_value: None,
        recipient_balance_before: None,
        recipient_balance_after: None,
        merchant_data: None,
        order_data: Some(crate::models::OrderDataV { order_id: rv.order_id, item_id: rv.item_id }),
        created_at: now,
        idempotency_key: None,
    }
}

/// Removing one hold keeps the ledger well-formed, and its order is then
/// no longer held.
proof fn lemma_wf_remove_reserve(l: LedgerV, i: int)
    requires
        wf(l),
        0 <= i < l.reserves.len(),
    ensures
        wf(LedgerV { balances: l.balances, reserves: l.reserves.remove(i), transactions: l.transactions }),
        res_idx(l.reserves.remove(i), l.reserves[i].order_id) < 0,
{
    let rs2 = l.reserves.remove(i);
    let n = LedgerV { balances: l.balances, reserves: rs2, transactions: l.transactions };
    assert(forall|k: int|
        0 <= k < rs2.len() ==> #[trigger] rs2[k] == (if k < i {
            l.reserves[k]
        } else {
            l.reserves[k + 1]
        }));
    lemma_res_idx_props(rs2, l.reserves[i].order_id);
    if res_idx(rs2, l.reserves[i].order_id) >= 0 {
        let k = res_idx(rs2, l.reserves[i].order_id);
        assert(rs2[k].order_id == l.reserves[i].order_id);
    }
    assert forall|b: int|
        0 <= b < n.balances.len() implies -MAX_UNITS <= (
    #[trigger] n.balances[b]).current_value <= MAX_UNITS && n.balances[b].current_value
        == log_sum(n.transactions, n.balances[b].user_id) && 0 <= reserve_sum(
        n.reserves,
        n.balances[b].user_id,
    ) <= MAX_UNITS by {
        let u = l.balances[b].user_id;
        assert(l.balances[b].current_value == log_sum(l.transactions, u));
        assert(0 <= reserve_sum(l.reserves, u) <= MAX_UNITS);
        lemma_reserve_sum_remove(l.reserves, i, u);
        lemma_reserve_sum_nonneg(rs2, u);
    }
}

/// The exact relation `commit` establishes between the states, its
/// arguments, the generated id, and its result.
pub open spec fn commit_post(
    lv: LedgerV,
    fv: LedgerV,
    c: (Seq<char>, crate::currency::RatesV),
    order: Seq<char>,
    tx_id: i64,
    now: int,
    r: Result<CommitResult, EngineError>,
) -> bool {
    let ti = tx_order_idx(lv.transactions, order);
    let ri = res_idx(lv.reserves, order);
    if ti >= 0 {
        &&& r matches Ok(cr) && cr == CommitResult::Committed(lv.transactions[ti].id as i64)
        &&& fv == lv
    } else if ri < 0 {
        &&& r matches Ok(cr) && cr == CommitResult::InvalidTransactionState
        &&& fv == lv
    } else {
        let rv = lv.reserves[ri];
        let bi = bal_idx(lv.balances, rv.user_id);
        let native = lv.balances[bi].currency;
        let settle = spec_convert(c, rv.currency, rv.value, native);
        let before = lv.balances[bi].current_value;
        if -MAX_UNITS <= settle <= MAX_UNITS && -MAX_UNITS <= before - settle <= MAX_UNITS {
            &&& r matches Ok(cr) && cr == CommitResult::Committed(tx_id)
            &&& fv.reserves == lv.reserves.remove(ri)
            &&& fv.transactions == lv.transactions.push(
                commit_transaction(rv, native, settle, before, tx_id as int, now),
            )
            &&& fv.balances == lv.balances.update(
                bi,
                BalanceV { current_value: before - settle, ..lv.balances[bi] },
            )
        } else {
            &&& r matches Err(e) && e == EngineError::AmountOutOfRange
            &&& fv == lv
        }
    }
}

/// Settles a held order: writes the audit row, debits the balance, and
/// releases the hold.
///
/// Replaying the commit of a settled order returns the recorded
/// transaction id and changes nothing; an order that was never held, or
/// whose hold is gone, is an invalid state.
pub fn commit(
    ledger: &mut Ledger,
    curr: &CurrencyConverter,
    req_order_id: &str,
    tx_id: i64,
    now_millis: i64,
) -> (r: Result<CommitResult, EngineError>)
    requires
        wf(old(ledger)@),
        curr.wf(),
        req_order_id@.len() > 0,
        ({
            let lv = old(ledger)@;
            let ri = res_idx(lv.reserves, req_order_id@);
            ri >= 0 ==> curr.spec_is_valid(lv.reserves[ri].currency) && curr.spec_is_valid(
                lv.balances[bal_idx(lv.balances, lv.reserves[ri].user_id)].currency,
            )
        }),
    ensures
        wf(final(ledger)@),
        commit_post(old(ledger)@, final(ledger)@, curr@, req_order_id@, tx_id, now_millis as int, r),
{
    let ghost lv = ledger@;

    // Idempotent replay: the order has already been settled.
    if let Some(j) = ledger.find_transaction_by_order(req_order_id) {
        proof {
            lemma_tx_order_idx_props(lv.transactions, req_order_id@);
        }
        return Ok(CommitResult::Committed(ledger.transactions[j].id));
    }

    // Load the hold; without one the order cannot be settled.
    let ri: usize = match ledger.find_reserve(req_order_id) {
        Some(i) => i,
        None => {
            return Ok(CommitResult::InvalidTransactionState);
        },
    };
    proof {
        lemma_res_idx_props(lv.reserves, req_order_id@);
    }
    let r_user = ledger.reserves[ri].user_id.clone();
    let r_item = ledger.reserves[ri].item_id.clone();
    let r_currency = ledger.reserves[ri].currency.clone();
    let r_value = ledger.reserves[ri].value;

    // The hold's owner always has a balance row.
    let bi: usize = match ledger.find_balance(r_user.as_str()) {
        Some(i) => i,
        None => {
            proof {
                assert(false);
            }
            return Ok(CommitResult::InvalidTransactionState);
        },
    };
    proof {
        lemma_bal_idx_props(lv.balances, r_user@);
        assert(0 < r_value@ <= MAX_UNITS);
    }
    let native_currency = ledger.balances[bi].currency.clone();
    let before = ledger.balances[bi].current_value;

    // Settle at today's rates, without the reservation surcharge.
    let settle = match curr.convert(r_currency.as_str(), r_value, native_currency.as_str()) {
        Some(s) => s,
        None => {
            return Err(EngineError::AmountOutOfRange);
        },
    };
    let new_value = match before.checked_sub(settle) {
        Some(v) => v,
        None => {
            return Err(EngineError::AmountOutOfRange);
        },
    };

    let tx = Transaction {
        id: tx_id,
        transaction_currency: r_currency,
        transaction_value: r_value,
        sender_id: Some(r_user.clone()),
        sender_currency: Some(native_currency.clone()),
        sender_value: Some(settle),
        sender_balance_before: Some(before),
        sender_balance_after: Some(new_value),
        recipient_id: None,
        recipient_currency: None,
        recipient_value: None,
        recipient_balance_before: None,
        recipient_balance_after: None,
        merchant_data: None,
        order_data: Some(crate::models::OrderData { order_id: req_order_id.to_owned(), item_id: r_item }),
        created_at: now_millis,
        idempotency_key: None,
    };
    let ghost tv = tx@;
    let ghost rv = lv.reserves[ri as int];

    ledger.reserves.remove(ri);
    let ghost l2 = ledger@;
    proof {
        assert(l2.reserves =~= lv.reserves.remove(ri as int));
        assert(l2.balances =~= lv.balances);
        assert(l2.transactions =~= lv.transactions);
        lemma_wf_remove_reserve(lv, ri as int);
    }
    ledger.transactions.push(tx);
    let updated = Balance {
        user_id: r_user,
        currency: native_currency,
        current_value: new_value,
    };
    ledger.balances[bi] = updated;
    proof {
        assert(ledger@.transactions =~= l2.transactions.push(tv));
        assert(ledger@.reserves =~= l2.reserves);
        assert(ledger@.balances =~= l2.balances.update(
            bi as int,
            BalanceV { current_value: new_value@, ..l2.balances[bi as int] },
        ));
        assert(tx_contrib(tv, l2.balances[bi as int].user_id) == -settle@);
        lemma_tx_order_idx_props(lv.transactions, req_order_id@);
        lemma_wf_settle(l2, bi as int, tv, new_value@);
        assert(tv == commit_transaction(
            rv,
            lv.balances[bi as int].currency,
            settle@,
            before@,
            tx_id as int,
            now_millis as int,
        ));
    }
    Ok(CommitResult::Committed(tx_id))
}

} // verus!
