//! Ledger-wide laws, stated and proved against the model.
//!
//! Each law here is a consequence of the operation contracts in
//! [`crate::mutations`] together with the well-formedness predicate
//! [`crate::models::wf`] that every operation preserves.

use crate::currency::RatesV;
use crate::models::{
    bal_idx, lemma_reserve_sum_push, lemma_tx_key_idx_first, lemma_tx_key_idx_props,
    lemma_tx_order_idx_first, lemma_tx_order_idx_props, log_sum, res_idx, reserve_sum,
    tx_has_order, tx_key_idx, tx_order_idx, wf, LedgerV, ReserveV, TransactionV,
};
use crate::mutations::{commit_post, top_up_post, CommitResult, EngineError};
use vstd::prelude::*;

verus! {

/// The amounts credited to `user` by the log: the sum of the recipient
/// values of the rows that name the user as recipient.
pub open spec fn credited_sum(ts: Seq<TransactionV>, user: Seq<char>) -> int
    decreases ts.len(),
{
    if ts.len() == 0 {
        0
    } else {
        credited_sum(ts.drop_last(), user) + (if ts.last().recipient_id == Some(user)
            && ts.last().recipient_value is Some {
            ts.last().recipient_value->0
        } else {
            0
        })
    }
}

proof fn lemma_log_sum_is_credited_when_no_sender(ts: Seq<TransactionV>, user: Seq<char>)
    requires
        forall|i: int| 0 <= i < ts.len() ==> (#[trigger] ts[i].sender_id) is None,
    ensures
        log_sum(ts, user) == credited_sum(ts, user),
    decreases ts.len(),
{
    if ts.len() > 0 {
        lemma_log_sum_is_credited_when_no_sender(ts.drop_last(), user);
    }
}

/// After any sequence of top-ups — the only operations that append rows
/// without a sender — a user's balance is exactly the sum of the amounts
/// credited to the user, each of which `top_up` pins to the converted
/// request value. With pairwise-distinct idempotency keys every call
/// appends exactly one row, so the balance is the sum of the converted
/// amounts.
pub proof fn lemma_topups_sum_to_balance(l: LedgerV, user: Seq<char>)
    requires
        wf(l),
        bal_idx(l.balances, user) >= 0,
        forall|i: int| 0 <= i < l.transactions.len() ==> (#[trigger] l.transactions[i].sender_id) is None,
    ensures
        l.balances[bal_idx(l.balances, user)].current_value == credited_sum(
            l.transactions,
            user,
        ),
{
    crate::models::lemma_bal_idx_props(l.balances, user);
    lemma_log_sum_is_credited_when_no_sender(l.transactions, user);
}

/// At most one audit row carries any idempotency key, so a repeated
/// `top_up` with the same key finds the single recorded row, returns its
/// id, and leaves the ledger unchanged.
pub proof fn lemma_idempotency_key_unique(l: LedgerV, key: Seq<char>, i: int, j: int)
    requires
        wf(l),
        0 <= i < l.transactions.len(),
        0 <= j < l.transactions.len(),
        i != j,
        l.transactions[i].idempotency_key == Some(key),
    ensures
        l.transactions[j].idempotency_key != Some(key),
{
}

/// Once a settling transaction exists for an order, no hold for that
/// order remains: a committed reservation leaves no residual hold, and
/// the order can be neither held nor settled again.
pub proof fn lemma_no_hold_after_settlement(l: LedgerV, order: Seq<char>)
    requires
        wf(l),
        tx_order_idx(l.transactions, order) >= 0,
    ensures
        res_idx(l.reserves, order) < 0,
{
    crate::models::lemma_tx_order_idx_props(l.transactions, order);
    crate::models::lemma_res_idx_props(l.reserves, order);
    if res_idx(l.reserves, order) >= 0 {
        let ri = res_idx(l.reserves, order);
        let ti = tx_order_idx(l.transactions, order);
        assert(tx_has_order(l.transactions[ti], l.reserves[ri].order_id));
    }
}

/// A successful hold never overcommits a user: when the spendable check
/// passes, the holds after the insert still total no more than the
/// current balance, so holds whose native sum exceeds the spendable
/// balance cannot all succeed, however the calls interleave.
pub proof fn lemma_reserve_never_overcommits(l: LedgerV, row: ReserveV)
    requires
        wf(l),
        bal_idx(l.balances, row.user_id) >= 0,
        row.user_currency_value >= 0,
        l.balances[bal_idx(l.balances, row.user_id)].current_value - reserve_sum(
            l.reserves,
            row.user_id,
        ) >= row.user_currency_value,
    ensures
        reserve_sum(l.reserves.push(row), row.user_id) == reserve_sum(l.reserves, row.user_id)
            + row.user_currency_value,
        l.balances[bal_idx(l.balances, row.user_id)].current_value - reserve_sum(
            l.reserves.push(row),
            row.user_id,
        ) >= 0,
{
    lemma_reserve_sum_push(l.reserves, row, row.user_id);
}

/// Replaying a top-up key is stable: once a call with a fresh key has
/// recorded its transaction, any later top-up with the same key — whatever
/// its other arguments — returns the same id and writes nothing new to the
/// log or the holds.
pub proof fn lemma_top_up_replay_is_stable(
    lv: LedgerV,
    f1: LedgerV,
    f2: LedgerV,
    c: (Seq<char>, RatesV),
    key: Seq<char>,
    user: Seq<char>,
    cur: Seq<char>,
    val: int,
    md: Option<Seq<char>>,
    id1: i64,
    now1: int,
    user2: Seq<char>,
    cur2: Seq<char>,
    val2: int,
    md2: Option<Seq<char>>,
    id2: i64,
    now2: int,
    r2: Result<i64, EngineError>,
)
    requires
        tx_key_idx(lv.transactions, key) < 0,
        top_up_post(lv, f1, c, key, user, cur, val, md, id1, now1, Ok(id1)),
        top_up_post(f1, f2, c, key, user2, cur2, val2, md2, id2, now2, r2),
    ensures
        r2 == Ok::<i64, EngineError>(id1),
        f2.transactions == f1.transactions,
        f2.reserves == f1.reserves,
{
    lemma_tx_key_idx_props(lv.transactions, key);
    assert forall|j: int|
        0 <= j < lv.transactions.len() implies (#[trigger] lv.transactions[j].idempotency_key)
        != Some(key) by {
        if lv.transactions[j].idempotency_key == Some(key) {
            assert(tx_key_idx(lv.transactions, key) >= 0);
        }
    }
    lemma_tx_key_idx_first(f1.transactions, key, lv.transactions.len() as int);
}

/// Replaying a commit is stable: once an order has settled, any later
/// commit of it — under any rate snapshot and with any generated id —
/// returns the recorded transaction id and changes nothing.
pub proof fn lemma_commit_replay_is_stable(
    lv: LedgerV,
    f1: LedgerV,
    f2: LedgerV,
    c1: (Seq<char>, RatesV),
    c2: (Seq<char>, RatesV),
    order: Seq<char>,
    id1: i64,
    now1: int,
    id2: i64,
    now2: int,
    r2: Result<CommitResult, EngineError>,
)
    requires
        tx_order_idx(lv.transactions, order) < 0,
        res_idx(lv.reserves, order) >= 0,
        commit_post(lv, f1, c1, order, id1, now1, Ok(CommitResult::Committed(id1))),
        commit_post(f1, f2, c2, order, id2, now2, r2),
    ensures
        r2 == Ok::<CommitResult, EngineError>(CommitResult::Committed(id1)),
        f2 == f1,
{
    crate::models::lemma_res_idx_props(lv.reserves, order);
    lemma_tx_order_idx_props(lv.transactions, order);
    assert forall|j: int|
        0 <= j < lv.transactions.len() implies !tx_has_order(
        #[trigger] lv.transactions[j],
        order,
    ) by {
        if tx_has_order(lv.transactions[j], order) {
            assert(tx_order_idx(lv.transactions, order) >= 0);
        }
    }
    assert(tx_has_order(f1.transactions[lv.transactions.len() as int], order));
    lemma_tx_order_idx_first(f1.transactions, order, lv.transactions.len() as int);
}

} // verus!
