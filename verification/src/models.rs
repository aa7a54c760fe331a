//! The ledger's data model and its invariants.
//!
//! Three record kinds mirror the persistent tables: a [`Balance`] per user,
//! a [`BalanceReserve`] per active order hold, and an append-only
//! [`Transaction`] log. A [`Ledger`] value is one consistent state of all
//! three. Its well-formedness predicate [`wf`] carries the ledger rules:
//! unique users, orders and idempotency keys, holds that always belong to
//! an existing user, and every balance equal to the signed sum of its
//! transaction log entries.

use crate::amount::{Amount, MAX_UNITS};
use vstd::prelude::*;

verus! {

/// One user's funds in their native currency.
pub struct Balance {
    pub user_id: String,
    pub currency: String,
    pub current_value: Amount,
}

/// An active hold of funds for an order.
pub struct BalanceReserve {
    pub order_id: String,
    pub user_id: String,
    pub item_id: String,
    pub currency: String,
    pub value: Amount,
    pub user_currency_value: Amount,
    pub created_at: i64,
}

/// Structured order reference carried by a settling transaction.
pub struct OrderData {
    pub order_id: String,
    pub item_id: String,
}

/// One immutable row of the audit log.
pub struct Transaction {
    pub id: i64,
    pub transaction_currency: String,
    pub transaction_value: Amount,
    pub sender_id: Option<String>,
    pub sender_currency: Option<String>,
    pub sender_value: Option<Amount>,
    pub sender_balance_before: Option<Amount>,
    pub sender_balance_after: Option<Amount>,
    pub recipient_id: Option<String>,
    pub recipient_currency: Option<String>,
    pub recipient_value: Option<Amount>,
    pub recipient_balance_before: Option<Amount>,
    pub recipient_balance_after: Option<Amount>,
    pub merchant_data: Option<String>,
    pub order_data: Option<OrderData>,
    pub created_at: i64,
    pub idempotency_key: Option<String>,
}

/// The whole ledger state.
pub struct Ledger {
    pub balances: Vec<Balance>,
    pub reserves: Vec<BalanceReserve>,
    pub transactions: Vec<Transaction>,
}

// Spec-level shadows of the records, over sequences of characters and
// exact integers.

pub struct BalanceV {
    pub user_id: Seq<char>,
    pub currency: Seq<char>,
    pub current_value: int,
}

pub struct ReserveV {
    pub order_id: Seq<char>,
    pub user_id: Seq<char>,
    pub item_id: Seq<char>,
    pub currency: Seq<char>,
    pub value: int,
    pub user_currency_value: int,
    pub created_at: int,
}

pub struct OrderDataV {
    pub order_id: Seq<char>,
    pub item_id: Seq<char>,
}

pub struct TransactionV {
    pub id: int,
    pub transaction_currency: Seq<char>,
    pub transaction_value: int,
    pub sender_id: Option<Seq<char>>,
    pub sender_currency: Option<Seq<char>>,
    pub sender_value: Option<int>,
    pub sender_balance_before: Option<int>,
    pub sender_balance_after: Option<int>,
    pub recipient_id: Option<Seq<char>>,
    pub recipient_currency: Option<Seq<char>>,
    pub recipient_value: Option<int>,
    pub recipient_balance_before: Option<int>,
    pub recipient_balance_after: Option<int>,
    pub merchant_data: Option<Seq<char>>,
    pub order_data: Option<OrderDataV>,
    pub created_at: int,
    pub idempotency_key: Option<Seq<char>>,
}

pub struct LedgerV {
    pub balances: Seq<BalanceV>,
    pub reserves: Seq<ReserveV>,
    pub transactions: Seq<TransactionV>,
}

pub open spec fn view_opt_str(o: Option<String>) -> Option<Seq<char>> {
    match o {
        Some(s) => Some(s@),
        None => None,
    }
}

pub open spec fn view_opt_amount(o: Option<Amount>) -> Option<int> {
    match o {
        Some(a) => Some(a@),
        None => None,
    }
}

impl View for Balance {
    type V = BalanceV;

    open spec fn view(&self) -> BalanceV {
        BalanceV {
            user_id: self.user_id@,
            currency: self.currency@,
            current_value: self.current_value@,
        }
    }
}

impl View for BalanceReserve {
    type V = ReserveV;

    open spec fn view(&self) -> ReserveV {
        ReserveV {
            order_id: self.order_id@,
            user_id: self.user_id@,
            item_id: self.item_id@,
            currency: self.currency@,
            value: self.value@,
            user_currency_value: self.user_currency_value@,
            created_at: self.created_at as int,
        }
    }
}

impl View for OrderData {
    type V = OrderDataV;

    open spec fn view(&self) -> OrderDataV {
        OrderDataV { order_id: self.order_id@, item_id: self.item_id@ }
    }
}

impl View for Transaction {
    type V = TransactionV;

    open spec fn view(&self) -> TransactionV {
        TransactionV {
            id: self.id as int,
            transaction_currency: self.transaction_currency@,
            transaction_value: self.transaction_value@,
            sender_id: view_opt_str(self.sender_id),
            sender_currency: view_opt_str(self.sender_currency),
            sender_value: view_opt_amount(self.sender_value),
            sender_balance_before: view_opt_amount(self.sender_balance_before),
            sender_balance_after: view_opt_amount(self.sender_balance_after),
            recipient_id: view_opt_str(self.recipient_id),
            recipient_currency: view_opt_str(self.recipient_currency),
            recipient_value: view_opt_amount(self.recipient_value),
            recipient_balance_before: view_opt_amount(self.recipient_balance_before),
            recipient_balance_after: view_opt_amount(self.recipient_balance_after),
            merchant_data: view_opt_str(self.merchant_data),
            order_data: match self.order_data {
                Some(o) => Some(o@),
                None => None,
            },
            created_at: self.created_at as int,
            idempotency_key: view_opt_str(self.idempotency_key),
        }
    }
}

impl View for Ledger {
    type V = LedgerV;

    open spec fn view(&self) -> LedgerV {
        LedgerV {
            balances: self.balances@.map_values(|b: Balance| b@),
            reserves: self.reserves@.map_values(|r: BalanceReserve| r@),
            transactions: self.transactions@.map_values(|t: Transaction| t@),
        }
    }
}

// First-match indexes into the three sequences.

/// Index of the balance row of `user`, or `-1`.
pub open spec fn bal_idx(bs: Seq<BalanceV>, user: Seq<char>) -> int
    decreases bs.len(),
{
    if bs.len() == 0 {
        -1
    } else if bs[0].user_id == user {
        0
    } else {
        let t = bal_idx(bs.drop_first(), user);
        if t < 0 {
            -1
        } else {
            1 + t
        }
    }
}

/// Index of the reserve row of `order`, or `-1`.
pub open spec fn res_idx(rs: Seq<ReserveV>, order: Seq<char>) -> int
    decreases rs.len(),
{
    if rs.len() == 0 {
        -1
    } else if rs[0].order_id == order {
        0
    } else {
        let t = res_idx(rs.drop_first(), order);
        if t < 0 {
            -1
        } else {
            1 + t
        }
    }
}

/// Index of the transaction with idempotency key `key`, or `-1`.
pub open spec fn tx_key_idx(ts: Seq<TransactionV>, key: Seq<char>) -> int
    decreases ts.len(),
{
    if ts.len() == 0 {
        -1
    } else if ts[0].idempotency_key == Some(key) {
        0
    } else {
        let t = tx_key_idx(ts.drop_first(), key);
        if t < 0 {
            -1
        } else {
            1 + t
        }
    }
}

pub open spec fn tx_has_order(t: TransactionV, order: Seq<char>) -> bool {
    t.order_data matches Some(o) && o.order_id == order
}

/// Index of the transaction whose order data names `order`, or `-1`.
pub open spec fn tx_order_idx(ts: Seq<TransactionV>, order: Seq<char>) -> int
    decreases ts.len(),
{
    if ts.len() == 0 {
        -1
    } else if tx_has_order(ts[0], order) {
        0
    } else {
        let t = tx_order_idx(ts.drop_first(), order);
        if t < 0 {
            -1
        } else {
            1 + t
        }
    }
}

// Signed sums over the log and the holds.

/// What one log row contributes to `user`'s balance.
pub open spec fn tx_contrib(t: TransactionV, user: Seq<char>) -> int {
    (if t.recipient_id == Some(user) && t.recipient_value is Some {
        t.recipient_value->0
    } else {
        0
    }) - (if t.sender_id == Some(user) && t.sender_value is Some {
        t.sender_value->0
    } else {
        0
    })
}

/// Signed sum of the log over `user`: received minus sent.
pub open spec fn log_sum(ts: Seq<TransactionV>, user: Seq<char>) -> int
    decreases ts.len(),
{
    if ts.len() == 0 {
        0
    } else {
        log_sum(ts.drop_last(), user) + tx_contrib(ts.last(), user)
    }
}

/// Sum of the active holds of `user`, in the user's native currency.
pub open spec fn reserve_sum(rs: Seq<ReserveV>, user: Seq<char>) -> int
    decreases rs.len(),
{
    if rs.len() == 0 {
        0
    } else {
        reserve_sum(rs.drop_last(), user) + (if rs.last().user_id == user {
            rs.last().user_currency_value
        } else {
            0
        })
    }
}

/// The ledger rules: key uniqueness, referential soundness, bounded
/// amounts, and each balance written back by its own log.
pub open spec fn wf(l: LedgerV) -> bool {
    &&& forall|i: int, j: int|
        0 <= i < j < l.balances.len() ==> (#[trigger] l.balances[i].user_id) != (
        #[trigger] l.balances[j].user_id)
    &&& forall|i: int, j: int|
        0 <= i < j < l.reserves.len() ==> (#[trigger] l.reserves[i].order_id) != (
        #[trigger] l.reserves[j].order_id)
    &&& forall|i: int, j: int|
        0 <= i < j < l.transactions.len() && l.transactions[i].idempotency_key is Some
            && l.transactions[j].idempotency_key is Some ==> (
        #[trigger] l.transactions[i].idempotency_key) != (
        #[trigger] l.transactions[j].idempotency_key)
    &&& forall|i: int, j: int|
        0 <= i < j < l.transactions.len() && (#[trigger] l.transactions[i].order_data) is Some
            && (#[trigger] l.transactions[j].order_data) is Some
            ==> l.transactions[i].order_data->0.order_id
            != l.transactions[j].order_data->0.order_id
    &&& forall|i: int, j: int|
        0 <= i < l.reserves.len() && 0 <= j < l.transactions.len() ==> !tx_has_order(
            #[trigger] l.transactions[j],
            #[trigger] l.reserves[i].order_id,
        )
    &&& forall|i: int|
        0 <= i < l.reserves.len() ==> bal_idx(l.balances, (#[trigger] l.reserves[i]).user_id)
            >= 0 && 0 <= l.reserves[i].user_currency_value <= MAX_UNITS && 0
            < l.reserves[i].value <= MAX_UNITS
    &&& forall|i: int|
        0 <= i < l.balances.len() ==> -MAX_UNITS <= (#[trigger] l.balances[i]).current_value
            <= MAX_UNITS && l.balances[i].current_value == log_sum(
            l.transactions,
            l.balances[i].user_id,
        ) && 0 <= reserve_sum(l.reserves, l.balances[i].user_id) <= MAX_UNITS
    &&& forall|i: int|
        0 <= i < l.transactions.len() ==> ((#[trigger] l.transactions[i]).recipient_id is Some
            ==> bal_idx(l.balances, l.transactions[i].recipient_id->0) >= 0
            && l.transactions[i].recipient_value is Some) && (
        l.transactions[i].sender_id is Some ==> bal_idx(
            l.balances,
            l.transactions[i].sender_id->0,
        ) >= 0 && l.transactions[i].sender_value is Some)
}

// Characterisation lemmas for the index functions.

pub proof fn lemma_bal_idx_props(bs: Seq<BalanceV>, user: Seq<char>)
    ensures
        -1 <= bal_idx(bs, user) < bs.len(),
        bal_idx(bs, user) >= 0 ==> bs[bal_idx(bs, user)].user_id == user,
        forall|i: int|
            0 <= i < bs.len() && (#[trigger] bs[i].user_id) == user ==> bal_idx(bs, user) >= 0,
        forall|j: int| 0 <= j < bal_idx(bs, user) ==> (#[trigger] bs[j].user_id) != user,
    decreases bs.len(),
{
    if bs.len() > 0 && bs[0].user_id != user {
        lemma_bal_idx_props(bs.drop_first(), user);
        assert(forall|i: int| 1 <= i < bs.len() ==> bs.drop_first()[i - 1] == #[trigger] bs[i]);
    }
}

pub proof fn lemma_bal_idx_first(bs: Seq<BalanceV>, user: Seq<char>, k: int)
    requires
        0 <= k < bs.len(),
        forall|j: int| 0 <= j < k ==> (#[trigger] bs[j].user_id) != user,
        bs[k].user_id == user,
    ensures
        bal_idx(bs, user) == k,
    decreases bs.len(),
{
    if k > 0 {
        lemma_bal_idx_first(bs.drop_first(), user, k - 1);
    }
}

pub proof fn lemma_res_idx_props(rs: Seq<ReserveV>, order: Seq<char>)
    ensures
        -1 <= res_idx(rs, order) < rs.len(),
        res_idx(rs, order) >= 0 ==> rs[res_idx(rs, order)].order_id == order,
        forall|i: int|
            0 <= i < rs.len() && (#[trigger] rs[i].order_id) == order ==> res_idx(rs, order)
                >= 0,
        forall|j: int| 0 <= j < res_idx(rs, order) ==> (#[trigger] rs[j].order_id) != order,
    decreases rs.len(),
{
    if rs.len() > 0 && rs[0].order_id != order {
        lemma_res_idx_props(rs.drop_first(), order);
        assert(forall|i: int| 1 <= i < rs.len() ==> rs.drop_first()[i - 1] == #[trigger] rs[i]);
    }
}

pub proof fn lemma_res_idx_first(rs: Seq<ReserveV>, order: Seq<char>, k: int)
    requires
        0 <= k < rs.len(),
        forall|j: int| 0 <= j < k ==> (#[trigger] rs[j].order_id) != order,
        rs[k].order_id == order,
    ensures
        res_idx(rs, order) == k,
    decreases rs.len(),
{
    if k > 0 {
        lemma_res_idx_first(rs.drop_first(), order, k - 1);
    }
}

pub proof fn lemma_tx_key_idx_props(ts: Seq<TransactionV>, key: Seq<char>)
    ensures
        -1 <= tx_key_idx(ts, key) < ts.len(),
        tx_key_idx(ts, key) >= 0 ==> ts[tx_key_idx(ts, key)].idempotency_key == Some(key),
        forall|i: int|
            0 <= i < ts.len() && (#[trigger] ts[i].idempotency_key) == Some(key) ==> tx_key_idx(
                ts,
                key,
            ) >= 0,
        forall|j: int|
            0 <= j < tx_key_idx(ts, key) ==> (#[trigger] ts[j].idempotency_key) != Some(key),
    decreases ts.len(),
{
    if ts.len() > 0 && ts[0].idempotency_key != Some(key) {
        lemma_tx_key_idx_props(ts.drop_first(), key);
        assert(forall|i: int| 1 <= i < ts.len() ==> ts.drop_first()[i - 1] == #[trigger] ts[i]);
    }
}

pub proof fn lemma_tx_key_idx_first(ts: Seq<TransactionV>, key: Seq<char>, k: int)
    requires
        0 <= k < ts.len(),
        forall|j: int| 0 <= j < k ==> (#[trigger] ts[j].idempotency_key) != Some(key),
        ts[k].idempotency_key == Some(key),
    ensures
        tx_key_idx(ts, key) == k,
    decreases ts.len(),
{
    if k > 0 {
        lemma_tx_key_idx_first(ts.drop_first(), key, k - 1);
    }
}

pub proof fn lemma_tx_order_idx_props(ts: Seq<TransactionV>, order: Seq<char>)
    ensures
        -1 <= tx_order_idx(ts, order) < ts.len(),
        tx_order_idx(ts, order) >= 0 ==> tx_has_order(ts[tx_order_idx(ts, order)], order),
        forall|i: int|
            0 <= i < ts.len() && tx_has_order(#[trigger] ts[i], order) ==> tx_order_idx(
                ts,
                order,
            ) >= 0,
        forall|j: int| 0 <= j < tx_order_idx(ts, order) ==> !tx_has_order(#[trigger] ts[j], order),
    decreases ts.len(),
{
    if ts.len() > 0 && !tx_has_order(ts[0], order) {
        lemma_tx_order_idx_props(ts.drop_first(), order);
        assert(forall|i: int| 1 <= i < ts.len() ==> ts.drop_first()[i - 1] == #[trigger] ts[i]);
    }
}

pub proof fn lemma_tx_order_idx_first(ts: Seq<TransactionV>, order: Seq<char>, k: int)
    requires
        0 <= k < ts.len(),
        forall|j: int| 0 <= j < k ==> !tx_has_order(#[trigger] ts[j], order),
        tx_has_order(ts[k], order),
    ensures
        tx_order_idx(ts, order) == k,
    decreases ts.len(),
{
    if k > 0 {
        lemma_tx_order_idx_first(ts.drop_first(), order, k - 1);
    }
}

// Sum lemmas.

/// Appending a log row adds its contribution.
pub proof fn lemma_log_sum_push(ts: Seq<TransactionV>, t: TransactionV, user: Seq<char>)
    ensures
        log_sum(ts.push(t), user) == log_sum(ts, user) + tx_contrib(t, user),
{
    assert(ts.push(t).drop_last() =~= ts);
}

/// A user no log row names has a zero log sum.
pub proof fn lemma_log_sum_absent(ts: Seq<TransactionV>, user: Seq<char>)
    requires
        forall|i: int|
            0 <= i < ts.len() ==> (#[trigger] ts[i].recipient_id) != Some(user) && (
            #[trigger] ts[i].sender_id) != Some(user),
    ensures
        log_sum(ts, user) == 0,
    decreases ts.len(),
{
    if ts.len() > 0 {
        lemma_log_sum_absent(ts.drop_last(), user);
    }
}

/// Appending a hold adds its value for its owner.
pub proof fn lemma_reserve_sum_push(rs: Seq<ReserveV>, r: ReserveV, user: Seq<char>)
    ensures
        reserve_sum(rs.push(r), user) == reserve_sum(rs, user) + (if r.user_id == user {
            r.user_currency_value
        } else {
            0
        }),
{
    assert(rs.push(r).drop_last() =~= rs);
}

/// Removing a hold subtracts its value for its owner.
pub proof fn lemma_reserve_sum_remove(rs: Seq<ReserveV>, i: int, user: Seq<char>)
    requires
        0 <= i < rs.len(),
    ensures
        reserve_sum(rs.remove(i), user) == reserve_sum(rs, user) - (if rs[i].user_id == user {
            rs[i].user_currency_value
        } else {
            0
        }),
    decreases rs.len(),
{
    if i == rs.len() - 1 {
        assert(rs.remove(i) =~= rs.drop_last());
    } else {
        lemma_reserve_sum_remove(rs.drop_last(), i, user);
        assert(rs.remove(i).drop_last() =~= rs.drop_last().remove(i));
        assert(rs.remove(i).last() == rs.last());
    }
}

/// A sum of holds is at least any single hold of the user, and holds of
/// non-negative value sum to a non-negative total.
pub proof fn lemma_reserve_sum_nonneg(rs: Seq<ReserveV>, user: Seq<char>)
    requires
        forall|i: int| 0 <= i < rs.len() ==> (#[trigger] rs[i].user_currency_value) >= 0,
    ensures
        reserve_sum(rs, user) >= 0,
    decreases rs.len(),
{
    if rs.len() > 0 {
        lemma_reserve_sum_nonneg(rs.drop_last(), user);
    }
}

/// A prefix of non-negative holds sums to no more than the whole.
pub proof fn lemma_reserve_sum_prefix(rs: Seq<ReserveV>, i: int, user: Seq<char>)
    requires
        0 <= i <= rs.len(),
        forall|k: int| 0 <= k < rs.len() ==> (#[trigger] rs[k].user_currency_value) >= 0,
    ensures
        reserve_sum(rs.take(i), user) <= reserve_sum(rs, user),
    decreases rs.len(),
{
    if i == rs.len() {
        assert(rs.take(i) =~= rs);
    } else {
        lemma_reserve_sum_prefix(rs.drop_last(), i, user);
        assert(rs.drop_last().take(i) =~= rs.take(i));
    }
}

/// A user no hold names has a zero hold sum.
pub proof fn lemma_reserve_sum_absent(rs: Seq<ReserveV>, user: Seq<char>)
    requires
        forall|i: int| 0 <= i < rs.len() ==> (#[trigger] rs[i].user_id) != user,
    ensures
        reserve_sum(rs, user) == 0,
    decreases rs.len(),
{
    if rs.len() > 0 {
        lemma_reserve_sum_absent(rs.drop_last(), user);
    }
}

/// How appending a balance row moves the index of each user.
pub proof fn lemma_bal_idx_push(bs: Seq<BalanceV>, b: BalanceV, user: Seq<char>)
    ensures
        bal_idx(bs.push(b), user) == if bal_idx(bs, user) >= 0 {
            bal_idx(bs, user)
        } else if b.user_id == user {
            bs.len() as int
        } else {
            -1
        },
{
    lemma_bal_idx_props(bs, user);
    let e = bs.push(b);
    if bal_idx(bs, user) >= 0 {
        lemma_bal_idx_first(e, user, bal_idx(bs, user));
    } else if b.user_id == user {
        lemma_bal_idx_first(e, user, bs.len() as int);
    } else {
        lemma_bal_idx_props(e, user);
        if bal_idx(e, user) >= 0 {
            assert(e[bal_idx(e, user)].user_id == user);
        }
    }
}

impl Ledger {
    /// An empty ledger: no users, holds or log rows.
    pub fn new() -> (r: Ledger)
        ensures
            wf(r@),
            r@.balances =~= Seq::<BalanceV>::empty(),
            r@.reserves =~= Seq::<ReserveV>::empty(),
            r@.transactions =~= Seq::<TransactionV>::empty(),
    {
        let r = Ledger { balances: Vec::new(), reserves: Vec::new(), transactions: Vec::new() };
        proof {
            assert(r@.balances =~= Seq::<BalanceV>::empty());
            assert(r@.reserves =~= Seq::<ReserveV>::empty());
            assert(r@.transactions =~= Seq::<TransactionV>::empty());
        }
        r
    }

    /// Finds the balance row of a user.
    pub fn find_balance(&self, user_id: &str) -> (r: Option<usize>)
        ensures
            r matches Some(i) ==> bal_idx(self@.balances, user_id@) == i as int,
            r is None ==> bal_idx(self@.balances, user_id@) == -1,
    {
        let ghost bs = self@.balances;
        let n = self.balances.len();
        let mut i: usize = 0;
        while i < n
            invariant
                0 <= i <= n,
                n == self.balances.len(),
                bs == self@.balances,
                bs.len() == n as int,
                forall|k: int| 0 <= k < i as int ==> (#[trigger] bs[k].user_id) != user_id@,
            decreases n - i,
        {
            if crate::strutil::str_eq(user_id, self.balances[i].user_id.as_str()) {
                proof {
                    lemma_bal_idx_first(bs, user_id@, i as int);
                }
                return Some(i);
            }
            i = i + 1;
        }
        proof {
            lemma_bal_idx_props(bs, user_id@);
            if bal_idx(bs, user_id@) >= 0 {
                assert(bs[bal_idx(bs, user_id@)].user_id == user_id@);
            }
        }
        None
    }

    /// Finds the hold of an order.
    pub fn find_reserve(&self, order_id: &str) -> (r: Option<usize>)
        ensures
            r matches Some(i) ==> res_idx(self@.reserves, order_id@) == i as int,
            r is None ==> res_idx(self@.reserves, order_id@) == -1,
    {
        let ghost rs = self@.reserves;
        let n = self.reserves.len();
        let mut i: usize = 0;
        while i < n
            invariant
                0 <= i <= n,
                n == self.reserves.len(),
                rs == self@.reserves,
                rs.len() == n as int,
                forall|k: int| 0 <= k < i as int ==> (#[trigger] rs[k].order_id) != order_id@,
            decreases n - i,
        {
            if crate::strutil::str_eq(order_id, self.reserves[i].order_id.as_str()) {
                proof {
                    lemma_res_idx_first(rs, order_id@, i as int);
                }
                return Some(i);
            }
            i = i + 1;
        }
        proof {
            lemma_res_idx_props(rs, order_id@);
            if res_idx(rs, order_id@) >= 0 {
                assert(rs[res_idx(rs, order_id@)].order_id == order_id@);
            }
        }
        None
    }

    /// Finds the log row carrying an idempotency key.
    pub fn find_transaction_by_key(&self, key: &str) -> (r: Option<usize>)
        ensures
            r matches Some(i) ==> tx_key_idx(self@.transactions, key@) == i as int,
            r is None ==> tx_key_idx(self@.transactions, key@) == -1,
    {
        let ghost ts = self@.transactions;
        let n = self.transactions.len();
        let mut i: usize = 0;
        while i < n
            invariant
                0 <= i <= n,
                n == self.transactions.len(),
                ts == self@.transactions,
                ts.len() == n as int,
                forall|k: int|
                    0 <= k < i as int ==> (#[trigger] ts[k].idempotency_key) != Some(key@),
            decreases n - i,
        {
            let hit = match &self.transactions[i].idempotency_key {
                Some(k) => crate::strutil::str_eq(key, k.as_str()),
                None => false,
            };
            if hit {
                proof {
                    lemma_tx_key_idx_first(ts, key@, i as int);
                }
                return Some(i);
            }
            i = i + 1;
        }
        proof {
            lemma_tx_key_idx_props(ts, key@);
            if tx_key_idx(ts, key@) >= 0 {
                assert(ts[tx_key_idx(ts, key@)].idempotency_key == Some(key@));
            }
        }
        None
    }

    /// Finds the log row that settled an order.
    pub fn find_transaction_by_order(&self, order_id: &str) -> (r: Option<usize>)
        ensures
            r matches Some(i) ==> tx_order_idx(self@.transactions, order_id@) == i as int,
            r is None ==> tx_order_idx(self@.transactions, order_id@) == -1,
    {
        let ghost ts = self@.transactions;
        let n = self.transactions.len();
        let mut i: usize = 0;
        while i < n
            invariant
                0 <= i <= n,
                n == self.transactions.len(),
                ts == self@.transactions,
                ts.len() == n as int,
                forall|k: int| 0 <= k < i as int ==> !tx_has_order(#[trigger] ts[k], order_id@),
            decreases n - i,
        {
            let hit = match &self.transactions[i].order_data {
                Some(o) => crate::strutil::str_eq(order_id, o.order_id.as_str()),
                None => false,
            };
            if hit {
                proof {
                    lemma_tx_order_idx_first(ts, order_id@, i as int);
                }
                return Some(i);
            }
            i = i + 1;
        }
        proof {
            lemma_tx_order_idx_props(ts, order_id@);
            if tx_order_idx(ts, order_id@) >= 0 {
                assert(tx_has_order(ts[tx_order_idx(ts, order_id@)], order_id@));
            }
        }
        None
    }
}

} // verus!
