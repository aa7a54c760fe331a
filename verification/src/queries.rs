//! Read-only ledger queries.

use crate::models::{bal_idx, lemma_bal_idx_props, reserve_sum, wf, Ledger, LedgerV};
use crate::mutations::sum_user_reserves;
use crate::Amount;
use vstd::prelude::*;

verus! {

/// A user's balance as the service reports it: the spendable value and
/// the total of active holds, in the native currency.
#[derive(Clone, Debug, PartialEq)]
pub struct UserBalanceValues {
    pub currency: String,
    pub balance: Amount,
    pub reserved: Amount,
}

/// Result of a balance lookup.
#[derive(Clone, Debug, PartialEq)]
pub enum UserBalance {
    Found(UserBalanceValues),
    NotFound,
}

pub struct UserBalanceValuesV {
    pub currency: Seq<char>,
    pub balance: int,
    pub reserved: int,
}

pub enum UserBalanceV {
    Found(UserBalanceValuesV),
    NotFound,
}

impl View for UserBalanceValues {
    type V = UserBalanceValuesV;

    open spec fn view(&self) -> UserBalanceValuesV {
        UserBalanceValuesV {
            currency: self.currency@,
            balance: self.balance@,
            reserved: self.reserved@,
        }
    }
}

impl View for UserBalance {
    type V = UserBalanceV;

    open spec fn view(&self) -> UserBalanceV {
        match self {
            UserBalance::Found(v) => UserBalanceV::Found(v@),
            UserBalance::NotFound => UserBalanceV::NotFound,
        }
    }
}

/// What a balance lookup reports of a ledger state.
pub open spec fn spec_load_balance(l: LedgerV, user: Seq<char>) -> UserBalanceV {
    let bi = bal_idx(l.balances, user);
    if bi < 0 {
        UserBalanceV::NotFound
    } else {
        UserBalanceV::Found(
            UserBalanceValuesV {
                currency: l.balances[bi].currency,
                balance: l.balances[bi].current_value - reserve_sum(l.reserves, user),
                reserved: reserve_sum(l.reserves, user),
            },
        )
    }
}

/// Reads a user's spendable balance: the current value less all active
/// holds, with the held total reported alongside.
pub fn load_balance(ledger: &Ledger, req_user_id: &str) -> (r: UserBalance)
    requires
        wf(ledger@),
    ensures
        r@ == spec_load_balance(ledger@, req_user_id@),
{
    let bi: usize = match ledger.find_balance(req_user_id) {
        Some(i) => i,
        None => {
            return UserBalance::NotFound;
        },
    };
    proof {
        lemma_bal_idx_props(ledger@.balances, req_user_id@);
    }
    let reserved = sum_user_reserves(ledger, req_user_id);
    let balance = ledger.balances[bi].current_value.sub_wide(reserved);
    UserBalance::Found(
        UserBalanceValues {
            currency: ledger.balances[bi].currency.clone(),
            balance,
            reserved,
        },
    )
}

} // verus!
