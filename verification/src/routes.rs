//! Request handling: validation and dispatch to the ledger engine.
//!
//! Each `process_*` function performs the syntactic validation of one
//! endpoint, runs the engine operation, and builds the wire payload.
//! The contracts state exactly which input is rejected with which
//! `BadParameter` field, and that valid input is answered per the
//! engine's own transition relation, with the response reporting the
//! ledger state after the operation.

use crate::currency::CurrencyConverter;
use crate::decimal_text::{decimal_grammar_ok, decimal_representable, decimal_units, parse_amount};
use crate::idgen::IdGen;
use crate::models::{bal_idx, lemma_bal_idx_props, res_idx, wf, Ledger, LedgerV};
use crate::mutations::{
    commit, commit_post, reserve, reserve_post, top_up, top_up_post, CommitResult, EngineError,
    ReserveResult,
};
use crate::queries::{load_balance, spec_load_balance};
use crate::responses::{
    bad_parameter_http_response, bad_parameter_output, payload_bytes, reserve_error_http_response,
    reserve_error_output, user_balance_data_http_response, user_balance_output, HttpPayload,
};
use vstd::prelude::*;

verus! {

/// Body of a top-up request.
pub struct TopUpInput {
    pub idempotency_key: String,
    pub user_id: String,
    pub currency: String,
    pub value: String,
    pub merchant_data: String,
}

/// Body of a reserve request.
pub struct ReserveInput {
    pub user_id: String,
    pub currency: String,
    pub value: String,
    pub order_id: String,
    pub item_id: String,
}

/// Body of a commit request.
pub struct CommitInput {
    pub order_id: String,
}

/// Whether a text is a well-formed JSON document, as the JSON parser
/// used for merchant data decides it.
pub uninterp spec fn json_accepted(s: Seq<char>) -> bool;

/// Relies on `serde_json::from_str::<Value>`: it accepts exactly the
/// well-formed JSON documents, and acceptance depends on the text alone.
#[verifier::external_body]
fn is_valid_json(s: &str) -> (r: bool)
    ensures
        r == json_accepted(s@),
{
    serde_json::from_str::<serde_json::Value>(s).is_ok()
}

/// A value string is accepted when it parses and is strictly positive.
pub open spec fn value_accepted(s: Seq<char>) -> bool {
    let b = vstd::utf8::encode_utf8(s);
    decimal_grammar_ok(b) && decimal_representable(b) && decimal_units(b) > 0
}

/// The parsed unit count of an accepted value string.
pub open spec fn value_units(s: Seq<char>) -> int {
    decimal_units(vstd::utf8::encode_utf8(s))
}

/// An empty text stands for an absent optional field.
pub open spec fn opt_nonempty(s: Seq<char>) -> Option<Seq<char>> {
    if s.len() == 0 {
        None
    } else {
        Some(s)
    }
}

/// The field name a top-up request is rejected for, if any.
pub open spec fn top_up_rejection(curr: &CurrencyConverter, input: &TopUpInput) -> Option<
    Seq<char>,
> {
    if input.idempotency_key@.len() == 0 {
        Some("idempotency_key"@)
    } else if input.user_id@.len() == 0 {
        Some("user_id"@)
    } else if !curr.spec_is_valid(input.currency@) {
        Some("currency"@)
    } else if !value_accepted(input.value@) {
        Some("value"@)
    } else if input.merchant_data@.len() > 0 && !json_accepted(input.merchant_data@) {
        Some("merchant_data"@)
    } else {
        None
    }
}

/// A stored native currency the snapshot does not know makes the
/// operation impossible for that user.
pub open spec fn native_unknown(curr: &CurrencyConverter, lv: LedgerV, user: Seq<char>) -> bool {
    bal_idx(lv.balances, user) >= 0 && !curr.spec_is_valid(
        lv.balances[bal_idx(lv.balances, user)].currency,
    )
}

/// A hold whose request currency or owner's native currency the snapshot
/// does not know cannot be settled.
pub open spec fn hold_currency_unknown(curr: &CurrencyConverter, lv: LedgerV, order: Seq<char>) -> bool {
    let ri = res_idx(lv.reserves, order);
    ri >= 0 && (!curr.spec_is_valid(lv.reserves[ri].currency) || !curr.spec_is_valid(
        lv.balances[bal_idx(lv.balances, lv.reserves[ri].user_id)].currency,
    ))
}

/// The balance lookup endpoint.
pub fn process_balance(ledger: &Ledger, user_id: &str, is_protobuf: bool) -> (r: HttpPayload)
    requires
        wf(ledger@),
    ensures
        r.protobuf == is_protobuf,
        r.body@ == payload_bytes(
            user_balance_output(spec_load_balance(ledger@, user_id@), user_id@),
            is_protobuf,
        ),
{
    let b = load_balance(ledger, user_id);
    proof {
        lemma_bal_idx_props(ledger@.balances, user_id@);
    }
    user_balance_data_http_response(b, user_id, is_protobuf)
}

/// The top-up endpoint: validation, the engine call, and the response
/// carrying the balance after the operation.
#[verifier::rlimit(100)]
pub fn process_top_up(
    ledger: &mut Ledger,
    curr: &CurrencyConverter,
    gen: &mut IdGen,
    input: &TopUpInput,
    is_protobuf: bool,
    now_millis: i64,
) -> (r: Result<HttpPayload, EngineError>)
    requires
        wf(old(ledger)@),
        curr.wf(),
    ensures
        wf(final(ledger)@),
        r matches Ok(p) ==> p.protobuf == is_protobuf,
        top_up_rejection(curr, input) matches Some(field) ==> (r matches Ok(p) && p.body@
            == payload_bytes(bad_parameter_output(field), is_protobuf) && final(ledger)@ == old(
            ledger,
        )@),
        top_up_rejection(curr, input) is None && native_unknown(
            curr,
            old(ledger)@,
            input.user_id@,
        ) ==> (r matches Err(e) && e == EngineError::NativeCurrencyUnknown && final(ledger)@
            == old(ledger)@),
        top_up_rejection(curr, input) is None && !native_unknown(
            curr,
            old(ledger)@,
            input.user_id@,
        ) ==> (r matches Err(e) ==> exists|id: i64|
            #[trigger] top_up_post(
                old(ledger)@,
                final(ledger)@,
                curr@,
                input.idempotency_key@,
                input.user_id@,
                input.currency@,
                value_units(input.value@),
                opt_nonempty(input.merchant_data@),
                id,
                now_millis as int,
                Err(e),
            )),
        top_up_rejection(curr, input) is None && !native_unknown(
            curr,
            old(ledger)@,
            input.user_id@,
        ) ==> (r matches Ok(p) ==> p.body@ == payload_bytes(
            user_balance_output(
                spec_load_balance(final(ledger)@, input.user_id@),
                input.user_id@,
            ),
            is_protobuf,
        ) && exists|id: i64, tid: i64|
            #[trigger] top_up_post(
                old(ledger)@,
                final(ledger)@,
                curr@,
                input.idempotency_key@,
                input.user_id@,
                input.currency@,
                value_units(input.value@),
                opt_nonempty(input.merchant_data@),
                id,
                now_millis as int,
                Ok(tid),
            )),
{
    if input.idempotency_key.as_str().is_empty() {
        return Ok(bad_parameter_http_response("idempotency_key", is_protobuf));
    }
    if input.user_id.as_str().is_empty() {
        return Ok(bad_parameter_http_response("user_id", is_protobuf));
    }
    if !curr.is_currency_valid(input.currency.as_str()) {
        return Ok(bad_parameter_http_response("currency", is_protobuf));
    }
    let req_value = match parse_amount(input.value.as_str()) {
        Some(v) => v,
        None => {
            return Ok(bad_parameter_http_response("value", is_protobuf));
        },
    };
    if req_value.is_negative() || req_value.is_zero() {
        return Ok(bad_parameter_http_response("value", is_protobuf));
    }
    if !input.merchant_data.as_str().is_empty() && !is_valid_json(input.merchant_data.as_str()) {
        return Ok(bad_parameter_http_response("merchant_data", is_protobuf));
    }
    match ledger.find_balance(input.user_id.as_str()) {
        Some(i) => {
            proof {
                lemma_bal_idx_props(ledger@.balances, input.user_id@);
            }
            if !curr.is_currency_valid(ledger.balances[i].currency.as_str()) {
                return Err(EngineError::NativeCurrencyUnknown);
            }
        },
        None => {},
    }
    let merchant: Option<&str> = if input.merchant_data.as_str().is_empty() {
        None
    } else {
        Some(input.merchant_data.as_str())
    };
    let id = gen.next();
    let er = top_up(
        ledger,
        curr,
        input.idempotency_key.as_str(),
        input.user_id.as_str(),
        input.currency.as_str(),
        req_value,
        merchant,
        id,
        now_millis,
    );
    match er {
        Err(e) => {
            proof {
                assert(top_up_post(
                    old(ledger)@,
                    ledger@,
                    curr@,
                    input.idempotency_key@,
                    input.user_id@,
                    input.currency@,
                    value_units(input.value@),
                    opt_nonempty(input.merchant_data@),
                    id,
                    now_millis as int,
                    Err(e),
                ));
            }
            Err(e)
        },
        Ok(tid) => {
            let b = load_balance(ledger, input.user_id.as_str());
            proof {
                lemma_bal_idx_props(ledger@.balances, input.user_id@);
                assert(top_up_post(
                    old(ledger)@,
                    ledger@,
                    curr@,
                    input.idempotency_key@,
                    input.user_id@,
                    input.currency@,
                    value_units(input.value@),
                    opt_nonempty(input.merchant_data@),
                    id,
                    now_millis as int,
                    Ok(tid),
                ));
            }
            Ok(user_balance_data_http_response(b, input.user_id.as_str(), is_protobuf))
        },
    }
}

/// The field name a reserve request is rejected for, if any.
pub open spec fn reserve_rejection(curr: &CurrencyConverter, input: &ReserveInput) -> Option<
    Seq<char>,
> {
    if input.user_id@.len() == 0 {
        Some("user_id"@)
    } else if !curr.spec_is_valid(input.currency@) {
        Some("currency"@)
    } else if !value_accepted(input.value@) {
        Some("value"@)
    } else if input.order_id@.len() == 0 {
        Some("order_id"@)
    } else {
        None
    }
}

/// The reserve endpoint: validation, the engine call, and the response:
/// the balance after a successful hold, the matching error otherwise.
#[verifier::rlimit(100)]
pub fn process_reserve(
    ledger: &mut Ledger,
    curr: &CurrencyConverter,
    input: &ReserveInput,
    is_protobuf: bool,
    now_millis: i64,
) -> (r: Result<HttpPayload, EngineError>)
    requires
        wf(old(ledger)@),
        curr.wf(),
    ensures
        wf(final(ledger)@),
        r matches Ok(p) ==> p.protobuf == is_protobuf,
        reserve_rejection(curr, input) matches Some(field) ==> (r matches Ok(p) && p.body@
            == payload_bytes(bad_parameter_output(field), is_protobuf) && final(ledger)@ == old(
            ledger,
        )@),
        reserve_rejection(curr, input) is None && native_unknown(
            curr,
            old(ledger)@,
            input.user_id@,
        ) ==> (r matches Err(e) && e == EngineError::NativeCurrencyUnknown && final(ledger)@
            == old(ledger)@),
        reserve_rejection(curr, input) is None && !native_unknown(
            curr,
            old(ledger)@,
            input.user_id@,
        ) ==> (r matches Err(e) ==> reserve_post(
            old(ledger)@,
            final(ledger)@,
            curr@,
            input.user_id@,
            input.currency@,
            value_units(input.value@),
            input.order_id@,
            opt_nonempty(input.item_id@),
            now_millis as int,
            Err(e),
        )),
        reserve_rejection(curr, input) is None && !native_unknown(
            curr,
            old(ledger)@,
            input.user_id@,
        ) ==> (r matches Ok(p) ==> exists|res: ReserveResult|
            #[trigger] reserve_post(
                old(ledger)@,
                final(ledger)@,
                curr@,
                input.user_id@,
                input.currency@,
                value_units(input.value@),
                input.order_id@,
                opt_nonempty(input.item_id@),
                now_millis as int,
                Ok(res),
            ) && (res == ReserveResult::Reserved ==> p.body@ == payload_bytes(
                user_balance_output(
                    spec_load_balance(final(ledger)@, input.user_id@),
                    input.user_id@,
                ),
                is_protobuf,
            )) && (res != ReserveResult::Reserved ==> p.body@ == payload_bytes(
                reserve_error_output(res),
                is_protobuf,
            ))),
{
    if input.user_id.as_str().is_empty() {
        return Ok(bad_parameter_http_response("user_id", is_protobuf));
    }
    if !curr.is_currency_valid(input.currency.as_str()) {
        return Ok(bad_parameter_http_response("currency", is_protobuf));
    }
    let req_value = match parse_amount(input.value.as_str()) {
        Some(v) => v,
        None => {
            return Ok(bad_parameter_http_response("value", is_protobuf));
        },
    };
    if req_value.is_negative() || req_value.is_zero() {
        return Ok(bad_parameter_http_response("value", is_protobuf));
    }
    if input.order_id.as_str().is_empty() {
        return Ok(bad_parameter_http_response("order_id", is_protobuf));
    }
    match ledger.find_balance(input.user_id.as_str()) {
        Some(i) => {
            proof {
                lemma_bal_idx_props(ledger@.balances, input.user_id@);
            }
            if !curr.is_currency_valid(ledger.balances[i].currency.as_str()) {
                return Err(EngineError::NativeCurrencyUnknown);
            }
        },
        None => {},
    }
    let item: Option<&str> = if input.item_id.as_str().is_empty() {
        None
    } else {
        Some(input.item_id.as_str())
    };
    let er = reserve(
        ledger,
        curr,
        input.user_id.as_str(),
        input.currency.as_str(),
        req_value,
        input.order_id.as_str(),
        item,
        now_millis,
    );
    match er {
        Err(e) => {
            proof {
                assert(reserve_post(
                    old(ledger)@,
                    ledger@,
                    curr@,
                    input.user_id@,
                    input.currency@,
                    value_units(input.value@),
                    input.order_id@,
                    opt_nonempty(input.item_id@),
                    now_millis as int,
                    Err(e),
                ));
            }
            Err(e)
        },
        Ok(res) => {
            proof {
                assert(reserve_post(
                    old(ledger)@,
                    ledger@,
                    curr@,
                    input.user_id@,
                    input.currency@,
                    value_units(input.value@),
                    input.order_id@,
                    opt_nonempty(input.item_id@),
                    now_millis as int,
                    Ok(res),
                ));
            }
            match res {
                ReserveResult::Reserved => {
                    let b = load_balance(ledger, input.user_id.as_str());
                    proof {
                        lemma_bal_idx_props(ledger@.balances, input.user_id@);
                    }
                    Ok(user_balance_data_http_response(b, input.user_id.as_str(), is_protobuf))
                },
                other => Ok(reserve_error_http_response(other, is_protobuf)),
            }
        },
    }
}

/// The commit endpoint: validation and settlement. A successful commit
/// answers with an empty body; an order without an active hold answers
/// with the invalid-state error.
#[verifier::rlimit(100)]
pub fn process_commit(
    ledger: &mut Ledger,
    curr: &CurrencyConverter,
    gen: &mut IdGen,
    input: &CommitInput,
    is_protobuf: bool,
    now_millis: i64,
) -> (r: Result<HttpPayload, EngineError>)
    requires
        wf(old(ledger)@),
        curr.wf(),
    ensures
        wf(final(ledger)@),
        r matches Ok(p) ==> p.protobuf == is_protobuf,
        input.order_id@.len() == 0 ==> (r matches Ok(p) && p.body@ == payload_bytes(
            bad_parameter_output("order_id"@),
            is_protobuf,
        ) && final(ledger)@ == old(ledger)@),
        input.order_id@.len() > 0 && hold_currency_unknown(curr, old(ledger)@, input.order_id@)
            ==> (r matches Err(e) && e == EngineError::NativeCurrencyUnknown && final(ledger)@
            == old(ledger)@),
        input.order_id@.len() > 0 && !hold_currency_unknown(curr, old(ledger)@, input.order_id@)
            ==> (r matches Err(e) ==> exists|id: i64|
            #[trigger] commit_post(
                old(ledger)@,
                final(ledger)@,
                curr@,
                input.order_id@,
                id,
                now_millis as int,
                Err(e),
            )),
        input.order_id@.len() > 0 && !hold_currency_unknown(curr, old(ledger)@, input.order_id@)
            ==> (r matches Ok(p) ==> exists|id: i64, cres: CommitResult|
            #[trigger] commit_post(
                old(ledger)@,
                final(ledger)@,
                curr@,
                input.order_id@,
                id,
                now_millis as int,
                Ok(cres),
            ) && (cres matches CommitResult::Committed(_) ==> p.body@ == Seq::<u8>::empty()) && (
            cres == CommitResult::InvalidTransactionState ==> p.body@ == payload_bytes(
                reserve_error_output(ReserveResult::InvalidTransactionState),
                is_protobuf,
            ))),
{
    if input.order_id.as_str().is_empty() {
        return Ok(bad_parameter_http_response("order_id", is_protobuf));
    }
    match ledger.find_reserve(input.order_id.as_str()) {
        Some(ri) => {
            proof {
                crate::models::lemma_res_idx_props(ledger@.reserves, input.order_id@);
            }
            if !curr.is_currency_valid(ledger.reserves[ri].currency.as_str()) {
                return Err(EngineError::NativeCurrencyUnknown);
            }
            let owner = ledger.reserves[ri].user_id.clone();
            match ledger.find_balance(owner.as_str()) {
                Some(bi) => {
                    proof {
                        lemma_bal_idx_props(ledger@.balances, owner@);
                    }
                    if !curr.is_currency_valid(ledger.balances[bi].currency.as_str()) {
                        return Err(EngineError::NativeCurrencyUnknown);
                    }
                },
                None => {
                    proof {
                        assert(false);
                    }
                    return Err(EngineError::NativeCurrencyUnknown);
                },
            }
        },
        None => {},
    }
    let id = gen.next();
    let er = commit(ledger, curr, input.order_id.as_str(), id, now_millis);
    match er {
        Err(e) => {
            proof {
                assert(commit_post(
                    old(ledger)@,
                    ledger@,
                    curr@,
                    input.order_id@,
                    id,
                    now_millis as int,
                    Err(e),
                ));
            }
            Err(e)
        },
        Ok(cres) => {
            proof {
                assert(commit_post(
                    old(ledger)@,
                    ledger@,
                    curr@,
                    input.order_id@,
                    id,
                    now_millis as int,
                    Ok(cres),
                ));
            }
            match cres {
                CommitResult::Committed(_) => {
                    let body: Vec<u8> = Vec::new();
                    proof {
                        assert(body@ =~= Seq::<u8>::empty());
                    }
                    Ok(HttpPayload { protobuf: is_protobuf, body })
                },
                CommitResult::InvalidTransactionState => {
                    Ok(
                        reserve_error_http_response(
                            ReserveResult::InvalidTransactionState,
                            is_protobuf,
                        ),
                    )
                },
            }
        },
    }
}

} // verus!
