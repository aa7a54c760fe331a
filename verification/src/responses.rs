//! Turning engine results into wire payloads.
//!
//! Each function builds the [`GenericOutput`] envelope for one kind of
//! result and encodes it as JSON or protobuf, as the caller negotiated.

use crate::json::{encode_generic_output, json_output};
use crate::mutations::ReserveResult;
use crate::proto::{
    ErrorOutput, ErrorOutputV, GenericOutput, GenericOutputV, OneError, OneErrorV,
    UserBalanceData, UserBalanceDataV,
};
use crate::protobuf::{encode_generic_output_protobuf, pb_output};
use crate::queries::{UserBalance, UserBalanceV};
use crate::strutil::{amount_to_string, ascii_chars};
use crate::decimal_text::decimal_bytes;
use vstd::prelude::*;

verus! {

/// An HTTP response body and the content type it was encoded for.
pub struct HttpPayload {
    pub protobuf: bool,
    pub body: Vec<u8>,
}

/// The bytes of an envelope in the negotiated encoding.
pub open spec fn payload_bytes(o: GenericOutputV, protobuf: bool) -> Seq<u8> {
    if protobuf {
        pb_output(o)
    } else {
        json_output(o)
    }
}

/// The envelope reporting a balance lookup: the balance data on success,
/// the user-not-found error otherwise.
pub open spec fn user_balance_output(b: UserBalanceV, user: Seq<char>) -> GenericOutputV {
    match b {
        UserBalanceV::NotFound => GenericOutputV {
            user_balance: None,
            error: Some(ErrorOutputV { one_error: Some(OneErrorV::UserNotFound) }),
        },
        UserBalanceV::Found(v) => GenericOutputV {
            user_balance: Some(
                UserBalanceDataV {
                    user_id: user,
                    currency: v.currency,
                    value: ascii_chars(decimal_bytes(v.balance)),
                    reserved_value: ascii_chars(decimal_bytes(v.reserved)),
                    is_overdraft: v.balance < 0,
                },
            ),
            error: None,
        },
    }
}

/// The envelope carrying a bad-parameter error for the named field.
pub open spec fn bad_parameter_output(field: Seq<char>) -> GenericOutputV {
    GenericOutputV {
        user_balance: None,
        error: Some(ErrorOutputV { one_error: Some(OneErrorV::BadParameter(field)) }),
    }
}

fn encode_payload(o: &GenericOutput, is_protobuf: bool) -> (r: HttpPayload)
    ensures
        r.protobuf == is_protobuf,
        r.body@ == payload_bytes(o@, is_protobuf),
{
    if is_protobuf {
        HttpPayload { protobuf: true, body: encode_generic_output_protobuf(o) }
    } else {
        HttpPayload { protobuf: false, body: encode_generic_output(o) }
    }
}

/// The response for a balance lookup result.
pub fn user_balance_data_http_response(balance: UserBalance, user_id: &str, is_protobuf: bool) -> (r:
    HttpPayload)
    requires
        balance@ matches UserBalanceV::Found(v) ==> v.balance > i128::MIN && v.reserved
            > i128::MIN,
    ensures
        r.protobuf == is_protobuf,
        r.body@ == payload_bytes(user_balance_output(balance@, user_id@), is_protobuf),
{
    let data = match balance {
        UserBalance::Found(v) => GenericOutput {
            user_balance: Some(
                UserBalanceData {
                    user_id: user_id.to_owned(),
                    currency: v.currency,
                    value: amount_to_string(&v.balance),
                    reserved_value: amount_to_string(&v.reserved),
                    is_overdraft: v.balance.is_negative(),
                },
            ),
            error: None,
        },
        UserBalance::NotFound => GenericOutput {
            user_balance: None,
            error: Some(ErrorOutput { one_error: Some(OneError::UserNotFound) }),
        },
    };
    encode_payload(&data, is_protobuf)
}

/// The response for a rejected input parameter.
pub fn bad_parameter_http_response(field: &str, is_protobuf: bool) -> (r: HttpPayload)
    ensures
        r.protobuf == is_protobuf,
        r.body@ == payload_bytes(bad_parameter_output(field@), is_protobuf),
{
    let data = GenericOutput {
        user_balance: None,
        error: Some(ErrorOutput { one_error: Some(OneError::BadParameter(field.to_owned())) }),
    };
    encode_payload(&data, is_protobuf)
}

/// The envelope for a reserve outcome other than success.
pub open spec fn reserve_error_output(res: ReserveResult) -> GenericOutputV {
    GenericOutputV {
        user_balance: None,
        error: Some(
            ErrorOutputV {
                one_error: match res {
                    ReserveResult::Reserved => None,
                    ReserveResult::UserNotFound => Some(OneErrorV::UserNotFound),
                    ReserveResult::InsufficientFunds => Some(OneErrorV::NotEnoughMoney),
                    ReserveResult::InvalidTransactionState => Some(OneErrorV::InvalidState),
                },
            },
        ),
    }
}

/// The response for a reserve outcome: an empty success body, or the
/// matching tagged error.
pub fn reserve_error_http_response(res: ReserveResult, is_protobuf: bool) -> (r: HttpPayload)
    ensures
        r.protobuf == is_protobuf,
        res == ReserveResult::Reserved ==> r.body@ == Seq::<u8>::empty(),
        res != ReserveResult::Reserved ==> r.body@ == payload_bytes(
            reserve_error_output(res),
            is_protobuf,
        ),
{
    let err = match res {
        ReserveResult::Reserved => {
            let body: Vec<u8> = Vec::new();
            proof {
                assert(body@ =~= Seq::<u8>::empty());
            }
            return HttpPayload { protobuf: is_protobuf, body };
        },
        ReserveResult::UserNotFound => OneError::UserNotFound,
        ReserveResult::InsufficientFunds => OneError::NotEnoughMoney,
        ReserveResult::InvalidTransactionState => OneError::InvalidState,
    };
    let data = GenericOutput {
        user_balance: None,
        error: Some(ErrorOutput { one_error: Some(err) }),
    };
    encode_payload(&data, is_protobuf)
}

} // verus!
