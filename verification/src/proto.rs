//! The wire-level output messages of the service.
//!
//! A single envelope, [`GenericOutput`], carries either a user's balance
//! data or a tagged error. The envelope is encoded to JSON or to the
//! protobuf wire format by [`crate::json`] and [`crate::protobuf`].

use vstd::prelude::*;

verus! {

/// The balance snapshot returned by every successful endpoint.
pub struct UserBalanceData {
    pub user_id: String,
    pub currency: String,
    pub value: String,
    pub reserved_value: String,
    pub is_overdraft: bool,
}

/// The tagged error cases of the envelope.
pub enum OneError {
    UserNotFound,
    NotEnoughMoney,
    InvalidState,
    BadParameter(String),
}

/// The error message: at most one of the tagged cases.
pub struct ErrorOutput {
    pub one_error: Option<OneError>,
}

/// The response envelope: balance data, or an error, or neither.
pub struct GenericOutput {
    pub user_balance: Option<UserBalanceData>,
    pub error: Option<ErrorOutput>,
}

pub struct UserBalanceDataV {
    pub user_id: Seq<char>,
    pub currency: Seq<char>,
    pub value: Seq<char>,
    pub reserved_value: Seq<char>,
    pub is_overdraft: bool,
}

pub enum OneErrorV {
    UserNotFound,
    NotEnoughMoney,
    InvalidState,
    BadParameter(Seq<char>),
}

pub struct ErrorOutputV {
    pub one_error: Option<OneErrorV>,
}

pub struct GenericOutputV {
    pub user_balance: Option<UserBalanceDataV>,
    pub error: Option<ErrorOutputV>,
}

impl View for UserBalanceData {
    type V = UserBalanceDataV;

    open spec fn view(&self) -> UserBalanceDataV {
        UserBalanceDataV {
            user_id: self.user_id@,
            currency: self.currency@,
            value: self.value@,
            reserved_value: self.reserved_value@,
            is_overdraft: self.is_overdraft,
        }
    }
}

impl View for OneError {
    type V = OneErrorV;

    open spec fn view(&self) -> OneErrorV {
        match self {
            OneError::UserNotFound => OneErrorV::UserNotFound,
            OneError::NotEnoughMoney => OneErrorV::NotEnoughMoney,
            OneError::InvalidState => OneErrorV::InvalidState,
            OneError::BadParameter(name) => OneErrorV::BadParameter(name@),
        }
    }
}

impl View for ErrorOutput {
    type V = ErrorOutputV;

    open spec fn view(&self) -> ErrorOutputV {
        ErrorOutputV {
            one_error: match self.one_error {
                Some(ref e) => Some(e@),
                None => None,
            },
        }
    }
}

impl View for GenericOutput {
    type V = GenericOutputV;

    open spec fn view(&self) -> GenericOutputV {
        GenericOutputV {
            user_balance: match self.user_balance {
                Some(ref u) => Some(u@),
                None => None,
            },
            error: match self.error {
                Some(ref e) => Some(e@),
                None => None,
            },
        }
    }
}

} // verus!
