//! Core ledger engine of a multi-currency wallet.
//!
//! The crate keeps per-user balances, holds funds against pending orders,
//! and records every money movement in an append-only transaction log.
//! All money arithmetic is exact fixed-point decimal; every operation is
//! specified against a mathematical model of the ledger and proved.

pub mod amount;
pub mod currency;
pub mod decimal_text;
pub mod idgen;
pub mod json;
pub mod laws;
pub mod models;
pub mod mutations;
pub mod proto;
pub mod protobuf;
pub mod queries;
pub mod responses;
pub mod routes;
pub mod strutil;

pub use amount::Amount;
