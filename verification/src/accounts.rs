//! Accounts: the account model, its byte encoding, Merkle state roots, and
//! the append-only accounts database.

pub mod account;
pub mod merkle;
pub mod store;
