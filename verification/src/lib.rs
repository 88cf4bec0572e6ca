use vstd::prelude::*;

mod actions;
mod amount;
mod client;
mod database;
mod errors;
pub mod laws;
pub mod text;

pub use actions::{AccountAction, Chargeback, Deposit, Dispute, Resolve, Withdrawal};
pub use amount::{Amount, Balance};
pub use client::Client;
pub use database::{ClientWithId, Database, DbModel, DepositRecord};
pub use errors::Error;

verus! {

/// The ID of a transaction (deposit or withdrawal).
/// These are globally unique but need not be sequential.
/// A dedicated wrapper keeps arithmetic off the ids.
#[derive(Clone, Copy, PartialEq, Eq, Structural, PartialOrd, Ord, Debug)]
pub struct TransactionId(pub u32);

/// The ID of a client.
/// These are unique but need not be sequential.
/// A dedicated wrapper keeps arithmetic off the ids.
#[derive(Clone, Copy, PartialEq, Eq, Structural, PartialOrd, Ord, Debug)]
pub struct ClientId(pub u16);

} // verus!
