use vstd::prelude::*;

verus! {

/// Every way an action can be refused by the ledger, and every way a raw
/// input record can be refused before it becomes an action.
///
/// All variants but `FatalCorruption` are local to the single action being
/// processed: the caller reports them and goes on with the next action.
/// `FatalCorruption` signals that an account's total balance can no longer
/// be represented, which is not recoverable.
#[derive(Clone, Copy, PartialEq, Eq, Structural, Debug)]
pub enum Error {
    /// A raw record failed validation: unknown type tag, missing or
    /// unexpected amount field, or bad decimal text.
    MalformedRecord,
    /// A deposit or withdrawal reused a transaction id that was seen before.
    DuplicateTransaction,
    /// A withdrawal was attempted on a locked account.
    AccountLocked,
    /// A withdrawal asked for more than the available balance.
    InsufficientFunds,
    /// A resolve or chargeback asked to release more than is held.
    /// This signals an internal inconsistency: the ledger only ever
    /// releases amounts it itself placed on hold.
    InsufficientHeldFunds,
    /// A balance update would exceed the representable range upward.
    Overflow,
    /// A balance update would exceed the representable range downward.
    Underflow,
    /// A dispute, resolve or chargeback referenced a transaction id with
    /// no matching deposit on record.
    DepositNotFound,
    /// A resolve or chargeback referenced a deposit that is not disputed.
    NotDisputed,
    /// An account's total (available plus held) cannot be represented.
    FatalCorruption,
}

} // verus!
