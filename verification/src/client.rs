use vstd::prelude::*;

use crate::amount::{Amount, Balance};
use crate::errors::Error;

verus! {

/// A client's account.
///
/// Keeps track of the available funds, the held funds, and whether the
/// account is locked. The state machine is the triple of the fields; each
/// operation below either changes the account completely or not at all
/// (with one deliberate exception: a failing chargeback still locks).
#[derive(Clone, Copy, Debug)]
pub struct Client {
    /// The funds available for withdrawal. Can go negative due to disputes.
    pub available: Balance,
    /// The funds held for dispute. Equal to total minus available, and
    /// never negative in correct operation.
    pub held: Balance,
    /// Once true (set by a chargeback), never reset; a locked account
    /// refuses all further withdrawals.
    pub locked: bool,
}

impl Default for Client {
    fn default() -> (r: Self)
        ensures
            r == Client::zeroed(),
    {
        Client { available: Balance(0), held: Balance(0), locked: false }
    }
}

impl Client {
    /// The state a client is created in: no funds, not locked.
    pub open spec fn zeroed() -> Client {
        Client { available: Balance(0), held: Balance(0), locked: false }
    }

    /// Whether the sum of available and held funds fits the representable
    /// range. An account that leaves this range is corrupted beyond repair.
    pub open spec fn total_representable(self) -> bool {
        i128::MIN <= self.available.0 + self.held.0 <= i128::MAX
    }

    /// The total funds in the account: available plus held.
    pub open spec fn spec_total(self) -> int {
        self.available.0 + self.held.0
    }

    /// Returns the total funds in the account, the sum of the available and
    /// held funds. The sum must be representable; the ledger reports an
    /// unrepresentable total as fatal corruption (see [`Client::checked_total`]).
    pub fn total(&self) -> (r: Balance)
        requires
            self.total_representable(),
        ensures
            r.0 == self.spec_total(),
    {
        Balance(self.available.0 + self.held.0)
    }

    /// Returns the total funds, or `FatalCorruption` when the sum of
    /// available and held funds can no longer be represented. The latter is
    /// unreachable in correct operation and is not a recoverable error.
    pub fn checked_total(&self) -> (r: Result<Balance, Error>)
        ensures
            self.total_representable() ==> r == Ok::<Balance, Error>(
                Balance(self.spec_total() as i128),
            ),
            !self.total_representable() ==> r == Err::<Balance, Error>(Error::FatalCorruption),
    {
        if self.available.0 >= 0 {
            if self.held.0 <= i128::MAX - self.available.0 {
                Ok(Balance(self.available.0 + self.held.0))
            } else {
                Err(Error::FatalCorruption)
            }
        } else {
            if self.held.0 >= i128::MIN - self.available.0 {
                Ok(Balance(self.available.0 + self.held.0))
            } else {
                Err(Error::FatalCorruption)
            }
        }
    }

    /// Returns the held funds: the funds currently frozen pending disputes.
    pub fn held(&self) -> (r: Balance)
        ensures
            r == self.held,
    {
        self.held
    }

    /// Returns the available funds: the funds a withdrawal may draw on.
    pub fn available(&self) -> (r: Balance)
        ensures
            r == self.available,
    {
        self.available
    }

    /// Whether the account is locked. A locked account can no longer make
    /// any withdrawals.
    pub fn is_locked(&self) -> (r: bool)
        ensures
            r == self.locked,
    {
        self.locked
    }

    /// What `deposit` does: credit the available balance, or fail with
    /// `Overflow` leaving the account unchanged.
    pub open spec fn spec_deposit(self, amount: Amount) -> (Client, Result<(), Error>) {
        match self.available.spec_try_add(amount) {
            Ok(b) => (Client { available: b, ..self }, Ok(())),
            Err(e) => (self, Err(e)),
        }
    }

    /// Deposit funds into the account.
    ///
    /// Fails with `Overflow` if the credit would exceed the representable
    /// range; the account is unchanged on failure.
    pub fn deposit(&mut self, amount: Amount) -> (r: Result<(), Error>)
        ensures
            (*final(self), r) == old(self).spec_deposit(amount),
    {
        match self.available.try_add(amount) {
            Ok(b) => {
                self.available = b;
                Ok(())
            },
            Err(e) => Err(e),
        }
    }

    /// What `withdraw` does: refuse a locked account, refuse a debit beyond
    /// the available funds, and otherwise debit the available balance.
    pub open spec fn spec_withdraw(self, amount: Amount) -> (Client, Result<(), Error>) {
        if self.locked {
            (self, Err(Error::AccountLocked))
        } else if self.available.0 < amount.0 {
            (self, Err(Error::InsufficientFunds))
        } else {
            (Client { available: Balance((self.available.0 - amount.0) as i128), ..self }, Ok(()))
        }
    }

    /// Withdraw funds from the account.
    ///
    /// Fails with `AccountLocked` if the account is locked, and with
    /// `InsufficientFunds` if the available funds are below the amount;
    /// the account is unchanged on failure. Once those checks pass the
    /// debit itself cannot fail, since the comparison mirrors the
    /// checked subtraction.
    pub fn withdraw(&mut self, amount: Amount) -> (r: Result<(), Error>)
        ensures
            (*final(self), r) == old(self).spec_withdraw(amount),
    {
        if self.is_locked() {
            return Err(Error::AccountLocked);
        }
        if self.available.0 < amount.0 as i128 {
            return Err(Error::InsufficientFunds);
        }
        match self.available.try_sub(amount) {
            Ok(b) => {
                self.available = b;
                Ok(())
            },
            Err(e) => Err(e),
        }
    }

    /// What `hold` does: move the amount from available to held, or fail
    /// with the first of `Overflow` (on held) and `Underflow` (on
    /// available), leaving the account unchanged.
    pub open spec fn spec_hold(self, amount: Amount) -> (Client, Result<(), Error>) {
        match (self.held.spec_try_add(amount), self.available.spec_try_sub(amount)) {
            (Ok(h), Ok(a)) => (Client { available: a, held: h, ..self }, Ok(())),
            (Err(e), _) => (self, Err(e)),
            (_, Err(e)) => (self, Err(e)),
        }
    }

    /// Hold funds in the account for a dispute: move them from the
    /// available balance to the held balance.
    ///
    /// Both checked updates are computed first and committed only if both
    /// succeed: either both sides change or neither does. The available
    /// balance is deliberately allowed to go negative here — a client can
    /// be disputed for more than they currently have available (they may
    /// already have withdrawn the disputed funds), and the negative
    /// balance captures that liability.
    pub fn hold(&mut self, amount: Amount) -> (r: Result<(), Error>)
        ensures
            (*final(self), r) == old(self).spec_hold(amount),
    {
        let new_held = self.held.try_add(amount);
        let new_available = self.available.try_sub(amount);
        match (new_held, new_available) {
            (Ok(h), Ok(a)) => {
                self.held = h;
                self.available = a;
                Ok(())
            },
            (Err(e), _) => Err(e),
            (_, Err(e)) => Err(e),
        }
    }

    /// What `resolve` does: refuse to release more than is held, and
    /// otherwise move the amount from held back to available, or fail on
    /// overflow leaving the account unchanged.
    pub open spec fn spec_resolve(self, amount: Amount) -> (Client, Result<(), Error>) {
        if self.held.0 < amount.0 {
            (self, Err(Error::InsufficientHeldFunds))
        } else {
            match (self.held.spec_try_sub(amount), self.available.spec_try_add(amount)) {
                (Ok(h), Ok(a)) => (Client { available: a, held: h, ..self }, Ok(())),
                (Err(e), _) => (self, Err(e)),
                (_, Err(e)) => (self, Err(e)),
            }
        }
    }

    /// Resolve a dispute, making held funds available again.
    ///
    /// Fails with `InsufficientHeldFunds` if less than the amount is held
    /// (an internal-consistency bug, since the ledger only resolves
    /// amounts it itself placed on hold), and with `Overflow` if crediting
    /// the available balance would leave the representable range. The two
    /// updates commit together or not at all.
    pub fn resolve(&mut self, amount: Amount) -> (r: Result<(), Error>)
        ensures
            (*final(self), r) == old(self).spec_resolve(amount),
    {
        if self.held.0 < amount.0 as i128 {
            return Err(Error::InsufficientHeldFunds);
        }
        let new_held = self.held.try_sub(amount);
        let new_available = self.available.try_add(amount);
        match (new_held, new_available) {
            (Ok(h), Ok(a)) => {
                self.held = h;
                self.available = a;
                Ok(())
            },
            (Err(e), _) => Err(e),
            (_, Err(e)) => Err(e),
        }
    }

    /// What `chargeback` does: lock the account unconditionally, then
    /// refuse to remove more than is held, and otherwise remove the amount
    /// from held. The available balance is untouched either way.
    pub open spec fn spec_chargeback(self, amount: Amount) -> (Client, Result<(), Error>) {
        if self.held.0 < amount.0 {
            (Client { locked: true, ..self }, Err(Error::InsufficientHeldFunds))
        } else {
            (
                Client {
                    held: Balance((self.held.0 - amount.0) as i128),
                    locked: true,
                    ..self
                },
                Ok(()),
            )
        }
    }

    /// Charge back a disputed deposit, locking the account.
    ///
    /// The lock is set first and unconditionally: even a chargeback that
    /// then fails with `InsufficientHeldFunds` (an internal-consistency
    /// bug) leaves the account locked, since a botched chargeback attempt
    /// still marks the account as compromised. On success the held funds
    /// simply vanish from the ledger; the available balance is untouched.
    pub fn chargeback(&mut self, amount: Amount) -> (r: Result<(), Error>)
        ensures
            (*final(self), r) == old(self).spec_chargeback(amount),
    {
        self.locked = true;
        if self.held.0 < amount.0 as i128 {
            return Err(Error::InsufficientHeldFunds);
        }
        match self.held.try_sub(amount) {
            Ok(h) => {
                self.held = h;
                Ok(())
            },
            Err(e) => Err(e),
        }
    }
}

} // verus!
