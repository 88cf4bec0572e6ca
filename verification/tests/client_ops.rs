use ledger::Amount;
use ledger::Balance;
use ledger::Client;
use ledger::Error;

/// ensure a user can't withdraw into the negative
#[test]
fn client_withdrawal_negative() {
    let mut client = Client::default();
    client.available = Balance(5);
    assert!(client.withdraw(Amount(10)).is_err());
    assert!(client.available.0 == 5);

    client.available = Balance(-5);
    assert!(client.withdraw(Amount(5)).is_err());
}

/// ensure no over- or under-flow can occur when applying mutations to the balance
#[test]
fn client_balance_overflow() {
    let mut client = Client::default();
    // overflowing a deposit
    client.available = Balance(i128::MAX);
    assert!(client.deposit(Amount(1)).is_err());
    assert!(client.available.0 == i128::MAX);

    // underflowing a withdrawal
    // actually stopped before the underflow because of insufficient funds
    client.available = Balance(i128::MIN);
    assert!(client.withdraw(Amount(1)).is_err());
    assert!(client.available.0 == i128::MIN);

    // underflowing a hold
    // (can occur if we dispute more than the client has available)
    client.available = Balance(i128::MIN);
    assert!(client.hold(Amount(1)).is_err());
    assert!(client.available.0 == i128::MIN);
    assert!(client.held.0 == 0);

    // overflowing a resolve
    client.available = Balance(i128::MAX);
    client.held = Balance(1);
    assert!(client.resolve(Amount(1)).is_err());

    // underflowing a chargeback
    // actually stopped before the underflow because of insufficient held funds
    client.held = Balance(i128::MIN);
    assert!(client.chargeback(Amount(1)).is_err());
}

/// ensure that the total balance is always equal to the sum of the available and held balances
#[test]
fn client_total_balance() {
    let mut client = Client::default();
    client.available = Balance(-5);
    client.held = Balance(2);
    assert!(client.total().0 == -3);
}

/// ensure that we can put a hold on a client even if they have negative funds
#[test]
fn client_hold_negative() {
    let mut client = Client::default();
    client.available = Balance(-5);
    client.held = Balance(0);
    assert!(client.hold(Amount(5)).is_ok());
    assert!(client.available.0 == -10);
    assert!(client.held.0 == 5);
}

/// ensure locked accounts can't be withdrawn from
#[test]
fn client_locked_withdraw() {
    let mut client = Client::default();
    client.available = Balance(1);
    client.locked = true;
    assert!(client.withdraw(Amount(1)).is_err());
    assert!(client.available.0 == 1);
    client.locked = false;
    assert!(client.withdraw(Amount(1)).is_ok());
    assert!(client.available.0 == 0);
}

/// ensure that a dispute can't be resolved if the funds are insufficient
/// (this should never happen in production, it would be a bug in the transaction processing)
#[test]
fn client_resolve_insufficient() {
    let mut client = Client::default();
    client.held = Balance(1);
    assert!(client.resolve(Amount(2)).is_err());
    assert!(client.held.0 == 1);
}

/// ensure that a chargeback can't be performed if the funds are insufficient
/// (this should never happen in production, it would be a bug in the transaction processing)
#[test]
fn client_chargeback_insufficient() {
    let mut client = Client::default();
    client.held = Balance(1);
    assert!(client.chargeback(Amount(2)).is_err());
    assert!(client.held.0 == 1);
}

/// ensure that a chargeback locks the account
#[test]
fn client_chargeback_lock() {
    let mut client = Client::default();
    client.held = Balance(1);
    assert!(client.chargeback(Amount(1)).is_ok());
    assert!(client.locked);
}

/// ensure that a resolved dispute can be disputed again
#[test]
fn client_redispute() {
    let mut client = Client::default();
    client.available = Balance(1);
    assert!(client.hold(Amount(1)).is_ok());
    assert!(client.resolve(Amount(1)).is_ok());
    assert!(client.held.0 == 0);
    assert!(client.available.0 == 1);
    assert!(client.hold(Amount(1)).is_ok());
}

/// a locked account rejects every withdrawal with AccountLocked, whatever
/// the available balance
#[test]
fn client_locked_error_kind() {
    let mut client = Client::default();
    client.available = Balance(1_000_000);
    client.locked = true;
    assert_eq!(client.withdraw(Amount(1)), Err(Error::AccountLocked));
    assert_eq!(client.withdraw(Amount(2_000_000)), Err(Error::AccountLocked));
    assert!(client.available.0 == 1_000_000);
}

/// the precise error kinds of the balance operations
#[test]
fn client_error_kinds() {
    let mut client = Client::default();
    client.available = Balance(5);
    assert_eq!(client.withdraw(Amount(10)), Err(Error::InsufficientFunds));

    client.available = Balance(i128::MAX);
    assert_eq!(client.deposit(Amount(1)), Err(Error::Overflow));

    client.available = Balance(i128::MIN);
    assert_eq!(client.hold(Amount(1)), Err(Error::Underflow));

    client.available = Balance(0);
    client.held = Balance(1);
    assert_eq!(client.resolve(Amount(2)), Err(Error::InsufficientHeldFunds));
    assert_eq!(client.chargeback(Amount(2)), Err(Error::InsufficientHeldFunds));
}

/// a deposit to a locked account is still permitted: only withdrawals
/// check the lock
#[test]
fn client_locked_deposit_permitted() {
    let mut client = Client::default();
    client.locked = true;
    assert!(client.deposit(Amount(7)).is_ok());
    assert!(client.available.0 == 7);
}

/// the total is available plus held, and an unrepresentable total is
/// reported as fatal corruption
#[test]
fn client_checked_total() {
    let mut client = Client::default();
    client.available = Balance(-5);
    client.held = Balance(2);
    assert_eq!(client.checked_total(), Ok(Balance(-3)));

    client.available = Balance(i128::MAX);
    client.held = Balance(1);
    assert_eq!(client.checked_total(), Err(Error::FatalCorruption));
}

/// the getters mirror the fields
#[test]
fn client_getters() {
    let mut client = Client::default();
    client.available = Balance(3);
    client.held = Balance(4);
    client.locked = true;
    assert!(client.available().0 == 3);
    assert!(client.held().0 == 4);
    assert!(client.is_locked());
    assert!(client.total().0 == 7);
}
