use vstd::prelude::*;

use crate::amount::Amount;
use crate::client::Client;
use crate::database::DbModel;
use crate::database::DepositRecord;
use crate::errors::Error;
use crate::ClientId;
use crate::TransactionId;

verus! {

/// For every account, the total is the sum of the available and the held
/// funds; in particular the equation holds after every successful
/// operation, since each operation's contract gives the new fields exactly.
pub proof fn lemma_total_is_sum(c: Client)
    ensures
        c.spec_total() == c.available.0 + c.held.0,
{
}

/// How each successful operation moves the total: a deposit raises it by
/// the amount, a withdrawal and a chargeback lower it by the amount, and a
/// hold and a resolve leave it untouched (they only move funds between
/// available and held).
pub proof fn lemma_operations_respect_total(c: Client, amount: Amount)
    ensures
        c.spec_deposit(amount).1 == Ok::<(), Error>(()) ==> c.spec_deposit(amount).0.spec_total()
            == c.spec_total() + amount.0,
        c.spec_withdraw(amount).1 == Ok::<(), Error>(()) ==> c.spec_withdraw(amount).0.spec_total()
            == c.spec_total() - amount.0,
        c.spec_hold(amount).1 == Ok::<(), Error>(()) ==> c.spec_hold(amount).0.spec_total()
            == c.spec_total(),
        c.spec_resolve(amount).1 == Ok::<(), Error>(()) ==> c.spec_resolve(amount).0.spec_total()
            == c.spec_total(),
        c.spec_chargeback(amount).1 == Ok::<(), Error>(()) ==> c.spec_chargeback(
            amount,
        ).0.spec_total() == c.spec_total() - amount.0,
{
}

/// A deposit, then a dispute of it, then a chargeback: the account ends
/// locked, the chargeback removes from held exactly the disputed deposit's
/// amount (so held ends where it stood before the deposit), the chargeback
/// itself leaves available untouched, and the charged-back deposit can
/// never be disputed again. The deposit must fit the available balance,
/// and the account's held funds must be non-negative and leave room for
/// the hold, as they always are in correct operation.
pub proof fn lemma_deposit_dispute_chargeback(
    m: DbModel,
    client_id: ClientId,
    tx: TransactionId,
    amount: Amount,
)
    requires
        !m.seen.contains(tx.0),
        !m.deposits.contains_key(tx.0),
        m.client_or_zero(client_id.0).available.0 + amount.0 <= i128::MAX,
        m.client_or_zero(client_id.0).held.0 >= 0,
        m.client_or_zero(client_id.0).held.0 + amount.0 <= i128::MAX,
    ensures
        ({
            let after_deposit = m.step_deposit(client_id, tx, amount);
            let after_dispute = after_deposit.0.step_dispute(tx);
            let after_chargeback = after_dispute.0.step_chargeback(tx);
            &&& after_deposit.1 == Ok::<(), Error>(())
            &&& after_dispute.1 == Ok::<(), Error>(())
            &&& after_chargeback.1 == Ok::<(), Error>(())
            &&& after_chargeback.0.client_or_zero(client_id.0).locked
            &&& after_chargeback.0.client_or_zero(client_id.0).held.0 == after_dispute.0
                .client_or_zero(client_id.0).held.0 - amount.0
            &&& after_chargeback.0.client_or_zero(client_id.0).held.0 == m.client_or_zero(
                client_id.0,
            ).held.0
            &&& after_chargeback.0.client_or_zero(client_id.0).available.0 == after_dispute.0
                .client_or_zero(client_id.0).available.0
            &&& !after_chargeback.0.deposits.contains_key(tx.0)
        }),
{
}

/// A dispute on a transaction id with no matching deposit on record —
/// an unknown id, a withdrawal's id, or a charged-back id — fails with
/// `DepositNotFound` and leaves the whole ledger unchanged.
pub proof fn lemma_dispute_needs_matching_deposit(m: DbModel, tx: TransactionId)
    requires
        !m.deposits.contains_key(tx.0),
    ensures
        m.step_dispute(tx) == (m, Err::<(), Error>(Error::DepositNotFound)),
{
}

/// A withdrawal never becomes disputable: after a withdrawal under a fresh
/// transaction id, a dispute of that id still fails with `DepositNotFound`
/// and changes nothing.
pub proof fn lemma_withdrawal_cannot_be_disputed(
    m: DbModel,
    client_id: ClientId,
    tx: TransactionId,
    amount: Amount,
)
    requires
        !m.seen.contains(tx.0),
        !m.deposits.contains_key(tx.0),
    ensures
        ({
            let after = m.step_withdrawal(client_id, tx, amount).0;
            after.step_dispute(tx) == (after, Err::<(), Error>(Error::DepositNotFound))
        }),
{
}

/// Disputing the same transaction id twice in a row holds the funds only
/// once: the second dispute succeeds as a silent no-op and changes nothing.
pub proof fn lemma_second_dispute_holds_nothing(m: DbModel, tx: TransactionId)
    requires
        m.step_dispute(tx).1 == Ok::<(), Error>(()),
    ensures
        m.step_dispute(tx).0.step_dispute(tx) == (m.step_dispute(tx).0, Ok::<(), Error>(())),
{
    let m1 = m.step_dispute(tx).0;
    if m.deposits.contains_key(tx.0) && !m.deposits[tx.0].disputed {
        assert(m1.deposits[tx.0].disputed);
    }
}

/// A resolved dispute can be disputed again: the new dispute succeeds, and
/// it returns the owning client and the deposit record exactly to their
/// state before the resolve (the resolved amount is held once more).
pub proof fn lemma_redispute_after_resolve(m: DbModel, tx: TransactionId)
    requires
        m.step_resolve(tx).1 == Ok::<(), Error>(()),
    ensures
        ({
            let after_resolve = m.step_resolve(tx).0;
            let redispute = after_resolve.step_dispute(tx);
            let owner = m.deposits[tx.0].client_id.0;
            &&& redispute.1 == Ok::<(), Error>(())
            &&& redispute.0 == DbModel {
                clients: m.clients.insert(owner, m.client_or_zero(owner)),
                seen: m.seen,
                deposits: m.deposits,
            }
        }),
{
    let rec = m.deposits[tx.0];
    let owner = rec.client_id.0;
    let c = m.client_or_zero(owner);
    let after_resolve = m.step_resolve(tx).0;
    let redispute = after_resolve.step_dispute(tx);
    assert(after_resolve.deposits[tx.0] == DepositRecord { disputed: false, ..rec });
    assert(redispute.0.clients =~= m.clients.insert(owner, m.client_or_zero(owner)));
    assert(redispute.0.deposits =~= m.deposits);
}

/// A transaction id, once accepted for a deposit, is consumed for good:
/// a second deposit or a withdrawal under the same id is rejected with
/// `DuplicateTransaction`, whatever client or amount it names, and the
/// ledger state keeps only the effect of the first action.
pub proof fn lemma_duplicate_transaction_rejected(
    m: DbModel,
    first_client: ClientId,
    tx: TransactionId,
    amount: Amount,
    second_client: ClientId,
    second_amount: Amount,
)
    requires
        !m.seen.contains(tx.0),
    ensures
        ({
            let after = m.step_deposit(first_client, tx, amount).0;
            &&& after.step_deposit(second_client, tx, second_amount) == (
                after,
                Err::<(), Error>(Error::DuplicateTransaction),
            )
            &&& after.step_withdrawal(second_client, tx, second_amount) == (
                after,
                Err::<(), Error>(Error::DuplicateTransaction),
            )
        }),
{
}

/// A locked account rejects every withdrawal with `AccountLocked`,
/// whatever the available balance, and is left unchanged.
pub proof fn lemma_locked_rejects_withdrawals(c: Client, amount: Amount)
    requires
        c.locked,
    ensures
        c.spec_withdraw(amount) == (c, Err::<(), Error>(Error::AccountLocked)),
{
}

/// A resolve or chargeback of more than the account holds never
/// underflows silently: it is refused with `InsufficientHeldFunds`. The
/// resolve leaves the account unchanged; the chargeback still locks it.
pub proof fn lemma_insufficient_held_reported(c: Client, amount: Amount)
    requires
        c.held.0 < amount.0,
    ensures
        c.spec_resolve(amount) == (c, Err::<(), Error>(Error::InsufficientHeldFunds)),
        c.spec_chargeback(amount) == (
            Client { locked: true, ..c },
            Err::<(), Error>(Error::InsufficientHeldFunds),
        ),
{
}

} // verus!
