use vstd::prelude::*;

use std::collections::{BTreeMap, BTreeSet};

use crate::actions::AccountAction;
use crate::actions::Chargeback;
use crate::actions::Deposit;
use crate::actions::Dispute;
use crate::actions::Resolve;
use crate::actions::Withdrawal;
use crate::amount::Amount;
use crate::client::Client;
use crate::errors::Error;
use crate::ClientId;
use crate::TransactionId;

verus! {

broadcast use vstd::std_specs::btree::group_btree_axioms, vstd::laws_cmp::group_laws_cmp;

/// A deposit that the ledger has accepted, kept on record so that later
/// dispute, resolve and chargeback actions can be resolved against it.
/// Withdrawals leave no such record and can never be disputed.
#[derive(Clone, Copy, Debug)]
pub struct DepositRecord {
    /// The client whose account the deposit credited. Dispute, resolve and
    /// chargeback act on this client; the transaction id alone is
    /// authoritative.
    pub client_id: ClientId,
    /// The deposited amount.
    pub amount: Amount,
    /// Whether the deposit is currently under dispute.
    pub disputed: bool,
}

/// A client's account paired with its id, as handed out when the ledger is
/// enumerated for output.
#[derive(Clone, Copy, Debug)]
pub struct ClientWithId {
    pub id: ClientId,
    pub client: Client,
}

impl ClientWithId {
    /// The id of this client.
    pub fn id(&self) -> (r: ClientId)
        ensures
            r == self.id,
    {
        self.id
    }
}

/// One known client in the ledger's insertion-ordered client table.
#[derive(Clone, Copy, Debug)]
struct ClientEntry {
    id: ClientId,
    client: Client,
}

/// The mathematical content of a [`Database`]: the state of every known
/// client, the set of transaction ids already consumed, and the accepted
/// deposits still open to dispute.
pub struct DbModel {
    /// Every client ever referenced, by id; created zeroed, never deleted.
    pub clients: Map<u16, Client>,
    /// Every transaction id ever accepted for a deposit or withdrawal,
    /// whether or not the balance update then succeeded.
    pub seen: Set<u32>,
    /// The accepted deposits, by transaction id; a record leaves this map
    /// only through a successful chargeback.
    pub deposits: Map<u32, DepositRecord>,
}

impl DbModel {
    /// The model of an empty ledger.
    pub open spec fn empty() -> DbModel {
        DbModel { clients: Map::empty(), seen: Set::empty(), deposits: Map::empty() }
    }

    /// The state of a client: its recorded state, or a zeroed account for a
    /// client that has not been referenced yet (accounts are created lazily).
    pub open spec fn client_or_zero(self, id: u16) -> Client {
        if self.clients.contains_key(id) {
            self.clients[id]
        } else {
            Client::zeroed()
        }
    }

    /// What a deposit action does to the ledger. A reused transaction id is
    /// refused outright. Otherwise the id is consumed — whether or not the
    /// credit then succeeds — the client is created if need be, and on
    /// success a deposit record open to dispute is added.
    pub open spec fn step_deposit(
        self,
        client_id: ClientId,
        tx: TransactionId,
        amount: Amount,
    ) -> (DbModel, Result<(), Error>) {
        if self.seen.contains(tx.0) {
            (self, Err(Error::DuplicateTransaction))
        } else {
            let step = self.client_or_zero(client_id.0).spec_deposit(amount);
            let clients = self.clients.insert(client_id.0, step.0);
            let seen = self.seen.insert(tx.0);
            match step.1 {
                Ok(()) => (
                    DbModel {
                        clients,
                        seen,
                        deposits: self.deposits.insert(
                            tx.0,
                            DepositRecord { client_id, amount, disputed: false },
                        ),
                    },
                    Ok(()),
                ),
                Err(e) => (DbModel { clients, seen, deposits: self.deposits }, Err(e)),
            }
        }
    }

    /// What a withdrawal action does to the ledger. A reused transaction id
    /// is refused outright. Otherwise the id is consumed — whether or not
    /// the debit then succeeds — and the client is created if need be. No
    /// deposit record is created: a withdrawal can never be disputed.
    pub open spec fn step_withdrawal(
        self,
        client_id: ClientId,
        tx: TransactionId,
        amount: Amount,
    ) -> (DbModel, Result<(), Error>) {
        if self.seen.contains(tx.0) {
            (self, Err(Error::DuplicateTransaction))
        } else {
            let step = self.client_or_zero(client_id.0).spec_withdraw(amount);
            (
                DbModel {
                    clients: self.clients.insert(client_id.0, step.0),
                    seen: self.seen.insert(tx.0),
                    deposits: self.deposits,
                },
                step.1,
            )
        }
    }

    /// What a dispute action does to the ledger. Without a matching deposit
    /// record (the id is unknown, belongs to a withdrawal, or was charged
    /// back) it fails and changes nothing. A second dispute of an already
    /// disputed deposit is a silent no-op. Otherwise the recorded amount is
    /// held on the recorded owning client and the record is marked disputed.
    pub open spec fn step_dispute(self, tx: TransactionId) -> (DbModel, Result<(), Error>) {
        if !self.deposits.contains_key(tx.0) {
            (self, Err(Error::DepositNotFound))
        } else {
            let rec = self.deposits[tx.0];
            if rec.disputed {
                (self, Ok(()))
            } else {
                let step = self.client_or_zero(rec.client_id.0).spec_hold(rec.amount);
                let clients = self.clients.insert(rec.client_id.0, step.0);
                match step.1 {
                    Ok(()) => (
                        DbModel {
                            clients,
                            seen: self.seen,
                            deposits: self.deposits.insert(
                                tx.0,
                                DepositRecord { disputed: true, ..rec },
                            ),
                        },
                        Ok(()),
                    ),
                    Err(e) => (
                        DbModel { clients, seen: self.seen, deposits: self.deposits },
                        Err(e),
                    ),
                }
            }
        }
    }

    /// What a resolve action does to the ledger. It fails without a matching
    /// deposit record, and on a record that is not under dispute. Otherwise
    /// the held amount returns to available and the record is marked
    /// undisputed — but kept, so the deposit may be disputed again.
    pub open spec fn step_resolve(self, tx: TransactionId) -> (DbModel, Result<(), Error>) {
        if !self.deposits.contains_key(tx.0) {
            (self, Err(Error::DepositNotFound))
        } else {
            let rec = self.deposits[tx.0];
            if !rec.disputed {
                (self, Err(Error::NotDisputed))
            } else {
                let step = self.client_or_zero(rec.client_id.0).spec_resolve(rec.amount);
                let clients = self.clients.insert(rec.client_id.0, step.0);
                match step.1 {
                    Ok(()) => (
                        DbModel {
                            clients,
                            seen: self.seen,
                            deposits: self.deposits.insert(
                                tx.0,
                                DepositRecord { disputed: false, ..rec },
                            ),
                        },
                        Ok(()),
                    ),
                    Err(e) => (
                        DbModel { clients, seen: self.seen, deposits: self.deposits },
                        Err(e),
                    ),
                }
            }
        }
    }

    /// What a chargeback action does to the ledger. It fails without a
    /// matching deposit record, and on a record that is not under dispute.
    /// Otherwise the owning client is charged back — locking the account
    /// even if the chargeback itself then fails — and on success the record
    /// is removed for good, so the deposit can never be disputed again.
    pub open spec fn step_chargeback(self, tx: TransactionId) -> (DbModel, Result<(), Error>) {
        if !self.deposits.contains_key(tx.0) {
            (self, Err(Error::DepositNotFound))
        } else {
            let rec = self.deposits[tx.0];
            if !rec.disputed {
                (self, Err(Error::NotDisputed))
            } else {
                let step = self.client_or_zero(rec.client_id.0).spec_chargeback(rec.amount);
                let clients = self.clients.insert(rec.client_id.0, step.0);
                match step.1 {
                    Ok(()) => (
                        DbModel {
                            clients,
                            seen: self.seen,
                            deposits: self.deposits.remove(tx.0),
                        },
                        Ok(()),
                    ),
                    Err(e) => (
                        DbModel { clients, seen: self.seen, deposits: self.deposits },
                        Err(e),
                    ),
                }
            }
        }
    }

    /// What performing one action does to the ledger: the dispatch over the
    /// five kinds of action.
    pub open spec fn step_action(self, action: AccountAction) -> (DbModel, Result<(), Error>) {
        match action {
            AccountAction::Deposit(d) => self.step_deposit(d.client_id, d.transaction_id, d.amount),
            AccountAction::Withdrawal(w) => self.step_withdrawal(
                w.client_id,
                w.transaction_id,
                w.amount,
            ),
            AccountAction::Dispute(d) => self.step_dispute(d.disputed_transaction),
            AccountAction::Resolve(r) => self.step_resolve(r.disputed_transaction),
            AccountAction::Chargeback(c) => self.step_chargeback(c.disputed_transaction),
        }
    }
}

/// The map a sequence of client entries stands for.
spec fn clients_map_of(s: Seq<ClientEntry>) -> Map<u16, Client>
    decreases s.len(),
{
    if s.len() == 0 {
        Map::empty()
    } else {
        clients_map_of(s.drop_last()).insert(s.last().id.0, s.last().client)
    }
}

/// No two entries carry the same client id.
spec fn unique_ids(s: Seq<ClientEntry>) -> bool {
    forall|i: int, j: int| 0 <= i < j < s.len() ==> s[i].id != s[j].id
}

/// A key is in the map of a sequence exactly when some entry carries it.
proof fn lemma_clients_map_contains(s: Seq<ClientEntry>, k: u16)
    ensures
        clients_map_of(s).contains_key(k) <==> exists|i: int|
            0 <= i < s.len() && s[i].id.0 == k,
    decreases s.len(),
{
    if s.len() > 0 {
        lemma_clients_map_contains(s.drop_last(), k);
        if s.last().id.0 == k {
            assert(s[s.len() - 1].id.0 == k);
        } else if exists|i: int| 0 <= i < s.drop_last().len() && s.drop_last()[i].id.0 == k {
            let i = choose|i: int| 0 <= i < s.drop_last().len() && s.drop_last()[i].id.0 == k;
            assert(s[i].id.0 == k);
        } else {
            assert forall|i: int| 0 <= i < s.len() implies s[i].id.0 != k by {
                if i < s.len() - 1 {
                    assert(s.drop_last()[i].id.0 != k);
                }
            }
        }
    }
}

/// An entry whose id no later entry repeats gives the map's value at its id.
proof fn lemma_clients_map_value(s: Seq<ClientEntry>, i: int)
    requires
        0 <= i < s.len(),
        forall|j: int| i < j < s.len() ==> s[j].id != s[i].id,
    ensures
        clients_map_of(s).contains_key(s[i].id.0),
        clients_map_of(s)[s[i].id.0] == s[i].client,
    decreases s.len(),
{
    if i == s.len() - 1 {
    } else {
        assert(s.drop_last()[i] == s[i]);
        lemma_clients_map_value(s.drop_last(), i);
        assert(s.last().id != s[i].id);
        assert(s.last().id.0 != s[i].id.0);
    }
}

/// Updating the account in one entry updates the map at that entry's id,
/// for every new account value.
proof fn lemma_clients_map_update(s: Seq<ClientEntry>, i: int)
    requires
        0 <= i < s.len(),
        unique_ids(s),
    ensures
        forall|c: Client|
            #[trigger] clients_map_of(s.update(i, ClientEntry { id: s[i].id, client: c }))
                == clients_map_of(s).insert(s[i].id.0, c),
    decreases s.len(),
{
    assert forall|c: Client|
        #[trigger] clients_map_of(s.update(i, ClientEntry { id: s[i].id, client: c }))
            == clients_map_of(s).insert(s[i].id.0, c) by {
        let e = ClientEntry { id: s[i].id, client: c };
        let t = s.update(i, e);
        if i == s.len() - 1 {
            assert(t.drop_last() =~= s.drop_last());
            assert(t.last() == e);
            assert(clients_map_of(t) == clients_map_of(s.drop_last()).insert(s[i].id.0, c));
            assert(clients_map_of(s.drop_last()).insert(s[i].id.0, c) =~= clients_map_of(
                s,
            ).insert(s[i].id.0, c));
        } else {
            assert(t.drop_last() =~= s.drop_last().update(i, e));
            assert(s.drop_last()[i] == s[i]);
            lemma_clients_map_update(s.drop_last(), i);
            assert(clients_map_of(t.drop_last()) == clients_map_of(s.drop_last()).insert(
                s[i].id.0,
                c,
            ));
            assert(t.last() == s.last());
            assert(s.last().id != s[i].id);
            assert(clients_map_of(t) == clients_map_of(s.drop_last()).insert(
                s[i].id.0,
                c,
            ).insert(s.last().id.0, s.last().client));
            assert(clients_map_of(s.drop_last()).insert(s[i].id.0, c).insert(
                s.last().id.0,
                s.last().client,
            ) =~= clients_map_of(s).insert(s[i].id.0, c));
        }
    }
}

/// Appending an entry inserts its account at its id.
proof fn lemma_clients_map_push(s: Seq<ClientEntry>, e: ClientEntry)
    ensures
        clients_map_of(s.push(e)) == clients_map_of(s).insert(e.id.0, e.client),
{
    assert(s.push(e).drop_last() =~= s);
    assert(s.push(e).last() == e);
}

/// The database of clients and transactions: the ledger engine.
///
/// It owns every client account, the set of all transaction ids ever
/// accepted (transaction ids are supposed to be globally unique, and the
/// ledger enforces rather than assumes that), and the record of accepted
/// deposits that dispute, resolve and chargeback actions are resolved
/// against. The ledger is the sole owner of mutation rights over client
/// state.
#[derive(Debug)]
pub struct Database {
    /// All known clients, in first-reference order, each id once.
    clients: Vec<ClientEntry>,
    /// Every transaction id ever accepted, for duplicate detection.
    seen_transactions: BTreeSet<u32>,
    /// The accepted deposits, by transaction id, for dispute resolution.
    deposit_transactions: BTreeMap<u32, DepositRecord>,
}

impl View for Database {
    type V = DbModel;

    closed spec fn view(&self) -> DbModel {
        DbModel {
            clients: clients_map_of(self.clients@),
            seen: self.seen_transactions@,
            deposits: self.deposit_transactions@,
        }
    }
}

impl Database {
    /// The ledger's internal consistency: no client id appears twice in
    /// the client table.
    pub closed spec fn inv(self) -> bool {
        unique_ids(self.clients@)
    }

    /// Create an empty database.
    pub fn new() -> (r: Database)
        ensures
            r.inv(),
            r@ == DbModel::empty(),
    {
        let r = Database {
            clients: Vec::new(),
            seen_transactions: BTreeSet::new(),
            deposit_transactions: BTreeMap::new(),
        };
        proof {
            assert(r@.clients =~= Map::<u16, Client>::empty());
            assert(r@ == DbModel::empty());
        }
        r
    }

    /// Every known client with its id: the snapshot handed to the output
    /// collaborator. Every client ever referenced appears exactly once, in
    /// its current state.
    pub fn clients(&self) -> (r: Vec<ClientWithId>)
        requires
            self.inv(),
        ensures
            forall|k: u16|
                self@.clients.contains_key(k) <==> exists|i: int|
                    0 <= i < r@.len() && r@[i].id.0 == k,
            forall|i: int|
                0 <= i < r@.len() ==> self@.clients.contains_key(#[trigger] r@[i].id.0)
                    && r@[i].client == self@.clients[r@[i].id.0],
            forall|i: int, j: int| 0 <= i < j < r@.len() ==> r@[i].id != r@[j].id,
    {
        let n = self.clients.len();
        let mut r: Vec<ClientWithId> = Vec::new();
        let mut i: usize = 0;
        while i < n
            invariant
                i <= n,
                n == self.clients@.len(),
                r@.len() == i,
                forall|j: int|
                    0 <= j < i ==> r@[j].id == self.clients@[j].id && r@[j].client
                        == self.clients@[j].client,
            decreases n - i,
        {
            let e = self.clients[i];
            r.push(ClientWithId { id: e.id, client: e.client });
            i = i + 1;
        }
        proof {
            assert forall|k: u16|
                self@.clients.contains_key(k) <==> exists|i: int|
                    0 <= i < r@.len() && r@[i].id.0 == k by {
                lemma_clients_map_contains(self.clients@, k);
                if exists|i: int| 0 <= i < self.clients@.len() && self.clients@[i].id.0 == k {
                    let i = choose|i: int|
                        0 <= i < self.clients@.len() && self.clients@[i].id.0 == k;
                    assert(r@[i].id.0 == k);
                }
                if exists|i: int| 0 <= i < r@.len() && r@[i].id.0 == k {
                    let i = choose|i: int| 0 <= i < r@.len() && r@[i].id.0 == k;
                    assert(self.clients@[i].id.0 == k);
                }
            }
            assert forall|i: int|
                0 <= i < r@.len() implies self@.clients.contains_key(#[trigger] r@[i].id.0)
                && r@[i].client == self@.clients[r@[i].id.0] by {
                lemma_clients_map_value(self.clients@, i);
            }
        }
        r
    }

    /// Get a mutable reference to a client by id, creating the client
    /// (zeroed) if it does not exist yet.
    pub fn client_mut(&mut self, id: ClientId) -> (c: &mut Client)
        requires
            old(self).inv(),
        ensures
            final(self).inv(),
            *c == old(self)@.client_or_zero(id.0),
            final(self)@.clients == old(self)@.clients.insert(id.0, *final(c)),
            final(self)@.seen == old(self)@.seen,
            final(self)@.deposits == old(self)@.deposits,
    {
        let i = self.ensure_client(id);
        proof {
            lemma_clients_map_update(self.clients@, i as int);
            assert forall|c: Client|
                #[trigger] self@.clients.insert(id.0, c) == old(self)@.clients.insert(
                    id.0,
                    c,
                ) by {
                assert(old(self)@.clients.insert(id.0, old(self)@.client_or_zero(id.0)).insert(
                    id.0,
                    c,
                ) =~= old(self)@.clients.insert(id.0, c));
            }
        }
        let entry = &mut self.clients[i];
        &mut entry.client
    }

    /// The index of the entry for a client id, if the client is known.
    fn find_client(&self, id: ClientId) -> (r: Option<usize>)
        ensures
            match r {
                Some(i) => i < self.clients@.len() && self.clients@[i as int].id == id,
                None => forall|i: int| 0 <= i < self.clients@.len() ==> self.clients@[i].id != id,
            },
    {
        let n = self.clients.len();
        let mut i: usize = 0;
        while i < n
            invariant
                i <= n,
                n == self.clients@.len(),
                forall|j: int| 0 <= j < i ==> self.clients@[j].id != id,
            decreases n - i,
        {
            if self.clients[i].id.0 == id.0 {
                return Some(i);
            }
            i = i + 1;
        }
        None
    }

    /// Look up a client's entry, creating it zeroed if the client id has
    /// never been referenced; returns its index in the client table.
    fn ensure_client(&mut self, id: ClientId) -> (i: usize)
        requires
            old(self).inv(),
        ensures
            final(self).inv(),
            i < final(self).clients@.len(),
            final(self).clients@[i as int].id == id,
            final(self).clients@[i as int].client == old(self)@.client_or_zero(id.0),
            final(self)@.clients == old(self)@.clients.insert(
                id.0,
                old(self)@.client_or_zero(id.0),
            ),
            final(self)@.seen == old(self)@.seen,
            final(self)@.deposits == old(self)@.deposits,
            forall|j: int|
                i < j < final(self).clients@.len() ==> final(self).clients@[j].id != final(
                    self
                ).clients@[i as int].id,
    {
        match self.find_client(id) {
            Some(i) => {
                proof {
                    lemma_clients_map_contains(self.clients@, id.0);
                    lemma_clients_map_value(self.clients@, i as int);
                    assert(self@.clients.insert(id.0, self@.client_or_zero(id.0)) =~= self@.clients);
                }
                i
            },
            None => {
                let i = self.clients.len();
                proof {
                    lemma_clients_map_contains(self.clients@, id.0);
                    lemma_clients_map_push(
                        self.clients@,
                        ClientEntry { id, client: Client::zeroed() },
                    );
                }
                self.clients.push(ClientEntry { id, client: Client::default() });
                i
            },
        }
    }

    /// Overwrite the account stored at one entry of the client table.
    fn set_client(&mut self, i: usize, c: Client)
        requires
            old(self).inv(),
            i < old(self).clients@.len(),
        ensures
            final(self).inv(),
            final(self)@.clients == old(self)@.clients.insert(
                old(self).clients@[i as int].id.0,
                c,
            ),
            final(self)@.seen == old(self)@.seen,
            final(self)@.deposits == old(self)@.deposits,
    {
        proof {
            lemma_clients_map_update(self.clients@, i as int);
        }
        let id = self.clients[i].id;
        let entry = &mut self.clients[i];
        entry.id = id;
        entry.client = c;
        proof {
            assert(self.clients@ == old(self).clients@.update(
                i as int,
                ClientEntry { id: old(self).clients@[i as int].id, client: c },
            ));
        }
    }

    fn handle_deposit(&mut self, deposit: Deposit) -> (r: Result<(), Error>)
        requires
            old(self).inv(),
        ensures
            final(self).inv(),
            (final(self)@, r) == old(self)@.step_deposit(
                deposit.client_id,
                deposit.transaction_id,
                deposit.amount,
            ),
    {
        let Deposit { client_id, transaction_id, amount } = deposit;
        if !self.seen_transactions.insert(transaction_id.0) {
            proof {
                assert(old(self)@.seen.insert(transaction_id.0) =~= old(self)@.seen);
                assert(self@ == old(self)@);
            }
            return Err(Error::DuplicateTransaction);
        }
        let i = self.ensure_client(client_id);
        let mut c = self.clients[i].client;
        let r = c.deposit(amount);
        proof {
            assert(old(self)@.clients.insert(client_id.0, old(self)@.client_or_zero(client_id.0))
                .insert(client_id.0, c) =~= old(self)@.clients.insert(client_id.0, c));
        }
        self.set_client(i, c);
        match r {
            Ok(()) => {
                self.deposit_transactions.insert(
                    transaction_id.0,
                    DepositRecord { client_id, amount, disputed: false },
                );
                Ok(())
            },
            Err(e) => Err(e),
        }
    }

    fn handle_withdrawal(&mut self, withdrawal: Withdrawal) -> (r: Result<(), Error>)
        requires
            old(self).inv(),
        ensures
            final(self).inv(),
            (final(self)@, r) == old(self)@.step_withdrawal(
                withdrawal.client_id,
                withdrawal.transaction_id,
                withdrawal.amount,
            ),
    {
        let Withdrawal { client_id, transaction_id, amount } = withdrawal;
        if !self.seen_transactions.insert(transaction_id.0) {
            proof {
                assert(old(self)@.seen.insert(transaction_id.0) =~= old(self)@.seen);
                assert(self@ == old(self)@);
            }
            return Err(Error::DuplicateTransaction);
        }
        let i = self.ensure_client(client_id);
        let mut c = self.clients[i].client;
        let r = c.withdraw(amount);
        proof {
            assert(old(self)@.clients.insert(client_id.0, old(self)@.client_or_zero(client_id.0))
                .insert(client_id.0, c) =~= old(self)@.clients.insert(client_id.0, c));
        }
        self.set_client(i, c);
        r
    }

    fn handle_dispute(&mut self, dispute: Dispute) -> (r: Result<(), Error>)
        requires
            old(self).inv(),
        ensures
            final(self).inv(),
            (final(self)@, r) == old(self)@.step_dispute(dispute.disputed_transaction),
    {
        let tx = dispute.disputed_transaction;
        let rec: DepositRecord = match self.deposit_transactions.get(&tx.0) {
            None => {
                return Err(Error::DepositNotFound);
            },
            Some(found) => *found,
        };
        if rec.disputed {
            return Ok(());
        }
        let i = self.ensure_client(rec.client_id);
        let mut c = self.clients[i].client;
        let r = c.hold(rec.amount);
        proof {
            assert(old(self)@.clients.insert(
                rec.client_id.0,
                old(self)@.client_or_zero(rec.client_id.0),
            ).insert(rec.client_id.0, c) =~= old(self)@.clients.insert(rec.client_id.0, c));
        }
        self.set_client(i, c);
        match r {
            Ok(()) => {
                self.deposit_transactions.insert(tx.0, DepositRecord { disputed: true, ..rec });
                Ok(())
            },
            Err(e) => Err(e),
        }
    }

    fn handle_resolve(&mut self, resolve: Resolve) -> (r: Result<(), Error>)
        requires
            old(self).inv(),
        ensures
            final(self).inv(),
            (final(self)@, r) == old(self)@.step_resolve(resolve.disputed_transaction),
    {
        let tx = resolve.disputed_transaction;
        let rec: DepositRecord = match self.deposit_transactions.get(&tx.0) {
            None => {
                return Err(Error::DepositNotFound);
            },
            Some(found) => *found,
        };
        if !rec.disputed {
            return Err(Error::NotDisputed);
        }
        let i = self.ensure_client(rec.client_id);
        let mut c = self.clients[i].client;
        let r = c.resolve(rec.amount);
        proof {
            assert(old(self)@.clients.insert(
                rec.client_id.0,
                old(self)@.client_or_zero(rec.client_id.0),
            ).insert(rec.client_id.0, c) =~= old(self)@.clients.insert(rec.client_id.0, c));
        }
        self.set_client(i, c);
        match r {
            Ok(()) => {
                // a resolved deposit stays on record and may be disputed again
                self.deposit_transactions.insert(tx.0, DepositRecord { disputed: false, ..rec });
                Ok(())
            },
            Err(e) => Err(e),
        }
    }

    fn handle_chargeback(&mut self, chargeback: Chargeback) -> (r: Result<(), Error>)
        requires
            old(self).inv(),
        ensures
            final(self).inv(),
            (final(self)@, r) == old(self)@.step_chargeback(chargeback.disputed_transaction),
    {
        let tx = chargeback.disputed_transaction;
        let rec: DepositRecord = match self.deposit_transactions.get(&tx.0) {
            None => {
                return Err(Error::DepositNotFound);
            },
            Some(found) => *found,
        };
        if !rec.disputed {
            return Err(Error::NotDisputed);
        }
        let i = self.ensure_client(rec.client_id);
        let mut c = self.clients[i].client;
        let r = c.chargeback(rec.amount);
        proof {
            assert(old(self)@.clients.insert(
                rec.client_id.0,
                old(self)@.client_or_zero(rec.client_id.0),
            ).insert(rec.client_id.0, c) =~= old(self)@.clients.insert(rec.client_id.0, c));
        }
        // the client is committed even on failure: a failing chargeback
        // still leaves the account locked
        self.set_client(i, c);
        match r {
            Ok(()) => {
                // a charged-back deposit leaves the record for good, so it
                // can never be disputed again
                self.deposit_transactions.remove(&tx.0);
                Ok(())
            },
            Err(e) => Err(e),
        }
    }

    /// Perform an action on the database.
    ///
    /// For deposits and withdrawals this checks that the transaction id was
    /// never used before, then tries to update the client's balance,
    /// returning an error if either step fails. For disputes, resolves and
    /// chargebacks it looks the transaction up among the recorded deposits
    /// and tries to perform the action, returning an error if that fails.
    /// Updates to a client's balance are atomic: they fully succeed or
    /// fully fail (with the one deliberate exception that a failing
    /// chargeback still locks the account). A failed action never aborts
    /// processing: the ledger is ready for the next action either way.
    pub fn perform_action(&mut self, action: AccountAction) -> (r: Result<(), Error>)
        requires
            old(self).inv(),
        ensures
            final(self).inv(),
            (final(self)@, r) == old(self)@.step_action(action),
    {
        match action {
            AccountAction::Deposit(deposit) => self.handle_deposit(deposit),
            AccountAction::Withdrawal(withdrawal) => self.handle_withdrawal(withdrawal),
            AccountAction::Dispute(dispute) => self.handle_dispute(dispute),
            AccountAction::Resolve(resolve) => self.handle_resolve(resolve),
            AccountAction::Chargeback(chargeback) => self.handle_chargeback(chargeback),
        }
    }
}

} // verus!
