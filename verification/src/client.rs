use vstd::prelude::*;
use vstd::string::StringExecFns;
use std::collections::HashMap;
use std::collections::HashSet;
use crate::render::{client_row, push_dec_i128, push_dec_u128, report, report_rows};
use crate::transaction::{Transaction, TransactionId};

verus! {

/// Does the mathematical value `x` fit in an `i64`?
pub open spec fn fits_i64(x: int) -> bool {
    i64::MIN <= x <= i64::MAX
}

/// Runtime check that a balance computed in `i128` fits in an `i64`.
fn fits_in_i64(x: i128) -> (r: bool)
    ensures
        r == fits_i64(x as int),
{
    i64::MIN as i128 <= x && x <= i64::MAX as i128
}

/// The mathematical state of one client account: the two balances, the lock
/// flag, the history of transactions recorded for the account, and the set of
/// transaction ids currently under dispute.
pub ghost struct ClientState {
    pub available: int,
    pub held: int,
    pub locked: bool,
    pub history: Map<u32, Transaction>,
    pub disputed: Set<u32>,
}

impl ClientState {
    /// A freshly opened account: zero balances, unlocked, no history.
    pub open spec fn initial() -> ClientState {
        ClientState {
            available: 0,
            held: 0,
            locked: false,
            history: Map::<u32, Transaction>::empty(),
            disputed: Set::<u32>::empty(),
        }
    }

    /// Every disputed transaction id is recorded in the history.
    pub open spec fn wf(self) -> bool {
        forall|id: u32| self.disputed.contains(id) ==> #[trigger] self.history.contains_key(id)
    }

    /// The total balance is always derived, never stored.
    pub open spec fn total(self) -> int {
        self.available + self.held
    }

    /// Effect of crediting the available funds.
    pub open spec fn after_credit(self, amount: i64) -> ClientState {
        ClientState { available: self.available + amount, ..self }
    }

    /// Effect of debiting the available funds. There is no check against a
    /// negative balance: withdrawals apply unconditionally.
    pub open spec fn after_debit(self, amount: i64) -> ClientState {
        ClientState { available: self.available - amount, ..self }
    }

    /// Effect of moving funds from the available balance to the held one.
    pub open spec fn after_move_to_held(self, amount: i64) -> ClientState {
        ClientState { available: self.available - amount, held: self.held + amount, ..self }
    }

    /// Effect of removing funds from the held balance.
    pub open spec fn after_remove_from_held(self, amount: i64) -> ClientState {
        ClientState { held: self.held - amount, ..self }
    }

    /// Effect of locking the account.
    pub open spec fn after_lock(self) -> ClientState {
        ClientState { locked: true, ..self }
    }

    /// Effect of recording a transaction in the history, overwriting any
    /// prior entry with the same id.
    pub open spec fn after_record(self, id: u32, transaction: Transaction) -> ClientState {
        ClientState { history: self.history.insert(id, transaction), ..self }
    }

    /// Whether a dispute of `id` takes effect: the id must be recorded, not
    /// already under dispute, and name a deposit.
    pub open spec fn dispute_applies(self, id: u32) -> bool {
        &&& self.history.contains_key(id)
        &&& !self.disputed.contains(id)
        &&& self.history[id] is Deposit
    }

    /// Effect of disputing transaction `id`: if the dispute applies, its
    /// amount moves from the available funds to the held ones and the id is
    /// marked disputed; otherwise nothing changes.
    pub open spec fn after_dispute(self, id: u32) -> ClientState {
        if self.dispute_applies(id) {
            let amount = self.history[id]->Deposit_0;
            ClientState {
                available: self.available - amount,
                held: self.held + amount,
                disputed: self.disputed.insert(id),
                ..self
            }
        } else {
            self
        }
    }

    /// Whether a resolve or chargeback of `id` takes effect: the id must be
    /// recorded, currently under dispute, and name a deposit.
    pub open spec fn settle_applies(self, id: u32) -> bool {
        &&& self.history.contains_key(id)
        &&& self.disputed.contains(id)
        &&& self.history[id] is Deposit
    }

    /// Effect of resolving the dispute of `id`: if it applies, the disputed
    /// amount returns from the held funds to the available ones and the id is
    /// no longer disputed; otherwise nothing changes.
    pub open spec fn after_resolve(self, id: u32) -> ClientState {
        if self.settle_applies(id) {
            let amount = self.history[id]->Deposit_0;
            ClientState {
                available: self.available + amount,
                held: self.held - amount,
                disputed: self.disputed.remove(id),
                ..self
            }
        } else {
            self
        }
    }

    /// Effect of charging back the dispute of `id`: if it applies, the
    /// disputed amount is removed from the held funds for good and the
    /// account is locked; otherwise nothing changes.
    pub open spec fn after_chargeback(self, id: u32) -> ClientState {
        if self.settle_applies(id) {
            let amount = self.history[id]->Deposit_0;
            ClientState {
                held: self.held - amount,
                locked: true,
                disputed: self.disputed.remove(id),
                ..self
            }
        } else {
            self
        }
    }

    /// The balances touched by a dispute of `id` stay within `i64`.
    pub open spec fn dispute_fits(self, id: u32) -> bool {
        self.dispute_applies(id) ==> {
            let amount = self.history[id]->Deposit_0;
            fits_i64(self.available - amount) && fits_i64(self.held + amount)
        }
    }

    /// The balances touched by a resolve of `id` stay within `i64`.
    pub open spec fn resolve_fits(self, id: u32) -> bool {
        self.settle_applies(id) ==> {
            let amount = self.history[id]->Deposit_0;
            fits_i64(self.available + amount) && fits_i64(self.held - amount)
        }
    }

    /// The balance touched by a chargeback of `id` stays within `i64`.
    pub open spec fn chargeback_fits(self, id: u32) -> bool {
        self.settle_applies(id) ==> {
            let amount = self.history[id]->Deposit_0;
            fits_i64(self.held - amount)
        }
    }
}

/// Information about one client account.
///
/// Balances are 64-bit signed integers in the smallest unit of the currency,
/// so the full range of monetary inputs is represented exactly.
#[derive(Debug)]
pub struct Client {
    available: i64,
    held: i64,
    locked: bool,
    history: HashMap<u32, Transaction>,
    disputed_transactions: HashSet<u32>,
}

/// Type used for the client ID.
#[derive(Debug, Hash, PartialEq, Eq, PartialOrd, Ord, Clone, Copy)]
pub struct ClientId(pub u16);

impl View for Client {
    type V = ClientState;

    closed spec fn view(&self) -> ClientState {
        ClientState {
            available: self.available as int,
            held: self.held as int,
            locked: self.locked,
            history: self.history@,
            disputed: self.disputed_transactions@,
        }
    }
}

impl Client {
    /// Create a new [`Client`] with the given balances and lock state and an
    /// empty transaction history.
    pub fn new(available: i64, held: i64, locked: bool) -> (r: Self)
        ensures
            r@ == (ClientState {
                available: available as int,
                held: held as int,
                locked,
                history: Map::<u32, Transaction>::empty(),
                disputed: Set::<u32>::empty(),
            }),
            r@.wf(),
    {
        Client {
            available,
            held,
            locked,
            history: HashMap::new(),
            disputed_transactions: HashSet::new(),
        }
    }

    /// Whether the account is locked.
    pub fn is_locked(&self) -> (r: bool)
        ensures
            r == self@.locked,
    {
        self.locked
    }

    /// Add to the available funds.
    pub fn add_to_available(&mut self, amount: i64)
        requires
            fits_i64(old(self)@.available + amount),
        ensures
            final(self)@ == old(self)@.after_credit(amount),
    {
        self.available = self.available + amount;
    }

    /// Subtract from the available funds, with no check against a negative
    /// balance: withdrawals are applied unconditionally.
    pub fn debit(&mut self, amount: i64)
        requires
            fits_i64(old(self)@.available - amount),
        ensures
            final(self)@ == old(self)@.after_debit(amount),
    {
        self.available = self.available - amount;
    }

    /// Move funds from the available balance to the held one.
    pub fn move_to_held(&mut self, amount: i64)
        requires
            fits_i64(old(self)@.available - amount),
            fits_i64(old(self)@.held + amount),
        ensures
            final(self)@ == old(self)@.after_move_to_held(amount),
    {
        self.available = self.available - amount;
        self.held = self.held + amount;
    }

    /// Remove funds from the held balance.
    pub fn remove_from_held(&mut self, amount: i64)
        requires
            fits_i64(old(self)@.held - amount),
        ensures
            final(self)@ == old(self)@.after_remove_from_held(amount),
    {
        self.held = self.held - amount;
    }

    /// Lock the account. The lock is never reverted.
    pub fn lock(&mut self)
        ensures
            final(self)@ == old(self)@.after_lock(),
    {
        self.locked = true;
    }

    /// Record a transaction in the history, overwriting any prior entry with
    /// the same id.
    pub fn add_to_history(&mut self, transaction_id: TransactionId, transaction: Transaction)
        ensures
            final(self)@ == old(self)@.after_record(transaction_id.0, transaction),
            old(self)@.wf() ==> final(self)@.wf(),
    {
        self.history.insert(transaction_id.0, transaction);
        proof {
            if old(self)@.wf() {
                assert forall|id: u32| self@.disputed.contains(id) implies self@.history.contains_key(
                    id,
                ) by {
                    assert(old(self)@.history.contains_key(id));
                }
            }
        }
    }

    /// Dispute a recorded deposit: move its amount from the available funds
    /// to the held ones and mark the id as disputed. Disputing a withdrawal
    /// id, an unknown id, or an id already under dispute changes nothing.
    pub fn dispute(&mut self, transaction_id: TransactionId)
        requires
            old(self)@.dispute_fits(transaction_id.0),
        ensures
            final(self)@ == old(self)@.after_dispute(transaction_id.0),
            old(self)@.wf() ==> final(self)@.wf(),
    {
        let id = transaction_id.0;
        if self.history.contains_key(&id) && !self.disputed_transactions.contains(&id) {
            if let Some(t) = self.history.get(&id) {
                match *t {
                    Transaction::Deposit(amount) => {
                        self.disputed_transactions.insert(id);
                        self.available = self.available - amount;
                        self.held = self.held + amount;
                    },
                    _ => {},
                }
            }
        }
    }

    /// Resolve a disputed deposit: return its amount from the held funds to
    /// the available ones and clear the dispute. Resolving an id that is not
    /// currently disputed changes nothing.
    pub fn resolve(&mut self, transaction_id: TransactionId)
        requires
            old(self)@.resolve_fits(transaction_id.0),
        ensures
            final(self)@ == old(self)@.after_resolve(transaction_id.0),
            old(self)@.wf() ==> final(self)@.wf(),
    {
        let id = transaction_id.0;
        if self.history.contains_key(&id) && self.disputed_transactions.contains(&id) {
            if let Some(t) = self.history.get(&id) {
                match *t {
                    Transaction::Deposit(amount) => {
                        self.disputed_transactions.remove(&id);
                        self.available = self.available + amount;
                        self.held = self.held - amount;
                    },
                    _ => {},
                }
            }
        }
    }

    /// Charge back a disputed deposit: remove its amount from the held funds
    /// for good and lock the account. A chargeback of an id that is not
    /// currently disputed changes nothing.
    pub fn chargeback(&mut self, transaction_id: TransactionId)
        requires
            old(self)@.chargeback_fits(transaction_id.0),
        ensures
            final(self)@ == old(self)@.after_chargeback(transaction_id.0),
            old(self)@.wf() ==> final(self)@.wf(),
    {
        let id = transaction_id.0;
        if self.history.contains_key(&id) && self.disputed_transactions.contains(&id) {
            if let Some(t) = self.history.get(&id) {
                match *t {
                    Transaction::Deposit(amount) => {
                        self.disputed_transactions.remove(&id);
                        self.held = self.held - amount;
                        self.locked = true;
                    },
                    _ => {},
                }
            }
        }
    }

    /// Render the account as a report row: `available, held, total, locked`,
    /// with the total derived from the two balances.
    pub fn render(&self) -> (r: String)
        ensures
            r@ == client_row(self@),
    {
        let mut s = String::new();
        push_dec_i128(&mut s, self.available as i128);
        s.append(", ");
        push_dec_i128(&mut s, self.held as i128);
        s.append(", ");
        push_dec_i128(&mut s, (self.available as i128) + (self.held as i128));
        s.append(", ");
        if self.locked {
            s.append("true");
        } else {
            s.append("false");
        }
        proof {
            assert(s@ =~= client_row(self@));
        }
        s
    }
}

impl Default for Client {
    /// A freshly opened account: zero balances and unlocked.
    fn default() -> (r: Self)
        ensures
            r@ == ClientState::initial(),
            r@.wf(),
    {
        Client::new(0, 0, false)
    }
}

/// Is `t` a monetary transaction, one that carries an amount and a
/// transaction id of its own?
pub open spec fn is_monetary(t: Transaction) -> bool {
    t is Deposit || t is Withdrawal
}

/// Every account in the map satisfies its own invariant.
pub open spec fn clients_wf(m: Map<u16, ClientState>) -> bool {
    forall|k: u16| m.contains_key(k) ==> (#[trigger] m[k]).wf()
}

/// Effect of dispatching one transaction to an account and recording it in
/// the account's history. Non-monetary records land in the history under the
/// reserved id they carry (`0` in the input format), where they may overwrite
/// one another.
pub open spec fn apply_transaction(c: ClientState, tid: u32, t: Transaction) -> ClientState {
    let stepped = match t {
        Transaction::Deposit(amount) => c.after_credit(amount),
        Transaction::Withdrawal(amount) => c.after_debit(amount),
        Transaction::Dispute(id) => c.after_dispute(id.0),
        Transaction::Resolve(id) => c.after_resolve(id.0),
        Transaction::Chargeback(id) => c.after_chargeback(id.0),
    };
    stepped.after_record(tid, t)
}

/// Effect of presenting one transaction to an unlocked account: a monetary
/// transaction whose id the account has already seen is dropped, anything
/// else is applied and recorded.
pub open spec fn step_client(c: ClientState, tid: u32, t: Transaction) -> ClientState {
    if is_monetary(t) && c.history.contains_key(tid) {
        c
    } else {
        apply_transaction(c, tid, t)
    }
}

/// The account states after `execute_transaction`: only an existing,
/// unlocked account changes, and only at the addressed client id.
pub open spec fn execute_state(
    m: Map<u16, ClientState>,
    cid: u16,
    tid: u32,
    t: Transaction,
) -> Map<u16, ClientState> {
    if m.contains_key(cid) && !m[cid].locked {
        m.insert(cid, step_client(m[cid], tid, t))
    } else {
        m
    }
}

/// The result of `execute_transaction`: an unknown client id or a locked
/// account is a hard error; a duplicate monetary transaction id is dropped
/// and reported as success.
pub open spec fn execute_result(
    m: Map<u16, ClientState>,
    cid: u16,
    tid: u32,
    t: Transaction,
) -> Result<ExecuteOutcome, ExecuteError> {
    if !m.contains_key(cid) {
        Err(ExecuteError::ClientNotFound(ClientNotFoundError(ClientId(cid))))
    } else if m[cid].locked {
        Err(ExecuteError::LockedAccount(LockedAccountError {}))
    } else if is_monetary(t) && m[cid].history.contains_key(tid) {
        Ok(ExecuteOutcome::DuplicateIgnored)
    } else {
        Ok(ExecuteOutcome::Applied)
    }
}

/// The balances touched by `execute_transaction` stay within `i64`.
pub open spec fn execute_fits(m: Map<u16, ClientState>, cid: u16, tid: u32, t: Transaction) -> bool {
    (m.contains_key(cid) && !m[cid].locked && !(is_monetary(t) && m[cid].history.contains_key(tid)))
        ==> {
        let c = m[cid];
        match t {
            Transaction::Deposit(amount) => fits_i64(c.available + amount),
            Transaction::Withdrawal(amount) => fits_i64(c.available - amount),
            Transaction::Dispute(id) => c.dispute_fits(id.0),
            Transaction::Resolve(id) => c.resolve_fits(id.0),
            Transaction::Chargeback(id) => c.chargeback_fits(id.0),
        }
    }
}

/// A hashmap type relating client IDs to clients.
pub struct ClientMap(HashMap<u16, Client>);

/// The account states that a map of clients holds.
spec fn views_of(m: Map<u16, Client>) -> Map<u16, ClientState> {
    m.map_values(|c: Client| c@)
}

impl View for ClientMap {
    type V = Map<u16, ClientState>;

    closed spec fn view(&self) -> Map<u16, ClientState> {
        views_of(self.0@)
    }
}

proof fn lemma_views_of_insert(m: Map<u16, Client>, k: u16, c: Client)
    ensures
        views_of(m.insert(k, c)) == views_of(m).insert(k, c@),
{
    assert(views_of(m.insert(k, c)) =~= views_of(m).insert(k, c@));
}

proof fn lemma_views_of_reinsert(m: Map<u16, Client>, k: u16, c: Client)
    requires
        m.contains_key(k),
        m[k] == c,
    ensures
        views_of(m.remove(k).insert(k, c)) == views_of(m),
{
    assert(views_of(m.remove(k).insert(k, c)) =~= views_of(m));
}

/// A warning triggered when overriding an existing client with a new one
/// with the same ID. It carries the client that was displaced.
#[derive(Debug)]
pub struct ExistingClientWarning(Client);

impl View for ExistingClientWarning {
    type V = ClientState;

    closed spec fn view(&self) -> ClientState {
        self.0@
    }
}

/// An error raised when a client is not found.
#[derive(Debug, Clone, Copy, PartialEq, Eq)]
pub struct ClientNotFoundError(pub ClientId);

/// An error raised when trying to do a transaction on a locked account.
#[derive(Debug, Clone, Copy, PartialEq, Eq)]
pub struct LockedAccountError {}

/// The two hard failures of `execute_transaction`, as a closed variant type.
#[derive(Debug, Clone, Copy, PartialEq, Eq)]
pub enum ExecuteError {
    ClientNotFound(ClientNotFoundError),
    LockedAccount(LockedAccountError),
}

/// How `execute_transaction` disposed of a transaction it accepted.
#[derive(Debug, Clone, Copy, PartialEq, Eq)]
pub enum ExecuteOutcome {
    /// The transaction was applied to the account and recorded.
    Applied,
    /// A monetary transaction reused an id the account had already seen; it
    /// was dropped without touching the account.
    DuplicateIgnored,
}

impl ClientMap {
    /// Check if a client id is in the map.
    pub fn contains_key(&self, key: &ClientId) -> (r: bool)
        ensures
            r == self@.contains_key(key.0),
    {
        self.0.contains_key(&key.0)
    }

    /// Insert a new `Client` under its `ClientId`. Overriding an existing
    /// client is reported as a warning carrying the displaced client.
    pub fn insert(&mut self, id: ClientId, client: Client) -> (r: Result<
        (),
        ExistingClientWarning,
    >)
        ensures
            final(self)@ == old(self)@.insert(id.0, client@),
            r is Ok <==> !old(self)@.contains_key(id.0),
            r matches Err(w) ==> w@ == old(self)@[id.0],
    {
        proof {
            lemma_views_of_insert(self.0@, id.0, client);
        }
        match self.0.insert(id.0, client) {
            None => Ok(()),
            Some(displaced) => Err(ExistingClientWarning(displaced)),
        }
    }

    /// Get a reference to a [`Client`] from an ID if such a client exists.
    pub fn get(&self, id: &ClientId) -> (r: Option<&Client>)
        ensures
            match r {
                Some(c) => self@.contains_key(id.0) && c@ == self@[id.0],
                None => !self@.contains_key(id.0),
            },
    {
        self.0.get(&id.0)
    }

    /// Make sure an account exists for `id`: absent ids get a freshly
    /// defaulted account, existing accounts are left alone.
    pub fn lookup_or_create(&mut self, id: ClientId)
        ensures
            final(self)@ == if old(self)@.contains_key(id.0) {
                old(self)@
            } else {
                old(self)@.insert(id.0, ClientState::initial())
            },
            clients_wf(old(self)@) ==> clients_wf(final(self)@),
    {
        if !self.0.contains_key(&id.0) {
            let fresh = Client::default();
            proof {
                lemma_views_of_insert(self.0@, id.0, fresh);
            }
            self.0.insert(id.0, fresh);
        }
    }

    /// Execute a transaction against the account of `client_id`.
    ///
    /// An unknown client id or a locked account is a hard error and leaves
    /// every account unchanged. A deposit or withdrawal whose id the account
    /// has already recorded is dropped and reported as
    /// [`ExecuteOutcome::DuplicateIgnored`]. Anything else is dispatched to
    /// the account and then recorded in its history.
    pub fn execute_transaction(
        &mut self,
        transaction_id: TransactionId,
        client_id: ClientId,
        transaction: Transaction,
    ) -> (r: Result<ExecuteOutcome, ExecuteError>)
        requires
            execute_fits(old(self)@, client_id.0, transaction_id.0, transaction),
        ensures
            final(self)@ == execute_state(old(self)@, client_id.0, transaction_id.0, transaction),
            r == execute_result(old(self)@, client_id.0, transaction_id.0, transaction),
            clients_wf(old(self)@) ==> clients_wf(final(self)@),
    {
        let ghost m0 = self@;
        let cid = client_id.0;
        match self.0.remove(&cid) {
            None => {
                proof {
                    assert(self.0@ =~= old(self).0@);
                }
                Err(ExecuteError::ClientNotFound(ClientNotFoundError(client_id)))
            },
            Some(mut client) => {
                proof {
                    assert(m0.contains_key(cid) && m0[cid] == client@);
                }
                if client.is_locked() {
                    proof {
                        lemma_views_of_reinsert(old(self).0@, cid, client);
                    }
                    self.0.insert(cid, client);
                    Err(ExecuteError::LockedAccount(LockedAccountError {}))
                } else {
                    let duplicate = match transaction {
                        Transaction::Deposit(_) | Transaction::Withdrawal(_) => {
                            client.history.contains_key(&transaction_id.0)
                        },
                        _ => false,
                    };
                    if duplicate {
                        proof {
                            lemma_views_of_reinsert(old(self).0@, cid, client);
                            assert(execute_state(m0, cid, transaction_id.0, transaction) =~= m0);
                        }
                        self.0.insert(cid, client);
                        Ok(ExecuteOutcome::DuplicateIgnored)
                    } else {
                        match transaction {
                            Transaction::Deposit(amount) => client.add_to_available(amount),
                            Transaction::Withdrawal(amount) => client.debit(amount),
                            Transaction::Dispute(id) => client.dispute(id),
                            Transaction::Resolve(id) => client.resolve(id),
                            Transaction::Chargeback(id) => client.chargeback(id),
                        }
                        client.add_to_history(transaction_id, transaction);
                        proof {
                            lemma_views_of_insert(old(self).0@.remove(cid), cid, client);
                            assert(views_of(old(self).0@.remove(cid)).insert(cid, client@)
                                =~= m0.insert(cid, client@));
                        }
                        self.0.insert(cid, client);
                        proof {
                            if clients_wf(m0) {
                                assert forall|k: u16| self@.contains_key(k) implies (#[trigger] self@[k]).wf() by {
                                    if k != cid {
                                        assert(self@[k] == m0[k]);
                                    }
                                }
                            }
                        }
                        Ok(ExecuteOutcome::Applied)
                    }
                }
            },
        }
    }

    /// Check ahead of [`Self::execute_transaction`] that the balances it
    /// would touch stay within `i64`. A transaction that the execution would
    /// reject or drop anyway passes the check, since it touches nothing.
    pub fn can_execute(
        &self,
        transaction_id: TransactionId,
        client_id: ClientId,
        transaction: Transaction,
    ) -> (r: bool)
        ensures
            r == execute_fits(self@, client_id.0, transaction_id.0, transaction),
    {
        match self.0.get(&client_id.0) {
            None => true,
            Some(client) => {
                if client.locked {
                    return true;
                }
                let available = client.available as i128;
                let held = client.held as i128;
                match transaction {
                    Transaction::Deposit(amount) => {
                        if client.history.contains_key(&transaction_id.0) {
                            true
                        } else {
                            fits_in_i64(available + amount as i128)
                        }
                    },
                    Transaction::Withdrawal(amount) => {
                        if client.history.contains_key(&transaction_id.0) {
                            true
                        } else {
                            fits_in_i64(available - amount as i128)
                        }
                    },
                    Transaction::Dispute(id) => {
                        if client.disputed_transactions.contains(&id.0) {
                            true
                        } else {
                            match client.history.get(&id.0) {
                                Some(Transaction::Deposit(amount)) => {
                                    fits_in_i64(available - *amount as i128) && fits_in_i64(
                                        held + *amount as i128,
                                    )
                                },
                                _ => true,
                            }
                        }
                    },
                    Transaction::Resolve(id) => {
                        if !client.disputed_transactions.contains(&id.0) {
                            true
                        } else {
                            match client.history.get(&id.0) {
                                Some(Transaction::Deposit(amount)) => {
                                    fits_in_i64(available + *amount as i128) && fits_in_i64(
                                        held - *amount as i128,
                                    )
                                },
                                _ => true,
                            }
                        }
                    },
                    Transaction::Chargeback(id) => {
                        if !client.disputed_transactions.contains(&id.0) {
                            true
                        } else {
                            match client.history.get(&id.0) {
                                Some(Transaction::Deposit(amount)) => {
                                    fits_in_i64(held - *amount as i128)
                                },
                                _ => true,
                            }
                        }
                    },
                }
            },
        }
    }

    /// Render the final report: a header row, then one row per known
    /// account, accounts sorted ascending by client id.
    pub fn render(&self) -> (r: String)
        ensures
            r@ == report(self@),
    {
        let mut s = String::from_str("client, available, held, total, locked\n");
        let mut k: u32 = 0;
        while k < 0x10000
            invariant
                k <= 0x10000,
                s@ == "client, available, held, total, locked\n"@ + report_rows(self@, k as int),
            decreases 0x10000 - k,
        {
            if let Some(client) = self.0.get(&(k as u16)) {
                let row = client.render();
                push_dec_u128(&mut s, k as u128);
                s.append(", ");
                s.append(row.as_str());
                s.append("\n");
                proof {
                    assert(self@.contains_key(k as u16) && self@[k as u16] == client@);
                    assert(s@ =~= "client, available, held, total, locked\n"@ + report_rows(
                        self@,
                        k as int + 1,
                    ));
                }
            } else {
                proof {
                    assert(!self@.contains_key(k as u16));
                    assert(s@ =~= "client, available, held, total, locked\n"@ + report_rows(
                        self@,
                        k as int + 1,
                    ));
                }
            }
            k = k + 1;
        }
        s
    }
}

impl Default for ClientMap {
    /// An empty map of clients.
    fn default() -> (r: Self)
        ensures
            r@ == Map::<u16, ClientState>::empty(),
    {
        ClientMap(HashMap::new())
    }
}

} // verus!
