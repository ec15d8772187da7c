use std::collections::HashMap;
use std::collections::HashSet;
use vstd::prelude::*;

use crate::api::currency::{Currency, CurrencyError};
use crate::api::transactions::Type;

verus! {

broadcast use {
    vstd::std_specs::hash::group_hash_axioms,
    crate::api::currency::lemma_view_bounded,
    crate::api::currency::lemma_view_injective,
};

/// Balances of one client.
#[derive(Debug, Clone, Copy)]
pub struct Account {
    /// Funds the client may withdraw.
    pub available: Currency,
    /// Funds frozen by open disputes.
    pub held: Currency,
    /// Set for good once a chargeback completes.
    pub locked: bool,
}

/// What an account holds, as numbers.
pub struct AccountState {
    pub available: nat,
    pub held: nat,
    pub locked: bool,
}

impl View for Account {
    type V = AccountState;

    open spec fn view(&self) -> AccountState {
        AccountState { available: self.available@, held: self.held@, locked: self.locked }
    }
}

impl Default for Account {
    fn default() -> (r: Self)
        ensures
            r@ == (AccountState { available: 0, held: 0, locked: false }),
    {
        let zero = match Currency::new(0, 0) {
            Ok(c) => c,
            Err(_) => {
                assert(false);
                Currency::max()
            },
        };
        Account { available: zero, held: zero, locked: false }
    }
}

/// Why an operation of the engine was refused.
#[derive(Debug, PartialEq)]
pub enum EngineError {
    /// The account is locked by a chargeback.
    AccountLocked(u16),
    /// A withdrawal names a client without an account.
    AccountDoesNotExist(u16),
    /// A dispute, resolve or chargeback names a client without an account.
    CannotFindAccount(u16),
    /// The transaction id was already used by a deposit or withdrawal.
    TransactionNotUnique(u32),
    /// No deposit or withdrawal recorded this transaction id.
    CannotFindTransaction(u32),
    /// The deposit would overflow the available funds.
    CannotDeposit { client: u16, tx: u32, amount: Currency, source: CurrencyError },
    /// A deposit would push the total over the largest amount; not reported by this engine.
    CannotDepositTotalExceededMaxLimit {
        client: u16,
        tx: u32,
        amount: Currency,
        available: Currency,
        held: Currency,
        source: CurrencyError,
    },
    /// Another writer opened the account first; not reported under exclusive access.
    DepositTryAgain(u32),
    /// The withdrawal exceeds the available funds.
    CannotWithdrawal { client: u16, tx: u32, amount: Currency, source: CurrencyError },
    /// The transaction is already under dispute.
    DisputeAlreadyDisputed(u32),
    /// The available funds no longer cover the disputed amount.
    DisputeCannotSubstractAvailable { source: CurrencyError },
    /// The held funds would overflow.
    DisputeCannotAddHeld { source: CurrencyError },
    /// The transaction is not under dispute.
    TransactionNotDisputed(u32),
    /// The transaction was charged back; it cannot be disputed again.
    TransactionChargedBack(u32),
    /// Returning the amount would overflow the available funds.
    ResolveCannotAddAvailable { source: CurrencyError },
    /// The held funds do not cover the amount.
    ResolveCannotSubstractHeld { source: CurrencyError },
    /// The held funds do not cover the amount.
    ChargebackCannotSubstractHeld { source: CurrencyError },
}

/// The state of the engine as mathematics: accounts by client, the amount of every recorded
/// transaction, and the transactions under dispute.
pub struct Ledger {
    pub accounts: Map<u16, AccountState>,
    pub transactions: Map<u32, nat>,
    pub disputed: Set<u32>,
    pub charged_back: Set<u32>,
}

impl Ledger {
    /// Only recorded transactions are ever under dispute or charged back, never both at once,
    /// and every balance and recorded amount fits in a `u64`.
    pub open spec fn wf(self) -> bool {
        &&& self.disputed.subset_of(self.transactions.dom())
        &&& self.charged_back.subset_of(self.transactions.dom())
        &&& self.disputed.disjoint(self.charged_back)
        &&& forall|c: u16|
            #[trigger] self.accounts.contains_key(c) ==> self.accounts[c].available <= u64::MAX
                && self.accounts[c].held <= u64::MAX
        &&& forall|t: u32|
            #[trigger] self.transactions.contains_key(t) ==> self.transactions[t] <= u64::MAX
    }

    /// `deposit` on this ledger: the ledger after it, and what it returns.
    pub open spec fn deposit(self, client: u16, tx: u32, amount: Currency) -> (
        Ledger,
        Result<(), EngineError>,
    ) {
        if self.transactions.contains_key(tx) {
            (self, Err(EngineError::TransactionNotUnique(tx)))
        } else {
            let recorded = Ledger {
                transactions: self.transactions.insert(tx, amount@),
                ..self
            };
            if !self.accounts.contains_key(client) {
                let fresh = AccountState { available: amount@, held: 0, locked: false };
                (Ledger { accounts: self.accounts.insert(client, fresh), ..recorded }, Ok(()))
            } else {
                let account = self.accounts[client];
                if account.locked {
                    (recorded, Err(EngineError::AccountLocked(client)))
                } else if account.available + amount@ > u64::MAX {
                    (
                        recorded,
                        Err(
                            EngineError::CannotDeposit {
                                client,
                                tx,
                                amount,
                                source: CurrencyError::AddingOtherOutOfRange,
                            },
                        ),
                    )
                } else {
                    let updated = AccountState {
                        available: account.available + amount@,
                        ..account
                    };
                    (Ledger { accounts: self.accounts.insert(client, updated), ..recorded }, Ok(()))
                }
            }
        }
    }

    /// The operation of kind `kind` on this ledger; `amount` is read by deposits and
    /// withdrawals only.
    pub open spec fn apply(self, kind: Type, client: u16, tx: u32, amount: Currency) -> (
        Ledger,
        Result<(), EngineError>,
    ) {
        match kind {
            Type::Deposit => self.deposit(client, tx, amount),
            Type::Withdrawal => self.withdrawal(client, tx, amount),
            Type::Dispute => self.dispute(client, tx),
            Type::Resolve => self.resolve(client, tx),
            Type::Chargeback => self.chargeback(client, tx),
        }
    }

    /// The ledger after the operations `ops` in order, each given as kind, client, transaction id
    /// and amount.
    pub open spec fn run(self, ops: Seq<(Type, u16, u32, Currency)>) -> Ledger
        decreases ops.len(),
    {
        if ops.len() == 0 {
            self
        } else {
            let (kind, client, tx, amount) = ops[0];
            self.apply(kind, client, tx, amount).0.run(ops.drop_first())
        }
    }

    /// `withdrawal` on this ledger: the ledger after it, and what it returns.
    pub open spec fn withdrawal(self, client: u16, tx: u32, amount: Currency) -> (
        Ledger,
        Result<(), EngineError>,
    ) {
        if self.transactions.contains_key(tx) {
            (self, Err(EngineError::TransactionNotUnique(tx)))
        } else {
            let recorded = Ledger {
                transactions: self.transactions.insert(tx, amount@),
                ..self
            };
            if !self.accounts.contains_key(client) {
                (recorded, Err(EngineError::AccountDoesNotExist(client)))
            } else {
                let account = self.accounts[client];
                if account.locked {
                    (recorded, Err(EngineError::AccountLocked(client)))
                } else if amount@ > account.available {
                    (
                        recorded,
                        Err(
                            EngineError::CannotWithdrawal {
                                client,
                                tx,
                                amount,
                                source: CurrencyError::SubstractingOtherNegative,
                            },
                        ),
                    )
                } else {
                    let updated = AccountState {
                        available: (account.available - amount@) as nat,
                        ..account
                    };
                    (Ledger { accounts: self.accounts.insert(client, updated), ..recorded }, Ok(()))
                }
            }
        }
    }

    /// `dispute` on this ledger: the ledger after it, and what it returns.
    pub open spec fn dispute(self, client: u16, tx: u32) -> (Ledger, Result<(), EngineError>) {
        if self.disputed.contains(tx) {
            (self, Err(EngineError::DisputeAlreadyDisputed(tx)))
        } else if self.charged_back.contains(tx) {
            (self, Err(EngineError::TransactionChargedBack(tx)))
        } else if !self.transactions.contains_key(tx) {
            (self, Err(EngineError::CannotFindTransaction(tx)))
        } else if !self.accounts.contains_key(client) {
            (self, Err(EngineError::CannotFindAccount(client)))
        } else {
            let amount = self.transactions[tx];
            let account = self.accounts[client];
            if amount > account.available {
                (
                    self,
                    Err(
                        EngineError::DisputeCannotSubstractAvailable {
                            source: CurrencyError::SubstractingOtherNegative,
                        },
                    ),
                )
            } else if account.held + amount > u64::MAX {
                (
                    self,
                    Err(
                        EngineError::DisputeCannotAddHeld {
                            source: CurrencyError::AddingOtherOutOfRange,
                        },
                    ),
                )
            } else {
                let updated = AccountState {
                    available: (account.available - amount) as nat,
                    held: account.held + amount,
                    ..account
                };
                (
                    Ledger {
                        accounts: self.accounts.insert(client, updated),
                        disputed: self.disputed.insert(tx),
                        ..self
                    },
                    Ok(()),
                )
            }
        }
    }

    /// `resolve` on this ledger: the ledger after it, and what it returns.
    pub open spec fn resolve(self, client: u16, tx: u32) -> (Ledger, Result<(), EngineError>) {
        if !self.transactions.contains_key(tx) {
            (self, Err(EngineError::CannotFindTransaction(tx)))
        } else if !self.disputed.contains(tx) {
            (self, Err(EngineError::TransactionNotDisputed(tx)))
        } else if !self.accounts.contains_key(client) {
            (self, Err(EngineError::CannotFindAccount(client)))
        } else {
            let amount = self.transactions[tx];
            let account = self.accounts[client];
            if account.available + amount > u64::MAX {
                (
                    self,
                    Err(
                        EngineError::ResolveCannotAddAvailable {
                            source: CurrencyError::AddingOtherOutOfRange,
                        },
                    ),
                )
            } else if amount > account.held {
                (
                    self,
                    Err(
                        EngineError::ResolveCannotSubstractHeld {
                            source: CurrencyError::SubstractingOtherNegative,
                        },
                    ),
                )
            } else {
                let updated = AccountState {
                    available: account.available + amount,
                    held: (account.held - amount) as nat,
                    ..account
                };
                (
                    Ledger {
                        accounts: self.accounts.insert(client, updated),
                        disputed: self.disputed.remove(tx),
                        ..self
                    },
                    Ok(()),
                )
            }
        }
    }

    /// `chargeback` on this ledger: the ledger after it, and what it returns.
    pub open spec fn chargeback(self, client: u16, tx: u32) -> (Ledger, Result<(), EngineError>) {
        if !self.transactions.contains_key(tx) {
            (self, Err(EngineError::CannotFindTransaction(tx)))
        } else if !self.disputed.contains(tx) {
            (self, Err(EngineError::TransactionNotDisputed(tx)))
        } else if !self.accounts.contains_key(client) {
            (self, Err(EngineError::CannotFindAccount(client)))
        } else {
            let amount = self.transactions[tx];
            let account = self.accounts[client];
            if amount > account.held {
                (
                    self,
                    Err(
                        EngineError::ChargebackCannotSubstractHeld {
                            source: CurrencyError::SubstractingOtherNegative,
                        },
                    ),
                )
            } else {
                let updated = AccountState {
                    held: (account.held - amount) as nat,
                    locked: true,
                    ..account
                };
                (
                    Ledger {
                        accounts: self.accounts.insert(client, updated),
                        disputed: self.disputed.remove(tx),
                        charged_back: self.charged_back.insert(tx),
                        ..self
                    },
                    Ok(()),
                )
            }
        }
    }
}

/// A deposit followed at once by a withdrawal of the same amount under a fresh transaction id
/// succeeds and leaves the client's account as it was before the deposit: same available
/// funds, same held funds, same lock (an account that the deposit opened is left at zero).
pub proof fn lemma_deposit_then_withdrawal(
    s: Ledger,
    client: u16,
    tx: u32,
    next_tx: u32,
    amount: Currency,
)
    requires
        s.deposit(client, tx, amount).1 is Ok,
        next_tx != tx,
        !s.transactions.contains_key(next_tx),
    ensures
        ({
            let (back, r) = s.deposit(client, tx, amount).0.withdrawal(client, next_tx, amount);
            &&& r is Ok
            &&& back.accounts[client] == if s.accounts.contains_key(client) {
                s.accounts[client]
            } else {
                AccountState { available: 0, held: 0, locked: false }
            }
        }),
{
}

/// No operation forgets a recorded transaction id.
proof fn lemma_recorded_id_stays(s: Ledger, ops: Seq<(Type, u16, u32, Currency)>, id: u32)
    requires
        s.transactions.contains_key(id),
    ensures
        s.run(ops).transactions.contains_key(id),
    decreases ops.len(),
{
    if ops.len() > 0 {
        let (kind, client, tx, amount) = ops[0];
        lemma_recorded_id_stays(s.apply(kind, client, tx, amount).0, ops.drop_first(), id);
    }
}

/// Once a deposit or withdrawal has used a transaction id, whether it succeeded or not, the id
/// stays recorded whatever operations follow, and every later deposit or withdrawal with it is
/// refused as not unique and changes nothing.
pub proof fn lemma_transaction_id_single_use(
    s: Ledger,
    kind: Type,
    client: u16,
    tx: u32,
    amount: Currency,
    ops: Seq<(Type, u16, u32, Currency)>,
)
    requires
        kind == Type::Deposit || kind == Type::Withdrawal,
    ensures
        ({
            let later = s.apply(kind, client, tx, amount).0.run(ops);
            &&& later.transactions.contains_key(tx)
            &&& forall|c: u16, a: Currency|
                #[trigger] later.deposit(c, tx, a) == (
                    later,
                    Err::<(), EngineError>(EngineError::TransactionNotUnique(tx)),
                )
            &&& forall|c: u16, a: Currency|
                #[trigger] later.withdrawal(c, tx, a) == (
                    later,
                    Err::<(), EngineError>(EngineError::TransactionNotUnique(tx)),
                )
        }),
{
    lemma_recorded_id_stays(s.apply(kind, client, tx, amount).0, ops, tx);
}

/// A dispute succeeds only on a recorded transaction that is neither under dispute nor charged
/// back, and puts it under dispute; resolve and chargeback succeed only on a transaction under
/// dispute, and take it out of dispute; a chargeback that succeeds marks the transaction as
/// charged back.
pub proof fn lemma_dispute_lifecycle(s: Ledger, client: u16, tx: u32)
    ensures
        s.dispute(client, tx).1 is Ok ==> s.transactions.contains_key(tx) && !s.disputed.contains(
            tx,
        ) && !s.charged_back.contains(tx) && s.dispute(client, tx).0.disputed.contains(tx),
        s.resolve(client, tx).1 is Ok ==> s.disputed.contains(tx) && !s.resolve(
            client,
            tx,
        ).0.disputed.contains(tx),
        s.chargeback(client, tx).1 is Ok ==> s.disputed.contains(tx) && !s.chargeback(
            client,
            tx,
        ).0.disputed.contains(tx) && s.chargeback(client, tx).0.charged_back.contains(tx),
{
}

/// A charged-back transaction stays charged back and out of dispute, whatever operations
/// follow.
proof fn lemma_charged_back_stays(s: Ledger, ops: Seq<(Type, u16, u32, Currency)>, id: u32)
    requires
        s.charged_back.contains(id),
        !s.disputed.contains(id),
    ensures
        s.run(ops).charged_back.contains(id),
        !s.run(ops).disputed.contains(id),
    decreases ops.len(),
{
    if ops.len() > 0 {
        let (kind, client, tx, amount) = ops[0];
        lemma_charged_back_stays(s.apply(kind, client, tx, amount).0, ops.drop_first(), id);
    }
}

/// A chargeback is terminal for its transaction: whatever operations follow, every dispute of
/// it is refused and changes nothing, and so is every resolve or chargeback of it.
pub proof fn lemma_charged_back_is_terminal(
    s: Ledger,
    client: u16,
    tx: u32,
    ops: Seq<(Type, u16, u32, Currency)>,
)
    requires
        s.chargeback(client, tx).1 is Ok,
    ensures
        ({
            let later = s.chargeback(client, tx).0.run(ops);
            &&& later.charged_back.contains(tx)
            &&& forall|c: u16|
                #[trigger] later.dispute(c, tx) == (
                    later,
                    Err::<(), EngineError>(EngineError::TransactionChargedBack(tx)),
                )
            &&& forall|c: u16|
                #[trigger] later.resolve(c, tx) == (
                    later,
                    Err::<(), EngineError>(EngineError::TransactionNotDisputed(tx)),
                )
            &&& forall|c: u16|
                #[trigger] later.chargeback(c, tx) == (
                    later,
                    Err::<(), EngineError>(EngineError::TransactionNotDisputed(tx)),
                )
        }),
{
    let after = s.chargeback(client, tx).0;
    lemma_charged_back_stays(after, ops, tx);
    lemma_recorded_id_stays(after, ops, tx);
}

/// A locked account stays, and stays locked, whatever operations follow.
proof fn lemma_locked_stays(s: Ledger, ops: Seq<(Type, u16, u32, Currency)>, client: u16)
    requires
        s.accounts.contains_key(client),
        s.accounts[client].locked,
    ensures
        s.run(ops).accounts.contains_key(client),
        s.run(ops).accounts[client].locked,
    decreases ops.len(),
{
    if ops.len() > 0 {
        let (kind, c, tx, amount) = ops[0];
        lemma_locked_stays(s.apply(kind, c, tx, amount).0, ops.drop_first(), client);
    }
}

/// A chargeback that succeeds locks the account; whatever operations follow, it stays locked,
/// and every deposit to it and withdrawal from it is refused and leaves it unchanged.
pub proof fn lemma_chargeback_locks_for_good(
    s: Ledger,
    client: u16,
    tx: u32,
    ops: Seq<(Type, u16, u32, Currency)>,
)
    requires
        s.chargeback(client, tx).1 is Ok,
    ensures
        ({
            let later = s.chargeback(client, tx).0.run(ops);
            &&& later.accounts.contains_key(client)
            &&& later.accounts[client].locked
            &&& forall|t: u32, a: Currency|
                #![trigger later.deposit(client, t, a)]
                later.deposit(client, t, a).1 is Err && later.deposit(client, t, a).0.accounts[client]
                    == later.accounts[client]
            &&& forall|t: u32, a: Currency|
                #![trigger later.withdrawal(client, t, a)]
                later.withdrawal(client, t, a).1 is Err && later.withdrawal(
                    client,
                    t,
                    a,
                ).0.accounts[client] == later.accounts[client]
        }),
{
    lemma_locked_stays(s.chargeback(client, tx).0, ops, client);
}

/// Applies deposits, withdrawals and the dispute lifecycle to client accounts.
///
/// Every operation takes the engine by `&mut self`, so it runs with exclusive access and either
/// completes or leaves the state as it was (a deposit or withdrawal that gets past the
/// uniqueness check still records its transaction id). Threads that share an engine hold it
/// behind a lock of their own.
pub struct Engine {
    accounts: HashMap<u16, Account>,
    transactions: HashMap<u32, Currency>,
    transactions_disputed: HashSet<u32>,
    transactions_charged_back: HashSet<u32>,
}

impl View for Engine {
    type V = Ledger;

    closed spec fn view(&self) -> Ledger {
        Ledger {
            accounts: self.accounts@.map_values(|a: Account| a@),
            transactions: self.transactions@.map_values(|c: Currency| c@),
            disputed: self.transactions_disputed@,
            charged_back: self.transactions_charged_back@,
        }
    }
}

impl Engine {
    /// An engine with no accounts and no transactions.
    pub fn new() -> (r: Self)
        ensures
            r@.accounts.is_empty(),
            r@.transactions.is_empty(),
            r@.disputed.is_empty(),
            r@.charged_back.is_empty(),
            r@.wf(),
    {
        let r = Engine {
            accounts: HashMap::new(),
            transactions: HashMap::new(),
            transactions_disputed: HashSet::new(),
            transactions_charged_back: HashSet::new(),
        };
        assert(r@.accounts =~= Map::empty());
        assert(r@.transactions =~= Map::empty());
        r
    }

    /// The accounts by client id, for reporting.
    pub fn accounts(&self) -> (r: &HashMap<u16, Account>)
        ensures
            r@.map_values(|a: Account| a@) == self@.accounts,
    {
        &self.accounts
    }

    /// A copy of the client's account, if it exists.
    pub fn account(&self, client: u16) -> (r: Option<Account>)
        ensures
            match r {
                Some(a) => self@.accounts.contains_key(client) && a@ == self@.accounts[client],
                None => !self@.accounts.contains_key(client),
            },
    {
        match self.accounts.get(&client) {
            Some(found) => Some(*found),
            None => None,
        }
    }

    /// Credits `amount` to the client's available funds, opening the account if it is new.
    /// The transaction id is used up by any attempt that gets past the uniqueness check.
    pub fn deposit(&mut self, client: u16, tx: u32, amount: Currency) -> (r: Result<
        (),
        EngineError,
    >)
        ensures
            (final(self)@, r) == old(self)@.deposit(client, tx, amount),
            old(self)@.wf() ==> final(self)@.wf(),
    {
        if self.transactions.contains_key(&tx) {
            return Err(EngineError::TransactionNotUnique(tx));
        }
        self.transactions.insert(tx, amount);
        assert(self@.transactions =~= old(self)@.transactions.insert(tx, amount@));
        match self.accounts.get(&client) {
            Some(found) => {
                let mut account = *found;
                if account.locked {
                    return Err(EngineError::AccountLocked(client));
                }
                match account.available.add(amount) {
                    Ok(()) => {},
                    Err(source) => {
                        return Err(EngineError::CannotDeposit { client, tx, amount, source });
                    },
                }
                self.accounts.insert(client, account);
            },
            None => {
                let mut account = Account::default();
                match account.available.add(amount) {
                    Ok(()) => {},
                    Err(source) => {
                        return Err(EngineError::CannotDeposit { client, tx, amount, source });
                    },
                }
                self.accounts.insert(client, account);
            },
        }
        assert(self@.accounts =~= old(self)@.deposit(client, tx, amount).0.accounts);
        Ok(())
    }

    /// Debits `amount` from the client's available funds. The transaction id is used up by any
    /// attempt that gets past the uniqueness check.
    pub fn withdrawal(&mut self, client: u16, tx: u32, amount: Currency) -> (r: Result<
        (),
        EngineError,
    >)
        ensures
            (final(self)@, r) == old(self)@.withdrawal(client, tx, amount),
            old(self)@.wf() ==> final(self)@.wf(),
    {
        if self.transactions.contains_key(&tx) {
            return Err(EngineError::TransactionNotUnique(tx));
        }
        self.transactions.insert(tx, amount);
        assert(self@.transactions =~= old(self)@.transactions.insert(tx, amount@));
        let mut account = match self.accounts.get(&client) {
            Some(found) => *found,
            None => {
                return Err(EngineError::AccountDoesNotExist(client));
            },
        };
        if account.locked {
            return Err(EngineError::AccountLocked(client));
        }
        match account.available.substract(amount) {
            Ok(()) => {},
            Err(source) => {
                return Err(EngineError::CannotWithdrawal { client, tx, amount, source });
            },
        }
        self.accounts.insert(client, account);
        assert(self@.accounts =~= old(self)@.withdrawal(client, tx, amount).0.accounts);
        Ok(())
    }

    /// Moves the amount of transaction `tx` from the client's available funds to held funds and
    /// marks `tx` as disputed. A charged-back transaction is never disputed again. On any error
    /// nothing changes.
    pub fn dispute(&mut self, client: u16, tx: u32) -> (r: Result<(), EngineError>)
        ensures
            (final(self)@, r) == old(self)@.dispute(client, tx),
            old(self)@.wf() ==> final(self)@.wf(),
    {
        if self.transactions_disputed.contains(&tx) {
            return Err(EngineError::DisputeAlreadyDisputed(tx));
        }
        if self.transactions_charged_back.contains(&tx) {
            return Err(EngineError::TransactionChargedBack(tx));
        }
        let amount = match self.transactions.get(&tx) {
            Some(found) => *found,
            None => {
                return Err(EngineError::CannotFindTransaction(tx));
            },
        };
        let mut account = match self.accounts.get(&client) {
            Some(found) => *found,
            None => {
                return Err(EngineError::CannotFindAccount(client));
            },
        };
        match account.available.substract(amount) {
            Ok(()) => {},
            Err(source) => {
                return Err(EngineError::DisputeCannotSubstractAvailable { source });
            },
        }
        match account.held.add(amount) {
            Ok(()) => {},
            Err(source) => {
                return Err(EngineError::DisputeCannotAddHeld { source });
            },
        }
        self.accounts.insert(client, account);
        self.transactions_disputed.insert(tx);
        assert(self@.accounts =~= old(self)@.dispute(client, tx).0.accounts);
        Ok(())
    }

    /// Moves the amount of disputed transaction `tx` back from held to available funds and
    /// closes the dispute. On any error nothing changes.
    pub fn resolve(&mut self, client: u16, tx: u32) -> (r: Result<(), EngineError>)
        ensures
            (final(self)@, r) == old(self)@.resolve(client, tx),
            old(self)@.wf() ==> final(self)@.wf(),
    {
        let amount = match self.transactions.get(&tx) {
            Some(found) => *found,
            None => {
                return Err(EngineError::CannotFindTransaction(tx));
            },
        };
        if !self.transactions_disputed.contains(&tx) {
            return Err(EngineError::TransactionNotDisputed(tx));
        }
        let mut account = match self.accounts.get(&client) {
            Some(found) => *found,
            None => {
                return Err(EngineError::CannotFindAccount(client));
            },
        };
        match account.available.add(amount) {
            Ok(()) => {},
            Err(source) => {
                return Err(EngineError::ResolveCannotAddAvailable { source });
            },
        }
        match account.held.substract(amount) {
            Ok(()) => {},
            Err(source) => {
                return Err(EngineError::ResolveCannotSubstractHeld { source });
            },
        }
        self.accounts.insert(client, account);
        self.transactions_disputed.remove(&tx);
        assert(self@.accounts =~= old(self)@.resolve(client, tx).0.accounts);
        Ok(())
    }

    /// Removes the amount of disputed transaction `tx` from held funds, locks the account for
    /// good, closes the dispute and marks `tx` as charged back for good. On any error nothing changes.
    pub fn chargeback(&mut self, client: u16, tx: u32) -> (r: Result<(), EngineError>)
        ensures
            (final(self)@, r) == old(self)@.chargeback(client, tx),
            old(self)@.wf() ==> final(self)@.wf(),
    {
        let amount = match self.transactions.get(&tx) {
            Some(found) => *found,
            None => {
                return Err(EngineError::CannotFindTransaction(tx));
            },
        };
        if !self.transactions_disputed.contains(&tx) {
            return Err(EngineError::TransactionNotDisputed(tx));
        }
        let mut account = match self.accounts.get(&client) {
            Some(found) => *found,
            None => {
                return Err(EngineError::CannotFindAccount(client));
            },
        };
        match account.held.substract(amount) {
            Ok(()) => {},
            Err(source) => {
                return Err(EngineError::ChargebackCannotSubstractHeld { source });
            },
        }
        account.locked = true;
        self.accounts.insert(client, account);
        self.transactions_disputed.remove(&tx);
        self.transactions_charged_back.insert(tx);
        assert(self@.accounts =~= old(self)@.chargeback(client, tx).0.accounts);
        Ok(())
    }
}

} // verus!
