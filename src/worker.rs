//! The per-client state machine: one worker applies one client's
//! transactions, in order, against that client's stores.
use crate::account::{AccountStatus, ClientAccount};
use crate::error::PaymentError;
use crate::ports::{is_deposit_record, lookup, AccountStore, TransactionStore};
use crate::transaction::{DisputeStatus, Transaction, TransactionType};
use vstd::prelude::*;

verus! {

/// What the stores hold of one client: the account, every transaction id
/// recorded, and the deposit records by id.
pub struct ClientState {
    pub account: ClientAccount,
    pub seen: Set<u32>,
    pub deposits: Map<u32, Transaction>,
}

impl ClientState {
    /// The state of a client before any transaction: a fresh account and no
    /// history.
    pub open spec fn initial(client: u16) -> ClientState {
        ClientState {
            account: ClientAccount::fresh(client),
            seen: Set::empty(),
            deposits: Map::empty(),
        }
    }

    /// A consistent state: the account is well formed, every deposit record
    /// is a deposit of a positive amount, filed under its own id, whose id
    /// was seen, and the held funds are exactly the amounts of the disputed
    /// deposits.
    pub open spec fn valid(self) -> bool {
        &&& self.account.wf()
        &&& self.deposits.dom().finite()
        &&& self.account.held.0 == held_sum(self.deposits, self.deposits.dom())
        &&& forall|k: u32| #[trigger]
            self.deposits.contains_key(k) ==> {
                &&& is_deposit_record(self.deposits[k])
                &&& self.deposits[k].tx == k
                &&& self.deposits[k].amount->Some_0.spec_units() > 0
                &&& self.seen.contains(k)
            }
    }

    /// The dispute state of the deposit recorded under `tx_id`, if any.
    pub open spec fn status_of(self, tx_id: u32) -> Option<DisputeStatus> {
        match lookup(self.deposits, tx_id) {
            Some(t) => Some(t.dispute_status),
            None => None,
        }
    }
}

/// What a deposit record holds back: its amount while it is disputed,
/// nothing otherwise.
pub open spec fn held_by(t: Transaction) -> int {
    if t.dispute_status == DisputeStatus::Disputed {
        match t.amount {
            Some(a) => a.spec_units(),
            None => 0,
        }
    } else {
        0
    }
}

/// The funds that the records of `m` under the ids `ids` hold back.
pub open spec fn held_sum(m: Map<u32, Transaction>, ids: Set<u32>) -> int
    decreases ids.len(),
{
    if ids.finite() && ids.len() > 0 {
        let k = ids.choose();
        held_by(m[k]) + held_sum(m, ids.remove(k))
    } else {
        0
    }
}

/// Any one id can be taken out of the sum first.
proof fn lemma_held_sum_split(m: Map<u32, Transaction>, ids: Set<u32>, k: u32)
    requires
        ids.finite(),
        ids.contains(k),
    ensures
        held_sum(m, ids) == held_by(m[k]) + held_sum(m, ids.remove(k)),
    decreases ids.len(),
{
    assert(ids.len() > 0);
    let c = ids.choose();
    if c != k {
        lemma_held_sum_split(m, ids.remove(c), k);
        lemma_held_sum_split(m, ids.remove(k), c);
        assert(ids.remove(c).remove(k) =~= ids.remove(k).remove(c));
    }
}

/// Two maps whose records hold back the same under each id have the same sum.
proof fn lemma_held_sum_agree(m1: Map<u32, Transaction>, m2: Map<u32, Transaction>, ids: Set<u32>)
    requires
        forall|k: u32| ids.contains(k) ==> held_by(#[trigger] m1[k]) == held_by(m2[k]),
    ensures
        held_sum(m1, ids) == held_sum(m2, ids),
    decreases ids.len(),
{
    if ids.finite() && ids.len() > 0 {
        lemma_held_sum_agree(m1, m2, ids.remove(ids.choose()));
    }
}

/// Records that hold back nothing negative hold back nothing negative in sum.
proof fn lemma_held_sum_nonnegative(m: Map<u32, Transaction>, ids: Set<u32>)
    requires
        forall|k: u32| ids.contains(k) ==> held_by(#[trigger] m[k]) >= 0,
    ensures
        held_sum(m, ids) >= 0,
    decreases ids.len(),
{
    if ids.finite() && ids.len() > 0 {
        lemma_held_sum_nonnegative(m, ids.remove(ids.choose()));
    }
}

/// The account stored for `client`, or a fresh one when there is none.
pub open spec fn current_account(accounts: Map<u16, ClientAccount>, client: u16) -> ClientAccount {
    if accounts.contains_key(client) {
        accounts[client]
    } else {
        ClientAccount::fresh(client)
    }
}

/// A deposit of a new id credits the account and records the deposit,
/// undisputed. A credit that does not fit leaves the account as it is, and
/// its id is recorded with no deposit record. A repeated id changes nothing.
pub open spec fn step_deposit(s: ClientState, tx: Transaction) -> ClientState {
    match tx.amount {
        Some(a) => if s.seen.contains(tx.tx) {
            s
        } else {
            match s.account.spec_deposit(a.spec_units()) {
                Some(acc) => ClientState {
                    account: acc,
                    seen: s.seen.insert(tx.tx),
                    deposits: s.deposits.insert(tx.tx, tx.as_recorded()),
                },
                None => ClientState {
                    account: s.account,
                    seen: s.seen.insert(tx.tx),
                    deposits: s.deposits.remove(tx.tx),
                },
            }
        },
        None => s,
    }
}

/// A withdrawal of a new id debits the account when enough is available,
/// and leaves it as it is otherwise; either way its id is recorded. A
/// repeated id changes nothing.
pub open spec fn step_withdrawal(s: ClientState, tx: Transaction) -> ClientState {
    match tx.amount {
        Some(a) => if s.seen.contains(tx.tx) {
            s
        } else {
            ClientState {
                account: match s.account.spec_withdraw(a.spec_units()) {
                    Some(acc) => acc,
                    None => s.account,
                },
                seen: s.seen.insert(tx.tx),
                deposits: s.deposits.remove(tx.tx),
            }
        },
        None => s,
    }
}

/// A dispute, resolve or chargeback of the deposit `tx.tx`: when a record
/// exists under that id, is a deposit, belongs to the same client, is in state `from` and the
/// account movement `moved` succeeds, the deposit moves to state `to`.
pub open spec fn step_referral(
    s: ClientState,
    tx: Transaction,
    from: DisputeStatus,
    to: DisputeStatus,
    moved: Option<ClientAccount>,
) -> ClientState {
    match lookup(s.deposits, tx.tx) {
        Some(orig) => if orig.kind == TransactionType::Deposit && orig.client == tx.client
            && orig.dispute_status == from && orig.amount is Some {
            match moved {
                Some(acc) => ClientState {
                    account: acc,
                    seen: s.seen.insert(tx.tx),
                    deposits: s.deposits.insert(tx.tx, orig.with_status(to)),
                },
                None => s,
            }
        } else {
            s
        },
        None => s,
    }
}

/// The amount of the deposit recorded under `tx_id`, if there is one with
/// an amount.
pub open spec fn referred_units(s: ClientState, tx_id: u32) -> int {
    match lookup(s.deposits, tx_id) {
        Some(orig) => match orig.amount {
            Some(a) => a.spec_units(),
            None => 0,
        },
        None => 0,
    }
}

/// The state after one transaction of this client. A locked account
/// accepts nothing.
pub open spec fn step(s: ClientState, tx: Transaction) -> ClientState {
    if s.account.is_locked() {
        s
    } else {
        let a = referred_units(s, tx.tx);
        match tx.kind {
            TransactionType::Deposit => step_deposit(s, tx),
            TransactionType::Withdrawal => step_withdrawal(s, tx),
            TransactionType::Dispute => step_referral(
                s,
                tx,
                DisputeStatus::Undisputed,
                DisputeStatus::Disputed,
                s.account.spec_hold(a),
            ),
            TransactionType::Resolve => step_referral(
                s,
                tx,
                DisputeStatus::Disputed,
                DisputeStatus::Resolved,
                s.account.spec_resolve(a),
            ),
            TransactionType::Chargeback => step_referral(
                s,
                tx,
                DisputeStatus::Disputed,
                DisputeStatus::Chargebacked,
                s.account.spec_chargeback(a),
            ),
        }
    }
}

/// A transaction whose amount, if it has one, is positive; every
/// transaction built through `Amount::new` is.
pub open spec fn valid_amount(tx: Transaction) -> bool {
    tx.amount matches Some(a) ==> a.spec_units() > 0
}

/// Every transaction keeps the account invariant (the total is available
/// plus held funds, and neither is negative) and the history consistent.
pub proof fn lemma_step_keeps_invariant(s: ClientState, tx: Transaction)
    requires
        s.valid(),
        valid_amount(tx),
    ensures
        step(s, tx).valid(),
{
    let n = step(s, tx);
    if !s.account.is_locked() {
        assert forall|k: u32| #[trigger] n.deposits.contains_key(k) implies {
            &&& is_deposit_record(n.deposits[k])
            &&& n.deposits[k].tx == k
            &&& n.deposits[k].amount->Some_0.spec_units() > 0
            &&& n.seen.contains(k)
        } by {
            if k != tx.tx {
                assert(s.deposits.contains_key(k));
            }
        }
        let m = s.deposits;
        let k = tx.tx;
        let dom = m.dom();
        if n.deposits != m {
            if m.contains_key(k) {
                // A dispute, resolve or chargeback moved the record under `k`.
                let m2 = n.deposits;
                assert(m2.dom() =~= dom);
                lemma_held_sum_split(m, dom, k);
                lemma_held_sum_split(m2, dom, k);
                lemma_held_sum_agree(m, m2, dom.remove(k));
            } else {
                // A deposit of a new id, recorded undisputed.
                let m2 = n.deposits;
                assert(!s.seen.contains(k) || !m.contains_key(k));
                if m2.contains_key(k) {
                    assert(m2.dom() =~= dom.insert(k));
                    assert(m2.dom().remove(k) =~= dom);
                    lemma_held_sum_split(m2, m2.dom(), k);
                    lemma_held_sum_agree(m, m2, dom);
                } else {
                    assert(m2 =~= m);
                }
            }
        }
    }
}

/// A disputed deposit can always be resolved or charged back: the held
/// funds cover it.
pub proof fn lemma_disputed_deposit_is_covered(s: ClientState, tx_id: u32)
    requires
        s.valid(),
        s.status_of(tx_id) == Some(DisputeStatus::Disputed),
    ensures
        s.account.held.0 >= referred_units(s, tx_id),
        s.account.spec_resolve(referred_units(s, tx_id)) is Some,
        s.account.spec_chargeback(referred_units(s, tx_id)) is Some,
{
    let dom = s.deposits.dom();
    lemma_held_sum_split(s.deposits, dom, tx_id);
    assert forall|k: u32| dom.remove(tx_id).contains(k) implies held_by(
        #[trigger] s.deposits[k],
    ) >= 0 by {
        assert(s.deposits.contains_key(k));
    }
    lemma_held_sum_nonnegative(s.deposits, dom.remove(tx_id));
}

/// Once an account is locked, no transaction changes anything: the account
/// stays locked and its balances stay as they are.
pub proof fn lemma_locked_is_final(s: ClientState, tx: Transaction)
    requires
        s.account.is_locked(),
    ensures
        step(s, tx) == s,
        step(s, tx).account.is_locked(),
{
}

/// Applying the same deposit or withdrawal twice has the effect of
/// applying it once.
pub proof fn lemma_repeat_is_noop(s: ClientState, tx: Transaction)
    requires
        tx.kind == TransactionType::Deposit || tx.kind == TransactionType::Withdrawal,
    ensures
        step(step(s, tx), tx) == step(s, tx),
{
}

/// A deposit or withdrawal whose id was already recorded changes nothing,
/// however many transactions came in between.
pub proof fn lemma_recorded_id_is_noop(s: ClientState, tx: Transaction)
    requires
        tx.kind == TransactionType::Deposit || tx.kind == TransactionType::Withdrawal,
        s.seen.contains(tx.tx),
    ensures
        step(s, tx) == s,
{
}

/// The state after a client's transactions, applied in order.
pub open spec fn run_steps(s: ClientState, txs: Seq<Transaction>) -> ClientState
    decreases txs.len(),
{
    if txs.len() == 0 {
        s
    } else {
        run_steps(step(s, txs[0]), txs.drop_first())
    }
}

/// Recorded ids stay recorded, and a locked account stays as it is, over
/// any run of transactions.
pub proof fn lemma_run_keeps_history(s: ClientState, txs: Seq<Transaction>)
    ensures
        s.seen.subset_of(run_steps(s, txs).seen),
        s.account.is_locked() ==> run_steps(s, txs) == s,
    decreases txs.len(),
{
    if txs.len() > 0 {
        lemma_run_keeps_history(step(s, txs[0]), txs.drop_first());
    }
}

/// Sending a deposit or withdrawal again, however many transactions came in
/// between, has no effect beyond the first time.
pub proof fn lemma_replay_is_noop(s: ClientState, tx: Transaction, between: Seq<Transaction>)
    requires
        tx.kind == TransactionType::Deposit || tx.kind == TransactionType::Withdrawal,
    ensures
        step(run_steps(step(s, tx), between), tx) == run_steps(step(s, tx), between),
{
    let s1 = step(s, tx);
    lemma_run_keeps_history(s1, between);
    if !s.account.is_locked() && tx.amount is Some {
        assert(s1.seen.contains(tx.tx));
    }
}

/// Recorded ids stay recorded.
pub proof fn lemma_recorded_ids_persist(s: ClientState, tx: Transaction)
    ensures
        s.seen.subset_of(step(s, tx).seen),
{
}

/// A dispute applies only to an undisputed deposit, and a resolve or a
/// chargeback only to a disputed one: against any other state they change
/// nothing.
pub proof fn lemma_dispute_guards(s: ClientState, tx: Transaction)
    ensures
        tx.kind == TransactionType::Dispute && s.status_of(tx.tx) != Some(
            DisputeStatus::Undisputed,
        ) ==> step(s, tx) == s,
        (tx.kind == TransactionType::Resolve || tx.kind == TransactionType::Chargeback)
            && s.status_of(tx.tx) != Some(DisputeStatus::Disputed) ==> step(s, tx) == s,
{
}

/// A resolved or charged-back deposit keeps that state whatever comes
/// next: the end of a dispute is final.
pub proof fn lemma_dispute_end_is_final(s: ClientState, tx: Transaction, tx_id: u32)
    requires
        s.valid(),
        s.status_of(tx_id) == Some(DisputeStatus::Resolved) || s.status_of(tx_id) == Some(
            DisputeStatus::Chargebacked,
        ),
    ensures
        step(s, tx).status_of(tx_id) == s.status_of(tx_id),
{
    assert(s.seen.contains(tx_id));
}

/// Applies one client's transactions, in order, against that client's
/// account store and transaction store.
pub struct ClientWorker<A: AccountStore, T: TransactionStore> {
    client_id: u16,
    account_store: A,
    transaction_store: T,
}

impl<A: AccountStore, T: TransactionStore> ClientWorker<A, T> {
    /// The client this worker serves.
    pub closed spec fn client(&self) -> u16 {
        self.client_id
    }

    /// The accounts in the worker's account store.
    pub closed spec fn accounts(&self) -> Map<u16, ClientAccount> {
        self.account_store.accounts()
    }

    /// The client's state as the worker's stores hold it.
    pub closed spec fn state(&self) -> ClientState {
        ClientState {
            account: current_account(self.account_store.accounts(), self.client_id),
            seen: self.transaction_store.seen(),
            deposits: self.transaction_store.deposits(),
        }
    }

    /// Whether both stores succeed on every call.
    pub open spec fn infallible() -> bool {
        A::infallible() && T::infallible()
    }

    /// Both stores are consistent, and the client's account is well formed
    /// and filed under its own id.
    pub closed spec fn wf(&self) -> bool {
        &&& self.account_store.inv()
        &&& self.transaction_store.inv()
        &&& self.state().account.wf()
        &&& self.state().account.client == self.client_id
    }

    /// A well-formed worker's account is well formed and is its client's.
    pub proof fn lemma_account_wf(&self)
        requires
            self.wf(),
        ensures
            self.state().account.wf(),
            self.state().account.client == self.client(),
    {
    }

    /// A worker for `client_id` over the given stores.
    pub fn new(client_id: u16, account_store: A, transaction_store: T) -> (r: Self)
        requires
            account_store.inv(),
            transaction_store.inv(),
            current_account(account_store.accounts(), client_id).wf(),
            current_account(account_store.accounts(), client_id).client == client_id,
        ensures
            r.wf(),
            r.client() == client_id,
            r.accounts() == account_store.accounts(),
            r.state() == (ClientState {
                account: current_account(account_store.accounts(), client_id),
                seen: transaction_store.seen(),
                deposits: transaction_store.deposits(),
            }),
    {
        ClientWorker { client_id, account_store, transaction_store }
    }

    /// The client this worker serves.
    pub fn client_id(&self) -> (r: u16)
        ensures
            r == self.client(),
    {
        self.client_id
    }

    /// The client's current account: the stored one, or a fresh one when
    /// none is stored yet.
    pub fn current_account(&self) -> (r: Result<ClientAccount, PaymentError>)
        requires
            self.wf(),
        ensures
            r matches Ok(a) ==> a == self.state().account,
            Self::infallible() ==> r is Ok,
    {
        match self.account_store.get(self.client_id) {
            Ok(Some(a)) => Ok(a),
            Ok(None) => Ok(ClientAccount::new(self.client_id)),
            Err(e) => Err(e),
        }
    }

    /// Gives the stores back.
    pub fn into_stores(self) -> (r: (A, T))
        requires
            self.wf(),
        ensures
            r.0.inv(),
            r.1.inv(),
            r.0.accounts() == self.accounts(),
            r.1.seen() == self.state().seen,
            r.1.deposits() == self.state().deposits,
    {
        (self.account_store, self.transaction_store)
    }

    /// Applies `tx` to the client's account. Rejected transactions (a locked
    /// account, a repeated id, too few funds, a dispute that does not apply)
    /// change nothing and are not errors; an error means a store failed, and
    /// processing of `tx` stopped there.
    pub fn handle_transaction(&mut self, tx: Transaction) -> (r: Result<(), PaymentError>)
        requires
            old(self).wf(),
            tx.client == old(self).client(),
        ensures
            final(self).wf(),
            final(self).client() == old(self).client(),
            Self::infallible() ==> r is Ok,
            final(self).state().account.wf(),
            final(self).state().account.client == final(self).client(),
            r is Ok ==> final(self).state() == step(old(self).state(), tx),
            r is Ok ==> final(self).accounts() == (if old(self).state().account.is_locked() {
                old(self).accounts()
            } else {
                old(self).accounts().insert(tx.client, step(old(self).state(), tx).account)
            }),
    {
        let mut account = match self.account_store.get(self.client_id) {
            Ok(Some(a)) => a,
            Ok(None) => ClientAccount::new(self.client_id),
            Err(e) => {
                return Err(e);
            },
        };
        if account.status == AccountStatus::Locked {
            return Ok(());
        }
        match tx.kind {
            TransactionType::Deposit => {
                if let Some(amount) = tx.amount {
                    let seen = match self.transaction_store.contains(tx.tx) {
                        Ok(b) => b,
                        Err(e) => {
                            return Err(e);
                        },
                    };
                    if !seen {
                        let record = if account.deposit(amount).is_ok() {
                            Transaction { dispute_status: DisputeStatus::Undisputed, ..tx }
                        } else {
                            Transaction { amount: None, dispute_status: DisputeStatus::Undisputed, ..tx }
                        };
                        if let Err(e) = self.transaction_store.store(record) {
                            return Err(e);
                        }
                    }
                }
            },
            TransactionType::Withdrawal => {
                if let Some(amount) = tx.amount {
                    let seen = match self.transaction_store.contains(tx.tx) {
                        Ok(b) => b,
                        Err(e) => {
                            return Err(e);
                        },
                    };
                    if !seen {
                        let _ = account.withdraw(amount);
                        if let Err(e) = self.transaction_store.store(tx) {
                            return Err(e);
                        }
                    }
                }
            },
            _ => {
                let found = match self.transaction_store.get(tx.tx) {
                    Ok(f) => f,
                    Err(e) => {
                        return Err(e);
                    },
                };
                if let Some(orig) = found {
                    if orig.kind == TransactionType::Deposit && orig.tx == tx.tx
                        && orig.client == tx.client {
                        if let Some(amount) = orig.amount {
                            let to = match tx.kind {
                                TransactionType::Dispute => {
                                    if orig.dispute_status == DisputeStatus::Undisputed
                                        && account.hold(amount).is_ok() {
                                        Some(DisputeStatus::Disputed)
                                    } else {
                                        None
                                    }
                                },
                                TransactionType::Resolve => {
                                    if orig.dispute_status == DisputeStatus::Disputed
                                        && account.resolve(amount).is_ok() {
                                        Some(DisputeStatus::Resolved)
                                    } else {
                                        None
                                    }
                                },
                                _ => {
                                    if orig.dispute_status == DisputeStatus::Disputed
                                        && account.chargeback(amount).is_ok() {
                                        Some(DisputeStatus::Chargebacked)
                                    } else {
                                        None
                                    }
                                },
                            };
                            if let Some(status) = to {
                                let updated = Transaction { dispute_status: status, ..orig };
                                if let Err(e) = self.transaction_store.store(updated) {
                                    return Err(e);
                                }
                            }
                        }
                    }
                }
            },
        }
        match self.account_store.store(account) {
            Ok(()) => Ok(()),
            Err(e) => Err(e),
        }
    }
}

} // verus!
