//! The engine: routes each transaction to its client's worker, creating
//! workers as clients appear, and collects every account at shutdown.
use crate::account::ClientAccount;
use crate::error::PaymentError;
use crate::in_memory::{InMemoryAccountStore, InMemoryTransactionStore};
use crate::ports::{AccountStore, TransactionStore};
use crate::router::Registry;
use crate::transaction::Transaction;
use crate::worker::{lemma_step_keeps_invariant, step, ClientState, ClientWorker};
use vstd::prelude::*;

verus! {

/// The state of `client` in `ledger`; a client not seen yet is in its
/// initial state.
pub open spec fn state_of(ledger: Map<u16, ClientState>, client: u16) -> ClientState {
    if ledger.contains_key(client) {
        ledger[client]
    } else {
        ClientState::initial(client)
    }
}

/// The ledger after one transaction: only the transaction's client moves.
pub open spec fn apply(ledger: Map<u16, ClientState>, tx: Transaction) -> Map<u16, ClientState> {
    ledger.insert(tx.client, step(state_of(ledger, tx.client), tx))
}

/// Every client's state in `ledger` is consistent: in particular each
/// account's total is its available plus held funds, neither negative.
pub open spec fn ledger_valid(ledger: Map<u16, ClientState>) -> bool {
    forall|c: u16| #[trigger] ledger.contains_key(c) ==> ledger[c].valid()
}

/// Transactions of two different clients give the same ledger in either
/// order.
pub proof fn lemma_clients_commute(ledger: Map<u16, ClientState>, t1: Transaction, t2: Transaction)
    requires
        t1.client != t2.client,
    ensures
        apply(apply(ledger, t1), t2) == apply(apply(ledger, t2), t1),
{
    assert(state_of(apply(ledger, t1), t2.client) == state_of(ledger, t2.client));
    assert(state_of(apply(ledger, t2), t1.client) == state_of(ledger, t1.client));
    assert(apply(apply(ledger, t1), t2) =~= apply(apply(ledger, t2), t1));
}

/// Processes transactions client by client: one worker per client, each
/// over its own stores, made empty when the client first appears.
pub struct PaymentEngine<A: AccountStore, T: TransactionStore> {
    registry: Registry,
    workers: Vec<ClientWorker<A, T>>,
}

/// An engine whose workers keep their stores in memory.
pub type InMemoryEngine = PaymentEngine<InMemoryAccountStore, InMemoryTransactionStore>;

/// Every account in `ledger` is well formed, and every client listed in
/// `clients` has a state there.
pub open spec fn accounts_sound(ledger: Map<u16, ClientState>, clients: Seq<u16>) -> bool {
    &&& forall|c: u16| #[trigger] ledger.contains_key(c) ==> ledger[c].account.wf()
    &&& forall|i: int| 0 <= i < clients.len() ==> #[trigger] ledger.contains_key(clients[i])
}

impl<A: AccountStore, T: TransactionStore> PaymentEngine<A, T> {
    /// Whether the stores of every worker succeed on every call.
    pub open spec fn infallible() -> bool {
        A::infallible() && T::infallible()
    }

    /// The clients seen so far, in order of first appearance.
    pub closed spec fn clients(&self) -> Seq<u16> {
        self.registry.clients()
    }

    /// Every seen client's state.
    pub closed spec fn ledger(&self) -> Map<u16, ClientState> {
        Map::new(
            |c: u16| self.registry.slots().contains_key(c),
            |c: u16| self.workers@[self.registry.slots()[c] as int].state(),
        )
    }

    /// Each registered client has its worker, at the client's slot.
    pub closed spec fn wf(&self) -> bool {
        &&& self.registry.wf()
        &&& self.workers@.len() == self.registry.clients().len()
        &&& forall|i: int|
            0 <= i < self.workers@.len() ==> {
                &&& (#[trigger] self.workers@[i]).wf()
                &&& self.workers@[i].client() == self.registry.clients()[i]
            }
    }

    proof fn lemma_sound(&self)
        requires
            self.wf(),
        ensures
            accounts_sound(self.ledger(), self.clients()),
    {
        assert forall|c: u16| #[trigger] self.ledger().contains_key(c) implies self.ledger()[c].account.wf() by {
            let k = self.registry.slots()[c] as int;
            assert(self.workers@[k].wf());
            self.workers@[k].lemma_account_wf();
        }
        assert forall|i: int| 0 <= i < self.clients().len() implies #[trigger] self.ledger().contains_key(
            self.clients()[i],
        ) by {
            assert(self.registry.slots().contains_key(self.registry.clients()[i]));
        }
    }

    /// An engine that has seen no transaction.
    pub fn new() -> (r: Self)
        ensures
            r.wf(),
            r.clients() == Seq::<u16>::empty(),
            r.ledger() == Map::<u16, ClientState>::empty(),
            ledger_valid(r.ledger()),
            accounts_sound(r.ledger(), r.clients()),
    {
        let r = PaymentEngine { registry: Registry::new(), workers: Vec::new() };
        assert(r.ledger() =~= Map::<u16, ClientState>::empty());
        proof {
            r.lemma_sound();
        }
        r
    }

    /// Applies `tx` to its client's account, creating the client's worker,
    /// over empty stores, when the client is new. An error means a store
    /// failed.
    pub fn process_transaction(&mut self, tx: Transaction) -> (r: Result<(), PaymentError>)
        requires
            old(self).wf(),
        ensures
            final(self).wf(),
            Self::infallible() ==> r is Ok,
            r is Ok ==> final(self).ledger() == apply(old(self).ledger(), tx),
            r is Ok && ledger_valid(old(self).ledger()) ==> ledger_valid(final(self).ledger()),
            accounts_sound(final(self).ledger(), final(self).clients()),
            final(self).clients() == (if old(self).clients().contains(tx.client) {
                old(self).clients()
            } else {
                old(self).clients().push(tx.client)
            }),
    {
        let ghost before = old(self).ledger();
        if let Some(a) = tx.amount {
            let _ = a.value();
        }
        proof {
            if ledger_valid(before) {
                assert(state_of(before, tx.client).valid());
                lemma_step_keeps_invariant(state_of(before, tx.client), tx);
            }
        }
        let (slot, fresh) = self.registry.route(tx.client);
        if fresh {
            let worker = ClientWorker::new(tx.client, A::empty(), T::empty());
            proof {
                assert(worker.state() =~= ClientState::initial(tx.client));
            }
            self.workers.push(worker);
        }
        proof {
            assert(self.workers@[slot as int].state() == state_of(before, tx.client));
        }
        let ghost mid = self.workers@;
        let r = self.workers[slot].handle_transaction(tx);
        proof {
            if r is Ok {
                let reg = self.registry;
                assert(reg.slots().contains_key(reg.clients()[slot as int]));
                assert(reg.slots()[tx.client] == slot);
                let after = apply(before, tx);
                assert forall|c: u16| #[trigger] self.ledger().contains_key(c) <==> after.contains_key(c) by {
                    if reg.slots().contains_key(c) && c != tx.client {
                        let k = reg.slots()[c] as int;
                        assert(reg.clients()[k] == c);
                        assert(k < old(self).registry.clients().len());
                        assert(old(self).registry.clients()[k] == c);
                        assert(old(self).registry.slots().contains_key(old(self).registry.clients()[k]));
                    }
                    if old(self).registry.slots().contains_key(c) {
                        let k = old(self).registry.slots()[c] as int;
                        assert(old(self).registry.clients()[k] == c);
                        assert(reg.clients()[k] == c);
                        assert(reg.slots().contains_key(reg.clients()[k]));
                    }
                }
                assert forall|c: u16| #[trigger] self.ledger().contains_key(c) implies self.ledger()[c]
                    == after[c] by {
                    if c != tx.client {
                        let k = reg.slots()[c] as int;
                        assert(reg.clients()[k] == c);
                        assert(k < old(self).registry.clients().len());
                        assert(old(self).registry.clients()[k] == c);
                        assert(old(self).registry.slots().contains_key(old(self).registry.clients()[k]));
                        assert(old(self).registry.slots()[c] == k);
                        assert(k != slot);
                        assert(self.workers@[k] == mid[k]);
                    }
                }
                assert(self.ledger() =~= after);
            }
        }
        proof {
            self.lemma_sound();
        }
        r
    }

    /// The current account of `client`, if the engine has seen the client.
    pub fn account(&self, client: u16) -> (r: Option<ClientAccount>)
        requires
            self.wf(),
        ensures
            r matches Some(a) ==> self.ledger().contains_key(client) && a == self.ledger()[client].account,
            Self::infallible() ==> r == (if self.ledger().contains_key(client) {
                Some(self.ledger()[client].account)
            } else {
                None::<ClientAccount>
            }),
    {
        match self.registry.slot_of(client) {
            Some(slot) => {
                proof {
                    assert(self.registry.clients()[slot as int] == client);
                }
                match self.workers[slot].current_account() {
                    Ok(a) => Some(a),
                    Err(_) => None,
                }
            },
            None => None,
        }
    }

    /// Every seen client's final account, in order of first appearance.
    pub fn shutdown(self) -> (r: Result<Vec<ClientAccount>, PaymentError>)
        requires
            self.wf(),
        ensures
            Self::infallible() ==> r is Ok,
            r matches Ok(v) ==> v@ == self.clients().map_values(|c: u16| self.ledger()[c].account),
    {
        let mut accounts: Vec<ClientAccount> = Vec::new();
        let mut i: usize = 0;
        while i < self.workers.len()
            invariant
                self.wf(),
                i <= self.workers@.len(),
                accounts@.len() == i,
                forall|j: int| 0 <= j < i ==> #[trigger] accounts@[j] == self.workers@[j].state().account,
            decreases self.workers@.len() - i,
        {
            match self.workers[i].current_account() {
                Ok(a) => accounts.push(a),
                Err(e) => {
                    return Err(e);
                },
            }
            i = i + 1;
        }
        proof {
            assert forall|j: int| 0 <= j < accounts@.len() implies accounts@[j]
                == self.clients().map_values(|c: u16| self.ledger()[c].account)[j] by {
                let c = self.registry.clients()[j];
                assert(self.registry.slots().contains_key(c));
            }
        }
        Ok(accounts)
    }
}

} // verus!
