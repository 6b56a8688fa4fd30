//! Store implementations that keep everything in process memory.
use crate::account::ClientAccount;
use crate::balance::Amount;
use crate::error::PaymentError;
use crate::ports::{lookup, AccountStore, TransactionStore};
use crate::transaction::{DisputeStatus, Transaction, TransactionType};
use std::collections::{HashMap, HashSet};
use vstd::prelude::*;

verus! {

broadcast use vstd::std_specs::hash::group_hash_axioms;

/// The fields of a deposit that its dispute lifecycle needs.
#[derive(Debug, Clone, Copy, PartialEq, Eq)]
pub struct LeanTransaction {
    pub client_id: u16,
    pub amount: Amount,
    pub dispute_status: DisputeStatus,
}

impl LeanTransaction {
    /// The deposit record this stands for under id `tx_id`.
    pub open spec fn spec_deposit(self, tx_id: u32) -> Transaction {
        Transaction {
            kind: TransactionType::Deposit,
            client: self.client_id,
            tx: tx_id,
            amount: Some(self.amount),
            dispute_status: self.dispute_status,
        }
    }
}

/// Accounts kept in a map, with client ids in the order they were first
/// stored.
pub struct InMemoryAccountStore {
    accounts: HashMap<u16, ClientAccount>,
    order: Vec<u16>,
}

impl InMemoryAccountStore {
    /// The store's internal consistency: `order` lists each stored client
    /// once, and every account sits under its own client id.
    pub closed spec fn wf(&self) -> bool {
        &&& forall|i: int| 0 <= i < self.order@.len() ==> self.accounts@.contains_key(#[trigger] self.order@[i])
        &&& forall|c: u16| #[trigger] self.accounts@.contains_key(c) ==> self.order@.contains(c)
        &&& forall|c: u16| #[trigger] self.accounts@.contains_key(c) ==> self.accounts@[c].client == c
        &&& self.order@.no_duplicates()
    }

    /// An empty store.
    pub fn new() -> (r: InMemoryAccountStore)
        ensures
            r.inv(),
            r.accounts() == Map::<u16, ClientAccount>::empty(),
    {
        InMemoryAccountStore { accounts: HashMap::new(), order: Vec::new() }
    }
}

/// Keeps `account` in `accounts`, and appends its client id to `order` when
/// it is new there.
fn put_account(
    accounts: &mut HashMap<u16, ClientAccount>,
    order: &mut Vec<u16>,
    account: ClientAccount,
)
    requires
        forall|i: int| 0 <= i < old(order)@.len() ==> old(accounts)@.contains_key(#[trigger] old(order)@[i]),
        forall|c: u16| #[trigger] old(accounts)@.contains_key(c) ==> old(order)@.contains(c),
        forall|c: u16| #[trigger] old(accounts)@.contains_key(c) ==> old(accounts)@[c].client == c,
        old(order)@.no_duplicates(),
    ensures
        final(accounts)@ == old(accounts)@.insert(account.client, account),
        forall|i: int| 0 <= i < final(order)@.len() ==> final(accounts)@.contains_key(#[trigger] final(order)@[i]),
        forall|c: u16| #[trigger] final(accounts)@.contains_key(c) ==> final(order)@.contains(c),
        forall|c: u16| #[trigger] final(accounts)@.contains_key(c) ==> final(accounts)@[c].client == c,
        final(order)@.no_duplicates(),
{
    if !accounts.contains_key(&account.client) {
        order.push(account.client);
        proof {
            assert(final(order)@.last() == account.client);
        }
    }
    accounts.insert(account.client, account);
    proof {
        assert forall|c: u16| #[trigger] final(accounts)@.contains_key(c) implies final(order)@.contains(c) by {
            if c != account.client {
                assert(old(order)@.contains(c));
                let k = choose|k: int| 0 <= k < old(order)@.len() && old(order)@[k] == c;
                assert(final(order)@[k] == c);
            } else if !old(accounts)@.contains_key(c) {
                assert(final(order)@[final(order)@.len() - 1] == c);
            } else {
                let k = choose|k: int| 0 <= k < old(order)@.len() && old(order)@[k] == c;
                assert(final(order)@[k] == c);
            }
        }
    }
}

impl AccountStore for InMemoryAccountStore {
    fn empty() -> (r: InMemoryAccountStore) {
        InMemoryAccountStore::new()
    }

    closed spec fn inv(&self) -> bool {
        self.wf()
    }

    open spec fn infallible() -> bool {
        true
    }

    closed spec fn accounts(&self) -> Map<u16, ClientAccount> {
        self.accounts@
    }

    fn store(&mut self, account: ClientAccount) -> (r: Result<(), PaymentError>)
        ensures
            r is Ok,
    {
        put_account(&mut self.accounts, &mut self.order, account);
        Ok(())
    }

    fn get(&self, client_id: u16) -> (r: Result<Option<ClientAccount>, PaymentError>)
        ensures
            r is Ok,
    {
        match self.accounts.get(&client_id) {
            Some(a) => Ok(Some(*a)),
            None => Ok(None),
        }
    }

    fn get_all(&self) -> (r: Result<Vec<ClientAccount>, PaymentError>)
        ensures
            r is Ok,
    {
        let mut all: Vec<ClientAccount> = Vec::new();
        let mut i: usize = 0;
        while i < self.order.len()
            invariant
                i <= self.order@.len(),
                all@.len() == i,
                forall|j: int| 0 <= j < i ==> #[trigger] all@[j] == self.accounts@[self.order@[j]],
                forall|j: int| 0 <= j < self.order@.len() ==> self.accounts@.contains_key(#[trigger] self.order@[j]),
                forall|c: u16| #[trigger] self.accounts@.contains_key(c) ==> self.accounts@[c].client == c,
            decreases self.order@.len() - i,
        {
            let c = self.order[i];
            match self.accounts.get(&c) {
                Some(a) => all.push(*a),
                None => {
                    return Err(PaymentError::InternalError("account index out of step".to_string()));
                },
            }
            i = i + 1;
        }
        proof {
            assert forall|c: u16| #[trigger] self.accounts@.contains_key(c) implies exists|j: int|
                0 <= j < all@.len() && (#[trigger] all@[j]).client == c by {
                let k = choose|k: int| 0 <= k < self.order@.len() && self.order@[k] == c;
                assert(all@[k].client == c);
            }
            assert forall|j: int, k: int| 0 <= j < k < all@.len() implies all@[j].client != all@[k].client by {
                assert(self.order@[j] != self.order@[k]);
            }
        }
        Ok(all)
    }
}

/// Transaction history kept in memory: the ids of every recorded transaction,
/// and a lean record of every deposit.
pub struct InMemoryTransactionStore {
    records: HashMap<u32, LeanTransaction>,
    seen_ids: HashSet<u32>,
}

impl InMemoryTransactionStore {
    /// An empty store.
    pub fn new() -> (r: InMemoryTransactionStore)
        ensures
            r.inv(),
            r.seen() == Set::<u32>::empty(),
            r.deposits() == Map::<u32, Transaction>::empty(),
    {
        let r = InMemoryTransactionStore { records: HashMap::new(), seen_ids: HashSet::new() };
        assert(r.deposits() =~= Map::<u32, Transaction>::empty());
        r
    }
}

impl TransactionStore for InMemoryTransactionStore {
    fn empty() -> (r: InMemoryTransactionStore) {
        InMemoryTransactionStore::new()
    }

    closed spec fn inv(&self) -> bool {
        true
    }

    open spec fn infallible() -> bool {
        true
    }

    closed spec fn seen(&self) -> Set<u32> {
        self.seen_ids@
    }

    closed spec fn deposits(&self) -> Map<u32, Transaction> {
        Map::new(|k: u32| self.records@.contains_key(k), |k: u32| self.records@[k].spec_deposit(k))
    }

    fn store(&mut self, tx: Transaction) -> (r: Result<(), PaymentError>)
        ensures
            r is Ok,
    {
        self.seen_ids.insert(tx.tx);
        match tx.amount {
            Some(amount) => {
                if tx.kind == TransactionType::Deposit {
                    let lean = LeanTransaction {
                        client_id: tx.client,
                        amount,
                        dispute_status: tx.dispute_status,
                    };
                    self.records.insert(tx.tx, lean);
                    proof {
                        assert(lean.spec_deposit(tx.tx) == tx);
                        assert(final(self).deposits() =~= old(self).deposits().insert(tx.tx, tx));
                    }
                } else {
                    self.records.remove(&tx.tx);
                    proof {
                        assert(final(self).deposits() =~= old(self).deposits().remove(tx.tx));
                    }
                }
            },
            None => {
                self.records.remove(&tx.tx);
                proof {
                    assert(final(self).deposits() =~= old(self).deposits().remove(tx.tx));
                }
            },
        }
        Ok(())
    }

    fn get(&self, tx_id: u32) -> (r: Result<Option<Transaction>, PaymentError>)
        ensures
            r == Ok::<Option<Transaction>, PaymentError>(lookup(self.deposits(), tx_id)),
    {
        match self.records.get(&tx_id) {
            Some(lean) => Ok(
                Some(
                    Transaction {
                        kind: TransactionType::Deposit,
                        client: lean.client_id,
                        tx: tx_id,
                        amount: Some(lean.amount),
                        dispute_status: lean.dispute_status,
                    },
                ),
            ),
            None => Ok(None),
        }
    }

    fn contains(&self, tx_id: u32) -> (r: Result<bool, PaymentError>)
        ensures
            r is Ok,
    {
        Ok(self.seen_ids.contains(&tx_id))
    }
}

} // verus!
