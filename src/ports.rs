//! The two store interfaces the engine consumes: one for account state, one
//! for transaction history.
use crate::account::ClientAccount;
use crate::error::PaymentError;
use crate::transaction::{Transaction, TransactionType};
use vstd::prelude::*;

verus! {

/// The value a map holds at `k`, if any.
pub open spec fn lookup<K, V>(m: Map<K, V>, k: K) -> Option<V> {
    if m.contains_key(k) {
        Some(m[k])
    } else {
        None
    }
}

/// `v` lists every account of `m` once, each under its own client id.
pub open spec fn lists_accounts(v: Seq<ClientAccount>, m: Map<u16, ClientAccount>) -> bool {
    &&& forall|i: int| 0 <= i < v.len() ==> #[trigger] m.contains_key(v[i].client) && m[v[i].client] == v[i]
    &&& forall|c: u16| #[trigger] m.contains_key(c) ==> exists|i: int| 0 <= i < v.len() && (#[trigger] v[i]).client == c
    &&& forall|i: int, j: int| 0 <= i < j < v.len() ==> v[i].client != v[j].client
}

/// What a transaction store answers for `tx_id` once records that are not
/// deposits with an amount, or that sit under another id, are set aside.
pub open spec fn deposit_found(found: Option<Transaction>, tx_id: u32) -> Option<Transaction> {
    match found {
        Some(t) => if is_deposit_record(t) && t.tx == tx_id {
            Some(t)
        } else {
            None
        },
        None => None,
    }
}

/// A record that can be disputed: a deposit with an amount.
pub open spec fn is_deposit_record(t: Transaction) -> bool {
    t.kind == TransactionType::Deposit && t.amount is Some
}

/// Keeps client accounts, one per client id.
pub trait AccountStore: Sized {
    /// The store's internal consistency, kept by every operation.
    spec fn inv(&self) -> bool;

    /// Whether every call on a store of this type succeeds (a store in
    /// memory, say).
    spec fn infallible() -> bool;

    /// The stored accounts, by client id.
    spec fn accounts(&self) -> Map<u16, ClientAccount>;

    /// A new store that holds no account.
    fn empty() -> (r: Self)
        ensures
            r.inv(),
            r.accounts() == Map::<u16, ClientAccount>::empty(),
    ;

    /// Keeps `account` under its client id, replacing what was there. A
    /// failed call changes nothing.
    fn store(&mut self, account: ClientAccount) -> (r: Result<(), PaymentError>)
        requires
            old(self).inv(),
        ensures
            final(self).inv(),
            Self::infallible() ==> r is Ok,
            r is Ok ==> final(self).accounts() == old(self).accounts().insert(
                account.client,
                account,
            ),
            r is Err ==> final(self).accounts() == old(self).accounts(),
    ;

    /// The account stored for `client_id`, if any.
    fn get(&self, client_id: u16) -> (r: Result<Option<ClientAccount>, PaymentError>)
        requires
            self.inv(),
        ensures
            Self::infallible() ==> r is Ok,
            r matches Ok(found) ==> found == lookup(self.accounts(), client_id),
    ;

    /// Every stored account.
    fn get_all(&self) -> (r: Result<Vec<ClientAccount>, PaymentError>)
        requires
            self.inv(),
        ensures
            Self::infallible() ==> r is Ok,
            r matches Ok(v) ==> lists_accounts(v@, self.accounts()),
    ;
}

/// Keeps transaction history: every id that was recorded, and the full
/// record of every deposit.
pub trait TransactionStore: Sized {
    /// The store's internal consistency, kept by every operation.
    spec fn inv(&self) -> bool;

    /// Whether every call on a store of this type succeeds (a store in
    /// memory, say).
    spec fn infallible() -> bool;

    /// Every transaction id recorded so far.
    spec fn seen(&self) -> Set<u32>;

    /// The deposit records, by transaction id.
    spec fn deposits(&self) -> Map<u32, Transaction>;

    /// A new store that has recorded nothing.
    fn empty() -> (r: Self)
        ensures
            r.inv(),
            r.seen() == Set::<u32>::empty(),
            r.deposits() == Map::<u32, Transaction>::empty(),
    ;

    /// Records `tx`: its id is seen from now on, and a deposit record is kept
    /// in full under it. A failed call changes nothing.
    fn store(&mut self, tx: Transaction) -> (r: Result<(), PaymentError>)
        requires
            old(self).inv(),
        ensures
            final(self).inv(),
            Self::infallible() ==> r is Ok,
            r is Ok ==> final(self).seen() == old(self).seen().insert(tx.tx),
            r is Ok ==> final(self).deposits() == (if is_deposit_record(tx) {
                old(self).deposits().insert(tx.tx, tx)
            } else {
                old(self).deposits().remove(tx.tx)
            }),
            r is Err ==> final(self).seen() == old(self).seen(),
            r is Err ==> final(self).deposits() == old(self).deposits(),
    ;

    /// The record stored under `tx_id`; it is the deposit record there, if
    /// there is one.
    fn get(&self, tx_id: u32) -> (r: Result<Option<Transaction>, PaymentError>)
        requires
            self.inv(),
        ensures
            Self::infallible() ==> r is Ok,
            r matches Ok(found) ==> deposit_found(found, tx_id) == lookup(self.deposits(), tx_id),
    ;

    /// Whether `tx_id` was ever recorded.
    fn contains(&self, tx_id: u32) -> (r: Result<bool, PaymentError>)
        requires
            self.inv(),
        ensures
            Self::infallible() ==> r is Ok,
            r matches Ok(b) ==> b == self.seen().contains(tx_id),
    ;
}

} // verus!
