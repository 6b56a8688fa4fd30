//! An in-memory store of encoded records, organised as two column families:
//! `accounts`, keyed by client id, and `transactions`, keyed by transaction
//! id. Nothing here writes to disk; `RocksDBStore::open` takes column
//! family entries that a caller has read from wherever they were kept.
use crate::account::ClientAccount;
use crate::codec::{
    account_bytes, transaction_bytes, account_of_bytes, decode_account, decode_transaction, decodes_to, encode_account,
    encode_transaction, holds_transaction, lemma_account_round_trip, lemma_transaction_round_trip,
};
use crate::error::PaymentError;
use crate::ports::{deposit_found, is_deposit_record, lookup, AccountStore, TransactionStore};
use crate::transaction::Transaction;
use vstd::prelude::*;

verus! {

/// A column family: keys with their encoded values.
pub type ColumnFamily = Vec<(u32, Vec<u8>)>;

/// The key-value map a column family stands for; a later entry for a key
/// replaces an earlier one.
pub open spec fn cf_map(cf: Seq<(u32, Vec<u8>)>) -> Map<u32, Seq<u8>>
    decreases cf.len(),
{
    if cf.len() == 0 {
        Map::empty()
    } else {
        cf_map(cf.drop_last()).insert(cf.last().0, cf.last().1@)
    }
}

/// No key appears twice.
pub open spec fn keys_distinct(cf: Seq<(u32, Vec<u8>)>) -> bool {
    forall|i: int, j: int| 0 <= i < j < cf.len() ==> cf[i].0 != cf[j].0
}

/// The transaction that bytes `s` hold, when they hold one.
pub open spec fn transaction_of_bytes(s: Seq<u8>) -> Transaction {
    choose|t: Transaction| decodes_to(s, t)
}

proof fn lemma_cf_keys(cf: Seq<(u32, Vec<u8>)>, k: u32)
    ensures
        cf_map(cf).contains_key(k) <==> exists|i: int| 0 <= i < cf.len() && cf[i].0 == k,
    decreases cf.len(),
{
    if cf.len() > 0 {
        let init = cf.drop_last();
        lemma_cf_keys(init, k);
        if exists|i: int| 0 <= i < init.len() && init[i].0 == k {
            let i = choose|i: int| 0 <= i < init.len() && init[i].0 == k;
            assert(cf[i].0 == k);
        }
        if exists|i: int| 0 <= i < cf.len() && cf[i].0 == k {
            let i = choose|i: int| 0 <= i < cf.len() && cf[i].0 == k;
            if i < cf.len() - 1 {
                assert(init[i].0 == k);
            }
        }
    }
}

proof fn lemma_cf_value(cf: Seq<(u32, Vec<u8>)>, p: int)
    requires
        keys_distinct(cf),
        0 <= p < cf.len(),
    ensures
        cf_map(cf).contains_key(cf[p].0),
        cf_map(cf)[cf[p].0] == cf[p].1@,
    decreases cf.len(),
{
    lemma_cf_keys(cf, cf[p].0);
    if p < cf.len() - 1 {
        let init = cf.drop_last();
        assert(init[p] == cf[p]);
        lemma_cf_value(init, p);
    }
}

proof fn lemma_cf_update(cf: Seq<(u32, Vec<u8>)>, p: int, v: Vec<u8>)
    requires
        keys_distinct(cf),
        0 <= p < cf.len(),
    ensures
        keys_distinct(cf.update(p, (cf[p].0, v))),
        cf_map(cf.update(p, (cf[p].0, v))) == cf_map(cf).insert(cf[p].0, v@),
    decreases cf.len(),
{
    let n = cf.update(p, (cf[p].0, v));
    if p == cf.len() - 1 {
        assert(n.drop_last() =~= cf.drop_last());
        assert(cf_map(n) =~= cf_map(cf).insert(cf[p].0, v@));
    } else {
        let init = cf.drop_last();
        lemma_cf_update(init, p, v);
        assert(n.drop_last() =~= init.update(p, (cf[p].0, v)));
        assert(cf_map(n) =~= cf_map(cf).insert(cf[p].0, v@));
    }
}

/// The position of `key` in `cf`, if it is there.
fn position(cf: &ColumnFamily, key: u32) -> (r: Option<usize>)
    ensures
        r matches Some(p) ==> p < cf@.len() && cf@[p as int].0 == key,
        r is None ==> forall|i: int| 0 <= i < cf@.len() ==> cf@[i].0 != key,
{
    let mut i: usize = 0;
    while i < cf.len()
        invariant
            i <= cf@.len(),
            forall|j: int| 0 <= j < i ==> cf@[j].0 != key,
        decreases cf@.len() - i,
    {
        if cf[i].0 == key {
            return Some(i);
        }
        i = i + 1;
    }
    None
}

/// Keeps `value` under `key`, in place of what was there.
fn put(cf: &mut ColumnFamily, key: u32, value: Vec<u8>)
    requires
        keys_distinct(old(cf)@),
    ensures
        keys_distinct(final(cf)@),
        cf_map(final(cf)@) == cf_map(old(cf)@).insert(key, value@),
        forall|i: int| 0 <= i < old(cf)@.len() ==> #[trigger] final(cf)@[i].0 == old(cf)@[i].0,
        (exists|i: int| 0 <= i < old(cf)@.len() && old(cf)@[i].0 == key) ==> final(cf)@.len()
            == old(cf)@.len(),
        (forall|i: int| 0 <= i < old(cf)@.len() ==> old(cf)@[i].0 != key) ==> final(cf)@.len()
            == old(cf)@.len() + 1 && final(cf)@[old(cf)@.len() as int].0 == key,
        forall|i: int|
            0 <= i < final(cf)@.len() ==> (#[trigger] final(cf)@[i].0 == key && final(cf)@[i].1@
                == value@) || (i < old(cf)@.len() && final(cf)@[i] == old(cf)@[i]),
{
    match position(cf, key) {
        Some(p) => {
            proof {
                lemma_cf_update(cf@, p as int, value);
            }
            cf.set(p, (key, value));
        },
        None => {
            cf.push((key, value));
            proof {
                assert(cf@.drop_last() =~= old(cf)@);
            }
        },
    }
}

/// Accounts and transaction history kept as encoded records in two column
/// families.
pub struct RocksDBStore {
    accounts: ColumnFamily,
    transactions: ColumnFamily,
}

/// An entry that holds an account filed under its own client id.
pub open spec fn account_entry_ok(e: (u32, Vec<u8>)) -> bool {
    match account_of_bytes(e.1@) {
        Some(a) => a.client as u32 == e.0,
        None => false,
    }
}

/// An entry that holds a transaction filed under its own id.
pub open spec fn transaction_entry_ok(e: (u32, Vec<u8>)) -> bool {
    holds_transaction(e.1@) && transaction_of_bytes(e.1@).tx == e.0
}

/// An entry that holds a record of the accounts family, or of the
/// transactions family, under its own key.
pub open spec fn entry_ok(e: (u32, Vec<u8>), accounts_family: bool) -> bool {
    if accounts_family {
        account_entry_ok(e)
    } else {
        transaction_entry_ok(e)
    }
}

/// Every entry of a column family holds a record of its family under its
/// own key.
pub open spec fn entries_ok(cf: Seq<(u32, Vec<u8>)>, accounts_family: bool) -> bool {
    forall|i: int| 0 <= i < cf.len() ==> entry_ok(#[trigger] cf[i], accounts_family)
}

/// The entries of an accounts column family all hold an account filed
/// under its own client id.
pub open spec fn accounts_valid(cf: Seq<(u32, Vec<u8>)>) -> bool {
    entries_ok(cf, true)
}

/// The entries of a transactions column family all hold a transaction
/// filed under its own id.
pub open spec fn transactions_valid(cf: Seq<(u32, Vec<u8>)>) -> bool {
    entries_ok(cf, false)
}

/// Moves the entries of `input` into `cf`, from the last one back, keeping
/// only the last entry for each key; stops with `false` at an entry that
/// does not hold a record of its family under its own key.
fn absorb(
    cf: &mut ColumnFamily,
    mut input: ColumnFamily,
    accounts_family: bool,
    entries: Ghost<Seq<(u32, Vec<u8>)>>,
) -> (r: bool)
    requires
        old(cf)@.len() == 0,
        input@ == entries@,
    ensures
        r == entries_ok(entries@, accounts_family),
        r ==> keys_distinct(final(cf)@) && cf_map(final(cf)@) == cf_map(entries@) && entries_ok(
            final(cf)@,
            accounts_family,
        ),
{
    let ghost orig = entries@;
    proof {
        assert(cf_map(cf@) =~= Map::<u32, Seq<u8>>::empty());
        assert(cf_map(orig) =~= cf_map(input@).union_prefer_right(cf_map(cf@)));
    }
    while input.len() > 0
        invariant
            orig == entries@,
            orig.len() >= input@.len(),
            input@ == orig.subrange(0, input@.len() as int),
            forall|i: int| input@.len() <= i < orig.len() ==> entry_ok(#[trigger] orig[i], accounts_family),
            keys_distinct(cf@),
            entries_ok(cf@, accounts_family),
            cf_map(orig) == cf_map(input@).union_prefer_right(cf_map(cf@)),
        decreases input@.len(),
    {
        let ghost before = input@;
        let ghost cf_before = cf@;
        let (key, value) = match input.pop() {
            Some(e) => e,
            None => {
                return false;
            },
        };
        proof {
            assert(before.last() == (key, value));
            assert(before.drop_last() == input@);
            assert(orig[input@.len() as int] == (key, value));
        }
        let fine = if accounts_family {
            match decode_account(value.as_slice()) {
                Some(a) => a.client as u32 == key,
                None => false,
            }
        } else {
            match decode_transaction(value.as_slice()) {
                Some(t) => {
                    proof {
                        assert(decodes_to(value@, t));
                        assert(transaction_of_bytes(value@) == t) by {
                            let c = transaction_of_bytes(value@);
                            assert(decodes_to(value@, c));
                            crate::codec::lemma_decoding_unique(value@, t, c);
                        }
                    }
                    t.tx == key
                },
                None => false,
            }
        };
        if !fine {
            proof {
                assert(!entry_ok((key, value), accounts_family));
                assert(!entry_ok(orig[input@.len() as int], accounts_family));
                assert(!entries_ok(orig, accounts_family));
            }
            return false;
        }
        match position(cf, key) {
            Some(_) => {
                proof {
                    lemma_cf_keys(cf@, key);
                    assert(cf_map(orig) =~= cf_map(input@).union_prefer_right(cf_map(cf@)));
                }
            },
            None => {
                cf.push((key, value));
                proof {
                    lemma_cf_keys(cf_before, key);
                    assert(cf@.drop_last() == cf_before);
                    assert(cf_map(orig) =~= cf_map(input@).union_prefer_right(cf_map(cf@)));
                    assert forall|i: int, j: int| 0 <= i < j < cf@.len() implies cf@[i].0 != cf@[j].0 by {
                        if j == cf@.len() - 1 {
                            assert(cf_before[i].0 != key);
                        }
                    }
                    assert forall|i: int| 0 <= i < cf@.len() implies entry_ok(#[trigger] cf@[i], accounts_family) by {
                        if i < cf@.len() - 1 {
                            assert(cf@[i] == cf_before[i]);
                        }
                    }
                }
            },
        }
    }
    proof {
        assert(input@ =~= Seq::<(u32, Vec<u8>)>::empty());
        assert(cf_map(input@) =~= Map::<u32, Seq<u8>>::empty());
        assert(cf_map(orig) =~= cf_map(cf@));
        assert(orig.subrange(0, 0) =~= input@);
    }
    true
}

/// The account held by the entry at position `p`.
fn account_at(cf: &ColumnFamily, p: usize) -> (r: ClientAccount)
    requires
        p < cf@.len(),
        accounts_valid(cf@),
    ensures
        Some(r) == account_of_bytes(cf@[p as int].1@),
        r.client as u32 == cf@[p as int].0,
{
    assert(entry_ok(cf@[p as int], true));
    decode_account(cf[p].1.as_slice()).unwrap()
}

impl RocksDBStore {
    /// Both column families have distinct keys and hold only records of
    /// their family, each under its own key.
    pub closed spec fn wf(&self) -> bool {
        &&& keys_distinct(self.accounts@)
        &&& keys_distinct(self.transactions@)
        &&& accounts_valid(self.accounts@)
        &&& transactions_valid(self.transactions@)
    }

    /// The client ids of the accounts column family, in the order they were
    /// first stored.
    pub closed spec fn account_order(&self) -> Seq<u32> {
        self.accounts@.map_values(|e: (u32, Vec<u8>)| e.0)
    }

    /// Every stored transaction record, by id, as it was stored.
    pub closed spec fn transactions_stored(&self) -> Map<u32, Transaction> {
        Map::new(
            |k: u32| cf_map(self.transactions@).contains_key(k),
            |k: u32| transaction_of_bytes(cf_map(self.transactions@)[k]),
        )
    }

    /// The accounts column family, as a map.
    pub closed spec fn account_records(&self) -> Map<u32, Seq<u8>> {
        cf_map(self.accounts@)
    }

    /// The transactions column family, as a map.
    pub closed spec fn transaction_records(&self) -> Map<u32, Seq<u8>> {
        cf_map(self.transactions@)
    }

    /// Opens a store over the entries of its two column families, as read
    /// from disk; a later entry for a key replaces an earlier one. Fails
    /// with an internal error when an entry does not hold a record of its
    /// family filed under its own key.
    pub fn open(accounts: ColumnFamily, transactions: ColumnFamily) -> (r: Result<
        RocksDBStore,
        PaymentError,
    >)
        ensures
            r is Ok <==> accounts_valid(accounts@) && transactions_valid(transactions@),
            r matches Ok(st) ==> st.wf() && st.account_records() == cf_map(accounts@)
                && st.transaction_records() == cf_map(transactions@),
            r matches Err(e) ==> e is InternalError,
    {
        let mut account_cf: ColumnFamily = Vec::new();
        if !absorb(&mut account_cf, accounts, true, Ghost(accounts@)) {
            return Err(PaymentError::InternalError("malformed account record".to_string()));
        }
        let mut transaction_cf: ColumnFamily = Vec::new();
        if !absorb(&mut transaction_cf, transactions, false, Ghost(transactions@)) {
            return Err(PaymentError::InternalError("malformed transaction record".to_string()));
        }
        Ok(RocksDBStore { accounts: account_cf, transactions: transaction_cf })
    }
}

impl RocksDBStore {
    /// Keeps `account` under its client id; a new client id goes after the
    /// ones already stored.
    pub fn store_account(&mut self, account: ClientAccount) -> (r: Result<(), PaymentError>)
        requires
            old(self).wf(),
        ensures
            final(self).wf(),
            r is Ok,
            final(self).accounts() == old(self).accounts().insert(account.client, account),
            final(self).account_order() == (if old(self).account_order().contains(
                account.client as u32,
            ) {
                old(self).account_order()
            } else {
                old(self).account_order().push(account.client as u32)
            }),
            final(self).transactions_stored() == old(self).transactions_stored(),
    {
        let bytes = encode_account(&account);
        proof {
            lemma_account_round_trip(account);
        }
        let ghost before = self.accounts@;
        put(&mut self.accounts, account.client as u32, bytes);
        proof {
            assert forall|i: int| 0 <= i < self.accounts@.len() implies entry_ok(
                #[trigger] self.accounts@[i],
                true,
            ) by {
                if !(i < before.len() && self.accounts@[i] == before[i]) {
                    assert(self.accounts@[i].1@ == account_bytes(account));
                } else {
                    assert(entry_ok(before[i], true));
                }
            }
            assert(self.accounts() =~= old(self).accounts().insert(account.client, account));
            let key = account.client as u32;
            let old_order = old(self).account_order();
            if exists|i: int| 0 <= i < before.len() && before[i].0 == key {
                let i = choose|i: int| 0 <= i < before.len() && before[i].0 == key;
                assert(old_order[i] == key);
                assert(self.account_order() =~= old_order);
            } else {
                assert(!old_order.contains(key));
                assert(self.account_order() =~= old_order.push(key));
            }
        }
        Ok(())
    }

    /// Keeps `tx` under its id, as it is, in place of what was there.
    pub fn store_transaction(&mut self, tx: Transaction) -> (r: Result<(), PaymentError>)
        requires
            old(self).wf(),
        ensures
            final(self).wf(),
            r is Ok,
            final(self).seen() == old(self).seen().insert(tx.tx),
            final(self).deposits() == (if is_deposit_record(tx) {
                old(self).deposits().insert(tx.tx, tx)
            } else {
                old(self).deposits().remove(tx.tx)
            }),
            final(self).transactions_stored() == old(self).transactions_stored().insert(tx.tx, tx),
            final(self).account_order() == old(self).account_order(),
    {
        if let Some(a) = tx.amount {
            let _ = a.value();
        }
        let bytes = encode_transaction(&tx);
        proof {
            lemma_transaction_round_trip(tx, transaction_of_bytes(transaction_bytes(tx)));
        }
        let ghost before = self.transactions@;
        put(&mut self.transactions, tx.tx, bytes);
        proof {
            assert(transaction_of_bytes(transaction_bytes(tx)) == tx);
            assert forall|i: int| 0 <= i < self.transactions@.len() implies entry_ok(
                #[trigger] self.transactions@[i],
                false,
            ) by {
                if !(i < before.len() && self.transactions@[i] == before[i]) {
                    assert(self.transactions@[i].1@ == transaction_bytes(tx));
                } else {
                    assert(entry_ok(before[i], false));
                }
            }
            assert(self.seen() =~= old(self).seen().insert(tx.tx));
            if is_deposit_record(tx) {
                assert(self.deposits() =~= old(self).deposits().insert(tx.tx, tx));
            } else {
                assert(self.deposits() =~= old(self).deposits().remove(tx.tx));
            }
        }
        Ok(())
    }

    /// The transaction stored under `tx_id`, as it was stored.
    pub fn get_transaction(&self, tx_id: u32) -> (r: Result<Option<Transaction>, PaymentError>)
        requires
            self.wf(),
        ensures
            deposit_found(r->Ok_0, tx_id) == lookup(self.deposits(), tx_id),
            r == Ok::<Option<Transaction>, PaymentError>(lookup(self.transactions_stored(), tx_id)),
    {
        match position(&self.transactions, tx_id) {
            Some(p) => {
                proof {
                    assert(entry_ok(self.transactions@[p as int], false));
                    lemma_cf_value(self.transactions@, p as int);
                }
                match decode_transaction(self.transactions[p].1.as_slice()) {
                    Some(t) => {
                        proof {
                            let c = transaction_of_bytes(self.transactions@[p as int].1@);
                            crate::codec::lemma_decoding_unique(
                                self.transactions@[p as int].1@,
                                t,
                                c,
                            );
                        }
                        Ok(Some(t))
                    },
                    None => Ok(None),
                }
            },
            None => {
                proof {
                    lemma_cf_keys(self.transactions@, tx_id);
                }
                Ok(None)
            },
        }
    }

}

impl AccountStore for RocksDBStore {
    fn empty() -> (r: RocksDBStore) {
        let r = RocksDBStore { accounts: Vec::new(), transactions: Vec::new() };
        assert(r.accounts() =~= Map::<u16, ClientAccount>::empty());
        r
    }

    closed spec fn inv(&self) -> bool {
        self.wf()
    }

    open spec fn infallible() -> bool {
        true
    }

    closed spec fn accounts(&self) -> Map<u16, ClientAccount> {
        Map::new(
            |c: u16| cf_map(self.accounts@).contains_key(c as u32),
            |c: u16| account_of_bytes(cf_map(self.accounts@)[c as u32])->Some_0,
        )
    }

    fn store(&mut self, account: ClientAccount) -> (r: Result<(), PaymentError>) {
        self.store_account(account)
    }

    fn get(&self, client_id: u16) -> (r: Result<Option<ClientAccount>, PaymentError>) {
        match position(&self.accounts, client_id as u32) {
            Some(p) => {
                let a = account_at(&self.accounts, p);
                proof {
                    lemma_cf_value(self.accounts@, p as int);
                }
                Ok(Some(a))
            },
            None => {
                proof {
                    lemma_cf_keys(self.accounts@, client_id as u32);
                }
                Ok(None)
            },
        }
    }

    fn get_all(&self) -> (r: Result<Vec<ClientAccount>, PaymentError>)
        ensures
            r matches Ok(v) ==> v@.map_values(|a: ClientAccount| a.client as u32)
                == self.account_order(),
    {
        let mut all: Vec<ClientAccount> = Vec::new();
        let mut i: usize = 0;
        while i < self.accounts.len()
            invariant
                self.wf(),
                i <= self.accounts@.len(),
                all@.len() == i,
                forall|j: int|
                    0 <= j < i ==> Some(#[trigger] all@[j]) == account_of_bytes(self.accounts@[j].1@)
                        && all@[j].client as u32 == self.accounts@[j].0,
            decreases self.accounts@.len() - i,
        {
            let a = account_at(&self.accounts, i);
            all.push(a);
            i = i + 1;
        }
        proof {
            assert forall|j: int| 0 <= j < all@.len() implies #[trigger] self.accounts().contains_key(
                all@[j].client,
            ) && self.accounts()[all@[j].client] == all@[j] by {
                lemma_cf_value(self.accounts@, j);
            }
            assert forall|c: u16| #[trigger] self.accounts().contains_key(c) implies exists|j: int|
                0 <= j < all@.len() && (#[trigger] all@[j]).client == c by {
                lemma_cf_keys(self.accounts@, c as u32);
                let j = choose|j: int| 0 <= j < self.accounts@.len() && self.accounts@[j].0 == c as u32;
                assert(all@[j].client == c);
            }
        }
        Ok(all)
    }
}

impl TransactionStore for RocksDBStore {
    fn empty() -> (r: RocksDBStore) {
        let r = RocksDBStore { accounts: Vec::new(), transactions: Vec::new() };
        assert(r.seen() =~= Set::<u32>::empty());
        assert(r.deposits() =~= Map::<u32, Transaction>::empty());
        r
    }

    closed spec fn inv(&self) -> bool {
        self.wf()
    }

    open spec fn infallible() -> bool {
        true
    }

    closed spec fn seen(&self) -> Set<u32> {
        Set::new(|k: u32| cf_map(self.transactions@).contains_key(k))
    }

    closed spec fn deposits(&self) -> Map<u32, Transaction> {
        Map::new(
            |k: u32|
                cf_map(self.transactions@).contains_key(k) && is_deposit_record(
                    transaction_of_bytes(cf_map(self.transactions@)[k]),
                ),
            |k: u32| transaction_of_bytes(cf_map(self.transactions@)[k]),
        )
    }

    fn store(&mut self, tx: Transaction) -> (r: Result<(), PaymentError>) {
        self.store_transaction(tx)
    }

    fn get(&self, tx_id: u32) -> (r: Result<Option<Transaction>, PaymentError>) {
        self.get_transaction(tx_id)
    }

    fn contains(&self, tx_id: u32) -> (r: Result<bool, PaymentError>) {
        let found = position(&self.transactions, tx_id);
        proof {
            lemma_cf_keys(self.transactions@, tx_id);
        }
        Ok(found.is_some())
    }
}

} // verus!
