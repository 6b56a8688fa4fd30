use hc190aop::account::{AccountStatus, ClientAccount};
use hc190aop::balance::{Amount, Balance};
use hc190aop::codec::{decode_account, decode_transaction, encode_account, encode_transaction};
use hc190aop::error::PaymentError;
use hc190aop::in_memory::{InMemoryAccountStore, InMemoryTransactionStore};
use hc190aop::persistent::RocksDBStore;
use hc190aop::ports::{AccountStore, TransactionStore};
use hc190aop::transaction::{DisputeStatus, Transaction, TransactionType};

fn deposit(client: u16, tx: u32, units: i128) -> Transaction {
    Transaction {
        kind: TransactionType::Deposit,
        client,
        tx,
        amount: Some(Amount::new(Balance::new(units)).unwrap()),
        dispute_status: DisputeStatus::Undisputed,
    }
}

#[test]
fn test_in_memory_account_store() {
    let mut store = InMemoryAccountStore::new();
    let mut account = ClientAccount::new(1);
    account.available = Balance::new(1000000);

    AccountStore::store(&mut store, account).unwrap();
    let retrieved = AccountStore::get(&store, 1).unwrap().unwrap();
    assert_eq!(retrieved, account);

    assert!(AccountStore::get(&store, 2).unwrap().is_none());
}

#[test]
fn test_in_memory_account_store_get_all_accounts() {
    let mut store = InMemoryAccountStore::new();
    let account1 = ClientAccount::new(1);
    let account2 = ClientAccount::new(2);
    store.store(account1).unwrap();
    store.store(account2).unwrap();

    let all = store.get_all().unwrap();
    assert_eq!(all.len(), 2);
    assert!(all.contains(&account1));
    assert!(all.contains(&account2));
}

#[test]
fn storing_an_account_again_replaces_it() {
    let mut store = InMemoryAccountStore::new();
    let mut account = ClientAccount::new(7);
    store.store(account).unwrap();
    account.status = AccountStatus::Locked;
    store.store(account).unwrap();
    assert_eq!(store.get_all().unwrap(), vec![account]);
}

#[test]
fn test_in_memory_transaction_store() {
    let mut store = InMemoryTransactionStore::new();
    let tx = deposit(1, 1, 1000000);
    TransactionStore::store(&mut store, tx).unwrap();
    let retrieved = TransactionStore::get(&store, 1).unwrap().unwrap();
    assert_eq!(retrieved, tx);
}

#[test]
fn test_uniqueness() {
    let mut store = InMemoryTransactionStore::new();
    let deposit = deposit(1, 1, 1000000);
    let withdrawal = Transaction {
        kind: TransactionType::Withdrawal,
        tx: 2,
        amount: Some(Amount::new(Balance::new(500000)).unwrap()),
        ..deposit
    };

    TransactionStore::store(&mut store, deposit).unwrap();
    TransactionStore::store(&mut store, withdrawal).unwrap();

    assert!(store.contains(1).unwrap());
    assert!(store.contains(2).unwrap());

    assert!(TransactionStore::get(&store, 1).unwrap().is_some());
    assert!(TransactionStore::get(&store, 2).unwrap().is_none());

    let retrieved_deposit = TransactionStore::get(&store, 1).unwrap().unwrap();
    assert_eq!(retrieved_deposit.client, 1);
    assert_eq!(retrieved_deposit.tx, 1);
    assert_eq!(retrieved_deposit.amount, deposit.amount);
}

#[test]
fn test_rocksdb_account_store() {
    let mut store = RocksDBStore::open(Vec::new(), Vec::new()).unwrap();
    let mut account = ClientAccount::new(1);
    account.available = Balance::new(1000000);
    account.total = Balance::new(1000000);

    AccountStore::store(&mut store, account).unwrap();
    let retrieved = AccountStore::get(&store, 1).unwrap().unwrap();
    assert_eq!(retrieved, account);

    let all = AccountStore::get_all(&store).unwrap();
    assert_eq!(all.len(), 1);
    assert_eq!(all[0], account);

    assert!(AccountStore::get(&store, 2).unwrap().is_none());
}

#[test]
fn test_rocksdb_transaction_store() {
    let mut store = RocksDBStore::open(Vec::new(), Vec::new()).unwrap();
    let tx = deposit(1, 1, 1000000);
    TransactionStore::store(&mut store, tx).unwrap();
    let retrieved = TransactionStore::get(&store, 1).unwrap().unwrap();
    assert_eq!(retrieved, tx);
    assert!(TransactionStore::get(&store, 2).unwrap().is_none());
    assert!(store.contains(1).unwrap());
    assert!(!store.contains(2).unwrap());
}

#[test]
fn rocksdb_store_opens_over_existing_records() {
    let mut account = ClientAccount::new(4);
    account.available = Balance::new(-5);
    account.held = Balance::new(12345678901234567890);
    let older = ClientAccount::new(4);
    let tx = deposit(4, 9, 77);
    let store = RocksDBStore::open(
        vec![(4, encode_account(&older)), (4, encode_account(&account))],
        vec![(9, encode_transaction(&tx))],
    )
    .unwrap();
    assert_eq!(AccountStore::get(&store, 4).unwrap(), Some(account));
    assert_eq!(AccountStore::get_all(&store).unwrap(), vec![account]);
    assert_eq!(TransactionStore::get(&store, 9).unwrap(), Some(tx));
}

#[test]
fn rocksdb_store_refuses_a_record_under_another_key() {
    let account = ClientAccount::new(4);
    let result = RocksDBStore::open(vec![(5, encode_account(&account))], Vec::new());
    assert!(matches!(result, Err(PaymentError::InternalError(_))));
}

#[test]
fn rocksdb_store_refuses_a_malformed_transaction() {
    let result = RocksDBStore::open(Vec::new(), vec![(1, vec![0u8; 3])]);
    assert!(matches!(result, Err(PaymentError::InternalError(_))));
}

#[test]
fn account_bytes_round_trip() {
    let mut account = ClientAccount::new(65535);
    account.available = Balance::new(i128::MIN);
    account.held = Balance::new(i128::MAX);
    account.total = Balance::new(-1);
    account.status = AccountStatus::Locked;
    let bytes = encode_account(&account);
    assert_eq!(bytes.len(), 51);
    assert_eq!(decode_account(&bytes), Some(account));
}

#[test]
fn account_bytes_are_little_endian_and_offset() {
    let bytes = encode_account(&ClientAccount::new(0x0102));
    assert_eq!(&bytes[0..2], &[0x02, 0x01]);
    let mut zero = vec![0u8; 15];
    zero.push(0x80);
    assert_eq!(&bytes[2..18], zero.as_slice());
    assert_eq!(bytes[50], 0);
}

#[test]
fn transaction_bytes_round_trip() {
    let tx = Transaction {
        dispute_status: DisputeStatus::Chargebacked,
        ..deposit(3, 4294967295, 123456789)
    };
    let bytes = encode_transaction(&tx);
    assert_eq!(bytes.len(), 25);
    assert_eq!(decode_transaction(&bytes), Some(tx));
    let dispute = Transaction {
        kind: TransactionType::Dispute,
        amount: None,
        ..tx
    };
    assert_eq!(decode_transaction(&encode_transaction(&dispute)), Some(dispute));
}

#[test]
fn bad_bytes_decode_to_nothing() {
    let mut bytes = encode_account(&ClientAccount::new(1));
    bytes[50] = 2;
    assert_eq!(decode_account(&bytes), None);
    assert_eq!(decode_account(&bytes[..10]), None);
    let mut tx = encode_transaction(&deposit(1, 1, 1));
    tx[0] = 9;
    assert_eq!(decode_transaction(&tx), None);
}

#[test]
fn test_store_and_retrieve() {
    let mut store = InMemoryTransactionStore::new();
    let tx = deposit(1, 100, 500000);
    TransactionStore::store(&mut store, tx).unwrap();

    let stored = TransactionStore::get(&store, 100).unwrap();
    assert!(stored.is_some(), "Transaction should be found");
    assert_eq!(stored.unwrap().tx, 100);
    assert_eq!(stored.unwrap().amount, tx.amount);

    assert!(
        TransactionStore::get(&store, 999).unwrap().is_none(),
        "Non-existent transaction should return None"
    );
}

#[test]
fn rocksdb_store_returns_any_record_as_stored() {
    let mut store = <RocksDBStore as TransactionStore>::empty();
    let withdrawal = Transaction {
        kind: TransactionType::Withdrawal,
        ..deposit(1, 5, 300)
    };
    TransactionStore::store(&mut store, withdrawal).unwrap();
    assert_eq!(store.get_transaction(5).unwrap(), Some(withdrawal));
    assert_eq!(TransactionStore::get(&store, 5).unwrap(), Some(withdrawal));
    assert_eq!(store.get_transaction(6).unwrap(), None);
}

#[test]
fn rocksdb_store_lists_accounts_in_order_first_stored() {
    let mut store = <RocksDBStore as AccountStore>::empty();
    store.store_account(ClientAccount::new(9)).unwrap();
    store.store_account(ClientAccount::new(2)).unwrap();
    store.store_account(ClientAccount::new(9)).unwrap();
    let clients: Vec<u16> = store.get_all().unwrap().iter().map(|a| a.client).collect();
    assert_eq!(clients, vec![9, 2]);
}

#[test]
fn in_memory_get_of_a_withdrawal_id_is_none() {
    let mut store = <InMemoryTransactionStore as TransactionStore>::empty();
    let withdrawal = Transaction {
        kind: TransactionType::Withdrawal,
        ..deposit(1, 5, 300)
    };
    TransactionStore::store(&mut store, withdrawal).unwrap();
    assert_eq!(TransactionStore::get(&store, 5).unwrap(), None);
    assert!(store.contains(5).unwrap());
}
