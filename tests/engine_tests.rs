use hc190aop::account::{AccountStatus, ClientAccount};
use hc190aop::balance::{Amount, Balance};
use hc190aop::engine::{InMemoryEngine, PaymentEngine};
use hc190aop::in_memory::{InMemoryAccountStore, InMemoryTransactionStore};
use hc190aop::persistent::RocksDBStore;
use hc190aop::ports::AccountStore;
use hc190aop::transaction::{DisputeStatus, Transaction, TransactionType};
use hc190aop::worker::ClientWorker;

fn deposit(client: u16, tx: u32, units: i128) -> Transaction {
    Transaction {
        kind: TransactionType::Deposit,
        client,
        tx,
        amount: Some(Amount::new(Balance::new(units)).unwrap()),
        dispute_status: DisputeStatus::Undisputed,
    }
}

fn withdrawal(client: u16, tx: u32, units: i128) -> Transaction {
    Transaction {
        kind: TransactionType::Withdrawal,
        ..deposit(client, tx, units)
    }
}

fn referral(kind: TransactionType, client: u16, tx: u32) -> Transaction {
    Transaction {
        kind,
        client,
        tx,
        amount: None,
        dispute_status: DisputeStatus::Undisputed,
    }
}

fn run(txs: &[Transaction]) -> Vec<ClientAccount> {
    let mut engine = InMemoryEngine::new();
    for tx in txs {
        engine.process_transaction(*tx).unwrap();
    }
    engine.shutdown().unwrap()
}

fn new_worker(client: u16) -> ClientWorker<InMemoryAccountStore, InMemoryTransactionStore> {
    ClientWorker::new(
        client,
        InMemoryAccountStore::new(),
        InMemoryTransactionStore::new(),
    )
}

#[test]
fn test_duplicate_transaction_ids() {
    let mut worker = new_worker(1);
    worker.handle_transaction(deposit(1, 1, 1000000)).unwrap();
    worker.handle_transaction(deposit(1, 1, 500000)).unwrap();
    let (store, _) = worker.into_stores();
    let final_account = store.get(1).unwrap().unwrap();
    assert_eq!(final_account.available, Balance::new(1000000));
}

#[test]
fn test_client_worker_processing() {
    let mut worker = new_worker(1);
    worker.handle_transaction(deposit(1, 1, 1000000)).unwrap();
    let (store, _) = worker.into_stores();
    let final_account = store.get(1).unwrap().unwrap();
    assert_eq!(final_account.available, Balance::new(1000000));
}

#[test]
fn test_payment_engine_aggregation() {
    let mut engine = InMemoryEngine::new();
    for i in 1..=100u32 {
        engine
            .process_transaction(deposit(i as u16, i, 10000))
            .unwrap();
    }
    let results = engine.shutdown().unwrap();
    assert_eq!(results.len(), 100);
    for account in results {
        assert_eq!(account.available, Balance::new(10000));
    }
}

#[test]
fn test_dispute_finality() {
    let mut worker = new_worker(1);
    worker.handle_transaction(deposit(1, 1, 1000000)).unwrap();
    let dispute = referral(TransactionType::Dispute, 1, 1);
    worker.handle_transaction(dispute).unwrap();
    worker
        .handle_transaction(referral(TransactionType::Resolve, 1, 1))
        .unwrap();
    worker.handle_transaction(dispute).unwrap();
    let account = worker.current_account().unwrap();
    assert_eq!(account.available, Balance::new(1000000));
    assert_eq!(account.held, Balance::new(0));
}

#[test]
fn test_sharded_routing_correctness() {
    let results = run(&[deposit(1, 1, 1000000), deposit(2, 2, 2000000)]);
    assert_eq!(results.len(), 2);
    let acc1 = results.iter().find(|a| a.client == 1).unwrap();
    let acc2 = results.iter().find(|a| a.client == 2).unwrap();
    assert_eq!(acc1.available, Balance::new(1000000));
    assert_eq!(acc2.available, Balance::new(2000000));
}

#[test]
fn deposit_dispute_resolve_keeps_all_funds() {
    let results = run(&[
        deposit(1, 1, 100000),
        deposit(1, 2, 50000),
        referral(TransactionType::Dispute, 1, 1),
        referral(TransactionType::Resolve, 1, 1),
    ]);
    assert_eq!(results.len(), 1);
    assert_eq!(results[0].available, Balance::new(150000));
    assert_eq!(results[0].held, Balance::new(0));
    assert_eq!(results[0].total, Balance::new(150000));
    assert_eq!(results[0].status, AccountStatus::Active);
}

#[test]
fn chargeback_locks_and_later_deposit_is_ignored() {
    let mut engine = InMemoryEngine::new();
    engine.process_transaction(deposit(1, 1, 100000)).unwrap();
    engine
        .process_transaction(referral(TransactionType::Dispute, 1, 1))
        .unwrap();
    engine
        .process_transaction(referral(TransactionType::Chargeback, 1, 1))
        .unwrap();
    let locked = engine.account(1).unwrap();
    assert_eq!(locked.available, Balance::new(0));
    assert_eq!(locked.held, Balance::new(0));
    assert_eq!(locked.total, Balance::new(0));
    assert_eq!(locked.status, AccountStatus::Locked);
    engine.process_transaction(deposit(1, 2, 50000)).unwrap();
    assert_eq!(engine.account(1).unwrap(), locked);
}

#[test]
fn dispute_of_unknown_transaction_changes_nothing() {
    let results = run(&[referral(TransactionType::Dispute, 1, 999)]);
    assert_eq!(results, vec![ClientAccount::new(1)]);
}

#[test]
fn redispute_after_resolve_is_rejected() {
    let results = run(&[
        deposit(1, 1, 1000000),
        referral(TransactionType::Dispute, 1, 1),
        referral(TransactionType::Resolve, 1, 1),
        referral(TransactionType::Dispute, 1, 1),
    ]);
    assert_eq!(results[0].available, Balance::new(1000000));
    assert_eq!(results[0].held, Balance::new(0));
}

#[test]
fn test_process_deposit() {
    let results = run(&[deposit(1, 1, 105000)]);
    assert_eq!(results[0].available, Balance::new(105000));
    assert_eq!(results[0].total, Balance::new(105000));
}

#[test]
fn test_process_withdrawal_sufficient_funds() {
    let results = run(&[deposit(1, 1, 100000), withdrawal(1, 2, 40000)]);
    assert_eq!(results[0].available, Balance::new(60000));
    assert_eq!(results[0].total, Balance::new(60000));
}

#[test]
fn test_process_withdrawal_insufficient_funds() {
    let results = run(&[deposit(1, 1, 100000), withdrawal(1, 2, 110000)]);
    assert_eq!(results[0].available, Balance::new(100000));
    assert_eq!(results[0].total, Balance::new(100000));
}

#[test]
fn test_process_dispute() {
    let results = run(&[
        deposit(1, 1, 1000000),
        referral(TransactionType::Dispute, 1, 1),
    ]);
    assert_eq!(results[0].available, Balance::new(0));
    assert_eq!(results[0].held, Balance::new(1000000));
    assert_eq!(results[0].total, Balance::new(1000000));
}

#[test]
fn test_process_resolve() {
    let mut engine = InMemoryEngine::new();
    engine.process_transaction(deposit(1, 1, 1000000)).unwrap();
    engine
        .process_transaction(referral(TransactionType::Dispute, 1, 1))
        .unwrap();
    let account = engine.account(1).unwrap();
    assert_eq!(account.available, Balance::new(0));
    assert_eq!(account.held, Balance::new(1000000));

    engine
        .process_transaction(referral(TransactionType::Resolve, 1, 1))
        .unwrap();
    let account = engine.account(1).unwrap();
    assert_eq!(account.available, Balance::new(1000000));
    assert_eq!(account.held, Balance::new(0));
    assert_eq!(account.total, Balance::new(1000000));

    engine
        .process_transaction(referral(TransactionType::Resolve, 1, 1))
        .unwrap();
    let account = engine.account(1).unwrap();
    assert_eq!(account.available, Balance::new(1000000));
}

#[test]
fn test_process_chargeback() {
    let mut engine = InMemoryEngine::new();
    engine.process_transaction(deposit(1, 1, 1000000)).unwrap();
    engine
        .process_transaction(referral(TransactionType::Dispute, 1, 1))
        .unwrap();
    engine
        .process_transaction(referral(TransactionType::Chargeback, 1, 1))
        .unwrap();
    let account = engine.account(1).unwrap();
    assert_eq!(account.available, Balance::new(0));
    assert_eq!(account.held, Balance::new(0));
    assert_eq!(account.total, Balance::new(0));
    assert_eq!(account.status, AccountStatus::Locked);

    engine.process_transaction(deposit(1, 2, 500000)).unwrap();
    let account = engine.account(1).unwrap();
    assert_eq!(account.available, Balance::new(0));
}

#[test]
fn repeated_withdrawal_applies_once() {
    let results = run(&[
        deposit(1, 1, 100000),
        withdrawal(1, 2, 30000),
        withdrawal(1, 2, 30000),
    ]);
    assert_eq!(results[0].available, Balance::new(70000));
}

#[test]
fn rejected_withdrawal_id_is_not_applied_later() {
    let results = run(&[
        withdrawal(1, 2, 30000),
        deposit(1, 1, 100000),
        withdrawal(1, 2, 30000),
    ]);
    assert_eq!(results[0].available, Balance::new(100000));
}

#[test]
fn rejected_deposit_id_is_not_applied_later() {
    let results = run(&[
        deposit(1, 1, i128::MAX),
        deposit(1, 2, 10),
        withdrawal(1, 3, 100),
        deposit(1, 2, 10),
    ]);
    assert_eq!(results[0].available, Balance::new(i128::MAX - 100));
}

#[test]
fn dispute_of_a_rejected_deposit_is_ignored() {
    let results = run(&[
        deposit(1, 1, i128::MAX),
        deposit(1, 2, 10),
        referral(TransactionType::Dispute, 1, 2),
    ]);
    assert_eq!(results[0].available, Balance::new(i128::MAX));
    assert_eq!(results[0].held, Balance::new(0));
}

#[test]
fn dispute_needs_available_funds() {
    let results = run(&[
        deposit(1, 1, 100000),
        withdrawal(1, 2, 60000),
        referral(TransactionType::Dispute, 1, 1),
    ]);
    assert_eq!(results[0].available, Balance::new(40000));
    assert_eq!(results[0].held, Balance::new(0));
}

#[test]
fn dispute_of_withdrawal_is_ignored() {
    let results = run(&[
        deposit(1, 1, 100000),
        withdrawal(1, 2, 30000),
        referral(TransactionType::Dispute, 1, 2),
    ]);
    assert_eq!(results[0].available, Balance::new(70000));
    assert_eq!(results[0].held, Balance::new(0));
}

#[test]
fn resolve_without_dispute_is_ignored() {
    let results = run(&[
        deposit(1, 1, 100000),
        referral(TransactionType::Resolve, 1, 1),
        referral(TransactionType::Chargeback, 1, 1),
    ]);
    assert_eq!(results[0].available, Balance::new(100000));
    assert_eq!(results[0].status, AccountStatus::Active);
}

#[test]
fn clients_in_either_order_give_the_same_accounts() {
    let a = deposit(1, 1, 100000);
    let b = deposit(2, 2, 70000);
    let first = run(&[a, b]);
    let second = run(&[b, a]);
    assert_eq!(first[0], second[1]);
    assert_eq!(first[1], second[0]);
}

#[test]
fn accounts_come_in_order_of_first_appearance() {
    let results = run(&[deposit(3, 1, 1), deposit(1, 2, 1), deposit(3, 3, 1)]);
    let clients: Vec<u16> = results.iter().map(|a| a.client).collect();
    assert_eq!(clients, vec![3, 1]);
}

#[test]
fn largest_ids_are_accepted() {
    let results = run(&[deposit(65535, 4294967295, 10000000000)]);
    assert_eq!(results[0].client, 65535);
    assert_eq!(results[0].available, Balance::new(10000000000));
}

#[test]
fn smallest_amounts_add_up() {
    let results = run(&[deposit(1, 1, 1), deposit(1, 2, 1)]);
    assert_eq!(results[0].available, Balance::new(2));
}

fn assert_account(
    results: &[ClientAccount],
    client: u16,
    available: i128,
    held: i128,
    total: i128,
    locked: bool,
) {
    let a = results.iter().find(|a| a.client == client).unwrap();
    assert_eq!(a.available, Balance::new(available));
    assert_eq!(a.held, Balance::new(held));
    assert_eq!(a.total, Balance::new(total));
    assert_eq!(a.status == AccountStatus::Locked, locked);
}

#[test]
fn test_dispute_resolve_flow_multi_client() {
    let results = run(&[
        deposit(1, 1, 100000),
        deposit(2, 3, 200000),
        deposit(1, 2, 50000),
        referral(TransactionType::Dispute, 2, 3),
        referral(TransactionType::Dispute, 1, 1),
        referral(TransactionType::Resolve, 2, 3),
        referral(TransactionType::Resolve, 1, 1),
    ]);
    assert_account(&results, 1, 150000, 0, 150000, false);
    assert_account(&results, 2, 200000, 0, 200000, false);
}

#[test]
fn test_dispute_chargeback_flow_multi_client() {
    let results = run(&[
        deposit(2, 2, 500000),
        deposit(1, 1, 100000),
        referral(TransactionType::Dispute, 2, 2),
        referral(TransactionType::Dispute, 1, 1),
        referral(TransactionType::Chargeback, 1, 1),
        referral(TransactionType::Chargeback, 2, 2),
    ]);
    assert_account(&results, 1, 0, 0, 0, true);
    assert_account(&results, 2, 0, 0, 0, true);
}

#[test]
fn test_locked_account_rejection_multi_client() {
    let results = run(&[
        deposit(1, 1, 100000),
        referral(TransactionType::Dispute, 1, 1),
        referral(TransactionType::Chargeback, 1, 1),
        deposit(1, 2, 50000),
        deposit(2, 3, 1000000),
    ]);
    assert_account(&results, 1, 0, 0, 0, true);
    assert_account(&results, 2, 1000000, 0, 1000000, false);
}

#[test]
fn test_ignore_invalid_dispute_multi_client() {
    let results = run(&[
        deposit(1, 1, 100000),
        referral(TransactionType::Dispute, 1, 999),
        deposit(2, 2, 50000),
        referral(TransactionType::Dispute, 2, 1),
    ]);
    assert_account(&results, 1, 100000, 0, 100000, false);
    assert_account(&results, 2, 50000, 0, 50000, false);
}

#[test]
fn test_deposit_on_new_account() {
    let results = run(&[deposit(2, 1, 50000)]);
    assert_eq!(results[0].client, 2);
    assert_eq!(results[0].available, Balance::new(50000));
}

#[test]
fn engine_runs_over_encoded_record_stores() {
    let mut engine: PaymentEngine<RocksDBStore, RocksDBStore> = PaymentEngine::new();
    engine.process_transaction(deposit(1, 1, 100000)).unwrap();
    engine
        .process_transaction(referral(TransactionType::Dispute, 1, 1))
        .unwrap();
    engine.process_transaction(deposit(2, 2, 70000)).unwrap();
    let results = engine.shutdown().unwrap();
    assert_account(&results, 1, 0, 100000, 100000, false);
    assert_account(&results, 2, 70000, 0, 70000, false);
}
