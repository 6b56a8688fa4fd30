use hc190aop::balance::Balance;
use hc190aop::error::PaymentError;
use hc190aop::transaction::{DisputeStatus, Transaction, TransactionType};

#[test]
fn record_with_amount_becomes_an_undisputed_transaction() {
    let tx = Transaction::from_record(TransactionType::Deposit, 1, 1, Some(Balance::new(10000)))
        .unwrap();
    assert_eq!(tx.kind, TransactionType::Deposit);
    assert_eq!(tx.client, 1);
    assert_eq!(tx.tx, 1);
    assert_eq!(tx.amount.unwrap().value(), Balance::new(10000));
    assert_eq!(tx.dispute_status, DisputeStatus::Undisputed);
}

#[test]
fn record_without_amount_is_kept() {
    let tx = Transaction::from_record(TransactionType::Dispute, 1, 1, None).unwrap();
    assert_eq!(tx.kind, TransactionType::Dispute);
    assert_eq!(tx.amount, None);
}

#[test]
fn record_with_non_positive_amount_is_rejected() {
    let result = Transaction::from_record(TransactionType::Deposit, 1, 1, Some(Balance::new(0)));
    assert!(matches!(result, Err(PaymentError::ValidationError(_))));
}
