//! Transaction records and the dispute lifecycle of a deposit.
use crate::balance::{Amount, Balance};
use crate::error::PaymentError;
use vstd::prelude::*;

verus! {

/// Where a deposit stands in its dispute lifecycle. `Resolved` and
/// `Chargebacked` are final.
#[derive(Debug, Clone, Copy, PartialEq, Eq, Structural)]
pub enum DisputeStatus {
    Undisputed,
    Disputed,
    Resolved,
    Chargebacked,
}

/// The operation a transaction requests.
#[derive(Debug, Clone, Copy, PartialEq, Eq, Structural)]
pub enum TransactionType {
    /// Credit to the client's account.
    Deposit,
    /// Debit from the client's account.
    Withdrawal,
    /// A claim that an earlier deposit was erroneous.
    Dispute,
    /// The end of a dispute that releases the held funds.
    Resolve,
    /// The end of a dispute that reverses the deposit.
    Chargeback,
}

/// One requested operation. Deposits and withdrawals carry an amount;
/// disputes, resolves and chargebacks name an earlier deposit by `tx`.
#[derive(Debug, Clone, Copy, PartialEq, Eq)]
pub struct Transaction {
    /// The requested operation.
    pub kind: TransactionType,
    /// The client the operation applies to.
    pub client: u16,
    /// The globally unique transaction id, or the id of the deposit referred to.
    pub tx: u32,
    /// The amount of a deposit or withdrawal.
    pub amount: Option<Amount>,
    /// The dispute state of a stored deposit.
    pub dispute_status: DisputeStatus,
}

impl Transaction {
    /// The record kept of a deposit once it is applied: undisputed.
    pub open spec fn as_recorded(self) -> Transaction {
        Transaction { dispute_status: DisputeStatus::Undisputed, ..self }
    }

    /// The same record in another dispute state.
    pub open spec fn with_status(self, status: DisputeStatus) -> Transaction {
        Transaction { dispute_status: status, ..self }
    }

    /// Builds a transaction from the fields of an inbound record. The dispute
    /// state starts at `None`; an amount that is present must be strictly
    /// positive, else the record is rejected with a validation error.
    pub fn from_record(kind: TransactionType, client: u16, tx: u32, amount: Option<Balance>) -> (r:
        Result<Transaction, PaymentError>)
        ensures
            match amount {
                Some(b) => if b.0 > 0 {
                    &&& r is Ok
                    &&& r->Ok_0.kind == kind
                    &&& r->Ok_0.client == client
                    &&& r->Ok_0.tx == tx
                    &&& r->Ok_0.dispute_status == DisputeStatus::Undisputed
                    &&& r->Ok_0.amount is Some
                    &&& r->Ok_0.amount->Some_0.spec_units() == b.0
                } else {
                    r matches Err(PaymentError::ValidationError(_))
                },
                None => r == Ok::<Transaction, PaymentError>(
                    Transaction {
                        kind,
                        client,
                        tx,
                        amount: None,
                        dispute_status: DisputeStatus::Undisputed,
                    },
                ),
            },
    {
        let amount = match amount {
            Some(b) => match Amount::new(b) {
                Ok(a) => Some(a),
                Err(e) => {
                    return Err(e);
                },
            },
            None => None,
        };
        Ok(Transaction { kind, client, tx, amount, dispute_status: DisputeStatus::Undisputed })
    }
}

} // verus!
