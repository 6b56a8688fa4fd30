//! Per-client ledger accounts and the balance movements applied to them.
use crate::balance::{Amount, Balance};
use crate::error::PaymentError;
use vstd::prelude::*;

verus! {

/// Whether an account still accepts transactions.
#[derive(Debug, Clone, Copy, PartialEq, Eq, Structural)]
pub enum AccountStatus {
    Active,
    Locked,
}

/// One client's funds: what is available, what is held by disputes, and
/// their sum.
#[derive(Debug, Clone, Copy, PartialEq, Eq, Structural)]
pub struct ClientAccount {
    /// The client this account belongs to.
    pub client: u16,
    /// Funds available for withdrawal.
    pub available: Balance,
    /// Funds held by open disputes.
    pub held: Balance,
    /// Available plus held funds.
    pub total: Balance,
    /// Whether the account is locked; a chargeback locks it for good.
    pub status: AccountStatus,
}

impl ClientAccount {
    /// The account invariant: the total is the sum of available and held
    /// funds, and neither is negative.
    pub open spec fn wf(self) -> bool {
        &&& self.total.0 == self.available.0 + self.held.0
        &&& self.available.0 >= 0
        &&& self.held.0 >= 0
    }

    pub open spec fn is_locked(self) -> bool {
        self.status == AccountStatus::Locked
    }

    /// A new, empty, active account.
    pub open spec fn fresh(client: u16) -> ClientAccount {
        ClientAccount {
            client,
            available: Balance(0),
            held: Balance(0),
            total: Balance(0),
            status: AccountStatus::Active,
        }
    }

    /// The account after crediting `a`, or `None` when a balance would leave
    /// the representable range.
    pub open spec fn spec_deposit(self, a: int) -> Option<ClientAccount> {
        if self.available.0 + a <= i128::MAX && self.total.0 + a <= i128::MAX {
            Some(
                ClientAccount {
                    available: Balance((self.available.0 + a) as i128),
                    total: Balance((self.total.0 + a) as i128),
                    ..self
                },
            )
        } else {
            None
        }
    }

    /// The account after debiting `a`, or `None` when too little is available.
    pub open spec fn spec_withdraw(self, a: int) -> Option<ClientAccount> {
        if self.available.0 >= a {
            Some(
                ClientAccount {
                    available: Balance((self.available.0 - a) as i128),
                    total: Balance((self.total.0 - a) as i128),
                    ..self
                },
            )
        } else {
            None
        }
    }

    /// The account after moving `a` from available to held funds, or `None`
    /// when too little is available.
    pub open spec fn spec_hold(self, a: int) -> Option<ClientAccount> {
        if self.available.0 >= a {
            Some(
                ClientAccount {
                    available: Balance((self.available.0 - a) as i128),
                    held: Balance((self.held.0 + a) as i128),
                    ..self
                },
            )
        } else {
            None
        }
    }

    /// The account after moving `a` from held back to available funds, or
    /// `None` when too little is held.
    pub open spec fn spec_resolve(self, a: int) -> Option<ClientAccount> {
        if self.held.0 >= a {
            Some(
                ClientAccount {
                    available: Balance((self.available.0 + a) as i128),
                    held: Balance((self.held.0 - a) as i128),
                    ..self
                },
            )
        } else {
            None
        }
    }

    /// The account after removing `a` from held funds and locking it, or
    /// `None` when too little is held.
    pub open spec fn spec_chargeback(self, a: int) -> Option<ClientAccount> {
        if self.held.0 >= a {
            Some(
                ClientAccount {
                    held: Balance((self.held.0 - a) as i128),
                    total: Balance((self.total.0 - a) as i128),
                    status: AccountStatus::Locked,
                    ..self
                },
            )
        } else {
            None
        }
    }

    /// A new, empty, active account for `client`.
    pub fn new(client: u16) -> (r: ClientAccount)
        ensures
            r == ClientAccount::fresh(client),
            r.wf(),
    {
        ClientAccount {
            client,
            available: Balance(0),
            held: Balance(0),
            total: Balance(0),
            status: AccountStatus::Active,
        }
    }

    /// Sets the total to the sum of available and held funds.
    pub fn update_total(&mut self)
        requires
            i128::MIN <= old(self).available.0 + old(self).held.0 <= i128::MAX,
        ensures
            *final(self) == (ClientAccount {
                total: Balance((old(self).available.0 + old(self).held.0) as i128),
                ..*old(self)
            }),
    {
        self.total = Balance(self.available.0 + self.held.0);
    }

    /// Credits `amount` to the available funds.
    pub fn deposit(&mut self, amount: Amount) -> (r: Result<(), PaymentError>)
        requires
            old(self).wf(),
        ensures
            final(self).wf(),
            match old(self).spec_deposit(amount.spec_units()) {
                Some(acc) => r is Ok && *final(self) == acc,
                None => (r matches Err(PaymentError::ValidationError(_))) && *final(self) == *old(self),
            },
    {
        let a = amount.value();
        if self.total.0 <= i128::MAX - a.0 {
            self.available = Balance(self.available.0 + a.0);
            self.total = Balance(self.total.0 + a.0);
            Ok(())
        } else {
            Err(PaymentError::ValidationError("Balance out of range".to_string()))
        }
    }

    /// Debits `amount` from the available funds, if that many are available.
    pub fn withdraw(&mut self, amount: Amount) -> (r: Result<(), PaymentError>)
        requires
            old(self).wf(),
        ensures
            final(self).wf(),
            match old(self).spec_withdraw(amount.spec_units()) {
                Some(acc) => r is Ok && *final(self) == acc,
                None => (r matches Err(PaymentError::ValidationError(_))) && *final(self) == *old(self),
            },
    {
        let a = amount.value();
        if self.available.0 >= a.0 {
            self.available = Balance(self.available.0 - a.0);
            self.total = Balance(self.total.0 - a.0);
            Ok(())
        } else {
            Err(PaymentError::ValidationError("Insufficient funds".to_string()))
        }
    }

    /// Moves `amount` from available to held funds, if that many are
    /// available.
    pub fn hold(&mut self, amount: Amount) -> (r: Result<(), PaymentError>)
        requires
            old(self).wf(),
        ensures
            final(self).wf(),
            match old(self).spec_hold(amount.spec_units()) {
                Some(acc) => r is Ok && *final(self) == acc,
                None => (r matches Err(PaymentError::ValidationError(_))) && *final(self) == *old(self),
            },
    {
        let a = amount.value();
        if self.available.0 >= a.0 {
            self.available = Balance(self.available.0 - a.0);
            self.held = Balance(self.held.0 + a.0);
            Ok(())
        } else {
            Err(PaymentError::ValidationError("Insufficient funds to hold".to_string()))
        }
    }

    /// Moves `amount` from held back to available funds, if that many are
    /// held.
    pub fn resolve(&mut self, amount: Amount) -> (r: Result<(), PaymentError>)
        requires
            old(self).wf(),
        ensures
            final(self).wf(),
            match old(self).spec_resolve(amount.spec_units()) {
                Some(acc) => r is Ok && *final(self) == acc,
                None => (r matches Err(PaymentError::ValidationError(_))) && *final(self) == *old(self),
            },
    {
        let a = amount.value();
        if self.held.0 >= a.0 {
            self.held = Balance(self.held.0 - a.0);
            self.available = Balance(self.available.0 + a.0);
            Ok(())
        } else {
            Err(PaymentError::ValidationError("Held funds mismatch".to_string()))
        }
    }

    /// Removes `amount` from held funds and locks the account, if that many
    /// are held.
    pub fn chargeback(&mut self, amount: Amount) -> (r: Result<(), PaymentError>)
        requires
            old(self).wf(),
        ensures
            final(self).wf(),
            match old(self).spec_chargeback(amount.spec_units()) {
                Some(acc) => r is Ok && *final(self) == acc,
                None => (r matches Err(PaymentError::ValidationError(_))) && *final(self) == *old(self),
            },
    {
        let a = amount.value();
        if self.held.0 >= a.0 {
            self.held = Balance(self.held.0 - a.0);
            self.total = Balance(self.total.0 - a.0);
            self.status = AccountStatus::Locked;
            Ok(())
        } else {
            Err(PaymentError::ValidationError("Held funds mismatch".to_string()))
        }
    }
}

} // verus!
