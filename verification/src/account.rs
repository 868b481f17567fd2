//! One user's royalty account and the arithmetic on its balances.

use vstd::prelude::*;
use crate::error::ContractError;

verus! {

/// What the ledger holds for one user.
#[derive(Debug, PartialEq, Eq)]
pub struct RoyaltyAccount {
    /// The payout address on the other chain, in lower case.
    pub evm_address: String,
    /// The balance currently owed.
    pub accrued_amount: u128,
    /// All that was ever settled.
    pub total_burned: u128,
}

/// An account as plain values.
pub struct AccountView {
    pub evm_address: Seq<char>,
    pub accrued_amount: nat,
    pub total_burned: nat,
}

impl View for RoyaltyAccount {
    type V = AccountView;

    open spec fn view(&self) -> AccountView {
        AccountView {
            evm_address: self.evm_address@,
            accrued_amount: self.accrued_amount as nat,
            total_burned: self.total_burned as nat,
        }
    }
}

impl Clone for RoyaltyAccount {
    fn clone(&self) -> (copy: Self)
        ensures
            copy@ == self@,
    {
        RoyaltyAccount {
            evm_address: self.evm_address.clone(),
            accrued_amount: self.accrued_amount,
            total_burned: self.total_burned,
        }
    }
}

/// The amount of an optional request, as a natural number.
pub open spec fn requested(amount: Option<u128>) -> Option<nat> {
    match amount {
        Some(a) => Some(a as nat),
        None => None,
    }
}

impl AccountView {
    /// An account that owes nothing and has settled nothing.
    pub open spec fn opened(evm_address: Seq<char>) -> AccountView {
        AccountView { evm_address, accrued_amount: 0, total_burned: 0 }
    }

    /// Both balances fit their representation.
    pub open spec fn bounded(self) -> bool {
        self.accrued_amount <= u128::MAX && self.total_burned <= u128::MAX
    }

    /// The account after `amount` more is owed and the payout address is
    /// replaced, or the overflow that refuses it.
    pub open spec fn credited(self, evm_address: Seq<char>, amount: nat) -> Result<
        AccountView,
        ContractError,
    > {
        if self.accrued_amount + amount > u128::MAX {
            Err(ContractError::ArithmeticOverflow)
        } else {
            Ok(
                AccountView {
                    evm_address,
                    accrued_amount: self.accrued_amount + amount,
                    total_burned: self.total_burned,
                },
            )
        }
    }

    /// The amount that a settlement request stands for: the amount named,
    /// or all that is owed where none is named.
    pub open spec fn settle_amount(self, amount: Option<nat>) -> nat {
        match amount {
            Some(a) => a,
            None => self.accrued_amount,
        }
    }

    /// The account after a settlement, or the error that refuses it. With
    /// `keep_history` the settled amount is added to `total_burned`.
    pub open spec fn debited(self, amount: Option<nat>, keep_history: bool) -> Result<
        AccountView,
        ContractError,
    > {
        let settle = self.settle_amount(amount);
        if settle == 0 {
            Err(ContractError::InvalidAmount)
        } else if settle > self.accrued_amount {
            Err(ContractError::InsufficientFunds)
        } else if keep_history && self.total_burned + settle > u128::MAX {
            Err(ContractError::ArithmeticOverflow)
        } else {
            Ok(
                AccountView {
                    evm_address: self.evm_address,
                    accrued_amount: (self.accrued_amount - settle) as nat,
                    total_burned: if keep_history {
                        self.total_burned + settle
                    } else {
                        self.total_burned
                    },
                },
            )
        }
    }
}

impl RoyaltyAccount {
    /// A fresh account for `evm_address`, with nothing owed.
    pub fn new(evm_address: String) -> (account: RoyaltyAccount)
        ensures
            account@ == AccountView::opened(evm_address@),
    {
        RoyaltyAccount { evm_address, accrued_amount: 0, total_burned: 0 }
    }

    /// Adds `amount` to the balance owed and replaces the payout address.
    /// The balance never wraps: an addition that does not fit is refused.
    pub fn credit(&self, evm_address: String, amount: u128) -> (r: Result<
        RoyaltyAccount,
        ContractError,
    >)
        ensures
            match self@.credited(evm_address@, amount as nat) {
                Ok(after) => r is Ok && r->Ok_0@ == after,
                Err(e) => r is Err && r->Err_0 == e,
            },
            r is Err <==> self.accrued_amount + amount > u128::MAX,
    {
        match self.accrued_amount.checked_add(amount) {
            Some(sum) => Ok(
                RoyaltyAccount {
                    evm_address,
                    accrued_amount: sum,
                    total_burned: self.total_burned,
                },
            ),
            None => Err(ContractError::ArithmeticOverflow),
        }
    }

    /// Takes a settlement out of the balance owed: the amount named, or the
    /// whole balance where none is named. Returns the account after it and
    /// the amount settled. A settlement of nothing is refused, then one of
    /// more than is owed, then one that the burn history cannot take in. The
    /// subtraction is tested like the additions, and never fails after the
    /// balance was compared.
    pub fn debit(&self, amount: Option<u128>, keep_history: bool) -> (r: Result<
        (RoyaltyAccount, u128),
        ContractError,
    >)
        ensures
            match self@.debited(requested(amount), keep_history) {
                Ok(after) => r is Ok && r->Ok_0.0@ == after && r->Ok_0.1 == self@.settle_amount(
                    requested(amount),
                ),
                Err(e) => r is Err && r->Err_0 == e,
            },
            r matches Ok(done) ==> done.0.accrued_amount + done.1 == self.accrued_amount,
            !(r matches Err(ContractError::ArithmeticUnderflow)),
    {
        let settle: u128 = match amount {
            Some(a) => a,
            None => self.accrued_amount,
        };
        if settle == 0 {
            return Err(ContractError::InvalidAmount);
        }
        if settle > self.accrued_amount {
            return Err(ContractError::InsufficientFunds);
        }
        let remaining: u128 = match self.accrued_amount.checked_sub(settle) {
            Some(left) => left,
            None => { return Err(ContractError::ArithmeticUnderflow); },
        };
        let burned: u128 = if keep_history {
            match self.total_burned.checked_add(settle) {
                Some(sum) => sum,
                None => { return Err(ContractError::ArithmeticOverflow); },
            }
        } else {
            self.total_burned
        };
        Ok(
            (
                RoyaltyAccount {
                    evm_address: self.evm_address.clone(),
                    accrued_amount: remaining,
                    total_burned: burned,
                },
                settle,
            ),
        )
    }
}

} // verus!
