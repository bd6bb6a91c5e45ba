//! The three balances of an account and the arithmetic on them.
//!
//! Each operation computes all three balances anew and returns `None` where
//! one of the sums or differences cannot be represented.

use crate::amount::Amount;
use crate::transaction::{Transaction, TransactionType};
use vstd::prelude::*;

verus! {

/// The funds of an account.
#[derive(Clone, Copy, Debug)]
pub struct Balances {
    /// Funds that can be withdrawn or disputed.
    pub available: Amount,
    /// Funds frozen by open disputes.
    pub held: Amount,
    /// All funds: `held + available`.
    pub total: Amount,
}

impl Balances {
    /// The balances of an account without transactions.
    pub open spec fn zero_spec() -> Balances {
        Balances {
            available: Amount::of(0, 1),
            held: Amount::of(0, 1),
            total: Amount::of(0, 1),
        }
    }

    /// `total` is the sum of `held` and `available`.
    pub open spec fn balanced(self) -> bool {
        self.held.sum(self.available) == Some(self.total)
    }

    /// `total` computed anew from the other two.
    pub open spec fn retotal_spec(self) -> Option<Balances> {
        match self.held.sum(self.available) {
            Some(total) => Some(Balances { total, ..self }),
            None => None,
        }
    }

    /// `amount` enters `available`.
    pub open spec fn credit_spec(self, amount: Amount) -> Option<Balances> {
        match self.available.sum(amount) {
            Some(available) => Balances { available, ..self }.retotal_spec(),
            None => None,
        }
    }

    /// `amount` leaves `available`.
    pub open spec fn debit_spec(self, amount: Amount) -> Option<Balances> {
        match self.available.difference(amount) {
            Some(available) => Balances { available, ..self }.retotal_spec(),
            None => None,
        }
    }

    /// `amount` moves from `available` to `held`.
    pub open spec fn hold_spec(self, amount: Amount) -> Option<Balances> {
        match (self.available.difference(amount), self.held.sum(amount)) {
            (Some(available), Some(held)) => Balances { available, held, ..self }.retotal_spec(),
            _ => None,
        }
    }

    /// `amount` moves from `held` to `available`.
    pub open spec fn release_spec(self, amount: Amount) -> Option<Balances> {
        match (self.available.sum(amount), self.held.difference(amount)) {
            (Some(available), Some(held)) => Balances { available, held, ..self }.retotal_spec(),
            _ => None,
        }
    }

    /// The balances once a dispute on `target` is open: a disputed deposit is
    /// held back, a disputed withdrawal is given back for the time being.
    pub open spec fn freeze_spec(self, target: Transaction) -> Option<Balances> {
        match target.transaction_type {
            TransactionType::Deposit(amount) => self.hold_spec(amount),
            TransactionType::Withdraw(amount) => self.release_spec(amount),
            _ => self.retotal_spec(),
        }
    }

    /// The balances once the dispute on `target` is over: what
    /// [`Balances::freeze_spec`] moved goes back.
    pub open spec fn unfreeze_spec(self, target: Transaction) -> Option<Balances> {
        match target.transaction_type {
            TransactionType::Deposit(amount) => self.release_spec(amount),
            TransactionType::Withdraw(amount) => self.hold_spec(amount),
            _ => self.retotal_spec(),
        }
    }

    /// The three balances are the same values as those of `other`.
    pub open spec fn same_values(self, other: Balances) -> bool {
        &&& self.available.same_value(other.available)
        &&& self.held.same_value(other.held)
        &&& self.total.same_value(other.total)
    }

    /// The value of `total` is exactly the value of `held` plus that of
    /// `available`: the sum was not rounded.
    pub open spec fn exactly_balanced(self) -> bool {
        self.total.units() == self.held.units() + self.available.units()
    }

    /// The decimal arithmetic moves `amount` from `available` to `held`
    /// without rounding.
    pub open spec fn holds_exactly(self, amount: Amount) -> bool {
        match self.hold_spec(amount) {
            Some(after) => {
                &&& after.available.units() == self.available.units() - amount.units()
                &&& after.held.units() == self.held.units() + amount.units()
                &&& after.exactly_balanced()
            },
            None => false,
        }
    }

    /// The decimal arithmetic moves `amount` from `held` to `available`
    /// without rounding.
    pub open spec fn releases_exactly(self, amount: Amount) -> bool {
        match self.release_spec(amount) {
            Some(after) => {
                &&& after.available.units() == self.available.units() + amount.units()
                &&& after.held.units() == self.held.units() - amount.units()
                &&& after.exactly_balanced()
            },
            None => false,
        }
    }

    /// The decimal arithmetic opens a dispute on `target` without rounding.
    pub open spec fn freezes_exactly(self, target: Transaction) -> bool {
        match target.transaction_type {
            TransactionType::Deposit(amount) => self.holds_exactly(amount),
            TransactionType::Withdraw(amount) => self.releases_exactly(amount),
            _ => true,
        }
    }

    /// The decimal arithmetic ends a dispute on `target` without rounding.
    pub open spec fn unfreezes_exactly(self, target: Transaction) -> bool {
        match target.transaction_type {
            TransactionType::Deposit(amount) => self.releases_exactly(amount),
            TransactionType::Withdraw(amount) => self.holds_exactly(amount),
            _ => true,
        }
    }

    /// The balances of an account without transactions: zero, with one decimal
    /// place.
    pub fn zero() -> (b: Balances)
        ensures
            b == Balances::zero_spec(),
    {
        Balances { available: Amount::zero(), held: Amount::zero(), total: Amount::zero() }
    }

    /// Computes `total` anew.
    pub fn retotal(&self) -> (r: Option<Balances>)
        ensures
            r == self.retotal_spec(),
    {
        match self.held.checked_add(self.available) {
            Some(total) => Some(Balances { available: self.available, held: self.held, total }),
            None => None,
        }
    }

    /// Adds `amount` to `available`.
    pub fn credit(&self, amount: Amount) -> (r: Option<Balances>)
        ensures
            r == self.credit_spec(amount),
    {
        match self.available.checked_add(amount) {
            Some(available) => Balances { available, held: self.held, total: self.total }.retotal(),
            None => None,
        }
    }

    /// Takes `amount` from `available`.
    pub fn debit(&self, amount: Amount) -> (r: Option<Balances>)
        ensures
            r == self.debit_spec(amount),
    {
        match self.available.checked_sub(amount) {
            Some(available) => Balances { available, held: self.held, total: self.total }.retotal(),
            None => None,
        }
    }

    /// Moves `amount` from `available` to `held`.
    pub fn hold(&self, amount: Amount) -> (r: Option<Balances>)
        ensures
            r == self.hold_spec(amount),
    {
        match (self.available.checked_sub(amount), self.held.checked_add(amount)) {
            (Some(available), Some(held)) => Balances { available, held, total: self.total }.retotal(),
            _ => None,
        }
    }

    /// Moves `amount` from `held` to `available`.
    pub fn release(&self, amount: Amount) -> (r: Option<Balances>)
        ensures
            r == self.release_spec(amount),
    {
        match (self.available.checked_add(amount), self.held.checked_sub(amount)) {
            (Some(available), Some(held)) => Balances { available, held, total: self.total }.retotal(),
            _ => None,
        }
    }

    /// Opens a dispute on `target`.
    pub fn freeze(&self, target: &Transaction) -> (r: Option<Balances>)
        ensures
            r == self.freeze_spec(*target),
    {
        match target.transaction_type {
            TransactionType::Deposit(amount) => self.hold(amount),
            TransactionType::Withdraw(amount) => self.release(amount),
            _ => self.retotal(),
        }
    }

    /// Ends the dispute on `target`.
    pub fn unfreeze(&self, target: &Transaction) -> (r: Option<Balances>)
        ensures
            r == self.unfreeze_spec(*target),
    {
        match target.transaction_type {
            TransactionType::Deposit(amount) => self.release(amount),
            TransactionType::Withdraw(amount) => self.hold(amount),
            _ => self.retotal(),
        }
    }
}

} // verus!
