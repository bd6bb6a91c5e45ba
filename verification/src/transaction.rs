//! Transactions and the per-client series they come in.

use crate::amount::Amount;
use vstd::prelude::*;

verus! {

/// What a transaction does. Deposits and withdrawals carry their amount; the
/// other three refer to an earlier transaction by its identifier.
#[derive(Clone, Copy, Debug, PartialEq)]
pub enum TransactionType {
    /// Removal of some amount from a client.
    Withdraw(Amount),
    /// Addition of some amount to a client.
    Deposit(Amount),
    /// Freeze a transaction.
    Dispute,
    /// Unfreeze a disputed transaction.
    Resolve,
    /// Finalize a dispute against the client, which locks the account.
    Chargeback,
}

/// A single transaction.
#[derive(Clone, Copy, Debug)]
pub struct Transaction {
    /// How this transaction acts on the account.
    pub transaction_type: TransactionType,
    /// Transaction identifier.
    pub tx: u32,
    /// Client identifier.
    pub client: u16,
}

/// A series of transactions of one client, in the order in which they happened.
#[derive(Clone, Debug)]
pub struct TransactionSet {
    /// The transactions, oldest first.
    pub transactions: Vec<Transaction>,
    /// Client identifier.
    pub client: u16,
}

/// A series of transactions as a value: the client and the sequence.
pub struct TransactionSetView {
    pub transactions: Seq<Transaction>,
    pub client: u16,
}

impl View for TransactionSet {
    type V = TransactionSetView;

    open spec fn view(&self) -> TransactionSetView {
        TransactionSetView { transactions: self.transactions@, client: self.client }
    }
}

} // verus!
