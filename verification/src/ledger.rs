//! The account state machine as a mathematical model.
//!
//! An [`AccountView`] is the state of one account. Each transition returns the
//! next state, or `None` where a balance of the next state cannot be
//! represented. A transaction that does not apply returns the state unchanged.

use crate::balances::Balances;
use crate::history::{
    dispute_count, find, has_unresolved, is_disputed, lemma_counts_push,
    resolutions_answer_disputes, resolve_count,
};
use crate::transaction::{Transaction, TransactionType};
use vstd::prelude::*;

verus! {

/// The state of one account.
pub struct AccountView {
    /// Client identifier.
    pub client: u16,
    /// Available, held and total funds.
    pub balances: Balances,
    /// Whether a chargeback has locked the account.
    pub locked: bool,
    /// The transactions that were applied, oldest first.
    pub history: Seq<Transaction>,
}

impl AccountView {
    /// The account of a client before its first transaction.
    pub open spec fn empty(client: u16) -> AccountView {
        AccountView {
            client,
            balances: Balances::zero_spec(),
            locked: false,
            history: Seq::empty(),
        }
    }

    /// The invariant of an account: its total is the sum of held and available
    /// funds (or all three are still the zero they started as), and no
    /// transaction was resolved more often than disputed.
    pub open spec fn wf(self) -> bool {
        &&& self.history.len() == 0 && self.balances == Balances::zero_spec()
            || self.balances.balanced()
        &&& resolutions_answer_disputes(self.history)
    }

    /// The state with new balances and `transaction` appended to the history.
    pub open spec fn record(self, balances: Balances, transaction: Transaction) -> AccountView {
        AccountView { balances, history: self.history.push(transaction), ..self }
    }

    /// The state once the account is locked.
    pub open spec fn lock(self) -> AccountView {
        AccountView { locked: true, ..self }
    }

    /// The state with `transaction` appended, where `balances` could be
    /// computed.
    pub open spec fn record_if(
        self,
        balances: Option<Balances>,
        transaction: Transaction,
    ) -> Option<AccountView> {
        match balances {
            Some(b) => Some(self.record(b, transaction)),
            None => None,
        }
    }

    /// A deposit adds its amount to the available funds.
    pub open spec fn deposit(self, transaction: Transaction) -> Option<AccountView> {
        match transaction.transaction_type {
            TransactionType::Deposit(amount) => self.record_if(
                self.balances.credit_spec(amount),
                transaction,
            ),
            _ => Some(self),
        }
    }

    /// A withdrawal takes its amount from the available funds, if they cover
    /// it.
    pub open spec fn withdraw(self, transaction: Transaction) -> Option<AccountView> {
        match transaction.transaction_type {
            TransactionType::Withdraw(amount) => if amount.at_most(self.balances.available) {
                self.record_if(self.balances.debit_spec(amount), transaction)
            } else {
                Some(self)
            },
            _ => Some(self),
        }
    }

    /// A dispute freezes the first transaction with its identifier, if there is
    /// one.
    pub open spec fn dispute(self, transaction: Transaction) -> Option<AccountView> {
        match transaction.transaction_type {
            TransactionType::Dispute => match find(self.history, transaction.tx) {
                Some(target) => self.record_if(self.balances.freeze_spec(target), transaction),
                None => Some(self),
            },
            _ => Some(self),
        }
    }

    /// The transaction that `id` refers to, where it is under an open dispute.
    pub open spec fn disputed_target(self, id: u32) -> Option<Transaction> {
        match find(self.history, id) {
            Some(target) => if is_disputed(self.history, target) {
                Some(target)
            } else {
                None
            },
            None => None,
        }
    }

    /// A resolution unfreezes the transaction it refers to, if that one is
    /// under an open dispute.
    pub open spec fn resolve(self, transaction: Transaction) -> Option<AccountView> {
        match transaction.transaction_type {
            TransactionType::Resolve => match self.disputed_target(transaction.tx) {
                Some(target) => self.record_if(self.balances.unfreeze_spec(target), transaction),
                None => Some(self),
            },
            _ => Some(self),
        }
    }

    /// A chargeback applies where any dispute of the account is open. It
    /// unfreezes the transaction it refers to, if that one is under an open
    /// dispute, and locks the account in any case.
    pub open spec fn chargeback(self, transaction: Transaction) -> Option<AccountView> {
        match transaction.transaction_type {
            TransactionType::Chargeback => if has_unresolved(self.history) {
                let balances = match self.disputed_target(transaction.tx) {
                    Some(target) => self.balances.unfreeze_spec(target),
                    None => Some(self.balances),
                };
                match balances {
                    Some(b) => Some(self.record(b, transaction).lock()),
                    None => None,
                }
            } else {
                Some(self)
            },
            _ => Some(self),
        }
    }

    /// One step of the account: a locked account ignores every transaction, an
    /// open one acts by the kind of the transaction.
    pub open spec fn apply(self, transaction: Transaction) -> Option<AccountView> {
        if self.locked {
            Some(self)
        } else {
            match transaction.transaction_type {
                TransactionType::Deposit(_) => self.deposit(transaction),
                TransactionType::Withdraw(_) => self.withdraw(transaction),
                TransactionType::Dispute => self.dispute(transaction),
                TransactionType::Resolve => self.resolve(transaction),
                TransactionType::Chargeback => self.chargeback(transaction),
            }
        }
    }

    /// The steps of a whole series, one after the other.
    pub open spec fn replay(self, transactions: Seq<Transaction>) -> Option<AccountView>
        decreases transactions.len(),
    {
        if transactions.len() == 0 {
            Some(self)
        } else {
            match self.replay(transactions.drop_last()) {
                Some(before) => before.apply(transactions.last()),
                None => None,
            }
        }
    }
}

/// Recording a transaction with balanced balances keeps the invariant, as long
/// as a recorded resolution answers an open dispute.
pub proof fn lemma_record_keeps_invariant(
    account: AccountView,
    balances: Balances,
    transaction: Transaction,
)
    requires
        account.wf(),
        balances.balanced(),
        transaction.transaction_type is Resolve ==> dispute_count(
            account.history,
            transaction.tx,
        ) > resolve_count(account.history, transaction.tx),
    ensures
        account.record(balances, transaction).wf(),
        account.record(balances, transaction).lock().wf(),
{
    lemma_counts_push(account.history, transaction);
    let after = account.history.push(transaction);
    assert forall|id: u32| resolve_count(after, id) <= #[trigger] dispute_count(after, id) by {
        assert(resolve_count(account.history, id) <= dispute_count(account.history, id));
    }
}

/// A series that can be replayed can be replayed up to any point.
pub proof fn lemma_replay_prefix(account: AccountView, transactions: Seq<Transaction>, n: int)
    requires
        0 <= n <= transactions.len(),
        account.replay(transactions) is Some,
    ensures
        account.replay(transactions.take(n)) is Some,
    decreases transactions.len(),
{
    if n == transactions.len() {
        assert(transactions.take(n) =~= transactions);
    } else {
        assert(transactions.drop_last().take(n) =~= transactions.take(n));
        lemma_replay_prefix(account, transactions.drop_last(), n);
    }
}

/// Replaying one transaction more is one more step.
pub proof fn lemma_replay_step(account: AccountView, transactions: Seq<Transaction>, n: int)
    requires
        0 <= n < transactions.len(),
    ensures
        account.replay(transactions.take(n + 1)) == match account.replay(transactions.take(n)) {
            Some(before) => before.apply(transactions[n]),
            None => None,
        },
{
    assert(transactions.take(n + 1).drop_last() =~= transactions.take(n));
}

} // verus!
