//! What holds of every account, whatever transactions reach it.

use crate::amount::Amount;
use crate::history::{
    dispute_count, find, has_unresolved, lemma_counts_push, lemma_empty_answers,
    lemma_find_has_id, lemma_find_push, lemma_unresolved_nonempty, resolve_count,
};
use crate::ledger::{lemma_record_keeps_invariant, AccountView};
use crate::transaction::{Transaction, TransactionType};
use vstd::arithmetic::power::pow;
use vstd::prelude::*;

verus! {

/// Each kind of transition keeps the invariant, on a locked account too.
pub proof fn transitions_keep_invariant(account: AccountView, transaction: Transaction)
    requires
        account.wf(),
    ensures
        account.deposit(transaction) matches Some(next) ==> next.wf(),
        account.withdraw(transaction) matches Some(next) ==> next.wf(),
        account.dispute(transaction) matches Some(next) ==> next.wf(),
        account.resolve(transaction) matches Some(next) ==> next.wf(),
        account.chargeback(transaction) matches Some(next) ==> next.wf(),
{
    lemma_find_has_id(account.history, transaction.tx);
    lemma_unresolved_nonempty(account.history);
    if let Some(next) = account.deposit(transaction) {
        if next != account {
            lemma_record_keeps_invariant(account, next.balances, transaction);
        }
    }
    if let Some(next) = account.withdraw(transaction) {
        if next != account {
            lemma_record_keeps_invariant(account, next.balances, transaction);
        }
    }
    if let Some(next) = account.dispute(transaction) {
        if next != account {
            lemma_record_keeps_invariant(account, next.balances, transaction);
        }
    }
    if let Some(next) = account.resolve(transaction) {
        if next != account {
            lemma_record_keeps_invariant(account, next.balances, transaction);
        }
    }
    if let Some(next) = account.chargeback(transaction) {
        if next != account {
            lemma_record_keeps_invariant(account, next.balances, transaction);
        }
    }
}

/// The invariant survives every step: after a transaction, applied or not, the
/// total is still the sum of held and available funds.
pub proof fn apply_keeps_invariant(account: AccountView, transaction: Transaction)
    requires
        account.wf(),
        account.apply(transaction) is Some,
    ensures
        account.apply(transaction)->0.wf(),
{
    transitions_keep_invariant(account, transaction);
}

/// After every applied transaction the total is exactly the sum of held and
/// available funds.
pub proof fn applied_transaction_balances(account: AccountView, transaction: Transaction)
    requires
        account.wf(),
        account.apply(transaction) is Some,
        account.apply(transaction)->0.history.len() > account.history.len(),
    ensures
        account.apply(transaction)->0.balances.balanced(),
{
    apply_keeps_invariant(account, transaction);
}

/// The invariant survives every series of transactions.
pub proof fn replay_keeps_invariant(account: AccountView, transactions: Seq<Transaction>)
    requires
        account.wf(),
        account.replay(transactions) is Some,
    ensures
        account.replay(transactions)->0.wf(),
    decreases transactions.len(),
{
    if transactions.len() > 0 {
        replay_keeps_invariant(account, transactions.drop_last());
        apply_keeps_invariant(
            account.replay(transactions.drop_last())->0,
            transactions.last(),
        );
    }
}

/// A locked account stays as it is: no series of transactions alters its
/// balances or lengthens its history, and it stays locked.
pub proof fn locked_account_ignores(account: AccountView, transactions: Seq<Transaction>)
    requires
        account.locked,
    ensures
        account.replay(transactions) == Some(account),
    decreases transactions.len(),
{
    if transactions.len() > 0 {
        locked_account_ignores(account, transactions.drop_last());
    }
}

/// Nothing unlocks an account: neither a step nor any single kind of
/// transition.
pub proof fn lock_is_final(account: AccountView, transaction: Transaction)
    requires
        account.locked,
    ensures
        account.apply(transaction) matches Some(next) ==> next.locked,
        account.deposit(transaction) matches Some(next) ==> next.locked,
        account.withdraw(transaction) matches Some(next) ==> next.locked,
        account.dispute(transaction) matches Some(next) ==> next.locked,
        account.resolve(transaction) matches Some(next) ==> next.locked,
        account.chargeback(transaction) matches Some(next) ==> next.locked,
{
}

/// Only a chargeback locks an account.
pub proof fn only_chargeback_locks(account: AccountView, transaction: Transaction)
    requires
        !account.locked,
        account.apply(transaction) matches Some(next) && next.locked,
    ensures
        transaction.transaction_type is Chargeback,
        has_unresolved(account.history),
{
}

/// The account of a client before its first transaction satisfies the
/// invariant; its balances are zero, and its total is the unrounded sum of the
/// other two.
pub proof fn empty_account_is_balanced(client: u16)
    ensures
        AccountView::empty(client).wf(),
        AccountView::empty(client).balances.available.units() == 0,
        AccountView::empty(client).balances.held.units() == 0,
        AccountView::empty(client).balances.total.units() == 0,
        AccountView::empty(client).balances.exactly_balanced(),
{
    lemma_empty_answers();
    Amount::lemma_parts_of(0, 1);
    assert(0 * pow(10, (u32::MAX - 1) as nat) == 0);
}

/// A dispute that is at once followed by a resolution of the same transaction
/// leaves the available, held and total funds at the values they had, as long
/// as the decimal arithmetic of the two steps does not round and the total
/// was the unrounded sum before.
pub proof fn dispute_then_resolve_restores(
    account: AccountView,
    dispute: Transaction,
    resolve: Transaction,
)
    requires
        account.wf(),
        account.balances.exactly_balanced(),
        dispute.transaction_type is Dispute,
        resolve.transaction_type is Resolve,
        dispute.tx == resolve.tx,
        account.apply(dispute) matches Some(disputed) && disputed.apply(resolve) is Some,
        find(account.history, dispute.tx) matches Some(target) ==> account.balances.freezes_exactly(
            target,
        ) && account.apply(dispute)->0.balances.unfreezes_exactly(target),
    ensures
        account.apply(dispute)->0.apply(resolve)->0.balances.same_values(account.balances),
{
    let disputed = account.apply(dispute)->0;
    let after = disputed.apply(resolve)->0;
    let before = account.balances;
    before.available.lemma_same_value_units(before.available);
    before.held.lemma_same_value_units(before.held);
    before.total.lemma_same_value_units(before.total);
    if disputed != account {
        let target = find(account.history, dispute.tx)->0;
        lemma_find_has_id(account.history, dispute.tx);
        lemma_find_push(account.history, dispute, dispute.tx);
        lemma_counts_push(account.history, dispute);
        assert(resolve_count(account.history, target.tx) <= dispute_count(
            account.history,
            target.tx,
        ));
        after.balances.available.lemma_same_value_units(before.available);
        after.balances.held.lemma_same_value_units(before.held);
        after.balances.total.lemma_same_value_units(before.total);
    }
}

/// A withdrawal of more than the available funds changes nothing.
pub proof fn overdrawn_withdrawal_ignored(account: AccountView, transaction: Transaction)
    requires
        transaction.transaction_type matches TransactionType::Withdraw(amount) && !amount.at_most(
            account.balances.available,
        ),
    ensures
        account.apply(transaction) == Some(account),
{
}

/// A dispute or a resolution that refers to no transaction of the history
/// changes nothing.
pub proof fn unknown_reference_ignored(account: AccountView, transaction: Transaction)
    requires
        transaction.transaction_type is Dispute || transaction.transaction_type is Resolve,
        find(account.history, transaction.tx) is None,
    ensures
        account.apply(transaction) == Some(account),
{
}

/// A chargeback on an account without an open dispute changes nothing.
pub proof fn idle_chargeback_ignored(account: AccountView, transaction: Transaction)
    requires
        transaction.transaction_type is Chargeback,
        !has_unresolved(account.history),
    ensures
        account.apply(transaction) == Some(account),
{
}

} // verus!
