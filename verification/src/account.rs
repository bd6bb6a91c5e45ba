//! The account engine: one account, and the transactions applied to it.

use crate::amount::Amount;
use crate::balances::Balances;
use crate::history::{
    find, has_id, has_unresolved, is_dispute, is_dispute_of, is_disputed, is_resolve,
    is_resolve_of, lemma_empty_answers, lemma_filter_step, lemma_find_at,
};
use crate::laws::transitions_keep_invariant;
use crate::ledger::{lemma_replay_prefix, lemma_replay_step, AccountView};
use crate::transaction::{Transaction, TransactionSet, TransactionType};
use vstd::prelude::*;

verus! {

/// The known state of one client: its balances, whether it is locked, and the
/// transactions that made it so.
#[derive(Debug)]
pub struct Account {
    client: u16,
    /// Funds that can be withdrawn or disputed.
    available: Amount,
    /// Funds held for dispute.
    held: Amount,
    /// Funds in all states.
    total: Amount,
    /// Whether a chargeback has locked the account.
    locked: bool,
    /// The transactions that were applied to the account.
    transactions: TransactionSet,
}

impl View for Account {
    type V = AccountView;

    closed spec fn view(&self) -> AccountView {
        AccountView {
            client: self.client,
            balances: Balances { available: self.available, held: self.held, total: self.total },
            locked: self.locked,
            history: self.transactions.transactions@,
        }
    }
}

impl Account {
    /// The client that the recorded series of transactions is kept under.
    pub closed spec fn series_client(&self) -> u16 {
        self.transactions.client
    }

    /// The account satisfies its invariant.
    pub open spec fn wf(&self) -> bool {
        &&& self@.wf()
        &&& self.series_client() == self@.client
    }

    /// The account of `client` before its first transaction.
    pub fn new(client: u16) -> (account: Account)
        ensures
            account.wf(),
            account@ == AccountView::empty(client),
    {
        let account = Account {
            client,
            available: Amount::zero(),
            held: Amount::zero(),
            total: Amount::zero(),
            locked: false,
            transactions: TransactionSet { transactions: Vec::new(), client },
        };
        proof {
            assert(account@.history =~= Seq::<Transaction>::empty());
            lemma_empty_answers();
        }
        account
    }

    /// Client identifier.
    pub fn client(&self) -> (client: u16)
        ensures
            client == self@.client,
    {
        self.client
    }

    /// Funds that can be withdrawn or disputed.
    pub fn available(&self) -> (amount: Amount)
        ensures
            amount == self@.balances.available,
    {
        self.available
    }

    /// Funds held for dispute.
    pub fn held(&self) -> (amount: Amount)
        ensures
            amount == self@.balances.held,
    {
        self.held
    }

    /// Funds in all states.
    pub fn total(&self) -> (amount: Amount)
        ensures
            amount == self@.balances.total,
    {
        self.total
    }

    /// Whether a chargeback has locked the account.
    pub fn locked(&self) -> (locked: bool)
        ensures
            locked == self@.locked,
    {
        self.locked
    }

    /// All three balances.
    pub fn balances(&self) -> (balances: Balances)
        ensures
            balances == self@.balances,
    {
        Balances { available: self.available, held: self.held, total: self.total }
    }

    /// The transactions that were applied to the account, oldest first.
    pub fn transactions(&self) -> (series: &TransactionSet)
        ensures
            series.transactions@ == self@.history,
            series.client == self.series_client(),
    {
        &self.transactions
    }

    /// The first applied transaction with the given identifier.
    pub fn get_transaction(&self, identifier: u32) -> (found: Option<Transaction>)
        ensures
            found == find(self@.history, identifier),
    {
        let ghost history = self@.history;
        let mut i: usize = 0;
        while i < self.transactions.transactions.len()
            invariant
                history == self.transactions.transactions@,
                i <= history.len(),
                history.take(i as int).filter(has_id(identifier)).len() == 0,
            decreases history.len() - i,
        {
            let candidate = self.transactions.transactions[i];
            if candidate.tx == identifier {
                proof {
                    lemma_find_at(history, i as int);
                }
                return Some(candidate);
            }
            proof {
                lemma_filter_step(history, i as int, has_id(identifier));
            }
            i += 1;
        }
        proof {
            assert(history.take(i as int) =~= history);
        }
        None
    }

    /// Whether `transaction` is under an open dispute: more applied disputes
    /// than resolutions carry its identifier. A dispute is never disputed.
    pub fn transaction_disputed(&self, transaction: &Transaction) -> (disputed: bool)
        ensures
            disputed == is_disputed(self@.history, *transaction),
    {
        if let TransactionType::Dispute = transaction.transaction_type {
            return false;
        }
        let ghost history = self@.history;
        let id = transaction.tx;
        let mut disputes: usize = 0;
        let mut resolutions: usize = 0;
        let mut i: usize = 0;
        while i < self.transactions.transactions.len()
            invariant
                history == self.transactions.transactions@,
                i <= history.len(),
                disputes == history.take(i as int).filter(is_dispute_of(id)).len(),
                resolutions == history.take(i as int).filter(is_resolve_of(id)).len(),
                disputes <= i,
                resolutions <= i,
            decreases history.len() - i,
        {
            let entry = self.transactions.transactions[i];
            proof {
                lemma_filter_step(history, i as int, is_dispute_of(id));
                lemma_filter_step(history, i as int, is_resolve_of(id));
            }
            if entry.tx == id {
                match entry.transaction_type {
                    TransactionType::Dispute => {
                        disputes += 1;
                    },
                    TransactionType::Resolve => {
                        resolutions += 1;
                    },
                    _ => {},
                }
            }
            i += 1;
        }
        proof {
            assert(history.take(i as int) =~= history);
        }
        disputes > resolutions
    }

    /// Whether any dispute of the account is open: more disputes than
    /// resolutions were applied, whatever they refer to.
    pub fn has_unresolved_disputes(&self) -> (unresolved: bool)
        ensures
            unresolved == has_unresolved(self@.history),
    {
        let ghost history = self@.history;
        let mut disputes: usize = 0;
        let mut resolutions: usize = 0;
        let mut i: usize = 0;
        while i < self.transactions.transactions.len()
            invariant
                history == self.transactions.transactions@,
                i <= history.len(),
                disputes == history.take(i as int).filter(is_dispute()).len(),
                resolutions == history.take(i as int).filter(is_resolve()).len(),
                disputes <= i,
                resolutions <= i,
            decreases history.len() - i,
        {
            let entry = self.transactions.transactions[i];
            proof {
                lemma_filter_step(history, i as int, is_dispute());
                lemma_filter_step(history, i as int, is_resolve());
            }
            match entry.transaction_type {
                TransactionType::Dispute => {
                    disputes += 1;
                },
                TransactionType::Resolve => {
                    resolutions += 1;
                },
                _ => {},
            }
            i += 1;
        }
        proof {
            assert(history.take(i as int) =~= history);
        }
        disputes > resolutions
    }
    /// Takes over new balances and appends `transaction` to the history.
    fn record(&mut self, balances: Balances, transaction: Transaction)
        ensures
            final(self)@ == old(self)@.record(balances, transaction),
            final(self).series_client() == old(self).series_client(),
    {
        self.available = balances.available;
        self.held = balances.held;
        self.total = balances.total;
        self.transactions.transactions.push(transaction);
    }

    /// Executes a deposit: the amount is added to the available funds, the
    /// total is computed anew and the transaction is recorded. A transaction of
    /// another kind is ignored.
    pub fn deposit(&mut self, transaction: Transaction)
        requires
            old(self).wf(),
            old(self)@.deposit(transaction) is Some,
        ensures
            final(self).wf(),
            Some(final(self)@) == old(self)@.deposit(transaction),
    {
        proof {
            transitions_keep_invariant(self@, transaction);
        }
        match transaction.transaction_type {
            TransactionType::Deposit(amount) => {
                let balances = self.balances().credit(amount).unwrap();
                self.record(balances, transaction);
            },
            _ => (),
        }
    }

    /// Executes a withdrawal: if the available funds cover the amount, it is
    /// taken from them, the total is computed anew and the transaction is
    /// recorded. Otherwise, and for a transaction of another kind, nothing
    /// changes.
    pub fn withdraw(&mut self, transaction: Transaction)
        requires
            old(self).wf(),
            old(self)@.withdraw(transaction) is Some,
        ensures
            final(self).wf(),
            Some(final(self)@) == old(self)@.withdraw(transaction),
    {
        proof {
            transitions_keep_invariant(self@, transaction);
        }
        match transaction.transaction_type {
            TransactionType::Withdraw(amount) => {
                if amount.le(&self.available) {
                    let balances = self.balances().debit(amount).unwrap();
                    self.record(balances, transaction);
                }
            },
            _ => (),
        }
    }

    /// Executes a dispute: the amount of the transaction it refers to moves
    /// into the held funds (out of them, for a withdrawal), which leaves the
    /// total as it is, and the dispute is recorded. Where it refers to no
    /// applied transaction, and for a transaction of another kind, nothing
    /// changes.
    pub fn dispute(&mut self, transaction: Transaction)
        requires
            old(self).wf(),
            old(self)@.dispute(transaction) is Some,
        ensures
            final(self).wf(),
            Some(final(self)@) == old(self)@.dispute(transaction),
    {
        proof {
            transitions_keep_invariant(self@, transaction);
        }
        match transaction.transaction_type {
            TransactionType::Dispute => {
                if let Some(target) = self.get_transaction(transaction.tx) {
                    let balances = self.balances().freeze(&target).unwrap();
                    self.record(balances, transaction);
                }
            },
            _ => (),
        }
    }

    /// Executes a resolution: what the dispute on the transaction it refers to
    /// moved goes back, and the resolution is recorded. Where it refers to no
    /// applied transaction or to one that is not under an open dispute, and for
    /// a transaction of another kind, nothing changes.
    pub fn resolve(&mut self, transaction: Transaction)
        requires
            old(self).wf(),
            old(self)@.resolve(transaction) is Some,
        ensures
            final(self).wf(),
            Some(final(self)@) == old(self)@.resolve(transaction),
    {
        proof {
            transitions_keep_invariant(self@, transaction);
        }
        match transaction.transaction_type {
            TransactionType::Resolve => {
                if let Some(target) = self.get_transaction(transaction.tx) {
                    if self.transaction_disputed(&target) {
                        let balances = self.balances().unfreeze(&target).unwrap();
                        self.record(balances, transaction);
                    }
                }
            },
            _ => (),
        }
    }

    /// Executes a chargeback, which finalizes a dispute rather than resolving
    /// it. Where no dispute of the account is open, nothing changes. Otherwise
    /// the account is locked and the chargeback recorded; if the transaction it
    /// refers to is under an open dispute, what that dispute moved goes back.
    pub fn chargeback(&mut self, transaction: Transaction)
        requires
            old(self).wf(),
            old(self)@.chargeback(transaction) is Some,
        ensures
            final(self).wf(),
            Some(final(self)@) == old(self)@.chargeback(transaction),
    {
        proof {
            transitions_keep_invariant(self@, transaction);
        }
        match transaction.transaction_type {
            TransactionType::Chargeback => {
                if self.has_unresolved_disputes() {
                    let mut balances = self.balances();
                    if let Some(target) = self.get_transaction(transaction.tx) {
                        if self.transaction_disputed(&target) {
                            balances = balances.unfreeze(&target).unwrap();
                        }
                    }
                    self.record(balances, transaction);
                    self.locked = true;
                }
            },
            _ => (),
        }
    }

    /// Applies a new transaction of any kind to the account and records it if
    /// it had an effect. A locked account ignores every transaction.
    pub fn resolve_new_transaction(&mut self, transaction: Transaction)
        requires
            old(self).wf(),
            old(self)@.apply(transaction) is Some,
        ensures
            final(self).wf(),
            Some(final(self)@) == old(self)@.apply(transaction),
            final(self)@.history.len() > old(self)@.history.len()
                ==> final(self)@.balances.balanced(),
            old(self)@.locked ==> final(self)@ == old(self)@,
            final(self)@.history == old(self)@.history ==> final(self)@ == old(self)@,
            transaction.transaction_type matches TransactionType::Withdraw(amount)
                && !amount.at_most(old(self)@.balances.available) ==> final(self)@ == old(self)@,
            (transaction.transaction_type is Dispute || transaction.transaction_type is Resolve)
                && find(old(self)@.history, transaction.tx) is None ==> final(self)@ == old(
                self,
            )@,
    {
        if self.locked {
            return ;
        }
        match transaction.transaction_type {
            TransactionType::Deposit(_) => self.deposit(transaction),
            TransactionType::Withdraw(_) => self.withdraw(transaction),
            TransactionType::Dispute => self.dispute(transaction),
            TransactionType::Resolve => self.resolve(transaction),
            TransactionType::Chargeback => self.chargeback(transaction),
        }
    }

    /// Whether the balances that `transaction` leads to can be represented, so
    /// that it can be applied.
    pub fn representable(&self, transaction: &Transaction) -> (ok: bool)
        ensures
            ok == (self@.apply(*transaction) is Some),
    {
        if self.locked {
            return true;
        }
        match transaction.transaction_type {
            TransactionType::Deposit(amount) => self.balances().credit(amount).is_some(),
            TransactionType::Withdraw(amount) => !amount.le(&self.available)
                || self.balances().debit(amount).is_some(),
            TransactionType::Dispute => match self.get_transaction(transaction.tx) {
                Some(target) => self.balances().freeze(&target).is_some(),
                None => true,
            },
            TransactionType::Resolve => match self.get_transaction(transaction.tx) {
                Some(target) => !self.transaction_disputed(&target) || self.balances().unfreeze(
                    &target,
                ).is_some(),
                None => true,
            },
            TransactionType::Chargeback => !self.has_unresolved_disputes()
                || match self.get_transaction(transaction.tx) {
                Some(target) => !self.transaction_disputed(&target) || self.balances().unfreeze(
                    &target,
                ).is_some(),
                None => true,
            },
        }
    }

    /// Applies `transaction` if the balances that it leads to can be
    /// represented, and says whether they can. If they cannot, the account is
    /// left as it was.
    pub fn try_resolve_new_transaction(&mut self, transaction: Transaction) -> (ok: bool)
        requires
            old(self).wf(),
        ensures
            final(self).wf(),
            ok == (old(self)@.apply(transaction) is Some),
            ok ==> Some(final(self)@) == old(self)@.apply(transaction),
            !ok ==> final(self)@ == old(self)@,
    {
        if self.representable(&transaction) {
            self.resolve_new_transaction(transaction);
            true
        } else {
            false
        }
    }

    /// Replays a series of transactions of one client, oldest first, and
    /// returns the account in its final state.
    pub fn from_transaction_set(transaction_set: TransactionSet) -> (account: Account)
        requires
            AccountView::empty(transaction_set.client).replay(transaction_set.transactions@)
                is Some,
        ensures
            account.wf(),
            Some(account@) == AccountView::empty(transaction_set.client).replay(
                transaction_set.transactions@,
            ),
    {
        let mut account = Account::new(transaction_set.client);
        let ghost start = account@;
        let ghost series = transaction_set.transactions@;
        let mut i: usize = 0;
        while i < transaction_set.transactions.len()
            invariant
                series == transaction_set.transactions@,
                start.replay(series) is Some,
                i <= series.len(),
                account.wf(),
                Some(account@) == start.replay(series.take(i as int)),
            decreases series.len() - i,
        {
            proof {
                lemma_replay_step(start, series, i as int);
                lemma_replay_prefix(start, series, i + 1);
            }
            account.resolve_new_transaction(transaction_set.transactions[i]);
            i += 1;
        }
        proof {
            assert(series.take(i as int) =~= series);
        }
        account
    }

    /// Whether every step of the series can be represented, so that the series
    /// can be replayed.
    pub fn replayable(transaction_set: &TransactionSet) -> (ok: bool)
        ensures
            ok == (AccountView::empty(transaction_set.client).replay(
                transaction_set.transactions@,
            ) is Some),
    {
        let mut account = Account::new(transaction_set.client);
        let ghost start = account@;
        let ghost series = transaction_set.transactions@;
        let mut i: usize = 0;
        while i < transaction_set.transactions.len()
            invariant
                series == transaction_set.transactions@,
                start == AccountView::empty(transaction_set.client),
                i <= series.len(),
                account.wf(),
                Some(account@) == start.replay(series.take(i as int)),
            decreases series.len() - i,
        {
            proof {
                lemma_replay_step(start, series, i as int);
            }
            if !account.try_resolve_new_transaction(transaction_set.transactions[i]) {
                proof {
                    if start.replay(series) is Some {
                        lemma_replay_prefix(start, series, i + 1);
                    }
                }
                return false;
            }
            i += 1;
        }
        proof {
            assert(series.take(i as int) =~= series);
        }
        true
    }

    /// Replays a series of transactions of one client if every balance on the
    /// way can be represented; `None` if one cannot.
    pub fn try_from_transaction_set(transaction_set: TransactionSet) -> (account: Option<Account>)
        ensures
            account matches Some(a) ==> a.wf() && Some(a@) == AccountView::empty(
                transaction_set.client,
            ).replay(transaction_set.transactions@),
            account is None <==> AccountView::empty(transaction_set.client).replay(
                transaction_set.transactions@,
            ) is None,
    {
        if Account::replayable(&transaction_set) {
            Some(Account::from_transaction_set(transaction_set))
        } else {
            None
        }
    }
}

} // verus!