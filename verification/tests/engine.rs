use toy_engine::{Account, Amount, Transaction, TransactionSet, TransactionType};

fn deposit(tx: u32, client: u16, num: i64, scale: u32) -> Transaction {
    Transaction { transaction_type: TransactionType::Deposit(Amount::new(num, scale)), tx, client }
}

fn withdraw(tx: u32, client: u16, num: i64, scale: u32) -> Transaction {
    Transaction { transaction_type: TransactionType::Withdraw(Amount::new(num, scale)), tx, client }
}

fn dispute(tx: u32, client: u16) -> Transaction {
    Transaction { transaction_type: TransactionType::Dispute, tx, client }
}

fn resolve(tx: u32, client: u16) -> Transaction {
    Transaction { transaction_type: TransactionType::Resolve, tx, client }
}

fn chargeback(tx: u32, client: u16) -> Transaction {
    Transaction { transaction_type: TransactionType::Chargeback, tx, client }
}

fn replay(client: u16, transactions: Vec<Transaction>) -> Account {
    Account::try_from_transaction_set(TransactionSet { transactions, client }).unwrap()
}

fn assert_state(account: &Account, available: Amount, held: Amount, total: Amount, locked: bool) {
    assert_eq!(account.available(), available);
    assert_eq!(account.held(), held);
    assert_eq!(account.total(), total);
    assert_eq!(account.locked(), locked);
}

#[test]
fn test_dispute() {
    let mut account = Account::from_transaction_set(TransactionSet {
        transactions: vec![Transaction {
            transaction_type: TransactionType::Deposit(Amount::new(5, 0)),
            tx: 1,
            client: 4,
        }],
        client: 4,
    });
    account.dispute(Transaction {
        transaction_type: TransactionType::Dispute,
        tx: 1,
        client: 4,
    });

    assert_eq!(account.total(), Amount::new(50, 1));
    assert_eq!(account.held(), Amount::new(50, 1));
    assert_eq!(account.available(), Amount::new(00, 1));
}

#[test]
fn test_resolve() {
    let mut account = Account::from_transaction_set(TransactionSet {
        transactions: vec![Transaction {
            transaction_type: TransactionType::Deposit(Amount::new(5, 0)),
            tx: 1,
            client: 4,
        }],
        client: 4,
    });
    account.dispute(Transaction {
        transaction_type: TransactionType::Dispute,
        tx: 1,
        client: 4,
    });
    account.resolve(Transaction {
        transaction_type: TransactionType::Resolve,
        tx: 1,
        client: 4,
    });

    assert_eq!(account.total(), Amount::new(50, 1));
    assert_eq!(account.held(), Amount::new(00, 1));
    assert_eq!(account.available(), Amount::new(50, 1));
}

#[test]
fn test_transaction_disputed() {
    let account = Account::from_transaction_set(TransactionSet {
        transactions: vec![
            Transaction {
                transaction_type: TransactionType::Deposit(Amount::new(5, 0)),
                tx: 1,
                client: 4,
            },
            Transaction {
                transaction_type: TransactionType::Dispute,
                tx: 1,
                client: 4,
            },
            Transaction {
                transaction_type: TransactionType::Deposit(Amount::new(3, 0)),
                tx: 2,
                client: 4,
            },
        ],
        client: 4,
    });

    assert_eq!(
        account.transaction_disputed(&account.transactions().transactions[0]),
        true
    );
    assert_eq!(
        account.transaction_disputed(&account.transactions().transactions[1]),
        false
    );
    assert_eq!(
        account.transaction_disputed(&account.transactions().transactions[2]),
        false
    );
}

#[test]
fn test_account_has_disputes() {
    let disputed_account = Account::from_transaction_set(TransactionSet {
        transactions: vec![
            Transaction {
                transaction_type: TransactionType::Deposit(Amount::new(5, 0)),
                tx: 1,
                client: 4,
            },
            Transaction {
                transaction_type: TransactionType::Dispute,
                tx: 1,
                client: 4,
            },
            Transaction {
                transaction_type: TransactionType::Deposit(Amount::new(3, 0)),
                tx: 2,
                client: 4,
            },
        ],
        client: 4,
    });

    let undisputed_account = Account::from_transaction_set(TransactionSet {
        transactions: vec![Transaction {
            transaction_type: TransactionType::Deposit(Amount::new(5, 0)),
            tx: 1,
            client: 4,
        }],
        client: 4,
    });

    assert_eq!(disputed_account.has_unresolved_disputes(), true);
    assert_eq!(undisputed_account.has_unresolved_disputes(), false);
}

#[test]
fn empty_account_is_zero_and_open() {
    let account = Account::new(9);
    assert_eq!(account.client(), 9);
    assert_state(&account, Amount::new(0, 1), Amount::new(0, 1), Amount::new(0, 1), false);
    assert_eq!(account.transactions().transactions.len(), 0);
    assert_eq!(account.transactions().client, 9);
}

#[test]
fn deposit_on_empty_account() {
    let account = replay(4, vec![deposit(1, 4, 5, 0)]);
    assert_state(&account, Amount::new(50, 1), Amount::new(0, 1), Amount::new(50, 1), false);
    assert_eq!(account.transactions().transactions.len(), 1);
}

#[test]
fn dispute_holds_the_deposit() {
    let account = replay(4, vec![deposit(1, 4, 5, 0), dispute(1, 4)]);
    assert_state(&account, Amount::new(0, 1), Amount::new(50, 1), Amount::new(50, 1), false);
    assert_eq!(account.transactions().transactions.len(), 2);
}

#[test]
fn resolve_releases_the_deposit() {
    let account = replay(4, vec![deposit(1, 4, 5, 0), dispute(1, 4), resolve(1, 4)]);
    assert_state(&account, Amount::new(50, 1), Amount::new(0, 1), Amount::new(50, 1), false);
    assert_eq!(account.transactions().transactions.len(), 3);
}

#[test]
fn overdrawn_withdrawal_is_dropped() {
    let account = replay(4, vec![deposit(1, 4, 5, 0), withdraw(2, 4, 10, 0)]);
    assert_state(&account, Amount::new(50, 1), Amount::new(0, 1), Amount::new(50, 1), false);
    assert_eq!(account.transactions().transactions.len(), 1);
}

#[test]
fn withdrawal_within_funds_is_applied() {
    let account = replay(4, vec![deposit(1, 4, 5, 0), withdraw(2, 4, 15, 1)]);
    assert_state(&account, Amount::new(35, 1), Amount::new(0, 1), Amount::new(35, 1), false);
    assert_eq!(account.available().mantissa(), 35);
    assert_eq!(account.available().scale(), 1);
    assert_eq!(account.transactions().transactions.len(), 2);
}

#[test]
fn withdrawal_of_everything_is_applied() {
    let account = replay(4, vec![deposit(1, 4, 5, 0), withdraw(2, 4, 500, 2)]);
    assert_state(&account, Amount::new(0, 0), Amount::new(0, 0), Amount::new(0, 0), false);
    assert_eq!(account.transactions().transactions.len(), 2);
}

#[test]
fn chargeback_reverses_and_locks() {
    let mut account = replay(4, vec![deposit(1, 4, 5, 0), dispute(1, 4), chargeback(1, 4)]);
    assert_state(&account, Amount::new(50, 1), Amount::new(0, 1), Amount::new(50, 1), true);
    assert_eq!(account.transactions().transactions.len(), 3);

    for transaction in [
        deposit(7, 4, 100, 0),
        withdraw(8, 4, 1, 0),
        dispute(1, 4),
        resolve(1, 4),
        chargeback(1, 4),
    ] {
        assert!(account.try_resolve_new_transaction(transaction));
        assert_state(&account, Amount::new(50, 1), Amount::new(0, 1), Amount::new(50, 1), true);
        assert_eq!(account.transactions().transactions.len(), 3);
    }
}

#[test]
fn chargeback_without_open_dispute_is_dropped() {
    let account = replay(4, vec![deposit(1, 4, 5, 0), chargeback(1, 4)]);
    assert_state(&account, Amount::new(50, 1), Amount::new(0, 1), Amount::new(50, 1), false);
    assert_eq!(account.transactions().transactions.len(), 1);

    let account =
        replay(4, vec![deposit(1, 4, 5, 0), dispute(1, 4), resolve(1, 4), chargeback(1, 4)]);
    assert_state(&account, Amount::new(50, 1), Amount::new(0, 1), Amount::new(50, 1), false);
    assert_eq!(account.transactions().transactions.len(), 3);
}

#[test]
fn chargeback_on_another_transaction_locks_without_reversal() {
    let account = replay(
        4,
        vec![deposit(1, 4, 5, 0), deposit(2, 4, 3, 0), dispute(1, 4), chargeback(2, 4)],
    );
    assert_state(&account, Amount::new(3, 0), Amount::new(5, 0), Amount::new(8, 0), true);
    assert_eq!(account.transactions().transactions.len(), 4);

    let account = replay(4, vec![deposit(1, 4, 5, 0), dispute(1, 4), chargeback(77, 4)]);
    assert_state(&account, Amount::new(0, 0), Amount::new(5, 0), Amount::new(5, 0), true);
    assert_eq!(account.transactions().transactions.len(), 3);
}

#[test]
fn dispute_of_unknown_transaction_is_dropped() {
    let account = replay(4, vec![deposit(1, 4, 5, 0), dispute(2, 4)]);
    assert_state(&account, Amount::new(5, 0), Amount::new(0, 0), Amount::new(5, 0), false);
    assert_eq!(account.transactions().transactions.len(), 1);
}

#[test]
fn resolve_of_unknown_or_undisputed_transaction_is_dropped() {
    let account = replay(4, vec![deposit(1, 4, 5, 0), resolve(2, 4)]);
    assert_state(&account, Amount::new(5, 0), Amount::new(0, 0), Amount::new(5, 0), false);
    assert_eq!(account.transactions().transactions.len(), 1);

    let account = replay(4, vec![deposit(1, 4, 5, 0), resolve(1, 4)]);
    assert_state(&account, Amount::new(5, 0), Amount::new(0, 0), Amount::new(5, 0), false);
    assert_eq!(account.transactions().transactions.len(), 1);

    let account =
        replay(4, vec![deposit(1, 4, 5, 0), dispute(1, 4), resolve(1, 4), resolve(1, 4)]);
    assert_state(&account, Amount::new(5, 0), Amount::new(0, 0), Amount::new(5, 0), false);
    assert_eq!(account.transactions().transactions.len(), 3);
}

#[test]
fn disputed_withdrawal_moves_the_other_way() {
    let account = replay(4, vec![deposit(1, 4, 10, 0), withdraw(2, 4, 4, 0), dispute(2, 4)]);
    assert_state(&account, Amount::new(10, 0), Amount::new(-4, 0), Amount::new(6, 0), false);

    let account = replay(
        4,
        vec![deposit(1, 4, 10, 0), withdraw(2, 4, 4, 0), dispute(2, 4), resolve(2, 4)],
    );
    assert_state(&account, Amount::new(6, 0), Amount::new(0, 0), Amount::new(6, 0), false);
}

#[test]
fn dispute_counts_all_disputes_and_resolutions_of_an_identifier() {
    let account = replay(
        4,
        vec![deposit(1, 4, 5, 0), dispute(1, 4), resolve(1, 4), dispute(1, 4)],
    );
    let target = account.get_transaction(1).unwrap();
    assert!(account.transaction_disputed(&target));
    assert!(account.has_unresolved_disputes());
    assert_state(&account, Amount::new(0, 0), Amount::new(5, 0), Amount::new(5, 0), false);

    let account = replay(
        4,
        vec![deposit(1, 4, 5, 0), dispute(1, 4), resolve(1, 4), dispute(1, 4), resolve(1, 4)],
    );
    assert!(!account.transaction_disputed(&target));
    assert!(!account.has_unresolved_disputes());
    assert_state(&account, Amount::new(5, 0), Amount::new(0, 0), Amount::new(5, 0), false);
}

#[test]
fn references_resolve_to_the_first_match() {
    let account = replay(4, vec![deposit(1, 4, 5, 0), deposit(1, 4, 7, 0), dispute(1, 4)]);
    assert_eq!(account.get_transaction(1).unwrap().tx, 1);
    assert!(matches!(
        account.get_transaction(1).unwrap().transaction_type,
        TransactionType::Deposit(amount) if amount == Amount::new(5, 0)
    ));
    assert!(account.get_transaction(3).is_none());
    assert_state(&account, Amount::new(7, 0), Amount::new(5, 0), Amount::new(12, 0), false);
}

#[test]
fn total_is_held_plus_available_after_each_step() {
    let series = vec![
        deposit(1, 4, 1050, 2),
        deposit(2, 4, 3, 0),
        withdraw(3, 4, 25, 1),
        dispute(1, 4),
        withdraw(4, 4, 100, 0),
        resolve(1, 4),
        dispute(3, 4),
        chargeback(3, 4),
        deposit(5, 4, 1, 0),
    ];
    let mut account = Account::new(4);
    for transaction in series {
        assert!(account.try_resolve_new_transaction(transaction));
        let sum = account.held().checked_add(account.available()).unwrap();
        assert_eq!(account.total(), sum);
        assert_eq!(account.balances().total, account.total());
    }
    assert_state(&account, Amount::new(11, 0), Amount::new(0, 0), Amount::new(11, 0), true);
    assert_eq!(account.transactions().transactions.len(), 7);
}

#[test]
fn step_that_cannot_be_represented_is_reported() {
    let huge = Amount::from_parts(0xFFFF_FFFF_FFFF_FFFF_FFFF_FFFF, 0).unwrap();
    let first = Transaction { transaction_type: TransactionType::Deposit(huge), tx: 1, client: 4 };
    let second = Transaction { transaction_type: TransactionType::Deposit(huge), tx: 2, client: 4 };

    let mut account = Account::new(4);
    assert!(account.representable(&first));
    assert!(account.try_resolve_new_transaction(first));
    assert!(!account.representable(&second));
    assert!(!account.try_resolve_new_transaction(second));
    assert_state(&account, huge, Amount::new(0, 0), huge, false);
    assert_eq!(account.transactions().transactions.len(), 1);

    let series = TransactionSet { transactions: vec![first, second], client: 4 };
    assert!(!Account::replayable(&series));
    assert!(Account::try_from_transaction_set(series).is_none());
}

#[test]
fn operations_ignore_transactions_of_another_kind() {
    let mut account = replay(4, vec![deposit(1, 4, 5, 0)]);
    account.deposit(withdraw(2, 4, 1, 0));
    account.withdraw(deposit(3, 4, 1, 0));
    account.dispute(resolve(1, 4));
    account.resolve(dispute(1, 4));
    account.chargeback(dispute(1, 4));
    assert_state(&account, Amount::new(5, 0), Amount::new(0, 0), Amount::new(5, 0), false);
    assert_eq!(account.transactions().transactions.len(), 1);
}

#[test]
fn dispute_then_resolve_restores_the_balances() {
    let series = vec![
        deposit(1, 4, 1050, 2),
        withdraw(2, 4, 25, 1),
        deposit(3, 4, 7, 0),
        dispute(3, 4),
        resolve(3, 4),
    ];
    let mut account = Account::new(4);
    for transaction in series {
        assert!(account.try_resolve_new_transaction(transaction));
    }
    for id in [1, 2, 3] {
        let before = account.balances();
        let length = account.transactions().transactions.len();
        assert!(account.try_resolve_new_transaction(dispute(id, 4)));
        assert_ne!(account.balances().available, before.available);
        assert_ne!(account.balances().held, before.held);
        assert_eq!(account.balances().total, before.total);
        assert!(account.try_resolve_new_transaction(resolve(id, 4)));
        assert_eq!(account.balances().available, before.available);
        assert_eq!(account.balances().held, before.held);
        assert_eq!(account.balances().total, before.total);
        assert_eq!(account.transactions().transactions.len(), length + 2);
    }
}

#[test]
fn locked_account_ignores_a_whole_series() {
    let locked = replay(4, vec![deposit(1, 4, 5, 0), dispute(1, 4), chargeback(1, 4)]);
    assert!(locked.locked());
    let longer = replay(
        4,
        vec![
            deposit(1, 4, 5, 0),
            dispute(1, 4),
            chargeback(1, 4),
            deposit(2, 4, 9, 0),
            withdraw(3, 4, 1, 0),
            dispute(2, 4),
            resolve(1, 4),
            chargeback(2, 4),
        ],
    );
    assert_state(&longer, locked.available(), locked.held(), locked.total(), true);
    assert_eq!(longer.transactions().transactions.len(), 3);
    assert_eq!(longer.client(), 4);
}

#[test]
fn transactions_of_another_client_are_applied_all_the_same() {
    let account = replay(4, vec![deposit(1, 9, 5, 0)]);
    assert_state(&account, Amount::new(5, 0), Amount::new(0, 0), Amount::new(5, 0), false);
    assert_eq!(account.client(), 4);
    assert_eq!(account.transactions().client, 4);
    assert_eq!(account.transactions().transactions[0].client, 9);
}

#[test]
fn dispute_and_resolve_round_at_the_edge_of_the_precision() {
    let largest = Amount::from_parts(0xFFFF_FFFF_FFFF_FFFF_FFFF_FFFF, 0).unwrap();
    let one_less = Amount::from_parts(0xFFFF_FFFF_FFFF_FFFF_FFFF_FFFE, 0).unwrap();
    let mut account = Account::new(1);
    for transaction in [
        deposit(1, 1, 5, 1),
        withdraw(2, 1, 5, 1),
        Transaction { transaction_type: TransactionType::Deposit(largest), tx: 3, client: 1 },
    ] {
        assert!(account.try_resolve_new_transaction(transaction));
    }
    assert_state(&account, largest, Amount::new(0, 0), largest, false);

    // Half a unit less than the largest amount has no representation: the
    // difference is rounded, and the resolution does not bring it back.
    assert!(account.try_resolve_new_transaction(dispute(1, 1)));
    assert_state(&account, one_less, Amount::new(5, 1), one_less, false);
    assert!(account.try_resolve_new_transaction(resolve(1, 1)));
    assert_state(&account, one_less, Amount::new(0, 0), one_less, false);
    assert_eq!(account.transactions().transactions.len(), 5);
}
