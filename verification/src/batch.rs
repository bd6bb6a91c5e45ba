//! From tabular data to one account per client.
//!
//! The table is read by the `csv` crate. Its records become transactions, the
//! transactions are grouped by client, and each group is replayed into the
//! account of its client.

use crate::account::Account;
use crate::grouping::{group_by_client, is_grouping, lemma_client_occurs, of_client, views};
use crate::ledger::AccountView;
use crate::record::transaction_of_record;
use crate::transaction::{Transaction, TransactionSet};
use vstd::prelude::*;

verus! {

/// The error of the `csv` crate.
#[verifier::external_type_specification]
#[verifier::external_body]
pub struct ExCsvError(csv::Error);

/// Why a batch could not be processed.
#[derive(Debug)]
pub enum BatchError {
    /// The header row of the table could not be read.
    Header(csv::Error),
    /// A balance of the client cannot be represented.
    Overflow(u16),
}

/// What the `csv` crate reads from tabular data, with fields trimmed: the
/// header row and, for each further row, its fields, or `None` for a row that
/// the crate rejects. `None` as a whole where it cannot read the header row.
pub uninterp spec fn csv_table(data: Seq<u8>) -> Option<
    (Seq<Seq<char>>, Seq<Option<Seq<Seq<char>>>>),
>;

/// The header row and the rows as values.
pub open spec fn table_view(
    table: Result<(Vec<String>, Vec<Option<Vec<String>>>), csv::Error>,
) -> Option<(Seq<Seq<char>>, Seq<Option<Seq<Seq<char>>>>)> {
    match table {
        Ok((headers, rows)) => Some((headers.deep_view(), rows.deep_view())),
        Err(_) => None,
    }
}

/// Reads one row of a table with the given header row.
pub open spec fn read_row(headers: Seq<Seq<char>>) -> spec_fn(Option<Seq<Seq<char>>>) -> Option<
    Transaction,
> {
    |row: Option<Seq<Seq<char>>>|
        match row {
            Some(record) => transaction_of_record(headers, record),
            None => None,
        }
}

/// The transactions that the rows of a table describe, in the order of the
/// rows. Rows that describe none are passed over.
pub open spec fn transactions_of_table(
    headers: Seq<Seq<char>>,
    rows: Seq<Option<Seq<Seq<char>>>>,
) -> Seq<Transaction> {
    rows.filter_map(read_row(headers))
}

/// The transactions that tabular data describes, or `None` where its header
/// row cannot be read.
pub open spec fn transactions_of_data(data: Seq<u8>) -> Option<Seq<Transaction>> {
    match csv_table(data) {
        Some((headers, rows)) => Some(transactions_of_table(headers, rows)),
        None => None,
    }
}

/// The accounts as values.
pub open spec fn account_views(accounts: Seq<Account>) -> Seq<AccountView> {
    Seq::new(accounts.len(), |i: int| accounts[i]@)
}

/// The account that the transactions of `client` in `input` lead to, or
/// `None` where a balance on the way cannot be represented.
pub open spec fn account_of(input: Seq<Transaction>, client: u16) -> Option<AccountView> {
    AccountView::empty(client).replay(input.filter(of_client(client)))
}

/// Some account is of `client`.
pub open spec fn has_account(accounts: Seq<AccountView>, client: u16) -> bool {
    exists|i: int| 0 <= i < accounts.len() && (#[trigger] accounts[i]).client == client
}

/// `accounts` holds the final state of every client of `input`: one account
/// for each client that occurs, clients ascending, each the result of
/// replaying the transactions of its client in the order of `input`.
pub open spec fn is_snapshot(input: Seq<Transaction>, accounts: Seq<AccountView>) -> bool {
    &&& forall|i: int, j: int|
        0 <= i < j < accounts.len() ==> accounts[i].client < accounts[j].client
    &&& forall|i: int|
        0 <= i < accounts.len() ==> Some(#[trigger] accounts[i]) == account_of(
            input,
            accounts[i].client,
        )
    &&& forall|i: int|
        0 <= i < accounts.len() ==> input.filter(of_client((#[trigger] accounts[i]).client)).len()
            > 0
    &&& forall|k: int| 0 <= k < input.len() ==> has_account(accounts, (#[trigger] input[k]).client)
}

/// Reads the table with a `csv::Reader` that trims all fields: the header row
/// from `headers`, the other rows from `records`. A row for which the reader
/// returns an error becomes `None`; an error on the header row is returned.
#[verifier::external_body]
fn read_table(data: &[u8]) -> (table: Result<(Vec<String>, Vec<Option<Vec<String>>>), csv::Error>)
    ensures
        table_view(table) == csv_table(data@),
{
    let mut reader = csv::ReaderBuilder::new().trim(csv::Trim::All).from_reader(data);
    let headers = reader.headers()?.iter().map(String::from).collect();
    let rows = reader.records().map(
        |row| match row {
            Ok(record) => Some(record.iter().map(String::from).collect()),
            Err(_) => None,
        },
    ).collect();
    Ok((headers, rows))
}

/// Reads the transactions that the rows describe.
pub fn transactions_from_rows(headers: &Vec<String>, rows: &Vec<Option<Vec<String>>>) -> (found:
    Vec<Transaction>)
    ensures
        found@ == transactions_of_table(headers.deep_view(), rows.deep_view()),
{
    let ghost all = rows.deep_view();
    let ghost reader = read_row(headers.deep_view());
    let mut found: Vec<Transaction> = Vec::new();
    let mut i: usize = 0;
    while i < rows.len()
        invariant
            all == rows.deep_view(),
            reader == read_row(headers.deep_view()),
            i <= rows.len(),
            found@ == all.take(i as int).filter_map(reader),
        decreases rows.len() - i,
    {
        proof {
            all.lemma_filter_map_take_succ(reader, i as int);
            assert(all[i as int] == rows[i as int].deep_view());
        }
        if let Some(record) = &rows[i] {
            if let Some(transaction) = Transaction::from_record(headers, record) {
                found.push(transaction);
            }
        }
        i += 1;
    }
    proof {
        assert(all.take(i as int) =~= all);
    }
    found
}

impl TransactionSet {
    /// Reads tabular data into one series of transactions per client, clients
    /// ascending, each series in the order of the rows.
    pub fn transaction_sets_from_csv_data(data: &[u8]) -> (sets: Result<
        Vec<TransactionSet>,
        BatchError,
    >)
        ensures
            match transactions_of_data(data@) {
                Some(input) => sets matches Ok(series) && is_grouping(input, views(series@)),
                None => sets matches Err(BatchError::Header(_)),
            },
    {
        match read_table(data) {
            Ok((headers, rows)) => {
                let transactions = transactions_from_rows(&headers, &rows);
                Ok(group_by_client(transactions))
            },
            Err(error) => Err(BatchError::Header(error)),
        }
    }
}

/// Replaying transactions leaves the client of the account as it is.
pub proof fn lemma_replay_keeps_client(account: AccountView, transactions: Seq<Transaction>)
    ensures
        account.replay(transactions) matches Some(after) ==> after.client == account.client,
    decreases transactions.len(),
{
    if transactions.len() > 0 {
        lemma_replay_keeps_client(account, transactions.drop_last());
    }
}

impl Account {
    /// Reads tabular data and replays it: the result holds the final state of
    /// every client that occurs, clients ascending. Where a balance of a
    /// client cannot be represented, the error names the first such client.
    pub fn accounts_state_from_csv_data(data: &[u8]) -> (accounts: Result<Vec<Account>, BatchError>)
        ensures
            match transactions_of_data(data@) {
                Some(input) => {
                    match accounts {
                        Ok(list) => {
                            &&& is_snapshot(input, account_views(list@))
                            &&& forall|i: int| 0 <= i < list.len() ==> (#[trigger] list[i]).wf()
                        },
                        Err(BatchError::Overflow(client)) => {
                            &&& account_of(input, client) is None
                            &&& exists|k: int|
                                0 <= k < input.len() && (#[trigger] input[k]).client == client
                            &&& forall|k: int|
                                0 <= k < input.len() && (#[trigger] input[k]).client < client
                                    ==> account_of(input, input[k].client) is Some
                        },
                        Err(BatchError::Header(_)) => false,
                    }
                },
                None => accounts matches Err(BatchError::Header(_)),
            },
    {
        let sets = match TransactionSet::transaction_sets_from_csv_data(data) {
            Ok(sets) => sets,
            Err(error) => {
                return Err(error);
            },
        };
        let ghost input = transactions_of_data(data@)->0;
        let ghost groups = views(sets@);
        let mut accounts: Vec<Account> = Vec::new();
        for transaction_set in it: sets
            invariant
                transactions_of_data(data@) == Some(input),
                is_grouping(input, groups),
                it.seq().len() == groups.len(),
                forall|i: int| 0 <= i < groups.len() ==> (#[trigger] it.seq()[i])@ == groups[i],
                accounts.len() == it.index(),
                forall|i: int|
                    0 <= i < accounts.len() ==> (#[trigger] accounts[i]).wf() && Some(
                        accounts[i]@,
                    ) == account_of(input, groups[i].client),
        {
            let ghost n = accounts.len() as int;
            assert(transaction_set@ == groups[n]);
            let client = transaction_set.client;
            match Account::try_from_transaction_set(transaction_set) {
                Some(account) => {
                    accounts.push(account);
                },
                None => {
                    proof {
                        lemma_client_occurs(input, client);
                        assert forall|k: int|
                            0 <= k < input.len() && (#[trigger] input[k]).client
                                < client implies account_of(input, input[k].client) is Some by {
                            let i = choose|i: int|
                                0 <= i < groups.len() && (#[trigger] groups[i]).client
                                    == input[k].client;
                            assert(i < n);
                            assert(Some(accounts[i]@) == account_of(input, groups[i].client));
                        }
                    }
                    return Err(BatchError::Overflow(client));
                },
            }
        }
        proof {
            let list = account_views(accounts@);
            assert forall|i: int| 0 <= i < list.len() implies (#[trigger] list[i]).client
                == groups[i].client by {
                lemma_replay_keeps_client(
                    AccountView::empty(groups[i].client),
                    input.filter(of_client(groups[i].client)),
                );
                assert(Some(accounts[i]@) == account_of(input, groups[i].client));
            }
            assert forall|k: int| 0 <= k < input.len() implies has_account(
                list,
                (#[trigger] input[k]).client,
            ) by {
                let i = choose|i: int|
                    0 <= i < groups.len() && (#[trigger] groups[i]).client == input[k].client;
                assert(list[i].client == input[k].client);
            }
            assert forall|i: int| 0 <= i < list.len() implies Some(#[trigger] list[i])
                == account_of(input, list[i].client) && input.filter(
                of_client(list[i].client),
            ).len() > 0 by {
                assert(Some(accounts[i]@) == account_of(input, groups[i].client));
                assert(groups[i].transactions.len() > 0);
            }
        }
        Ok(accounts)
    }
}

} // verus!
