//! Reading transactions from tabular records.
//!
//! A record is a row of text fields. The header row names the columns, in any
//! order: `type`, `client`, `tx` and `amount`. A record that lacks a field it
//! needs, or holds one that cannot be read, yields no transaction.

use crate::amount::Amount;
use crate::text::{parse_u16, parse_u32, text_is, unsigned_from_text};
use crate::transaction::{Transaction, TransactionType};
use vstd::prelude::*;

verus! {

/// The first column at or after `start` that is named `name`.
pub open spec fn column_from(headers: Seq<Seq<char>>, name: Seq<char>, start: int) -> Option<int>
    decreases headers.len() - start,
{
    if start < 0 || start >= headers.len() {
        None
    } else if headers[start] == name {
        Some(start)
    } else {
        column_from(headers, name, start + 1)
    }
}

/// The first column that is named `name`.
pub open spec fn column(headers: Seq<Seq<char>>, name: Seq<char>) -> Option<int> {
    column_from(headers, name, 0)
}

/// The field of `record` in the first column named `name`, if there is such a
/// column and the record reaches it.
pub open spec fn field(headers: Seq<Seq<char>>, record: Seq<Seq<char>>, name: Seq<char>) -> Option<
    Seq<char>,
> {
    match column(headers, name) {
        Some(index) => if index < record.len() {
            Some(record[index])
        } else {
            None
        },
        None => None,
    }
}

/// The amount of a record: its `amount` field read as a decimal.
pub open spec fn amount_of_record(headers: Seq<Seq<char>>, record: Seq<Seq<char>>) -> Option<
    Amount,
> {
    match field(headers, record, "amount"@) {
        Some(text) => Amount::from_text_spec(text),
        None => None,
    }
}

/// The kind of transaction that a record describes, or why it describes none.
pub open spec fn kind_of_record(headers: Seq<Seq<char>>, record: Seq<Seq<char>>) -> Result<
    TransactionType,
    Seq<char>,
> {
    match field(headers, record, "type"@) {
        Some(indicator) => if indicator == "deposit"@ {
            match amount_of_record(headers, record) {
                Some(amount) => Ok(TransactionType::Deposit(amount)),
                None => Err("Failed to parse deposit transaction amount."@),
            }
        } else if indicator == "withdraw"@ {
            match amount_of_record(headers, record) {
                Some(amount) => Ok(TransactionType::Withdraw(amount)),
                None => Err("Failed to parse withdraw transaction amount."@),
            }
        } else if indicator == "dispute"@ {
            Ok(TransactionType::Dispute)
        } else if indicator == "resolve"@ {
            Ok(TransactionType::Resolve)
        } else if indicator == "chargeback"@ {
            Ok(TransactionType::Chargeback)
        } else {
            Err("Unknown transaction type."@)
        },
        None => Err("Failed to parse transaction from provided data."@),
    }
}

/// The transaction that a record describes: its kind, and its `tx` and
/// `client` fields read as numbers. `None` where any of the three is missing
/// or cannot be read.
pub open spec fn transaction_of_record(
    headers: Seq<Seq<char>>,
    record: Seq<Seq<char>>,
) -> Option<Transaction> {
    match (
        kind_of_record(headers, record),
        field(headers, record, "tx"@),
        field(headers, record, "client"@),
    ) {
        (Ok(transaction_type), Some(tx), Some(client)) => match (
            unsigned_from_text(tx, u32::MAX as nat),
            unsigned_from_text(client, u16::MAX as nat),
        ) {
            (Some(tx), Some(client)) => Some(
                Transaction { transaction_type, tx: tx as u32, client: client as u16 },
            ),
            _ => None,
        },
        _ => None,
    }
}

/// Finds the field of `record` in the first column named `name`.
pub fn field_of<'a>(headers: &Vec<String>, record: &'a Vec<String>, name: &str) -> (found: Option<
    &'a String,
>)
    ensures
        match field(headers.deep_view(), record.deep_view(), name@) {
            Some(text) => found matches Some(s) && s@ == text,
            None => found is None,
        },
{
    let wanted = name.to_owned();
    let mut i: usize = 0;
    while i < headers.len()
        invariant
            wanted@ == name@,
            i <= headers.len(),
            column(headers.deep_view(), name@) == column_from(
                headers.deep_view(),
                name@,
                i as int,
            ),
        decreases headers.len() - i,
    {
        if headers[i] == wanted {
            if i < record.len() {
                return Some(&record[i]);
            } else {
                return None;
            }
        }
        i += 1;
    }
    None
}

impl TransactionType {
    /// Reads the amount of a record, if it holds one.
    pub fn amount_from_record(headers: &Vec<String>, record: &Vec<String>) -> (amount: Option<
        Amount,
    >)
        ensures
            amount == amount_of_record(headers.deep_view(), record.deep_view()),
    {
        match field_of(headers, record, "amount") {
            Some(value) => Amount::from_text(value.as_str()),
            None => None,
        }
    }

    /// Reads the kind of a transaction, with its amount where the kind has
    /// one, from a record. The error says what is wrong with the record.
    pub fn from_record(headers: &Vec<String>, record: &Vec<String>) -> (kind: Result<
        TransactionType,
        String,
    >)
        ensures
            match kind_of_record(headers.deep_view(), record.deep_view()) {
                Ok(transaction_type) => kind == Ok::<TransactionType, String>(transaction_type),
                Err(message) => kind matches Err(text) && text@ == message,
            },
    {
        match field_of(headers, record, "type") {
            Some(indicator) => {
                if text_is(indicator.as_str(), "deposit") {
                    match TransactionType::amount_from_record(headers, record) {
                        Some(decimal) => Ok(TransactionType::Deposit(decimal)),
                        None => Err("Failed to parse deposit transaction amount.".to_owned()),
                    }
                } else if text_is(indicator.as_str(), "withdraw") {
                    match TransactionType::amount_from_record(headers, record) {
                        Some(decimal) => Ok(TransactionType::Withdraw(decimal)),
                        None => Err("Failed to parse withdraw transaction amount.".to_owned()),
                    }
                } else if text_is(indicator.as_str(), "dispute") {
                    Ok(TransactionType::Dispute)
                } else if text_is(indicator.as_str(), "resolve") {
                    Ok(TransactionType::Resolve)
                } else if text_is(indicator.as_str(), "chargeback") {
                    Ok(TransactionType::Chargeback)
                } else {
                    Err("Unknown transaction type.".to_owned())
                }
            },
            None => Err("Failed to parse transaction from provided data.".to_owned()),
        }
    }
}

impl Transaction {
    /// Reads a transaction from a record: `None` where the record describes
    /// none.
    pub fn from_record(headers: &Vec<String>, record: &Vec<String>) -> (transaction: Option<
        Transaction,
    >)
        ensures
            transaction == transaction_of_record(headers.deep_view(), record.deep_view()),
    {
        let transaction_type = TransactionType::from_record(headers, record);
        let tx_opt = field_of(headers, record, "tx");
        let client_opt = field_of(headers, record, "client");
        match (transaction_type, tx_opt, client_opt) {
            (Ok(transaction_type), Some(tx), Some(client)) => {
                match (parse_u32(tx.as_str()), parse_u16(client.as_str())) {
                    (Some(tx), Some(client)) => Some(Transaction { transaction_type, tx, client }),
                    _ => None,
                }
            },
            _ => None,
        }
    }
}

} // verus!
