//! A transaction replay engine: folds an ordered stream of deposits,
//! withdrawals, disputes, resolutions and chargebacks into one balance
//! snapshot per client.

pub mod account;
pub mod amount;
pub mod balances;
pub mod batch;
pub mod grouping;
pub mod history;
pub mod laws;
pub mod ledger;
pub mod record;
pub mod source;
pub mod text;
pub mod transaction;

pub use account::Account;
pub use amount::Amount;
pub use balances::Balances;
pub use transaction::{Transaction, TransactionSet, TransactionType};
