//! A payments engine: it applies deposits, withdrawals, disputes, resolves and
//! chargebacks to the accounts of clients, one record after another, and
//! reports the accounts.
//!
//! The account of a client is a state machine, [`client::Client`], whose rules
//! are the functions of [`client::ClientView`]. [`tx::Tx`] reads a record and
//! routes it to the account of its client, and [`engine::Engine`] runs the
//! records of a file and reports. Amounts are kept in minor units, the
//! ten-thousandths of a unit; [`amount::Amount`] reads and writes them.

pub mod amount;
pub mod client;
pub mod engine;
pub mod error;
pub mod field;
pub mod laws;
pub mod numeral;
pub mod tx;

pub use amount::Amount;
pub use client::{Client, ClientRecord, Deposit, DepositState};
pub use engine::{Engine, RowError};
pub use error::{Balance, Field, TxError};
pub use tx::{Record, Tx, TxKind, TxType};
