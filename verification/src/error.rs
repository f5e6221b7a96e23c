//! What can go wrong with a record.

use vstd::prelude::*;
use vstd::string::*;
use crate::amount::{amount_text, Amount};
use crate::client::DepositState;
use crate::numeral::{decimal_text, push_decimal};

verus! {

/// The part of a record that could not be read.
#[derive(Clone, Copy, PartialEq, Eq, Structural, Debug)]
pub enum Field {
    /// The row as a whole.
    Row,
    /// The transaction type.
    Type,
    /// The client id.
    Client,
    /// The transaction id.
    Tx,
}

/// The balance that fell short.
#[derive(Clone, Copy, PartialEq, Eq, Structural, Debug)]
pub enum Balance {
    Available,
    Total,
}

/// Why a record was not applied.
#[derive(Clone, Copy, PartialEq, Eq, Structural, Debug)]
pub enum TxError {
    /// The record, or one of its fields, is malformed.
    ParseError(Field),
    /// The amount is no decimal number, or is beyond what an account can hold.
    InvalidAmount,
    /// The amount is below zero.
    NegativeAmount,
    /// The deposit would take the account's total beyond what it can hold.
    BalanceOverflow { client: u16 },
    /// The account holds less than the operation needs.
    InsufficientFunds { client: u16, balance: Balance, needed: u64, present: u64 },
    /// The account is locked.
    AccountLocked { client: u16 },
    /// The client has never made a deposit.
    AccountNotFound { client: u16 },
    /// The account has no deposit under this transaction id.
    DepositNotFound { tx: u32 },
    /// The deposit is in state `actual`, and the operation needs it in state `expected`.
    InvalidDepositState { actual: DepositState, expected: DepositState },
}

impl Field {
    /// What is wrong with the field, in words.
    pub open spec fn text(self) -> Seq<char> {
        match self {
            Field::Row => "Malformed row"@,
            Field::Type => "Unknown transaction type"@,
            Field::Client => "Invalid client id"@,
            Field::Tx => "Invalid transaction id"@,
        }
    }

    /// What is wrong with the field, in words.
    pub fn describe(&self) -> (s: &'static str)
        ensures
            s@ == self.text(),
    {
        match self {
            Field::Row => "Malformed row",
            Field::Type => "Unknown transaction type",
            Field::Client => "Invalid client id",
            Field::Tx => "Invalid transaction id",
        }
    }
}

impl Balance {
    /// How the balance is named in the message of an account that is short.
    pub open spec fn text(self) -> Seq<char> {
        match self {
            Balance::Available => "available"@,
            Balance::Total => "in total"@,
        }
    }

    /// How the balance is named in the message of an account that is short.
    pub fn describe(&self) -> (s: &'static str)
        ensures
            s@ == self.text(),
    {
        match self {
            Balance::Available => "available",
            Balance::Total => "in total",
        }
    }
}

/// The start of a message about the account of `client`.
pub open spec fn account_text(client: u16) -> Seq<char> {
    "Account "@ + decimal_text(client as nat)
}

impl TxError {
    /// The error in words.
    pub open spec fn text(self) -> Seq<char> {
        match self {
            TxError::ParseError(field) => field.text(),
            TxError::InvalidAmount => "Invalid amount"@,
            TxError::NegativeAmount => "Negative amount"@,
            TxError::BalanceOverflow { client } => account_text(client) + ": Balance overflow"@,
            TxError::InsufficientFunds { client, balance, needed, present } => account_text(client)
                + ": Not enough funds "@ + balance.text() + ": "@ + amount_text(needed as nat)
                + " > "@ + amount_text(present as nat),
            TxError::AccountLocked { client } => account_text(client) + " is locked"@,
            TxError::AccountNotFound { client } => account_text(client) + " not found"@,
            TxError::DepositNotFound { tx } => "Deposit not found "@ + decimal_text(tx as nat),
            TxError::InvalidDepositState { actual, expected } => "Deposit in state "@
                + actual.name_text() + " != "@ + expected.name_text(),
        }
    }

    /// The error in words.
    pub fn to_string(&self) -> (s: String)
        ensures
            s@ == self.text(),
    {
        let mut s = String::new();
        match *self {
            TxError::ParseError(field) => {
                s.append(field.describe());
            },
            TxError::InvalidAmount => {
                s.append("Invalid amount");
            },
            TxError::NegativeAmount => {
                s.append("Negative amount");
            },
            TxError::BalanceOverflow { client } => {
                push_account(&mut s, client);
                s.append(": Balance overflow");
            },
            TxError::InsufficientFunds { client, balance, needed, present } => {
                push_account(&mut s, client);
                s.append(": Not enough funds ");
                s.append(balance.describe());
                s.append(": ");
                s.append(Amount::format(needed).as_str());
                s.append(" > ");
                s.append(Amount::format(present).as_str());
            },
            TxError::AccountLocked { client } => {
                push_account(&mut s, client);
                s.append(" is locked");
            },
            TxError::AccountNotFound { client } => {
                push_account(&mut s, client);
                s.append(" not found");
            },
            TxError::DepositNotFound { tx } => {
                s.append("Deposit not found ");
                push_decimal(&mut s, tx as u64);
            },
            TxError::InvalidDepositState { actual, expected } => {
                s.append("Deposit in state ");
                s.append(actual.name());
                s.append(" != ");
                s.append(expected.name());
            },
        }
        assert(s@ =~= self.text());
        s
    }
}

/// Appends the start of a message about the account of `client`.
fn push_account(s: &mut String, client: u16)
    ensures
        final(s)@ == old(s)@ + account_text(client),
{
    s.append("Account ");
    push_decimal(s, client as u64);
    assert(final(s)@ =~= old(s)@ + account_text(client));
}

} // verus!
