//! Transactions: how a record's fields are read as one, and how one is applied
//! to the accounts.

use vstd::prelude::*;
use vstd::string::*;
use std::collections::HashMap;
use crate::amount::{parsed, spec_parse, Amount, AmountView};
use crate::client::{Client, ClientView};
use crate::error::{TxError, Field};
use crate::field::{chars_of, id_value, read_id, spells, trim, trimmed};

verus! {

/// The five things a record can ask for.
#[derive(Clone, Copy, PartialEq, Eq, Structural, Debug)]
pub enum TxKind {
    Deposit,
    Withdrawal,
    Dispute,
    Resolve,
    Chargeback,
}

impl TxKind {
    /// The name of the kind in messages.
    pub open spec fn name_text(self) -> Seq<char> {
        match self {
            TxKind::Deposit => "Deposit"@,
            TxKind::Withdrawal => "Withdrawal"@,
            TxKind::Dispute => "Dispute"@,
            TxKind::Resolve => "Resolve"@,
            TxKind::Chargeback => "Chargeback"@,
        }
    }

    /// The name of the kind in messages.
    pub fn name(&self) -> (name: &'static str)
        ensures
            name@ == self.name_text(),
    {
        match self {
            TxKind::Deposit => "Deposit",
            TxKind::Withdrawal => "Withdrawal",
            TxKind::Dispute => "Dispute",
            TxKind::Resolve => "Resolve",
            TxKind::Chargeback => "Chargeback",
        }
    }
}

/// What a transaction asks for, with the amount where it has one.
#[derive(Debug)]
pub enum TxType {
    Deposit { amount: Amount },
    Withdrawal { amount: Amount },
    Dispute,
    Resolve,
    Chargeback,
}

/// What a transaction asks for, with the amount as a number.
pub enum TxTypeView {
    Deposit { amount: AmountView },
    Withdrawal { amount: AmountView },
    Dispute,
    Resolve,
    Chargeback,
}

impl View for TxType {
    type V = TxTypeView;

    open spec fn view(&self) -> TxTypeView {
        match *self {
            TxType::Deposit { amount } => TxTypeView::Deposit { amount: amount@ },
            TxType::Withdrawal { amount } => TxTypeView::Withdrawal { amount: amount@ },
            TxType::Dispute => TxTypeView::Dispute,
            TxType::Resolve => TxTypeView::Resolve,
            TxType::Chargeback => TxTypeView::Chargeback,
        }
    }
}

impl Clone for TxType {
    fn clone(&self) -> (r: TxType)
        ensures
            r@ == self@,
    {
        match self {
            TxType::Deposit { amount } => TxType::Deposit { amount: amount.clone() },
            TxType::Withdrawal { amount } => TxType::Withdrawal { amount: amount.clone() },
            TxType::Dispute => TxType::Dispute,
            TxType::Resolve => TxType::Resolve,
            TxType::Chargeback => TxType::Chargeback,
        }
    }
}

impl TxTypeView {
    /// Which of the five this is.
    pub open spec fn kind(self) -> TxKind {
        match self {
            TxTypeView::Deposit { .. } => TxKind::Deposit,
            TxTypeView::Withdrawal { .. } => TxKind::Withdrawal,
            TxTypeView::Dispute => TxKind::Dispute,
            TxTypeView::Resolve => TxKind::Resolve,
            TxTypeView::Chargeback => TxKind::Chargeback,
        }
    }
}

impl TxType {
    /// Which of the five this is.
    pub fn kind(&self) -> (kind: TxKind)
        ensures
            kind == self@.kind(),
    {
        match self {
            TxType::Deposit { .. } => TxKind::Deposit,
            TxType::Withdrawal { .. } => TxKind::Withdrawal,
            TxType::Dispute => TxKind::Dispute,
            TxType::Resolve => TxKind::Resolve,
            TxType::Chargeback => TxKind::Chargeback,
        }
    }
}

/// One transaction of one client.
#[derive(Debug)]
pub struct Tx {
    pub tx_type: TxType,
    pub client_id: u16,
    pub tx_id: u32,
}

/// One transaction of one client, with the amount as a number.
pub struct TxView {
    pub tx_type: TxTypeView,
    pub client_id: u16,
    pub tx_id: u32,
}

impl View for Tx {
    type V = TxView;

    open spec fn view(&self) -> TxView {
        TxView { tx_type: self.tx_type@, client_id: self.client_id, tx_id: self.tx_id }
    }
}

impl Clone for Tx {
    fn clone(&self) -> (r: Tx)
        ensures
            r@ == self@,
    {
        Tx { tx_type: self.tx_type.clone(), client_id: self.client_id, tx_id: self.tx_id }
    }
}

/// The four fields of a record, as text.
#[derive(Debug)]
pub struct Record {
    pub tx_type: String,
    pub client: String,
    pub tx: String,
    /// Empty where the record has no amount.
    pub amount: String,
}

/// The four fields of a record, as characters.
pub struct RecordView {
    pub tx_type: Seq<char>,
    pub client: Seq<char>,
    pub tx: Seq<char>,
    pub amount: Seq<char>,
}

impl View for Record {
    type V = RecordView;

    open spec fn view(&self) -> RecordView {
        RecordView {
            tx_type: self.tx_type@,
            client: self.client@,
            tx: self.tx@,
            amount: self.amount@,
        }
    }
}

impl Clone for Record {
    fn clone(&self) -> (r: Record)
        ensures
            r@ == self@,
    {
        Record {
            tx_type: self.tx_type.clone(),
            client: self.client.clone(),
            tx: self.tx.clone(),
            amount: self.amount.clone(),
        }
    }
}

/// The kind that a word names.
pub open spec fn kind_named(word: Seq<char>) -> Option<TxKind> {
    if word == "deposit"@ {
        Some(TxKind::Deposit)
    } else if word == "withdrawal"@ {
        Some(TxKind::Withdrawal)
    } else if word == "dispute"@ {
        Some(TxKind::Dispute)
    } else if word == "resolve"@ {
        Some(TxKind::Resolve)
    } else if word == "chargeback"@ {
        Some(TxKind::Chargeback)
    } else {
        None
    }
}

/// What the type of a transaction of kind `kind` is, the amount being written
/// in `amount`: a deposit and a withdrawal need an amount that can be read,
/// the others pay no heed to it.
pub open spec fn type_read(kind: TxKind, amount: Seq<char>) -> Result<TxTypeView, TxError> {
    match kind {
        TxKind::Deposit => match spec_parse(amount) {
            Ok(amount) => Ok(TxTypeView::Deposit { amount }),
            Err(e) => Err(e),
        },
        TxKind::Withdrawal => match spec_parse(amount) {
            Ok(amount) => Ok(TxTypeView::Withdrawal { amount }),
            Err(e) => Err(e),
        },
        TxKind::Dispute => Ok(TxTypeView::Dispute),
        TxKind::Resolve => Ok(TxTypeView::Resolve),
        TxKind::Chargeback => Ok(TxTypeView::Chargeback),
    }
}

/// The transaction that a record holds. Each field is read without the blanks
/// around it: the type is one of five words, the client id a number of 16
/// bits, the transaction id one of 32 bits. The first field that cannot be
/// read decides the error.
pub open spec fn decoded(record: RecordView) -> Result<TxView, TxError> {
    match kind_named(trimmed(record.tx_type)) {
        None => Err(TxError::ParseError(Field::Type)),
        Some(kind) => match id_value(trimmed(record.client), 0xffff) {
            None => Err(TxError::ParseError(Field::Client)),
            Some(client) => match id_value(trimmed(record.tx), 0xffff_ffff) {
                None => Err(TxError::ParseError(Field::Tx)),
                Some(tx) => match type_read(kind, trimmed(record.amount)) {
                    Err(e) => Err(e),
                    Ok(tx_type) => Ok(
                        TxView { tx_type, client_id: client as u16, tx_id: tx as u32 },
                    ),
                },
            },
        },
    }
}

/// The outcome of reading a transaction, with the transaction taken by its view.
pub open spec fn decoding(r: Result<Tx, TxError>) -> Result<TxView, TxError> {
    match r {
        Ok(tx) => Ok(tx@),
        Err(e) => Err(e),
    }
}

/// The accounts, each taken by its view.
pub open spec fn accounts(clients: Map<u16, Client>) -> Map<u16, ClientView> {
    clients.map_values(|client: Client| client@)
}

/// Every account is in a state that accounts can be in.
pub open spec fn accounts_wf(clients: Map<u16, Client>) -> bool {
    forall|id: u16| clients.contains_key(id) ==> (#[trigger] clients[id]).wf()
}

/// What an operation on the account of `id` leaves of the accounts: the
/// account after it where it succeeds, the accounts as they were where it
/// fails.
pub open spec fn settled(
    ledger: Map<u16, ClientView>,
    id: u16,
    step: Result<ClientView, TxError>,
) -> (Map<u16, ClientView>, Result<(), TxError>) {
    match step {
        Ok(next) => (ledger.insert(id, next), Ok(())),
        Err(e) => (ledger, Err(e)),
    }
}

/// The accounts after a transaction, and how it ended. A deposit opens the
/// client's account where there is none, and the account stays even where the
/// deposit is refused. Anything else needs the account to be there.
pub open spec fn ledger_apply(ledger: Map<u16, ClientView>, tx: TxView) -> (
    Map<u16, ClientView>,
    Result<(), TxError>,
) {
    let id = tx.client_id;
    match tx.tx_type {
        TxTypeView::Deposit { amount } => {
            let opened = if ledger.contains_key(id) {
                ledger
            } else {
                ledger.insert(id, ClientView::create(id))
            };
            settled(opened, id, opened[id].deposit(tx.tx_id, amount))
        },
        _ => if !ledger.contains_key(id) {
            (ledger, Err(TxError::AccountNotFound { client: id }))
        } else {
            settled(
                ledger,
                id,
                match tx.tx_type {
                    TxTypeView::Withdrawal { amount } => ledger[id].withdraw(amount),
                    TxTypeView::Dispute => ledger[id].dispute(tx.tx_id),
                    TxTypeView::Resolve => ledger[id].resolve(tx.tx_id),
                    _ => ledger[id].chargeback(tx.tx_id),
                },
            )
        },
    }
}

/// The kind that the characters from `start` to `end` name.
fn read_kind(chars: &Vec<char>, start: usize, end: usize) -> (r: Option<TxKind>)
    requires
        start <= end <= chars.len(),
    ensures
        r == kind_named(chars@.subrange(start as int, end as int)),
{
    if spells(chars, start, end, "deposit") {
        Some(TxKind::Deposit)
    } else if spells(chars, start, end, "withdrawal") {
        Some(TxKind::Withdrawal)
    } else if spells(chars, start, end, "dispute") {
        Some(TxKind::Dispute)
    } else if spells(chars, start, end, "resolve") {
        Some(TxKind::Resolve)
    } else if spells(chars, start, end, "chargeback") {
        Some(TxKind::Chargeback)
    } else {
        None
    }
}

/// The kind that a field names, the blanks around it left out.
fn kind_field(text: &str) -> (r: Option<TxKind>)
    ensures
        r == kind_named(trimmed(text@)),
{
    let chars = chars_of(text);
    let (start, end) = trim(&chars);
    read_kind(&chars, start, end)
}

/// The id that a field holds, the blanks around it left out.
fn id_field(text: &str, max: u32) -> (r: Option<u32>)
    ensures
        match r {
            Some(v) => id_value(trimmed(text@), max as nat) == Some(v as nat),
            None => id_value(trimmed(text@), max as nat).is_none(),
        },
{
    let chars = chars_of(text);
    let (start, end) = trim(&chars);
    read_id(&chars, start, end, max)
}

/// The amount that a field holds, the blanks around it left out.
fn amount_field(text: &str) -> (r: Result<Amount, TxError>)
    ensures
        parsed(r) == spec_parse(trimmed(text@)),
{
    let chars = chars_of(text);
    let (start, end) = trim(&chars);
    Amount::parse(text.substring_char(start, end))
}

impl Tx {
    /// Reads the transaction that a record holds.
    pub fn decode(record: &Record) -> (r: Result<Tx, TxError>)
        ensures
            decoding(r) == decoded(record@),
    {
        let kind = match kind_field(record.tx_type.as_str()) {
            Some(kind) => kind,
            None => {
                return Err(TxError::ParseError(Field::Type));
            },
        };
        let client_id: u16 = match id_field(record.client.as_str(), 0xffff) {
            Some(id) => id as u16,
            None => {
                return Err(TxError::ParseError(Field::Client));
            },
        };
        let tx_id: u32 = match id_field(record.tx.as_str(), 0xffff_ffff) {
            Some(id) => id,
            None => {
                return Err(TxError::ParseError(Field::Tx));
            },
        };
        let tx_type = match kind {
            TxKind::Deposit => match amount_field(record.amount.as_str()) {
                Ok(amount) => TxType::Deposit { amount },
                Err(e) => {
                    return Err(e);
                },
            },
            TxKind::Withdrawal => match amount_field(record.amount.as_str()) {
                Ok(amount) => TxType::Withdrawal { amount },
                Err(e) => {
                    return Err(e);
                },
            },
            TxKind::Dispute => TxType::Dispute,
            TxKind::Resolve => TxType::Resolve,
            TxKind::Chargeback => TxType::Chargeback,
        };
        Ok(Tx { tx_type, client_id, tx_id })
    }

    /// Applies the transaction to the account of its client. A deposit opens
    /// the account where the client has none; anything else fails where the
    /// client has none. The accounts of other clients stay as they are.
    pub fn process(&self, clients: &mut HashMap<u16, Client>) -> (r: Result<(), TxError>)
        requires
            accounts_wf(old(clients)@),
        ensures
            accounts_wf(final(clients)@),
            (accounts(final(clients)@), r) == ledger_apply(accounts(old(clients)@), self@),
    {
        let id: u16 = self.client_id;
        let ghost before = accounts(clients@);
        let known: bool = clients.contains_key(&id);
        match &self.tx_type {
            TxType::Deposit { .. } => {},
            _ => {
                if !known {
                    assert(accounts(clients@) =~= before);
                    return Err(TxError::AccountNotFound { client: id });
                }
            },
        }
        let ghost opened = if known {
            before
        } else {
            before.insert(id, ClientView::create(id))
        };
        let client: &mut Client = clients.entry(id).or_insert(Client::create(id));
        assert(client@ == opened[id]);
        let r = match &self.tx_type {
            TxType::Deposit { amount } => client.deposit(self.tx_id, amount.clone()),
            TxType::Withdrawal { amount } => client.withdraw(amount.clone()),
            TxType::Dispute => client.dispute(&self.tx_id),
            TxType::Resolve => client.resolve(&self.tx_id),
            TxType::Chargeback => client.chargeback(&self.tx_id),
        };
        proof {
            let after = accounts(clients@);
            let expected = ledger_apply(before, self@);
            assert(after =~= expected.0);
        }
        r
    }
}

} // verus!
