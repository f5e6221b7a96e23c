//! The run: records come in one by one, each is applied to the accounts or
//! set aside, and the accounts are reported at the end.

use vstd::prelude::*;
use vstd::string::*;
use std::collections::HashMap;
use vstd::std_specs::iter::IteratorSpec;
use crate::client::{Client, ClientRecord, ClientRecordView, ClientView};
use crate::laws::lemma_ledger_apply_wf;
use crate::error::{Field, TxError};
use crate::numeral::{decimal_text, push_decimal};
use crate::tx::{
    accounts, accounts_wf, decoded, ledger_apply, Record, Tx, TxKind, TxView,
};

verus! {

/// `csv::Error`, which stands for a row that the reader of the file could
/// not hand over. Nothing is claimed of what it holds.
#[verifier::external_type_specification]
#[verifier::external_body]
pub struct ExCsvError(csv::Error);

/// Why a row was set aside.
#[derive(Clone, Copy, PartialEq, Eq, Structural, Debug)]
pub enum RowError {
    /// The row could not be read as a transaction.
    Malformed(TxError),
    /// The transaction was read and then refused.
    Rejected { kind: TxKind, tx_id: u32, cause: TxError },
}

impl RowError {
    /// The reason in words: a refused transaction is named by its kind and id.
    pub open spec fn text(self) -> Seq<char> {
        match self {
            RowError::Malformed(e) => e.text(),
            RowError::Rejected { kind, tx_id, cause } => "Cannot process "@ + kind.name_text()
                + "("@ + decimal_text(tx_id as nat) + "); "@ + cause.text(),
        }
    }

    /// The reason in words.
    pub fn to_string(&self) -> (s: String)
        ensures
            s@ == self.text(),
    {
        match *self {
            RowError::Malformed(e) => e.to_string(),
            RowError::Rejected { kind, tx_id, cause } => {
                let mut s = String::new();
                s.append("Cannot process ");
                s.append(kind.name());
                s.append("(");
                push_decimal(&mut s, tx_id as u64);
                s.append("); ");
                s.append(cause.to_string().as_str());
                assert(s@ =~= self.text());
                s
            },
        }
    }
}

/// Every account is in a state that accounts can be in, and stands under
/// the id of its client.
pub open spec fn ledger_wf(ledger: Map<u16, ClientView>) -> bool {
    forall|id: u16|
        ledger.contains_key(id) ==> (#[trigger] ledger[id]).wf() && ledger[id].client_id == id
}

/// The transaction in a row: a row that did not come out of the file is
/// malformed as a whole, any other holds what its record holds.
pub open spec fn row_read(row: Result<Record, csv::Error>) -> Result<TxView, TxError> {
    match row {
        Ok(record) => decoded(record@),
        Err(_) => Err(TxError::ParseError(Field::Row)),
    }
}

/// The accounts after a row, and how the row ended. A row that cannot be
/// read leaves the accounts as they are.
pub open spec fn row_apply(ledger: Map<u16, ClientView>, row: Result<TxView, TxError>) -> (
    Map<u16, ClientView>,
    Result<(), RowError>,
) {
    match row {
        Err(e) => (ledger, Err(RowError::Malformed(e))),
        Ok(tx) => {
            let (next, r) = ledger_apply(ledger, tx);
            (
                next,
                match r {
                    Ok(_) => Ok(()),
                    Err(e) => Err(
                        RowError::Rejected { kind: tx.tx_type.kind(), tx_id: tx.tx_id, cause: e },
                    ),
                },
            )
        },
    }
}

/// The accounts after the rows, applied in their order.
pub open spec fn rows_apply(
    ledger: Map<u16, ClientView>,
    rows: Seq<Result<TxView, TxError>>,
) -> Map<u16, ClientView>
    decreases rows.len(),
{
    if rows.len() == 0 {
        ledger
    } else {
        row_apply(rows_apply(ledger, rows.drop_last()), rows.last()).0
    }
}

/// The transactions in the rows.
pub open spec fn rows_read(rows: Seq<Result<Record, csv::Error>>) -> Seq<Result<TxView, TxError>> {
    Seq::new(rows.len(), |i: int| row_read(rows[i]))
}

/// The rows report the accounts: there are as many rows as accounts, each
/// row is the record of an account, no client has two rows, and every account
/// has one. Nothing is said of their order.
pub open spec fn is_snapshot(rows: Seq<ClientRecordView>, ledger: Map<u16, ClientView>) -> bool {
    &&& rows.len() == ledger.dom().len()
    &&& forall|i: int|
        0 <= i < rows.len() ==> ledger.contains_key((#[trigger] rows[i]).client) && rows[i]
            == ledger[rows[i].client].record()
    &&& forall|i: int, j: int|
        0 <= i < j < rows.len() ==> (#[trigger] rows[i]).client != (#[trigger] rows[j]).client
    &&& forall|id: u16|
        ledger.contains_key(id) ==> exists|i: int|
            0 <= i < rows.len() && (#[trigger] rows[i]).client == id
}

/// The rows, each taken by its view.
pub open spec fn records(rows: Seq<ClientRecord>) -> Seq<ClientRecordView> {
    Seq::new(rows.len(), |i: int| rows[i]@)
}

/// The accounts of a run.
pub struct Engine {
    clients: HashMap<u16, Client>,
}

impl View for Engine {
    type V = Map<u16, ClientView>;

    closed spec fn view(&self) -> Map<u16, ClientView> {
        accounts(self.clients@)
    }
}

impl Default for Engine {
    fn default() -> (r: Engine)
        ensures
            r.wf(),
            r@ == Map::<u16, ClientView>::empty(),
    {
        let r = Engine { clients: HashMap::new() };
        assert(r@ =~= Map::<u16, ClientView>::empty());
        r
    }
}

impl Engine {
    /// The accounts are in a state that they can be in.
    pub open spec fn wf(&self) -> bool {
        ledger_wf(self@)
    }

    /// The account of a client, where the client has one.
    pub fn client(&self, id: u16) -> (found: Option<&Client>)
        ensures
            match found {
                Some(client) => self@.contains_key(id) && client@ == self@[id],
                None => !self@.contains_key(id),
            },
    {
        self.clients.get(&id)
    }

    /// Applies one row. A row that cannot be read, or whose transaction is
    /// refused, is set aside with the reason; a row that cannot be read
    /// changes nothing.
    pub fn process_row(&mut self, row: &Result<Record, csv::Error>) -> (r: Result<(), RowError>)
        requires
            old(self).wf(),
        ensures
            final(self).wf(),
            (final(self)@, r) == row_apply(old(self)@, row_read(*row)),
    {
        let tx: Tx = match row {
            Ok(record) => match Tx::decode(record) {
                Ok(tx) => tx,
                Err(e) => {
                    return Err(RowError::Malformed(e));
                },
            },
            Err(_) => {
                return Err(RowError::Malformed(TxError::ParseError(Field::Row)));
            },
        };
        let kind = tx.tx_type.kind();
        let tx_id: u32 = tx.tx_id;
        proof {
            self.lemma_accounts_wf();
        }
        let r = match tx.process(&mut self.clients) {
            Ok(()) => Ok(()),
            Err(e) => Err(RowError::Rejected { kind, tx_id, cause: e }),
        };
        proof {
            lemma_ledger_apply_wf(old(self)@, tx@);
        }
        r
    }

    /// Applies the rows in their order. A row that is set aside does not
    /// stop the rows after it.
    pub fn process_rows(&mut self, rows: &Vec<Result<Record, csv::Error>>)
        requires
            old(self).wf(),
        ensures
            final(self).wf(),
            final(self)@ == rows_apply(old(self)@, rows_read(rows@)),
    {
        let ghost reads = rows_read(rows@);
        let mut i: usize = 0;
        assert(reads.take(0) =~= Seq::<Result<TxView, TxError>>::empty());
        while i < rows.len()
            invariant
                i <= rows.len(),
                reads == rows_read(rows@),
                self.wf(),
                self@ == rows_apply(old(self)@, reads.take(i as int)),
            decreases rows.len() - i,
        {
            let _ = self.process_row(&rows[i]);
            proof {
                assert(reads.take(i + 1).drop_last() =~= reads.take(i as int));
                assert(reads.take(i + 1).last() == row_read(rows@[i as int]));
            }
            i = i + 1;
        }
        assert(reads.take(rows.len() as int) =~= reads);
    }

    /// The accounts as they are reported, in no particular order.
    pub fn output(self) -> (rows: Vec<ClientRecord>)
        requires
            self.wf(),
        ensures
            is_snapshot(records(rows@), self@),
    {
        let mut rows: Vec<ClientRecord> = Vec::new();
        let ghost items = self.clients.iter().remaining();
        for entry in it: self.clients.iter()
            invariant
                self.wf(),
                it.seq() == items,
                items == self.clients.iter().remaining(),
                rows.len() == it.index(),
                forall|i: int|
                    0 <= i < rows.len() ==> (#[trigger] rows[i])@ == (*items[i].1)@.record(),
        {
            let (_, client) = entry;
            rows.push(client.record());
        }
        proof {
            let reported = records(rows@);
            let ledger = self@;
            assert(items.no_duplicates());
            assert(items.len() == self.clients@.dom().len());
            assert(ledger.dom() =~= self.clients@.dom());
            assert forall|i: int| 0 <= i < reported.len() implies ledger.contains_key(
                (#[trigger] reported[i]).client,
            ) && reported[i] == ledger[reported[i].client].record() && reported[i].client
                == *items[i].0 by {
                let id = *items[i].0;
                assert(self.clients@.contains_key(id));
                assert(self.clients@[id] == *items[i].1);
                assert(ledger[id].client_id == id);
            }
            assert forall|i: int, j: int| 0 <= i < j < reported.len() implies (
            #[trigger] reported[i]).client != (#[trigger] reported[j]).client by {
                if reported[i].client == reported[j].client {
                    assert(items[i] == items[j]);
                }
            }
            assert forall|id: u16| ledger.contains_key(id) implies exists|i: int|
                0 <= i < reported.len() && (#[trigger] reported[i]).client == id by {
                let pair = (&id, &self.clients@[id]);
                assert(items.contains(pair));
                let i = choose|i: int| 0 <= i < items.len() && items[i] == pair;
                assert(reported[i].client == id);
            }
        }
        rows
    }

    /// Applies the rows and reports the accounts.
    pub fn run(self, rows: Vec<Result<Record, csv::Error>>) -> (report: Vec<ClientRecord>)
        requires
            self.wf(),
        ensures
            is_snapshot(records(report@), rows_apply(self@, rows_read(rows@))),
    {
        let mut engine = self;
        engine.process_rows(&rows);
        engine.output()
    }

    proof fn lemma_accounts_wf(&self)
        requires
            self.wf(),
        ensures
            accounts_wf(self.clients@),
    {
        assert forall|id: u16| self.clients@.contains_key(id) implies (
        #[trigger] self.clients@[id]).wf() by {
            assert(self@[id].wf());
        }
    }
}

} // verus!
