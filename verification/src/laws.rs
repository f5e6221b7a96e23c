//! What holds of accounts and of runs, whatever the records: each statement
//! is proved of the rules in [`crate::client::ClientView`], of
//! [`crate::tx::ledger_apply`] and of [`crate::engine::rows_apply`], which the
//! executable code is held to.

use vstd::prelude::*;
use crate::amount::AmountView;
use crate::client::{
    lemma_disputed_is_held, lemma_disputed_total_insert, lemma_nothing_disputed, ClientView,
    Deposit, DepositState,
};
use crate::engine::{ledger_wf, rows_apply};
use crate::error::TxError;
use crate::tx::{ledger_apply, TxTypeView, TxView};

verus! {

/// The step, where it succeeds, leaves the account in a state that accounts can
/// be in (see [`ClientView::wf`]), and with its client.
pub open spec fn keeps_wf(v: ClientView, step: Result<ClientView, TxError>) -> bool {
    step matches Ok(next) ==> next.wf() && next.client_id == v.client_id
}

/// A new account is in a state that accounts can be in.
pub proof fn lemma_create_wf(client_id: u16)
    ensures
        ClientView::create(client_id).wf(),
{
    lemma_nothing_disputed(0x1_0000_0000);
}

/// Whatever is done to an account, it stays in a state that accounts can be
/// in: its total stays what is available and what is held together, neither
/// of them falls below zero, and what the disputed deposits keep held stays
/// held.
pub proof fn lemma_steps_keep_wf(v: ClientView, tx_id: u32, amount: AmountView)
    requires
        v.wf(),
    ensures
        keeps_wf(v, v.deposit(tx_id, amount)),
        keeps_wf(v, v.withdraw(amount)),
        keeps_wf(v, v.dispute(tx_id)),
        keeps_wf(v, v.resolve(tx_id)),
        keeps_wf(v, v.chargeback(tx_id)),
{
    lemma_disputed_is_held(v, tx_id);
    if amount.units() is Ok {
        lemma_disputed_total_insert(
            v.deposits,
            tx_id,
            Deposit { amount: amount.units()->Ok_0, state: DepositState::Normal },
        );
    }
    if v.deposits.contains_key(tx_id) {
        let amount = v.deposits[tx_id].amount;
        lemma_disputed_total_insert(
            v.deposits,
            tx_id,
            Deposit { amount, state: DepositState::Normal },
        );
        lemma_disputed_total_insert(
            v.deposits,
            tx_id,
            Deposit { amount, state: DepositState::Disputed },
        );
        lemma_disputed_total_insert(
            v.deposits,
            tx_id,
            Deposit { amount, state: DepositState::ChargedBack },
        );
    }
}

/// A deposit under dispute cannot be disputed again: the attempt fails on the
/// deposit's state, and so does the one after a dispute that succeeded.
pub proof fn lemma_second_dispute_fails(v: ClientView, tx_id: u32)
    ensures
        v.deposits.contains_key(tx_id) && v.deposits[tx_id].state != DepositState::Normal
            ==> v.dispute(tx_id) == Err::<ClientView, TxError>(
            TxError::InvalidDepositState {
                actual: v.deposits[tx_id].state,
                expected: DepositState::Normal,
            },
        ),
        v.dispute(tx_id) matches Ok(next) ==> next.dispute(tx_id) == Err::<ClientView, TxError>(
            TxError::InvalidDepositState {
                actual: DepositState::Disputed,
                expected: DepositState::Normal,
            },
        ),
{
}

/// After a chargeback nothing more happens to the deposit: a dispute and a
/// resolve fail on its state, and a second chargeback on the lock.
pub proof fn lemma_chargeback_is_final(v: ClientView, tx_id: u32)
    ensures
        v.chargeback(tx_id) matches Ok(next) ==> {
            &&& next.dispute(tx_id) == Err::<ClientView, TxError>(
                TxError::InvalidDepositState {
                    actual: DepositState::ChargedBack,
                    expected: DepositState::Normal,
                },
            )
            &&& next.resolve(tx_id) == Err::<ClientView, TxError>(
                TxError::InvalidDepositState {
                    actual: DepositState::ChargedBack,
                    expected: DepositState::Disputed,
                },
            )
            &&& next.chargeback(tx_id) == Err::<ClientView, TxError>(
                TxError::AccountLocked { client: v.client_id },
            )
        },
{
}

/// One step leads from the state `before` of a deposit to the state `after`:
/// a dispute, a resolve or a chargeback, or none.
pub open spec fn state_moves(before: DepositState, after: DepositState) -> bool {
    ||| after == before
    ||| before == DepositState::Normal && after == DepositState::Disputed
    ||| before == DepositState::Disputed && after == DepositState::Normal
    ||| before == DepositState::Disputed && after == DepositState::ChargedBack
}

/// `next` remembers every deposit that `v` remembers, with its amount, and in
/// a state that one step leads to.
pub open spec fn deposits_move(v: ClientView, next: ClientView) -> bool {
    forall|tx: u32| #[trigger]
        v.deposits.contains_key(tx) ==> next.deposits.contains_key(tx) && next.deposits[tx].amount
            == v.deposits[tx].amount && state_moves(v.deposits[tx].state, next.deposits[tx].state)
}

/// A withdrawal, a dispute, a resolve and a chargeback forget no deposit,
/// keep its amount, and move its state along the dispute only. A deposit that
/// was charged back stays so.
pub proof fn lemma_deposits_move(v: ClientView, tx_id: u32, amount: AmountView)
    ensures
        v.withdraw(amount) matches Ok(next) ==> deposits_move(v, next),
        v.dispute(tx_id) matches Ok(next) ==> deposits_move(v, next),
        v.resolve(tx_id) matches Ok(next) ==> deposits_move(v, next),
        v.chargeback(tx_id) matches Ok(next) ==> deposits_move(v, next),
{
}

/// The account with its lock set to `locked`.
pub open spec fn with_lock(v: ClientView, locked: bool) -> ClientView {
    ClientView { locked, ..v }
}

/// The outcome of a step, with the lock of the account it leads to set to
/// `locked`.
pub open spec fn relocked(step: Result<ClientView, TxError>, locked: bool) -> Result<
    ClientView,
    TxError,
> {
    match step {
        Ok(next) => Ok(with_lock(next, locked)),
        Err(e) => Err(e),
    }
}

/// A locked account refuses every withdrawal and every chargeback.
pub proof fn lemma_lock_refuses(v: ClientView, tx_id: u32, amount: AmountView)
    requires
        v.locked,
    ensures
        v.withdraw(amount) == Err::<ClientView, TxError>(
            TxError::AccountLocked { client: v.client_id },
        ),
        v.chargeback(tx_id) == Err::<ClientView, TxError>(
            TxError::AccountLocked { client: v.client_id },
        ),
{
}

/// Only a chargeback changes the lock, and no step opens it.
pub proof fn lemma_lock_stays(v: ClientView, tx_id: u32, amount: AmountView)
    ensures
        v.deposit(tx_id, amount) matches Ok(next) ==> next.locked == v.locked,
        v.withdraw(amount) matches Ok(next) ==> next.locked == v.locked,
        v.dispute(tx_id) matches Ok(next) ==> next.locked == v.locked,
        v.resolve(tx_id) matches Ok(next) ==> next.locked == v.locked,
        v.chargeback(tx_id) matches Ok(next) ==> !v.locked && next.locked,
{
}

/// A lock stands in the way of no deposit, dispute or resolve: each ends on a
/// locked account as it ends on the same account unlocked.
pub proof fn lemma_lock_does_not_block(v: ClientView, locked: bool, tx_id: u32, amount: AmountView)
    ensures
        with_lock(v, locked).deposit(tx_id, amount) == relocked(v.deposit(tx_id, amount), locked),
        with_lock(v, locked).dispute(tx_id) == relocked(v.dispute(tx_id), locked),
        with_lock(v, locked).resolve(tx_id) == relocked(v.resolve(tx_id), locked),
{
}

/// A resolve succeeds on every deposit under dispute, and a chargeback on
/// every one in an unlocked account: what the dispute holds is there.
pub proof fn lemma_dispute_can_end(v: ClientView, tx_id: u32)
    requires
        v.wf(),
        v.deposits.contains_key(tx_id),
        v.deposits[tx_id].state == DepositState::Disputed,
    ensures
        v.resolve(tx_id) is Ok,
        !v.locked ==> v.chargeback(tx_id) is Ok,
{
    lemma_disputed_is_held(v, tx_id);
}

/// A dispute, a resolve and a chargeback on a transaction id that the account
/// does not remember fail for that reason, the chargeback where no lock
/// stops it first.
pub proof fn lemma_unknown_deposit(v: ClientView, tx_id: u32)
    requires
        !v.deposits.contains_key(tx_id),
    ensures
        v.dispute(tx_id) == Err::<ClientView, TxError>(TxError::DepositNotFound { tx: tx_id }),
        v.resolve(tx_id) == Err::<ClientView, TxError>(TxError::DepositNotFound { tx: tx_id }),
        !v.locked ==> v.chargeback(tx_id) == Err::<ClientView, TxError>(
            TxError::DepositNotFound { tx: tx_id },
        ),
{
}

/// A transaction keeps the accounts in states that they can be in.
pub proof fn lemma_ledger_apply_wf(ledger: Map<u16, ClientView>, tx: TxView)
    requires
        ledger_wf(ledger),
    ensures
        ledger_wf(ledger_apply(ledger, tx).0),
{
    let id = tx.client_id;
    let next = ledger_apply(ledger, tx).0;
    assert forall|other: u16| next.contains_key(other) implies (#[trigger] next[other]).wf()
        && next[other].client_id == other by {
        if other == id {
            let amount = match tx.tx_type {
                TxTypeView::Deposit { amount } => amount,
                TxTypeView::Withdrawal { amount } => amount,
                _ => arbitrary(),
            };
            lemma_create_wf(id);
            if ledger.contains_key(id) {
                lemma_steps_keep_wf(ledger[id], tx.tx_id, amount);
            } else {
                lemma_steps_keep_wf(ClientView::create(id), tx.tx_id, amount);
            }
        } else {
            assert(ledger.contains_key(other));
            assert(next[other] == ledger[other]);
        }
    }
}

/// The rows keep the accounts in states that they can be in.
pub proof fn lemma_rows_apply_wf(ledger: Map<u16, ClientView>, rows: Seq<Result<TxView, TxError>>)
    requires
        ledger_wf(ledger),
    ensures
        ledger_wf(rows_apply(ledger, rows)),
    decreases rows.len(),
{
    if rows.len() > 0 {
        lemma_rows_apply_wf(ledger, rows.drop_last());
        if rows.last() is Ok {
            lemma_ledger_apply_wf(rows_apply(ledger, rows.drop_last()), rows.last()->Ok_0);
        }
    }
}

/// Rows applied one run after another come to what they come to in one run.
pub proof fn lemma_rows_apply_concat(
    ledger: Map<u16, ClientView>,
    first: Seq<Result<TxView, TxError>>,
    second: Seq<Result<TxView, TxError>>,
)
    ensures
        rows_apply(ledger, first + second) == rows_apply(rows_apply(ledger, first), second),
    decreases second.len(),
{
    if second.len() == 0 {
        assert(first + second =~= first);
    } else {
        assert((first + second).drop_last() =~= first + second.drop_last());
        assert((first + second).last() == second.last());
        lemma_rows_apply_concat(ledger, first, second.drop_last());
    }
}

/// A malformed row among others counts for nothing: the rows before it and
/// the rows after it come to what they come to without it.
pub proof fn lemma_malformed_row_is_skipped(
    ledger: Map<u16, ClientView>,
    before: Seq<Result<TxView, TxError>>,
    row: Result<TxView, TxError>,
    after: Seq<Result<TxView, TxError>>,
)
    requires
        row is Err,
    ensures
        rows_apply(ledger, before + seq![row] + after) == rows_apply(ledger, before + after),
{
    let middle = seq![row];
    assert(middle.drop_last() =~= Seq::<Result<TxView, TxError>>::empty());
    assert(rows_apply(rows_apply(ledger, before), middle) == rows_apply(ledger, before)) by {
        assert(rows_apply(rows_apply(ledger, before), middle.drop_last()) == rows_apply(
            ledger,
            before,
        ));
    }
    lemma_rows_apply_concat(ledger, before, middle);
    lemma_rows_apply_concat(ledger, before + middle, after);
    lemma_rows_apply_concat(ledger, before, after);
}

/// A transaction that is refused for any reason but the amount of a first
/// deposit leaves every account as it was.
pub proof fn lemma_refused_changes_nothing(ledger: Map<u16, ClientView>, tx: TxView)
    requires
        ledger_apply(ledger, tx).1 is Err,
        ledger.contains_key(tx.client_id) || !(tx.tx_type is Deposit),
    ensures
        ledger_apply(ledger, tx).0 == ledger,
{
}

/// A transaction leaves the accounts of all other clients as they were.
pub proof fn lemma_other_clients_untouched(ledger: Map<u16, ClientView>, tx: TxView, other: u16)
    requires
        other != tx.client_id,
    ensures
        ledger_apply(ledger, tx).0.contains_key(other) == ledger.contains_key(other),
        ledger.contains_key(other) ==> ledger_apply(ledger, tx).0[other] == ledger[other],
{
}

/// A client without an account can do nothing but deposit: anything else
/// fails for want of the account, and opens none.
pub proof fn lemma_unknown_client(ledger: Map<u16, ClientView>, tx: TxView)
    requires
        !ledger.contains_key(tx.client_id),
        !(tx.tx_type is Deposit),
    ensures
        ledger_apply(ledger, tx) == (
            ledger,
            Err::<(), TxError>(TxError::AccountNotFound { client: tx.client_id }),
        ),
{
}

} // verus!
