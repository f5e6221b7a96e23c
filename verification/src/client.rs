//! The account of one client: three balances, a lock, and the deposits that
//! may still be disputed.

use vstd::prelude::*;
use std::collections::HashMap;
use crate::amount::{amount_text, Amount, AmountView};
use crate::error::{Balance, TxError};

verus! {

/// Where a deposit stands in its dispute.
#[derive(Clone, Copy, PartialEq, Eq, Structural, Debug)]
pub enum DepositState {
    /// Not under dispute: never disputed, or the dispute was resolved.
    Normal,
    /// Under dispute, its amount held.
    Disputed,
    /// Charged back. Nothing leads on from here.
    ChargedBack,
}

impl DepositState {
    /// The name of the state in messages.
    pub open spec fn name_text(self) -> Seq<char> {
        match self {
            DepositState::Normal => "Ok"@,
            DepositState::Disputed => "Disputed"@,
            DepositState::ChargedBack => "ChargedBack"@,
        }
    }

    /// The name of the state in messages.
    pub fn name(&self) -> (name: &'static str)
        ensures
            name@ == self.name_text(),
    {
        match self {
            DepositState::Normal => "Ok",
            DepositState::Disputed => "Disputed",
            DepositState::ChargedBack => "ChargedBack",
        }
    }
}

impl Default for DepositState {
    fn default() -> (r: DepositState)
        ensures
            r == DepositState::Normal,
    {
        DepositState::Normal
    }
}

/// A deposit that an account remembers, in minor units.
#[derive(Clone, Copy, PartialEq, Eq, Structural, Debug)]
pub struct Deposit {
    pub amount: u64,
    pub state: DepositState,
}

impl Deposit {
    /// Nothing, where the deposit is in `state`; else the error that names
    /// both states.
    pub open spec fn state_checked(self, state: DepositState) -> Result<(), TxError> {
        if self.state == state {
            Ok(())
        } else {
            Err(TxError::InvalidDepositState { actual: self.state, expected: state })
        }
    }

    /// Checks that the deposit is in `state`.
    pub fn ensure_state(&self, state: DepositState) -> (r: Result<(), TxError>)
        ensures
            r == self.state_checked(state),
    {
        if self.state == state {
            Ok(())
        } else {
            Err(TxError::InvalidDepositState { actual: self.state, expected: state })
        }
    }
}

/// What the deposit under `tx` keeps held: its amount while it is disputed.
pub open spec fn held_by(deposits: Map<u32, Deposit>, tx: u32) -> nat {
    if deposits.contains_key(tx) && deposits[tx].state == DepositState::Disputed {
        deposits[tx].amount as nat
    } else {
        0
    }
}

/// What the deposits with a transaction id below `bound` keep held.
pub open spec fn disputed_below(deposits: Map<u32, Deposit>, bound: nat) -> nat
    decreases bound,
{
    if bound == 0 {
        0
    } else {
        disputed_below(deposits, (bound - 1) as nat) + held_by(deposits, (bound - 1) as u32)
    }
}

/// What all the disputed deposits keep held.
pub open spec fn disputed_total(deposits: Map<u32, Deposit>) -> nat {
    disputed_below(deposits, 0x1_0000_0000)
}

/// Where two sets of deposits keep the same held but under `tx`, their sums
/// differ by what they keep held under `tx`.
pub proof fn lemma_disputed_below_differs(
    before: Map<u32, Deposit>,
    after: Map<u32, Deposit>,
    tx: u32,
    bound: nat,
)
    requires
        forall|other: u32|
            other != tx ==> held_by(before, other) == #[trigger] held_by(after, other),
        bound <= 0x1_0000_0000,
    ensures
        disputed_below(after, bound) + (if tx < bound {
            held_by(before, tx)
        } else {
            0
        }) == disputed_below(before, bound) + (if tx < bound {
            held_by(after, tx)
        } else {
            0
        }),
    decreases bound,
{
    if bound > 0 {
        lemma_disputed_below_differs(before, after, tx, (bound - 1) as nat);
        let last = (bound - 1) as u32;
        if last != tx {
            assert(held_by(before, last) == held_by(after, last));
        }
    }
}

/// Putting a deposit under `tx` changes the held sum by what changes under `tx`.
pub proof fn lemma_disputed_total_insert(deposits: Map<u32, Deposit>, tx: u32, deposit: Deposit)
    ensures
        disputed_total(deposits.insert(tx, deposit)) + held_by(deposits, tx) == disputed_total(
            deposits,
        ) + held_by(deposits.insert(tx, deposit), tx),
{
    let after = deposits.insert(tx, deposit);
    assert forall|other: u32| other != tx implies held_by(deposits, other) == #[trigger] held_by(
        after,
        other,
    ) by {}
    lemma_disputed_below_differs(deposits, after, tx, 0x1_0000_0000);
}

/// The state of an account.
pub struct ClientView {
    pub client_id: u16,
    pub available: int,
    pub held: int,
    pub total: int,
    pub locked: bool,
    pub deposits: Map<u32, Deposit>,
}

impl ClientView {
    /// What holds of every account: no balance is below zero, the total is
    /// what is available and what is held together, it fits in 64 bits, and
    /// what the disputed deposits keep held is held.
    pub open spec fn wf(self) -> bool {
        &&& 0 <= self.available
        &&& 0 <= self.held
        &&& self.total == self.available + self.held
        &&& self.total <= u64::MAX
        &&& disputed_total(self.deposits) <= self.held
    }

    /// The account of a client who has done nothing yet.
    pub open spec fn create(client_id: u16) -> ClientView {
        ClientView {
            client_id,
            available: 0,
            held: 0,
            total: 0,
            locked: false,
            deposits: Map::empty(),
        }
    }

    /// Nothing, where the account is not locked.
    pub open spec fn unlocked(self) -> Result<(), TxError> {
        if self.locked {
            Err(TxError::AccountLocked { client: self.client_id })
        } else {
            Ok(())
        }
    }

    /// What the account lacks to give `needed` out of `present`.
    pub open spec fn short(self, balance: Balance, needed: u64, present: int) -> TxError {
        TxError::InsufficientFunds {
            client: self.client_id,
            balance,
            needed,
            present: present as u64,
        }
    }

    /// The account as it is reported.
    pub open spec fn record(self) -> ClientRecordView {
        ClientRecordView {
            client: self.client_id,
            available: amount_text(self.available as nat),
            held: amount_text(self.held as nat),
            total: amount_text(self.total as nat),
            locked: self.locked,
        }
    }

    /// A deposit: the amount becomes available, and is remembered under
    /// `tx_id` in place of what was there. A lock does not stand in its way.
    pub open spec fn deposit(self, tx_id: u32, amount: AmountView) -> Result<ClientView, TxError> {
        match amount.units() {
            Err(e) => Err(e),
            Ok(units) => if self.total + units > u64::MAX {
                Err(TxError::BalanceOverflow { client: self.client_id })
            } else {
                Ok(
                    ClientView {
                        available: self.available + units,
                        total: self.total + units,
                        deposits: self.deposits.insert(
                            tx_id,
                            Deposit { amount: units, state: DepositState::Normal },
                        ),
                        ..self
                    },
                )
            },
        }
    }

    /// A withdrawal: the amount leaves what is available, unless the account
    /// is locked or has less.
    pub open spec fn withdraw(self, amount: AmountView) -> Result<ClientView, TxError> {
        if self.locked {
            Err(TxError::AccountLocked { client: self.client_id })
        } else {
            match amount.units() {
                Err(e) => Err(e),
                Ok(units) => if self.available < units {
                    Err(self.short(Balance::Available, units, self.available))
                } else {
                    Ok(
                        ClientView {
                            available: self.available - units,
                            total: self.total - units,
                            ..self
                        },
                    )
                },
            }
        }
    }

    /// A dispute: the amount of a deposit in its normal state moves from
    /// available to held, unless less is available. A lock does not stand in
    /// its way.
    pub open spec fn dispute(self, tx_id: u32) -> Result<ClientView, TxError> {
        if !self.deposits.contains_key(tx_id) {
            Err(TxError::DepositNotFound { tx: tx_id })
        } else {
            let deposit = self.deposits[tx_id];
            if deposit.state != DepositState::Normal {
                Err(
                    TxError::InvalidDepositState {
                        actual: deposit.state,
                        expected: DepositState::Normal,
                    },
                )
            } else if self.available < deposit.amount {
                Err(self.short(Balance::Available, deposit.amount, self.available))
            } else {
                Ok(
                    ClientView {
                        available: self.available - deposit.amount,
                        held: self.held + deposit.amount,
                        deposits: self.deposits.insert(
                            tx_id,
                            Deposit { amount: deposit.amount, state: DepositState::Disputed },
                        ),
                        ..self
                    },
                )
            }
        }
    }

    /// A resolve: the amount of a disputed deposit moves back from held to
    /// available, and the deposit is normal again. A lock does not stand in
    /// its way.
    pub open spec fn resolve(self, tx_id: u32) -> Result<ClientView, TxError> {
        if !self.deposits.contains_key(tx_id) {
            Err(TxError::DepositNotFound { tx: tx_id })
        } else {
            let deposit = self.deposits[tx_id];
            if deposit.state != DepositState::Disputed {
                Err(
                    TxError::InvalidDepositState {
                        actual: deposit.state,
                        expected: DepositState::Disputed,
                    },
                )
            } else {
                Ok(
                    ClientView {
                        available: self.available + deposit.amount,
                        held: self.held - deposit.amount,
                        deposits: self.deposits.insert(
                            tx_id,
                            Deposit { amount: deposit.amount, state: DepositState::Normal },
                        ),
                        ..self
                    },
                )
            }
        }
    }

    /// A chargeback: the amount of a disputed deposit leaves the account from
    /// what is held, the deposit is charged back, and the account is locked.
    /// A locked account takes none.
    pub open spec fn chargeback(self, tx_id: u32) -> Result<ClientView, TxError> {
        if self.locked {
            Err(TxError::AccountLocked { client: self.client_id })
        } else if !self.deposits.contains_key(tx_id) {
            Err(TxError::DepositNotFound { tx: tx_id })
        } else {
            let deposit = self.deposits[tx_id];
            if deposit.state != DepositState::Disputed {
                Err(
                    TxError::InvalidDepositState {
                        actual: deposit.state,
                        expected: DepositState::Disputed,
                    },
                )
            } else if self.total < deposit.amount {
                Err(self.short(Balance::Total, deposit.amount, self.total))
            } else {
                Ok(
                    ClientView {
                        total: self.total - deposit.amount,
                        held: self.held - deposit.amount,
                        locked: true,
                        deposits: self.deposits.insert(
                            tx_id,
                            Deposit { amount: deposit.amount, state: DepositState::ChargedBack },
                        ),
                        ..self
                    },
                )
            }
        }
    }
}

/// An operation that ought to end as `step` took the account from `before` to
/// `after` and returned `r`: where it succeeds the account is what `step`
/// holds, and where it fails `r` is that error and the account is as before.
pub open spec fn applied(
    before: ClientView,
    after: ClientView,
    r: Result<(), TxError>,
    step: Result<ClientView, TxError>,
) -> bool {
    match step {
        Ok(next) => r == Ok::<(), TxError>(()) && after == next,
        Err(e) => r == Err::<(), TxError>(e) && after == before,
    }
}

/// A disputed deposit's amount is held.
pub proof fn lemma_disputed_is_held(v: ClientView, tx_id: u32)
    requires
        v.wf(),
    ensures
        held_by(v.deposits, tx_id) <= v.held,
{
    let gone = Deposit { amount: 0, state: DepositState::Normal };
    lemma_disputed_total_insert(v.deposits, tx_id, gone);
}

/// An account as it is reported: the client, the three balances as text with
/// four digits after the point, and the lock.
#[derive(Debug)]
pub struct ClientRecord {
    pub client: u16,
    pub available: String,
    pub held: String,
    pub total: String,
    pub locked: bool,
}

/// An account as it is reported, the text as characters.
pub struct ClientRecordView {
    pub client: u16,
    pub available: Seq<char>,
    pub held: Seq<char>,
    pub total: Seq<char>,
    pub locked: bool,
}

impl View for ClientRecord {
    type V = ClientRecordView;

    open spec fn view(&self) -> ClientRecordView {
        ClientRecordView {
            client: self.client,
            available: self.available@,
            held: self.held@,
            total: self.total@,
            locked: self.locked,
        }
    }
}

impl Clone for ClientRecord {
    fn clone(&self) -> (r: ClientRecord)
        ensures
            r@ == self@,
    {
        ClientRecord {
            client: self.client,
            available: self.available.clone(),
            held: self.held.clone(),
            total: self.total.clone(),
            locked: self.locked,
        }
    }
}

/// The account of one client.
#[derive(Debug)]
pub struct Client {
    client_id: u16,
    available: u64,
    held: u64,
    total: u64,
    locked: bool,
    deposits: HashMap<u32, Deposit>,
}

impl View for Client {
    type V = ClientView;

    closed spec fn view(&self) -> ClientView {
        ClientView {
            client_id: self.client_id,
            available: self.available as int,
            held: self.held as int,
            total: self.total as int,
            locked: self.locked,
            deposits: self.deposits@,
        }
    }
}

impl Default for Client {
    fn default() -> (r: Client)
        ensures
            r.wf(),
            r@ == ClientView::create(0),
    {
        Client::create(0)
    }
}

impl Client {
    /// The account is in a state that accounts can be in.
    pub open spec fn wf(&self) -> bool {
        self@.wf()
    }

    /// The account of a client who has done nothing yet.
    pub fn create(client_id: u16) -> (r: Client)
        ensures
            r.wf(),
            r@ == ClientView::create(client_id),
    {
        let r = Client {
            client_id,
            available: 0,
            held: 0,
            total: 0,
            locked: false,
            deposits: HashMap::new(),
        };
        proof {
            assert(r@.deposits =~= Map::<u32, Deposit>::empty());
            lemma_nothing_disputed(0x1_0000_0000);
        }
        r
    }

    /// Takes a deposit of `amount` under `tx_id`. It makes the amount
    /// available and remembers it for disputes, also on a locked account.
    /// An amount below zero, or one that the account cannot hold, is refused.
    pub fn deposit(&mut self, tx_id: u32, amount: Amount) -> (r: Result<(), TxError>)
        requires
            old(self).wf(),
        ensures
            final(self).wf(),
            applied(old(self)@, final(self)@, r, old(self)@.deposit(tx_id, amount@)),
    {
        let units: u64 = match amount.to_u64() {
            Ok(units) => units,
            Err(e) => {
                return Err(e);
            },
        };
        if units > u64::MAX - self.total {
            return Err(TxError::BalanceOverflow { client: self.client_id });
        }
        let deposit = Deposit { amount: units, state: DepositState::Normal };
        proof {
            lemma_disputed_total_insert(self.deposits@, tx_id, deposit);
        }
        self.deposits.insert(tx_id, deposit);
        self.available = self.available + units;
        self.total = self.total + units;
        Ok(())
    }

    /// Pays `amount` out of what is available. A locked account pays nothing
    /// out, and none pays out more than is available.
    pub fn withdraw(&mut self, amount: Amount) -> (r: Result<(), TxError>)
        requires
            old(self).wf(),
        ensures
            final(self).wf(),
            applied(old(self)@, final(self)@, r, old(self)@.withdraw(amount@)),
    {
        match self.ensure_unlocked() {
            Ok(()) => {},
            Err(e) => {
                return Err(e);
            },
        }
        let units: u64 = match amount.to_u64() {
            Ok(units) => units,
            Err(e) => {
                return Err(e);
            },
        };
        if self.available < units {
            return Err(self.short_of(Balance::Available, units, self.available));
        }
        self.available = self.available - units;
        self.total = self.total - units;
        Ok(())
    }

    /// Opens a dispute on the deposit under `tx_id`: its amount is held until
    /// the dispute ends. The deposit must be known and not under dispute nor
    /// charged back, and its amount must still be available.
    pub fn dispute(&mut self, tx_id: &u32) -> (r: Result<(), TxError>)
        requires
            old(self).wf(),
        ensures
            final(self).wf(),
            applied(old(self)@, final(self)@, r, old(self)@.dispute(*tx_id)),
    {
        let deposit: Deposit = match self.deposits.get(tx_id) {
            Some(deposit) => *deposit,
            None => {
                return Err(TxError::DepositNotFound { tx: *tx_id });
            },
        };
        match deposit.ensure_state(DepositState::Normal) {
            Ok(()) => {},
            Err(e) => {
                return Err(e);
            },
        }
        if self.available < deposit.amount {
            return Err(self.short_of(Balance::Available, deposit.amount, self.available));
        }
        let disputed = Deposit { amount: deposit.amount, state: DepositState::Disputed };
        proof {
            lemma_disputed_total_insert(self.deposits@, *tx_id, disputed);
        }
        self.available = self.available - deposit.amount;
        self.held = self.held + deposit.amount;
        self.deposits.insert(*tx_id, disputed);
        Ok(())
    }

    /// Ends the dispute on the deposit under `tx_id` in the client's favour:
    /// its amount is available again, and the deposit may be disputed anew.
    pub fn resolve(&mut self, tx_id: &u32) -> (r: Result<(), TxError>)
        requires
            old(self).wf(),
        ensures
            final(self).wf(),
            applied(old(self)@, final(self)@, r, old(self)@.resolve(*tx_id)),
    {
        let deposit: Deposit = match self.deposits.get(tx_id) {
            Some(deposit) => *deposit,
            None => {
                return Err(TxError::DepositNotFound { tx: *tx_id });
            },
        };
        match deposit.ensure_state(DepositState::Disputed) {
            Ok(()) => {},
            Err(e) => {
                return Err(e);
            },
        }
        let resolved = Deposit { amount: deposit.amount, state: DepositState::Normal };
        proof {
            lemma_disputed_is_held(self@, *tx_id);
            lemma_disputed_total_insert(self.deposits@, *tx_id, resolved);
        }
        self.available = self.available + deposit.amount;
        self.held = self.held - deposit.amount;
        self.deposits.insert(*tx_id, resolved);
        Ok(())
    }

    /// Ends the dispute on the deposit under `tx_id` against the client: its
    /// amount leaves the account, and the account is locked for good.
    pub fn chargeback(&mut self, tx_id: &u32) -> (r: Result<(), TxError>)
        requires
            old(self).wf(),
        ensures
            final(self).wf(),
            applied(old(self)@, final(self)@, r, old(self)@.chargeback(*tx_id)),
    {
        match self.ensure_unlocked() {
            Ok(()) => {},
            Err(e) => {
                return Err(e);
            },
        }
        let deposit: Deposit = match self.deposits.get(tx_id) {
            Some(deposit) => *deposit,
            None => {
                return Err(TxError::DepositNotFound { tx: *tx_id });
            },
        };
        match deposit.ensure_state(DepositState::Disputed) {
            Ok(()) => {},
            Err(e) => {
                return Err(e);
            },
        }
        if self.total < deposit.amount {
            return Err(self.short_of(Balance::Total, deposit.amount, self.total));
        }
        let charged = Deposit { amount: deposit.amount, state: DepositState::ChargedBack };
        proof {
            lemma_disputed_is_held(self@, *tx_id);
            lemma_disputed_total_insert(self.deposits@, *tx_id, charged);
        }
        self.total = self.total - deposit.amount;
        self.held = self.held - deposit.amount;
        self.deposits.insert(*tx_id, charged);
        self.locked = true;
        Ok(())
    }

    /// Checks that the account is not locked.
    pub fn ensure_unlocked(&self) -> (r: Result<(), TxError>)
        ensures
            r == self@.unlocked(),
    {
        if self.locked {
            Err(TxError::AccountLocked { client: self.client_id })
        } else {
            Ok(())
        }
    }

    /// The client whose account this is.
    pub fn client_id(&self) -> (id: u16)
        ensures
            id == self@.client_id,
    {
        self.client_id
    }

    /// What the client may withdraw, in minor units.
    pub fn available(&self) -> (units: u64)
        ensures
            units == self@.available,
    {
        self.available
    }

    /// What is held for open disputes, in minor units.
    pub fn held(&self) -> (units: u64)
        ensures
            units == self@.held,
    {
        self.held
    }

    /// What is available and what is held together, in minor units.
    pub fn total(&self) -> (units: u64)
        ensures
            units == self@.total,
    {
        self.total
    }

    /// Whether a chargeback has locked the account.
    pub fn locked(&self) -> (locked: bool)
        ensures
            locked == self@.locked,
    {
        self.locked
    }

    /// The deposit remembered under `tx_id`.
    pub fn find_deposit(&self, tx_id: u32) -> (found: Option<Deposit>)
        ensures
            found == (if self@.deposits.contains_key(tx_id) {
                Some(self@.deposits[tx_id])
            } else {
                None
            }),
    {
        match self.deposits.get(&tx_id) {
            Some(deposit) => Some(*deposit),
            None => None,
        }
    }

    /// The account as it is reported.
    pub fn record(&self) -> (record: ClientRecord)
        ensures
            record@ == self@.record(),
    {
        ClientRecord {
            client: self.client_id,
            available: Amount::format(self.available),
            held: Amount::format(self.held),
            total: Amount::format(self.total),
            locked: self.locked,
        }
    }

    /// The error of an account that has `present` where `needed` is asked.
    fn short_of(&self, balance: Balance, needed: u64, present: u64) -> (e: TxError)
        ensures
            e == self@.short(balance, needed, present as int),
    {
        TxError::InsufficientFunds { client: self.client_id, balance, needed, present }
    }
}

/// Where there are no deposits, nothing is held.
pub proof fn lemma_nothing_disputed(bound: nat)
    ensures
        disputed_below(Map::<u32, Deposit>::empty(), bound) == 0,
    decreases bound,
{
    if bound > 0 {
        lemma_nothing_disputed((bound - 1) as nat);
    }
}

} // verus!
