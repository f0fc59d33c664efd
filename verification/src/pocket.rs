//! The pocket ledger: savings pockets with sequential identifiers.

use std::collections::HashMap;
use vstd::prelude::*;
use crate::auth::AuthContext;
use crate::error::Error;
use crate::identity::Identity;

verus! {

/// A savings pocket.
#[derive(Debug, PartialEq, Eq)]
pub struct PocketData {
    /// The party that may deposit into and withdraw from the pocket.
    pub owner: Identity,
    /// The denomination that the pocket tracks.
    pub asset: Identity,
    /// The advisory savings target; it never limits a deposit.
    pub goal_amount: i128,
    /// The amount saved so far.
    pub current_amount: i128,
}

/// What a pocket is, as mathematics.
pub struct PocketRecord {
    pub owner: Seq<char>,
    pub asset: Seq<char>,
    pub goal_amount: int,
    pub current_amount: int,
}

impl View for PocketData {
    type V = PocketRecord;

    open spec fn view(&self) -> PocketRecord {
        PocketRecord {
            owner: self.owner@,
            asset: self.asset@,
            goal_amount: self.goal_amount as int,
            current_amount: self.current_amount as int,
        }
    }
}

impl Clone for PocketData {
    fn clone(&self) -> (copy: PocketData)
        ensures
            copy == *self,
    {
        PocketData {
            owner: self.owner.clone(),
            asset: self.asset.clone(),
            goal_amount: self.goal_amount,
            current_amount: self.current_amount,
        }
    }
}

/// The names of the storage slots of a pocket ledger.
#[derive(Clone, Copy, Debug, PartialEq, Eq, Structural)]
pub enum DataKey {
    /// The slot of the pocket with the given identifier.
    Pocket(i128),
    /// The slot of the counter that holds the next free identifier.
    NextPocketId,
}

/// A notification that a ledger operation emitted.
#[derive(Debug, PartialEq, Eq)]
pub enum Event {
    /// A pocket was created.
    PocketCreated { owner: Identity, pocket_id: i128, goal_amount: i128 },
    /// An amount was added to a pocket.
    Deposit { pocket_id: i128, from: Identity, amount: i128 },
    /// An amount was taken out of a pocket.
    Withdraw { pocket_id: i128, to: Identity, amount: i128 },
}

/// What a notification is, as mathematics.
pub enum Notice {
    PocketCreated { owner: Seq<char>, pocket_id: int, goal_amount: int },
    Deposit { pocket_id: int, from: Seq<char>, amount: int },
    Withdraw { pocket_id: int, to: Seq<char>, amount: int },
}

impl View for Event {
    type V = Notice;

    open spec fn view(&self) -> Notice {
        match *self {
            Event::PocketCreated { owner, pocket_id, goal_amount } => Notice::PocketCreated {
                owner: owner@,
                pocket_id: pocket_id as int,
                goal_amount: goal_amount as int,
            },
            Event::Deposit { pocket_id, from, amount } => Notice::Deposit {
                pocket_id: pocket_id as int,
                from: from@,
                amount: amount as int,
            },
            Event::Withdraw { pocket_id, to, amount } => Notice::Withdraw {
                pocket_id: pocket_id as int,
                to: to@,
                amount: amount as int,
            },
        }
    }
}

/// The state of a pocket ledger, as mathematics.
pub struct LedgerState {
    /// The counter slot: absent until the first pocket is created.
    pub next_pocket_id: Option<int>,
    /// The pocket slots, by identifier.
    pub pockets: Map<int, PocketRecord>,
    /// Every notification emitted so far, oldest first.
    pub events: Seq<Notice>,
}

impl LedgerState {
    /// The state of a ledger on which nothing has happened yet.
    pub open spec fn fresh() -> LedgerState {
        LedgerState { next_pocket_id: None, pockets: Map::empty(), events: Seq::empty() }
    }

    /// The identifier that the next pocket will get: the counter, read as 1
    /// while its slot is absent.
    pub open spec fn next_id(self) -> int {
        match self.next_pocket_id {
            Some(next) => next,
            None => 1,
        }
    }

    /// Whether a key names a slot that holds a value.
    pub open spec fn has(self, key: DataKey) -> bool {
        match key {
            DataKey::Pocket(id) => self.pockets.contains_key(id as int),
            DataKey::NextPocketId => self.next_pocket_id is Some,
        }
    }

    /// Whether a record may stand in the slot of pocket `id`: the identifier
    /// has been handed out, and the balance is not negative.
    pub open spec fn admits(self, id: int, pocket: PocketRecord) -> bool {
        1 <= id < self.next_id() && 0 <= pocket.current_amount
    }

    /// The invariant of every ledger: the counter is at least 1, and each
    /// pocket stands under an identifier that the counter has passed and
    /// holds a balance that is not negative.
    pub open spec fn wf(self) -> bool {
        &&& 1 <= self.next_id()
        &&& forall|id: int| #[trigger]
            self.pockets.contains_key(id) ==> self.admits(id, self.pockets[id])
    }

    /// This state after one write: the counter slot and one pocket slot are
    /// set, and one notification is added.
    pub open spec fn written(
        self,
        counter: Option<int>,
        pocket_id: int,
        pocket: PocketRecord,
        notice: Notice,
    ) -> LedgerState {
        LedgerState {
            next_pocket_id: counter,
            pockets: self.pockets.insert(pocket_id, pocket),
            events: self.events.push(notice),
        }
    }

    /// The outcome of `create_pocket`: the state that follows, or the reason
    /// for which the call is refused.
    pub open spec fn create_pocket(
        self,
        auth: Set<Seq<char>>,
        owner: Seq<char>,
        asset: Seq<char>,
        goal_amount: int,
    ) -> Result<LedgerState, Error> {
        if !auth.contains(owner) {
            Err(Error::Unauthorized)
        } else if self.next_id() >= i128::MAX {
            Err(Error::ArithmeticOverflow)
        } else {
            Ok(
                self.written(
                    Some(self.next_id() + 1),
                    self.next_id(),
                    PocketRecord { owner, asset, goal_amount, current_amount: 0 },
                    Notice::PocketCreated { owner, pocket_id: self.next_id(), goal_amount },
                ),
            )
        }
    }

    /// The reason, if any, for which a deposit or a withdrawal is refused
    /// before the balance is looked at.
    pub open spec fn refusal(
        self,
        auth: Set<Seq<char>>,
        pocket_id: int,
        who: Seq<char>,
        amount: int,
    ) -> Option<Error> {
        if amount <= 0 {
            Some(Error::InvalidAmount)
        } else if !self.pockets.contains_key(pocket_id) {
            Some(Error::NotFound)
        } else if !auth.contains(who) || self.pockets[pocket_id].owner != who {
            Some(Error::Unauthorized)
        } else {
            None
        }
    }

    /// This state with the balance of pocket `pocket_id` replaced and one
    /// notification added.
    pub open spec fn with_balance(self, pocket_id: int, balance: int, notice: Notice) -> LedgerState {
        self.written(
            self.next_pocket_id,
            pocket_id,
            PocketRecord { current_amount: balance, ..self.pockets[pocket_id] },
            notice,
        )
    }

    /// The outcome of `deposit`.
    pub open spec fn deposit(
        self,
        auth: Set<Seq<char>>,
        pocket_id: int,
        from: Seq<char>,
        amount: int,
    ) -> Result<LedgerState, Error> {
        match self.refusal(auth, pocket_id, from, amount) {
            Some(error) => Err(error),
            None => if self.pockets[pocket_id].current_amount + amount > i128::MAX {
                Err(Error::ArithmeticOverflow)
            } else {
                Ok(
                    self.with_balance(
                        pocket_id,
                        self.pockets[pocket_id].current_amount + amount,
                        Notice::Deposit { pocket_id, from, amount },
                    ),
                )
            },
        }
    }

    /// The outcome of `withdraw`.
    pub open spec fn withdraw(
        self,
        auth: Set<Seq<char>>,
        pocket_id: int,
        to: Seq<char>,
        amount: int,
    ) -> Result<LedgerState, Error> {
        match self.refusal(auth, pocket_id, to, amount) {
            Some(error) => Err(error),
            None => if self.pockets[pocket_id].current_amount < amount {
                Err(Error::InsufficientBalance)
            } else {
                Ok(
                    self.with_balance(
                        pocket_id,
                        self.pockets[pocket_id].current_amount - amount,
                        Notice::Withdraw { pocket_id, to, amount },
                    ),
                )
            },
        }
    }
}

/// The counter slot, as mathematics.
pub open spec fn slot(counter: Option<i128>) -> Option<int> {
    match counter {
        Some(next) => Some(next as int),
        None => None,
    }
}

/// The storage of one pocket ledger: the counter slot, the pocket slots, and
/// the notifications that its operations have emitted.
pub struct PocketLedger {
    next_pocket_id: Option<i128>,
    pockets: HashMap<i128, PocketData>,
    events: Vec<Event>,
}

impl View for PocketLedger {
    type V = LedgerState;

    closed spec fn view(&self) -> LedgerState {
        model(self.next_pocket_id, self.pockets@, self.events@)
    }
}

/// The state that the three parts of a ledger's storage stand for.
spec fn model(
    counter: Option<i128>,
    pockets: Map<i128, PocketData>,
    events: Seq<Event>,
) -> LedgerState {
    LedgerState {
        next_pocket_id: slot(counter),
        pockets: Map::new(
            |id: int| i128::MIN <= id <= i128::MAX && pockets.contains_key(id as i128),
            |id: int| pockets[id as i128]@,
        ),
        events: events.map_values(|event: Event| event@),
    }
}

impl PocketLedger {
    #[verifier::type_invariant]
    spec fn inv(&self) -> bool {
        self@.wf()
    }

    /// The storage of a ledger on which nothing has happened yet.
    pub fn new() -> (ledger: PocketLedger)
        ensures
            ledger@ == LedgerState::fresh(),
            ledger@.wf(),
    {
        let ledger = PocketLedger {
            next_pocket_id: None,
            pockets: HashMap::new(),
            events: Vec::new(),
        };
        assert(ledger@.pockets =~= Map::empty());
        assert(ledger@.events =~= Seq::empty());
        ledger
    }

    /// The storage of a ledger whose counter slot holds `counter` and which
    /// holds no pocket yet: the start of a snapshot of storage kept elsewhere.
    ///
    /// `None` if the counter is present and less than 1, which no ledger
    /// ever writes.
    pub fn with_counter(counter: Option<i128>) -> (restored: Option<PocketLedger>)
        ensures
            match restored {
                Some(ledger) => ledger@.wf() && ledger@ == (LedgerState {
                    next_pocket_id: slot(counter),
                    ..LedgerState::fresh()
                }),
                None => counter matches Some(next) && next < 1,
            },
    {
        match counter {
            Some(next) => if next < 1 {
                return None;
            },
            None => {},
        }
        proof {
            let empty = model(counter, Map::empty(), Seq::empty());
            assert(empty.pockets =~= Map::empty());
            assert(empty.events =~= Seq::empty());
        }
        Some(PocketLedger { next_pocket_id: counter, pockets: HashMap::new(), events: Vec::new() })
    }

    /// Puts `pocket` into the slot of pocket `pocket_id`, as a snapshot of
    /// storage kept elsewhere does, and says whether it did.
    ///
    /// The record is refused, and the storage left as it was, unless the
    /// identifier lies between 1 and the counter and the balance is not
    /// negative.
    pub fn put_pocket(&mut self, pocket_id: i128, pocket: PocketData) -> (stored: bool)
        ensures
            final(self)@.wf(),
            stored == old(self)@.admits(pocket_id as int, pocket@),
            final(self)@ == if stored {
                LedgerState {
                    pockets: old(self)@.pockets.insert(pocket_id as int, pocket@),
                    ..old(self)@
                }
            } else {
                old(self)@
            },
    {
        proof {
            use_type_invariant(&*self);
        }
        if pocket_id < 1 || pocket_id >= self.next_id() || pocket.current_amount < 0 {
            return false;
        }
        let PocketLedger { next_pocket_id, mut pockets, events } = self.take();
        pockets.insert(pocket_id, pocket);
        proof {
            let stored = model(next_pocket_id, pockets@, events@);
            assert(stored.pockets =~= old(self)@.pockets.insert(pocket_id as int, pocket@));
        }
        *self = PocketLedger { next_pocket_id, pockets, events };
        true
    }

    /// The identifier that the next pocket will get.
    pub fn next_id(&self) -> (next: i128)
        ensures
            self@.wf(),
            next == self@.next_id(),
    {
        proof {
            use_type_invariant(self);
        }
        match self.next_pocket_id {
            Some(next) => next,
            None => 1,
        }
    }

    /// Whether the slot that `key` names holds a value.
    pub fn has(&self, key: &DataKey) -> (present: bool)
        ensures
            present == self@.has(*key),
    {
        match key {
            DataKey::Pocket(id) => self.pockets.contains_key(id),
            DataKey::NextPocketId => self.next_pocket_id.is_some(),
        }
    }

    /// The pocket with the given identifier, if there is one.
    pub fn pocket(&self, pocket_id: i128) -> (found: Option<&PocketData>)
        ensures
            self@.wf(),
            match found {
                Some(pocket) => self@.pockets.contains_key(pocket_id as int)
                    && pocket@ == self@.pockets[pocket_id as int],
                None => !self@.pockets.contains_key(pocket_id as int),
            },
    {
        proof {
            use_type_invariant(self);
        }
        self.pockets.get(&pocket_id)
    }

    /// Moves the storage out and leaves that of a fresh ledger behind.
    fn take(&mut self) -> (taken: PocketLedger)
        ensures
            taken == *old(self),
    {
        let mut taken = PocketLedger::new();
        core::mem::swap(self, &mut taken);
        taken
    }

    /// Sets the counter slot and one pocket slot, and emits `event`.
    fn write(&mut self, counter: Option<i128>, pocket_id: i128, pocket: PocketData, event: Event)
        requires
            old(self)@.written(slot(counter), pocket_id as int, pocket@, event@).wf(),
        ensures
            final(self)@.wf(),
            final(self)@ == old(self)@.written(slot(counter), pocket_id as int, pocket@, event@),
    {
        let PocketLedger { next_pocket_id: _, mut pockets, mut events } = self.take();
        pockets.insert(pocket_id, pocket);
        events.push(event);
        proof {
            let after = old(self)@.written(slot(counter), pocket_id as int, pocket@, event@);
            let written = model(counter, pockets@, events@);
            assert(written.pockets =~= after.pockets);
            assert(written.events =~= after.events);
        }
        *self = PocketLedger { next_pocket_id: counter, pockets, events };
    }

    /// The notifications emitted so far, oldest first.
    pub fn events(&self) -> (events: &Vec<Event>)
        ensures
            events@.map_values(|event: Event| event@) == self@.events,
    {
        &self.events
    }
}

/// The operations of the pocket ledger.
///
/// Each takes the storage to work on and the authorization of the call. A
/// refused call leaves the storage as it was and emits nothing.
pub struct PocketContract;

impl PocketContract {
    /// Creates a pocket for `owner` with a balance of zero and returns its
    /// identifier, the next one in the sequence 1, 2, 3, ...
    ///
    /// Refused with `Unauthorized` unless `owner` authorized the call, and
    /// with `ArithmeticOverflow` once the identifiers are used up.
    pub fn create_pocket(
        ledger: &mut PocketLedger,
        auth: &AuthContext,
        owner: &Identity,
        asset: &Identity,
        goal_amount: i128,
    ) -> (result: Result<i128, Error>)
        ensures
            final(ledger)@.wf(),
            match old(ledger)@.create_pocket(auth@, owner@, asset@, goal_amount as int) {
                Ok(next) => result == Ok::<i128, Error>(old(ledger)@.next_id() as i128)
                    && final(ledger)@ == next,
                Err(error) => result == Err::<i128, Error>(error) && final(ledger)@ == old(
                    ledger,
                )@,
            },
    {
        proof {
            use_type_invariant(&*ledger);
        }
        if !auth.verify(owner) {
            return Err(Error::Unauthorized);
        }
        let pocket_id = ledger.next_id();
        if pocket_id == i128::MAX {
            return Err(Error::ArithmeticOverflow);
        }
        let pocket = PocketData {
            owner: owner.clone(),
            asset: asset.clone(),
            goal_amount,
            current_amount: 0,
        };
        let event = Event::PocketCreated { owner: owner.clone(), pocket_id, goal_amount };
        ledger.write(Some(pocket_id + 1), pocket_id, pocket, event);
        Ok(pocket_id)
    }

    /// Adds `amount` to the balance of pocket `pocket_id`.
    ///
    /// Refused with `InvalidAmount` unless `amount` is positive, with
    /// `NotFound` if there is no such pocket, with `Unauthorized` unless
    /// `from` authorized the call and owns the pocket, and with
    /// `ArithmeticOverflow` if the new balance cannot be represented.
    pub fn deposit(
        ledger: &mut PocketLedger,
        auth: &AuthContext,
        pocket_id: i128,
        from: &Identity,
        amount: i128,
    ) -> (result: Result<(), Error>)
        ensures
            final(ledger)@.wf(),
            match old(ledger)@.deposit(auth@, pocket_id as int, from@, amount as int) {
                Ok(next) => result is Ok && final(ledger)@ == next,
                Err(error) => result == Err::<(), Error>(error) && final(ledger)@ == old(
                    ledger,
                )@,
            },
    {
        let balance = match Self::checked_pocket(ledger, auth, pocket_id, from, amount) {
            Err(error) => return Err(error),
            Ok(pocket) => match pocket.current_amount.checked_add(amount) {
                None => return Err(Error::ArithmeticOverflow),
                Some(balance) => balance,
            },
        };
        let event = Event::Deposit { pocket_id, from: from.clone(), amount };
        Self::settle(ledger, pocket_id, balance, event);
        Ok(())
    }

    /// Takes `amount` out of the balance of pocket `pocket_id`.
    ///
    /// Refused with `InvalidAmount` unless `amount` is positive, with
    /// `NotFound` if there is no such pocket, with `Unauthorized` unless `to`
    /// authorized the call and owns the pocket, and with
    /// `InsufficientBalance` if the pocket holds less than `amount`.
    pub fn withdraw(
        ledger: &mut PocketLedger,
        auth: &AuthContext,
        pocket_id: i128,
        to: &Identity,
        amount: i128,
    ) -> (result: Result<(), Error>)
        ensures
            final(ledger)@.wf(),
            match old(ledger)@.withdraw(auth@, pocket_id as int, to@, amount as int) {
                Ok(next) => result is Ok && final(ledger)@ == next,
                Err(error) => result == Err::<(), Error>(error) && final(ledger)@ == old(
                    ledger,
                )@,
            },
    {
        let balance = match Self::checked_pocket(ledger, auth, pocket_id, to, amount) {
            Err(error) => return Err(error),
            Ok(pocket) => if pocket.current_amount < amount {
                return Err(Error::InsufficientBalance);
            } else {
                pocket.current_amount - amount
            },
        };
        let event = Event::Withdraw { pocket_id, to: to.clone(), amount };
        Self::settle(ledger, pocket_id, balance, event);
        Ok(())
    }

    /// A copy of the pocket with the given identifier. No authorization is
    /// asked for: balances are readable by anyone who knows the identifier.
    ///
    /// Refused with `NotFound` if there is no such pocket.
    pub fn get_pocket(ledger: &PocketLedger, pocket_id: i128) -> (result: Result<
        PocketData,
        Error,
    >)
        ensures
            match result {
                Ok(pocket) => ledger@.pockets.contains_key(pocket_id as int) && pocket@
                    == ledger@.pockets[pocket_id as int] && pocket.current_amount >= 0,
                Err(error) => error == Error::NotFound && !ledger@.pockets.contains_key(
                    pocket_id as int,
                ),
            },
    {
        match ledger.pocket(pocket_id) {
            Some(pocket) => Ok(pocket.clone()),
            None => Err(Error::NotFound),
        }
    }

    /// The checks that a deposit and a withdrawal share; on success, the
    /// pocket that the call is about.
    fn checked_pocket<'a>(
        ledger: &'a PocketLedger,
        auth: &AuthContext,
        pocket_id: i128,
        who: &Identity,
        amount: i128,
    ) -> (result: Result<&'a PocketData, Error>)
        ensures
            ledger@.wf(),
            match result {
                Ok(pocket) => ledger@.refusal(auth@, pocket_id as int, who@, amount as int)
                    is None && pocket@ == ledger@.pockets[pocket_id as int],
                Err(error) => ledger@.refusal(auth@, pocket_id as int, who@, amount as int)
                    == Some(error),
            },
    {
        proof {
            use_type_invariant(ledger);
        }
        if amount <= 0 {
            return Err(Error::InvalidAmount);
        }
        match ledger.pocket(pocket_id) {
            None => Err(Error::NotFound),
            Some(pocket) => if auth.verify(who) && pocket.owner.same_as(who) {
                Ok(pocket)
            } else {
                Err(Error::Unauthorized)
            },
        }
    }

    /// Writes a new balance into an existing pocket and emits `event`.
    fn settle(ledger: &mut PocketLedger, pocket_id: i128, balance: i128, event: Event)
        requires
            old(ledger)@.pockets.contains_key(pocket_id as int),
            balance >= 0,
        ensures
            final(ledger)@.wf(),
            final(ledger)@ == old(ledger)@.with_balance(pocket_id as int, balance as int, event@),
    {
        let updated = match ledger.pocket(pocket_id) {
            Some(pocket) => PocketData {
                owner: pocket.owner.clone(),
                asset: pocket.asset.clone(),
                goal_amount: pocket.goal_amount,
                current_amount: balance,
            },
            None => return,
        };
        let counter = ledger.next_pocket_id;
        ledger.write(counter, pocket_id, updated, event);
    }
}

} // verus!
