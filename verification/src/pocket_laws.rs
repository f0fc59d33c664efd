//! What holds of every history of a pocket ledger.
//!
//! A history is a sequence of calls, each with the authorization that
//! accompanied it. A refused call leaves the state as it was, so a history
//! may hold calls of any kind, refused or not.

use vstd::prelude::*;
use crate::error::Error;
use crate::pocket::{LedgerState, PocketRecord};

verus! {

/// One call of an operation that may change a ledger.
pub enum Call {
    CreatePocket { auth: Set<Seq<char>>, owner: Seq<char>, asset: Seq<char>, goal_amount: int },
    Deposit { auth: Set<Seq<char>>, pocket_id: int, from: Seq<char>, amount: int },
    Withdraw { auth: Set<Seq<char>>, pocket_id: int, to: Seq<char>, amount: int },
}

/// The outcome of one call in state `state`.
pub open spec fn outcome(state: LedgerState, call: Call) -> Result<LedgerState, Error> {
    match call {
        Call::CreatePocket { auth, owner, asset, goal_amount } => state.create_pocket(
            auth,
            owner,
            asset,
            goal_amount,
        ),
        Call::Deposit { auth, pocket_id, from, amount } => state.deposit(
            auth,
            pocket_id,
            from,
            amount,
        ),
        Call::Withdraw { auth, pocket_id, to, amount } => state.withdraw(
            auth,
            pocket_id,
            to,
            amount,
        ),
    }
}

/// The state after one call: that of its outcome, or `state` itself where the
/// call is refused.
pub open spec fn step(state: LedgerState, call: Call) -> LedgerState {
    match outcome(state, call) {
        Ok(next) => next,
        Err(_) => state,
    }
}

/// The state after a history that starts in `state`.
pub open spec fn run(state: LedgerState, calls: Seq<Call>) -> LedgerState
    decreases calls.len(),
{
    if calls.len() == 0 {
        state
    } else {
        step(run(state, calls.drop_last()), calls.last())
    }
}

/// Whether no call of the history is refused.
pub open spec fn all_succeed(state: LedgerState, calls: Seq<Call>) -> bool
    decreases calls.len(),
{
    calls.len() == 0 || (all_succeed(state, calls.drop_last()) && outcome(
        run(state, calls.drop_last()),
        calls.last(),
    ) is Ok)
}

/// The identifiers that the successful creations of a history return, in the
/// order of the calls.
pub open spec fn created(state: LedgerState, calls: Seq<Call>) -> Seq<int>
    decreases calls.len(),
{
    if calls.len() == 0 {
        Seq::empty()
    } else {
        let before = run(state, calls.drop_last());
        if calls.last() is CreatePocket && outcome(before, calls.last()) is Ok {
            created(state, calls.drop_last()).push(before.next_id())
        } else {
            created(state, calls.drop_last())
        }
    }
}

/// The sum of the amounts of the deposits into pocket `pocket_id`.
pub open spec fn deposited(calls: Seq<Call>, pocket_id: int) -> int
    decreases calls.len(),
{
    if calls.len() == 0 {
        0
    } else {
        deposited(calls.drop_last(), pocket_id) + match calls.last() {
            Call::Deposit { pocket_id: id, amount, .. } => if id == pocket_id {
                amount
            } else {
                0
            },
            _ => 0,
        }
    }
}

/// The sum of the amounts of the withdrawals from pocket `pocket_id`.
pub open spec fn withdrawn(calls: Seq<Call>, pocket_id: int) -> int
    decreases calls.len(),
{
    if calls.len() == 0 {
        0
    } else {
        withdrawn(calls.drop_last(), pocket_id) + match calls.last() {
            Call::Withdraw { pocket_id: id, amount, .. } => if id == pocket_id {
                amount
            } else {
                0
            },
            _ => 0,
        }
    }
}

/// The balance of pocket `pocket_id`, read as zero while the pocket does not
/// exist.
pub open spec fn balance(state: LedgerState, pocket_id: int) -> int {
    if state.pockets.contains_key(pocket_id) {
        state.pockets[pocket_id].current_amount
    } else {
        0
    }
}

/// A call keeps a ledger well formed: the counter stays ahead of every
/// pocket, and no balance becomes negative.
pub proof fn step_keeps_invariant(state: LedgerState, call: Call)
    requires
        state.wf(),
    ensures
        step(state, call).wf(),
{
}

/// A call never removes a pocket, and never changes its owner, its asset or
/// its goal.
pub proof fn pockets_are_permanent(state: LedgerState, call: Call, pocket_id: int)
    requires
        state.wf(),
        state.pockets.contains_key(pocket_id),
    ensures
        step(state, call).pockets.contains_key(pocket_id),
        step(state, call).pockets[pocket_id] == (PocketRecord {
            current_amount: step(state, call).pockets[pocket_id].current_amount,
            ..state.pockets[pocket_id]
        }),
{
}

/// Whatever a history holds, the k-th pocket that it creates gets the
/// identifier that is k steps past the counter at the start, and the counter
/// ends just past the last of them.
pub proof fn identifiers_are_sequential(state: LedgerState, calls: Seq<Call>)
    ensures
        forall|k: int|
            0 <= k < created(state, calls).len() ==> #[trigger] created(state, calls)[k]
                == state.next_id() + k,
        run(state, calls).next_id() == state.next_id() + created(state, calls).len(),
    decreases calls.len(),
{
    if calls.len() > 0 {
        identifiers_are_sequential(state, calls.drop_last());
    }
}

/// On a ledger that starts empty, the pockets get the identifiers
/// 1, 2, 3, ... in the order of their creation, with no gap and no repeat.
pub proof fn identifiers_count_from_one(calls: Seq<Call>)
    ensures
        forall|k: int|
            0 <= k < created(LedgerState::fresh(), calls).len() ==> #[trigger] created(
                LedgerState::fresh(),
                calls,
            )[k] == k + 1,
{
    identifiers_are_sequential(LedgerState::fresh(), calls);
}

/// After a history in which no call is refused, the balance of a pocket is
/// what it was at the start, plus the deposits into it, minus the
/// withdrawals from it.
pub proof fn balance_is_deposits_minus_withdrawals(
    state: LedgerState,
    calls: Seq<Call>,
    pocket_id: int,
)
    requires
        state.wf(),
        all_succeed(state, calls),
    ensures
        run(state, calls).wf(),
        balance(run(state, calls), pocket_id) == balance(state, pocket_id) + deposited(
            calls,
            pocket_id,
        ) - withdrawn(calls, pocket_id),
    decreases calls.len(),
{
    if calls.len() > 0 {
        balance_is_deposits_minus_withdrawals(state, calls.drop_last(), pocket_id);
    }
}

/// At every point of a history, refused calls or not, every balance is at
/// least zero.
pub proof fn balance_is_never_negative(
    state: LedgerState,
    calls: Seq<Call>,
    k: int,
    pocket_id: int,
)
    requires
        state.wf(),
        0 <= k <= calls.len(),
    ensures
        balance(run(state, calls.take(k)), pocket_id) >= 0,
        run(state, calls.take(k)).wf(),
    decreases k,
{
    if k > 0 {
        balance_is_never_negative(state, calls, k - 1, pocket_id);
        assert(calls.take(k).drop_last() =~= calls.take(k - 1));
    }
}

/// A withdrawal of more than the pocket holds is refused with
/// `InsufficientBalance` and changes nothing, when the owner asks for it
/// with authorization.
pub proof fn withdrawal_beyond_balance_is_refused(
    state: LedgerState,
    auth: Set<Seq<char>>,
    pocket_id: int,
    to: Seq<char>,
    amount: int,
)
    requires
        state.wf(),
        state.pockets.contains_key(pocket_id),
        state.pockets[pocket_id].owner == to,
        auth.contains(to),
        amount > state.pockets[pocket_id].current_amount,
    ensures
        state.withdraw(auth, pocket_id, to, amount) == Err::<LedgerState, Error>(
            Error::InsufficientBalance,
        ),
        step(state, Call::Withdraw { auth, pocket_id, to, amount }) == state,
{
}

/// A deposit or a withdrawal of an amount that is not positive is refused
/// with `InvalidAmount` and changes nothing, whoever asks and whatever the
/// pocket.
pub proof fn amount_must_be_positive(
    state: LedgerState,
    auth: Set<Seq<char>>,
    pocket_id: int,
    who: Seq<char>,
    amount: int,
)
    requires
        amount <= 0,
    ensures
        state.deposit(auth, pocket_id, who, amount) == Err::<LedgerState, Error>(
            Error::InvalidAmount,
        ),
        state.withdraw(auth, pocket_id, who, amount) == Err::<LedgerState, Error>(
            Error::InvalidAmount,
        ),
        step(state, Call::Deposit { auth, pocket_id, from: who, amount }) == state,
        step(state, Call::Withdraw { auth, pocket_id, to: who, amount }) == state,
{
}

/// A deposit into or a withdrawal from a pocket by anyone but its owner is
/// refused with `Unauthorized` and changes nothing, whatever authorization
/// the call carries.
pub proof fn only_the_owner_moves_money(
    state: LedgerState,
    auth: Set<Seq<char>>,
    pocket_id: int,
    who: Seq<char>,
    amount: int,
)
    requires
        amount > 0,
        state.pockets.contains_key(pocket_id),
        state.pockets[pocket_id].owner != who,
    ensures
        state.deposit(auth, pocket_id, who, amount) == Err::<LedgerState, Error>(
            Error::Unauthorized,
        ),
        state.withdraw(auth, pocket_id, who, amount) == Err::<LedgerState, Error>(
            Error::Unauthorized,
        ),
        step(state, Call::Deposit { auth, pocket_id, from: who, amount }) == state,
        step(state, Call::Withdraw { auth, pocket_id, to: who, amount }) == state,
{
}

} // verus!
