//! What holds of every history of a credential registry.
//!
//! A history is a sequence of calls, each with the authorization that
//! accompanied it. A refused call leaves the state as it was, so a history
//! may hold calls of any kind, refused or not.

use vstd::prelude::*;
use crate::error::Error;
use crate::sbt::{RegistryState, SBTMetadata};

verus! {

/// One call of an operation that may change a registry.
pub enum Call {
    Init { admin: Seq<char> },
    Mint { auth: Set<Seq<char>>, now: u64, to: Seq<char>, streak_days: i128 },
    UpdateAdmin { auth: Set<Seq<char>>, new_admin: Seq<char> },
}

/// The outcome of one call in state `state`.
pub open spec fn outcome(state: RegistryState, call: Call) -> Result<RegistryState, Error> {
    match call {
        Call::Init { admin } => state.init(admin),
        Call::Mint { auth, now, to, streak_days } => state.mint(auth, now, to, streak_days),
        Call::UpdateAdmin { auth, new_admin } => state.update_admin(auth, new_admin),
    }
}

/// The state after one call: that of its outcome, or `state` itself where the
/// call is refused.
pub open spec fn step(state: RegistryState, call: Call) -> RegistryState {
    match outcome(state, call) {
        Ok(next) => next,
        Err(_) => state,
    }
}

/// The state after a history that starts in `state`.
pub open spec fn run(state: RegistryState, calls: Seq<Call>) -> RegistryState
    decreases calls.len(),
{
    if calls.len() == 0 {
        state
    } else {
        step(run(state, calls.drop_last()), calls.last())
    }
}

/// Whether call `k` of the history is a mint for `who` that is not refused.
pub open spec fn mints(state: RegistryState, calls: Seq<Call>, k: int, who: Seq<char>) -> bool {
    &&& 0 <= k < calls.len()
    &&& calls[k] matches Call::Mint { to, .. }
    &&& to == who
    &&& outcome(run(state, calls.take(k)), calls[k]) is Ok
}

/// A call never removes a credential and never changes one.
pub proof fn credentials_are_permanent(state: RegistryState, call: Call, who: Seq<char>)
    requires
        state.credentials.contains_key(who),
    ensures
        step(state, call).credentials.contains_key(who),
        step(state, call).credentials[who] == state.credentials[who],
{
}

/// Where a call leaves an identity with a credential that it did not hold
/// before, the call is a mint for that identity, and it is not refused.
pub proof fn only_mint_gives_credential(state: RegistryState, call: Call, who: Seq<char>)
    requires
        !state.credentials.contains_key(who),
        step(state, call).credentials.contains_key(who),
    ensures
        call matches Call::Mint { to, .. } && to == who,
        outcome(state, call) is Ok,
{
}

/// A mint that is not refused leaves its recipient with a credential that
/// records the streak and the time of the call.
pub proof fn mint_gives_credential(
    state: RegistryState,
    auth: Set<Seq<char>>,
    now: u64,
    to: Seq<char>,
    streak_days: i128,
)
    requires
        state.mint(auth, now, to, streak_days) is Ok,
    ensures
        !state.credentials.contains_key(to),
        state.mint(auth, now, to, streak_days)->Ok_0.credentials.contains_key(to),
        state.mint(auth, now, to, streak_days)->Ok_0.credentials[to] == (SBTMetadata {
            streak_days,
            minted_at: now,
        }),
{
}

/// After a history, an identity holds a credential exactly if it held one
/// at the start or some call of the history minted one for it.
pub proof fn held_iff_minted(state: RegistryState, calls: Seq<Call>, who: Seq<char>)
    ensures
        run(state, calls).credentials.contains_key(who) <==> state.credentials.contains_key(who)
            || exists|k: int| mints(state, calls, k, who),
    decreases calls.len(),
{
    if calls.len() > 0 {
        let earlier = calls.drop_last();
        let n = earlier.len() as int;
        held_iff_minted(state, earlier, who);
        assert(calls.take(n) =~= earlier);
        assert forall|k: int| 0 <= k < n implies mints(state, earlier, k, who) == mints(
            state,
            calls,
            k,
            who,
        ) by {
            assert(earlier.take(k) =~= calls.take(k));
        }
        if run(state, calls).credentials.contains_key(who) && !state.credentials.contains_key(
            who,
        ) {
            if run(state, earlier).credentials.contains_key(who) {
                let k = choose|k: int| mints(state, earlier, k, who);
                assert(mints(state, calls, k, who));
            } else {
                only_mint_gives_credential(run(state, earlier), calls.last(), who);
                assert(mints(state, calls, n, who));
            }
        }
        if exists|k: int| mints(state, calls, k, who) {
            let k = choose|k: int| mints(state, calls, k, who);
            if k < n {
                assert(mints(state, earlier, k, who));
                credentials_are_permanent(run(state, earlier), calls.last(), who);
            }
        }
        if state.credentials.contains_key(who) {
            credentials_are_permanent(run(state, earlier), calls.last(), who);
        }
    }
}

/// On a registry that starts empty, an identity holds no credential until a
/// call mints one for it, and holds one ever after.
pub proof fn held_from_first_mint_on(calls: Seq<Call>, who: Seq<char>)
    ensures
        !RegistryState::fresh().credentials.contains_key(who),
        run(RegistryState::fresh(), calls).credentials.contains_key(who) <==> exists|k: int|
            mints(RegistryState::fresh(), calls, k, who),
{
    held_iff_minted(RegistryState::fresh(), calls, who);
}

/// In a history, at most one call mints a credential for a given identity.
pub proof fn minted_at_most_once(
    state: RegistryState,
    calls: Seq<Call>,
    j: int,
    k: int,
    who: Seq<char>,
)
    requires
        mints(state, calls, j, who),
        mints(state, calls, k, who),
    ensures
        j == k,
{
    if j < k {
        minted_before(state, calls, j, k, who);
    } else if k < j {
        minted_before(state, calls, k, j, who);
    }
}

/// Once a call has minted a credential for an identity, no later call of the
/// history does.
proof fn minted_before(state: RegistryState, calls: Seq<Call>, j: int, k: int, who: Seq<char>)
    requires
        mints(state, calls, j, who),
        j < k < calls.len(),
    ensures
        !mints(state, calls, k, who),
{
    let prefix = calls.take(k);
    assert(prefix.take(j) =~= calls.take(j));
    assert(mints(state, prefix, j, who));
    held_iff_minted(state, prefix, who);
}

/// A mint for an identity that holds a credential already is refused with
/// `AlreadyHoldsCredential` and changes nothing, when the administrator
/// asks for it with authorization.
pub proof fn second_mint_is_refused(
    state: RegistryState,
    auth: Set<Seq<char>>,
    now: u64,
    to: Seq<char>,
    streak_days: i128,
)
    requires
        state.refusal(auth) is None,
        state.credentials.contains_key(to),
    ensures
        state.mint(auth, now, to, streak_days) == Err::<RegistryState, Error>(
            Error::AlreadyHoldsCredential,
        ),
        step(state, Call::Mint { auth, now, to, streak_days }) == state,
{
}

/// A mint that the administrator did not authorize is refused with
/// `Unauthorized` and changes nothing.
pub proof fn only_the_admin_mints(
    state: RegistryState,
    auth: Set<Seq<char>>,
    now: u64,
    to: Seq<char>,
    streak_days: i128,
)
    requires
        state.admin matches Some(admin) && !auth.contains(admin),
    ensures
        state.mint(auth, now, to, streak_days) == Err::<RegistryState, Error>(
            Error::Unauthorized,
        ),
        step(state, Call::Mint { auth, now, to, streak_days }) == state,
{
}

/// After the administrator has been replaced, the new one decides: a mint
/// that the new administrator did not authorize is refused with
/// `Unauthorized`, the old administrator's too, and one that the new
/// administrator authorized for an identity without a credential succeeds.
pub proof fn new_admin_replaces_old(
    state: RegistryState,
    auth: Set<Seq<char>>,
    new_admin: Seq<char>,
    later: Set<Seq<char>>,
    now: u64,
    to: Seq<char>,
    streak_days: i128,
)
    requires
        state.update_admin(auth, new_admin) is Ok,
    ensures
        state.update_admin(auth, new_admin)->Ok_0.admin == Some(new_admin),
        !later.contains(new_admin) ==> state.update_admin(auth, new_admin)->Ok_0.mint(
            later,
            now,
            to,
            streak_days,
        ) == Err::<RegistryState, Error>(Error::Unauthorized),
        later.contains(new_admin) && !state.credentials.contains_key(to) ==> state.update_admin(
            auth,
            new_admin,
        )->Ok_0.mint(later, now, to, streak_days) is Ok,
{
}

/// A registry is initialized once: after an `init` that is not refused,
/// every further `init` is refused with `AlreadyInitialized`, and the
/// administrator stays the one of the first call.
pub proof fn init_only_once(state: RegistryState, first: Seq<char>, second: Seq<char>)
    requires
        state.init(first) is Ok,
    ensures
        state.init(first)->Ok_0.admin == Some(first),
        state.init(first)->Ok_0.init(second) == Err::<RegistryState, Error>(
            Error::AlreadyInitialized,
        ),
        step(state.init(first)->Ok_0, Call::Init { admin: second }) == state.init(first)->Ok_0,
{
}

} // verus!
