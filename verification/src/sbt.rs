//! The credential registry: one-time, non-transferable achievement
//! credentials, minted by a single administrator.

use vstd::prelude::*;
use crate::auth::AuthContext;
use crate::error::Error;
use crate::identity::Identity;

verus! {

/// What a credential records.
#[derive(Clone, Copy, Debug, PartialEq, Eq, Structural)]
pub struct SBTMetadata {
    /// The length of the streak that earned the credential, as the
    /// administrator gave it.
    pub streak_days: i128,
    /// The time at which the credential was minted.
    pub minted_at: u64,
}

/// The names of the storage slots of a credential registry.
#[derive(Debug, PartialEq, Eq)]
pub enum DataKey {
    /// The slot of the administrator.
    Admin,
    /// The slot of the credential that the given identity holds.
    SBTOwner(Identity),
}

/// A notification that a registry operation emitted.
#[derive(Debug, PartialEq, Eq)]
pub enum Event {
    /// A credential was minted.
    SbtMinted { to: Identity, streak_days: i128 },
    /// The administrator was replaced.
    AdminUpdated { old_admin: Identity, new_admin: Identity },
}

/// What a notification is, as mathematics.
pub enum Notice {
    SbtMinted { to: Seq<char>, streak_days: int },
    AdminUpdated { old_admin: Seq<char>, new_admin: Seq<char> },
}

impl View for Event {
    type V = Notice;

    open spec fn view(&self) -> Notice {
        match *self {
            Event::SbtMinted { to, streak_days } => Notice::SbtMinted {
                to: to@,
                streak_days: streak_days as int,
            },
            Event::AdminUpdated { old_admin, new_admin } => Notice::AdminUpdated {
                old_admin: old_admin@,
                new_admin: new_admin@,
            },
        }
    }
}

/// The state of a credential registry, as mathematics.
pub struct RegistryState {
    /// The administrator slot: absent until `init`.
    pub admin: Option<Seq<char>>,
    /// The credential slots, by the key of the holder.
    pub credentials: Map<Seq<char>, SBTMetadata>,
    /// Every notification emitted so far, oldest first.
    pub events: Seq<Notice>,
}

impl RegistryState {
    /// The state of a registry on which nothing has happened yet.
    pub open spec fn fresh() -> RegistryState {
        RegistryState { admin: None, credentials: Map::empty(), events: Seq::empty() }
    }

    /// Whether a key names a slot that holds a value.
    pub open spec fn has(self, key: DataKey) -> bool {
        match key {
            DataKey::Admin => self.admin is Some,
            DataKey::SBTOwner(owner) => self.credentials.contains_key(owner@),
        }
    }

    /// The outcome of `init`: the state that follows, or the reason for which
    /// the call is refused.
    pub open spec fn init(self, admin: Seq<char>) -> Result<RegistryState, Error> {
        if self.admin is Some {
            Err(Error::AlreadyInitialized)
        } else {
            Ok(RegistryState { admin: Some(admin), ..self })
        }
    }

    /// The reason, if any, for which a call that only the administrator may
    /// make is refused.
    pub open spec fn refusal(self, auth: Set<Seq<char>>) -> Option<Error> {
        match self.admin {
            None => Some(Error::NotInitialized),
            Some(admin) => if auth.contains(admin) {
                None
            } else {
                Some(Error::Unauthorized)
            },
        }
    }

    /// The outcome of `mint` at time `now`.
    pub open spec fn mint(
        self,
        auth: Set<Seq<char>>,
        now: u64,
        to: Seq<char>,
        streak_days: i128,
    ) -> Result<RegistryState, Error> {
        match self.refusal(auth) {
            Some(error) => Err(error),
            None => if self.credentials.contains_key(to) {
                Err(Error::AlreadyHoldsCredential)
            } else {
                Ok(
                    RegistryState {
                        admin: self.admin,
                        credentials: self.credentials.insert(
                            to,
                            SBTMetadata { streak_days, minted_at: now },
                        ),
                        events: self.events.push(
                            Notice::SbtMinted { to, streak_days: streak_days as int },
                        ),
                    },
                )
            },
        }
    }

    /// The outcome of `update_admin`.
    pub open spec fn update_admin(self, auth: Set<Seq<char>>, new_admin: Seq<char>) -> Result<
        RegistryState,
        Error,
    > {
        match self.refusal(auth) {
            Some(error) => Err(error),
            None => Ok(
                RegistryState {
                    admin: Some(new_admin),
                    credentials: self.credentials,
                    events: self.events.push(
                        Notice::AdminUpdated { old_admin: self.admin->Some_0, new_admin },
                    ),
                },
            ),
        }
    }
}

/// One credential slot: the holder and what the credential records.
struct Holder {
    owner: Identity,
    metadata: SBTMetadata,
}

/// Whether some slot belongs to the identity with the given key.
spec fn holds(holders: Seq<Holder>, key: Seq<char>) -> bool {
    exists|i: int| 0 <= i < holders.len() && (#[trigger] holders[i]).owner@ == key
}

/// The position of a slot that belongs to the identity with the given key.
spec fn place(holders: Seq<Holder>, key: Seq<char>) -> int {
    choose|i: int| 0 <= i < holders.len() && (#[trigger] holders[i]).owner@ == key
}

/// Whether no two slots belong to the same identity.
spec fn distinct(holders: Seq<Holder>) -> bool {
    forall|i: int, j: int|
        0 <= i < j < holders.len() ==> (#[trigger] holders[i]).owner@ != (
        #[trigger] holders[j]).owner@
}

/// The credentials that a list of slots stands for.
spec fn credentials(holders: Seq<Holder>) -> Map<Seq<char>, SBTMetadata> {
    Map::new(
        |key: Seq<char>| holds(holders, key),
        |key: Seq<char>| holders[place(holders, key)].metadata,
    )
}

/// The state that the three parts of a registry's storage stand for.
spec fn model(admin: Option<Identity>, holders: Seq<Holder>, events: Seq<Event>) -> RegistryState {
    RegistryState {
        admin: match admin {
            Some(admin) => Some(admin@),
            None => None,
        },
        credentials: credentials(holders),
        events: events.map_values(|event: Event| event@),
    }
}

/// In a list without repeats, the slot of an identity is the one that
/// `credentials` reads.
proof fn lemma_slot(holders: Seq<Holder>, i: int)
    requires
        distinct(holders),
        0 <= i < holders.len(),
    ensures
        credentials(holders).contains_key(holders[i].owner@),
        credentials(holders)[holders[i].owner@] == holders[i].metadata,
{
    let key = holders[i].owner@;
    let j = place(holders, key);
    assert(holds(holders, key));
    assert(holders[j].owner@ == key);
    assert(i == j);
}

/// Adding a slot for an identity that has none adds one credential and
/// changes no other.
proof fn lemma_push(holders: Seq<Holder>, holder: Holder)
    requires
        distinct(holders),
        !holds(holders, holder.owner@),
    ensures
        distinct(holders.push(holder)),
        credentials(holders.push(holder)) == credentials(holders).insert(
            holder.owner@,
            holder.metadata,
        ),
{
    let longer = holders.push(holder);
    assert forall|i: int, j: int| 0 <= i < j < longer.len() implies (#[trigger] longer[i]).owner@
        != (#[trigger] longer[j]).owner@ by {
        if j == holders.len() {
            assert(holders[i].owner@ != holder.owner@);
        } else {
            assert(holders[i].owner@ != holders[j].owner@);
        }
    }
    let wanted = credentials(holders).insert(holder.owner@, holder.metadata);
    assert forall|key: Seq<char>| #[trigger]
        credentials(longer).contains_key(key) == wanted.contains_key(key) by {
        if holds(holders, key) {
            let i = place(holders, key);
            assert(longer[i].owner@ == key);
        }
        if key == holder.owner@ {
            assert(longer[holders.len() as int].owner@ == key);
        }
        if holds(longer, key) {
            let i = place(longer, key);
            if i < holders.len() {
                assert(holders[i].owner@ == key);
            }
        }
    }
    assert forall|key: Seq<char>| credentials(longer).contains_key(key) implies #[trigger]
        credentials(longer)[key] == wanted[key] by {
        let i = place(longer, key);
        lemma_slot(longer, i);
        if i < holders.len() {
            lemma_slot(holders, i);
        }
    }
    assert(credentials(longer) =~= wanted);
}

/// The storage of one credential registry: the administrator slot, the
/// credential slots, and the notifications that its operations have emitted.
pub struct CredentialRegistry {
    admin: Option<Identity>,
    holders: Vec<Holder>,
    events: Vec<Event>,
}

impl View for CredentialRegistry {
    type V = RegistryState;

    closed spec fn view(&self) -> RegistryState {
        model(self.admin, self.holders@, self.events@)
    }
}

impl CredentialRegistry {
    #[verifier::type_invariant]
    spec fn inv(&self) -> bool {
        distinct(self.holders@)
    }

    /// The storage of a registry on which nothing has happened yet.
    pub fn new() -> (registry: CredentialRegistry)
        ensures
            registry@ == RegistryState::fresh(),
    {
        proof {
            let empty = model(None, Seq::empty(), Seq::empty());
            assert(empty.credentials =~= Map::empty());
            assert(empty.events =~= Seq::empty());
        }
        CredentialRegistry { admin: None, holders: Vec::new(), events: Vec::new() }
    }

    /// The storage of a registry whose administrator slot holds `admin` and
    /// which holds no credential yet: the start of a snapshot of storage kept
    /// elsewhere.
    pub fn with_admin(admin: Option<Identity>) -> (registry: CredentialRegistry)
        ensures
            registry@ == (RegistryState {
                admin: match admin {
                    Some(admin) => Some(admin@),
                    None => None,
                },
                ..RegistryState::fresh()
            }),
    {
        proof {
            let empty = model(admin, Seq::empty(), Seq::empty());
            assert(empty.credentials =~= Map::empty());
            assert(empty.events =~= Seq::empty());
        }
        CredentialRegistry { admin, holders: Vec::new(), events: Vec::new() }
    }

    /// Puts `metadata` into the credential slot of `owner`, as a snapshot of
    /// storage kept elsewhere does, and says whether it did.
    ///
    /// The record is refused, and the storage left as it was, if `owner`
    /// already holds a credential: a credential is never replaced.
    pub fn put_credential(&mut self, owner: Identity, metadata: SBTMetadata) -> (stored: bool)
        ensures
            stored == !old(self)@.credentials.contains_key(owner@),
            final(self)@ == if stored {
                RegistryState {
                    credentials: old(self)@.credentials.insert(owner@, metadata),
                    ..old(self)@
                }
            } else {
                old(self)@
            },
    {
        if self.find(&owner).is_some() {
            return false;
        }
        let CredentialRegistry { admin, mut holders, events } = self.take();
        let holder = Holder { owner, metadata };
        proof {
            lemma_push(holders@, holder);
        }
        holders.push(holder);
        *self = CredentialRegistry { admin, holders, events };
        true
    }

    /// Moves the storage out and leaves that of a fresh registry behind.
    fn take(&mut self) -> (taken: CredentialRegistry)
        ensures
            taken == *old(self),
            distinct(taken.holders@),
    {
        proof {
            use_type_invariant(&*self);
        }
        let mut taken = CredentialRegistry::new();
        core::mem::swap(self, &mut taken);
        taken
    }

    /// The position of the slot of `owner`, if it has one.
    fn find(&self, owner: &Identity) -> (found: Option<usize>)
        ensures
            match found {
                Some(i) => i < self.holders.len() && self.holders[i as int].owner@ == owner@
                    && self@.credentials.contains_key(owner@) && self@.credentials[owner@]
                    == self.holders[i as int].metadata,
                None => !self@.credentials.contains_key(owner@) && !holds(
                    self.holders@,
                    owner@,
                ),
            },
    {
        proof {
            use_type_invariant(self);
        }
        let mut i: usize = 0;
        while i < self.holders.len()
            invariant
                distinct(self.holders@),
                i <= self.holders.len(),
                forall|j: int| 0 <= j < i ==> (#[trigger] self.holders[j]).owner@ != owner@,
            decreases self.holders.len() - i,
        {
            if self.holders[i].owner.same_as(owner) {
                proof {
                    lemma_slot(self.holders@, i as int);
                }
                return Some(i);
            }
            i += 1;
        }
        None
    }

    /// The administrator, if the registry has one.
    pub fn admin(&self) -> (admin: Option<&Identity>)
        ensures
            match admin {
                Some(admin) => self@.admin == Some(admin@),
                None => self@.admin is None,
            },
    {
        self.admin.as_ref()
    }

    /// Whether the slot that `key` names holds a value.
    pub fn has(&self, key: &DataKey) -> (present: bool)
        ensures
            present == self@.has(*key),
    {
        match key {
            DataKey::Admin => self.admin.is_some(),
            DataKey::SBTOwner(owner) => self.find(owner).is_some(),
        }
    }

    /// The credential of `owner`, if it holds one.
    pub fn credential(&self, owner: &Identity) -> (found: Option<SBTMetadata>)
        ensures
            match found {
                Some(metadata) => self@.credentials.contains_key(owner@) && metadata
                    == self@.credentials[owner@],
                None => !self@.credentials.contains_key(owner@),
            },
    {
        match self.find(owner) {
            Some(i) => Some(self.holders[i].metadata),
            None => None,
        }
    }

    /// The notifications emitted so far, oldest first.
    pub fn events(&self) -> (events: &Vec<Event>)
        ensures
            events@.map_values(|event: Event| event@) == self@.events,
    {
        &self.events
    }
}

/// The operations of the credential registry.
///
/// Each takes the storage to work on; those that only the administrator may
/// call take the authorization of the call as well. A refused call leaves the
/// storage as it was and emits nothing.
pub struct SBTContract;

impl SBTContract {
    /// Makes `admin` the administrator of a registry that has none. Nobody
    /// has to authorize the call: whoever calls first decides.
    ///
    /// Refused with `AlreadyInitialized` if the registry has an administrator.
    pub fn init(registry: &mut CredentialRegistry, admin: &Identity) -> (result: Result<(), Error>)
        ensures
            match old(registry)@.init(admin@) {
                Ok(next) => result is Ok && final(registry)@ == next,
                Err(error) => result == Err::<(), Error>(error) && final(registry)@ == old(
                    registry,
                )@,
            },
    {
        if registry.admin.is_some() {
            return Err(Error::AlreadyInitialized);
        }
        let CredentialRegistry { admin: _, holders, events } = registry.take();
        *registry = CredentialRegistry { admin: Some(admin.clone()), holders, events };
        Ok(())
    }

    /// Mints the credential of `to`, recording `streak_days` and the time
    /// `now`.
    ///
    /// Refused with `NotInitialized` if the registry has no administrator,
    /// with `Unauthorized` unless the administrator authorized the call, and
    /// with `AlreadyHoldsCredential` if `to` holds a credential already.
    pub fn mint(
        registry: &mut CredentialRegistry,
        auth: &AuthContext,
        now: u64,
        to: &Identity,
        streak_days: i128,
    ) -> (result: Result<(), Error>)
        ensures
            match old(registry)@.mint(auth@, now, to@, streak_days) {
                Ok(next) => result is Ok && final(registry)@ == next,
                Err(error) => result == Err::<(), Error>(error) && final(registry)@ == old(
                    registry,
                )@,
            },
    {
        match Self::checked_admin(registry, auth) {
            Err(error) => return Err(error),
            Ok(_) => {},
        }
        if registry.find(to).is_some() {
            return Err(Error::AlreadyHoldsCredential);
        }
        let CredentialRegistry { admin, mut holders, mut events } = registry.take();
        let holder = Holder {
            owner: to.clone(),
            metadata: SBTMetadata { streak_days, minted_at: now },
        };
        let event = Event::SbtMinted { to: to.clone(), streak_days };
        proof {
            lemma_push(holders@, holder);
            let next = old(registry)@.mint(auth@, now, to@, streak_days)->Ok_0;
            assert(events@.push(event).map_values(|event: Event| event@) =~= next.events);
        }
        holders.push(holder);
        events.push(event);
        *registry = CredentialRegistry { admin, holders, events };
        Ok(())
    }

    /// Whether `owner` holds a credential. Anyone may ask.
    pub fn has_sbt(registry: &CredentialRegistry, owner: &Identity) -> (held: bool)
        ensures
            held == registry@.credentials.contains_key(owner@),
    {
        registry.credential(owner).is_some()
    }

    /// The credential that `owner` holds. Anyone may ask.
    ///
    /// Refused with `NotFound` if `owner` holds none.
    pub fn get_sbt(registry: &CredentialRegistry, owner: &Identity) -> (result: Result<
        SBTMetadata,
        Error,
    >)
        ensures
            match result {
                Ok(metadata) => registry@.credentials.contains_key(owner@) && metadata
                    == registry@.credentials[owner@],
                Err(error) => error == Error::NotFound && !registry@.credentials.contains_key(
                    owner@,
                ),
            },
    {
        match registry.credential(owner) {
            Some(metadata) => Ok(metadata),
            None => Err(Error::NotFound),
        }
    }

    /// Makes `new_admin` the administrator in place of the current one.
    ///
    /// Refused with `NotInitialized` if the registry has no administrator,
    /// and with `Unauthorized` unless the current administrator authorized
    /// the call.
    pub fn update_admin(
        registry: &mut CredentialRegistry,
        auth: &AuthContext,
        new_admin: &Identity,
    ) -> (result: Result<(), Error>)
        ensures
            match old(registry)@.update_admin(auth@, new_admin@) {
                Ok(next) => result is Ok && final(registry)@ == next,
                Err(error) => result == Err::<(), Error>(error) && final(registry)@ == old(
                    registry,
                )@,
            },
    {
        let old_admin = match Self::checked_admin(registry, auth) {
            Err(error) => return Err(error),
            Ok(admin) => admin.clone(),
        };
        let CredentialRegistry { admin: _, holders, mut events } = registry.take();
        let event = Event::AdminUpdated { old_admin, new_admin: new_admin.clone() };
        proof {
            let next = old(registry)@.update_admin(auth@, new_admin@)->Ok_0;
            assert(events@.push(event).map_values(|event: Event| event@) =~= next.events);
        }
        events.push(event);
        *registry = CredentialRegistry { admin: Some(new_admin.clone()), holders, events };
        Ok(())
    }

    /// The check that the administrator's calls share; on success, the
    /// administrator.
    fn checked_admin<'a>(registry: &'a CredentialRegistry, auth: &AuthContext) -> (result: Result<
        &'a Identity,
        Error,
    >)
        ensures
            match result {
                Ok(admin) => registry@.refusal(auth@) is None && registry@.admin == Some(admin@),
                Err(error) => registry@.refusal(auth@) == Some(error),
            },
    {
        match registry.admin() {
            None => Err(Error::NotInitialized),
            Some(admin) => if auth.verify(admin) {
                Ok(admin)
            } else {
                Err(Error::Unauthorized)
            },
        }
    }
}

} // verus!
