//! The authorization that accompanies a call.

use vstd::prelude::*;
use crate::identity::Identity;

verus! {

/// The identities that authorized the current call.
///
/// The host that checks signatures builds one context per call and hands it to
/// the operation, which asks it with [`AuthContext::verify`]. Its view is the
/// set of keys of the identities it vouches for.
pub struct AuthContext {
    everyone: bool,
    signers: Vec<Identity>,
}

impl View for AuthContext {
    type V = Set<Seq<char>>;

    closed spec fn view(&self) -> Set<Seq<char>> {
        Set::new(
            |key: Seq<char>|
                self.everyone || exists|i: int|
                    0 <= i < self.signers.len() && (#[trigger] self.signers[i])@ == key,
        )
    }
}

impl AuthContext {
    /// A context that vouches for nobody.
    pub fn none() -> (auth: AuthContext)
        ensures
            auth@ == Set::<Seq<char>>::empty(),
    {
        let auth = AuthContext { everyone: false, signers: Vec::new() };
        assert(auth@ =~= Set::<Seq<char>>::empty());
        auth
    }

    /// A context that vouches for every identity.
    pub fn allow_all() -> (auth: AuthContext)
        ensures
            auth@ == Set::<Seq<char>>::full(),
    {
        let auth = AuthContext { everyone: true, signers: Vec::new() };
        assert(auth@ =~= Set::<Seq<char>>::full());
        auth
    }

    /// A context that vouches for `signer` and for nobody else.
    pub fn signed_by(signer: &Identity) -> (auth: AuthContext)
        ensures
            auth@ == Set::<Seq<char>>::empty().insert(signer@),
    {
        let mut auth = AuthContext::none();
        auth.add(signer);
        auth
    }

    /// Records that `signer` authorized the call as well.
    pub fn add(&mut self, signer: &Identity)
        ensures
            final(self)@ == old(self)@.insert(signer@),
    {
        let copy = signer.clone();
        self.signers.push(copy);
        proof {
            let before = old(self).signers@;
            let after = self.signers@;
            assert(after[before.len() as int]@ == signer@);
            assert forall|key: Seq<char>| self@.contains(key) == old(self)@.insert(
                signer@,
            ).contains(key) by {
                if old(self)@.contains(key) && !self.everyone {
                    let i = choose|i: int|
                        0 <= i < before.len() && (#[trigger] before[i])@ == key;
                    assert(after[i]@ == key);
                }
            }
            assert(self@ =~= old(self)@.insert(signer@));
        }
    }

    /// Whether `who` authorized the call.
    pub fn verify(&self, who: &Identity) -> (authorized: bool)
        ensures
            authorized == self@.contains(who@),
    {
        if self.everyone {
            return true;
        }
        let mut i: usize = 0;
        while i < self.signers.len()
            invariant
                i <= self.signers.len(),
                forall|j: int| 0 <= j < i ==> (#[trigger] self.signers[j])@ != who@,
            decreases self.signers.len() - i,
        {
            if self.signers[i].same_as(who) {
                return true;
            }
            i += 1;
        }
        false
    }
}

} // verus!
