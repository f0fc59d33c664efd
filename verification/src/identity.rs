//! Identities of the parties that own pockets and hold credentials.

use vstd::prelude::*;

verus! {

/// An identity, known by its textual key.
///
/// Two identities are the same party exactly when their keys are equal, so all
/// contracts speak of an identity through its view, the key as a sequence of
/// characters.
#[derive(Debug, PartialEq, Eq)]
pub struct Identity {
    key: String,
}

impl View for Identity {
    type V = Seq<char>;

    closed spec fn view(&self) -> Seq<char> {
        self.key@
    }
}

impl Identity {
    /// The identity with the given key.
    pub fn new(key: &str) -> (id: Identity)
        ensures
            id@ == key@,
    {
        Identity { key: key.to_owned() }
    }

    /// The key of this identity.
    pub fn key(&self) -> (key: &str)
        ensures
            key@ == self@,
    {
        self.key.as_str()
    }

    /// Whether `self` and `other` are the same party.
    pub fn same_as(&self, other: &Identity) -> (same: bool)
        ensures
            same == (self@ == other@),
    {
        self.key == other.key
    }
}

impl Clone for Identity {
    fn clone(&self) -> (copy: Identity)
        ensures
            copy == *self,
    {
        Identity { key: self.key.clone() }
    }
}

} // verus!
