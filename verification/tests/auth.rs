use savings_ledger::auth::AuthContext;
use savings_ledger::identity::Identity;

#[test]
fn identity_keeps_its_key() {
    let id = Identity::new("GABC");
    assert_eq!(id.key(), "GABC");
    assert_eq!(Identity::new("").key(), "");
}

#[test]
fn identities_are_the_same_when_their_keys_are() {
    let a = Identity::new("alice");
    assert!(a.same_as(&Identity::new("alice")));
    assert!(a.same_as(&a.clone()));
    assert!(!a.same_as(&Identity::new("alicE")));
    assert!(!a.same_as(&Identity::new("alic")));
    assert!(!a.same_as(&Identity::new("")));
}

#[test]
fn empty_context_vouches_for_nobody() {
    let auth = AuthContext::none();
    assert!(!auth.verify(&Identity::new("alice")));
    assert!(!auth.verify(&Identity::new("")));
}

#[test]
fn permissive_context_vouches_for_everyone() {
    let auth = AuthContext::allow_all();
    assert!(auth.verify(&Identity::new("alice")));
    assert!(auth.verify(&Identity::new("bob")));
}

#[test]
fn context_vouches_for_its_signer_only() {
    let auth = AuthContext::signed_by(&Identity::new("alice"));
    assert!(auth.verify(&Identity::new("alice")));
    assert!(!auth.verify(&Identity::new("bob")));
}

#[test]
fn context_vouches_for_each_signer_added() {
    let mut auth = AuthContext::none();
    auth.add(&Identity::new("alice"));
    assert!(!auth.verify(&Identity::new("bob")));
    auth.add(&Identity::new("bob"));
    auth.add(&Identity::new("alice"));
    assert!(auth.verify(&Identity::new("alice")));
    assert!(auth.verify(&Identity::new("bob")));
    assert!(!auth.verify(&Identity::new("carol")));
}
