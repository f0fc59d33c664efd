use savings_ledger::auth::AuthContext;
use savings_ledger::error::Error;
use savings_ledger::identity::Identity;
use savings_ledger::pocket::{DataKey, Event, PocketContract, PocketData, PocketLedger};

fn balance(ledger: &PocketLedger, pocket_id: i128) -> i128 {
    PocketContract::get_pocket(ledger, pocket_id).unwrap().current_amount
}

#[test]
fn test_create_pocket() {
    let mut ledger = PocketLedger::new();
    let auth = AuthContext::allow_all();

    let owner = Identity::new("owner");
    let asset = Identity::new("asset");
    let goal: i128 = 1_000_000;

    let pocket_id = PocketContract::create_pocket(&mut ledger, &auth, &owner, &asset, goal).unwrap();

    assert_eq!(pocket_id, 1);
}

#[test]
fn test_deposit() {
    let mut ledger = PocketLedger::new();
    let auth = AuthContext::allow_all();

    let owner = Identity::new("owner");
    let asset = Identity::new("asset");

    let pocket_id =
        PocketContract::create_pocket(&mut ledger, &auth, &owner, &asset, 1_000_000).unwrap();
    PocketContract::deposit(&mut ledger, &auth, pocket_id, &owner, 100_000).unwrap();

    let pocket = PocketContract::get_pocket(&ledger, pocket_id).unwrap();
    assert_eq!(pocket.current_amount, 100_000);
}

#[test]
fn test_withdraw() {
    let mut ledger = PocketLedger::new();
    let auth = AuthContext::allow_all();

    let owner = Identity::new("owner");
    let asset = Identity::new("asset");

    let pocket_id =
        PocketContract::create_pocket(&mut ledger, &auth, &owner, &asset, 1_000_000).unwrap();
    PocketContract::deposit(&mut ledger, &auth, pocket_id, &owner, 100_000).unwrap();
    PocketContract::withdraw(&mut ledger, &auth, pocket_id, &owner, 50_000).unwrap();

    let pocket = PocketContract::get_pocket(&ledger, pocket_id).unwrap();
    assert_eq!(pocket.current_amount, 50_000);
}

#[test]
fn test_multiple_pockets() {
    let mut ledger = PocketLedger::new();
    let auth = AuthContext::allow_all();

    let owner = Identity::new("owner");
    let asset = Identity::new("asset");

    let pocket_1 =
        PocketContract::create_pocket(&mut ledger, &auth, &owner, &asset, 1_000_000).unwrap();
    let pocket_2 =
        PocketContract::create_pocket(&mut ledger, &auth, &owner, &asset, 2_000_000).unwrap();

    assert_eq!(pocket_1, 1);
    assert_eq!(pocket_2, 2);
}

#[test]
fn new_pocket_holds_what_was_given_and_nothing_saved() {
    let mut ledger = PocketLedger::new();
    let owner = Identity::new("owner");
    let asset = Identity::new("asset");
    let auth = AuthContext::signed_by(&owner);

    let id = PocketContract::create_pocket(&mut ledger, &auth, &owner, &asset, 750).unwrap();
    let pocket = PocketContract::get_pocket(&ledger, id).unwrap();

    assert_eq!(pocket.owner.key(), "owner");
    assert_eq!(pocket.asset.key(), "asset");
    assert_eq!(pocket.goal_amount, 750);
    assert_eq!(pocket.current_amount, 0);
}

#[test]
fn identifiers_run_from_one_without_gaps() {
    let mut ledger = PocketLedger::new();
    let auth = AuthContext::allow_all();
    let asset = Identity::new("asset");
    let owners = ["a", "b", "c", "d", "e", "f", "g"];
    let mut expected: i128 = 1;
    for name in owners {
        let owner = Identity::new(name);
        assert_eq!(ledger.next_id(), expected);
        let id = PocketContract::create_pocket(&mut ledger, &auth, &owner, &asset, 10).unwrap();
        assert_eq!(id, expected);
        expected += 1;
    }
    assert_eq!(ledger.next_id(), 8);
}

#[test]
fn refused_calls_do_not_use_up_identifiers() {
    let mut ledger = PocketLedger::new();
    let owner = Identity::new("owner");
    let stranger = Identity::new("stranger");
    let asset = Identity::new("asset");
    let auth = AuthContext::signed_by(&owner);

    assert_eq!(PocketContract::create_pocket(&mut ledger, &auth, &owner, &asset, 1), Ok(1));
    assert_eq!(
        PocketContract::create_pocket(&mut ledger, &auth, &stranger, &asset, 1),
        Err(Error::Unauthorized)
    );
    assert_eq!(PocketContract::deposit(&mut ledger, &auth, 1, &owner, 0), Err(Error::InvalidAmount));
    assert_eq!(PocketContract::create_pocket(&mut ledger, &auth, &owner, &asset, 1), Ok(2));
}

#[test]
fn instances_do_not_share_their_counter() {
    let auth = AuthContext::allow_all();
    let owner = Identity::new("owner");
    let asset = Identity::new("asset");
    let mut first = PocketLedger::new();
    let mut second = PocketLedger::new();

    assert_eq!(PocketContract::create_pocket(&mut first, &auth, &owner, &asset, 1), Ok(1));
    assert_eq!(PocketContract::create_pocket(&mut first, &auth, &owner, &asset, 1), Ok(2));
    assert_eq!(PocketContract::create_pocket(&mut second, &auth, &owner, &asset, 1), Ok(1));
}

#[test]
fn create_pocket_without_authorization_is_refused() {
    let mut ledger = PocketLedger::new();
    let owner = Identity::new("owner");
    let asset = Identity::new("asset");

    let result = PocketContract::create_pocket(&mut ledger, &AuthContext::none(), &owner, &asset, 5);

    assert_eq!(result, Err(Error::Unauthorized));
    assert_eq!(ledger.next_id(), 1);
    assert!(!ledger.has(&DataKey::NextPocketId));
    assert!(!ledger.has(&DataKey::Pocket(1)));
    assert!(ledger.events().is_empty());
}

#[test]
fn create_pocket_is_refused_when_identifiers_are_used_up() {
    let mut ledger = PocketLedger::with_counter(Some(i128::MAX)).unwrap();
    let owner = Identity::new("owner");
    let asset = Identity::new("asset");

    let result = PocketContract::create_pocket(&mut ledger, &AuthContext::allow_all(), &owner, &asset, 5);

    assert_eq!(result, Err(Error::ArithmeticOverflow));
    assert_eq!(ledger.next_id(), i128::MAX);
    assert!(!ledger.has(&DataKey::Pocket(i128::MAX)));
}

#[test]
fn last_identifier_before_the_limit_is_handed_out() {
    let mut ledger = PocketLedger::with_counter(Some(i128::MAX - 1)).unwrap();
    let owner = Identity::new("owner");
    let asset = Identity::new("asset");

    let result = PocketContract::create_pocket(&mut ledger, &AuthContext::allow_all(), &owner, &asset, 5);

    assert_eq!(result, Ok(i128::MAX - 1));
    assert_eq!(ledger.next_id(), i128::MAX);
}

#[test]
fn balance_is_deposits_minus_withdrawals() {
    let mut ledger = PocketLedger::new();
    let owner = Identity::new("owner");
    let asset = Identity::new("asset");
    let auth = AuthContext::signed_by(&owner);
    let id = PocketContract::create_pocket(&mut ledger, &auth, &owner, &asset, 100).unwrap();

    let moves: [i128; 7] = [500, -200, 40, -340, 1_000, -999, 7];
    let mut expected: i128 = 0;
    for amount in moves {
        if amount > 0 {
            PocketContract::deposit(&mut ledger, &auth, id, &owner, amount).unwrap();
        } else {
            PocketContract::withdraw(&mut ledger, &auth, id, &owner, -amount).unwrap();
        }
        expected += amount;
        assert_eq!(balance(&ledger, id), expected);
        assert!(balance(&ledger, id) >= 0);
    }
    assert_eq!(balance(&ledger, id), 8);
}

#[test]
fn deposit_may_exceed_the_goal() {
    let mut ledger = PocketLedger::new();
    let owner = Identity::new("owner");
    let asset = Identity::new("asset");
    let auth = AuthContext::signed_by(&owner);
    let id = PocketContract::create_pocket(&mut ledger, &auth, &owner, &asset, 100).unwrap();

    assert_eq!(PocketContract::deposit(&mut ledger, &auth, id, &owner, 101), Ok(()));

    let pocket = PocketContract::get_pocket(&ledger, id).unwrap();
    assert_eq!(pocket.current_amount, 101);
    assert_eq!(pocket.goal_amount, 100);
}

#[test]
fn withdraw_of_the_whole_balance_leaves_zero() {
    let mut ledger = PocketLedger::new();
    let owner = Identity::new("owner");
    let asset = Identity::new("asset");
    let auth = AuthContext::signed_by(&owner);
    let id = PocketContract::create_pocket(&mut ledger, &auth, &owner, &asset, 100).unwrap();
    PocketContract::deposit(&mut ledger, &auth, id, &owner, 60).unwrap();

    assert_eq!(PocketContract::withdraw(&mut ledger, &auth, id, &owner, 60), Ok(()));
    assert_eq!(balance(&ledger, id), 0);
}

#[test]
fn withdraw_beyond_balance_is_refused() {
    let mut ledger = PocketLedger::new();
    let owner = Identity::new("owner");
    let asset = Identity::new("asset");
    let auth = AuthContext::signed_by(&owner);
    let id = PocketContract::create_pocket(&mut ledger, &auth, &owner, &asset, 100).unwrap();
    PocketContract::deposit(&mut ledger, &auth, id, &owner, 60).unwrap();
    let events_before = ledger.events().len();

    let result = PocketContract::withdraw(&mut ledger, &auth, id, &owner, 61);

    assert_eq!(result, Err(Error::InsufficientBalance));
    assert_eq!(balance(&ledger, id), 60);
    assert_eq!(ledger.events().len(), events_before);
}

#[test]
fn withdraw_from_an_empty_pocket_is_refused() {
    let mut ledger = PocketLedger::new();
    let owner = Identity::new("owner");
    let asset = Identity::new("asset");
    let auth = AuthContext::signed_by(&owner);
    let id = PocketContract::create_pocket(&mut ledger, &auth, &owner, &asset, 100).unwrap();

    assert_eq!(
        PocketContract::withdraw(&mut ledger, &auth, id, &owner, 1),
        Err(Error::InsufficientBalance)
    );
    assert_eq!(balance(&ledger, id), 0);
}

#[test]
fn amounts_that_are_not_positive_are_refused() {
    let mut ledger = PocketLedger::new();
    let owner = Identity::new("owner");
    let asset = Identity::new("asset");
    let auth = AuthContext::signed_by(&owner);
    let id = PocketContract::create_pocket(&mut ledger, &auth, &owner, &asset, 100).unwrap();
    PocketContract::deposit(&mut ledger, &auth, id, &owner, 60).unwrap();
    let events_before = ledger.events().len();

    for amount in [0, -1, -60, i128::MIN] {
        assert_eq!(
            PocketContract::deposit(&mut ledger, &auth, id, &owner, amount),
            Err(Error::InvalidAmount)
        );
        assert_eq!(
            PocketContract::withdraw(&mut ledger, &auth, id, &owner, amount),
            Err(Error::InvalidAmount)
        );
    }
    assert_eq!(balance(&ledger, id), 60);
    assert_eq!(ledger.events().len(), events_before);
}

#[test]
fn amount_is_checked_before_anything_else() {
    let mut ledger = PocketLedger::new();
    let stranger = Identity::new("stranger");

    assert_eq!(
        PocketContract::deposit(&mut ledger, &AuthContext::none(), 42, &stranger, 0),
        Err(Error::InvalidAmount)
    );
    assert_eq!(
        PocketContract::withdraw(&mut ledger, &AuthContext::none(), 42, &stranger, -5),
        Err(Error::InvalidAmount)
    );
}

#[test]
fn unknown_pocket_is_not_found() {
    let mut ledger = PocketLedger::new();
    let owner = Identity::new("owner");
    let asset = Identity::new("asset");
    let auth = AuthContext::signed_by(&owner);
    PocketContract::create_pocket(&mut ledger, &auth, &owner, &asset, 100).unwrap();

    for id in [0, 2, -1, i128::MAX, i128::MIN] {
        assert_eq!(PocketContract::deposit(&mut ledger, &auth, id, &owner, 5), Err(Error::NotFound));
        assert_eq!(PocketContract::withdraw(&mut ledger, &auth, id, &owner, 5), Err(Error::NotFound));
        assert!(matches!(PocketContract::get_pocket(&ledger, id), Err(Error::NotFound)));
    }
    assert_eq!(balance(&ledger, 1), 0);
}

#[test]
fn get_pocket_on_a_fresh_ledger_is_not_found() {
    let ledger = PocketLedger::new();
    assert!(matches!(PocketContract::get_pocket(&ledger, 1), Err(Error::NotFound)));
}

#[test]
fn only_the_owner_moves_money() {
    let mut ledger = PocketLedger::new();
    let owner = Identity::new("owner");
    let stranger = Identity::new("stranger");
    let asset = Identity::new("asset");
    let id = PocketContract::create_pocket(
        &mut ledger,
        &AuthContext::signed_by(&owner),
        &owner,
        &asset,
        100,
    )
    .unwrap();
    PocketContract::deposit(&mut ledger, &AuthContext::signed_by(&owner), id, &owner, 60).unwrap();
    let events_before = ledger.events().len();

    // The stranger's own authorization is valid, and still the call is refused.
    let theirs = AuthContext::signed_by(&stranger);
    assert_eq!(
        PocketContract::deposit(&mut ledger, &theirs, id, &stranger, 5),
        Err(Error::Unauthorized)
    );
    assert_eq!(
        PocketContract::withdraw(&mut ledger, &theirs, id, &stranger, 5),
        Err(Error::Unauthorized)
    );
    let everyone = AuthContext::allow_all();
    assert_eq!(
        PocketContract::withdraw(&mut ledger, &everyone, id, &stranger, 5),
        Err(Error::Unauthorized)
    );
    assert_eq!(balance(&ledger, id), 60);
    assert_eq!(ledger.events().len(), events_before);
}

#[test]
fn owner_without_authorization_is_refused() {
    let mut ledger = PocketLedger::new();
    let owner = Identity::new("owner");
    let stranger = Identity::new("stranger");
    let asset = Identity::new("asset");
    let id = PocketContract::create_pocket(
        &mut ledger,
        &AuthContext::signed_by(&owner),
        &owner,
        &asset,
        100,
    )
    .unwrap();

    assert_eq!(
        PocketContract::deposit(&mut ledger, &AuthContext::none(), id, &owner, 5),
        Err(Error::Unauthorized)
    );
    assert_eq!(
        PocketContract::deposit(&mut ledger, &AuthContext::signed_by(&stranger), id, &owner, 5),
        Err(Error::Unauthorized)
    );
    assert_eq!(balance(&ledger, id), 0);
}

#[test]
fn deposit_that_would_overflow_is_refused() {
    let mut ledger = PocketLedger::new();
    let owner = Identity::new("owner");
    let asset = Identity::new("asset");
    let auth = AuthContext::signed_by(&owner);
    let id = PocketContract::create_pocket(&mut ledger, &auth, &owner, &asset, 100).unwrap();
    PocketContract::deposit(&mut ledger, &auth, id, &owner, i128::MAX - 1).unwrap();

    assert_eq!(
        PocketContract::deposit(&mut ledger, &auth, id, &owner, 2),
        Err(Error::ArithmeticOverflow)
    );
    assert_eq!(balance(&ledger, id), i128::MAX - 1);

    assert_eq!(PocketContract::deposit(&mut ledger, &auth, id, &owner, 1), Ok(()));
    assert_eq!(balance(&ledger, id), i128::MAX);
}

#[test]
fn pockets_do_not_touch_each_other() {
    let mut ledger = PocketLedger::new();
    let alice = Identity::new("alice");
    let bob = Identity::new("bob");
    let asset = Identity::new("asset");
    let auth = AuthContext::allow_all();
    let a = PocketContract::create_pocket(&mut ledger, &auth, &alice, &asset, 10).unwrap();
    let b = PocketContract::create_pocket(&mut ledger, &auth, &bob, &asset, 20).unwrap();

    PocketContract::deposit(&mut ledger, &auth, a, &alice, 7).unwrap();
    PocketContract::deposit(&mut ledger, &auth, b, &bob, 9).unwrap();
    PocketContract::withdraw(&mut ledger, &auth, b, &bob, 4).unwrap();

    assert_eq!(balance(&ledger, a), 7);
    assert_eq!(balance(&ledger, b), 5);
    assert_eq!(PocketContract::get_pocket(&ledger, a).unwrap().owner.key(), "alice");
    assert_eq!(PocketContract::get_pocket(&ledger, b).unwrap().goal_amount, 20);
}

#[test]
fn savings_scenario() {
    let mut ledger = PocketLedger::new();
    let a = Identity::new("A");
    let x = Identity::new("X");
    let auth = AuthContext::signed_by(&a);

    assert_eq!(PocketContract::create_pocket(&mut ledger, &auth, &a, &x, 1_000_000), Ok(1));
    assert_eq!(PocketContract::deposit(&mut ledger, &auth, 1, &a, 100_000), Ok(()));
    assert_eq!(balance(&ledger, 1), 100_000);
    assert_eq!(PocketContract::withdraw(&mut ledger, &auth, 1, &a, 50_000), Ok(()));
    assert_eq!(balance(&ledger, 1), 50_000);
    assert_eq!(
        PocketContract::withdraw(&mut ledger, &auth, 1, &a, 1_000_000),
        Err(Error::InsufficientBalance)
    );
    assert_eq!(balance(&ledger, 1), 50_000);
}

#[test]
fn each_successful_call_emits_one_event() {
    let mut ledger = PocketLedger::new();
    let owner = Identity::new("owner");
    let asset = Identity::new("asset");
    let auth = AuthContext::signed_by(&owner);

    PocketContract::create_pocket(&mut ledger, &auth, &owner, &asset, 100).unwrap();
    PocketContract::deposit(&mut ledger, &auth, 1, &owner, 30).unwrap();
    PocketContract::withdraw(&mut ledger, &auth, 1, &owner, 10).unwrap();
    let _ = PocketContract::withdraw(&mut ledger, &auth, 1, &owner, 100);

    let events = ledger.events();
    assert_eq!(events.len(), 3);
    match &events[0] {
        Event::PocketCreated { owner, pocket_id, goal_amount } => {
            assert_eq!(owner.key(), "owner");
            assert_eq!(*pocket_id, 1);
            assert_eq!(*goal_amount, 100);
        }
        other => panic!("unexpected event {:?}", other),
    }
    match &events[1] {
        Event::Deposit { pocket_id, from, amount } => {
            assert_eq!(*pocket_id, 1);
            assert_eq!(from.key(), "owner");
            assert_eq!(*amount, 30);
        }
        other => panic!("unexpected event {:?}", other),
    }
    match &events[2] {
        Event::Withdraw { pocket_id, to, amount } => {
            assert_eq!(*pocket_id, 1);
            assert_eq!(to.key(), "owner");
            assert_eq!(*amount, 10);
        }
        other => panic!("unexpected event {:?}", other),
    }
}

#[test]
fn counter_slot_appears_with_the_first_pocket() {
    let mut ledger = PocketLedger::new();
    let owner = Identity::new("owner");
    let asset = Identity::new("asset");
    assert!(!ledger.has(&DataKey::NextPocketId));
    assert!(!ledger.has(&DataKey::Pocket(1)));
    assert_eq!(ledger.next_id(), 1);

    PocketContract::create_pocket(&mut ledger, &AuthContext::allow_all(), &owner, &asset, 1).unwrap();

    assert!(ledger.has(&DataKey::NextPocketId));
    assert!(ledger.has(&DataKey::Pocket(1)));
    assert!(!ledger.has(&DataKey::Pocket(2)));
    assert_eq!(ledger.next_id(), 2);
    assert_eq!(ledger.pocket(1).unwrap().current_amount, 0);
    assert!(ledger.pocket(2).is_none());
}

#[test]
fn snapshot_takes_a_counter_of_at_least_one() {
    assert!(PocketLedger::with_counter(Some(0)).is_none());
    assert!(PocketLedger::with_counter(Some(-3)).is_none());

    let empty = PocketLedger::with_counter(None).unwrap();
    assert_eq!(empty.next_id(), 1);
    assert!(!empty.has(&DataKey::NextPocketId));

    let started = PocketLedger::with_counter(Some(5)).unwrap();
    assert_eq!(started.next_id(), 5);
    assert!(started.has(&DataKey::NextPocketId));
    assert!(started.events().is_empty());
}

#[test]
fn snapshot_takes_only_pockets_that_a_ledger_could_hold() {
    let record = |balance: i128| PocketData {
        owner: Identity::new("owner"),
        asset: Identity::new("asset"),
        goal_amount: 100,
        current_amount: balance,
    };
    let mut ledger = PocketLedger::with_counter(Some(5)).unwrap();

    assert!(!ledger.put_pocket(0, record(1)));
    assert!(!ledger.put_pocket(5, record(1)));
    assert!(!ledger.put_pocket(3, record(-1)));
    assert!(!ledger.has(&DataKey::Pocket(3)));

    assert!(ledger.put_pocket(3, record(40)));
    assert!(ledger.put_pocket(4, record(0)));
    assert_eq!(balance(&ledger, 3), 40);
    assert_eq!(balance(&ledger, 4), 0);
    assert_eq!(ledger.next_id(), 5);
    assert!(ledger.events().is_empty());

    let owner = Identity::new("owner");
    let auth = AuthContext::signed_by(&owner);
    assert_eq!(PocketContract::withdraw(&mut ledger, &auth, 3, &owner, 15), Ok(()));
    assert_eq!(balance(&ledger, 3), 25);
    assert_eq!(
        PocketContract::create_pocket(&mut ledger, &auth, &owner, &Identity::new("asset"), 9),
        Ok(5)
    );
}

#[test]
fn copy_of_a_pocket_is_equal_field_by_field() {
    let pocket = PocketData {
        owner: Identity::new("owner"),
        asset: Identity::new("asset"),
        goal_amount: 12,
        current_amount: 3,
    };
    let copy = pocket.clone();
    assert_eq!(copy.owner.key(), "owner");
    assert_eq!(copy.asset.key(), "asset");
    assert_eq!(copy.goal_amount, 12);
    assert_eq!(copy.current_amount, 3);
}
