//! The rules a node handed a ledger keeps itself to.

use cairn_net::probation::{
    owed_this_round, probation_at, probation_round, settles_at, Owed, Probation, Stranded,
    Undertaking, BURIAL_PATIENCE, STRANDING_PATIENCE,
};

fn taken(now: u64) -> Undertaking {
    Undertaking::resumed(100, 1_124, Some(100), now).unwrap()
}

#[test]
fn the_burial_is_asked_for_once_a_second_and_again_after_the_clock_steps_back() {
    let mut held = Undertaking::resumed(100, 1_124, Some(100), 1_000).unwrap();
    assert!(matches!(
        owed_this_round(&mut held, 100, 1, STRANDING_PATIENCE, 1_040),
        Owed::AskAgain
    ));
    assert!(
        matches!(owed_this_round(&mut held, 100, 1, STRANDING_PATIENCE, 1_040), Owed::Waiting),
        "the burial was asked for twice in one second"
    );
    assert!(
        matches!(owed_this_round(&mut held, 100, 1, STRANDING_PATIENCE, 1_020), Owed::AskAgain),
        "a clock put back behind the last question left the node waiting on it"
    );
}

#[test]
fn an_undertaking_already_met_is_not_resumed() {
    assert!(Undertaking::resumed(100, 1_124, Some(1_123), 0).is_some());
    assert!(Undertaking::resumed(100, 1_124, Some(1_124), 0).is_none());
    assert!(Undertaking::resumed(100, 1_124, Some(2_000), 0).is_none());
    assert!(Undertaking::resumed(100, 1_124, None, 0).is_none());
}

#[test]
fn the_blocks_above_the_anchor_are_asked_for_at_once_and_then_again() {
    let mut held = taken(1_000);
    assert!(matches!(
        owed_this_round(&mut held, 100, 1, STRANDING_PATIENCE, 1_000),
        Owed::AskAgain
    ));
    assert!(matches!(
        owed_this_round(&mut held, 100, 1, STRANDING_PATIENCE, 1_001),
        Owed::Waiting
    ));
    assert!(matches!(
        owed_this_round(&mut held, 100, 1, STRANDING_PATIENCE, 1_000 + BURIAL_PATIENCE),
        Owed::AskAgain
    ));
}

#[test]
fn a_node_with_no_peers_is_neither_asked_nor_given_up_on() {
    let mut held = taken(1_000);
    assert!(matches!(
        owed_this_round(&mut held, 100, 0, 0, 1_000 + STRANDING_PATIENCE),
        Owed::Waiting
    ));
}

#[test]
fn a_chain_that_moves_starts_the_waiting_again() {
    let mut held = taken(1_000);
    let nearly = 1_000 + STRANDING_PATIENCE - 1;
    assert!(matches!(
        owed_this_round(&mut held, 400, 1, STRANDING_PATIENCE, nearly),
        Owed::Waiting
    ));
    assert!(matches!(
        owed_this_round(&mut held, 400, 1, STRANDING_PATIENCE, nearly + 1),
        Owed::AskAgain
    ));
}

#[test]
fn a_node_that_never_gets_the_burial_says_so() {
    let mut held = taken(1_000);
    let waited = 1_000 + STRANDING_PATIENCE;
    assert!(matches!(
        owed_this_round(&mut held, 100, 1, STRANDING_PATIENCE, waited - 1),
        Owed::AskAgain | Owed::Waiting
    ));
    let Owed::GivenUp(stranded) = owed_this_round(&mut held, 100, 1, STRANDING_PATIENCE, waited)
    else {
        panic!("an hour of nothing, with peers to ask, is not something to wait out");
    };
    assert_eq!(stranded.anchor, 100);
    assert_eq!(stranded.settles_at, 1_124);
    assert_eq!(stranded.waited, STRANDING_PATIENCE);
}

#[test]
fn a_clock_that_went_backwards_starts_the_waiting_again() {
    let mut held = taken(1_000);
    assert!(matches!(owed_this_round(&mut held, 100, 1, 0, 900), Owed::Waiting));
}

#[test]
fn an_undertaking_settles_a_burial_above_its_anchor_and_never_past_the_tip() {
    assert_eq!(settles_at(100, 5_000, 1_024), 1_124);
    assert_eq!(settles_at(100, 600, 1_024), 600);
    assert_eq!(settles_at(u64::MAX - 3, u64::MAX, 1_024), u64::MAX);
}

#[test]
fn a_probation_is_lifted_where_it_settles() {
    let mut held = Some(taken(1_000));
    assert_eq!(
        probation_at(&mut held, Some(700)),
        Some(Probation { anchor: 100, settles_at: 1_124, reached: 700 })
    );
    assert_eq!(probation_at(&mut held, Some(1_124)), None);
    assert!(held.is_none());
    assert_eq!(probation_at(&mut held, Some(5)), None);
}

#[test]
fn a_probation_is_said_in_blocks_checked_and_blocks_owed() {
    let probation = Probation { anchor: 100, settles_at: 1_124, reached: 612 };
    assert_eq!((probation.checked(), probation.owed()), (512, 1_024));
    assert_eq!(
        probation.to_string(),
        "checked 512 of the 1024 blocks above the ledger handed over at height 100"
    );
}

#[test]
fn a_stranded_node_says_what_was_out_of_its_reach() {
    let mut held = Some(taken(1_000));
    let owed = probation_round(&mut held, Some(100), 1, 60, 9, 1_060);
    assert_eq!(
        owed,
        Some(Owed::GivenUp(Stranded {
            anchor: 100,
            settles_at: 1_124,
            waited: 60,
            out_of_reach: 9
        }))
    );
    assert_eq!(probation_round(&mut None, Some(100), 1, 60, 9, 1_060), None);
}
