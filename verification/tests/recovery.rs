//! Asking the network where fallen notes sit.

use cairn_net::address::{Address, Host};
use cairn_net::message::{Path, Placed, MAX_PROVEN};
use cairn_net::network::Hash32;
use cairn_net::recovery::{
    finished, place, reach_for_an_archivist, take_placed, worth_asking, Asking, Recovered,
    REACH_FOR_ARCHIVISTS,
};
use std::collections::{BTreeMap, BTreeSet};

fn path() -> Path {
    Path { siblings: Vec::new() }
}

fn address(last: u8) -> Address {
    Address::new(Host::V4(203, 0, 113, last), 9944)
}

fn placed(position: u64) -> Placed {
    Placed { position, proof: Some(path()) }
}

/// One peer asked about two places, which has answered for one of them and
/// sent one path that folded to nothing.
fn mid_question() -> Asking {
    Asking {
        wanted: BTreeMap::from([(7, Hash32::zero()), (9, Hash32::zero())]),
        asked: BTreeSet::from([3]),
        answered: BTreeSet::from([3]),
        found: BTreeMap::from([(7, path())]),
        refused: 1,
    }
}

#[test]
fn the_end_of_a_question_is_the_end_of_what_it_will_accept() {
    let mut asking = mid_question();
    let done = finished(&mut asking, 1);

    assert_eq!(done.asked, 1);
    assert_eq!(done.refused, 1);
    assert_eq!(done.proofs.len(), 1);
    assert_eq!((done.answered, done.archivists), (1, 1));

    assert!(asking.asked.is_empty());
    assert!(asking.wanted.is_empty());
    assert!(asking.found.is_empty() && asking.answered.is_empty());
    assert_eq!(asking.refused, 0);

    take_placed(&mut asking, 3, vec![placed(7)], |_, _, _| true);
    assert!(asking.found.is_empty() && asking.answered.is_empty());
}

#[test]
fn a_question_is_satisfied_once_every_place_asked_about_has_a_path() {
    let mut asking = Asking {
        wanted: BTreeMap::from([(7, Hash32::zero()), (9, Hash32::zero())]),
        ..Asking::default()
    };
    assert!(!asking.satisfied());
    asking.found.insert(7, path());
    assert!(!asking.satisfied());
    asking.found.insert(9, path());
    assert!(asking.satisfied());
    assert!(!Asking::default().satisfied());
}

#[test]
fn a_question_everyone_asked_has_answered_ends_there() {
    let (mut asking, positions) = Asking::about(&vec![(0, Hash32::zero())]);
    assert_eq!(positions, vec![0]);
    assert_eq!(asking.fresh(&vec![4]), vec![4]);
    assert!(asking.fresh(&vec![4]).is_empty());
    assert!(asking.over(0, false).is_none());
    take_placed(&mut asking, 4, vec![Placed { position: 0, proof: None }], |_, _, _| true);
    let answer = asking.over(0, false).expect("everyone asked has answered");
    assert_eq!((answer.asked, answer.answered), (1, 1));
    assert!(answer.proofs.is_empty());
}

#[test]
fn a_node_connected_to_nobody_reaches_for_an_archivist_it_has_heard_of() {
    assert_eq!(reach_for_an_archivist(&vec![address(1)], &Vec::new()), vec![address(1)]);
}

#[test]
fn nobody_connected_is_reached_for_and_only_a_few_are() {
    let known: Vec<Address> = (1..10).map(address).collect();
    let dial = reach_for_an_archivist(&known, &vec![address(2)]);
    assert_eq!(dial, vec![address(1), address(3), address(4), address(5)]);
    assert_eq!(dial.len(), REACH_FOR_ARCHIVISTS);
}

#[test]
fn a_question_is_as_long_as_one_message_carries() {
    let wanted: Vec<(u64, Hash32)> =
        (0..MAX_PROVEN as u64 + 6).rev().map(|at| (at, Hash32::zero())).collect();
    let (asking, positions) = Asking::about(&wanted);
    assert_eq!(asking.wanted.len(), MAX_PROVEN);
    let expected: Vec<u64> = (6..MAX_PROVEN as u64 + 6).collect();
    assert_eq!(positions, expected);
}

#[test]
fn only_what_was_asked_about_is_found() {
    let (mut asking, _) = Asking::about(&vec![(7, Hash32::zero()), (9, Hash32::zero())]);
    asking.fresh(&vec![3]);
    take_placed(&mut asking, 5, vec![placed(7)], |_, _, _| true);
    assert!(asking.found.is_empty() && asking.answered.is_empty());
    take_placed(&mut asking, 3, vec![placed(7), placed(8), placed(9)], |at, _, _| at != 9);
    assert_eq!(asking.found.keys().copied().collect::<Vec<u64>>(), vec![7]);
    assert_eq!(asking.refused, 1);
}

#[test]
fn those_who_say_they_keep_the_cold_set_are_asked_before_everybody() {
    assert_eq!(worth_asking(&vec![(1, false), (2, true), (3, true)]), (vec![2, 3], 2));
    assert_eq!(worth_asking(&vec![(1, false), (2, false)]), (vec![1, 2], 0));
    assert_eq!(worth_asking(&Vec::new()), (Vec::new(), 0));
}

#[test]
fn a_place_this_node_cannot_help_with_is_answered_with_nothing() {
    let answer = place(&vec![4, 5], |at| if at == 5 { Some(path()) } else { None });
    assert_eq!(answer.len(), 2);
    assert_eq!((answer[0].position, answer[0].proof.is_some()), (4, false));
    assert_eq!((answer[1].position, answer[1].proof.is_some()), (5, true));
}

#[test]
fn a_question_about_nothing_comes_to_nothing() {
    let account = Recovered::default();
    assert_eq!((account.asked, account.archivists, account.answered, account.refused), (0, 0, 0, 0));
    assert!(account.proofs.is_empty());
}
