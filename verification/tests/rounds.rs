//! What a node does once a second, and at the door.

use cairn_net::address::{Address, Host};
use cairn_net::peers::{Peer, Peers, MAX_PEERS, MOST_FROM_OUTSIDE, TARGET_PEERS};
use cairn_net::probation::{Owed, Stranded};
use cairn_net::refusal::Refusals;
use cairn_net::rounds::{
    book_saved, greet_visitor, keep_the_undertaking, look_up_seed_names, nobody_came_in, remember,
    save_book, was_away, Admitted, AtTheDoor, Dialling, NoVisitor, Upkeep, AWAY_GAP, DIAL_BUDGET,
    NAME_LOOKUP_PERIOD,
};

fn address(last: u8) -> Address {
    Address::new(Host::V4(203, 0, 113, last), 9944)
}

fn own() -> Address {
    address(250)
}

fn stand_in(dialled: bool) -> Peer {
    Peer {
        host: None,
        advertised: None,
        dialled_to: None,
        dialled,
        greeted: true,
        archives: false,
    }
}

fn table(count: usize, dialled: bool) -> Peers {
    let mut peers = Peers::new();
    for id in 0..count as u64 {
        peers.insert(id, stand_in(dialled));
    }
    peers
}

/// Dials a round, every dial answered at once.
fn dial(peers: &mut Peers, ready: Vec<Address>, refusals: &Refusals) -> Vec<Address> {
    let mut dialling = Dialling::dial_from_book(peers, &ready, own());
    let mut opened = Vec::new();
    while let Some(address) = dialling.next(true, 0, peers, refusals, 1_000) {
        peers.insert(1_000 + opened.len() as u64, Peer::attached(Some(address.host), Some(address)));
        opened.push(address);
        dialling.dialled(true);
    }
    opened
}

#[test]
fn a_long_gap_between_rounds_means_the_machine_was_away() {
    assert!(!was_away(1_000, 1_000));
    assert!(!was_away(1_000, 1_000 + AWAY_GAP - 1));
    assert!(was_away(1_000, 1_000 + AWAY_GAP));
    assert!(was_away(1_000, 1_000 + 30_000));
    assert!(was_away(1_000, 900));
}

#[test]
fn a_node_with_no_seed_looks_its_names_up_and_not_too_often() {
    let last = 4_000_000_000;
    let mut looked_up_at = last;
    assert!(!look_up_seed_names(false, &mut looked_up_at, last + NAME_LOOKUP_PERIOD - 1));
    assert!(look_up_seed_names(false, &mut looked_up_at, last + NAME_LOOKUP_PERIOD));
    assert_eq!(looked_up_at, last + NAME_LOOKUP_PERIOD);
    assert!(!look_up_seed_names(true, &mut looked_up_at, last + 10 * NAME_LOOKUP_PERIOD));
}

#[test]
fn a_round_dials_what_the_node_is_short_of_and_no_more() {
    let mut peers = table(TARGET_PEERS - 1, true);
    let opened = dial(&mut peers, vec![address(1), address(2)], &Refusals::new());
    assert_eq!(opened.len(), 1);
}

#[test]
fn a_node_whose_table_is_full_dials_nobody() {
    let mut peers = table(MAX_PEERS, false);
    assert!(dial(&mut peers, vec![address(1)], &Refusals::new()).is_empty());
}

#[test]
fn connections_from_outside_do_not_count_as_reached() {
    let mut peers = table(TARGET_PEERS, false);
    let ready: Vec<Address> = (1..20).map(address).collect();
    assert_eq!(dial(&mut peers, ready, &Refusals::new()).len(), TARGET_PEERS);
}

#[test]
fn a_round_passes_over_itself_the_connected_and_the_refused() {
    let mut peers = Peers::new();
    peers.insert(1, Peer { advertised: Some(address(3)), ..stand_in(true) });
    let mut refusals = Refusals::new();
    refusals.refuse(address(4).host, 1_000);
    let opened = dial(&mut peers, vec![own(), address(3), address(4), address(5)], &refusals);
    assert_eq!(opened, vec![address(5)]);
}

#[test]
fn a_round_that_has_taken_too_long_opens_nothing_more() {
    let peers = Peers::new();
    let refusals = Refusals::new();
    let mut dialling = Dialling::dial_from_book(&peers, &vec![address(1), address(2)], own());
    assert_eq!(
        dialling.next(true, DIAL_BUDGET - 1, &peers, &refusals, 1_000),
        Some(address(1))
    );
    dialling.dialled(false);
    assert_eq!(dialling.next(true, DIAL_BUDGET, &peers, &refusals, 1_000), None);
    assert_eq!(dialling.next(false, 0, &peers, &refusals, 1_000), None);
    assert_eq!(dialling.next(true, 0, &peers, &refusals, 1_000), Some(address(2)));
    dialling.dialled(false);
    assert_eq!(dialling.next(true, 0, &peers, &refusals, 1_000), None);
}

#[test]
fn a_visitor_is_taken_in_while_there_is_room_and_nothing_against_it() {
    let mut refusals = Refusals::new();
    let host = address(7).host;
    let peers = Peers::new();
    assert_eq!(greet_visitor(true, &peers, &refusals, host, 1_000), Admitted::TakenIn);
    assert_eq!(greet_visitor(false, &peers, &refusals, host, 1_000), Admitted::Stopped);
    let full = table(MOST_FROM_OUTSIDE, false);
    assert_eq!(greet_visitor(true, &full, &refusals, host, 1_000), Admitted::TurnedAway);
    refusals.refuse(host, 1_000);
    assert_eq!(greet_visitor(true, &peers, &refusals, host, 1_000), Admitted::TurnedAway);
}

#[test]
fn a_door_that_refuses_is_never_shut() {
    assert_eq!(nobody_came_in(true, NoVisitor::WouldBlock), AtTheDoor::Wait);
    assert_eq!(nobody_came_in(false, NoVisitor::WouldBlock), AtTheDoor::CountAndWait);
    assert_eq!(nobody_came_in(true, NoVisitor::Interrupted), AtTheDoor::AskAgain);
    assert_eq!(nobody_came_in(true, NoVisitor::Refused), AtTheDoor::CountAndWait);
}

#[test]
fn a_node_does_not_remember_itself() {
    assert_eq!(remember(&vec![own(), address(1), own()], own()), vec![address(1)]);
}

#[test]
fn a_book_is_written_when_it_has_changed() {
    let mut written_at = 4;
    let mut unsaved = None;
    assert!(!save_book(written_at, 4));
    assert!(save_book(written_at, 5));
    book_saved(&mut written_at, &mut unsaved, 5, Some("full".to_owned()));
    assert_eq!((written_at, unsaved.as_deref()), (4, Some("full")));
    book_saved(&mut written_at, &mut unsaved, 5, None);
    assert_eq!((written_at, unsaved), (5, None));
}

#[test]
fn a_node_that_gave_up_says_so_once_and_stops() {
    let stranded =
        |waited| Stranded { anchor: 100, settles_at: 1_124, waited, out_of_reach: 3 };
    let mut said = None;
    let mut running = true;
    assert!(!keep_the_undertaking(None, &mut said, &mut running));
    assert!(!keep_the_undertaking(Some(Owed::Waiting), &mut said, &mut running));
    assert!(keep_the_undertaking(Some(Owed::AskAgain), &mut said, &mut running));
    assert!(running && said.is_none());
    assert!(!keep_the_undertaking(Some(Owed::GivenUp(stranded(60))), &mut said, &mut running));
    assert!(!running);
    keep_the_undertaking(Some(Owed::GivenUp(stranded(90))), &mut said, &mut running);
    assert_eq!(said, Some(stranded(60)));
}

#[test]
fn a_round_does_everything_once_in_order() {
    let mut last_round = 1_000;
    let mut now = Upkeep::begin(&mut last_round, 1_000 + AWAY_GAP);
    let mut done = vec![now];
    while now != Upkeep::Rest {
        now = now.next();
        done.push(now);
    }
    assert_eq!(done.len(), 14);
    assert_eq!((done[0], done[1], done[13]), (Upkeep::ForgiveAll, Upkeep::AskForAddresses, Upkeep::Rest));
    assert_eq!(last_round, 1_030);
    assert_eq!(Upkeep::begin(&mut last_round, 1_031), Upkeep::AskForAddresses);
}
