//! Who is in the peer table, and which connection of a pair goes.

use cairn_net::address::{Address, Host};
use cairn_net::peers::{
    loses_the_tie, room_beside, what_it_said_it_was, Ending, Peer, Peers, Registration, MAX_PEERS,
    MAX_PER_HOST, MOST_FROM_OUTSIDE, TARGET_PEERS,
};

fn address(last: u8) -> Address {
    Address::new(Host::V4(127, 0, 0, last), 9000)
}

fn stand_in(dialled: bool) -> Peer {
    Peer {
        host: None,
        advertised: None,
        dialled_to: None,
        dialled,
        greeted: true,
        archives: false,
    }
}

#[test]
fn both_sides_of_a_double_connection_drop_the_same_one() {
    let lower = address(1);
    let higher = address(2);
    assert!(!loses_the_tie(lower, higher, true));
    assert!(loses_the_tie(lower, higher, false));

    assert!(loses_the_tie(higher, lower, true));
    assert!(!loses_the_tie(higher, lower, false));
}

#[test]
fn exactly_one_of_the_two_connections_is_dropped() {
    let lower = address(1);
    let higher = address(2);
    let dropped = [loses_the_tie(lower, higher, true), loses_the_tie(higher, lower, false)];
    assert_eq!(dropped.iter().filter(|loses| **loses).count(), 0);

    let other = [loses_the_tie(lower, higher, false), loses_the_tie(higher, lower, true)];
    assert_eq!(other.iter().filter(|loses| **loses).count(), 2, "both ends agree");
}

#[test]
fn a_node_that_has_reached_nobody_takes_what_it_says_from_outside() {
    let visitor = Some(Host::V4(203, 0, 113, 9));
    let mut peers = Peers::new();
    for id in 1..MOST_FROM_OUTSIDE as u64 {
        peers.insert(id, stand_in(false));
    }
    assert_eq!(peers.len(), MOST_FROM_OUTSIDE - 1);
    assert!(peers.has_room_to_accept(visitor));
    peers.insert(MOST_FROM_OUTSIDE as u64, stand_in(false));
    assert!(!peers.has_room_to_accept(visitor));
    assert!(peers.has_room_for(visitor), "the slots held back are for dialling");
    assert_eq!(MOST_FROM_OUTSIDE + TARGET_PEERS, MAX_PEERS);
}

#[test]
fn an_address_gets_its_share_of_connections_and_no_more() {
    let one = Host::V4(203, 0, 113, 1);
    let other = Host::V4(203, 0, 113, 2);
    let held = |from_one: usize| {
        let mut held = vec![Some(one); from_one];
        held.extend(vec![Some(other); MAX_PER_HOST]);
        held.push(None);
        held
    };
    assert!(room_beside(&held(MAX_PER_HOST - 1), one));
    assert!(!room_beside(&held(MAX_PER_HOST), one));
    assert!(room_beside(&held(MAX_PER_HOST), Host::V4(198, 51, 100, 4)));
}

#[test]
fn a_full_table_has_no_room_at_either_door() {
    let mut peers = Peers::new();
    for id in 0..MAX_PEERS as u64 {
        peers.insert(id, stand_in(true));
    }
    assert!(!peers.has_room_for(Some(Host::V4(203, 0, 113, 9))));
    assert!(!peers.has_room_to_accept(None));
    assert_eq!(peers.dialled(), MAX_PEERS);
}

#[test]
fn the_second_of_a_pair_names_the_first() {
    let mut peers = Peers::new();
    peers.insert(1, stand_in(true));
    peers.insert(2, stand_in(false));
    assert_eq!(peers.register(1, address(9)), Registration::Recorded);
    assert_eq!(peers.register(2, address(9)), Registration::Redundant(1));
    assert_eq!(peers.get(2).unwrap().advertised, Some(address(9)));
}

#[test]
fn a_doubled_connection_ends_by_the_tie() {
    let pair = || {
        let mut peers = Peers::new();
        peers.insert(1, stand_in(true));
        peers.insert(2, stand_in(false));
        peers.register(1, address(9));
        peers
    };
    // The lower address keeps the connection it opened.
    let mut peers = pair();
    assert_eq!(
        what_it_said_it_was(&mut peers, 2, Some(address(9)), address(1), false),
        Ending::HangUp
    );
    let mut peers = pair();
    assert_eq!(
        what_it_said_it_was(&mut peers, 2, Some(address(9)), address(1), true),
        Ending::KeepAndHangUp(1)
    );
    let mut peers = pair();
    assert_eq!(what_it_said_it_was(&mut peers, 2, None, address(1), false), Ending::Keep);
    assert_eq!(
        what_it_said_it_was(&mut peers, 2, Some(address(8)), address(1), false),
        Ending::Keep
    );
}

#[test]
fn news_goes_to_everyone_introduced_but_the_one_it_came_from() {
    let mut peers = Peers::new();
    peers.insert(1, stand_in(true));
    peers.insert(2, stand_in(false));
    peers.insert(3, Peer { greeted: false, ..stand_in(false) });
    peers.insert(4, stand_in(true));
    let (sent, taken) = peers.broadcast(Some(2), Vec::new(), |mut sent: Vec<u64>, id| {
        sent.push(id);
        (sent, id != 4)
    });
    assert_eq!(sent, vec![1, 4]);
    assert_eq!(taken, 1);
    assert_eq!(peers.speakable(), vec![1, 2, 4]);
}

#[test]
fn what_a_peer_keeps_is_noted_with_its_introduction() {
    let mut peers = Peers::new();
    peers.insert(5, Peer::attached(Some(Host::localhost()), Some(address(5))));
    let before = peers.get(5).unwrap();
    assert!(before.dialled && !before.greeted && before.worth_speaking_to());
    assert!(!Peer::attached(Some(Host::localhost()), None).worth_speaking_to());
    peers.note_what_it_keeps(5, true);
    let after = peers.get(5).unwrap();
    assert!(after.greeted && after.archives && after.worth_speaking_to());
    assert_eq!((peers.archiving(), peers.keeping()), (1, vec![(5, true)]));
    assert_eq!(peers.connected(), vec![address(5)]);
    peers.remove(5);
    assert!(peers.is_empty() && peers.get(5).is_none() && peers.ids().is_empty());
}

#[test]
fn a_table_filled_through_its_doors_stays_within_its_bounds() {
    let mut peers = Peers::new();
    let mut next = 0u64;
    for round in 0..200u64 {
        let host = Host::V4(203, 0, 113, (round % 30) as u8);
        if peers.has_room_for(Some(host)) {
            peers.insert(next, Peer::attached(Some(host), Some(Address::new(host, 9944))));
            next += 1;
        }
        if round % 7 == 0 {
            peers.remove(round / 7);
        }
    }
    assert!(peers.len() <= MAX_PEERS);
    for last in 0..30u8 {
        let host = Host::V4(203, 0, 113, last);
        let held = peers.ids().iter().filter(|id| peers.get(**id).unwrap().host == Some(host)).count();
        assert!(held <= MAX_PER_HOST);
    }
    let loopback = Some(Host::localhost());
    let mut local = Peers::new();
    for id in 0..5 {
        assert!(local.has_room_for(loopback));
        local.insert(id, Peer::attached(loopback, None));
    }
}
