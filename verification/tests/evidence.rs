//! What adds up to a sentence for the operator, and what does not.

use cairn_net::address::{Address, Addresses, Host};
use cairn_net::evidence::{
    clock_is_behind, count_out_of_step, count_unreadable, count_unweighed, no_showing_checks_out,
    sender_of, too_old_for_the_chain, OutOfStep, Unjudged, Unreadable, Unweighed, BEHIND_BLOCKS,
    BEHIND_MEMORY, BEHIND_PEERS, BEHIND_SENDERS, UNJUDGED_BLOCKS, UNJUDGED_MEMORY, UNJUDGED_PEERS,
    UNJUDGED_SENDERS, UNJUDGED_STRETCH, UNWEIGHED_PEERS, UNWEIGHED_SENDERS, UNWEIGHED_SHOWINGS,
};

const DRIFT: u64 = 7_200;

fn address(last: u8) -> Address {
    Address::new(Host::V4(203, 0, 113, last), 9944)
}

fn several(count: usize) -> Addresses {
    let mut peers = Addresses::new();
    for last in 0..count {
        peers.insert(address(last as u8 + 1));
    }
    peers
}

fn met(blocks: u64, peers: usize, over: u64) -> Unreadable {
    Unreadable { version: 7, blocks, peers: several(peers), first: 1_000, last: 1_000 + over }
}

#[test]
fn every_condition_is_needed_and_none_of_them_is_enough() {
    let said = too_old_for_the_chain(&met(UNJUDGED_BLOCKS, UNJUDGED_PEERS, UNJUDGED_STRETCH), 1);
    assert_eq!(
        said,
        Some(Unjudged {
            version: 7,
            known: 1,
            blocks: UNJUDGED_BLOCKS,
            peers: UNJUDGED_PEERS,
            over: UNJUDGED_STRETCH,
        })
    );
    assert!(too_old_for_the_chain(&met(UNJUDGED_BLOCKS - 1, UNJUDGED_PEERS, UNJUDGED_STRETCH), 1)
        .is_none());
    assert!(too_old_for_the_chain(&met(UNJUDGED_BLOCKS, 1, UNJUDGED_STRETCH), 1).is_none());
    assert!(too_old_for_the_chain(&met(UNJUDGED_BLOCKS, UNJUDGED_PEERS, UNJUDGED_STRETCH - 1), 1)
        .is_none());
}

#[test]
fn a_clock_that_went_backwards_proves_nothing() {
    let mut stepped = met(UNJUDGED_BLOCKS, UNJUDGED_PEERS, UNJUDGED_STRETCH);
    stepped.last = stepped.first - 1;
    assert!(too_old_for_the_chain(&stepped, 1).is_none());
}

#[test]
fn a_node_that_has_met_none_of_them_says_nothing() {
    assert!(too_old_for_the_chain(&Unreadable::default(), 1).is_none());
}

#[test]
fn one_machine_arriving_again_is_still_one_peer() {
    let mut count = Unreadable::default();
    for round in 0..UNJUDGED_BLOCKS {
        count_unreadable(&mut count, Some(address(7)), 7, 1_000 + round * 60);
    }
    assert_eq!(count.blocks, UNJUDGED_BLOCKS);
    assert_eq!(count.peers.len(), 1);
    assert!(too_old_for_the_chain(&count, 1).is_none());

    count_unreadable(&mut count, Some(address(8)), 7, 1_000 + UNJUDGED_STRETCH * 2);
    let said = too_old_for_the_chain(&count, 1).expect("two machines, long enough");
    assert_eq!(said.peers, UNJUDGED_PEERS);
}

#[test]
fn the_count_lapses_after_a_silence_and_not_before() {
    let mut count = Unreadable::default();
    count_unreadable(&mut count, Some(address(1)), 7, 1_000);
    count_unreadable(&mut count, Some(address(2)), 7, 1_000);
    assert_eq!(count.blocks, 2);
    count_unreadable(&mut count, Some(address(3)), 7, 1_000 + UNJUDGED_MEMORY);
    assert_eq!(count.blocks, 3);

    let later = 1_000 + UNJUDGED_MEMORY * 2 + 1;
    count_unreadable(&mut count, Some(address(4)), 7, later);
    assert_eq!((count.blocks, count.first, count.peers.len()), (1, later, 1));

    // A clock stepped back starts it again too.
    count_unreadable(&mut count, Some(address(5)), 7, 500);
    assert_eq!((count.blocks, count.first), (1, 500));

    let mut crowd = Unreadable::default();
    for last in 0..=UNJUDGED_SENDERS {
        count_unreadable(&mut crowd, Some(address(last as u8)), 7, 1_000);
    }
    assert_eq!(crowd.peers.len(), UNJUDGED_SENDERS);
}

#[test]
fn the_highest_version_met_is_the_one_said() {
    let mut count = Unreadable::default();
    for block in 0..UNJUDGED_BLOCKS {
        let version = if block == 3 { 12 } else { 9 };
        let at = 1_000 + block * UNJUDGED_STRETCH / (UNJUDGED_BLOCKS - 1);
        count_unreadable(&mut count, Some(address(block as u8 % 2)), version, at);
    }
    let said = too_old_for_the_chain(&count, 4).expect("enough, long enough, from enough");
    assert_eq!((said.version, said.known, said.over), (12, 4, UNJUDGED_STRETCH));
}

#[test]
fn blocks_from_nobody_in_particular_count_without_a_peer() {
    let mut count = Unreadable::default();
    for block in 0..UNJUDGED_BLOCKS {
        count_unreadable(&mut count, None, 7, 1_000 + block * UNJUDGED_STRETCH);
    }
    assert_eq!((count.blocks, count.peers.len()), (UNJUDGED_BLOCKS, 0));
    assert!(too_old_for_the_chain(&count, 1).is_none());
}

fn shown(showings: u64, peers: usize) -> Unweighed {
    let mut count = Unweighed::default();
    for showing in 0..showings {
        let from = address((showing % peers as u64) as u8 + 1);
        count_unweighed(&mut count, Some(from), "no path", 1_000);
    }
    count
}

#[test]
fn showings_from_enough_peers_say_the_chain_cannot_be_weighed_at_once() {
    let said = no_showing_checks_out(&shown(UNWEIGHED_SHOWINGS, UNWEIGHED_PEERS))
        .expect("enough showings from enough peers");
    assert_eq!(said.because, "no path");
    assert_eq!((said.showings, said.peers, said.over), (UNWEIGHED_SHOWINGS, UNWEIGHED_PEERS, 0));

    assert!(no_showing_checks_out(&shown(UNWEIGHED_SHOWINGS - 1, UNWEIGHED_PEERS)).is_none());
    assert!(no_showing_checks_out(&shown(UNWEIGHED_SHOWINGS, 1)).is_none());

    let mut stepped = shown(UNWEIGHED_SHOWINGS, UNWEIGHED_PEERS);
    stepped.first = stepped.last + 1;
    assert!(no_showing_checks_out(&stepped).is_none());
    assert!(no_showing_checks_out(&Unweighed::default()).is_none());
}

#[test]
fn the_same_refusal_adds_up_and_a_different_one_starts_again() {
    let mut count = Unweighed::default();
    count_unweighed(&mut count, Some(address(1)), "no path", 1_000);
    count_unweighed(&mut count, Some(address(2)), "no path", 1_000);
    assert_eq!(count.showings, 2);

    count_unweighed(&mut count, Some(address(3)), "a root that does not fold", 1_010);
    assert_eq!((count.showings, count.first, count.peers.len()), (1, 1_010, 1));
    assert_eq!(count.because, "a root that does not fold");

    count_unweighed(&mut count, Some(address(4)), "a root that does not fold", 900);
    assert_eq!((count.showings, count.first), (1, 900));

    let mut crowd = Unweighed::default();
    for last in 0..=UNWEIGHED_SENDERS {
        count_unweighed(&mut crowd, Some(address(last as u8)), "no path", 1_000);
    }
    assert_eq!(crowd.peers.len(), UNWEIGHED_SENDERS);
}

fn sender(last: u8) -> Address {
    Address::new(Host::V4(198, 51, 100, last), 8333)
}

fn out_of_step(blocks: u64, peers: usize) -> OutOfStep {
    let mut count = OutOfStep::default();
    for block in 0..blocks {
        let from = sender((block % peers as u64) as u8);
        count_out_of_step(&mut count, Some(from), 900, 1_000 + block);
    }
    count
}

#[test]
fn both_conditions_are_needed_before_a_clock_is_blamed() {
    let said = clock_is_behind(&out_of_step(BEHIND_BLOCKS, BEHIND_PEERS), DRIFT, false)
        .expect("enough blocks from enough peers");
    assert_eq!(said.blocks, BEHIND_BLOCKS);
    assert_eq!(said.peers, BEHIND_PEERS);
    assert_eq!((said.seconds, said.drift, said.own_first_block), (900, DRIFT, false));

    assert!(clock_is_behind(&out_of_step(BEHIND_BLOCKS - 1, BEHIND_PEERS), DRIFT, false).is_none());
    assert!(clock_is_behind(&out_of_step(BEHIND_BLOCKS, 1), DRIFT, false).is_none());
    assert!(clock_is_behind(&OutOfStep::default(), DRIFT, false).is_none());
}

#[test]
fn refusing_this_builds_own_first_block_says_it_on_its_own() {
    let mut count = OutOfStep::default();
    count.own_first_block = true;
    count_out_of_step(&mut count, None, 4_000, 1_000);
    let said = clock_is_behind(&count, DRIFT, true).expect("its own first block refused");
    assert_eq!((said.seconds, said.peers, said.own_first_block), (4_000, 0, true));
    assert!(clock_is_behind(&count, DRIFT, false).is_none());
}

#[test]
fn a_silence_ends_the_count_and_not_what_the_first_block_said() {
    let mut count = OutOfStep::default();
    count.own_first_block = true;
    count_out_of_step(&mut count, Some(sender(1)), 900, 1_000);
    count_out_of_step(&mut count, Some(sender(2)), 900, 1_000 + BEHIND_MEMORY);
    assert_eq!(count.blocks, 2);

    count_out_of_step(&mut count, Some(sender(3)), 300, 1_000 + BEHIND_MEMORY * 2 + 1);
    assert_eq!((count.blocks, count.peers.len(), count.ahead), (1, 1, 300));
    assert!(count.own_first_block);

    count_out_of_step(&mut count, Some(sender(4)), 300, 500);
    assert_eq!(count.blocks, 1);
    assert!(count.own_first_block);

    let mut crowd = OutOfStep::default();
    for last in 0..=BEHIND_SENDERS {
        count_out_of_step(&mut crowd, Some(sender(last as u8)), 900, 1_000);
    }
    assert_eq!(crowd.peers.len(), BEHIND_SENDERS);
}

#[test]
fn a_sender_is_its_advertised_address_or_its_host_without_a_port() {
    let host = Host::V4(203, 0, 113, 9);
    assert_eq!(sender_of(Some(address(1)), Some(host)), Some(address(1)));
    assert_eq!(sender_of(None, Some(host)), Some(Address::new(host, 0)));
    assert_eq!(sender_of(None, None), None);
}
