//! One connection, from its first message to its ending.

use cairn_net::address::{Address, Host};
use cairn_net::connection::{
    decide, held_off, is_peer_fault, note_claim, note_the_ending, sender_for, window_is_over, Act,
    Claim, Connection, Heard, Next, Reacted, FLOOD_WINDOW, MAX_MESSAGES_PER_WINDOW, PEER_SILENCE,
};
use cairn_net::logs::Accepted;
use cairn_net::message::{Handshake, Keeps, Kind, Message};
use cairn_net::network::{Hash32, Located, NetworkId};
use cairn_net::sync::{Chain, DropReason, Limits, Local, Outdated, PeerState, Reaction, Verdict};
use cairn_net::windows::Allowance;
use cairn_net::wire::{Fault, WireError, MAX_FRAME_BYTES, MOST_BEFORE_A_NAME};

const NONCE: u64 = 77;

fn id(number: u128) -> Hash32 {
    Hash32 { high: 1, low: number }
}

fn network() -> NetworkId {
    NetworkId::new(6)
}

fn empty_chain() -> Chain {
    Chain {
        network: network(),
        genesis: None,
        tip: None,
        height: None,
        total_work: 0,
        locator: Vec::new(),
    }
}

fn local(chain: &Chain) -> Local<'_> {
    Local {
        chain,
        keeps: Keeps { headers: false, cold_set: false },
        listen: 9944,
        nonce: NONCE,
        limits: Limits { version: 4, announced: 64, shared: 64 },
    }
}

fn hello(nonce: u64) -> Message {
    Message::Hello(Handshake {
        version: 4,
        network: network(),
        genesis: Hash32::zero(),
        tip: Hash32::zero(),
        height: 0,
        total_work: 0,
        keeps: Keeps { headers: false, cold_set: false },
        listen: 9944,
        nonce,
    })
}

/// Handles one message from a peer, over a chain that takes no block.
fn handle(peer: &mut PeerState, message: Message) -> Reaction {
    let chain = empty_chain();
    decide(
        &local(&chain),
        peer,
        message,
        1_000,
        |_| false,
        |_| (Verdict::Bad, empty_chain()),
        |_| false,
    )
}

fn line(dialled: Option<Address>) -> Connection {
    Connection::started(1, Some(Host::V4(203, 0, 113, 5)), dialled, Allowance::Own, 1_000)
}

/// Everything a reaction calls for, each going well.
fn acts(connection: &mut Connection, introduction: bool, reaction: &Reaction) -> Vec<Act> {
    let mut reacted = Reacted::to(connection, introduction, reaction);
    let mut acts = vec![reacted.act()];
    while reacted.act() != Act::ReadOn && reacted.act() != Act::End {
        reacted.done(connection, reaction, true);
        acts.push(reacted.act());
    }
    acts
}

#[test]
fn a_clock_stepping_back_does_not_make_a_peer_look_like_a_flood() {
    let opened = 100_000;
    assert!(!window_is_over(opened, opened));
    assert!(!window_is_over(opened, opened + FLOOD_WINDOW - 1));
    assert!(window_is_over(opened, opened + FLOOD_WINDOW));
    assert!(window_is_over(opened, opened - 3_600));
}

#[test]
fn a_slow_link_loses_its_connection_and_not_its_address() {
    assert!(!is_peer_fault(&WireError::Stalled { had: 1_024, wanted: MAX_FRAME_BYTES }));
    assert!(is_peer_fault(&WireError::FrameTooLarge {
        declared: MAX_FRAME_BYTES + 1
    }));
    assert!(is_peer_fault(&WireError::Malformed));
    assert!(!is_peer_fault(&WireError::Io(Fault::ConnectionReset)));
}

#[test]
fn a_peer_may_say_as_much_as_a_window_allows_and_no_more() {
    let mut connection = line(None);
    for _ in 0..MAX_MESSAGES_PER_WINDOW {
        assert_eq!(connection.heard(&Heard::Message, 1_005), Next::Take);
    }
    assert_eq!(connection.heard(&Heard::Message, 1_005), Next::End);
    assert!(connection.misbehaved);
}

#[test]
fn meeting_itself_forgets_its_own_address_and_greets_nobody() {
    let mut connection =
        Connection::started(1, Some(Host::localhost()), None, Allowance::Own, 1_000);
    let reaction = handle(&mut connection.peer, hello(NONCE));
    assert_eq!(reaction.drop_peer, Some(DropReason::Ourselves));
    assert_eq!(reaction.forget, vec![Address::new(Host::localhost(), 9944)]);
    assert!(!connection.peer.greeted);

    let acts = acts(&mut connection, true, &reaction);
    assert!(acts.contains(&Act::Forget));
    assert!(!acts.contains(&Act::NoteClaim) && !acts.contains(&Act::NoteWhatItKeeps));
    assert_eq!(acts.last(), Some(&Act::End));
    assert!(!connection.misbehaved);
}

#[test]
fn a_dialled_address_that_never_introduced_itself_is_charged_a_miss() {
    let dialled = Address::new(Host::localhost(), 9955);
    let mut connection = line(Some(dialled));
    let reaction = handle(&mut connection.peer, Message::Ping(1));
    assert_eq!(reaction.drop_peer, Some(DropReason::Unannounced { kind: Kind::Ping }));
    let acts = acts(&mut connection, false, &reaction);
    assert!(!acts.contains(&Act::WhatItSaidItWas), "it never named an address");
    assert_eq!(acts.last(), Some(&Act::End));
    assert_eq!(note_the_ending(&connection).missed, Some(dialled));
}

#[test]
fn a_block_taken_is_passed_on_and_nothing_else_is() {
    let mut connection = line(None);
    let greeted = handle(&mut connection.peer, hello(5));
    assert!(matches!(greeted.reply.first(), Some(Message::Welcome(_))));
    assert!(!acts(&mut connection, true, &greeted).contains(&Act::Announce));

    let block = Located::new(0, id(9));
    let chain = empty_chain();
    let taken = decide(
        &local(&chain),
        &mut connection.peer,
        Message::Block(block),
        1_000,
        |_| false,
        |_| (Verdict::Taken(Accepted::Extended), empty_chain()),
        |_| false,
    );
    assert_eq!(taken.broadcast, vec![block]);
    assert!(acts(&mut connection, false, &taken).contains(&Act::Announce));

    let ping = handle(&mut connection.peer, Message::Ping(1));
    assert!(matches!(ping.reply.first(), Some(Message::Pong(1))));
    let acts = acts(&mut connection, false, &ping);
    assert!(!acts.contains(&Act::Announce) && !acts.contains(&Act::PassOn));
    assert_eq!(acts.last(), Some(&Act::ReadOn));
}

/// A claim is noted with the introduction and with nothing said after it, so one
/// that has failed since is not given a fresh start by a ping.
#[test]
fn a_claim_that_failed_is_not_renewed_by_what_its_peer_says_next() {
    let mut connection = line(None);
    let greeted = handle(&mut connection.peer, hello(5));
    assert!(matches!(greeted.reply.first(), Some(Message::Welcome(_))));
    assert!(acts(&mut connection, true, &greeted).contains(&Act::NoteClaim));
    let ping = handle(&mut connection.peer, Message::Ping(1));
    assert!(matches!(ping.reply.first(), Some(Message::Pong(1))));
    assert!(!acts(&mut connection, false, &ping).contains(&Act::NoteClaim));
}

#[test]
fn an_answer_with_no_room_ends_the_connection_there() {
    let mut connection = line(None);
    let greeted = handle(&mut connection.peer, hello(5));
    let mut reacted = Reacted::to(&mut connection, true, &greeted);
    while reacted.act() != Act::Reply {
        reacted.done(&mut connection, &greeted, true);
    }
    reacted.done(&mut connection, &greeted, false);
    assert_eq!(reacted.act(), Act::End);
    assert!(!connection.misbehaved);
}

#[test]
fn a_bad_block_is_held_against_its_sender() {
    let mut connection = line(None);
    handle(&mut connection.peer, hello(5));
    let reaction = handle(&mut connection.peer, Message::Block(Located::new(3, id(3))));
    assert_eq!(reaction.drop_peer, Some(DropReason::BadBlock { id: id(3) }));
    acts(&mut connection, false, &reaction);
    assert!(connection.misbehaved);
    assert_eq!(note_the_ending(&connection).refuse, Some(Host::V4(203, 0, 113, 5)));
    assert_eq!(note_the_ending(&connection).missed, None);
}

#[test]
fn what_is_announced_and_not_held_is_asked_for() {
    let mut connection = line(None);
    handle(&mut connection.peer, hello(5));
    let chain = empty_chain();
    let reaction = decide(
        &local(&chain),
        &mut connection.peer,
        Message::Announce(vec![Located::new(4, id(4)), Located::new(5, id(5))]),
        1_000,
        |at| at.height == 4,
        |_| (Verdict::Bad, empty_chain()),
        |_| false,
    );
    assert!(matches!(reaction.reply.first(), Some(Message::GetBlocks(heights)) if heights == &vec![5]));
}

#[test]
fn a_transfer_is_passed_on_once() {
    let mut connection = line(None);
    handle(&mut connection.peer, hello(5));
    let chain = empty_chain();
    let mut relayed = |fresh: bool| {
        decide(
            &local(&chain),
            &mut connection.peer,
            Message::Transaction(id(8)),
            1_000,
            |_| false,
            |_| (Verdict::Bad, empty_chain()),
            |_| fresh,
        )
        .relayed
    };
    assert_eq!(relayed(true), vec![id(8)]);
    assert!(relayed(false).is_empty());
}

#[test]
fn a_peer_that_says_nothing_for_too_long_is_let_go() {
    let mut connection = line(None);
    assert_eq!(connection.heard(&Heard::Quiet, 1_000 + PEER_SILENCE - 1), Next::Read);
    assert_eq!(connection.heard(&Heard::Quiet, 1_000 + PEER_SILENCE), Next::End);
    assert!(!connection.misbehaved);
    let failed = Heard::Failed(WireError::Malformed);
    assert_eq!(connection.heard(&failed, 1_001), Next::End);
    assert!(connection.misbehaved);
}

#[test]
fn a_peer_says_little_before_it_has_said_who_it_is() {
    let mut connection = line(None);
    assert_eq!(connection.most(), MOST_BEFORE_A_NAME);
    let greeted = handle(&mut connection.peer, hello(5));
    assert!(acts(&mut connection, true, &greeted).contains(&Act::WhatItSaidItWas));
    assert_eq!(connection.most(), MAX_FRAME_BYTES);
}

#[test]
fn a_node_choosing_or_on_probation_holds_off_what_would_move_its_chain() {
    for kind in [Kind::Hello, Kind::Ping, Kind::GetPeers, Kind::GetChain] {
        assert!(!held_off(kind, true, true, true), "{kind:?} was held off");
    }
    assert!(held_off(Kind::Block, true, true, false));
    assert!(!held_off(Kind::Block, true, false, false));
    assert!(held_off(Kind::Transaction, true, false, true));
    assert!(!held_off(Kind::Transaction, false, false, true));
}

#[test]
fn what_a_connection_sends_counts_against_where_its_peer_listens() {
    let mut connection = line(None);
    assert_eq!(sender_for(&connection), Some(Address::new(Host::V4(203, 0, 113, 5), 0)));
    handle(&mut connection.peer, hello(5));
    assert_eq!(sender_for(&connection), Some(Address::new(Host::V4(203, 0, 113, 5), 9944)));
}

#[test]
fn a_claim_is_noted_only_while_there_is_no_chain() {
    let mut connection = line(None);
    handle(&mut connection.peer, hello(5));
    connection.peer.total_work = 900;
    connection.peer.height = 40;
    let claim = note_claim(true, &connection.peer).unwrap();
    assert_eq!(
        claim,
        Claim {
            remote: Some(Host::V4(203, 0, 113, 5)),
            total_work: 900,
            height: 40,
            shows: false,
        }
    );
    assert!(note_claim(false, &connection.peer).is_none());
}

#[test]
fn a_block_beyond_this_builds_rules_stops_the_node_and_blames_nobody() {
    let outdated = Outdated { height: 30, required: 5, known: 4 };
    let mut connection = line(None);
    handle(&mut connection.peer, hello(5));
    let chain = empty_chain();
    let reaction = decide(
        &local(&chain),
        &mut connection.peer,
        Message::Block(Located::new(30, id(30))),
        1_000,
        |_| false,
        |_| (Verdict::Outdated(outdated), empty_chain()),
        |_| false,
    );
    let acts = acts(&mut connection, false, &reaction);
    assert_eq!(acts[acts.len() - 2..], [Act::Stop(outdated), Act::End]);
    assert!(!connection.misbehaved);
}
