//! What each message leads to.

use cairn_net::address::{Address, Host};
use cairn_net::logs::Accepted;
use cairn_net::message::{Handshake, Joining, Keeps, Kind, Message, Placed, MAX_PROVEN, MAX_REQUESTED};
use cairn_net::network::{Hash32, Located, NetworkId};
use cairn_net::sync::{
    accept_handshake, follow_up, greet, local_handshake, on_block, on_message, on_transfer,
    request_announced, request_range, Chain, DropReason, Limits, Local, Outdated, PeerState,
    Reacting, Reaction, Verdict, ALLOWANCE, BATCH_PATIENCE, BYTES_PER_UNIT, COST_CHAIN, COST_JOIN,
    JOIN_RATHER_THAN_READ, WINDOW_SECONDS,
};

const VERSION: u32 = 4;

fn id(number: u128) -> Hash32 {
    Hash32 { high: 1, low: number }
}

fn keeps() -> Keeps {
    Keeps { headers: true, cold_set: false }
}

fn chain(height: Option<u64>, total_work: u128) -> Chain {
    Chain {
        network: NetworkId::new(6),
        genesis: height.map(|_| id(0)),
        tip: height.map(|height| id(u128::from(height))),
        height,
        total_work,
        locator: height.map(|height| Located::new(height, id(7))).into_iter().collect(),
    }
}

fn local(chain: &Chain) -> Local<'_> {
    Local {
        chain,
        keeps: keeps(),
        listen: 9944,
        nonce: 77,
        limits: Limits { version: VERSION, announced: 3, shared: 2 },
    }
}

fn theirs(height: u64, total_work: u128) -> Handshake {
    local_handshake(&chain(Some(height), total_work), keeps(), VERSION, 9950, 5)
}

fn stranger() -> PeerState {
    PeerState::new(Some(Host::V4(203, 0, 113, 5)))
}

fn greeted(total_work: u128) -> PeerState {
    let ours = chain(Some(9), 1_000_000);
    let mut peer = stranger();
    greet(&local(&ours), &mut peer, theirs(20, total_work), false);
    assert!(peer.greeted);
    peer
}

fn done(reacting: Reacting) -> Reaction {
    match reacting {
        Reacting::Done(reaction) => reaction,
        other => panic!("a question was left over: {other:?}"),
    }
}

fn ask(peer: &mut PeerState, message: Message, now: u64) -> Reaction {
    let ours = chain(Some(9), 90);
    done(on_message(&local(&ours), peer, message, now))
}

#[test]
fn an_introduction_is_answered_and_followed_up() {
    let ours = chain(Some(9), 90);
    let mut peer = stranger();
    let reaction = done(on_message(&local(&ours), &mut peer, Message::Hello(theirs(20, 200)), 50));
    assert!(peer.greeted);
    assert_eq!((peer.height, peer.total_work, peer.last_message), (20, 200, 50));
    let address = Address::new(Host::V4(203, 0, 113, 5), 9950);
    assert_eq!((peer.advertised, reaction.learned.clone()), (Some(address), vec![address]));
    assert!(matches!(
        reaction.reply.as_slice(),
        [Message::Welcome(ours), Message::GetChain { locator }, Message::GetPeers]
            if ours.height == 9 && ours.nonce == 77 && locator.len() == 1
    ));
}

#[test]
fn a_node_with_no_chain_joins_one_that_is_long_enough() {
    let ours = chain(None, 0);
    let asks = |height, work| {
        let mut peer = stranger();
        greet(&local(&ours), &mut peer, theirs(height, work), false).reply
    };
    assert!(matches!(
        asks(JOIN_RATHER_THAN_READ, 10).as_slice(),
        [Message::GetJoin { what: Joining::Weight, part: 0 }, Message::GetPeers]
    ));
    assert!(matches!(
        asks(JOIN_RATHER_THAN_READ - 1, 10).as_slice(),
        [Message::GetChain { .. }, Message::GetPeers]
    ));
    assert!(matches!(asks(JOIN_RATHER_THAN_READ, 0).as_slice(), [Message::GetPeers]));
}

#[test]
fn nothing_is_answered_before_an_introduction() {
    let mut peer = stranger();
    let reaction = ask(&mut peer, Message::GetPeers, 50);
    let reason = DropReason::Unannounced { kind: Kind::GetPeers };
    assert_eq!(reaction.drop_peer, Some(reason));
    assert!(reason.is_misbehaviour() && !peer.greeted);
}

#[test]
fn a_second_introduction_is_refused() {
    let mut peer = greeted(200);
    let reaction = ask(&mut peer, Message::Hello(theirs(90, 900)), 50);
    assert_eq!(reaction.drop_peer, Some(DropReason::RepeatedHandshake));
    assert_eq!((peer.height, peer.total_work), (20, 200));
}

#[test]
fn an_introduction_from_elsewhere_is_refused_for_what_it_is() {
    let ours = chain(Some(9), 90);
    let take = |theirs: Handshake| accept_handshake(&ours, VERSION, &theirs);
    assert_eq!(take(theirs(1, 1)), Ok(()));
    assert_eq!(
        take(Handshake { version: 3, ..theirs(1, 1) }),
        Err(DropReason::WrongVersion { theirs: 3 })
    );
    let other = NetworkId::new(8);
    assert_eq!(
        take(Handshake { network: other, ..theirs(1, 1) }),
        Err(DropReason::WrongNetwork { theirs: other })
    );
    assert_eq!(
        take(Handshake { genesis: id(44), ..theirs(1, 1) }),
        Err(DropReason::ForeignChain { theirs: id(44) })
    );
    assert_eq!(take(Handshake { genesis: Hash32::zero(), ..theirs(1, 1) }), Ok(()));
}

#[test]
fn a_window_holds_one_allowance_and_the_next_another() {
    let mut peer = greeted(200);
    assert!(peer.afford(ALLOWANCE, 100));
    assert!(!peer.afford(1, 100 + WINDOW_SECONDS - 1));
    assert!(peer.afford(1, 100 + WINDOW_SECONDS));
    assert_eq!(peer.spent, 1);
    assert!(peer.afford_serving(BYTES_PER_UNIT + 1, 100 + WINDOW_SECONDS));
    assert_eq!(peer.spent, 3);
}

#[test]
fn what_a_peer_cannot_afford_is_not_answered() {
    let mut peer = greeted(200);
    let join = || Message::GetJoin { what: Joining::Weight, part: 0 };
    for _ in 0..ALLOWANCE / COST_JOIN {
        assert_eq!(ask(&mut peer, join(), 100).join, Some((Joining::Weight, 0)));
    }
    assert_eq!(ask(&mut peer, join(), 100).join, None);
    assert!(ask(&mut peer, Message::Ping(4), 100).reply.is_empty());
    assert!(matches!(
        ask(&mut peer, Message::Ping(4), 100 + WINDOW_SECONDS).reply.as_slice(),
        [Message::Pong(4)]
    ));
    ask(&mut peer, Message::GetChain { locator: Vec::new() }, 100 + WINDOW_SECONDS);
    assert_eq!(peer.spent, 1 + COST_CHAIN);
}

#[test]
fn questions_are_set_aside_and_cut_to_size() {
    let mut peer = greeted(200);
    let long: Vec<u64> = (0..MAX_REQUESTED as u64 + 9).collect();
    assert_eq!(ask(&mut peer, Message::GetBlocks(long.clone()), 100).fetch.len(), MAX_REQUESTED);
    assert_eq!(ask(&mut peer, Message::GetProofs(long), 100).prove.unwrap().len(), MAX_PROVEN);
    assert_eq!(
        ask(&mut peer, Message::GetHeaders { from: 4, count: 9_000 }, 100).headers,
        Some((4, 512))
    );
    assert!(ask(&mut peer, Message::GetPeers, 100).share_addresses);
    let placed = vec![Placed { position: 4, proof: None }];
    assert_eq!(ask(&mut peer, Message::Proofs(placed), 100).placed.len(), 1);
    let addresses = vec![Address::new(Host::localhost(), 1); 5];
    assert_eq!(ask(&mut peer, Message::Peers(addresses), 100).learned.len(), 2);
    let offered = Message::Headers { from: 3, heights: vec![3, 4] };
    assert_eq!(ask(&mut peer, offered, 100).offered_headers, Some((3, vec![3, 4])));
    let locator = vec![Located::new(3, id(3))];
    assert_eq!(ask(&mut peer, Message::GetChain { locator: locator.clone() }, 100).locate, Some(locator));
}

#[test]
fn only_what_is_missing_of_a_branch_is_asked_for() {
    let mut peer = greeted(2_000);
    let reaction = ask(&mut peer, Message::Chain { from: 5, count: 8 }, 100);
    assert!(matches!(reaction.reply.as_slice(), [Message::GetBlocks(heights)] if heights == &vec![10, 11, 12]));
    assert_eq!(peer.awaiting.len(), 3);
    let mut peer = greeted(2_000);
    let nothing = ask(&mut peer, Message::Chain { from: 5, count: 4 }, 100);
    assert!(matches!(nothing.reply.as_slice(), [Message::GetChain { .. }]));
}

#[test]
fn a_batch_is_no_longer_than_one_question_carries() {
    let mut peer = greeted(200);
    let reaction = request_range(&mut peer, 3, 1_000, 100);
    assert!(matches!(reaction.reply.as_slice(), [Message::GetBlocks(heights)] if heights.len() == MAX_REQUESTED));
    assert!(request_range(&mut peer, 3, 0, 100).reply.is_empty());
}

#[test]
fn a_sync_carries_on_until_it_has_caught_up() {
    let behind = chain(Some(9), 90);
    let level = chain(Some(20), 200);
    let mut peer = greeted(200);
    request_range(&mut peer, 10, 2, 100);
    assert!(follow_up(&behind, &mut peer, 101).reply.is_empty(), "a batch is on its way");
    on_block(&behind, &mut peer, Located::new(10, id(10)), Verdict::Taken(Accepted::Extended), 101);
    let next =
        on_block(&behind, &mut peer, Located::new(11, id(11)), Verdict::Taken(Accepted::Extended), 102);
    assert!(matches!(next.reply.as_slice(), [Message::GetChain { .. }]));
    assert_eq!(next.broadcast, vec![Located::new(11, id(11))]);
    assert!(follow_up(&level, &mut peer, 103).reply.is_empty());
}

#[test]
fn a_batch_that_never_came_is_asked_for_again() {
    let behind = chain(Some(9), 90);
    let mut peer = greeted(200);
    request_range(&mut peer, 10, 2, 100);
    assert!(follow_up(&behind, &mut peer, 100 + BATCH_PATIENCE - 1).reply.is_empty());
    let again = follow_up(&behind, &mut peer, 100 + BATCH_PATIENCE);
    assert!(matches!(again.reply.as_slice(), [Message::GetChain { .. }]));
    assert!(peer.awaiting.is_empty());
}

#[test]
fn what_is_announced_is_looked_up_before_it_is_asked_for() {
    let ours = chain(Some(9), 90);
    let mut peer = greeted(200);
    let ids: Vec<Located> = (0..5).map(|at| Located::new(at, id(u128::from(at)))).collect();
    let capped = match on_message(&local(&ours), &mut peer, Message::Announce(ids), 100) {
        Reacting::Announced(capped) => capped,
        other => panic!("an announcement was not looked up: {other:?}"),
    };
    assert_eq!(capped.len(), 3);
    let reaction = request_announced(&ours, &mut peer, &capped, &vec![true, false, true], 100);
    assert!(matches!(reaction.reply.as_slice(), [Message::GetBlocks(heights)] if heights == &vec![1]));
}

#[test]
fn a_block_this_node_cannot_judge_is_held_against_nobody() {
    let ours = chain(Some(9), 90);
    let mut peer = greeted(200);
    let at = Located::new(30, id(30));
    let outdated = Outdated { height: 30, required: 5, known: 4 };
    let said = |peer: &mut PeerState, verdict| on_block(&ours, peer, at, verdict, 100);
    assert_eq!(said(&mut peer, Verdict::Unreachable).unreachable, Some(30));
    assert_eq!(said(&mut peer, Verdict::Unjudged { version: 9 }).unjudged, Some(9));
    assert_eq!(said(&mut peer, Verdict::AheadOfTheClock { by: 60 }).ahead_of_the_clock, Some(60));
    assert_eq!(said(&mut peer, Verdict::Outdated(outdated)).outdated, Some(outdated));
    assert!(said(&mut peer, Verdict::MissingHistory).drop_peer.is_none());
    let side = said(&mut peer, Verdict::Taken(Accepted::SideBranch));
    assert!(side.broadcast.is_empty() && side.applied.is_none());
    let bad = said(&mut peer, Verdict::Bad);
    assert_eq!(bad.drop_peer, Some(DropReason::BadBlock { id: id(30) }));
    assert!(bad.drop_peer.unwrap().is_misbehaviour());
}

#[test]
fn a_transfer_already_held_goes_no_further() {
    assert_eq!(on_transfer(id(3), true).relayed, vec![id(3)]);
    assert!(on_transfer(id(3), false).relayed.is_empty());
}

#[test]
fn a_node_that_meets_itself_learns_nothing() {
    let ours = chain(Some(9), 90);
    let mut peer = stranger();
    let itself = Handshake { nonce: 77, ..theirs(50, 500) };
    let reaction = greet(&local(&ours), &mut peer, itself, true);
    assert_eq!(reaction.drop_peer, Some(DropReason::Ourselves));
    assert!(!DropReason::Ourselves.is_misbehaviour());
    assert!(reaction.learned.is_empty() && !peer.greeted);
    assert_eq!(reaction.forget, vec![Address::new(Host::V4(203, 0, 113, 5), 9950)]);
}
