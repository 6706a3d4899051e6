//! A running node, by what each event does to it.

use cairn_net::address::{Address, Host};
use cairn_net::disk::{Extent, LedgerOwed, Reading, Refusing, Writing, Wrote, MAX_BEHIND};
use cairn_net::evidence::{
    UNJUDGED_BLOCKS, UNJUDGED_PEERS, UNJUDGED_STRETCH, UNWEIGHED_PEERS, UNWEIGHED_SHOWINGS,
};
use cairn_net::filling::{Headers, Turn};
use cairn_net::joining::{Joined, Progress};
use cairn_net::logs::Accepted;
use cairn_net::network::{Hash32, Located, NetworkId};
use cairn_net::node::{fresh_nonce, nonce_from, Node, Refused};
use cairn_net::opening::{NodeError, OpenStep, Recovery, Unkept};
use cairn_net::probation::Probation;
use cairn_net::refusal::REFUSAL_SECONDS;
use cairn_net::rounds::{greet_visitor, Admitted};
use cairn_net::sync::{Outdated, Reaction};
use cairn_net::windows::Allowance;

const DRIFT: u64 = 7_200;

fn id(number: u128) -> Hash32 {
    Hash32 { high: 1, low: number }
}

fn address(last: u8) -> Address {
    Address::new(Host::V4(203, 0, 113, last), 9944)
}

fn quiet() -> Node {
    Node::bind(NetworkId::new(6), Address::new(Host::localhost(), 9944), Some(1))
}

fn found() -> Recovery {
    Recovery { discarded_bytes: 0, left_in_place: 0, unreadable: None, blocks_set_aside: 0 }
}

#[test]
fn an_anchor_taken_is_a_probation_begun() {
    let mut node = quiet();
    assert_eq!(node.probation(None), None);
    node.undertake(100, 1_124, 5_000);
    assert_eq!(
        node.probation(None),
        Some(Probation { anchor: 100, settles_at: 1_124, reached: 100 })
    );
}

#[test]
fn what_was_not_taken_reaches_the_operator() {
    let mut node = quiet();
    let unreadable = Reaction { unjudged: Some(9), ..Reaction::default() };
    for block in 0..UNJUDGED_BLOCKS {
        let from = address(u8::try_from(block % 2 + 1).unwrap());
        let at = 1_000 + block * UNJUDGED_STRETCH / (UNJUDGED_BLOCKS - 1);
        node.note_what_was_not_taken(&unreadable, Some(from), at);
    }
    let said = node.unjudged(4).expect("a run of unreadable blocks said nothing");
    assert_eq!(
        (said.version, said.blocks, said.peers, said.over),
        (9, UNJUDGED_BLOCKS, UNJUDGED_PEERS, UNJUDGED_STRETCH)
    );

    assert_eq!(node.out_of_reach(), 0);
    let unreachable = Reaction { unreachable: Some(5), ..Reaction::default() };
    node.note_what_was_not_taken(&unreachable, None, 2_000);
    node.note_what_was_not_taken(&unreachable, None, 2_001);
    assert_eq!(node.out_of_reach(), 2);
}

#[test]
fn refusing_its_own_first_block_is_written_down() {
    let mut node = quiet();
    assert_eq!(node.clock_behind(DRIFT, true), None);
    node.own_first_block_refused(4_000, 1_000);
    let said = node.clock_behind(DRIFT, true).expect("its own first block refused");
    assert!(said.own_first_block);
    assert_eq!(said.seconds, 4_000);
    assert_eq!(node.clock_behind(DRIFT, false), None);
}

#[test]
fn a_block_on_the_disk_is_read_back_off_it() {
    let mut node = quiet();
    assert_eq!(node.archived_at(3, Ok(Some(id(3)))), Some(id(3)));
    assert_eq!(node.archived_at(6, Ok(None::<Hash32>)), None);
    assert!(node.unread().is_none());
    assert_eq!(node.archived_at(4, Err::<Option<Hash32>, String>("gone".to_owned())), None);
    let said = node.unread().as_ref().unwrap();
    assert_eq!((said.what, said.height, said.refusals), (Reading::Blocks, 4, 1));
}

#[test]
fn a_question_is_counted_once_it_is_put_and_not_before() {
    let mut node = quiet();
    assert_eq!(node.proofs_asked_for(), 0);
    assert!(node.recover_proofs(&Vec::new()).is_none());
    assert_eq!(node.proofs_asked_for(), 0);
    assert_eq!(node.recover_proofs(&vec![(0, Hash32::zero())]), Some(vec![0]));
    assert_eq!(node.proofs_asked_for(), 1);
}

#[test]
fn a_question_goes_to_whoever_connects_while_it_is_open() {
    let mut node = quiet();
    node.recover_proofs(&vec![(0, Hash32::zero())]);
    assert_eq!(node.asks_about_proofs(), (Vec::new(), 0));
    assert!(node.recovered(0, false).is_none());
    let peer = node.attach_peer(Some(address(1).host), None).unwrap();
    assert_eq!(node.asks_about_proofs(), (vec![peer], 0));
    assert_eq!(node.asks_about_proofs(), (Vec::new(), 0));
    let done = node.recovered(0, true).unwrap();
    assert_eq!((done.asked, done.answered), (1, 0));
    assert!(node.asking.asked.is_empty());
}

#[test]
fn a_refused_host_is_turned_away_at_every_door_into_the_peer_table() {
    let mut node = quiet();
    let loopback = Address::new(Host::localhost(), 9000);
    node.connect(loopback, "127.0.0.1:9000", Some(loopback.host), 1_000)
        .expect("an ordinary host is dialled");

    let elsewhere = address(7);
    assert_eq!(node.may_dial(elsewhere, 1_000), None);
    node.refusals.refuse(elsewhere.host, 1_000);
    assert_eq!(node.may_dial(elsewhere, 1_000), Some(Unkept::Refusing));
    let turned_away = node.connect(elsewhere, "203.0.113.7:9944", Some(elsewhere.host), 1_000);
    match turned_away {
        Err(error @ NodeError::NotKept { because: Unkept::Refusing, .. }) => {
            assert!(error.to_string().contains("refusing that host"));
        }
        other => panic!("a host this node is refusing was let in: {other:?}"),
    }
    assert_eq!(
        greet_visitor(true, &node.peers, &node.refusals, elsewhere.host, 1_000),
        Admitted::TurnedAway
    );
    assert_eq!(node.peer_count(), 1);
}

#[test]
fn a_peer_that_misbehaved_is_turned_away_once_its_connection_ends() {
    let mut node = quiet();
    let id = node.attach_peer(Some(address(7).host), Some(address(7))).unwrap();
    let mut connection =
        node.connection_begun(id, Some(address(7).host), Some(address(7)), 1_000);
    assert_eq!(node.windows.mark(address(7).host).unwrap().holders, 1);
    connection.misbehaved = true;
    assert_eq!(node.connection_ended(&connection, 1_000), Some(address(7)));
    node.detach_peer(id);
    assert_eq!(node.peer_count(), 0);
    assert_eq!(node.may_dial(address(7), 1_000 + REFUSAL_SECONDS - 1), Some(Unkept::Refusing));
    assert_eq!(node.may_dial(address(7), 1_000 + REFUSAL_SECONDS), None);
    assert_eq!(node.windows.mark(address(7).host).unwrap().holders, 0);
}

#[test]
fn a_connection_starts_where_its_address_left_off() {
    let mut node = quiet();
    let host = address(7).host;
    let mut first = node.connection_begun(0, Some(host), None, 1_000);
    assert_eq!(first.peer.spent, 0);
    assert!(first.peer.afford(400, 1_000));
    node.windows.settle(first.allowance, &first.peer);
    node.connection_ended(&first, 1_001);

    let back = node.connection_begun(1, Some(host), None, 1_002);
    assert_eq!((back.peer.window_started, back.peer.spent), (1_000, 400));
    assert_eq!((back.id, back.last_heard, back.misbehaved), (1, 1_002, false));
    let nowhere = node.connection_begun(2, None, None, 1_002);
    assert_eq!((nowhere.allowance, nowhere.peer.spent), (Allowance::Own, 0));
}

#[test]
fn a_connection_is_kept_only_where_there_is_room_on_a_running_node() {
    let mut node = quiet();
    let host = address(1).host;
    let dial = |node: &mut Node| node.connect(address(1), "203.0.113.1:9944", Some(host), 5);
    assert_eq!(dial(&mut node).unwrap(), 0);
    assert_eq!(dial(&mut node).unwrap(), 1);
    assert!(matches!(dial(&mut node), Err(NodeError::NotKept { because: Unkept::Full, .. })));
    assert!(node.shutdown());
    assert!(!node.shutdown());
    let other = address(2);
    let stopped = node.connect(other, "203.0.113.2:9944", Some(other.host), 5);
    assert!(matches!(stopped, Err(NodeError::NotKept { because: Unkept::Stopping, .. })));
    assert_eq!(node.attach_peer(Some(other.host), None), None);
}

#[test]
fn a_node_on_probation_takes_nothing_made_here() {
    let mut node = quiet();
    node.undertake(100, 1_124, 5_000);
    match node.submit_block(Some(612), || Ok(Accepted::Extended)) {
        Err(refused @ Refused::OnProbation(_)) => assert_eq!(
            refused.to_string(),
            "this node is still validating the ledger it was handed: checked 512 of the 1024 blocks above the ledger handed over at height 100"
        ),
        other => panic!("a node on probation took a block: {other:?}"),
    }
    assert!(matches!(
        node.submit_transaction(Some(612), || Ok(true)),
        Err(Refused::OnProbation(_))
    ));
    assert!(matches!(
        node.submit_block(Some(1_124), || Ok(Accepted::Extended)),
        Ok((Accepted::Extended, true))
    ));
    assert!(matches!(
        node.submit_block(Some(1_125), || Ok(Accepted::SideBranch)),
        Ok((Accepted::SideBranch, false))
    ));
    assert!(matches!(node.submit_transaction(Some(1_125), || Ok(true)), Ok(true)));
    let refused = node.submit_block(Some(1_125), || Err("no work".to_owned())).unwrap_err();
    assert_eq!(refused.to_string(), "no work");
    let refused = node.submit_transaction(Some(1_125), || Err("spent".to_owned())).unwrap_err();
    assert_eq!(refused.to_string(), "spent");
}

#[test]
fn a_node_that_waits_too_long_for_the_burial_stops() {
    let mut node = quiet();
    node.undertake(100, 1_124, 5_000);
    node.attach_peer(Some(address(1).host), None);
    node.note_what_it_keeps(0, false);
    node.wait_for_the_burial(60);
    assert!(node.keep_the_undertaking(Some(100), 5_000));
    assert!(!node.keep_the_undertaking(Some(100), 5_060));
    assert!(!node.running);
    let said = node.stranded().unwrap();
    assert_eq!((said.anchor, said.settles_at, said.waited), (100, 1_124, 60));
}

#[test]
fn a_join_is_reported_done_while_it_is_still_on_probation() {
    let mut node = quiet();
    assert_eq!(node.joining(None), Joined::NotYet);
    node.undertake(100, 1_124, 5_000);
    assert_eq!(node.joining(Some(100)), Joined::Done);
    node.joining = Progress::Landed;
    assert_eq!(node.joining(Some(2_000)), Joined::Done);
}

#[test]
fn a_node_past_saving_on_its_disk_stops() {
    let mut node = quiet();
    let full = || Some(Refusing::at(Writing::Blocks, "no space left on device"));
    node.note_writing(&Wrote { reaches: 1, refusing: full() }, Some(MAX_BEHIND));
    assert!(node.running);
    node.note_writing(&Wrote { reaches: 1, refusing: full() }, Some(MAX_BEHIND + 1));
    assert!(!node.running);
    assert!(!node.unwritten().as_ref().unwrap().within_reach);

    let mut node = quiet();
    node.note_refusal(Refusing::at(Writing::Ledger, "full"), 10, Some(9));
    let said = node.unwritten().as_ref().unwrap();
    assert_eq!((said.what, said.blocks, said.written_through), (Writing::Ledger, 0, Some(9)));
}

#[test]
fn a_node_keeps_to_its_budget() {
    let mut node = quiet();
    node.keep_blocks(500);
    assert!(!node.is_over_its_budget(Some(500)) && node.is_over_its_budget(Some(501)));
    assert_eq!((node.kept_bytes(None), node.kept_bytes(Some(7))), (0, 7));
    let log = Extent { first: 0, reaches: 100 };
    assert_eq!(node.trim_history(Located::new(99, id(99)), true, log, 5_000), Some(90));
    assert_eq!((node.blocks_from(Some(log)), node.written_through(Some(log))), (Some(0), Some(99)));
    assert_eq!((node.blocks_from(None), node.written_through(None)), (None, None));
    assert_eq!(node.write_ledger(Some(id(9))), LedgerOwed::Build);
    node.ledger_written(id(9), Located::new(7, id(7)));
    assert_eq!(node.write_ledger(Some(id(9))), LedgerOwed::Written(Located::new(7, id(7))));
}

#[test]
fn a_node_missing_headers_says_how_many() {
    let node = quiet();
    let headers = Headers {
        own: Extent { first: 20, reaches: 31 },
        leaves: 0,
        collected: Extent { first: 0, reaches: 8 },
        epoch: 0,
    };
    let filling = node.filling(&headers, Some(30), 700).unwrap();
    assert_eq!((filling.from, filling.through, filling.reaches, filling.bytes), (20, 31, 31, 700));
    assert!(!filling.over_the_keep());
    let whole = Headers { own: Extent { first: 0, reaches: 31 }, leaves: 31, ..headers };
    assert_eq!(node.filling(&whole, Some(30), 700), None);
}

#[test]
fn showings_that_will_not_weigh_are_said_only_without_a_chain() {
    let mut node = quiet();
    for showing in 0..UNWEIGHED_SHOWINGS {
        node.could_not_weigh(Some(address(showing as u8 % 2)), "no path", 1_000);
    }
    let said = node.unweighable(true).unwrap();
    assert_eq!((said.because.as_str(), said.peers), ("no path", UNWEIGHED_PEERS));
    assert!(node.unweighable(false).is_none());
}

#[test]
fn the_first_account_of_rules_it_lacks_is_the_one_a_node_keeps() {
    let mut node = quiet();
    let first = Outdated { height: 9, required: 3, known: 2 };
    node.is_outdated(first);
    assert!(node.running);
    node.stop_as_outdated(Outdated { height: 12, required: 4, known: 2 });
    assert_eq!(node.outdated(), Some(first));
    assert!(!node.running);
}

#[test]
fn visitors_that_could_not_be_taken_are_counted() {
    let mut node = quiet();
    node.could_not_take_a_visitor("too many open files");
    assert_eq!(node.unanswered().as_ref().unwrap().because, "too many open files");
    node.took_a_visitor();
    assert!(node.unanswered().is_none());
    assert_eq!(node.turned_away(), 1);
}

#[test]
fn headers_offered_at_the_door_take_the_turn_of_whoever_has_it() {
    let mut node = quiet();
    let turn = Turn { peer: 7, moved: 10, marked: 3, spoiled: false };
    node.filling_from = Some(turn);
    assert_eq!(node.take_offered_headers(500), 7);
    assert_eq!(node.filling_from.unwrap().moved, 500);
}

#[test]
fn a_transfer_is_offered_again_only_while_it_is_held() {
    let mut node = quiet();
    let peer = node.attach_peer(Some(address(1).host), Some(address(1))).unwrap();
    node.note_what_it_keeps(peer, true);
    assert_eq!((node.peers_introduced(), node.archiving_peers()), (1, 1));
    assert_eq!(node.sender_for(peer), Some(Address::new(address(1).host, 0)));
    assert_eq!(node.sender_for(99), None);
    let offer = |pooled, taken| {
        node.offer_again(pooled, Vec::new(), |mut sent: Vec<u64>, peer| {
            sent.push(peer);
            (sent, taken)
        })
    };
    let (sent, taken) = offer(true, true);
    assert_eq!((sent.len(), taken), (1, 1));
    let (sent, taken) = offer(true, false);
    assert_eq!((sent.len(), taken), (1, 0));
    assert_eq!(offer(false, true), (Vec::new(), 0));
}

#[test]
fn every_way_of_opening_a_directory_reads_what_it_needs() {
    let log = Extent { first: 3, reaches: 9 };
    assert_eq!(Node::open(log, found()).step, OpenStep::ReadLedger);
    assert_eq!(Node::open_watching(log, found()).step, OpenStep::ReadLedger);
    assert_eq!(Node::open_archiving(log, found()).step, OpenStep::Failed);
    assert_eq!(Node::open_archiving(Extent { first: 0, reaches: 9 }, found()).step, OpenStep::Read(0));
}

#[test]
fn a_node_starts_with_nothing_said() {
    let mut node = quiet();
    assert_eq!(node.address(), Address::new(Host::localhost(), 9944));
    assert_eq!((node.peer_count(), node.mended_nodes(), node.turned_away()), (0, 0, 0));
    assert!(node.unsaved_addresses().is_none() && node.unwritten().is_none());
    node.start_from_names(vec!["seed.example:9944".to_owned()]);
    assert_eq!(node.seed_names.len(), 1);
    node.could_not_read(Reading::Headers, 8, "gone");
    assert_eq!(node.unread().as_ref().unwrap().height, 8);
}

#[test]
fn a_nonce_is_drawn_and_falls_back_on_the_clock() {
    assert_eq!(nonce_from(Some([1, 2, 3, 4, 5, 6, 7, 8]), None), 0x0807_0605_0403_0201);
    assert_eq!(nonce_from(Some([255; 8]), Some(4)), u64::MAX);
    assert_eq!(nonce_from(None, Some(4)), 4);
    assert_eq!(nonce_from(None, Some(u128::from(u64::MAX) + 1)), 1);
    assert_eq!(nonce_from(None, None), 1);
    assert_ne!(fresh_nonce(None), fresh_nonce(None), "two runs drew the same number");
}

#[test]
fn a_header_is_read_out_of_the_headers_before_the_blocks() {
    let mut node = quiet();
    let unasked = || -> Result<Option<Hash32>, String> { panic!("the blocks were read too") };
    assert_eq!(node.header_off_disk(3, Ok(Some(id(3))), unasked), Some(id(3)));
    assert_eq!(node.header_off_disk(3, Ok(None), || Ok(Some(id(4)))), Some(id(4)));
    assert!(node.unread().is_none());

    let gone = || Err::<Option<Hash32>, String>("gone".to_owned());
    assert_eq!(node.header_off_disk(3, gone(), || Ok(Some(id(4)))), Some(id(4)));
    assert_eq!(node.unread().as_ref().unwrap().what, Reading::Headers);
    assert_eq!(node.header_off_disk(5, gone(), gone), None);
    let said = node.unread().as_ref().unwrap();
    assert_eq!((said.what, said.height, said.refusals), (Reading::Blocks, 5, 3));
}
