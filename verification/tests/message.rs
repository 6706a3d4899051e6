//! What is taken from a peer before its allowance is charged.

use cairn_net::message::{taken_before_the_allowance, Joining, Kind, Message, Placed};
use cairn_net::network::Hash32;

#[test]
fn one_message_is_taken_before_the_allowance_and_it_is_the_join_piece() {
    let piece = Message::JoinPart {
        what: Joining::Ledger,
        at: Hash32::zero(),
        part: 0,
        parts: 1,
        bytes: Vec::new(),
    };
    assert!(taken_before_the_allowance(&piece));
}

#[test]
fn a_run_of_paths_is_not_taken_before_the_allowance() {
    let run = Message::Proofs(vec![Placed { position: 0, proof: None }]);
    assert!(!taken_before_the_allowance(&run));
}

#[test]
fn nothing_else_is_taken_before_the_allowance() {
    for message in [
        Message::Ping(1),
        Message::Pong(1),
        Message::GetPeers,
        Message::Peers(Vec::new()),
        Message::Announce(Vec::new()),
        Message::GetBlocks(Vec::new()),
        Message::GetProofs(Vec::new()),
        Message::Chain { from: 0, count: 0 },
        Message::GetChain { locator: Vec::new() },
    ] {
        assert!(!taken_before_the_allowance(&message), "{message:?} was taken before the allowance");
    }
}

#[test]
fn a_message_names_its_kind() {
    assert_eq!(Message::Ping(1).kind(), Kind::Ping);
    assert_eq!(Message::GetHeaders { from: 3, count: 4 }.kind(), Kind::GetHeaders);
    assert_eq!(Message::Transaction(Hash32::zero()).kind(), Kind::Transaction);
    assert_eq!(Message::Proofs(Vec::new()).kind(), Kind::Proofs);
}
