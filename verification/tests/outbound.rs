//! What one peer can have waiting for it.

use cairn_net::message::{Joining, Message};
use cairn_net::network::Hash32;
use cairn_net::outbound::{Outbound, OUTBOUND_QUEUE, OUTBOUND_QUEUE_BYTES};
use cairn_net::sync::{ALLOWANCE, BYTES_PER_UNIT};
use cairn_net::wire::MAX_FRAME_BYTES;

/// A join part, which is the largest thing a node builds for a peer and
/// behaves on this queue exactly as a block does.
fn weighing(bytes: usize) -> Message {
    Message::JoinPart {
        what: Joining::Ledger,
        at: Hash32::zero(),
        part: 0,
        parts: 1,
        bytes: vec![0u8; bytes],
    }
}

/// What a message comes to on the wire, near enough.
fn weight(message: &Message) -> usize {
    match message {
        Message::JoinPart { bytes, .. } => bytes.len() + 46,
        _ => 9,
    }
}

/// Messages accepted before the queue refuses, and the bytes they came to.
fn accepted(each: usize) -> (usize, usize) {
    let mut outbound = Outbound::new();
    let mut taken = 0usize;
    while outbound.try_send(weighing(each), weight).is_ok() {
        taken += 1;
    }
    (taken, outbound.queued())
}

#[test]
fn a_queue_holds_what_a_window_of_allowance_buys() {
    const WINDOW_BUYS: usize = 8_192 * 512;
    assert_eq!(ALLOWANCE as usize * BYTES_PER_UNIT, WINDOW_BUYS);
    let each = weight(&weighing(128 * 1024));
    let (_, held) = accepted(128 * 1024);
    assert!(held <= WINDOW_BUYS);
    assert!(held + each > WINDOW_BUYS);
}

#[test]
fn a_queue_is_bounded_in_bytes_and_not_only_in_messages() {
    let block = 128 * 1024;
    let (blocks, held) = accepted(block);
    assert!(held <= OUTBOUND_QUEUE_BYTES);
    assert!(blocks < OUTBOUND_QUEUE);

    let (small, _) = accepted(0);
    assert_eq!(small, OUTBOUND_QUEUE);
}

#[test]
fn the_largest_message_still_fits() {
    assert!(MAX_FRAME_BYTES < OUTBOUND_QUEUE_BYTES);
    let (parts, _) = accepted(MAX_FRAME_BYTES - 46);
    assert!(parts >= 1);
}

#[test]
fn bytes_leave_the_count_when_they_are_written_and_not_when_they_are_taken() {
    let mut outbound: Outbound<Message> = Outbound::new();
    assert!(outbound.hand_over(Message::Ping(1), 9).is_ok());
    assert!(outbound.hand_over(Message::Ping(2), 11).is_ok());
    assert_eq!(outbound.queued(), 20);
    let (first, weight) = outbound.next().unwrap();
    assert!(matches!(first, Message::Ping(1)));
    assert_eq!((weight, outbound.queued()), (9, 20));
    outbound.written(weight);
    assert_eq!(outbound.queued(), 11);
    assert!(matches!(outbound.next(), Some((Message::Ping(2), 11))));
    assert!(outbound.next().is_none());
}

#[test]
fn a_queue_that_leads_nowhere_takes_nothing() {
    let mut outbound: Outbound<Message> = Outbound::nowhere();
    assert!(outbound.try_send(Message::GetPeers, weight).is_err());
    assert_eq!(outbound.queued(), 0);
}
