use cairn_net::network::NetworkId;
use cairn_net::wire::{
    drain, fill, most_from, patience_from, read_message, write_message, Arrival, Buffer, Departure,
    Fault, Filled, Incoming, Patience, Reading, WireError, FRAME_PATIENCE, HEADER_BYTES,
    MAX_FRAME_BYTES, MOST_BEFORE_A_NAME, PROGRESS_BYTES,
};

fn network() -> NetworkId {
    NetworkId::new(0x0a1b_2c3d)
}

/// One thing a scripted socket does when asked.
enum Turn {
    Give(usize),
    Fail(Fault),
}

/// Reads one frame off a socket that does what it was told, in order, and then
/// waits out its deadline for ever.
fn read_from(bytes: &[u8], turns: Vec<Turn>, most: usize) -> Result<Incoming, WireError> {
    let mut reading = Reading::started(network(), most, 0);
    let mut at = 0usize;
    let mut turns = turns.into_iter();
    loop {
        let arrival = match turns.next() {
            Some(Turn::Give(most)) => {
                let count = (bytes.len() - at).min(reading.rest()).min(most);
                let piece = bytes[at..at + count].to_vec();
                at += count;
                Arrival::Bytes(piece)
            }
            Some(Turn::Fail(fault)) => Arrival::Failed(fault),
            None => Arrival::Failed(Fault::WouldBlock),
        };
        match read_message(&mut reading, arrival, 0) {
            Ok(Some(incoming)) => return Ok(incoming),
            Ok(None) => {}
            Err(error) => return Err(error),
        }
    }
}

/// Patience that ran out the moment it was made.
fn spent() -> Patience {
    Patience { by: 0, marked: 0 }
}

/// What a ping of seven is encoded as, for a frame to carry.
fn body() -> Vec<u8> {
    vec![2, 7, 0, 0, 0, 0, 0, 0, 0]
}

fn framed(body: &Vec<u8>) -> Vec<u8> {
    write_message(network(), body).unwrap()
}

#[test]
fn a_frame_read_in_pieces_and_interrupted_arrives_whole() {
    let frame = framed(&body());
    let mut turns = vec![Turn::Fail(Fault::Interrupted)];
    turns.extend(frame.iter().map(|_| Turn::Give(3)));
    turns.insert(4, Turn::Fail(Fault::Interrupted));
    match read_from(&frame, turns, MAX_FRAME_BYTES) {
        Ok(Incoming::Message(read)) => assert_eq!(read, body()),
        other => panic!("a frame read in pieces, with signals, came back {other:?}"),
    }
}

#[test]
fn a_connection_that_fails_is_not_a_quiet_peer() {
    for fault in [Fault::WouldBlock, Fault::TimedOut] {
        assert!(matches!(
            read_from(&[], vec![Turn::Fail(fault)], MAX_FRAME_BYTES),
            Ok(Incoming::Quiet)
        ));
    }
    match read_from(
        &[],
        vec![Turn::Fail(Fault::ConnectionReset)],
        MAX_FRAME_BYTES,
    ) {
        Err(WireError::Io(fault)) => assert_eq!(fault, Fault::ConnectionReset),
        other => panic!("a reset connection before a frame read as {other:?}"),
    }
    let frame = framed(&body());
    match read_from(
        &frame,
        vec![
            Turn::Give(HEADER_BYTES),
            Turn::Fail(Fault::ConnectionReset),
        ],
        MAX_FRAME_BYTES,
    ) {
        Err(WireError::Io(fault)) => assert_eq!(fault, Fault::ConnectionReset),
        other => panic!("a connection reset inside a frame read as {other:?}"),
    }
}

#[test]
fn a_frame_that_finishes_is_taken_and_one_that_does_not_is_not() {
    let mut buffer = Buffer::new(8);
    assert!(matches!(
        fill(&mut buffer, Arrival::Bytes(vec![1u8; 8]), &mut spent(), 0),
        Ok(Some(Filled::Complete))
    ));

    let mut buffer = Buffer::new(8);
    assert!(matches!(
        fill(&mut buffer, Arrival::Bytes(vec![1u8]), &mut spent(), 0),
        Err(WireError::Stalled { had: 1, wanted: 8 })
    ));
}

#[test]
fn a_frame_that_is_taken_whole_is_sent_and_one_that_is_not_is_not() {
    let mut sent = 0usize;
    assert_eq!(
        drain(&mut sent, 8, Departure::Count(8), &mut spent(), 0),
        Ok(true)
    );

    let mut sent = 0usize;
    assert!(matches!(
        drain(&mut sent, 8, Departure::Count(1), &mut spent(), 0),
        Err(WireError::Unaccepted { sent: 1, size: 8 })
    ));
}

#[test]
fn a_frame_written_in_pieces_and_interrupted_is_sent_whole() {
    let frame = framed(&body());
    let mut turns = vec![Departure::Failed(Fault::Interrupted)];
    turns.extend(frame.iter().map(|_| Departure::Count(3)));
    turns.insert(4, Departure::Failed(Fault::Interrupted));
    let mut sent = 0usize;
    let mut patience = Patience::started(0);
    let mut out: Vec<u8> = Vec::new();
    for turn in turns {
        if sent == frame.len() {
            break;
        }
        let turn = match turn {
            Departure::Count(most) => {
                let count = most.min(frame.len() - sent);
                out.extend_from_slice(&frame[sent..sent + count]);
                Departure::Count(count)
            }
            failed => failed,
        };
        assert!(drain(&mut sent, frame.len(), turn, &mut patience, 0).is_ok());
    }
    assert_eq!(out, frame, "what went out is not the frame");
}

#[test]
fn patience_ends_at_its_deadline_and_is_renewed_by_sixty_four_kilobytes() {
    let start = 5_000u64;
    let mut fresh = Patience {
        by: patience_from(start),
        marked: 0,
    };
    let by = fresh.by;
    assert!(fresh.holds(0, start), "patience ran out as it was given");
    assert!(!fresh.holds(0, by), "patience held at its own deadline");

    let mut late = Patience {
        by: start,
        marked: 0,
    };
    assert!(
        !late.holds(64 * 1024 - 1, start),
        "a frame was renewed for moving less than sixty four kilobytes"
    );
    assert!(
        late.holds(64 * 1024, start),
        "a frame that moved sixty four kilobytes was not renewed"
    );
}

#[test]
fn a_clock_near_its_end_still_gives_a_frame_time() {
    let twenty_seconds = 20_000_000_000u64;
    assert_eq!(patience_from(5), 5 + twenty_seconds);
    assert_eq!(patience_from(u64::MAX - twenty_seconds), u64::MAX);
    assert_eq!(patience_from(u64::MAX - twenty_seconds + 1), u64::MAX);
    assert_eq!(patience_from(u64::MAX - 1), u64::MAX);

    let now = u64::MAX - 7;
    let mut late = Patience::started(now);
    assert!(late.holds(0, now), "a frame stalled as it began");
    assert!(late.holds(0, u64::MAX - 1));
    assert!(!late.holds(0, u64::MAX));
}

#[test]
fn a_frame_exactly_at_the_ceiling_is_sent() {
    let largest = vec![0u8; MAX_FRAME_BYTES];
    let written = write_message(network(), &largest).expect("a frame exactly at the ceiling");
    assert_eq!(
        Some(written.len()),
        MAX_FRAME_BYTES.checked_add(HEADER_BYTES),
        "the frame written is not the whole of it"
    );
}

#[test]
fn a_frame_past_the_ceiling_is_not_sent() {
    let past = vec![0u8; MAX_FRAME_BYTES + 1];
    assert_eq!(
        write_message(network(), &past),
        Err(WireError::OversizedSend {
            size: MAX_FRAME_BYTES + 1
        })
    );
}

#[test]
fn a_frame_is_its_marker_its_length_and_its_body() {
    assert_eq!(
        framed(&vec![9, 8]),
        vec![0x3d, 0x2c, 0x1b, 0x0a, 2, 0, 0, 0, 9, 8]
    );
}

#[test]
fn a_frame_of_another_network_is_refused() {
    let frame = write_message(NetworkId::new(1), &vec![9]).unwrap();
    let turns = vec![Turn::Give(100), Turn::Give(100)];
    match read_from(&frame, turns, MAX_FRAME_BYTES) {
        Err(WireError::WrongNetwork { expected, found }) => {
            assert_eq!(expected.as_u32(), 0x0a1b_2c3d);
            assert_eq!(found.as_u32(), 1);
        }
        other => panic!("another network's frame read as {other:?}"),
    }
}

#[test]
fn a_stranger_gets_little_and_a_peer_gets_the_frame_cap() {
    assert_eq!(most_from(false), MOST_BEFORE_A_NAME);
    assert_eq!(most_from(true), MAX_FRAME_BYTES);
    let frame = framed(&vec![0u8; MOST_BEFORE_A_NAME + 1]);
    match read_from(&frame, vec![Turn::Give(HEADER_BYTES)], MOST_BEFORE_A_NAME) {
        Err(WireError::FrameTooLarge { declared }) => {
            assert_eq!(declared, MOST_BEFORE_A_NAME + 1);
        }
        other => panic!("a frame past the cap read as {other:?}"),
    }
}

#[test]
fn a_stream_that_ends_inside_a_frame_is_an_end() {
    let frame = framed(&body());
    match read_from(
        &frame,
        vec![Turn::Give(HEADER_BYTES), Turn::Give(0)],
        MAX_FRAME_BYTES,
    ) {
        Err(WireError::Io(fault)) => assert_eq!(fault, Fault::UnexpectedEof),
        other => panic!("an ended stream read as {other:?}"),
    }
    let mut sent = 1usize;
    assert_eq!(
        drain(
            &mut sent,
            8,
            Departure::Count(0),
            &mut Patience::started(0),
            0
        ),
        Err(WireError::Io(Fault::WriteZero))
    );
}

/// However slowly it comes, a frame is renewed once for every sixty four
/// kilobytes it moves.
#[test]
fn a_dribbled_frame_is_renewed_by_the_stretch() {
    let mut patience = Patience::started(0);
    let mut now = 0u64;
    let mut moved = 0usize;
    let mut renewals = 0;
    while moved < MAX_FRAME_BYTES {
        moved += PROGRESS_BYTES;
        now += FRAME_PATIENCE - 1;
        assert!(patience.holds(moved, now));
        renewals += 1;
    }
    assert_eq!(renewals, 16);
    assert!(!patience.holds(moved, now + FRAME_PATIENCE));
}
