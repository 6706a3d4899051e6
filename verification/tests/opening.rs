//! Starting a node on a directory.

use cairn_net::disk::Extent;
use cairn_net::joining::Handed;
use cairn_net::logs::{Accepted, CaughtUp};
use cairn_net::network::{Hash32, Located};
use cairn_net::opening::{
    about_the_reader, headers_the_store_will_not_stand_behind, is_too_long, ledger_refused,
    open_the_chain, read_handed_ledger, BlockRefusal, FirstBlock, HandedBack, HandoverRefusal, Laid, LedgerFile,
    NodeError, OpenStep, Opening, Record, Recovery, Replayed, Restored, Unkept,
};

const DRIFT: u64 = 7_200;
const OPENED: u64 = 1_700_000_000;
const BLOCKS: &str = "blocks.log";
const LEDGER: &str = "ledger.handed";

fn found() -> Recovery {
    Recovery { discarded_bytes: 0, left_in_place: 0, unreadable: None, blocks_set_aside: 0 }
}

fn extent(first: u64, reaches: u64) -> Extent {
    Extent { first, reaches }
}

fn block(height: u64) -> Record {
    Record::Block { height, timestamp: OPENED + height }
}

fn caught_up() -> CaughtUp {
    CaughtUp { dropped: 0, replaced: 0, unread: None }
}

/// What a chain makes of a first block dated when the network opened, on a
/// machine that says it is `now`.
fn first_block(now: u64) -> Option<FirstBlock> {
    if OPENED > now + DRIFT {
        Some(FirstBlock::TooFarAhead { timestamp: OPENED })
    } else {
        Some(FirstBlock::Took)
    }
}

#[test]
fn a_chain_that_holds_its_first_block_is_not_given_it_again() {
    let laid = open_the_chain(true, false, OPENED + 60, || {
        panic!("a chain that held its first block was given it again")
    });
    assert_eq!(laid, Laid::Nothing);
}

#[test]
fn a_clock_behind_the_first_block_is_named_rather_than_dropped() {
    let now = OPENED - DRIFT - 60;
    assert_eq!(open_the_chain(true, true, now, || first_block(now)), Laid::Ahead(DRIFT + 60));
    let now = OPENED + 60;
    assert_eq!(open_the_chain(true, true, now, || first_block(now)), Laid::InMemory);
}

#[test]
fn a_network_without_a_pinned_first_block_is_left_alone() {
    let laid = open_the_chain(false, true, 0, || panic!("there is no first block to lay down"));
    assert_eq!(laid, Laid::Nothing);
}

#[test]
fn a_first_block_refused_for_anything_else_lays_down_nothing() {
    assert_eq!(open_the_chain(true, true, OPENED, || Some(FirstBlock::Refused)), Laid::Nothing);
    assert_eq!(open_the_chain(true, true, OPENED, || None), Laid::Nothing);
}

fn read(file: LedgerFile) -> Result<Option<HandedBack>, NodeError> {
    read_handed_ledger(
        file,
        LEDGER,
        1_000,
        1_024,
        |bytes| {
            if bytes.is_empty() {
                Err("unexpected end".to_owned())
            } else {
                Ok(Handed {
                    tip: Located::new(5_000, Hash32::zero()),
                    anchor: u64::from(bytes[0]),
                })
            }
        },
        |handed| {
            if handed.anchor == 13 {
                Err(HandoverRefusal::Other("no work behind it".to_owned()))
            } else {
                Ok(())
            }
        },
    )
}

#[test]
fn a_ledger_file_that_cannot_be_read_stops_the_node() {
    assert!(matches!(read(LedgerFile::Missing), Ok(None)), "no file is no ledger");

    let mut opening = Opening::open_with(false, extent(0, 0), found());
    assert_eq!(opening.step, OpenStep::ReadLedger);
    opening.ledger(read(LedgerFile::Unreadable("is a directory".to_owned())));
    assert_eq!(opening.step, OpenStep::Failed);
    match opening.error {
        Some(NodeError::UnusableLedger { because }) => {
            assert!(because.contains("could not be read"));
        }
        other => panic!("the node stopped for another reason: {other:?}"),
    }
}

#[test]
fn a_ledger_file_is_read_back_or_says_why_not() {
    assert_eq!(
        read(LedgerFile::Read(vec![100])).unwrap(),
        Some(HandedBack { anchor: 100, settles_at: 1_124 })
    );
    let said = |file| match read(file) {
        Err(error) => error.to_string(),
        Ok(_) => panic!("a ledger that cannot be used was taken"),
    };
    assert!(said(LedgerFile::Read(Vec::new()))
        .starts_with("ledger.handed is not a ledger this build can read: unexpected end. "));
    assert!(said(LedgerFile::Read(vec![13]))
        .starts_with("ledger.handed was refused: no work behind it. "));
    assert!(said(LedgerFile::TooLong(2_000)).starts_with(
        "ledger.handed is 2000 bytes, longer than any ledger this build writes or takes (1000 bytes). "
    ));
}

#[test]
fn a_start_replays_its_log_and_cuts_what_it_could_not() {
    let mut opening = Opening::open_with(false, extent(0, 5), found());
    opening.ledger(Ok(None));
    for height in 0..3 {
        assert_eq!(opening.step, OpenStep::Read(height));
        opening.record(block(height), BLOCKS);
        assert_eq!(opening.step, OpenStep::Apply { height, clock: OPENED + height });
        opening.replayed(Replayed::Took(Accepted::Extended), 1, BLOCKS);
    }
    opening.record(block(3), BLOCKS);
    opening.replayed(Replayed::Refused(BlockRefusal::AboutTheBlock), 1, BLOCKS);
    assert_eq!(opening.step, OpenStep::Cut(3));
    opening.cut(None, BLOCKS);
    assert_eq!(opening.step, OpenStep::Start);
    let restored = opening.restored(0, &caught_up(), 4);
    assert_eq!((restored.blocks, restored.refused, restored.addresses), (3, 2, 4));
    assert!(!restored.rejoining);
}

#[test]
fn a_handed_ledger_begins_the_replay_above_it() {
    let mut opening = Opening::open_with(false, extent(50, 104), found());
    opening.ledger(Ok(Some(HandedBack { anchor: 100, settles_at: 1_124 })));
    assert_eq!(opening.step, OpenStep::Adopt);
    opening.adopted(Ok(Some(100)), LEDGER);
    assert_eq!(opening.step, OpenStep::Read(101), "the replay starts above the ledger");
    opening.record(block(101), BLOCKS);
    opening.replayed(Replayed::Took(Accepted::Extended), 1, BLOCKS);
    opening.record(Record::End, BLOCKS);
    assert_eq!(opening.step, OpenStep::Cut(102));
    let owed = opening.probation(Some(101), 9).unwrap();
    assert_eq!((owed.anchor, owed.settles_at, owed.reached, owed.moved), (100, 1_124, 101, 9));
    assert!(opening.probation(Some(1_124), 9).is_none());
    assert_eq!(opening.restored(0, &caught_up(), 0).refused, 2);
}

#[test]
fn a_block_below_the_ledger_is_passed_over() {
    let mut opening = Opening::open_with(false, extent(50, 104), found());
    opening.ledger(Ok(Some(HandedBack { anchor: 100, settles_at: 1_124 })));
    opening.adopted(Ok(Some(100)), LEDGER);
    opening.record(block(99), BLOCKS);
    assert_eq!((opening.step, opening.applied), (OpenStep::Read(102), 0));
}

#[test]
fn a_stored_block_is_judged_by_its_own_clock() {
    let mut opening = Opening::open_with(false, extent(0, 2), found());
    opening.ledger(Ok(None));
    opening.record(Record::Block { height: 0, timestamp: u64::MAX }, BLOCKS);
    assert_eq!(opening.step, OpenStep::Apply { height: 0, clock: u64::MAX });
    opening.replayed(Replayed::Took(Accepted::Extended), 1, BLOCKS);
    opening.record(Record::Block { height: 1, timestamp: 3 }, BLOCKS);
    assert_eq!(opening.step, OpenStep::Apply { height: 1, clock: 3 });
}

#[test]
fn a_ledger_that_will_not_be_adopted_stops_the_node() {
    let mut opening = Opening::open_with(false, extent(0, 0), found());
    opening.ledger(Ok(Some(HandedBack { anchor: 1, settles_at: 2 })));
    opening.adopted(Err("another chain".to_owned()), LEDGER);
    assert_eq!(opening.step, OpenStep::Failed);
    assert!(opening.error.unwrap().to_string().starts_with("ledger.handed could not be adopted: another chain. "));
}

#[test]
fn a_log_that_leads_nowhere_is_set_aside() {
    let mut opening = Opening::open_with(false, extent(7, 9), found());
    opening.ledger(Ok(None));
    assert_eq!(opening.step, OpenStep::Cut(0));
    opening.cut(None, BLOCKS);
    let restored = opening.restored(0, &caught_up(), 0);
    assert!(restored.rejoining);
    assert_eq!((restored.blocks, restored.refused), (0, 0));
}

#[test]
fn an_archivist_starts_only_from_the_first_block() {
    let opening = Opening::open_with(true, extent(7, 9), found());
    assert_eq!(opening.step, OpenStep::Failed);
    let said = opening.error.unwrap().to_string();
    assert!(said.contains("begin at height 7. ") && said.contains("those below 7 are not here"));
    assert_eq!(Opening::open_with(true, extent(0, 9), found()).step, OpenStep::Read(0));
    assert_eq!(Opening::open_with(true, extent(0, 0), found()).step, OpenStep::Read(0));
}

#[test]
fn nothing_is_cut_for_a_rule_this_build_does_not_have() {
    for refusal in [BlockRefusal::UnsupportedVersion(9), BlockRefusal::SoftwareTooOld("new".to_owned())] {
        let mut opening = Opening::open_with(true, extent(0, 9), found());
        opening.record(block(0), BLOCKS);
        opening.replayed(Replayed::Refused(refusal), 4, BLOCKS);
        assert_eq!(opening.step, OpenStep::Failed);
        assert!(matches!(opening.error, Some(NodeError::OtherRules { .. })));
    }
}

#[test]
fn a_record_left_on_the_disk_is_not_counted_as_refused() {
    let replayed = || {
        let mut opening = Opening::open_with(true, extent(0, 9), found());
        opening.record(block(0), BLOCKS);
        opening.replayed(Replayed::Took(Accepted::Extended), 1, BLOCKS);
        opening.record(Record::Undecodable, BLOCKS);
        opening
    };

    let damaged = Recovery { left_in_place: 800, unreadable: Some(1), ..found() };
    let mut opening = replayed();
    opening.read_again(Ok((damaged, extent(0, 1))), BLOCKS);
    assert_eq!(opening.step, OpenStep::Cut(1));
    opening.cut(None, BLOCKS);
    let restored = opening.restored(0, &caught_up(), 0);
    assert_eq!((restored.blocks, restored.refused), (1, 0));
    assert_eq!((restored.left_in_place, restored.unreadable), (800, Some(1)));

    let mut opening = replayed();
    opening.read_again(Ok((found(), extent(0, 9))), BLOCKS);
    assert_eq!(opening.step, OpenStep::Cut(1));
    opening.cut(None, BLOCKS);
    let restored = opening.restored(0, &caught_up(), 0);
    assert_eq!((restored.blocks, restored.refused), (1, 8));
    assert_eq!(restored.unreadable, None);
}

#[test]
fn a_ledger_file_is_measured_before_it_is_read() {
    assert!(!is_too_long(1_000, 1_000));
    assert!(is_too_long(1_001, 1_000));
}

#[test]
fn a_record_the_disk_refused_stops_the_start_and_one_that_will_not_decode_does_not() {
    let mut opening = Opening::open_with(true, extent(0, 9), found());
    opening.record(Record::Unreachable("input/output error".to_owned()), BLOCKS);
    assert_eq!(opening.error.unwrap().to_string(), "could not use blocks.log: input/output error");

    let mut opening = Opening::open_with(true, extent(0, 9), found());
    opening.record(Record::Undecodable, BLOCKS);
    assert_eq!(opening.step, OpenStep::ReadAgain);
    opening.read_again(
        Ok((
            Recovery { discarded_bytes: 5, left_in_place: 90, unreadable: Some(0), ..found() },
            extent(0, 0),
        )),
        BLOCKS,
    );
    assert_eq!(opening.step, OpenStep::Cut(0));
    let restored = opening.restored(2, &caught_up(), 0);
    assert_eq!(
        (restored.discarded_bytes, restored.left_in_place, restored.unreadable),
        (5, 90, Some(0))
    );
    assert_eq!(restored.headers_set_aside, 2);
    assert_eq!((restored.blocks, restored.refused), (0, 0));

    let mut opening = Opening::open_with(true, extent(0, 9), found());
    opening.record(Record::End, BLOCKS);
    opening.cut(Some("read-only".to_owned()), BLOCKS);
    assert_eq!(opening.error.unwrap().to_string(), "could not use blocks.log: read-only");
}

#[test]
fn only_the_first_record_can_make_it_another_networks_directory() {
    let refusal = BlockRefusal::WrongNetwork("it belongs to devnet".to_owned());
    let said = about_the_reader(0, true, &refusal, 1, BLOCKS).unwrap().to_string();
    assert!(said.starts_with(
        "blocks.log holds another network's chain: the block at height 0: it belongs to devnet. "
    ));
    assert!(about_the_reader(4, false, &refusal, 1, BLOCKS).is_none());
    assert!(about_the_reader(4, false, &BlockRefusal::AboutTheBlock, 1, BLOCKS).is_none());
    let early = BlockRefusal::BeforeTheNetworkOpened("too early".to_owned());
    assert!(matches!(about_the_reader(0, true, &early, 1, BLOCKS), Some(NodeError::OtherNetwork { .. })));
    let newer = about_the_reader(4, false, &BlockRefusal::UnsupportedVersion(9), 1, BLOCKS);
    assert!(newer.unwrap().to_string().starts_with(
        "blocks.log was written under rules this build does not have: the block at height 4 is version 9, and this build knows only version 1. "
    ));
}

#[test]
fn a_refused_ledger_is_answered_by_what_refused_it() {
    let words = |words: &str| words.to_owned();
    assert!(matches!(
        ledger_refused(&HandoverRefusal::SoftwareTooOld(words("old")), LEDGER),
        NodeError::OtherRules { file, because } if file == LEDGER && because == "old"
    ));
    assert!(matches!(
        ledger_refused(&HandoverRefusal::WrongVersion(words("nine")), LEDGER),
        NodeError::OtherRules { because, .. } if because == "nine"
    ));
    assert!(matches!(
        ledger_refused(
            &HandoverRefusal::WrongNetwork {
                height: 8,
                expected: words("testnet-6"),
                found: words("devnet")
            },
            LEDGER
        ),
        NodeError::OtherNetwork { because, .. }
            if because == "the header at 8 belongs to devnet, and this node was started for testnet-6"
    ));
    assert!(matches!(
        ledger_refused(&HandoverRefusal::BeforeTheNetworkOpened(words("early")), LEDGER),
        NodeError::OtherNetwork { because, .. } if because == "early"
    ));
}

#[test]
fn every_error_says_what_happened() {
    assert_eq!(
        NodeError::Io("refused".to_owned()).to_string(),
        "could not open the connection: refused"
    );
    assert_eq!(NodeError::Store("in use".to_owned()).to_string(), "in use");
    let unkept = |because| {
        NodeError::NotKept { address: "203.0.113.7:9944".to_owned(), because }.to_string()
    };
    assert!(unkept(Unkept::Refusing).contains("203.0.113.7:9944"));
    assert!(unkept(Unkept::Refusing).contains("refusing that host"));
    assert!(unkept(Unkept::Full).contains("as many connections as it takes"));
    assert!(unkept(Unkept::Stopping).contains("is stopping"));
}

#[test]
fn headers_a_log_will_not_answer_for_are_counted_before_they_are_lost() {
    assert_eq!(headers_the_store_will_not_stand_behind(extent(0, 0), 1_820, 182), 10);
    assert_eq!(headers_the_store_will_not_stand_behind(extent(0, 3), 1_820, 182), 0);
    assert_eq!(headers_the_store_will_not_stand_behind(extent(0, 0), 1_820, 0), 0);
}

#[test]
fn a_start_over_nothing_restores_nothing() {
    let mut opening = Opening::open_with(false, extent(0, 0), found());
    opening.ledger(Ok(None));
    opening.record(Record::End, BLOCKS);
    opening.cut(None, BLOCKS);
    assert_eq!(opening.restored(0, &caught_up(), 0), Restored::default());
}
