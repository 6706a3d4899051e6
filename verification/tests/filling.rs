//! Filling in the headers from before a node arrived.

use cairn_net::disk::{Extent, Reading, Unread, Writing};
use cairn_net::filling::{
    asks_headers_of, filling_at, is_filling_from, join_logs, seed_headers, take_headers, Filed,
    FillStep, Filled, Filling, HeaderFilling, Headers, JoinFailed, OwnDisk, ProofReading,
    ProofStep, Proved, Seeded, Turn, Weighed, HEADER_PATIENCE, HEADER_RUN,
    MAX_HEADERS,
};

fn extent(first: u64, reaches: u64) -> Extent {
    Extent { first, reaches }
}

fn holding(own: (u64, u64), collected: (u64, u64)) -> Headers {
    Headers {
        own: extent(own.0, own.1),
        leaves: 0,
        collected: extent(collected.0, collected.1),
        epoch: 0,
    }
}

/// Takes a run into logs that hold what `headers` says, over a disk that
/// refuses nothing but the read of `unread`, with a forest that folds to what
/// the oldest header commits to.
fn fill(headers: &mut Headers, from: u64, offered: Vec<u64>, unread: Option<u64>) -> Filled {
    let mut taking = HeaderFilling::fill_headers(Some(*headers), from, offered);
    loop {
        match taking.step {
            FillStep::Append(at) => {
                let height = taking.offered[at];
                if height == headers.collected.reaches {
                    headers.collected.reaches = height + 1;
                    taking.filed(Filed::Added(height + 1));
                } else {
                    taking.filed(Filed::OutOfOrder);
                }
            }
            FillStep::Discard => {
                headers.discard_filling();
                taking.thrown();
            }
            FillStep::Anchor(at) => taking.anchored(headers.own.holds(at)),
            FillStep::Weigh(at) => {
                let held = headers.collected.holds(at);
                taking.weighed(if held { Weighed::Held } else { Weighed::Missing });
            }
            FillStep::Compare => taking.compared(true),
            FillStep::ThrowAway => {
                headers.throw_the_run_away(taking.epoch);
                taking.thrown();
            }
            FillStep::Return => taking.returned(Some(*headers)),
            FillStep::Join => match unread {
                Some(height) => {
                    let because = "the record does not link".to_owned();
                    taking.joined(Some(join_logs(JoinFailed::Read { height, because })));
                }
                None => {
                    headers.own.first = 0;
                    headers.leaves = headers.own.reaches;
                    taking.joined(None);
                }
            },
            FillStep::Done => return taking.filled,
        }
    }
}

#[test]
fn a_collection_that_leads_up_to_the_headers_survives_a_restart() {
    assert!(!holding((20, 30), (0, 8)).leads_nowhere());
}

#[test]
fn a_collection_that_leads_nowhere_is_thrown_away_at_the_start() {
    let mut beside_whole = holding((0, 10), (0, 4));
    assert!(beside_whole.leads_nowhere());
    beside_whole.discard_filling();
    assert_eq!(beside_whole.collected, extent(0, 0));
    let mut off_the_ground = holding((20, 30), (3, 6));
    assert!(off_the_ground.leads_nowhere());
    off_the_ground.discard_filling();
    assert_eq!(off_the_ground.collected, extent(0, 0));
}

#[test]
fn handed_headers_are_written_only_into_an_empty_log() {
    let handed: Vec<u64> = (5..9).collect();
    let (log, seeded) =
        seed_headers(extent(0, 0), handed.len(), Vec::new(), |mut log: Vec<u64>, at| {
            log.push(handed[at]);
            (log, true)
        });
    assert_eq!(seeded, Seeded::Written);
    assert_eq!(log, handed);

    let (log, again) = seed_headers(extent(5, 9), 3, log, |_, _| {
        panic!("a log that held headers was written to")
    });
    assert_eq!(again, Seeded::LeftAlone);
    assert_eq!(log, handed);
}

#[test]
fn handed_headers_the_disk_refused_part_of_are_cleared_again() {
    let (tried, seeded) = seed_headers(extent(0, 0), 4, 0, |tried, at| (tried + 1, at < 2));
    assert_eq!((tried, seeded), (3, Seeded::ClearAgain));
    let (tried, seeded) = seed_headers(extent(0, 0), 0, 0, |tried, _| (tried + 1, true));
    assert_eq!((tried, seeded), (0, Seeded::Written));
}

#[test]
fn a_collection_thrown_away_is_empty_and_counted_as_another() {
    let mut headers = holding((20, 30), (0, 8));
    headers.discard_filling();
    assert_eq!((headers.collected.len(), headers.epoch), (0, 1));
}

#[test]
fn a_run_is_thrown_away_only_while_it_is_the_run_that_was_weighed() {
    let mut headers = holding((20, 30), (0, 8));
    headers.throw_the_run_away(7);
    assert_eq!((headers.collected.len(), headers.epoch), (8, 0));
    headers.throw_the_run_away(0);
    assert_eq!((headers.collected.len(), headers.epoch), (0, 1));
}

#[test]
fn a_node_holding_every_header_takes_no_run_from_before_it_arrived() {
    let mut headers = holding((0, 10), (0, 0));
    let offered = fill(&mut headers, 0, vec![0, 1, 2], None);
    assert!(matches!(offered, Filled::Ignored));
    assert_eq!(
        (headers.own.first, headers.own.reaches, headers.collected.len(), headers.epoch),
        (0, 10, 0, 0)
    );
}

#[test]
fn a_run_that_adds_to_a_collection_says_so_and_one_that_adds_nothing_does_not() {
    let mut headers = holding((20, 30), (0, 0));
    let part = fill(&mut headers, 0, (0..8).collect(), None);
    let nothing = fill(&mut headers, 8, vec![20, 21], None);
    assert!(matches!(part, Filled::Grew(8)));
    assert!(matches!(nothing, Filled::Ignored));
    assert_eq!(headers.collected.reaches, 8);
}

#[test]
fn a_collection_is_merged_only_while_it_is_what_was_weighed() {
    let mut headers = holding((20, 30), (0, 20));
    assert!(!headers.moved_since_weighed(20, 0));
    assert!(headers.moved_since_weighed(20, 1));
    assert!(headers.moved_since_weighed(19, 0));
    headers.collected = extent(0, 10);
    assert!(headers.moved_since_weighed(20, 0));
}

#[test]
fn headers_offered_through_the_test_door_are_checked_and_merged() {
    let mut headers = holding((20, 30), (0, 0));
    let filled = fill(&mut headers, 0, (0..20).collect(), None);
    assert!(matches!(filled, Filled::Grew(20)));
    assert_eq!(
        (headers.own.first, headers.own.reaches, headers.leaves, headers.collected.len()),
        (0, 30, 30, 0)
    );
}

#[test]
fn a_merge_this_node_s_own_disk_stopped_costs_the_supplier_nothing() {
    let (oldest, spoiled) = (20u64, 25u64);
    let mut headers = holding((oldest, 30), (0, oldest - 1));
    let mut turn = Some(Turn { peer: 7, moved: 1_000, marked: 0, spoiled: false });
    let mut unread: Option<Unread> = None;
    assert!(is_filling_from(turn, 7));

    let filled = fill(&mut headers, oldest - 1, vec![oldest - 1], Some(spoiled));
    let refusing = take_headers(&mut turn, &mut unread, filled, 1_001);

    assert!(refusing.is_none());
    assert!(!turn.unwrap().spoiled);
    let unread = unread.expect("and nothing anywhere said what had happened");
    assert_eq!(unread.what, Reading::Headers);
    assert!(unread.height == spoiled || unread.height == spoiled - 1);
    assert_eq!((headers.own.first, headers.own.reaches), (oldest, 30));
}

#[test]
fn a_node_shows_the_chain_only_from_a_log_that_starts_at_the_beginning() {
    assert!(holding((0, 0), (0, 0)).can_show_the_chain(0));
    assert!(!holding((10, 13), (0, 0)).can_show_the_chain(0));

    let mut whole = holding((0, 5), (0, 0));
    assert!(!whole.can_show_the_chain(5), "there is no forest over the headers yet");
    whole.leaves = 5;
    assert!(whole.can_show_the_chain(5));
    assert!(!whole.can_show_the_chain(6));
}

#[test]
fn the_turn_to_fill_the_headers_in_passes_on_once_its_patience_is_spent() {
    let mut headers = holding((10, 13), (0, 0));
    let mut turn = Some(Turn { peer: 1, moved: 1_000, marked: 0, spoiled: false });
    let connected = vec![1, 2];
    let before = asks_headers_of(&mut headers, &mut turn, &connected, 1_000 + HEADER_PATIENCE - 1);
    let after = asks_headers_of(&mut headers, &mut turn, &connected, 1_000 + HEADER_PATIENCE);
    assert_eq!(before.map(|(peer, _)| peer), Some(1));
    assert_eq!(after.map(|(peer, _)| peer), Some(2));
}

#[test]
fn a_turn_that_passes_on_begins_with_nothing_collected() {
    let mut headers = holding((100, 130), (0, 40));
    let mut turn = Some(Turn { peer: 4, moved: 1_000, marked: 0, spoiled: true });
    let asked = asks_headers_of(&mut headers, &mut turn, &vec![1, 4], 1_001);
    assert_eq!(asked, Some((1, (0, MAX_HEADERS))));
    assert_eq!((headers.collected.len(), headers.epoch), (0, 1));
    assert_eq!(turn, Some(Turn { peer: 1, moved: 1_001, marked: 0, spoiled: false }));
}

#[test]
fn nobody_is_asked_for_headers_a_node_holds() {
    let mut headers = holding((0, 30), (0, 0));
    let mut turn = None;
    assert_eq!(asks_headers_of(&mut headers, &mut turn, &vec![1, 2], 1_000), None);
    let mut short = holding((10, 30), (0, 0));
    assert_eq!(asks_headers_of(&mut short, &mut turn, &Vec::new(), 1_000), None);
}

#[test]
fn a_run_renews_a_turn_and_a_header_does_not() {
    let mut unread = None;
    let mut turn = Some(Turn { peer: 1, moved: 1_000, marked: 0, spoiled: false });
    take_headers(&mut turn, &mut unread, Filled::Grew(HEADER_RUN - 1), 1_020);
    assert_eq!(turn.unwrap().moved, 1_000);
    take_headers(&mut turn, &mut unread, Filled::Grew(HEADER_RUN), 1_021);
    assert_eq!((turn.unwrap().moved, turn.unwrap().marked), (1_021, HEADER_RUN));
    take_headers(&mut turn, &mut unread, Filled::Discarded, 1_022);
    assert!(turn.unwrap().spoiled);
}

#[test]
fn a_run_that_does_not_follow_on_costs_the_collection() {
    let mut headers = holding((20, 30), (0, 4));
    let filled = fill(&mut headers, 4, vec![4, 6], None);
    assert!(matches!(filled, Filled::Discarded));
    assert_eq!((headers.collected.len(), headers.epoch), (0, 1));
}

#[test]
fn a_disk_that_will_not_take_a_header_is_this_nodes_own() {
    let headers = holding((20, 30), (0, 0));
    let mut taking = HeaderFilling::fill_headers(Some(headers), 0, vec![0]);
    taking.filed(Filed::Refused("no space left on device".to_owned()));
    assert_eq!(taking.step, FillStep::Discard);
    taking.thrown();
    let mut turn = Some(Turn { peer: 1, moved: 1_000, marked: 0, spoiled: false });
    let mut unread = None;
    let refusing = take_headers(&mut turn, &mut unread, taking.filled, 1_001).unwrap();
    assert_eq!((refusing.what, refusing.because.as_str()), (Writing::Headers, "no space left on device"));
    assert!(unread.is_none() && !turn.unwrap().spoiled);
}

#[test]
fn a_run_that_does_not_add_up_is_thrown_away() {
    let headers = holding((2, 30), (0, 2));
    let mut taking = HeaderFilling::fill_headers(Some(headers), 2, vec![2]);
    assert_eq!(taking.step, FillStep::Anchor(2));
    taking.anchored(true);
    taking.weighed(Weighed::Held);
    taking.weighed(Weighed::Held);
    assert_eq!(taking.step, FillStep::Compare);
    taking.compared(false);
    assert_eq!(taking.step, FillStep::ThrowAway);
    taking.thrown();
    assert!(matches!(taking.filled, Filled::Discarded));
}

#[test]
fn a_reading_of_one_run_is_not_weighed_as_a_reading_of_another() {
    let headers = holding((20, 30), (0, 8));
    assert!(matches!(filling_at(Some(headers), 3, 0, Ok(Some(3u64))), Ok(Some(3))));
    assert!(matches!(filling_at(Some(headers), 3, 1, Ok(Some(3u64))), Ok(None)));
    assert!(matches!(filling_at(None, 3, 0, Ok(Some(3u64))), Ok(None)));
    let refused: Result<Option<u64>, OwnDisk> =
        filling_at(Some(headers), 3, 0, Err("gone".to_owned()));
    assert!(matches!(refused, Err(OwnDisk::Read { what: Reading::Headers, height: 3, .. })));
    assert!(matches!(
        join_logs(JoinFailed::Write("full".to_owned())),
        OwnDisk::Write(refusing) if refusing.what == Writing::Headers && refusing.because == "full"
    ));
}

#[test]
fn a_forest_node_mended_on_the_way_to_a_proof_is_counted() {
    let mut mended_nodes = 0;
    let mut unread = None;
    let mut reading = ProofReading::proof_off_disk(14);
    reading.proved(Proved::Unfolded, "does not fold", &mut unread);
    assert_eq!(reading.step, ProofStep::Mend);
    assert_eq!(mended_nodes, 0);
    reading.mended(None, &mut mended_nodes, &mut unread);
    assert_eq!(reading.step, ProofStep::Prove);
    reading.proved(Proved::Answered, "does not fold", &mut unread);
    assert_eq!(reading.step, ProofStep::Done);
    assert_eq!(mended_nodes, 1);
    assert!(unread.is_none());
}

#[test]
fn a_forest_node_that_will_not_mend_is_a_read_the_disk_refused() {
    let mut mended_nodes = 0;
    let mut unread = None;
    let mut reading = ProofReading::proof_off_disk(14);
    reading.proved(Proved::Unfolded, "does not fold", &mut unread);
    reading.mended(None, &mut mended_nodes, &mut unread);
    reading.proved(Proved::Unfolded, "does not fold", &mut unread);
    assert_eq!(reading.step, ProofStep::Done);
    let said = unread.unwrap();
    assert_eq!((said.height, said.because.as_str()), (14, "does not fold"));
}

#[test]
fn a_node_is_over_its_keep_only_past_it() {
    let filling =
        |bytes, keep| Filling { from: 3, through: 9, proved: 0, reaches: 9, bytes, keep };
    assert!(!filling(10, 10).over_the_keep());
    assert!(filling(11, 10).over_the_keep());
}
