//! Joining a chain by being shown its weight and handed its ledger.

use cairn_net::joining::{
    a_window_has_turned, ask_again_for_the_join, build_join, build_ledger, collected,
    drive_choosing, fail_attempt, has_gone_quiet, how_it_goes, land_the_ledger, piece_of,
    serve_join, still_wanted, take_join_part, take_piece, take_the_ledger, weigh_what_was_shown,
    Answers, Approach, Building, Ceiling, Checked, Collected, Collecting, Handed, Held, JoinProgress,
    Joined, Landed, Landing, Prepared, Progress, Sending, Serving, Shown, Step, Taken, Tip,
    JOIN_PATIENCE,
};
use cairn_net::message::{Joining, Message};
use cairn_net::network::{Hash32, Located};
use cairn_net::sync::Outdated;

fn id(byte: u8) -> Hash32 {
    let word = u128::from_le_bytes([byte; 16]);
    Hash32 { high: word, low: word }
}

fn tip() -> Tip {
    Tip { at: Located::new(40, id(40)), total_work: 900 }
}

fn most() -> Ceiling {
    Ceiling { parts: 64, part_bytes: 1_024 }
}

fn fetching() -> Progress {
    Progress::Fetching {
        tip: tip(),
        collecting: Collecting::started(Joining::Ledger, id(3), 0, 2, vec![1, 2], 1_000, most()).unwrap(),
    }
}

fn asks(message: &Message) -> Option<(Joining, u32)> {
    match message {
        Message::GetJoin { what, part } => Some((*what, *part)),
        _ => None,
    }
}

#[test]
fn a_join_is_given_up_on_only_once_it_has_gone_quiet() {
    assert!(!has_gone_quiet(None, 1_000));
    assert!(!has_gone_quiet(Some(1_000), 1_000));
    assert!(!has_gone_quiet(Some(1_000), 1_000 + JOIN_PATIENCE - 1));
    assert!(has_gone_quiet(Some(1_000), 1_000 + JOIN_PATIENCE));
    assert!(has_gone_quiet(Some(1_000), 900));
}

#[test]
fn a_ledger_in_pieces_is_taken_whole_and_a_stray_piece_ends_it() {
    let mut joining = fetching();
    let taken = take_piece(&mut joining, Joining::Ledger, id(3), 1, 2, vec![3], 1_001, most());
    assert!(matches!(taken, Taken::Whole(bytes) if bytes == vec![1, 2, 3]));
    assert!(matches!(joining, Progress::Fetching { .. }));

    let mut joining = fetching();
    let taken = take_piece(&mut joining, Joining::Ledger, id(4), 1, 2, vec![3], 1_001, most());
    assert!(matches!(taken, Taken::Failed));
    assert!(matches!(joining, Progress::Idle));

    let mut joining = Progress::Landed;
    let taken = take_piece(&mut joining, Joining::Ledger, id(3), 0, 1, vec![3], 1_001, most());
    assert!(matches!(taken, Taken::Ignored));
    assert!(matches!(joining, Progress::Idle));
}

#[test]
fn what_a_join_waits_on_is_the_first_piece_it_lacks() {
    let collecting =
        |what, part| Collecting::started(what, id(3), part, 3, vec![1], 1_000, most()).unwrap();
    assert_eq!(still_wanted(&Progress::Idle), Some((Joining::Weight, 0)));
    assert_eq!(still_wanted(&Progress::Landed), None);
    assert_eq!(
        still_wanted(&Progress::Weighing(collecting(Joining::Weight, 0))),
        Some((Joining::Weight, 1))
    );
    assert_eq!(
        still_wanted(&Progress::Weighed { tip: tip(), since: 1_000 }),
        Some((Joining::Ledger, 0))
    );
    assert_eq!(
        still_wanted(&Progress::Fetching {
            tip: tip(),
            collecting: collecting(Joining::Ledger, 1)
        }),
        Some((Joining::Ledger, 0))
    );
}

#[test]
fn a_join_is_given_up_on_once_it_goes_quiet_and_not_while_it_moves() {
    let asked = 10_060;
    assert_eq!(how_it_goes(&Progress::Idle, asked), JoinProgress::NothingYet);
    let joining = Progress::Weighing(
        Collecting::started(Joining::Weight, id(3), 0, 4, vec![1], asked, most()).unwrap(),
    );
    assert_eq!(how_it_goes(&joining, asked + 1), JoinProgress::Moving);
    assert_eq!(how_it_goes(&joining, asked + JOIN_PATIENCE), JoinProgress::Stalled);
}

#[test]
fn an_unanswered_join_is_asked_again_once_its_window_has_turned() {
    let joining = Progress::Idle;
    let asking = Some((7, 10_060));
    let mut again_at = 0;
    assert!(ask_again_for_the_join(&joining, false, asking, &mut again_at, 10_065).is_none());
    let (peer, message) =
        ask_again_for_the_join(&joining, false, asking, &mut again_at, 10_070).unwrap();
    assert_eq!((peer, asks(&message)), (7, Some((Joining::Weight, 0))));
    assert!(ask_again_for_the_join(&joining, false, asking, &mut again_at, 10_075).is_none());
}

#[test]
fn nothing_is_asked_again_of_nobody_or_by_an_archivist() {
    let mut again_at = 0;
    assert!(ask_again_for_the_join(&Progress::Idle, false, None, &mut again_at, 10_070).is_none());
    let asking = Some((7, 10_060));
    assert!(ask_again_for_the_join(&Progress::Idle, true, asking, &mut again_at, 10_070).is_none());
    assert!(
        ask_again_for_the_join(&Progress::Landed, false, asking, &mut again_at, 10_070).is_none()
    );
    assert_eq!(again_at, 0);
}

#[test]
fn windows_turn_on_the_tens() {
    assert!(!a_window_has_turned(10_060, 10_069));
    assert!(a_window_has_turned(10_060, 10_070));
    assert!(a_window_has_turned(10_069, 10_070));
}

#[test]
fn an_answer_cut_into_pieces_comes_back_whole_in_any_order() {
    let ready = Prepared { what: Joining::Weight, at: id(9), bytes: (0..10).collect() };
    let mut pieces = Vec::new();
    for part in 0..3 {
        match piece_of(&ready, part, 4) {
            Some(Message::JoinPart { part, parts: 3, bytes, .. }) => pieces.push((part, bytes)),
            other => panic!("a piece of the answer was missing: {other:?}"),
        }
    }
    assert!(piece_of(&ready, 3, 4).is_none());

    let (last, bytes) = pieces.pop().unwrap();
    let mut collecting = Collecting::started(Joining::Weight, id(9), last, 3, bytes, 5, most()).unwrap();
    for (part, bytes) in pieces {
        assert!(collecting.whole().is_none());
        assert!(collecting.take(Joining::Weight, id(9), part, bytes, 6));
    }
    assert_eq!(collecting.whole(), Some(ready.bytes));
    assert_eq!((collecting.wanted(), collecting.moved()), (None, 6));
}

#[test]
fn an_answer_of_whole_pieces_has_no_piece_past_its_last() {
    let ready = Prepared { what: Joining::Ledger, at: id(9), bytes: vec![7; 8] };
    match piece_of(&ready, 1, 4) {
        Some(Message::JoinPart { part: 1, parts: 2, bytes, .. }) => assert_eq!(bytes, vec![7; 4]),
        other => panic!("the last piece was missing: {other:?}"),
    }
    assert!(piece_of(&ready, 2, 4).is_none());
    assert!(piece_of(&ready, 3, 4).is_none());
    assert!(piece_of(&ready, 1, 8).is_none());
    assert!(piece_of(&ready, u32::MAX, 4).is_none());

    let mut answers = Answers::new();
    assert!(answers.keep_join(ready, true, 2, 4).is_none());
    assert!(matches!(answers.held_join(Joining::Ledger, 2, Some(id(9)), 4), Held::NoSuchPart));
    assert!(matches!(answers.held_join(Joining::Ledger, 1, Some(id(9)), 4), Held::Piece(_)));
    assert!(matches!(
        serve_join(&answers, Joining::Ledger, 2, Some(id(9)), 4),
        Serving::Silence
    ));

    let empty = Prepared { what: Joining::Ledger, at: id(9), bytes: Vec::new() };
    assert!(matches!(piece_of(&empty, 0, 4), Some(Message::JoinPart { part: 0, parts: 1, .. })));
    assert!(piece_of(&empty, 1, 4).is_none());
}

#[test]
fn nothing_over_the_ceiling_is_collected() {
    assert_eq!(Ceiling::of(10, 4), Ceiling { parts: 3, part_bytes: 4 });
    assert_eq!(Ceiling::of(8, 4), Ceiling { parts: 2, part_bytes: 4 });
    assert_eq!(Ceiling::of(0, 4), Ceiling { parts: 1, part_bytes: 4 });

    let most = Ceiling { parts: 3, part_bytes: 4 };
    let started = |part, parts, bytes| {
        Collecting::started(Joining::Weight, id(9), part, parts, bytes, 5, most)
    };
    assert!(started(0, 4, vec![1]).is_none());
    assert!(started(0, u32::MAX, vec![1]).is_none());
    assert!(started(0, 3, vec![1; 5]).is_none());
    let mut collecting = started(0, 3, vec![1; 4]).unwrap();
    assert!(!collecting.take(Joining::Weight, id(9), 1, vec![1; 5], 6));
    assert!(collecting.take(Joining::Weight, id(9), 1, vec![1; 4], 6));
    assert_eq!(collecting.wanted(), Some(2));

    let mut joining = Progress::Idle;
    let taken = take_piece(&mut joining, Joining::Weight, id(9), 0, 4, vec![1], 5, most);
    assert!(matches!(taken, Taken::Failed));
    assert!(matches!(joining, Progress::Idle));
}

#[test]
fn a_piece_of_nothing_or_past_the_end_starts_no_collection() {
    assert!(Collecting::started(Joining::Weight, id(9), 0, 0, vec![1], 5, most()).is_none());
    assert!(Collecting::started(Joining::Weight, id(9), 2, 2, vec![1], 5, most()).is_none());
}

#[test]
fn a_piece_nobody_asked_for_is_dropped_unread() {
    let piece = || Message::JoinPart {
        what: Joining::Weight,
        at: id(9),
        part: 1,
        parts: 3,
        bytes: vec![4],
    };
    assert!(matches!(collected(piece(), false), Collected::Dropped));
    assert!(matches!(collected(piece(), true), Collected::Piece { part: 1, parts: 3, .. }));
    assert!(matches!(collected(Message::Ping(1), true), Collected::Other(Message::Ping(1))));
}

#[test]
fn a_node_with_a_chain_takes_no_piece_of_a_join() {
    let mut joining = Progress::Idle;
    let (taken, weighed) =
        take_join_part(&mut joining, false, Joining::Weight, id(9), 0, 1, vec![4], 5, most());
    assert!(matches!(taken, Taken::Ignored));
    assert!(weighed.is_none());
    assert!(matches!(joining, Progress::Landed));
}

#[test]
fn a_showing_that_weighs_is_followed_by_the_ledger() {
    let mut joining = Progress::Idle;
    let (taken, _) = take_join_part(&mut joining, true, Joining::Weight, id(9), 0, 1, vec![4], 5, most());
    assert!(matches!(taken, Taken::Whole(bytes) if bytes == vec![4]));
    match weigh_what_was_shown(&mut joining, Some(tip()), |work| work == 900, 6) {
        Shown::Forward(message) => assert_eq!(asks(&message), Some((Joining::Ledger, 0))),
        other => panic!("a showing that weighed was not followed up: {other:?}"),
    }
    assert_eq!(joining.tip(), Some(tip()));
    assert_eq!((joining.reported(), joining.moved()), (Joined::Fetching, Some(6)));
}

#[test]
fn a_showing_that_does_not_weigh_ends_the_attempt() {
    let mut joining = Progress::Idle;
    take_join_part(&mut joining, true, Joining::Weight, id(9), 0, 1, vec![4], 5, most());
    assert!(matches!(weigh_what_was_shown(&mut joining, None, |_| true, 6), Shown::Failed));
    assert!(matches!(joining, Progress::Idle));

    take_join_part(&mut joining, true, Joining::Weight, id(9), 0, 1, vec![4], 5, most());
    let held = weigh_what_was_shown(&mut joining, Some(tip()), |_| false, 6);
    assert!(matches!(held, Shown::HeldBack));

    let mut joining = Progress::Landed;
    assert!(matches!(weigh_what_was_shown(&mut joining, Some(tip()), |_| true, 6), Shown::Stale));
}

#[test]
fn a_ledger_is_taken_only_under_the_tip_that_was_weighed() {
    let handed = Handed { tip: Located::new(5_000, id(7)), anchor: 100 };
    let sound = || Checked::Sound;
    assert_eq!(
        take_the_ledger(Some(handed), id(7), 1_024, sound, sound),
        Landed::Took { anchor: 100, settles_at: 1_124 }
    );
    assert_eq!(take_the_ledger(Some(handed), id(8), 1_024, sound, sound), Landed::Refused);
    assert_eq!(take_the_ledger(None, id(7), 1_024, sound, sound), Landed::Refused);
    assert_eq!(
        take_the_ledger(Some(handed), id(7), 1_024, || Checked::Refused, sound),
        Landed::Refused
    );
    let outdated = Outdated { height: 9, required: 3, known: 2 };
    assert_eq!(
        take_the_ledger(Some(handed), id(7), 1_024, sound, || Checked::TooOld(outdated)),
        Landed::TooOld(outdated)
    );
}

#[test]
fn a_ledger_that_lands_ends_the_join() {
    let took = Landed::Took { anchor: 100, settles_at: 1_124 };
    let mut joining = fetching();
    let weighed = joining.tip();
    assert_eq!(
        land_the_ledger(&mut joining, weighed, |_| true, |_| took),
        Landing::Took { anchor: 100, settles_at: 1_124 }
    );
    assert_eq!(joining.reported(), Joined::Done);

    let mut joining = fetching();
    assert_eq!(
        land_the_ledger(&mut joining, weighed, |_| true, |_| Landed::Refused),
        Landing::Failed
    );
    assert!(matches!(joining, Progress::Idle));

    let mut joining = fetching();
    assert_eq!(land_the_ledger(&mut joining, weighed, |_| false, |_| took), Landing::HeldBack);
    let mut joining = fetching();
    assert_eq!(land_the_ledger(&mut joining, None, |_| true, |_| took), Landing::Nothing);
}

#[test]
fn an_attempt_that_fails_leaves_nothing_behind() {
    let mut joining = fetching();
    assert!(matches!(fail_attempt(&mut joining), Taken::Failed));
    assert!(matches!(joining, Progress::Idle));
    assert_eq!((joining.moved(), joining.tip()), (None, None));
}

#[test]
fn a_choice_to_join_begins_with_the_first_question() {
    let mut joining = fetching();
    match drive_choosing(&mut joining, Step::Ask(7, Approach::Join), false) {
        Sending::Join(7, message) => assert_eq!(asks(&message), Some((Joining::Weight, 0))),
        other => panic!("the join was not begun: {other:?}"),
    }
    assert!(matches!(joining, Progress::Idle));
    assert!(matches!(
        drive_choosing(&mut joining, Step::Ask(7, Approach::Join), true),
        Sending::Chain(peers) if peers == vec![7]
    ));
    assert!(matches!(
        drive_choosing(&mut joining, Step::Nudge(vec![1, 2]), false),
        Sending::Chain(peers) if peers == vec![1, 2]
    ));
    assert!(matches!(drive_choosing(&mut joining, Step::Quiet, false), Sending::Nothing));
}

#[test]
fn an_answer_is_held_for_its_tip_and_served_in_pieces() {
    let mut answers = Answers::new();
    assert!(matches!(
        serve_join(&answers, Joining::Weight, 0, Some(id(5)), 4),
        Serving::Build
    ));
    let prepared = Prepared { what: Joining::Weight, at: id(5), bytes: (0..6).collect() };
    let first = answers.keep_join(prepared, true, 0, 4);
    assert!(matches!(first, Some(Message::JoinPart { part: 0, parts: 2, .. })));
    match serve_join(&answers, Joining::Weight, 1, Some(id(5)), 4) {
        Serving::Send(Message::JoinPart { part: 1, parts: 2, bytes, .. }) => {
            assert_eq!(bytes, vec![4, 5]);
        }
        other => panic!("the second piece was not served: {other:?}"),
    }
    assert!(matches!(serve_join(&answers, Joining::Weight, 2, Some(id(5)), 4), Serving::Silence));
    assert!(matches!(answers.held_join(Joining::Ledger, 0, Some(id(5)), 4), Held::Nothing));
    assert!(matches!(answers.held_join(Joining::Weight, 2, Some(id(5)), 4), Held::NoSuchPart));
}

#[test]
fn a_join_is_built_only_where_the_chain_still_stands() {
    let at = Located::new(5_000, id(5));
    assert_eq!(build_join(Joining::Weight, at, Some(id(5)), 1_024), Some(Building::Weight));
    assert_eq!(
        build_join(Joining::Ledger, at, Some(id(5)), 1_024),
        Some(Building::Ledger { anchor: 3_976 })
    );
    assert_eq!(build_join(Joining::Weight, at, Some(id(6)), 1_024), None);
    assert_eq!(build_join(Joining::Weight, at, None, 1_024), None);
}

#[test]
fn a_handover_carries_its_recent_headers_and_the_ones_above_them() {
    let (recent, above) = build_ledger(20, 23, 4, |height| Some(height)).unwrap();
    assert_eq!(recent, vec![17, 18, 19, 20]);
    assert_eq!(above, vec![21, 22, 23]);
    assert!(build_ledger(20, 23, 4, |height| if height == 18 { None } else { Some(height) })
        .is_none());
}
