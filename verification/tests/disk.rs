//! What a node says of its own disk, and what it drops off it.

use cairn_net::disk::{
    could_not_read, could_not_take_a_visitor, cut_for, ledger_owed, note_writing, over_its_budget,
    stopped_at, the_refusal_to_say, took_a_visitor, trim_history, Extent, LedgerOwed, Reading,
    Refusing, Unwritten, Writing, Wrote, MAX_BEHIND, MAX_REORG_DEPTH,
};
use cairn_net::network::{Hash32, Located};

fn id(number: u128) -> Hash32 {
    Hash32 { high: 0, low: number }
}

#[test]
fn what_a_node_was_writing_or_reading_is_named_in_words() {
    for (what, word) in [
        (Writing::Blocks, "blocks"),
        (Writing::Headers, "headers"),
        (Writing::Ledger, "ledger"),
    ] {
        assert!(what.to_string().contains(word), "{what:?} did not name itself");
    }
    for (what, word) in [(Reading::Blocks, "block"), (Reading::Headers, "header")] {
        assert!(what.to_string().contains(word), "{what:?} did not name itself");
    }
}

#[test]
fn a_node_stops_inside_the_window_it_could_still_catch_up_over() {
    let window = MAX_REORG_DEPTH;
    assert!(MAX_BEHIND < window);
    assert!(MAX_BEHIND.saturating_mul(2) <= window);
}

fn standing(what: Writing, because: &str) -> Unwritten {
    Unwritten {
        what,
        because: because.to_owned(),
        reached: 40,
        written_through: Some(20),
        blocks: 19,
        within_reach: true,
    }
}

fn fresh(what: Writing, because: &str) -> Refusing {
    Refusing { what, because: because.to_owned() }
}

#[test]
fn the_costlier_refusal_is_the_one_said() {
    let said = the_refusal_to_say(
        Some(&fresh(Writing::Ledger, "no space left on device")),
        Some(&standing(Writing::Blocks, "no space left on device")),
    );
    assert_eq!(said.map(|(what, _)| what), Some(Writing::Blocks));

    let said = the_refusal_to_say(
        Some(&fresh(Writing::Blocks, "input/output error")),
        Some(&standing(Writing::Headers, "no space left on device")),
    );
    assert_eq!(said, Some((Writing::Blocks, "input/output error".to_owned())));

    let said = the_refusal_to_say(
        Some(&fresh(Writing::Blocks, "input/output error")),
        Some(&standing(Writing::Blocks, "no space left on device")),
    );
    assert_eq!(said, Some((Writing::Blocks, "input/output error".to_owned())));

    assert_eq!(
        the_refusal_to_say(None, Some(&standing(Writing::Headers, "gone"))),
        Some((Writing::Headers, "gone".to_owned()))
    );
    assert_eq!(the_refusal_to_say(None, None), None);
}

#[test]
fn a_budget_keeps_roughly_what_it_pays_for() {
    let cut = cut_for(10_000, 10_000, 10_000 * 100_000, 2_000 * 100_000);
    assert_eq!(cut, 8_001, "the newest two thousand are kept");
}

#[test]
fn a_large_budget_drops_nothing() {
    assert_eq!(cut_for(500, 500, 500 * 100_000, u64::MAX), 0);
}

#[test]
fn nothing_held_is_not_a_division_by_nothing() {
    assert_eq!(cut_for(0, 0, 0, 1_000), 0);
}

#[test]
fn a_disk_exactly_at_its_budget_writes_no_ledger_to_get_under_it() {
    assert!(!over_its_budget(Some(20_000), 20_000));
    assert!(over_its_budget(Some(20_000), 1));
    assert!(!over_its_budget(None, 1));
}

#[test]
fn a_trim_keeps_to_the_ledger_the_log_agrees_with() {
    let log = Extent { first: 0, reaches: 100 };
    let at = Located::new(99, id(99));
    assert_eq!(trim_history(at, true, log, 100 * 50, 10 * 50), Some(90));
    assert_eq!(trim_history(at, false, log, 100 * 50, 10 * 50), None);
    assert_eq!(trim_history(Located::new(100, id(100)), true, log, 100 * 50, 10 * 50), None);
    let trimmed = Extent { first: 95, reaches: 100 };
    assert_eq!(trim_history(at, true, trimmed, 5 * 50, 10 * 50), None);
}

#[test]
fn a_ledger_is_built_once_for_a_tip() {
    let at = Located::new(7, id(7));
    assert_eq!(ledger_owed(None, Some((id(9), at))), LedgerOwed::Nothing);
    assert_eq!(ledger_owed(Some(id(9)), Some((id(9), at))), LedgerOwed::Written(at));
    assert_eq!(ledger_owed(Some(id(10)), Some((id(9), at))), LedgerOwed::Build);
    assert_eq!(ledger_owed(Some(id(9)), None), LedgerOwed::Build);
}

#[test]
fn a_disk_that_comes_back_says_so_by_going_quiet() {
    let mut held = None;
    let refused = Wrote { reaches: 21, refusing: Some(fresh(Writing::Blocks, "full")) };
    assert!(note_writing(&mut held, &refused, Some(40)));
    let said = held.as_ref().unwrap();
    assert_eq!(
        (said.what, said.reached, said.written_through, said.blocks, said.within_reach),
        (Writing::Blocks, 40, Some(20), 20, true)
    );

    let whole = Wrote { reaches: 41, refusing: None };
    assert!(note_writing(&mut held, &whole, Some(40)));
    assert!(held.is_none());
}

#[test]
fn a_node_too_far_behind_its_disk_is_past_saving_for_good() {
    let mut held = None;
    let level = Wrote { reaches: 1, refusing: Some(fresh(Writing::Blocks, "full")) };
    assert!(note_writing(&mut held, &level, Some(MAX_BEHIND)));
    assert!(held.as_ref().unwrap().within_reach);
    assert!(!note_writing(&mut held, &level, Some(MAX_BEHIND + 1)));
    assert!(!held.as_ref().unwrap().within_reach);

    let whole = Wrote { reaches: MAX_BEHIND + 2, refusing: None };
    assert!(note_writing(&mut held, &whole, Some(MAX_BEHIND + 1)));
    assert_eq!(held.as_ref().unwrap().blocks, MAX_BEHIND + 1);
}

#[test]
fn a_gap_with_no_refusal_standing_is_not_blamed_on_the_disk() {
    let mut held = None;
    assert!(note_writing(&mut held, &Wrote { reaches: 3, refusing: None }, Some(40)));
    assert!(held.is_none());
    assert!(note_writing(&mut held, &Wrote { reaches: 0, refusing: None }, None));
    assert!(held.is_none());
}

#[test]
fn a_read_refused_again_is_counted() {
    let mut held = Some(stopped_at(Reading::Headers, 4, "gone"));
    assert_eq!(held.as_ref().unwrap().refusals, 1);
    could_not_read(&mut held, Reading::Blocks, 9, "input/output error");
    let said = held.unwrap();
    assert_eq!((said.what, said.height, said.refusals), (Reading::Blocks, 9, 2));
    assert_eq!(said.because, "input/output error");
}

#[test]
fn a_door_that_opens_again_stops_saying_it_is_shut() {
    let mut said = None;
    let mut turned_away = 0;
    could_not_take_a_visitor(&mut said, &mut turned_away, "too many open files");
    could_not_take_a_visitor(&mut said, &mut turned_away, "too many open files");
    assert_eq!(said.as_ref().unwrap().refusals, 2);
    assert_eq!(turned_away, 2);
    took_a_visitor(&mut said);
    assert!(said.is_none());
    assert_eq!(turned_away, 2);
}

#[test]
fn an_extent_holds_what_is_between_its_ends() {
    let log = Extent { first: 4, reaches: 9 };
    assert_eq!((log.len(), log.is_empty()), (5, false));
    assert!(!log.holds(3) && log.holds(4) && log.holds(8) && !log.holds(9));
}
