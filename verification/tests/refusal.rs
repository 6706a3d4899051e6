use cairn_net::address::Host;
use cairn_net::refusal::{can_be_refused, Refusals, MAX_REFUSED, REFUSAL_SECONDS};

fn host(last: u8) -> Host {
    Host::V4(198, 51, 100, last)
}

fn nth(index: usize) -> Host {
    let last = u8::try_from(index % 256).unwrap_or(0);
    let third = u8::try_from((index / 256) % 256).unwrap_or(0);
    Host::V4(198, 51, third, last)
}

#[test]
fn a_refused_address_is_turned_away() {
    let mut refusals = Refusals::new();
    refusals.refuse(host(1), 1_000);
    assert!(refusals.refuses(host(1), 1_000));
    assert!(!refusals.refuses(host(2), 1_000));
}

#[test]
fn a_refusal_runs_out() {
    let mut refusals = Refusals::new();
    refusals.refuse(host(1), 1_000);
    assert!(refusals.refuses(host(1), 1_000 + REFUSAL_SECONDS - 1));
    assert!(!refusals.refuses(host(1), 1_000 + REFUSAL_SECONDS));
}

#[test]
fn expired_refusals_are_forgotten() {
    let mut refusals = Refusals::new();
    refusals.refuse(host(1), 1_000);
    refusals.refuse(host(2), 1_000);
    assert_eq!(refusals.len(), 2);
    refusals.forget_expired(1_000 + REFUSAL_SECONDS);
    assert!(refusals.is_empty());
}

#[test]
fn the_table_does_not_grow_without_limit() {
    let mut refusals = Refusals::new();
    for index in 0..(MAX_REFUSED + 500) {
        refusals.refuse(nth(index), 1_000);
    }
    assert!(refusals.len() <= MAX_REFUSED);
}

#[test]
fn a_full_table_still_turns_the_next_one_away() {
    let mut refusals = Refusals::new();
    for index in 0..MAX_REFUSED {
        refusals.refuse(nth(index), 1_000);
    }
    assert_eq!(refusals.len(), MAX_REFUSED, "the table is full");

    let next = Host::V4(203, 0, 113, 7);
    assert!(!refusals.refuses(next, 1_000), "and does not hold this one");
    refusals.refuse(next, 1_000);
    assert!(refusals.refuses(next, 1_000));
    assert!(
        refusals.len() <= MAX_REFUSED,
        "and the ceiling is still kept"
    );
}

#[test]
fn a_refusal_is_over_at_the_moment_it_is_over() {
    let mut refusals = Refusals::new();
    let host = Host::V4(198, 51, 100, 1);
    refusals.refuse(host, 1_000);
    let over = 1_000 + REFUSAL_SECONDS;

    assert!(
        refusals.refuses(host, over - 1),
        "held up to the last second"
    );
    assert!(
        !refusals.refuses(host, over),
        "and not at the deadline itself"
    );

    refusals.refuse(Host::V4(198, 51, 100, 2), over);
    assert_eq!(refusals.len(), 1);
}

#[test]
fn a_host_already_held_does_not_cost_another_one_its_refusal() {
    let mut refusals = Refusals::new();
    let mut held = Vec::new();
    let early = 1_000u64;
    let now = early + 1;
    for index in 0..(MAX_REFUSED - 1) {
        let host = nth(index);
        refusals.refuse(host, early);
        held.push(host);
    }
    let again = Host::V4(203, 0, 113, 7);
    refusals.refuse(again, now);
    assert_eq!(refusals.len(), MAX_REFUSED, "the table is full");

    let before = held.iter().filter(|h| refusals.refuses(**h, now)).count();
    assert_eq!(before, MAX_REFUSED - 1, "every one of them is held");

    refusals.refuse(again, now);
    let after = held.iter().filter(|h| refusals.refuses(**h, now)).count();
    assert_eq!(after, before);
    assert!(
        refusals.refuses(again, now + REFUSAL_SECONDS - 1),
        "and the repeat offender is held from now rather than from before"
    );
}

#[test]
fn the_loopback_address_is_never_refused() {
    let mut refusals = Refusals::new();
    refusals.refuse(Host::localhost(), 1_000);
    assert!(!refusals.refuses(Host::localhost(), 1_000));
    assert!(refusals.is_empty());
}

/// A full table gives up the entry closest to being forgotten, and no other.
#[test]
fn a_full_table_gives_up_the_oldest() {
    let mut refusals = Refusals::new();
    refusals.refuse(Host::V4(203, 0, 113, 1), 999);
    for index in 0..(MAX_REFUSED - 1) {
        refusals.refuse(nth(index), 1_000);
    }
    refusals.refuse(Host::V6(7), 1_000);
    assert!(!refusals.refuses(Host::V4(203, 0, 113, 1), 1_000));
    assert!(refusals.refuses(Host::V6(7), 1_000));
    for index in 0..(MAX_REFUSED - 1) {
        assert!(refusals.refuses(nth(index), 1_000));
    }
}

#[test]
fn every_loopback_address_is_this_machine() {
    assert!(!can_be_refused(Host::V4(127, 0, 0, 1)));
    assert!(!can_be_refused(Host::V4(127, 200, 3, 4)));
    assert!(!can_be_refused(Host::V6(1)));
    assert!(can_be_refused(Host::V4(128, 0, 0, 1)));
    assert!(can_be_refused(Host::V6(2)));
}

#[test]
fn a_refusal_at_the_end_of_time_is_over_then() {
    let mut refusals = Refusals::new();
    refusals.refuse(host(1), u64::MAX - 1);
    assert!(refusals.refuses(host(1), u64::MAX - 1));
    assert!(!refusals.refuses(host(1), u64::MAX));
}
