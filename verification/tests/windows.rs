//! The allowance an address has, however often it connects.

use cairn_net::address::Host;
use cairn_net::sync::{PeerState, ALLOWANCE};
use cairn_net::windows::{still_counted, Allowance, Mark, Window, Windows, MAX_ADDRESS_WINDOWS};

fn host(last: u8) -> Host {
    Host::V4(203, 0, 113, last)
}

#[test]
fn marks_nothing_counts_for_are_let_go_of() {
    let mut windows = Windows::new();
    let connection = windows.allowance_for(Some(host(1)));
    let gone = windows.allowance_for(Some(host(2)));
    windows.let_go(gone);

    windows.forget_spent_windows(1_000_000);
    assert!(windows.mark(host(1)).is_some());
    assert!(windows.mark(host(2)).is_none());
    windows.let_go(connection);
    windows.forget_spent_windows(1_000_000);
    assert!(windows.mark(host(1)).is_none());
}

#[test]
fn a_mark_is_kept_while_it_counts_for_something() {
    let held = Mark { host: host(1), window: Window::new(), holders: 1 };
    assert!(still_counted(&held, 100));

    let alone = Mark { host: host(1), window: Window::new(), holders: 0 };
    assert!(still_counted(&alone, 5));
    assert!(!still_counted(&alone, 100));
}

#[test]
fn hanging_up_and_dialling_back_buys_nothing() {
    let mut windows = Windows::new();
    let first = windows.allowance_for(Some(host(1)));
    let mut peer = PeerState::new(Some(host(1)));
    windows.lend(first, &mut peer);
    assert!(peer.afford(ALLOWANCE - 1, 50));
    windows.settle(first, &peer);
    windows.let_go(first);

    let again = windows.allowance_for(Some(host(1)));
    let mut peer = PeerState::new(Some(host(1)));
    windows.lend(again, &mut peer);
    assert!(!peer.afford(2, 51));
    assert!(peer.afford(1, 51));

    let elsewhere = windows.allowance_for(Some(host(2)));
    let mut other = PeerState::new(Some(host(2)));
    windows.lend(elsewhere, &mut other);
    assert!(other.afford(ALLOWANCE, 51));
}

#[test]
fn a_connection_is_not_charged_for_what_another_spent() {
    let mut windows = Windows::new();
    let allowance = windows.allowance_for(Some(host(1)));
    assert_eq!(windows.allowance_for(Some(host(1))), allowance);
    let mut one = PeerState::new(Some(host(1)));
    let mut other = PeerState::new(Some(host(1)));
    windows.lend(allowance, &mut one);
    windows.lend(allowance, &mut other);

    let spend = |windows: &mut Windows, peer: &mut PeerState, cost, now| {
        windows.keep_up(allowance, peer);
        let afforded = peer.afford(cost, now);
        windows.settle(allowance, peer);
        afforded
    };
    assert!(spend(&mut windows, &mut one, 5_000, 50));
    assert!(spend(&mut windows, &mut other, 3_000, 52));
    assert_eq!((other.window_started, other.spent), (50, 3_000));
    assert_eq!(windows.mark(host(1)).unwrap().window, Window { started: 50, spent: 5_000 });
    assert!(spend(&mut windows, &mut other, ALLOWANCE - 3_000, 53));
    assert!(!spend(&mut windows, &mut other, 1, 53));
    assert!(spend(&mut windows, &mut one, ALLOWANCE - 5_000, 53));

    // The window turns for both at once, whichever of them speaks first in it.
    assert!(spend(&mut windows, &mut other, 7, 60));
    assert_eq!(windows.mark(host(1)).unwrap().window, Window { started: 60, spent: 7 });
    assert!(spend(&mut windows, &mut one, 4, 64));
    assert_eq!((one.window_started, one.spent), (60, 4));
    assert_eq!(windows.mark(host(1)).unwrap().window, Window { started: 60, spent: 7 });

    // And a third starts where the most of them left off.
    let mut third = PeerState::new(Some(host(1)));
    windows.lend(allowance, &mut third);
    assert_eq!((third.window_started, third.spent), (60, 7));
}

#[test]
fn a_count_from_an_older_window_leaves_the_mark_alone() {
    let mut windows = Windows::new();
    let allowance = windows.allowance_for(Some(host(1)));
    let mut stale = PeerState::new(Some(host(1)));
    assert!(stale.afford(9, 50));
    let mut fresh = PeerState::new(Some(host(1)));
    assert!(fresh.afford(2, 60));
    windows.settle(allowance, &fresh);
    windows.settle(allowance, &stale);
    assert_eq!(windows.mark(host(1)).unwrap().window, Window { started: 60, spent: 2 });
}

#[test]
fn a_table_that_is_full_shares_one_allowance_among_newcomers() {
    let mut windows = Windows::new();
    for index in 0..MAX_ADDRESS_WINDOWS {
        let host = Host::V4(198, 51, (index / 256) as u8, (index % 256) as u8);
        assert_eq!(windows.allowance_for(Some(host)), Allowance::At(host));
    }
    assert_eq!(windows.allowance_for(Some(host(1))), Allowance::Crowded);
    let known = Host::V4(198, 51, 0, 0);
    assert_eq!(windows.allowance_for(Some(known)), Allowance::At(known));
    assert_eq!(windows.mark(known).unwrap().holders, 2);
    assert_eq!(windows.allowance_for(None), Allowance::Own);
}
