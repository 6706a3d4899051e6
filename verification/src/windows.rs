//! What each address has spent, kept where hanging up does not lose it.
//!
//! An allowance kept on the socket would be an allowance a peer could renew by
//! dialling back. So beside the count a connection keeps of its own there is a
//! mark, kept for its address: the most any one connection from there has
//! spent this window. A connection starts where its address left off.

use vstd::prelude::*;

use crate::address::Host;
use crate::sync::{PeerState, PeerView, WINDOW_SECONDS};

verus! {

/// Addresses whose allowance is counted separately at once.
///
/// The table is fed by whoever connects, so without a ceiling an attacker
/// holding one range of addresses would decide how much memory this node
/// spends remembering what everybody spent.
pub const MAX_ADDRESS_WINDOWS: usize = 1_024;

/// What has been spent, and since when.
#[derive(Clone, Copy, Debug, PartialEq, Eq, Structural)]
pub struct Window {
    pub started: u64,
    pub spent: u32,
}

impl Window {
    pub open spec fn is_current(self, now: u64) -> bool {
        now.saturating_sub(self.started) < WINDOW_SECONDS
    }

    /// Whether this window was over by the time `later` began.
    pub open spec fn is_over_before(self, later: Window) -> bool {
        self.started + WINDOW_SECONDS <= later.started
    }

    /// A mark that stood here, once a connection has spent as much as `other`
    /// says: the larger of the two within one window, and otherwise the later.
    pub open spec fn raised_to(self, other: Window) -> Window {
        if self.is_over_before(other) {
            other
        } else if other.is_over_before(self) {
            self
        } else {
            Window {
                started: if other.started > self.started {
                    other.started
                } else {
                    self.started
                },
                spent: if other.spent > self.spent {
                    other.spent
                } else {
                    self.spent
                },
            }
        }
    }

    /// The same, worked out.
    fn raise(self, other: Window) -> (raised: Window)
        ensures
            raised == self.raised_to(other),
    {
        if other.started >= self.started && other.started - self.started >= WINDOW_SECONDS {
            other
        } else if self.started >= other.started && self.started - other.started >= WINDOW_SECONDS {
            self
        } else {
            Window {
                started: if other.started > self.started {
                    other.started
                } else {
                    self.started
                },
                spent: if other.spent > self.spent {
                    other.spent
                } else {
                    self.spent
                },
            }
        }
    }

    /// A window nothing has been spent against.
    pub fn new() -> (window: Window)
        ensures
            window == (Window { started: 0, spent: 0 }),
    {
        Window { started: 0, spent: 0 }
    }

    /// Whether the window is the one at `now`.
    pub fn current(self, now: u64) -> (current: bool)
        ensures
            current == self.is_current(now),
    {
        now.saturating_sub(self.started) < WINDOW_SECONDS
    }
}

/// The most any one connection from an address has spent this window, and how
/// many connections there are.
#[derive(Clone, Copy, Debug, PartialEq, Eq, Structural)]
pub struct Mark {
    pub host: Host,
    pub window: Window,
    pub holders: u64,
}

impl Mark {
    pub open spec fn counts(self, now: u64) -> bool {
        self.holders > 0 || self.window.is_current(now)
    }
}

/// Whether an address's mark is still worth keeping: something holds it, or
/// its window is the current one.
pub fn still_counted(mark: &Mark, now: u64) -> (counted: bool)
    ensures
        counted == mark.counts(now),
{
    mark.holders > 0 || mark.window.current(now)
}

/// Which mark a connection starts from, and leaves what it spent on.
#[derive(Clone, Copy, Debug, PartialEq, Eq, Structural)]
pub enum Allowance {
    /// None but its own count, for a connection with no address to speak of.
    Own,
    /// The mark of the address it came from.
    At(Host),
    /// The one mark every address shares that came once the table was full.
    /// Running out of room must not be a way of being handed a fresh
    /// allowance.
    Crowded,
}

/// The mark of an address.
pub open spec fn mark_of(marks: Seq<Mark>, host: Host) -> Option<Mark>
    decreases marks.len(),
{
    if marks.len() == 0 {
        None
    } else if marks.last().host == host {
        Some(marks.last())
    } else {
        mark_of(marks.drop_last(), host)
    }
}

/// The marks still worth keeping.
pub open spec fn kept(marks: Seq<Mark>, now: u64) -> Seq<Mark>
    decreases marks.len(),
{
    if marks.len() == 0 {
        Seq::empty()
    } else if marks.last().counts(now) {
        kept(marks.drop_last(), now).push(marks.last())
    } else {
        kept(marks.drop_last(), now)
    }
}

/// The marks with one more connection, or one fewer, spending against `host`.
pub open spec fn held_by(marks: Seq<Mark>, host: Host, more: bool) -> Seq<Mark> {
    marks.map_values(
        |mark: Mark|
            if mark.host != host {
                mark
            } else if more {
                Mark { holders: mark.holders.saturating_add(1), ..mark }
            } else {
                Mark { holders: mark.holders.saturating_sub(1), ..mark }
            },
    )
}

/// The marks once a connection from `host` has spent `window`.
pub open spec fn raised_at(marks: Seq<Mark>, host: Host, window: Window) -> Seq<Mark> {
    marks.map_values(
        |mark: Mark|
            if mark.host == host {
                Mark { window: mark.window.raised_to(window), ..mark }
            } else {
                mark
            },
    )
}

/// A peer that starts where its address left off.
pub open spec fn starting_from(peer: PeerView, mark: Window) -> PeerView {
    PeerView { window_started: mark.started, spent: mark.spent, ..peer }
}

/// A peer in the window its address is in, with its own count of what it has
/// spent there: none of it, for a peer whose own window was over before that
/// one began.
pub open spec fn in_the_window_of(peer: PeerView, mark: Window) -> PeerView {
    if spent_by(peer).is_over_before(mark) {
        PeerView { window_started: mark.started, spent: 0, ..peer }
    } else if mark.started > peer.window_started {
        PeerView { window_started: mark.started, ..peer }
    } else {
        peer
    }
}

/// What a peer has spent, and since when.
pub open spec fn spent_by(peer: PeerView) -> Window {
    Window { started: peer.window_started, spent: peer.spent }
}

/// What the addresses connecting to this node have spent.
#[derive(Debug)]
pub struct Windows {
    pub marks: Vec<Mark>,
    pub crowded: Window,
}

impl Windows {
    /// The table is within its ceiling.
    pub open spec fn wf(&self) -> bool {
        self.marks@.len() <= MAX_ADDRESS_WINDOWS
    }

    /// The window an allowance is counted against, where it is not the
    /// connection's own.
    pub open spec fn window_of(&self, allowance: Allowance) -> Option<Window> {
        match allowance {
            Allowance::Own => None,
            Allowance::Crowded => Some(self.crowded),
            Allowance::At(host) => match mark_of(self.marks@, host) {
                Some(mark) => Some(mark.window),
                None => None,
            },
        }
    }

    pub fn new() -> (windows: Windows)
        ensures
            windows.wf(),
            windows.marks@ == Seq::<Mark>::empty(),
            windows.crowded == (Window { started: 0, spent: 0 }),
    {
        Windows { marks: Vec::new(), crowded: Window::new() }
    }

    /// The mark of an address.
    pub fn mark(&self, host: Host) -> (found: Option<Mark>)
        ensures
            found == mark_of(self.marks@, host),
    {
        let mut found: Option<Mark> = None;
        let mut at: usize = 0;
        while at < self.marks.len()
            invariant
                at <= self.marks@.len(),
                found == mark_of(self.marks@.take(at as int), host),
            decreases self.marks.len() - at,
        {
            assert(self.marks@.take(at + 1).drop_last() =~= self.marks@.take(at as int));
            if self.marks[at].host == host {
                found = Some(self.marks[at]);
            }
            at = at + 1;
        }
        assert(self.marks@.take(at as int) =~= self.marks@);
        found
    }

    /// The allowance a connection from `host` spends against.
    ///
    /// It carries the mark that address left behind, which is what makes
    /// hanging up worth nothing.
    pub fn allowance_for(&mut self, host: Option<Host>) -> (allowance: Allowance)
        requires
            old(self).wf(),
        ensures
            final(self).wf(),
            final(self).crowded == old(self).crowded,
            match host {
                None => allowance == Allowance::Own && final(self).marks@ == old(self).marks@,
                Some(host) => if mark_of(old(self).marks@, host) is Some {
                    allowance == Allowance::At(host) && final(self).marks@ == held_by(
                        old(self).marks@,
                        host,
                        true,
                    )
                } else if old(self).marks@.len() >= MAX_ADDRESS_WINDOWS {
                    allowance == Allowance::Crowded && final(self).marks@ == old(self).marks@
                } else {
                    allowance == Allowance::At(host) && final(self).marks@ == old(self).marks@.push(
                        (Mark { host, window: Window { started: 0, spent: 0 }, holders: 1 }),
                    )
                },
            },
    {
        let host: Host = match host {
            Some(host) => host,
            None => {
                return Allowance::Own;
            },
        };
        if self.mark(host).is_some() {
            self.hold(host, true);
            return Allowance::At(host);
        }
        if self.marks.len() >= MAX_ADDRESS_WINDOWS {
            return Allowance::Crowded;
        }
        self.marks.push(Mark { host, window: Window::new(), holders: 1 });
        Allowance::At(host)
    }

    fn hold(&mut self, host: Host, more: bool)
        ensures
            final(self).crowded == old(self).crowded,
            final(self).marks@ == held_by(old(self).marks@, host, more),
    {
        let ghost before = self.marks@;
        let mut at: usize = 0;
        while at < self.marks.len()
            invariant
                at <= self.marks@.len(),
                self.crowded == old(self).crowded,
                before == old(self).marks@,
                self.marks@.len() == before.len(),
                forall|i: int| at <= i < before.len() ==> self.marks@[i] == before[i],
                forall|i: int| 0 <= i < at ==> self.marks@[i] == held_by(before, host, more)[i],
            decreases self.marks.len() - at,
        {
            let mark: Mark = self.marks[at];
            assert(mark == before[at as int]);
            if mark.host == host {
                let holders: u64 = if more {
                    mark.holders.saturating_add(1)
                } else {
                    mark.holders.saturating_sub(1)
                };
                self.marks.set(at, Mark { holders, ..mark });
            }
            at = at + 1;
        }
        assert(self.marks@ =~= held_by(before, host, more));
    }

    /// Lets go of an allowance, for a connection that has ended.
    pub fn let_go(&mut self, allowance: Allowance)
        requires
            old(self).wf(),
        ensures
            final(self).wf(),
            final(self).crowded == old(self).crowded,
            final(self).marks@ == match allowance {
                Allowance::At(host) => held_by(old(self).marks@, host, false),
                _ => old(self).marks@,
            },
    {
        match allowance {
            Allowance::At(host) => {
                self.hold(host, false);
            },
            _ => {},
        }
    }

    /// The mark an allowance goes by, where it is not the connection's own
    /// count alone.
    fn standing(&self, allowance: Allowance) -> (window: Option<Window>)
        ensures
            window == self.window_of(allowance),
    {
        match allowance {
            Allowance::Own => None,
            Allowance::Crowded => Some(self.crowded),
            Allowance::At(host) => match self.mark(host) {
                Some(mark) => Some(mark.window),
                None => None,
            },
        }
    }

    /// Starts a connection's count where its address left off.
    pub fn lend(&self, allowance: Allowance, peer: &mut PeerState)
        ensures
            final(peer)@ == match self.window_of(allowance) {
                Some(mark) => starting_from(old(peer)@, mark),
                None => old(peer)@,
            },
    {
        match self.standing(allowance) {
            Some(mark) => {
                peer.window_started = mark.started;
                peer.spent = mark.spent;
            },
            None => {},
        }
    }

    /// Brings a connection into the window its address is in, before it is
    /// asked what it can afford. What it has spent there is still its own
    /// count: a connection is not charged for what another spent.
    pub fn keep_up(&self, allowance: Allowance, peer: &mut PeerState)
        ensures
            final(peer)@ == match self.window_of(allowance) {
                Some(mark) => in_the_window_of(old(peer)@, mark),
                None => old(peer)@,
            },
    {
        match self.standing(allowance) {
            Some(mark) => {
                if mark.started > peer.window_started {
                    if mark.started - peer.window_started >= WINDOW_SECONDS {
                        peer.spent = 0;
                    }
                    peer.window_started = mark.started;
                }
            },
            None => {},
        }
    }

    /// Writes down what a connection has spent, on the mark of its address.
    pub fn settle(&mut self, allowance: Allowance, peer: &PeerState)
        requires
            old(self).wf(),
        ensures
            final(self).wf(),
            final(self).crowded == if allowance == Allowance::Crowded {
                old(self).crowded.raised_to(spent_by(peer@))
            } else {
                old(self).crowded
            },
            final(self).marks@ == match allowance {
                Allowance::At(host) => raised_at(old(self).marks@, host, spent_by(peer@)),
                _ => old(self).marks@,
            },
    {
        let window = Window { started: peer.window_started, spent: peer.spent };
        match allowance {
            Allowance::Own => {},
            Allowance::Crowded => {
                self.crowded = self.crowded.raise(window);
            },
            Allowance::At(host) => {
                let ghost before = self.marks@;
                let mut at: usize = 0;
                while at < self.marks.len()
                    invariant
                        at <= self.marks@.len(),
                        self.crowded == old(self).crowded,
                        self.marks@.len() == before.len(),
                        forall|i: int| at <= i < before.len() ==> self.marks@[i] == before[i],
                        forall|i: int|
                            0 <= i < at ==> self.marks@[i] == raised_at(before, host, window)[i],
                    decreases self.marks.len() - at,
                {
                    let mark: Mark = self.marks[at];
                    assert(mark == before[at as int]);
                    if mark.host == host {
                        self.marks.set(at, Mark { window: mark.window.raise(window), ..mark });
                    }
                    at = at + 1;
                }
                assert(self.marks@ =~= raised_at(before, host, window));
            },
        }
    }

    /// Drops the marks of addresses that have gone and finished spending.
    ///
    /// A mark is kept while anything still holds it, so a live connection
    /// never loses its count, and while the window it belongs to is still the
    /// current one, so an address that hung up a second ago cannot come back
    /// to a fresh allowance. Past both it is only a row in a table an attacker
    /// feeds.
    pub fn forget_spent_windows(&mut self, now: u64)
        requires
            old(self).wf(),
        ensures
            final(self).wf(),
            final(self).crowded == old(self).crowded,
            final(self).marks@ == kept(old(self).marks@, now),
    {
        let mut left: Vec<Mark> = Vec::new();
        let mut at: usize = 0;
        while at < self.marks.len()
            invariant
                at <= self.marks@.len(),
                *self == *old(self),
                left@ == kept(self.marks@.take(at as int), now),
                left@.len() <= at,
            decreases self.marks.len() - at,
        {
            assert(self.marks@.take(at + 1).drop_last() =~= self.marks@.take(at as int));
            if still_counted(&self.marks[at], now) {
                left.push(self.marks[at]);
            }
            at = at + 1;
        }
        assert(self.marks@.take(at as int) =~= self.marks@);
        self.marks = left;
    }
}

impl Default for Windows {
    fn default() -> (windows: Windows)
        ensures
            windows.wf(),
            windows.marks@ == Seq::<Mark>::empty(),
            windows.crowded == (Window { started: 0, spent: 0 }),
    {
        Windows::new()
    }
}

/// Hanging up and dialling back is worth nothing: once a connection has
/// settled and gone, the next one from its address starts in a window that is
/// still the current one, with no less spent than the first had.
pub proof fn hanging_up_is_worth_nothing(marks: Seq<Mark>, host: Host, peer: PeerView, now: u64)
    requires
        mark_of(marks, host) matches Some(mark) && !spent_by(peer).is_over_before(mark.window),
        spent_by(peer).is_current(now),
    ensures
        ({
            let spent = raised_at(marks, host, spent_by(peer));
            let left = held_by(spent, host, false);
            let back = kept(left, now);
            mark_of(back, host) matches Some(mark) && mark.window.is_current(now)
                && starting_from(peer, mark.window).spent >= peer.spent
        }),
    decreases marks.len(),
{
    let window = spent_by(peer);
    let spent = raised_at(marks, host, window);
    let left = held_by(spent, host, false);
    let shorter = marks.drop_last();
    assert(left.len() == marks.len());
    assert(left.drop_last() =~= held_by(raised_at(shorter, host, window), host, false));
    let back = kept(left, now);
    if marks.last().host == host {
        assert(left.last().window == marks.last().window.raised_to(window));
        assert(back.last() == left.last());
    } else {
        hanging_up_is_worth_nothing(shorter, host, peer, now);
        assert(left.last() == marks.last());
        if left.last().counts(now) {
            assert(back.drop_last() =~= kept(left.drop_last(), now));
            assert(back.last() == left.last());
        }
    }
}

/// A mark is the most any one connection has spent, and not what all of them
/// have: of two connections in one window, settled one after the other, the
/// mark stands at the larger count, and each of them goes on with its own.
pub proof fn a_mark_is_the_most_one_connection_spent(mark: Window, one: PeerView, other: PeerView)
    requires
        mark.started == one.window_started,
        mark.started == other.window_started,
        mark.spent <= one.spent,
    ensures
        mark.raised_to(spent_by(one)).raised_to(spent_by(other)) == (Window {
            started: mark.started,
            spent: if one.spent >= other.spent {
                one.spent
            } else {
                other.spent
            },
        }),
        in_the_window_of(one, mark.raised_to(spent_by(other))) == one,
        in_the_window_of(other, mark.raised_to(spent_by(one))) == other,
{
}

/// A live connection never loses its count to a sweep.
pub proof fn a_held_mark_survives_a_sweep(marks: Seq<Mark>, host: Host, now: u64)
    requires
        mark_of(marks, host) matches Some(mark) && mark.counts(now),
    ensures
        mark_of(kept(marks, now), host) == mark_of(marks, host),
    decreases marks.len(),
{
    let shorter = marks.drop_last();
    let left = kept(marks, now);
    if marks.last().host != host {
        a_held_mark_survives_a_sweep(shorter, host, now);
        if marks.last().counts(now) {
            assert(left.drop_last() =~= kept(shorter, now));
        }
    }
}

/// A window counts for ten seconds from where it started.
pub proof fn a_window_counts_for_ten_seconds(window: Window, now: u64, current: bool)
    requires
        call_ensures(Window::current, (window, now), current),
    ensures
        now < window.started + 10 ==> current,
        window.started + 10 <= now ==> !current,
{
}

/// A mark is kept while a connection holds it or its window counts, and not
/// after both.
pub proof fn a_mark_is_kept_while_held_or_current(mark: &Mark, now: u64, counted: bool)
    requires
        call_ensures(still_counted, (mark, now), counted),
    ensures
        mark.holders > 0 ==> counted,
        now < mark.window.started + 10 ==> counted,
        mark.holders == 0 && mark.window.started + 10 <= now ==> !counted,
{
}

proof fn a_mark_is_one_of_those_held(marks: Seq<Mark>, host: Host)
    ensures
        mark_of(marks, host) is Some <==> exists|i: int|
            0 <= i < marks.len() && (#[trigger] marks[i]).host == host,
        mark_of(marks, host) matches Some(mark) ==> mark.host == host && marks.contains(mark),
    decreases marks.len(),
{
    if marks.len() > 0 {
        let fewer = marks.drop_last();
        a_mark_is_one_of_those_held(fewer, host);
        if marks.last().host == host {
            assert(marks[marks.len() - 1].host == host);
        } else {
            if exists|i: int| 0 <= i < marks.len() && (#[trigger] marks[i]).host == host {
                let i = choose|i: int| 0 <= i < marks.len() && (#[trigger] marks[i]).host == host;
                assert(fewer[i].host == host);
            }
            match mark_of(fewer, host) {
                Some(mark) => {
                    let i = choose|i: int| 0 <= i < fewer.len() && fewer[i] == mark;
                    assert(marks[i] == mark);
                },
                None => {},
            }
        }
    }
}

/// A mark is found for a host exactly when one is held for it, and it is that
/// host's own.
pub proof fn a_mark_found_is_that_hosts_own(windows: &Windows, host: Host, found: Option<Mark>)
    requires
        call_ensures(Windows::mark, (windows, host), found),
    ensures
        found is Some <==> exists|i: int|
            0 <= i < windows.marks@.len() && (#[trigger] windows.marks@[i]).host == host,
        found matches Some(mark) ==> mark.host == host && windows.marks@.contains(mark),
{
    a_mark_is_one_of_those_held(windows.marks@, host);
}

/// A connection from a host already marked shares its mark, and one more holds
/// it. A host not seen before gets a mark of its own, held once and nothing
/// spent, while fewer than a thousand and twenty-four are held, and shares the
/// one for the crowd after that. A connection from nowhere spends its own.
pub proof fn connections_from_one_host_share_its_mark(
    windows: &mut Windows,
    host: Option<Host>,
    allowance: Allowance,
)
    requires
        call_ensures(Windows::allowance_for, (windows, host), allowance),
    ensures
        final(windows).crowded == old(windows).crowded,
        host is None ==> allowance == Allowance::Own && final(windows).marks@
            == old(windows).marks@,
        host matches Some(host) ==> {
            let known = exists|i: int|
                0 <= i < old(windows).marks@.len() && (#[trigger] old(windows).marks@[i]).host
                    == host;
            &&& known || old(windows).marks@.len() < 1_024 <==> allowance == Allowance::At(host)
            &&& !known && old(windows).marks@.len() >= 1_024 ==> allowance == Allowance::Crowded
                && final(windows).marks@ == old(windows).marks@
            &&& !known && old(windows).marks@.len() < 1_024 ==> {
                &&& final(windows).marks@.drop_last() == old(windows).marks@
                &&& final(windows).marks@.len() == old(windows).marks@.len() + 1
                &&& final(windows).marks@.last().host == host
                &&& final(windows).marks@.last().holders == 1
                &&& final(windows).marks@.last().window.spent == 0
                &&& final(windows).marks@.last().window.started == 0
            }
            &&& known ==> final(windows).marks@.len() == old(windows).marks@.len() && forall|i: int|
                #![trigger final(windows).marks@[i]]
                0 <= i < final(windows).marks@.len() ==> {
                    let was = old(windows).marks@[i];
                    let is = final(windows).marks@[i];
                    &&& is.host == was.host && is.window == was.window
                    &&& is.host != host ==> is.holders == was.holders
                    &&& is.host == host && was.holders < u32::MAX ==> is.holders == was.holders + 1
                }
        },
{
    match host {
        Some(host) => {
            a_mark_is_one_of_those_held(old(windows).marks@, host);
            if mark_of(old(windows).marks@, host) is None && old(windows).marks@.len() < 1_024 {
                assert(final(windows).marks@.drop_last() =~= old(windows).marks@);
            }
        },
        None => {},
    }
}

/// A connection that goes lets go of its host's mark once, and of nothing
/// else: what was spent stays spent.
pub proof fn letting_go_gives_nothing_back(windows: &mut Windows, allowance: Allowance)
    requires
        call_ensures(Windows::let_go, (windows, allowance), ()),
    ensures
        final(windows).crowded == old(windows).crowded,
        final(windows).marks@.len() == old(windows).marks@.len(),
        forall|i: int|
            #![trigger final(windows).marks@[i]]
            0 <= i < final(windows).marks@.len() ==> {
                let was = old(windows).marks@[i];
                let is = final(windows).marks@[i];
                &&& is.host == was.host && is.window == was.window
                &&& allowance != Allowance::At(is.host) ==> is.holders == was.holders
                &&& allowance == Allowance::At(is.host) && was.holders > 0 ==> is.holders
                    == was.holders - 1
                &&& was.holders == 0 ==> is.holders == 0
            },
{
}

/// A connection begins where its host has got to, and with what its host has
/// spent; nothing else of it is touched.
pub proof fn a_connection_begins_where_its_host_has_got_to(
    windows: &Windows,
    host: Host,
    peer: &mut PeerState,
    found: Option<Mark>,
)
    requires
        call_ensures(Windows::lend, (windows, Allowance::At(host), peer), ()),
        call_ensures(Windows::mark, (windows, host), found),
    ensures
        found matches Some(mark) ==> final(peer)@.window_started == mark.window.started
            && final(peer)@.spent == mark.window.spent,
        found is None ==> final(peer)@ == old(peer)@,
        final(peer)@.greeted == old(peer)@.greeted,
        final(peer)@.awaiting == old(peer)@.awaiting,
        final(peer)@.total_work == old(peer)@.total_work,
{
}

/// One among a crowd begins where the crowd has got to, and one on its own
/// with what it has.
pub proof fn a_crowd_is_charged_together(
    windows: &Windows,
    crowded: &mut PeerState,
    own: &mut PeerState,
)
    requires
        call_ensures(Windows::lend, (windows, Allowance::Crowded, crowded), ()),
        call_ensures(Windows::lend, (windows, Allowance::Own, own), ()),
    ensures
        final(crowded)@.window_started == windows.crowded.started,
        final(crowded)@.spent == windows.crowded.spent,
        final(own)@ == old(own)@,
{
}

/// A connection moves on to its host's window when that has come later, with
/// nothing spent where its own had ended by then and with what it has spent
/// where it had not. It is never moved back.
pub proof fn a_connection_keeps_up_with_its_host(
    windows: &Windows,
    host: Host,
    peer: &mut PeerState,
    found: Option<Mark>,
)
    requires
        call_ensures(Windows::keep_up, (windows, Allowance::At(host), peer), ()),
        call_ensures(Windows::mark, (windows, host), found),
    ensures
        found matches Some(mark) ==> {
            &&& mark.window.started <= old(peer)@.window_started ==> final(peer)@ == old(peer)@
            &&& mark.window.started > old(peer)@.window_started ==> final(peer)@.window_started
                == mark.window.started
            &&& old(peer)@.window_started + 10 <= mark.window.started ==> final(peer)@.spent == 0
            &&& mark.window.started < old(peer)@.window_started + 10 ==> final(peer)@.spent
                == old(peer)@.spent
        },
        found is None ==> final(peer)@ == old(peer)@,
        final(peer)@.greeted == old(peer)@.greeted,
        final(peer)@.awaiting == old(peer)@.awaiting,
{
}

/// What a connection spent is settled on its host's mark and no other: the mark
/// is moved on to a window that came after it, keeps its own where that came
/// before, and otherwise stands at the most either spent and the later start.
pub proof fn what_is_spent_is_settled_on_the_host(
    windows: &mut Windows,
    host: Host,
    peer: &PeerState,
)
    requires
        call_ensures(Windows::settle, (windows, Allowance::At(host), peer), ()),
    ensures
        final(windows).crowded == old(windows).crowded,
        final(windows).marks@.len() == old(windows).marks@.len(),
        forall|i: int|
            #![trigger final(windows).marks@[i]]
            0 <= i < final(windows).marks@.len() ==> {
                let was = old(windows).marks@[i];
                let is = final(windows).marks@[i];
                &&& is.host == was.host && is.holders == was.holders
                &&& is.host != host ==> is.window == was.window
                &&& is.host == host && was.window.started + 10 <= peer@.window_started
                    ==> is.window.started == peer@.window_started && is.window.spent == peer@.spent
                &&& is.host == host && peer@.window_started + 10 <= was.window.started
                    ==> is.window == was.window
                &&& is.host == host && was.window.started < peer@.window_started + 10
                    && peer@.window_started < was.window.started + 10 ==> {
                    &&& is.window.started >= was.window.started && is.window.started
                        >= peer@.window_started
                    &&& is.window.started == was.window.started || is.window.started
                        == peer@.window_started
                    &&& is.window.spent >= was.window.spent && is.window.spent >= peer@.spent
                    &&& is.window.spent == was.window.spent || is.window.spent == peer@.spent
                }
            },
{
}

/// What one among a crowd spent is settled on the crowd, and what one on its
/// own spent is settled nowhere.
pub proof fn what_a_crowd_spends_is_settled_on_the_crowd(
    crowd: &mut Windows,
    alone: &mut Windows,
    peer: &PeerState,
)
    requires
        call_ensures(Windows::settle, (crowd, Allowance::Crowded, peer), ()),
        call_ensures(Windows::settle, (alone, Allowance::Own, peer), ()),
    ensures
        final(crowd).marks@ == old(crowd).marks@,
        old(crowd).crowded.started == peer@.window_started ==> final(crowd).crowded.spent
            >= peer@.spent && final(crowd).crowded.spent >= old(crowd).crowded.spent && (
        final(crowd).crowded.spent == peer@.spent || final(crowd).crowded.spent
            == old(crowd).crowded.spent),
        old(crowd).crowded.started + 10 <= peer@.window_started ==> final(crowd).crowded.started
            == peer@.window_started && final(crowd).crowded.spent == peer@.spent,
        peer@.window_started + 10 <= old(crowd).crowded.started ==> final(crowd).crowded
            == old(crowd).crowded,
        final(alone).marks@ == old(alone).marks@,
        final(alone).crowded == old(alone).crowded,
{
}

/// Marks held or still counting, in order.
pub open spec fn marks_that_matter(marks: Seq<Mark>, now: u64) -> Seq<Mark> {
    marks.filter(|mark: Mark| mark.holders > 0 || now < mark.window.started + 10)
}

proof fn kept_is_marks_that_matter(marks: Seq<Mark>, now: u64)
    ensures
        kept(marks, now) == marks_that_matter(marks, now),
    decreases marks.len(),
{
    reveal(Seq::filter);
    if marks.len() > 0 {
        kept_is_marks_that_matter(marks.drop_last(), now);
    }
}

/// A sweep forgets the marks that nobody holds and whose windows are over, and
/// no others.
pub proof fn a_sweep_forgets_marks_that_no_longer_matter(windows: &mut Windows, now: u64)
    requires
        call_ensures(Windows::forget_spent_windows, (windows, now), ()),
    ensures
        final(windows).marks@ == marks_that_matter(old(windows).marks@, now),
        final(windows).crowded == old(windows).crowded,
{
    kept_is_marks_that_matter(old(windows).marks@, now);
}

/// Nothing is marked and nothing spent to begin with.
pub proof fn nothing_is_spent_to_begin_with(windows: Windows, window: Window, host: Host, found: Option<Mark>)
    requires
        call_ensures(Windows::new, (), windows),
        call_ensures(Window::new, (), window),
        call_ensures(Windows::mark, (&windows, host), found),
    ensures
        found is None,
        window.spent == 0 && window.started == 0,
        windows.crowded.spent == 0 && windows.crowded.started == 0,
{
}

} // verus!
