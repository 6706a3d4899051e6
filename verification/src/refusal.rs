//! Turning away peers that have behaved badly.
//!
//! A node cannot afford to reconnect indefinitely to something that wastes its
//! time, and cannot afford to remember every address that ever annoyed it
//! either. So refusals expire, and the table they live in is bounded.
//!
//! Nothing here is consensus. Two nodes refusing different peers still build
//! the same chain, which is why this can be a local policy at all.

use vstd::prelude::*;

use crate::address::Host;

verus! {

/// How long a peer that misbehaved is turned away for.
pub const REFUSAL_SECONDS: u64 = 600;

/// Addresses held under refusal at once.
///
/// Bounded because the table is fed by whoever connects. The ceiling is on
/// memory, and what it must not cost is the refusal: a full table gives up the
/// entry closest to being forgotten rather than the one being written.
pub const MAX_REFUSED: usize = 1_024;

/// Whether an address is one this node is willing to turn away.
///
/// The loopback address never is: several nodes on one machine all arrive from
/// it, and refusing it would have them lock each other out.
pub fn can_be_refused(host: Host) -> (answer: bool)
    ensures
        answer == !host.loopback(),
{
    !host.is_loopback()
}

/// The entries of a table of deadlines that are still running at `now`.
pub open spec fn running_at(table: Map<Host, u64>, now: u64) -> Map<Host, u64> {
    Map::new(|host: Host| table.dom().contains(host) && table[host] > now, |host: Host| table[host])
}

/// Whether a table of deadlines turns `host` away at `now`.
pub open spec fn turned_away(table: Map<Host, u64>, host: Host, now: u64) -> bool {
    table.dom().contains(host) && table[host] > now
}

/// Whether `host` is an entry no other is forgotten before.
pub open spec fn forgotten_first(table: Map<Host, u64>, host: Host) -> bool {
    &&& table.dom().contains(host)
    &&& forall|other: Host| #[trigger] table.dom().contains(other) ==> table[host] <= table[other]
}

/// What a table holds once `host` has been refused at `now`, when the entry
/// given up for room, if one is, is `given_up`.
pub open spec fn refused_giving_up(
    table: Map<Host, u64>,
    host: Host,
    now: u64,
    given_up: Option<Host>,
) -> Map<Host, u64> {
    let running = running_at(table, now);
    let until = now.saturating_add(REFUSAL_SECONDS);
    match given_up {
        None => running.insert(host, until),
        Some(other) => running.remove(other).insert(host, until),
    }
}

/// Whether `table` has no room for `host` once what has run out is gone.
pub open spec fn has_to_give_up(table: Map<Host, u64>, host: Host, now: u64) -> bool {
    let running = running_at(table, now);
    !running.dom().contains(host) && running.dom().len() >= MAX_REFUSED
}

/// Whether turning `host` away at `now` may leave the table as `after`: as it
/// was for this machine itself, with nobody given up where there is room, and
/// otherwise without the entry closest to being forgotten.
pub open spec fn comes_of_refusing(
    table: Map<Host, u64>,
    host: Host,
    now: u64,
    after: Map<Host, u64>,
) -> bool {
    if host.loopback() {
        after == table
    } else if !has_to_give_up(table, host, now) {
        after == refused_giving_up(table, host, now, None)
    } else {
        exists|other: Host| #[trigger]
            forgotten_first(running_at(table, now), other) && after == refused_giving_up(
                table,
                host,
                now,
                Some(other),
            )
    }
}

/// Addresses turned away, and until when.
#[derive(Debug)]
pub struct Refusals {
    held: Vec<(Host, u64)>,
}

impl View for Refusals {
    type V = Map<Host, u64>;

    /// Each host refused, and the second its refusal is over.
    closed spec fn view(&self) -> Map<Host, u64> {
        table_of(self.held@)
    }
}

spec fn hosts_of(held: Seq<(Host, u64)>) -> Seq<Host> {
    held.map_values(|entry: (Host, u64)| entry.0)
}

spec fn table_of(held: Seq<(Host, u64)>) -> Map<Host, u64> {
    Map::new(
        |host: Host| hosts_of(held).contains(host),
        |host: Host| held[hosts_of(held).index_of(host)].1,
    )
}

proof fn entry_is_in_the_table(held: Seq<(Host, u64)>, at: int)
    requires
        hosts_of(held).no_duplicates(),
        0 <= at < held.len(),
    ensures
        table_of(held).dom().contains(held[at].0),
        table_of(held)[held[at].0] == held[at].1,
{
    let hosts = hosts_of(held);
    assert(hosts[at] == held[at].0);
    assert(hosts.contains(held[at].0));
    let found = hosts.index_of(held[at].0);
    assert(hosts[found] == hosts[at]);
    assert(found == at);
}

proof fn table_entry_is_held(held: Seq<(Host, u64)>, host: Host) -> (at: int)
    requires
        hosts_of(held).no_duplicates(),
        table_of(held).dom().contains(host),
    ensures
        0 <= at < held.len(),
        held[at] == (host, table_of(held)[host]),
{
    let at = hosts_of(held).index_of(host);
    assert(hosts_of(held)[at] == held[at].0);
    at
}

proof fn table_is_as_long_as_the_list(held: Seq<(Host, u64)>)
    requires
        hosts_of(held).no_duplicates(),
    ensures
        table_of(held).dom().finite(),
        table_of(held).dom().len() == held.len(),
{
    let hosts = hosts_of(held);
    hosts.unique_seq_to_set();
    vstd::seq_lib::seq_to_set_is_finite(hosts);
    assert(table_of(held).dom() =~= hosts.to_set());
}

impl Refusals {
    /// A host is held once, no more are held than the ceiling allows, and none
    /// of them is this machine.
    pub closed spec fn wf(&self) -> bool {
        &&& hosts_of(self.held@).no_duplicates()
        &&& self.held@.len() <= MAX_REFUSED
        &&& forall|i: int| 0 <= i < self.held@.len() ==> !(#[trigger] self.held@[i]).0.loopback()
    }

    pub fn new() -> (refusals: Refusals)
        ensures
            refusals.wf(),
            refusals@ == Map::<Host, u64>::empty(),
    {
        let refusals = Refusals { held: Vec::new() };
        assert(refusals@ =~= Map::<Host, u64>::empty());
        refusals
    }

    /// Where a host is held, or `None`.
    fn find(&self, host: Host) -> (at: Option<usize>)
        requires
            self.wf(),
        ensures
            match at {
                Some(at) => at < self.held.len() && self.held@[at as int].0 == host
                    && self@.dom().contains(host) && self@[host] == self.held@[at as int].1,
                None => !self@.dom().contains(host),
            },
    {
        let mut at: usize = 0;
        while at < self.held.len()
            invariant
                self.wf(),
                at <= self.held.len(),
                forall|i: int| 0 <= i < at ==> #[trigger] self.held@[i].0 != host,
            decreases self.held.len() - at,
        {
            if self.held[at].0 == host {
                proof {
                    entry_is_in_the_table(self.held@, at as int);
                }
                return Some(at);
            }
            at = at + 1;
        }
        proof {
            if self@.dom().contains(host) {
                let i = table_entry_is_held(self.held@, host);
                assert(self.held@[i].0 == host);
            }
        }
        None
    }

    /// Turns `host` away for a while, starting from `now`.
    ///
    /// Expired entries are dropped on the way in. A host already held has its
    /// deadline moved and costs nobody else theirs; a full table gives up the
    /// entry closest to being forgotten.
    pub fn refuse(&mut self, host: Host, now: u64)
        requires
            old(self).wf(),
        ensures
            final(self).wf(),
            comes_of_refusing(old(self)@, host, now, final(self)@),
    {
        if !can_be_refused(host) {
            return;
        }
        self.forget_expired(now);
        let ghost running = running_at(old(self)@, now);
        assert(self@ == running);
        let until: u64 = now.saturating_add(REFUSAL_SECONDS);
        let ghost before = self.held@;
        proof {
            table_is_as_long_as_the_list(before);
        }
        match self.find(host) {
            Some(at) => {
                self.held.set(at, (host, until));
                proof {
                    assert(hosts_of(self.held@) =~= hosts_of(before));
                    assert(self@ =~= running.insert(host, until)) by {
                        same_hosts_one_moved(before, at as int, until);
                    }
                }
                return;
            },
            None => {},
        }
        let ghost mut given_up: Option<Host> = None;
        if self.held.len() >= MAX_REFUSED {
            let soonest = self.soonest();
            proof {
                given_up = Some(before[soonest as int].0);
                removed_from_the_list(before, soonest as int);
                assert(forgotten_first(running, before[soonest as int].0)) by {
                    entry_is_in_the_table(before, soonest as int);
                    assert forall|other: Host| #[trigger] running.dom().contains(other) implies running[before[soonest as int].0]
                        <= running[other] by {
                        let i = table_entry_is_held(before, other);
                        assert(before[soonest as int].1 <= before[i].1);
                    }
                }
            }
            self.held.remove(soonest);
        }
        let ghost room = self.held@;
        self.held.push((host, until));
        proof {
            pushed_onto_the_list(room, host, until);
            assert(self.held@ =~= room.push((host, until)));
            if given_up is Some {
                assert(forgotten_first(running, given_up->0));
                assert(self@ == refused_giving_up(old(self)@, host, now, given_up));
            }
        }
    }

    /// The entry closest to being forgotten.
    fn soonest(&self) -> (at: usize)
        requires
            self.held.len() > 0,
        ensures
            at < self.held.len(),
            forall|i: int| 0 <= i < self.held.len() ==> self.held@[at as int].1 <= #[trigger] self.held@[i].1,
    {
        let mut best: usize = 0;
        let mut at: usize = 1;
        while at < self.held.len()
            invariant
                best < at <= self.held.len(),
                forall|i: int| 0 <= i < at ==> self.held@[best as int].1 <= #[trigger] self.held@[i].1,
            decreases self.held.len() - at,
        {
            if self.held[at].1 < self.held[best].1 {
                best = at;
            }
            at = at + 1;
        }
        best
    }

    /// Whether `host` is being turned away at `now`.
    pub fn refuses(&self, host: Host, now: u64) -> (answer: bool)
        requires
            self.wf(),
        ensures
            answer == turned_away(self@, host, now),
            host.loopback() ==> !answer,
    {
        match self.find(host) {
            Some(at) => self.held[at].1 > now,
            None => false,
        }
    }

    /// Drops every refusal that is over.
    pub fn forget_expired(&mut self, now: u64)
        requires
            old(self).wf(),
        ensures
            final(self).wf(),
            final(self)@ == running_at(old(self)@, now),
    {
        let ghost before = self.held@;
        let mut kept: Vec<(Host, u64)> = Vec::new();
        let mut at: usize = 0;
        proof {
            assert(before.take(0) =~= Seq::<(Host, u64)>::empty());
            assert(kept@ =~= before.take(0).filter(|entry: (Host, u64)| entry.1 > now));
        }
        while at < self.held.len()
            invariant
                at <= self.held.len(),
                self.held@ == before,
                before.len() <= MAX_REFUSED,
                forall|i: int| 0 <= i < before.len() ==> !(#[trigger] before[i]).0.loopback(),
                forall|i: int| 0 <= i < kept@.len() ==> !(#[trigger] kept@[i]).0.loopback(),
                kept@ == before.take(at as int).filter(|entry: (Host, u64)| entry.1 > now),
                kept@.len() <= at,
            decreases self.held.len() - at,
        {
            let ghost running = |entry: (Host, u64)| entry.1 > now;
            let entry = self.held[at];
            proof {
                let shorter = before.take(at as int);
                let longer = before.take(at + 1);
                assert(longer =~= shorter.push(entry));
                assert(longer.drop_last() =~= shorter);
                reveal(Seq::filter);
                assert(longer.filter(running) =~= if running(entry) {
                    shorter.filter(running).push(entry)
                } else {
                    shorter.filter(running)
                });
            }
            if entry.1 > now {
                kept.push(entry);
            }
            at = at + 1;
        }
        proof {
            assert(before.take(at as int) =~= before);
            kept_list_is_the_running_table(before, now);
            assert(table_of(kept@) =~= running_at(old(self)@, now));
        }
        self.held = kept;
    }

    /// Hosts held, whether or not their refusal is over.
    pub fn len(&self) -> (count: usize)
        requires
            self.wf(),
        ensures
            count == self@.dom().len(),
            count <= MAX_REFUSED,
    {
        proof {
            table_is_as_long_as_the_list(self.held@);
        }
        self.held.len()
    }

    pub fn is_empty(&self) -> (empty: bool)
        requires
            self.wf(),
        ensures
            empty == (self@ == Map::<Host, u64>::empty()),
    {
        proof {
            if self.held@.len() == 0 {
                assert(self@ =~= Map::<Host, u64>::empty());
            } else {
                entry_is_in_the_table(self.held@, 0);
            }
        }
        self.held.len() == 0
    }
}

impl Default for Refusals {
    fn default() -> (refusals: Refusals)
        ensures
            refusals.wf(),
            refusals@ == Map::<Host, u64>::empty(),
    {
        Refusals::new()
    }
}

proof fn same_hosts_one_moved(held: Seq<(Host, u64)>, at: int, until: u64)
    requires
        hosts_of(held).no_duplicates(),
        0 <= at < held.len(),
    ensures
        hosts_of(held.update(at, (held[at].0, until))) == hosts_of(held),
        table_of(held.update(at, (held[at].0, until))) == table_of(held).insert(held[at].0, until),
{
    let moved = held.update(at, (held[at].0, until));
    assert(hosts_of(moved) =~= hosts_of(held));
    assert forall|host: Host| #[trigger] table_of(moved).dom().contains(host) implies table_of(moved)[host]
        == table_of(held).insert(held[at].0, until)[host] by {
        let i = table_entry_is_held(moved, host);
        entry_is_in_the_table(held, i);
        if i != at && host == held[at].0 {
            assert(hosts_of(held)[i] == hosts_of(held)[at]);
        }
    }
    entry_is_in_the_table(held, at);
    assert(table_of(moved) =~= table_of(held).insert(held[at].0, until));
}

proof fn removed_from_the_list(held: Seq<(Host, u64)>, at: int)
    requires
        hosts_of(held).no_duplicates(),
        0 <= at < held.len(),
    ensures
        hosts_of(held.remove(at)).no_duplicates(),
        table_of(held.remove(at)) == table_of(held).remove(held[at].0),
{
    let rest = held.remove(at);
    let before = |i: int| if i < at { i } else { i + 1 };
    assert forall|i: int| 0 <= i < rest.len() implies #[trigger] rest[i] == held[before(i)] by {}
    assert forall|i: int, j: int| 0 <= i < j < rest.len() implies hosts_of(rest)[i] != hosts_of(rest)[j] by {
        assert(hosts_of(held)[before(i)] != hosts_of(held)[before(j)]);
    }
    assert forall|host: Host| #[trigger] table_of(held).remove(held[at].0).dom().contains(host) implies table_of(rest).dom().contains(host)
        && table_of(rest)[host] == table_of(held)[host] by {
        let i = table_entry_is_held(held, host);
        let j = if i < at { i } else { i - 1 };
        assert(rest[j] == held[i]);
        entry_is_in_the_table(rest, j);
    }
    assert forall|host: Host| #[trigger] table_of(rest).dom().contains(host) implies table_of(held).remove(held[at].0).dom().contains(host) by {
        let j = table_entry_is_held(rest, host);
        entry_is_in_the_table(held, before(j));
        if host == held[at].0 {
            assert(hosts_of(held)[before(j)] == hosts_of(held)[at]);
        }
    }
    assert(table_of(rest) =~= table_of(held).remove(held[at].0));
}

proof fn pushed_onto_the_list(held: Seq<(Host, u64)>, host: Host, until: u64)
    requires
        hosts_of(held).no_duplicates(),
        !table_of(held).dom().contains(host),
    ensures
        hosts_of(held.push((host, until))).no_duplicates(),
        table_of(held.push((host, until))) == table_of(held).insert(host, until),
{
    let longer = held.push((host, until));
    assert(hosts_of(longer) =~= hosts_of(held).push(host));
    assert forall|i: int, j: int| 0 <= i < j < longer.len() implies hosts_of(longer)[i] != hosts_of(longer)[j] by {
        if j == held.len() {
            assert(hosts_of(held).contains(hosts_of(held)[i]));
        }
    }
    entry_is_in_the_table(longer, held.len() as int);
    assert forall|other: Host| #[trigger] table_of(held).dom().contains(other) implies table_of(longer).dom().contains(other)
        && table_of(longer)[other] == table_of(held)[other] by {
        let i = table_entry_is_held(held, other);
        assert(longer[i] == held[i]);
        entry_is_in_the_table(longer, i);
    }
    assert forall|other: Host| #[trigger] table_of(longer).dom().contains(other) && other != host implies table_of(held).dom().contains(other) by {
        let i = table_entry_is_held(longer, other);
        entry_is_in_the_table(held, i);
    }
    assert(table_of(longer) =~= table_of(held).insert(host, until));
}

proof fn kept_list_is_the_running_table(held: Seq<(Host, u64)>, now: u64)
    requires
        hosts_of(held).no_duplicates(),
    ensures
        hosts_of(held.filter(|entry: (Host, u64)| entry.1 > now)).no_duplicates(),
        table_of(held.filter(|entry: (Host, u64)| entry.1 > now)) == running_at(table_of(held), now),
    decreases held.len(),
{
    let running = |entry: (Host, u64)| entry.1 > now;
    let kept = held.filter(running);
    reveal(Seq::filter);
    if held.len() == 0 {
        assert(table_of(kept) =~= running_at(table_of(held), now));
    } else {
        let rest = held.drop_last();
        let last = held.last();
        assert(hosts_of(rest) =~= hosts_of(held).drop_last());
        kept_list_is_the_running_table(rest, now);
        assert(held =~= rest.push(last));
        assert(!table_of(rest).dom().contains(last.0)) by {
            if table_of(rest).dom().contains(last.0) {
                let i = table_entry_is_held(rest, last.0);
                assert(hosts_of(held)[i] == hosts_of(held)[held.len() - 1]);
            }
        }
        pushed_onto_the_list(rest, last.0, last.1);
        if running(last) {
            assert(kept == rest.filter(running).push(last));
            pushed_onto_the_list(rest.filter(running), last.0, last.1);
        } else {
            assert(kept == rest.filter(running));
        }
        assert(table_of(kept) =~= running_at(table_of(held), now));
    }
}

/// A refusal written at `now` turns its host away for [`REFUSAL_SECONDS`] from
/// then, and at no second after, whatever the table already held.
pub proof fn a_refusal_lasts_its_time(
    table: Map<Host, u64>,
    host: Host,
    now: u64,
    given_up: Option<Host>,
    at: u64,
)
    ensures
        turned_away(refused_giving_up(table, host, now, given_up), host, at) <==> at
            < now.saturating_add(REFUSAL_SECONDS),
{
}

/// Refusing one host leaves every other refusal that is still running as it
/// was, but for the one entry given up for room.
pub proof fn refusing_one_costs_no_other(
    table: Map<Host, u64>,
    host: Host,
    now: u64,
    given_up: Option<Host>,
    other: Host,
    at: u64,
)
    requires
        other != host,
        given_up != Some(other),
        now <= at,
    ensures
        turned_away(refused_giving_up(table, host, now, given_up), other, at) <==> turned_away(
            table,
            other,
            at,
        ),
{
}

/// Dropping what is over changes the answer for nobody, at that second or at
/// any later one: the sweep and the question agree about the instant a
/// deadline falls on.
pub proof fn a_sweep_changes_no_answer(table: Map<Host, u64>, host: Host, now: u64, at: u64)
    requires
        now <= at,
    ensures
        turned_away(running_at(table, now), host, at) <==> turned_away(table, host, at),
        running_at(table, now).dom().contains(host) <==> turned_away(table, host, now),
{
}

/// A host the table still holds is written again without any entry being
/// given up, however full the table is.
pub proof fn a_host_already_held_gives_up_nobody(table: Map<Host, u64>, host: Host, now: u64)
    requires
        turned_away(table, host, now),
    ensures
        !has_to_give_up(table, host, now),
{
}

/// A host turned away stays away for ten minutes and no longer, whoever else
/// has been turned away in between; this machine never is.
pub proof fn a_host_is_turned_away_for_ten_minutes(
    refusals: &mut Refusals,
    host: Host,
    now: u64,
    at: u64,
    refused: bool,
)
    requires
        call_ensures(Refusals::refuse, (refusals, host, now), ()),
        call_ensures(Refusals::refuses, (&*final(refusals), host, at), refused),
        now + 600 <= u64::MAX,
    ensures
        !(host matches Host::V4(127, _, _, _)) && host != Host::V6(1) ==> (refused <==> at < now
            + 600),
        (host matches Host::V4(127, _, _, _)) || host == Host::V6(1) ==> !refused
            && final(refusals)@ == old(refusals)@,
{
}

/// Turning one host away lets another back in early only where a thousand and
/// twenty-four are already being turned away, and then it is one that had the
/// least time left.
pub proof fn turning_one_away_lets_in_only_the_nearest_its_end(
    refusals: &mut Refusals,
    host: Host,
    now: u64,
    other: Host,
)
    requires
        call_ensures(Refusals::refuse, (refusals, host, now), ()),
        other != host,
        old(refusals)@.contains_key(other),
        old(refusals)@[other] > now,
    ensures
        final(refusals)@.contains_key(other) ==> final(refusals)@[other] == old(refusals)@[other],
        !final(refusals)@.contains_key(other) ==> running_at(old(refusals)@, now).dom().len()
            >= 1_024 && forall|third: Host| #[trigger]
            old(refusals)@.contains_key(third) && old(refusals)@[third] > now
                ==> old(refusals)@[other] <= old(refusals)@[third],
        forall|third: Host|
            third != host && third != other && old(refusals)@.contains_key(third)
                && old(refusals)@[third] > now && !final(refusals)@.contains_key(other)
                ==> #[trigger] final(refusals)@.contains_key(third),
{
    let running = running_at(old(refusals)@, now);
    if !host.loopback() && has_to_give_up(old(refusals)@, host, now) {
        let first = choose|first: Host| #[trigger]
            forgotten_first(running, first) && final(refusals)@ == refused_giving_up(
                old(refusals)@,
                host,
                now,
                Some(first),
            );
        assert(running.dom().contains(other));
        if !final(refusals)@.contains_key(other) {
            assert(other == first);
            assert forall|third: Host| #[trigger]
                old(refusals)@.contains_key(third) && old(refusals)@[third] > now implies
                old(refusals)@[other] <= old(refusals)@[third] by {
                assert(running.dom().contains(third));
            }
        }
    }
}

/// A host is turned away exactly while a refusal of it has time left to run.
pub proof fn a_refusal_ends_when_its_time_comes(
    refusals: &Refusals,
    host: Host,
    now: u64,
    refused: bool,
)
    requires
        call_ensures(Refusals::refuses, (refusals, host, now), refused),
    ensures
        refused <==> refusals@.contains_key(host) && now < refusals@[host],
{
}

/// A sweep forgets what has run out and nothing else.
pub proof fn a_sweep_forgets_what_has_run_out(refusals: &mut Refusals, now: u64, host: Host)
    requires
        call_ensures(Refusals::forget_expired, (refusals, now), ()),
    ensures
        final(refusals)@.contains_key(host) <==> old(refusals)@.contains_key(host) && now
            < old(refusals)@[host],
        final(refusals)@.contains_key(host) ==> final(refusals)@[host] == old(refusals)@[host],
{
}

/// Anybody can be turned away but this machine.
pub proof fn anybody_but_this_machine_can_be_turned_away(host: Host, answer: bool)
    requires
        call_ensures(can_be_refused, (host,), answer),
    ensures
        !answer <==> (host matches Host::V4(127, _, _, _)) || host == Host::V6(1),
{
}

/// A table of refusals starts empty and counts the hosts in it.
pub proof fn refusals_are_counted_by_host(
    refusals: &mut Refusals,
    host: Host,
    now: u64,
    count: usize,
    empty: bool,
)
    requires
        call_ensures(Refusals::new, (), *old(refusals)),
        call_ensures(Refusals::refuse, (refusals, host, now), ()),
        call_ensures(Refusals::len, (&*final(refusals),), count),
        call_ensures(Refusals::is_empty, (&*final(refusals),), empty),
    ensures
        !(host matches Host::V4(127, _, _, _)) && host != Host::V6(1) ==> count == 1 && !empty,
        (host matches Host::V4(127, _, _, _)) || host == Host::V6(1) ==> count == 0 && empty,
{
    let none = Map::<Host, u64>::empty();
    let running = running_at(none, now);
    assert(running =~= none);
    assert(running.dom() =~= Set::<Host>::empty());
    if !host.loopback() {
        let after = final(refusals)@;
        assert(after.dom() =~= set![host]);
        assert(after.contains_key(host));
    }
}

} // verus!
