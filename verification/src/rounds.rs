//! What a node does once a second, and at the door.

use vstd::prelude::*;

use crate::address::{Address, Host};
use crate::filling::PeerId;
use crate::peers::{dialled_in, spoken_for, welcome, Peer, Peers, MAX_PEERS, TARGET_PEERS};
use crate::probation::{Owed, Stranded};
use crate::refusal::{turned_away, Refusals};

verus! {

/// Nanoseconds a round may have spent dialling before it opens nothing more.
pub const DIAL_BUDGET: u64 = 3_000_000_000;

/// Seconds between two lookups of the names a node starts from.
pub const NAME_LOOKUP_PERIOD: u64 = 30;

/// Seconds between two rounds that mean the machine was not running.
pub const AWAY_GAP: u64 = 30;

/// Whether the gap between two rounds of maintenance means the machine was not
/// running, or not on the network, while it passed.
///
/// The clock going backwards counts as away too. It says the same thing: what
/// this node believes about the last few minutes is not to be trusted.
pub fn was_away(previous: u64, now: u64) -> (away: bool)
    ensures
        away == (now < previous || now - previous >= AWAY_GAP),
{
    now < previous || now.saturating_sub(previous) >= AWAY_GAP
}

/// Whether a node looks up the names it starts from, at `now`.
pub open spec fn looks_up(has_seeds: bool, last: u64, now: u64) -> bool {
    !has_seeds && !(last > 0 && now.saturating_sub(last) < NAME_LOOKUP_PERIOD)
}

/// Whether to turn the names this node starts from into addresses it can dial,
/// marking when it last did.
///
/// Only while the book holds no seed at all: a node whose machine could not
/// resolve anything at the moment it started has nothing to dial and no way to
/// learn of anybody. A lookup can block, so it is spaced out rather than tried
/// every round.
pub fn look_up_seed_names(has_seeds: bool, looked_up_at: &mut u64, now: u64) -> (look: bool)
    ensures
        look == looks_up(has_seeds, *old(looked_up_at), now),
        *final(looked_up_at) == if look {
            now
        } else {
            *old(looked_up_at)
        },
{
    if has_seeds {
        return false;
    }
    let last: u64 = *looked_up_at;
    if last > 0 && now.saturating_sub(last) < NAME_LOOKUP_PERIOD {
        return false;
    }
    *looked_up_at = now;
    true
}

/// Whether the address book is worth writing down: it has changed since it was
/// last written. A round in which no address went in or out would write the
/// same bytes over the same bytes, and that is most rounds of most nodes.
pub fn save_book(written_at: u64, changes: u64) -> (write: bool)
    ensures
        write == (written_at != changes),
{
    written_at != changes
}

/// Takes what came of writing the book: `refusal` in the words of the disk.
///
/// Only a write that got through moves the mark. Otherwise the next round
/// tries again, which is the whole of what a node can do about a disk that
/// refused.
pub fn book_saved(
    written_at: &mut u64,
    unsaved: &mut Option<String>,
    changes: u64,
    refusal: Option<String>,
)
    ensures
        *final(unsaved) == refusal,
        *final(written_at) == if refusal is None {
            changes
        } else {
            *old(written_at)
        },
{
    if refusal.is_none() {
        *written_at = changes;
    }
    *unsaved = refusal;
}

/// What becomes of a visitor.
#[derive(Clone, Copy, Debug, PartialEq, Eq, Structural)]
pub enum Admitted {
    TakenIn,
    TurnedAway,
    /// The node has stopped, and the door with it.
    Stopped,
}

/// What becomes of a visitor from `host`.
pub open spec fn admission(
    running: bool,
    peers: Seq<(PeerId, Peer)>,
    refusals: Map<Host, u64>,
    host: Host,
    now: u64,
) -> Admitted {
    if !running {
        Admitted::Stopped
    } else if turned_away(refusals, host, now) || !(spoken_for(peers) < MAX_PEERS && welcome(
        peers,
        Some(host),
    )) {
        Admitted::TurnedAway
    } else {
        Admitted::TakenIn
    }
}

/// Whether a visitor from `host` is taken in.
///
/// The refusals are the ceiling, the per address share, and peers still turned
/// away for something they did earlier.
pub fn greet_visitor(running: bool, peers: &Peers, refusals: &Refusals, host: Host, now: u64) -> (admitted: Admitted)
    requires
        refusals.wf(),
    ensures
        admitted == admission(running, peers@, refusals@, host, now),
{
    if !running {
        return Admitted::Stopped;
    }
    if refusals.refuses(host, now) || !peers.has_room_to_accept(Some(host)) {
        return Admitted::TurnedAway;
    }
    Admitted::TakenIn
}

/// Why there was no visitor.
#[derive(Clone, Copy, Debug, PartialEq, Eq, Structural)]
pub enum NoVisitor {
    WouldBlock,
    Interrupted,
    Refused,
}

/// What the door does about it.
#[derive(Clone, Copy, Debug, PartialEq, Eq, Structural)]
pub enum AtTheDoor {
    /// Wait a moment and ask again.
    Wait,
    /// Ask again at once.
    AskAgain,
    /// Count what it was refused with, wait a moment and ask again.
    CountAndWait,
}

/// What to do when nobody came in.
///
/// Never to stop listening. What refuses an accept is almost always the
/// machine being out of something, which is a fact about this moment and
/// clears the instant somebody hangs up.
pub fn nobody_came_in(polling: bool, because: NoVisitor) -> (next: AtTheDoor)
    ensures
        next == match because {
            NoVisitor::WouldBlock if polling => AtTheDoor::Wait,
            NoVisitor::Interrupted => AtTheDoor::AskAgain,
            _ => AtTheDoor::CountAndWait,
        },
{
    match because {
        NoVisitor::WouldBlock => if polling {
            AtTheDoor::Wait
        } else {
            AtTheDoor::CountAndWait
        },
        NoVisitor::Interrupted => AtTheDoor::AskAgain,
        NoVisitor::Refused => AtTheDoor::CountAndWait,
    }
}

/// Addresses worth adding to the book: those of a list that are not this
/// node's own.
pub open spec fn not_own(addresses: Seq<Address>, own: Address) -> Seq<Address>
    decreases addresses.len(),
{
    if addresses.len() == 0 {
        Seq::empty()
    } else if addresses.last() == own {
        not_own(addresses.drop_last(), own)
    } else {
        not_own(addresses.drop_last(), own).push(addresses.last())
    }
}

/// The addresses of a list worth remembering.
pub fn remember(addresses: &Vec<Address>, own: Address) -> (worth_it: Vec<Address>)
    ensures
        worth_it@ == not_own(addresses@, own),
{
    let mut worth_it: Vec<Address> = Vec::new();
    let mut at: usize = 0;
    while at < addresses.len()
        invariant
            at <= addresses@.len(),
            worth_it@ == not_own(addresses@.take(at as int), own),
        decreases addresses.len() - at,
    {
        assert(addresses@.take(at + 1).drop_last() =~= addresses@.take(at as int));
        if addresses[at] != own {
            worth_it.push(addresses[at]);
        }
        at = at + 1;
    }
    assert(addresses@.take(at as int) =~= addresses@);
    worth_it
}

/// The addresses of a list that are neither this node's own nor connected.
pub open spec fn candidates(ready: Seq<Address>, own: Address, connected: Seq<Address>) -> Seq<Address>
    decreases ready.len(),
{
    if ready.len() == 0 {
        Seq::empty()
    } else {
        let before = candidates(ready.drop_last(), own, connected);
        if ready.last() == own || connected.contains(ready.last()) {
            before
        } else {
            before.push(ready.last())
        }
    }
}

/// Whether an address may be dialled: it is not turned away, and there is room
/// for it.
pub open spec fn may_be_dialled(peers: &Peers, refusals: &Refusals, address: Address, now: u64) -> bool {
    !turned_away(refusals@, address.host, now) && welcome(peers@, Some(address.host))
}

/// Dialling out, address by address.
///
/// What is bounded is the connections opened and not the addresses looked at:
/// an address skipped, for a refusal or for no room, must not be a dial that
/// simply does not happen.
#[derive(Debug)]
pub struct Dialling {
    pub candidates: Vec<Address>,
    pub at: usize,
    pub wanted: usize,
    pub opened: usize,
}

impl Dialling {
    pub open spec fn wf(&self) -> bool {
        self.at <= self.candidates@.len() && self.opened <= self.wanted
    }

    /// A round of dialling, out of the addresses whose turn it is, in the
    /// order they are to be tried. As many as this node is short of.
    ///
    /// Only the connections this node opened count. One somebody else opened
    /// does not tell this node anything about the network: the stranger chose
    /// it.
    pub fn dial_from_book(peers: &Peers, ready: &Vec<Address>, own: Address) -> (dialling: Dialling)
        ensures
            dialling.wf(),
            dialling.at == 0,
            dialling.opened == 0,
            dialling.wanted == if dialled_in(peers@) < TARGET_PEERS {
                TARGET_PEERS - dialled_in(peers@)
            } else {
                0
            },
            dialling.wanted > 0 ==> exists|connected: Seq<Address>|
                {
                    &&& forall|address: Address| #[trigger]
                        connected.contains(address) <==> exists|i: int|
                            0 <= i < peers@.len() && ((#[trigger] peers@[i]).1.advertised == Some(
                                address,
                            ) || peers@[i].1.dialled_to == Some(address))
                    &&& dialling.candidates@ == #[trigger] candidates(ready@, own, connected)
                },
            dialling.wanted == 0 ==> dialling.candidates@.len() == 0,
    {
        let wanted: usize = TARGET_PEERS.saturating_sub(peers.dialled());
        let mut worth_it: Vec<Address> = Vec::new();
        if wanted == 0 {
            return Dialling { candidates: worth_it, at: 0, wanted, opened: 0 };
        }
        let connected = peers.connected();
        let mut at: usize = 0;
        while at < ready.len()
            invariant
                at <= ready@.len(),
                worth_it@ == candidates(ready@.take(at as int), own, connected@),
            decreases ready.len() - at,
        {
            assert(ready@.take(at + 1).drop_last() =~= ready@.take(at as int));
            assert(ready@.take(at + 1).last() == ready@[at as int]);
            if ready[at] != own && !is_among(&connected, ready[at]) {
                worth_it.push(ready[at]);
            }
            at = at + 1;
        }
        assert(ready@.take(at as int) =~= ready@);
        Dialling { candidates: worth_it, at: 0, wanted, opened: 0 }
    }

    /// Whether the round is over: enough opened, the node stopped, or too long
    /// spent. The last is asked before a dial rather than after, so a round
    /// always opens at least one connection however slow the last one was.
    pub open spec fn is_over(&self, running: bool, spent: u64) -> bool {
        self.opened >= self.wanted || !running || spent >= DIAL_BUDGET
    }

    /// The next address to dial, with `spent` the nanoseconds this round has
    /// taken; `None` once the round is over.
    pub fn next(&mut self, running: bool, spent: u64, peers: &Peers, refusals: &Refusals, now: u64) -> (next:
        Option<Address>)
        requires
            old(self).wf(),
            refusals.wf(),
        ensures
            final(self).wf(),
            final(self).candidates == old(self).candidates,
            final(self).wanted == old(self).wanted,
            final(self).opened == old(self).opened,
            match next {
                Some(address) => {
                    &&& !old(self).is_over(running, spent)
                    &&& old(self).at < final(self).at
                    &&& address == old(self).candidates@[final(self).at - 1]
                    &&& may_be_dialled(peers, refusals, address, now)
                    &&& forall|i: int|
                        old(self).at <= i < final(self).at - 1 ==> !may_be_dialled(
                            peers,
                            refusals,
                            #[trigger] old(self).candidates@[i],
                            now,
                        )
                },
                None => old(self).is_over(running, spent) || forall|i: int|
                    old(self).at <= i < old(self).candidates@.len() ==> !may_be_dialled(
                        peers,
                        refusals,
                        #[trigger] old(self).candidates@[i],
                        now,
                    ),
            },
    {
        if self.opened >= self.wanted || !running || spent >= DIAL_BUDGET {
            return None;
        }
        let ghost before = self.at;
        while self.at < self.candidates.len()
            invariant
                self.wf(),
                refusals.wf(),
                self.candidates == old(self).candidates,
                self.wanted == old(self).wanted,
                self.opened == old(self).opened,
                before == old(self).at,
                before <= self.at,
                !old(self).is_over(running, spent),
                forall|i: int|
                    before <= i < self.at ==> !may_be_dialled(
                        peers,
                        refusals,
                        #[trigger] self.candidates@[i],
                        now,
                    ),
            decreases self.candidates.len() - self.at,
        {
            let address: Address = self.candidates[self.at];
            self.at = self.at + 1;
            if !refusals.refuses(address.host, now) && peers.has_room_for(Some(address.host)) {
                return Some(address);
            }
        }
        None
    }

    /// Takes what came of a dial: whether a connection was opened. One that
    /// was not has a miss counted against the address.
    pub fn dialled(&mut self, opened: bool)
        requires
            old(self).wf(),
            old(self).opened < old(self).wanted,
        ensures
            final(self).wf(),
            final(self).candidates == old(self).candidates,
            final(self).at == old(self).at,
            final(self).wanted == old(self).wanted,
            final(self).opened == old(self).opened + if opened {
                1int
            } else {
                0int
            },
    {
        if opened {
            self.opened = self.opened + 1;
        }
    }
}

fn is_among(addresses: &Vec<Address>, address: Address) -> (among: bool)
    ensures
        among == addresses@.contains(address),
{
    let mut at: usize = 0;
    while at < addresses.len()
        invariant
            at <= addresses@.len(),
            forall|i: int| 0 <= i < at ==> addresses@[i] != address,
        decreases addresses.len() - at,
    {
        if addresses[at] == address {
            return true;
        }
        at = at + 1;
    }
    false
}

/// What one round of what a node handed a ledger owes itself comes to.
///
/// `true` when everybody is asked for the blocks above the ledger: they are
/// not the supplier's to give or withhold. A node that has given up says so,
/// keeping the first account of it, and stops: carrying on would mean going on
/// answering off a ledger nothing is ever going to stand behind.
pub fn keep_the_undertaking(owed: Option<Owed>, stranded: &mut Option<Stranded>, running: &mut bool) -> (ask_everybody:
    bool)
    ensures
        ask_everybody == (owed == Some(Owed::AskAgain)),
        match owed {
            Some(Owed::GivenUp(found)) => !*final(running) && *final(stranded) == Some(
                match *old(stranded) {
                    Some(first) => first,
                    None => found,
                },
            ),
            _ => *final(running) == *old(running) && *final(stranded) == *old(stranded),
        },
{
    match owed {
        None | Some(Owed::Waiting) => false,
        Some(Owed::AskAgain) => true,
        Some(Owed::GivenUp(found)) => {
            if stranded.is_none() {
                *stranded = Some(found);
            }
            *running = false;
            false
        },
    }
}

/// One thing a round of upkeep does.
#[derive(Clone, Copy, Debug, PartialEq, Eq, Structural)]
pub enum Upkeep {
    /// Hold nothing against any address: the machine was away, and every one
    /// of them failed while it was.
    ForgiveAll,
    /// Ask everybody for addresses. A peer that joined after this node
    /// introduced itself is only ever learned about by asking a second time.
    AskForAddresses,
    LookUpNames,
    Dial,
    SaveBook,
    CollectThreads,
    TrimHistory,
    AskForHeaders,
    KeepTheUndertaking,
    AskAgainForTheJoin,
    Choose,
    ForgetRefusals,
    ForgetWindows,
    /// Wait for the next round.
    Rest,
}

impl Upkeep {
    pub open spec fn place(self) -> int {
        match self {
            Upkeep::ForgiveAll => 0,
            Upkeep::AskForAddresses => 1,
            Upkeep::LookUpNames => 2,
            Upkeep::Dial => 3,
            Upkeep::SaveBook => 4,
            Upkeep::CollectThreads => 5,
            Upkeep::TrimHistory => 6,
            Upkeep::AskForHeaders => 7,
            Upkeep::KeepTheUndertaking => 8,
            Upkeep::AskAgainForTheJoin => 9,
            Upkeep::Choose => 10,
            Upkeep::ForgetRefusals => 11,
            Upkeep::ForgetWindows => 12,
            Upkeep::Rest => 13,
        }
    }

    /// The first thing of a round at `now`, marking when it ran.
    pub fn begin(last_round: &mut u64, now: u64) -> (first: Upkeep)
        ensures
            *final(last_round) == now,
            first == if now < *old(last_round) || now - *old(last_round) >= AWAY_GAP {
                Upkeep::ForgiveAll
            } else {
                Upkeep::AskForAddresses
            },
    {
        let away: bool = was_away(*last_round, now);
        *last_round = now;
        if away {
            Upkeep::ForgiveAll
        } else {
            Upkeep::AskForAddresses
        }
    }

    /// The thing after this one. Every round does all of them, in order, and
    /// then rests.
    pub fn next(self) -> (next: Upkeep)
        ensures
            self != Upkeep::Rest ==> next.place() == self.place() + 1,
            self == Upkeep::Rest ==> next == Upkeep::Rest,
    {
        match self {
            Upkeep::ForgiveAll => Upkeep::AskForAddresses,
            Upkeep::AskForAddresses => Upkeep::LookUpNames,
            Upkeep::LookUpNames => Upkeep::Dial,
            Upkeep::Dial => Upkeep::SaveBook,
            Upkeep::SaveBook => Upkeep::CollectThreads,
            Upkeep::CollectThreads => Upkeep::TrimHistory,
            Upkeep::TrimHistory => Upkeep::AskForHeaders,
            Upkeep::AskForHeaders => Upkeep::KeepTheUndertaking,
            Upkeep::KeepTheUndertaking => Upkeep::AskAgainForTheJoin,
            Upkeep::AskAgainForTheJoin => Upkeep::Choose,
            Upkeep::Choose => Upkeep::ForgetRefusals,
            Upkeep::ForgetRefusals => Upkeep::ForgetWindows,
            Upkeep::ForgetWindows => Upkeep::Rest,
            Upkeep::Rest => Upkeep::Rest,
        }
    }
}

/// A node was away when half a minute or more has gone by since its last
/// round, or when the clock has gone back.
pub proof fn half_a_minute_is_away(previous: u64, now: u64, away: bool)
    requires
        call_ensures(was_away, (previous, now), away),
    ensures
        previous <= now < previous + 30 ==> !away,
        previous + 30 <= now ==> away,
        now < previous ==> away,
{
}

/// Names are looked up only by a node given no seeds, at once the first time
/// and half a minute apart after that; what is looked up is written down as
/// looked up now.
pub proof fn names_are_looked_up_half_a_minute_apart(
    has_seeds: bool,
    looked_up_at: &mut u64,
    now: u64,
    look: bool,
)
    requires
        call_ensures(look_up_seed_names, (has_seeds, looked_up_at, now), look),
    ensures
        has_seeds ==> !look,
        !has_seeds && *old(looked_up_at) == 0 ==> look,
        !has_seeds && *old(looked_up_at) + 30 <= now ==> look,
        0 < *old(looked_up_at) && now < *old(looked_up_at) + 30 ==> !look,
        look ==> *final(looked_up_at) == now,
        !look ==> *final(looked_up_at) == *old(looked_up_at),
{
}

/// A book is written when it has changed since it was written, and one written
/// without a refusal is not written again until it changes. One that was
/// refused is tried again, and the refusal kept.
pub proof fn a_book_is_written_until_it_is_saved(
    written_at: &mut u64,
    unsaved: &mut Option<String>,
    changes: u64,
    refusal: Option<String>,
    before: bool,
    again: bool,
)
    requires
        call_ensures(save_book, (*old(written_at), changes), before),
        call_ensures(book_saved, (written_at, unsaved, changes, refusal), ()),
        call_ensures(save_book, (*final(written_at), changes), again),
    ensures
        refusal is None ==> !again,
        refusal is Some ==> again == before,
        *final(unsaved) == refusal,
        *old(written_at) == changes ==> !before,
        *old(written_at) != changes ==> before,
{
}

/// A visitor is taken in by a running node that is not turning its host away
/// and has room for one from outside; the others are turned away, and nobody
/// is once the node has stopped.
pub proof fn a_visitor_is_taken_in_where_there_is_room(
    running: bool,
    peers: &Peers,
    refusals: &Refusals,
    host: Host,
    now: u64,
    admitted: Admitted,
    room: bool,
    refused: bool,
)
    requires
        call_ensures(greet_visitor, (running, peers, refusals, host, now), admitted),
        call_ensures(Peers::has_room_to_accept, (peers, Some(host)), room),
        call_ensures(Refusals::refuses, (refusals, host, now), refused),
    ensures
        admitted is Stopped <==> !running,
        admitted is TakenIn <==> running && room && !refused,
        admitted is TurnedAway <==> running && (!room || refused),
{
}

/// A door nobody came to is waited at. One interrupted is asked again at once,
/// and anything else that goes wrong at it is counted.
pub proof fn a_door_is_waited_at(polling: bool, because: NoVisitor, next: AtTheDoor)
    requires
        call_ensures(nobody_came_in, (polling, because), next),
    ensures
        next == AtTheDoor::AskAgain <==> because == NoVisitor::Interrupted,
        next == AtTheDoor::Wait <==> polling && because == NoVisitor::WouldBlock,
        next == AtTheDoor::CountAndWait <==> because != NoVisitor::Interrupted && !(polling
            && because == NoVisitor::WouldBlock),
{
}

/// Addresses but for one, in order.
pub open spec fn other_addresses(addresses: Seq<Address>, own: Address) -> Seq<Address> {
    addresses.filter(|address: Address| address != own)
}

proof fn not_own_is_other_addresses(addresses: Seq<Address>, own: Address)
    ensures
        not_own(addresses, own) == other_addresses(addresses, own),
    decreases addresses.len(),
{
    reveal(Seq::filter);
    if addresses.len() > 0 {
        not_own_is_other_addresses(addresses.drop_last(), own);
    }
}

/// Every address heard of is worth remembering but a node's own.
pub proof fn a_node_does_not_remember_itself(
    addresses: &Vec<Address>,
    own: Address,
    worth_it: Vec<Address>,
)
    requires
        call_ensures(remember, (addresses, own), worth_it),
    ensures
        worth_it@ == other_addresses(addresses@, own),
        !worth_it@.contains(own),
{
    not_own_is_other_addresses(addresses@, own);
    none_of_these_is_own(addresses@, own);
}

proof fn none_of_these_is_own(addresses: Seq<Address>, own: Address)
    ensures
        !not_own(addresses, own).contains(own),
    decreases addresses.len(),
{
    if addresses.len() > 0 {
        none_of_these_is_own(addresses.drop_last(), own);
        let before = not_own(addresses.drop_last(), own);
        let after = not_own(addresses, own);
        if after.contains(own) {
            let i = choose|i: int| 0 <= i < after.len() && after[i] == own;
            if i < before.len() {
                assert(before[i] == own);
            }
        }
    }
}

proof fn each_candidate_is_elsewhere(
    ready: Seq<Address>,
    own: Address,
    connected: Seq<Address>,
    address: Address,
)
    ensures
        candidates(ready, own, connected).contains(address) <==> ready.contains(address) && address
            != own && !connected.contains(address),
        candidates(ready, own, connected) == ready.filter(
            |address: Address| address != own && !connected.contains(address),
        ),
    decreases ready.len(),
{
    reveal(Seq::filter);
    if ready.len() > 0 {
        let fewer = ready.drop_last();
        each_candidate_is_elsewhere(fewer, own, connected, address);
        let before = candidates(fewer, own, connected);
        let after = candidates(ready, own, connected);
        if before.contains(address) {
            let i = choose|i: int| 0 <= i < before.len() && before[i] == address;
            assert(after[i] == address);
        }
        if after.contains(address) {
            let i = choose|i: int| 0 <= i < after.len() && after[i] == address;
            if i < before.len() {
                assert(before[i] == address);
            } else {
                assert(ready[ready.len() - 1] == address);
            }
        }
        if fewer.contains(address) {
            let i = choose|i: int| 0 <= i < fewer.len() && fewer[i] == address;
            assert(ready[i] == address);
        }
        if ready.contains(address) {
            let i = choose|i: int| 0 <= i < ready.len() && ready[i] == address;
            if i < fewer.len() {
                assert(fewer[i] == address);
            } else if address != own && !connected.contains(address) {
                assert(after[before.len() as int] == address);
            }
        }
    }
}

/// A round of dialling looks for as many as are short of eight dialled, among
/// those ready that are neither this node nor connected already.
pub proof fn a_round_of_dialling_makes_up_the_shortfall(
    peers: &Peers,
    ready: &Vec<Address>,
    own: Address,
    dialling: Dialling,
    dialled: usize,
    connected: Vec<Address>,
    address: Address,
)
    requires
        call_ensures(Dialling::dial_from_book, (peers, ready, own), dialling),
        call_ensures(Peers::dialled, (peers,), dialled),
        call_ensures(Peers::connected, (peers,), connected),
    ensures
        dialled < 8 ==> dialling.wanted + dialled == 8,
        dialled >= 8 ==> dialling.wanted == 0 && dialling.candidates@.len() == 0,
        dialled < 8 ==> (dialling.candidates@.contains(address) <==> ready@.contains(address)
            && address != own && !connected@.contains(address)),
        dialling.opened == 0 && dialling.at == 0,
{
    if dialled < 8 {
        let held = choose|held: Seq<Address>|
            {
                &&& forall|address: Address| #[trigger]
                    held.contains(address) <==> exists|i: int|
                        0 <= i < peers@.len() && ((#[trigger] peers@[i]).1.advertised == Some(
                            address,
                        ) || peers@[i].1.dialled_to == Some(address))
                &&& dialling.candidates@ == #[trigger] candidates(ready@, own, held)
            };
        each_candidate_is_elsewhere(ready@, own, held, address);
        assert(held.contains(address) <==> connected@.contains(address));
    }
}

/// The next to be dialled is the first candidate not yet passed over that is
/// not being turned away and that there is room for. None is while a round is
/// over: enough have been opened, the node has stopped, or three seconds have
/// gone by.
pub proof fn the_next_dialled_is_the_first_that_may_be(
    dialling: &mut Dialling,
    running: bool,
    spent: u64,
    peers: &Peers,
    refusals: &Refusals,
    now: u64,
    next: Option<Address>,
    i: int,
    refused: bool,
    room: bool,
)
    requires
        call_ensures(Dialling::next, (dialling, running, spent, peers, refusals, now), next),
        old(dialling).at <= i < old(dialling).candidates@.len(),
        call_ensures(
            Refusals::refuses,
            (refusals, old(dialling).candidates@[i].host, now),
            refused,
        ),
        call_ensures(
            Peers::has_room_for,
            (peers, Some(old(dialling).candidates@[i].host)),
            room,
        ),
    ensures
        !running || spent >= 3_000_000_000 || old(dialling).opened >= old(dialling).wanted
            ==> next is None,
        running && spent < 3_000_000_000 && old(dialling).opened < old(dialling).wanted && room
            && !refused ==> next is Some && final(dialling).at <= i + 1,
        next is Some && final(dialling).at == i + 1 ==> room && !refused && next == Some(
            old(dialling).candidates@[i],
        ),
        next is Some ==> old(dialling).at < final(dialling).at,
        final(dialling).candidates == old(dialling).candidates,
        final(dialling).wanted == old(dialling).wanted,
        final(dialling).opened == old(dialling).opened,
{
}

/// A connection opened counts towards what is wanted and one that was not does
/// not.
pub proof fn only_what_opened_counts(dialling: &mut Dialling, opened: bool)
    requires
        call_ensures(Dialling::dialled, (dialling, opened), ()),
    ensures
        opened ==> final(dialling).opened == old(dialling).opened + 1,
        !opened ==> final(dialling).opened == old(dialling).opened,
        final(dialling).at == old(dialling).at,
        final(dialling).wanted == old(dialling).wanted,
{
}

/// A node that gives an undertaking up stops, and what it is said to be
/// stranded by is the first thing that was. Anything else owed leaves it
/// running as it was.
pub proof fn giving_up_stops_the_node(
    owed: Option<Owed>,
    stranded: &mut Option<Stranded>,
    running: &mut bool,
    ask_everybody: bool,
)
    requires
        call_ensures(keep_the_undertaking, (owed, stranded, running), ask_everybody),
    ensures
        owed matches Some(Owed::GivenUp(found)) ==> !*final(running) && (*old(stranded) is None
            ==> *final(stranded) == Some(found)) && !ask_everybody,
        *old(stranded) is Some ==> *final(stranded) == *old(stranded),
        !(owed matches Some(Owed::GivenUp(_))) ==> *final(running) == *old(running)
            && *final(stranded) == *old(stranded),
        owed == Some(Owed::AskAgain) ==> ask_everybody,
        owed is None ==> !ask_everybody,
{
}

/// A round of upkeep forgives everybody only after having been away, and then
/// goes through the rest in one order, each once, before it rests.
pub proof fn upkeep_goes_round_in_order(
    last_round: &mut u64,
    now: u64,
    first: Upkeep,
    step: Upkeep,
    next: Upkeep,
)
    requires
        call_ensures(Upkeep::begin, (last_round, now), first),
        call_ensures(Upkeep::next, (step,), next),
    ensures
        *final(last_round) == now,
        *old(last_round) <= now < *old(last_round) + 30 ==> first is AskForAddresses,
        now < *old(last_round) || *old(last_round) + 30 <= now ==> first is ForgiveAll,
        step is ForgiveAll ==> next is AskForAddresses,
        step is AskForAddresses ==> next is LookUpNames,
        step is LookUpNames ==> next is Dial,
        step is Dial ==> next is SaveBook,
        step is SaveBook ==> next is CollectThreads,
        step is CollectThreads ==> next is TrimHistory,
        step is TrimHistory ==> next is AskForHeaders,
        step is AskForHeaders ==> next is KeepTheUndertaking,
        step is KeepTheUndertaking ==> next is AskAgainForTheJoin,
        step is AskAgainForTheJoin ==> next is Choose,
        step is Choose ==> next is ForgetRefusals,
        step is ForgetRefusals ==> next is ForgetWindows,
        step is ForgetWindows ==> next is Rest,
        step is Rest ==> next is Rest,
{
}

} // verus!
