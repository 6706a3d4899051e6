//! What a node has met that says something about itself.
//!
//! Three counts of the same shape. A block this build cannot read, a showing
//! of work that would not weigh, and a block dated ahead of this machine's
//! clock are each something one stranger can produce for the price of a
//! message. A run of them, from more than one peer, is worth a person's
//! attention. So each is counted, by where the peer says it can be reached
//! rather than by connection, and the rule for when a count is worth saying is
//! kept apart from the counting.

use vstd::prelude::*;
use vstd::string::*;

use crate::address::{Address, Addresses, Host};

verus! {

/// Blocks written under rules this build does not have, before it says out
/// loud that it looks too old for the chain it is on.
pub const UNJUDGED_BLOCKS: u64 = 8;

/// Addresses those blocks have to have arrived from.
pub const UNJUDGED_PEERS: usize = 2;

/// Seconds the first and the last of them have to be apart.
pub const UNJUDGED_STRETCH: u64 = 300;

/// Seconds of meeting none of them before the count starts again.
pub const UNJUDGED_MEMORY: u64 = 3_600;

/// Addresses counted towards [`UNJUDGED_PEERS`] at once.
pub const UNJUDGED_SENDERS: usize = 64;

/// Showings that failed to weigh, saying the same thing each time, before a
/// person is told the chain itself may be the reason.
pub const UNWEIGHED_SHOWINGS: u64 = 3;

/// Addresses those showings have to have come from.
pub const UNWEIGHED_PEERS: usize = 2;

/// Addresses counted towards [`UNWEIGHED_PEERS`] at once.
pub const UNWEIGHED_SENDERS: usize = 64;

/// Blocks refused for being dated ahead of this machine's clock before a
/// person is told the clock is the likely reason.
pub const BEHIND_BLOCKS: u64 = 8;

/// Addresses those blocks have to have arrived from.
pub const BEHIND_PEERS: usize = 2;

/// Addresses counted towards [`BEHIND_PEERS`] at once.
pub const BEHIND_SENDERS: usize = 64;

/// Seconds of refusing none of them before the count starts again.
pub const BEHIND_MEMORY: u64 = 3_600;

/// How one connection counts towards a count of peers: where the peer says it
/// can be reached, or its address with no port while it has named none, so
/// that every connection from it is the one peer.
pub open spec fn counts_as(advertised: Option<Address>, host: Option<Host>) -> Option<Address> {
    match (advertised, host) {
        (Some(address), _) => Some(address),
        (None, Some(host)) => Some(Address::plain(host, 0)),
        (None, None) => None,
    }
}

pub fn sender_of(advertised: Option<Address>, host: Option<Host>) -> (sender: Option<Address>)
    ensures
        sender == counts_as(advertised, host),
{
    match advertised {
        Some(address) => Some(address),
        None => match host {
            Some(host) => Some(Address::new(host, 0)),
            None => None,
        },
    }
}

/// The senders held once one more has been counted, up to a ceiling.
pub open spec fn with_sender(peers: Set<Address>, from: Option<Address>, ceiling: usize) -> Set<Address> {
    match from {
        Some(address) => if peers.len() < ceiling {
            peers.insert(address)
        } else {
            peers
        },
        None => peers,
    }
}

fn count_sender(peers: &mut Addresses, from: Option<Address>, ceiling: usize)
    requires
        old(peers).wf(),
    ensures
        final(peers).wf(),
        final(peers)@ == with_sender(old(peers)@, from, ceiling),
{
    match from {
        Some(address) => {
            if peers.len() < ceiling {
                peers.insert(address);
            }
        },
        None => {},
    }
}

/// Whether a count last added to at `last` starts again at `now`: a silence
/// longer than `memory`, or a clock that stepped back.
pub open spec fn lapses(last: u64, now: u64, memory: u64) -> bool {
    now < last || now - last > memory
}

/// What says this build is too old for the chain it is on.
///
/// Evidence, and nothing a node stops on: the version is a number a stranger
/// can write in a field.
#[derive(Clone, Copy, Debug, PartialEq, Eq, Structural)]
pub struct Unjudged {
    /// The highest block version this node was offered and could not read.
    pub version: u16,
    /// The highest version this build has the rules for.
    pub known: u16,
    /// Blocks it met.
    pub blocks: u64,
    /// Peers they arrived from.
    pub peers: usize,
    /// Seconds between the first of them and the last.
    pub over: u64,
}

/// Blocks written under rules this build does not have, as they add up.
#[derive(Debug)]
pub struct Unreadable {
    /// The highest version met.
    pub version: u16,
    pub blocks: u64,
    /// The peers they arrived from, up to [`UNJUDGED_SENDERS`].
    pub peers: Addresses,
    /// When the first arrived, and when the last did.
    pub first: u64,
    pub last: u64,
}

/// What a count of unreadable blocks holds.
pub struct UnreadableView {
    pub version: u16,
    pub blocks: u64,
    pub peers: Set<Address>,
    pub first: u64,
    pub last: u64,
}

impl View for Unreadable {
    type V = UnreadableView;

    open spec fn view(&self) -> UnreadableView {
        UnreadableView {
            version: self.version,
            blocks: self.blocks,
            peers: self.peers@,
            first: self.first,
            last: self.last,
        }
    }
}

impl UnreadableView {
    pub open spec fn empty() -> UnreadableView {
        UnreadableView { version: 0, blocks: 0, peers: Set::empty(), first: 0, last: 0 }
    }

    /// The count a block met at `now` is added to.
    pub open spec fn standing_at(self, now: u64) -> UnreadableView {
        if lapses(self.last, now, UNJUDGED_MEMORY) {
            UnreadableView::empty()
        } else {
            self
        }
    }

    /// The count once one more block has been met.
    pub open spec fn counting(self, from: Option<Address>, version: u16, now: u64) -> UnreadableView {
        let held = self.standing_at(now);
        UnreadableView {
            version: if version > held.version {
                version
            } else {
                held.version
            },
            blocks: held.blocks.saturating_add(1),
            peers: with_sender(held.peers, from, UNJUDGED_SENDERS),
            first: if held.blocks == 0 {
                now
            } else {
                held.first
            },
            last: now,
        }
    }

    /// The three conditions, every one of them needed.
    pub open spec fn says_too_old(self) -> bool {
        &&& self.blocks >= UNJUDGED_BLOCKS
        &&& self.peers.len() >= UNJUDGED_PEERS
        &&& self.last - self.first >= UNJUDGED_STRETCH
    }
}

impl Unreadable {
    pub open spec fn wf(&self) -> bool {
        self.peers.wf()
    }
}

impl Default for Unreadable {
    fn default() -> (met: Unreadable)
        ensures
            met.wf(),
            met@ == UnreadableView::empty(),
    {
        Unreadable { version: 0, blocks: 0, peers: Addresses::new(), first: 0, last: 0 }
    }
}

/// Counts one block this build could not read, against the address it came
/// from.
///
/// A stretch with none of these in it ends the count. A chain whose rules
/// moved on renews its own evidence every block; what is gained by forgetting
/// is that a stray one a year ago never adds up to a claim about this build.
pub fn count_unreadable(met: &mut Unreadable, from: Option<Address>, version: u16, now: u64)
    requires
        old(met).wf(),
    ensures
        final(met).wf(),
        final(met)@ == old(met)@.counting(from, version, now),
{
    if now < met.last || now - met.last > UNJUDGED_MEMORY {
        *met = Unreadable::default();
    }
    if met.blocks == 0 {
        met.first = now;
    }
    if version > met.version {
        met.version = version;
    }
    met.blocks = met.blocks.saturating_add(1);
    met.last = now;
    count_sender(&mut met.peers, from, UNJUDGED_SENDERS);
}

/// Whether what this node has met adds up to a build too old for its chain,
/// for a build with rules up to version `known`.
///
/// A clock that went backwards leaves nothing of a stretch, so the stretch is
/// what refuses it.
pub fn too_old_for_the_chain(met: &Unreadable, known: u16) -> (said: Option<Unjudged>)
    requires
        met.wf(),
    ensures
        said is Some <==> met@.says_too_old(),
        match said {
            Some(said) => said.version == met.version && said.known == known && said.blocks
                == met.blocks && said.peers == met@.peers.len() && said.over == met.last - met.first,
            None => true,
        },
{
    let peers: usize = met.peers.len();
    if met.blocks < UNJUDGED_BLOCKS || peers < UNJUDGED_PEERS {
        return None;
    }
    let over: u64 = met.last.saturating_sub(met.first);
    if over < UNJUDGED_STRETCH {
        return None;
    }
    Some(Unjudged { version: met.version, known, blocks: met.blocks, peers, over })
}

/// What says this node cannot weigh the chain it is being offered.
///
/// When every showing fails with the same words, the peers are not the thing
/// they have in common: the chain is. Evidence, and nothing a node stops on.
#[derive(Debug)]
pub struct Unweighable {
    /// What the last of them said, in the words of whatever refused it.
    pub because: String,
    /// Showings that failed with these words.
    pub showings: u64,
    /// Peers they came from.
    pub peers: usize,
    /// Seconds between the first of them and the last.
    pub over: u64,
}

/// Showings that would not weigh, as they add up.
#[derive(Debug)]
pub struct Unweighed {
    /// What they said, which has to be the same words each time.
    pub because: String,
    pub showings: u64,
    /// The peers they came from, up to [`UNWEIGHED_SENDERS`].
    pub peers: Addresses,
    /// When the first arrived, and when the last did.
    pub first: u64,
    pub last: u64,
}

/// What a count of showings holds.
pub struct UnweighedView {
    pub because: Seq<char>,
    pub showings: u64,
    pub peers: Set<Address>,
    pub first: u64,
    pub last: u64,
}

impl View for Unweighed {
    type V = UnweighedView;

    open spec fn view(&self) -> UnweighedView {
        UnweighedView {
            because: self.because@,
            showings: self.showings,
            peers: self.peers@,
            first: self.first,
            last: self.last,
        }
    }
}

impl UnweighedView {
    pub open spec fn empty() -> UnweighedView {
        UnweighedView { because: Seq::empty(), showings: 0, peers: Set::empty(), first: 0, last: 0 }
    }

    /// The count a showing refused with `because` at `now` is added to: other
    /// words start it again, and so does a clock that stepped back.
    pub open spec fn standing_at(self, because: Seq<char>, now: u64) -> UnweighedView {
        if self.because != because || now < self.last {
            UnweighedView::empty()
        } else {
            self
        }
    }

    /// The count once one more showing has failed.
    pub open spec fn counting(self, from: Option<Address>, because: Seq<char>, now: u64) -> UnweighedView {
        let held = self.standing_at(because, now);
        UnweighedView {
            because,
            showings: held.showings.saturating_add(1),
            peers: with_sender(held.peers, from, UNWEIGHED_SENDERS),
            first: if held.showings == 0 {
                now
            } else {
                held.first
            },
            last: now,
        }
    }

    pub open spec fn says_unweighable(self) -> bool {
        &&& self.showings >= UNWEIGHED_SHOWINGS
        &&& self.peers.len() >= UNWEIGHED_PEERS
        &&& self.first <= self.last
    }
}

impl Unweighed {
    pub open spec fn wf(&self) -> bool {
        self.peers.wf()
    }
}

impl Default for Unweighed {
    fn default() -> (met: Unweighed)
        ensures
            met.wf(),
            met@ == UnweighedView::empty(),
    {
        Unweighed { because: String::new(), showings: 0, peers: Addresses::new(), first: 0, last: 0 }
    }
}

/// Counts one showing of a chain's work that would not weigh, against the
/// address it came from.
///
/// A different refusal is a different question. Three peers failing in three
/// ways are three peers; three failing in one way are a chain.
pub fn count_unweighed(met: &mut Unweighed, from: Option<Address>, because: &str, now: u64)
    requires
        old(met).wf(),
    ensures
        final(met).wf(),
        final(met)@ == old(met)@.counting(from, because@, now),
{
    let words = because.to_owned();
    let same: bool = met.because == words;
    if !same || now < met.last {
        *met = Unweighed::default();
    }
    if met.showings == 0 {
        met.first = now;
        met.because = words;
    }
    met.showings = met.showings.saturating_add(1);
    met.last = now;
    count_sender(&mut met.peers, from, UNWEIGHED_SENDERS);
}

/// Whether what this node has met adds up to a chain it cannot weigh.
///
/// No stretch of time is asked for: a node asks one claimant at a time and
/// runs out of claimants, and three that arrive quickly may be all there ever
/// are. A clock that went backwards says nothing at all.
pub fn no_showing_checks_out(met: &Unweighed) -> (said: Option<Unweighable>)
    requires
        met.wf(),
    ensures
        said is Some <==> met@.says_unweighable(),
        match said {
            Some(said) => said.because@ == met.because@ && said.showings == met.showings
                && said.peers == met@.peers.len() && said.over == met.last - met.first,
            None => true,
        },
{
    let peers: usize = met.peers.len();
    if met.showings < UNWEIGHED_SHOWINGS || peers < UNWEIGHED_PEERS {
        return None;
    }
    if met.last < met.first {
        return None;
    }
    Some(
        Unweighable {
            because: met.because.clone(),
            showings: met.showings,
            peers,
            over: met.last - met.first,
        },
    )
}

/// What says this machine's clock is behind the network's.
#[derive(Clone, Copy, Debug, PartialEq, Eq, Structural)]
pub struct Behind {
    /// Seconds the furthest refused block stood ahead of this clock.
    pub seconds: u64,
    /// Seconds of drift the rules allow before a block is refused at all.
    pub drift: u64,
    /// Blocks refused for it.
    pub blocks: u64,
    /// Peers they arrived from.
    pub peers: usize,
    /// Set when what was refused was this build's own first block, which no
    /// peer sent and nobody but this machine can have got wrong.
    pub own_first_block: bool,
}

/// Blocks refused for being dated ahead of this machine's clock, as they add
/// up.
#[derive(Debug)]
pub struct OutOfStep {
    /// The furthest ahead of this clock any of them was dated.
    pub ahead: u64,
    pub blocks: u64,
    /// The peers they arrived from, up to [`BEHIND_SENDERS`].
    pub peers: Addresses,
    /// When the last of them arrived.
    pub last: u64,
    /// Set when this node refused the first block of its own network.
    pub own_first_block: bool,
}

/// What a count of blocks from the future holds.
pub struct OutOfStepView {
    pub ahead: u64,
    pub blocks: u64,
    pub peers: Set<Address>,
    pub last: u64,
    pub own_first_block: bool,
}

impl View for OutOfStep {
    type V = OutOfStepView;

    open spec fn view(&self) -> OutOfStepView {
        OutOfStepView {
            ahead: self.ahead,
            blocks: self.blocks,
            peers: self.peers@,
            last: self.last,
            own_first_block: self.own_first_block,
        }
    }
}

impl OutOfStepView {
    pub open spec fn empty() -> OutOfStepView {
        OutOfStepView { ahead: 0, blocks: 0, peers: Set::empty(), last: 0, own_first_block: false }
    }

    /// The count a block refused at `now` is added to. What the first block of
    /// this network said is not unsaid by a silence.
    pub open spec fn standing_at(self, now: u64) -> OutOfStepView {
        if lapses(self.last, now, BEHIND_MEMORY) {
            OutOfStepView { own_first_block: self.own_first_block, ..OutOfStepView::empty() }
        } else {
            self
        }
    }

    /// The count once one more block has been refused.
    pub open spec fn counting(self, from: Option<Address>, ahead: u64, now: u64) -> OutOfStepView {
        let held = self.standing_at(now);
        OutOfStepView {
            ahead: if ahead > held.ahead {
                ahead
            } else {
                held.ahead
            },
            blocks: held.blocks.saturating_add(1),
            peers: with_sender(held.peers, from, BEHIND_SENDERS),
            last: now,
            own_first_block: held.own_first_block,
        }
    }

    /// Either of the two ways to meet it.
    pub open spec fn says_behind(self, still_without_a_chain: bool) -> bool {
        ||| self.own_first_block && still_without_a_chain
        ||| self.blocks >= BEHIND_BLOCKS && self.peers.len() >= BEHIND_PEERS
    }
}

impl OutOfStep {
    pub open spec fn wf(&self) -> bool {
        self.peers.wf()
    }
}

impl Default for OutOfStep {
    fn default() -> (met: OutOfStep)
        ensures
            met.wf(),
            met@ == OutOfStepView::empty(),
    {
        OutOfStep {
            ahead: 0,
            blocks: 0,
            peers: Addresses::new(),
            last: 0,
            own_first_block: false,
        }
    }
}

/// Counts one block refused for standing ahead of this machine's clock.
pub fn count_out_of_step(met: &mut OutOfStep, from: Option<Address>, ahead: u64, now: u64)
    requires
        old(met).wf(),
    ensures
        final(met).wf(),
        final(met)@ == old(met)@.counting(from, ahead, now),
{
    if now < met.last || now - met.last > BEHIND_MEMORY {
        let own_first_block: bool = met.own_first_block;
        *met = OutOfStep::default();
        met.own_first_block = own_first_block;
    }
    if ahead > met.ahead {
        met.ahead = ahead;
    }
    met.blocks = met.blocks.saturating_add(1);
    met.last = now;
    count_sender(&mut met.peers, from, BEHIND_SENDERS);
}

/// Whether what this node has refused adds up to a clock that is behind.
///
/// A run of blocks from several peers is circumstantial. Refusing this build's
/// own first block is not: one is enough, and it is spent the moment the node
/// has a chain, since a clock put right while the node runs lets it take the
/// chain from a peer instead.
pub fn clock_is_behind(met: &OutOfStep, drift: u64, still_without_a_chain: bool) -> (said: Option<
    Behind,
>)
    requires
        met.wf(),
    ensures
        said is Some <==> met@.says_behind(still_without_a_chain),
        match said {
            Some(said) => said.seconds == met.ahead && said.drift == drift && said.blocks
                == met.blocks && said.peers == met@.peers.len() && said.own_first_block == (
            met.own_first_block && still_without_a_chain),
            None => true,
        },
{
    let peers: usize = met.peers.len();
    let own_first_block: bool = met.own_first_block && still_without_a_chain;
    if !(own_first_block || (met.blocks >= BEHIND_BLOCKS && peers >= BEHIND_PEERS)) {
        return None;
    }
    Some(Behind { seconds: met.ahead, drift, blocks: met.blocks, peers, own_first_block })
}

/// One block met: who sent it, the number it carried, and when.
pub struct Met<N> {
    pub from: Option<Address>,
    pub number: N,
    pub now: u64,
}

/// A count of unreadable blocks after a run of them.
pub open spec fn unreadable_after(run: Seq<Met<u16>>) -> UnreadableView
    decreases run.len(),
{
    if run.len() == 0 {
        UnreadableView::empty()
    } else {
        let last = run.last();
        unreadable_after(run.drop_last()).counting(last.from, last.number, last.now)
    }
}

/// A count of blocks from the future after a run of them.
pub open spec fn out_of_step_after(run: Seq<Met<u64>>) -> OutOfStepView
    decreases run.len(),
{
    if run.len() == 0 {
        OutOfStepView::empty()
    } else {
        let last = run.last();
        out_of_step_after(run.drop_last()).counting(last.from, last.number, last.now)
    }
}

/// A count of showings that failed with the same words, after a run of them.
pub open spec fn unweighed_after(run: Seq<Met<Seq<char>>>) -> UnweighedView
    decreases run.len(),
{
    if run.len() == 0 {
        UnweighedView::empty()
    } else {
        let last = run.last();
        unweighed_after(run.drop_last()).counting(last.from, last.number, last.now)
    }
}

proof fn one_sender_is_one(peers: Set<Address>, only: Address, from: Option<Address>, ceiling: usize)
    requires
        peers.subset_of(set![only]),
        from == Some(only) || from is None,
    ensures
        with_sender(peers, from, ceiling).subset_of(set![only]),
        with_sender(peers, from, ceiling).len() <= 1,
{
    let after = with_sender(peers, from, ceiling);
    assert(after.subset_of(set![only]));
    vstd::set_lib::lemma_len_subset(after, set![only]);
}

/// However many blocks one machine sends, over however long and on however
/// many connections, it does not get to say this build is out of date: each of
/// them counts as the one address.
pub proof fn one_machine_never_says_too_old(run: Seq<Met<u16>>, only: Address)
    requires
        forall|i: int| 0 <= i < run.len() ==> (#[trigger] run[i]).from == Some(only) || run[i].from is None,
    ensures
        unreadable_after(run).peers.subset_of(set![only]),
        !unreadable_after(run).says_too_old(),
    decreases run.len(),
{
    if run.len() > 0 {
        let rest = run.drop_last();
        assert forall|i: int| 0 <= i < rest.len() implies (#[trigger] rest[i]).from == Some(only)
            || rest[i].from is None by {
            assert(rest[i] == run[i]);
        }
        one_machine_never_says_too_old(rest, only);
        let held = unreadable_after(rest).standing_at(run.last().now);
        one_sender_is_one(held.peers, only, run.last().from, UNJUDGED_SENDERS);
    }
}

/// The same of a chain that cannot be weighed: one machine never says it.
pub proof fn one_machine_never_says_unweighable(run: Seq<Met<Seq<char>>>, only: Address)
    requires
        forall|i: int| 0 <= i < run.len() ==> (#[trigger] run[i]).from == Some(only) || run[i].from is None,
    ensures
        unweighed_after(run).peers.subset_of(set![only]),
        !unweighed_after(run).says_unweighable(),
    decreases run.len(),
{
    if run.len() > 0 {
        let rest = run.drop_last();
        assert forall|i: int| 0 <= i < rest.len() implies (#[trigger] rest[i]).from == Some(only)
            || rest[i].from is None by {
            assert(rest[i] == run[i]);
        }
        one_machine_never_says_unweighable(rest, only);
        let held = unweighed_after(rest).standing_at(run.last().number, run.last().now);
        one_sender_is_one(held.peers, only, run.last().from, UNWEIGHED_SENDERS);
    }
}

/// The same of a clock, once the node has a chain: one machine with a fast
/// clock never says this one is slow.
pub proof fn one_machine_never_says_the_clock_is_behind(run: Seq<Met<u64>>, only: Address)
    requires
        forall|i: int| 0 <= i < run.len() ==> (#[trigger] run[i]).from == Some(only) || run[i].from is None,
    ensures
        out_of_step_after(run).peers.subset_of(set![only]),
        !out_of_step_after(run).says_behind(false),
    decreases run.len(),
{
    if run.len() > 0 {
        let rest = run.drop_last();
        assert forall|i: int| 0 <= i < rest.len() implies (#[trigger] rest[i]).from == Some(only)
            || rest[i].from is None by {
            assert(rest[i] == run[i]);
        }
        one_machine_never_says_the_clock_is_behind(rest, only);
        let held = out_of_step_after(rest).standing_at(run.last().now);
        one_sender_is_one(held.peers, only, run.last().from, BEHIND_SENDERS);
    }
}

/// However many peers a count is fed by, it holds no more of them than its
/// ceiling.
pub proof fn a_count_holds_no_more_than_its_ceiling(
    peers: Set<Address>,
    from: Option<Address>,
    ceiling: usize,
)
    requires
        peers.finite(),
        peers.len() <= ceiling,
    ensures
        with_sender(peers, from, ceiling).finite(),
        with_sender(peers, from, ceiling).len() <= ceiling,
{
}

/// Somebody counts as the address they say they are reached at, whatever host
/// they came from, and as that host alone where they have said nothing.
pub proof fn a_sender_is_known_by_what_it_said(
    advertised: Option<Address>,
    host: Option<Host>,
    sender: Option<Address>,
)
    requires
        call_ensures(sender_of, (advertised, host), sender),
    ensures
        advertised is Some ==> sender == advertised,
        advertised is None && host is None ==> sender is None,
        advertised is None ==> (host matches Some(host) ==> (sender matches Some(address)
            && address.host == host && address.port == 0 && address.flow == 0 && address.scope == 0)),
{
}

/// Whether a set of senders is another with one more told of: a name is held
/// once, a sender with none is not held, and no more are held than there is
/// room for.
pub open spec fn is_told_of(
    before: Set<Address>,
    from: Option<Address>,
    most: nat,
    after: Set<Address>,
) -> bool {
    &&& from is None || before.len() >= most ==> after == before
    &&& from matches Some(sender) ==> before.len() < most ==> forall|other: Address| #[trigger]
        after.contains(other) <==> before.contains(other) || other == sender
}

/// A block that cannot be read is counted with those before it, unless the last
/// was more than an hour ago or the clock has gone back: then the count starts
/// over with it. The latest rules met are the ones remembered.
pub proof fn unreadable_blocks_add_up_over_an_hour(
    met: &mut Unreadable,
    from: Option<Address>,
    version: u16,
    now: u64,
)
    requires
        call_ensures(count_unreadable, (met, from, version, now), ()),
    ensures
        final(met)@.last == now,
        old(met)@.last <= now <= old(met)@.last + 3_600 ==> {
            &&& old(met)@.blocks < u64::MAX ==> final(met)@.blocks == old(met)@.blocks + 1
            &&& final(met)@.version >= version && final(met)@.version >= old(met)@.version
            &&& final(met)@.version == version || final(met)@.version == old(met)@.version
            &&& old(met)@.blocks > 0 ==> final(met)@.first == old(met)@.first
            &&& old(met)@.blocks == 0 ==> final(met)@.first == now
            &&& is_told_of(old(met)@.peers, from, 64, final(met)@.peers)
        },
        now < old(met)@.last || old(met)@.last + 3_600 < now ==> {
            &&& final(met)@.blocks == 1
            &&& final(met)@.version == version
            &&& final(met)@.first == now
            &&& is_told_of(Set::empty(), from, 64, final(met)@.peers)
        },
{
}

/// A build is said to be too old after eight blocks it could not read, from two
/// senders, over five minutes, and for nothing less.
pub proof fn eight_blocks_from_two_over_five_minutes_say_too_old(
    met: &Unreadable,
    known: u16,
    said: Option<Unjudged>,
)
    requires
        call_ensures(too_old_for_the_chain, (met, known), said),
    ensures
        said is Some <==> met@.blocks >= 8 && met@.peers.len() >= 2 && met@.first + 300
            <= met@.last,
        said matches Some(said) ==> said.version == met@.version && said.known == known
            && said.blocks == met@.blocks && said.peers == met@.peers.len() && said.over
            + met@.first == met@.last,
{
}

/// A showing that does not check out is counted with those before it that
/// failed for the same reason, and starts the count over where the reason is
/// another or the clock has gone back.
pub proof fn showings_that_fail_alike_add_up(
    met: &mut Unweighed,
    from: Option<Address>,
    because: &str,
    now: u64,
)
    requires
        call_ensures(count_unweighed, (met, from, because, now), ()),
    ensures
        final(met)@.last == now,
        final(met)@.because == because@,
        old(met)@.because == because@ && old(met)@.last <= now ==> {
            &&& old(met)@.showings < u64::MAX ==> final(met)@.showings == old(met)@.showings + 1
            &&& old(met)@.showings > 0 ==> final(met)@.first == old(met)@.first
            &&& old(met)@.showings == 0 ==> final(met)@.first == now
            &&& is_told_of(old(met)@.peers, from, 64, final(met)@.peers)
        },
        old(met)@.because != because@ || now < old(met)@.last ==> {
            &&& final(met)@.showings == 1
            &&& final(met)@.first == now
            &&& is_told_of(Set::empty(), from, 64, final(met)@.peers)
        },
{
}

/// That no showing checks out is said after three of them from two senders, and
/// for nothing less.
pub proof fn three_showings_from_two_say_none_checks_out(
    met: &Unweighed,
    said: Option<Unweighable>,
)
    requires
        call_ensures(no_showing_checks_out, (met,), said),
    ensures
        said is Some <==> met@.showings >= 3 && met@.peers.len() >= 2 && met@.first <= met@.last,
        said matches Some(said) ==> said.because@ == met@.because && said.showings == met@.showings
            && said.peers == met@.peers.len() && said.over + met@.first == met@.last,
{
}

/// A block ahead of the clock is counted with those before it over an hour, and
/// starts the count over after that or where the clock has gone back. The
/// furthest ahead is what is remembered, and whether it was this node's own
/// first block is never forgotten.
pub proof fn blocks_ahead_of_the_clock_add_up_over_an_hour(
    met: &mut OutOfStep,
    from: Option<Address>,
    ahead: u64,
    now: u64,
)
    requires
        call_ensures(count_out_of_step, (met, from, ahead, now), ()),
    ensures
        final(met)@.last == now,
        final(met)@.own_first_block == old(met)@.own_first_block,
        old(met)@.last <= now <= old(met)@.last + 3_600 ==> {
            &&& old(met)@.blocks < u64::MAX ==> final(met)@.blocks == old(met)@.blocks + 1
            &&& final(met)@.ahead >= ahead && final(met)@.ahead >= old(met)@.ahead
            &&& final(met)@.ahead == ahead || final(met)@.ahead == old(met)@.ahead
            &&& is_told_of(old(met)@.peers, from, 64, final(met)@.peers)
        },
        now < old(met)@.last || old(met)@.last + 3_600 < now ==> {
            &&& final(met)@.blocks == 1
            &&& final(met)@.ahead == ahead
            &&& is_told_of(Set::empty(), from, 64, final(met)@.peers)
        },
{
}

/// A clock is said to be behind after eight blocks ahead of it from two
/// senders, or at once by this node's own first block while it is still without
/// a chain.
pub proof fn eight_blocks_from_two_say_the_clock_is_behind(
    met: &OutOfStep,
    drift: u64,
    still_without_a_chain: bool,
    said: Option<Behind>,
)
    requires
        call_ensures(clock_is_behind, (met, drift, still_without_a_chain), said),
    ensures
        said is Some <==> (met@.blocks >= 8 && met@.peers.len() >= 2) || (met@.own_first_block
            && still_without_a_chain),
        said matches Some(said) ==> said.seconds == met@.ahead && said.drift == drift
            && said.blocks == met@.blocks && said.peers == met@.peers.len() && (
        said.own_first_block <==> met@.own_first_block && still_without_a_chain),
{
}

} // verus!
