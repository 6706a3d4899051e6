//! What a node does when a message arrives.
//!
//! Pure by design: it reads what is known of the chain and of one peer, and
//! says what to send. No sockets, no threads, and no clock it reads itself.
//! Everything that decides whether two nodes converge lives here.
//!
//! A block, a transfer and an announcement each need something only the caller
//! can look up. [`on_message`] says so, and one of the functions beside it
//! takes what was found and finishes the answer. What reaches a disk is named
//! in the reaction rather than answered.

use std::collections::BTreeSet;

use vstd::prelude::*;

use crate::address::{Address, Host};
use crate::filling::MAX_HEADERS;
use crate::logs::Accepted;
use crate::message::{
    Handshake, Joining, Keeps, Kind, Message, MessageView, Placed, MAX_PROVEN, MAX_REQUESTED,
};
use crate::network::{Hash32, Located, NetworkId};

verus! {

broadcast use vstd::std_specs::btree::group_btree_axioms;

/// How long a peer's allowance lasts before it is handed out again.
pub const WINDOW_SECONDS: u64 = 10;

/// What a peer may ask for within one window.
///
/// Counts what answering costs rather than how often it is asked. Being asked
/// a lot is not misbehaviour, so this slows rather than closes.
pub const ALLOWANCE: u32 = 8_192;

/// What each kind of message costs to answer, in the same units.
pub const COST_TRIVIAL: u32 = 1;

pub const COST_CHAIN: u32 = 8;

pub const COST_TRANSFER: u32 = 4;

pub const COST_BLOCK: u32 = 8;

pub const COST_PER_BLOCK_SERVED: u32 = 1;

/// What one piece of a join answer costs to build and send: an eighth of a
/// window.
pub const COST_JOIN: u32 = 1_024;

/// What a run of paths costs, asked for or offered.
pub const COST_PROOFS: u32 = 8;

/// Bytes of an answer one unit pays for, of anything large.
pub const BYTES_PER_UNIT: usize = 512;

/// How long a batch of blocks may be outstanding before the node gives up on
/// it and asks again.
pub const BATCH_PATIENCE: u64 = 60;

/// The chain length past which being handed a ledger beats reading one.
pub const JOIN_RATHER_THAN_READ: u64 = 1_024;

/// What the chain being followed looks like from here.
#[derive(Debug)]
pub struct Chain {
    pub network: NetworkId,
    /// The first block, where there is one.
    pub genesis: Option<Hash32>,
    pub tip: Option<Hash32>,
    /// The height of the tip. A chain with none holds nothing.
    pub height: Option<u64>,
    pub total_work: u128,
    /// Positions to show a peer, so it can say where it parts from this chain.
    pub locator: Vec<Located>,
}

impl Chain {
    pub fn is_empty(&self) -> (empty: bool)
        ensures
            empty == (self.height is None),
    {
        self.height.is_none()
    }

    /// One past the tip.
    pub open spec fn reaches(&self) -> u64 {
        match self.height {
            Some(tip) => tip.saturating_add(1),
            None => 0,
        }
    }
}

/// The numbers the protocol fixes and this layer only keeps to.
#[derive(Clone, Copy, Debug, PartialEq, Eq, Structural)]
pub struct Limits {
    /// The version of the protocol this node speaks.
    pub version: u32,
    /// Announcements taken from one message.
    pub announced: usize,
    /// Addresses taken from one message, or put in one.
    pub shared: usize,
}

/// Everything of the surrounding node this layer is allowed to see.
#[derive(Debug)]
pub struct Local<'a> {
    pub chain: &'a Chain,
    /// What this node keeps, and so can hand on.
    pub keeps: Keeps,
    /// The port this node listens on, so peers can pass its address along.
    pub listen: u16,
    /// What this node calls itself on the wire, so it can recognise its own
    /// connection coming back to it.
    pub nonce: u64,
    pub limits: Limits,
}

/// What this node knows about one peer.
#[derive(Debug)]
pub struct PeerState {
    /// Whether the peer has introduced itself. Nothing else is answered until
    /// it has.
    pub greeted: bool,
    pub height: u64,
    pub total_work: u128,
    /// What it said it keeps.
    pub keeps: Keeps,
    /// Heights asked for and not yet received. While there are any the node is
    /// mid batch and does not ask for more.
    pub awaiting: BTreeSet<u64>,
    /// When the outstanding batch was asked for.
    pub asked_at: u64,
    /// Where the connection came from.
    pub remote: Option<Host>,
    /// Where this peer says it can be reached, which is its own port on the
    /// address the connection came from.
    pub advertised: Option<Address>,
    pub last_message: u64,
    /// Work this peer has asked for in the current window.
    pub spent: u32,
    /// When the current window began.
    pub window_started: u64,
}

/// What is known about a peer, apart from how it is held.
pub struct PeerView {
    pub greeted: bool,
    pub height: u64,
    pub total_work: u128,
    pub keeps: Keeps,
    pub awaiting: Set<u64>,
    pub asked_at: u64,
    pub remote: Option<Host>,
    pub advertised: Option<Address>,
    pub last_message: u64,
    pub spent: u32,
    pub window_started: u64,
}

impl View for PeerState {
    type V = PeerView;

    open spec fn view(&self) -> PeerView {
        PeerView {
            greeted: self.greeted,
            height: self.height,
            total_work: self.total_work,
            keeps: self.keeps,
            awaiting: self.awaiting@,
            asked_at: self.asked_at,
            remote: self.remote,
            advertised: self.advertised,
            last_message: self.last_message,
            spent: self.spent,
            window_started: self.window_started,
        }
    }
}

impl PeerView {
    /// A peer nothing is known of but where it connected from.
    pub open spec fn stranger(remote: Option<Host>) -> PeerView {
        PeerView {
            greeted: false,
            height: 0,
            total_work: 0,
            keeps: Keeps { headers: false, cold_set: false },
            awaiting: Set::empty(),
            asked_at: 0,
            remote,
            advertised: None,
            last_message: 0,
            spent: 0,
            window_started: 0,
        }
    }

    /// The peer with its window refilled, when it has run out at `now`.
    pub open spec fn refilled(self, now: u64) -> PeerView {
        if now.saturating_sub(self.window_started) >= WINDOW_SECONDS {
            PeerView { window_started: now, spent: 0, ..self }
        } else {
            self
        }
    }

    /// Whether `cost` is left in the window at `now`.
    pub open spec fn can_afford(self, cost: u32, now: u64) -> bool {
        self.refilled(now).spent + cost <= ALLOWANCE
    }

    /// The peer once `cost` has been asked of its window.
    pub open spec fn charged(self, cost: u32, now: u64) -> PeerView {
        let held = self.refilled(now);
        if self.can_afford(cost, now) {
            PeerView { spent: (held.spent + cost) as u32, ..held }
        } else {
            held
        }
    }

    /// The peer with `heights` outstanding, asked for at `now`.
    pub open spec fn asked_for(self, heights: Seq<u64>, now: u64) -> PeerView {
        PeerView { awaiting: self.awaiting.union(heights.to_set()), asked_at: now, ..self }
    }

    /// Whether what is outstanding has been outstanding too long.
    pub open spec fn batch_is_lost(self, now: u64) -> bool {
        self.awaiting != Set::<u64>::empty() && now.saturating_sub(self.asked_at) >= BATCH_PATIENCE
    }

    /// The peer with a batch that never came given up on.
    pub open spec fn patient(self, now: u64) -> PeerView {
        if self.batch_is_lost(now) {
            PeerView { awaiting: Set::empty(), ..self }
        } else {
            self
        }
    }
}

impl PeerState {
    /// A peer just connected, reached at `remote`.
    pub fn new(remote: Option<Host>) -> (peer: PeerState)
        ensures
            peer@ == PeerView::stranger(remote),
    {
        PeerState {
            greeted: false,
            height: 0,
            total_work: 0,
            keeps: Keeps { headers: false, cold_set: false },
            awaiting: BTreeSet::new(),
            asked_at: 0,
            remote,
            advertised: None,
            last_message: 0,
            spent: 0,
            window_started: 0,
        }
    }

    /// Takes `cost` from this peer's allowance, saying whether it was there.
    ///
    /// A window that has run out is refilled rather than carried over, so a
    /// peer that was quiet for a minute does not get a minute's worth at once.
    pub fn afford(&mut self, cost: u32, now: u64) -> (afforded: bool)
        ensures
            afforded == old(self)@.can_afford(cost, now),
            final(self)@ == old(self)@.charged(cost, now),
    {
        if now.saturating_sub(self.window_started) >= WINDOW_SECONDS {
            self.window_started = now;
            self.spent = 0;
        }
        let after: u32 = self.spent.saturating_add(cost);
        if after > ALLOWANCE {
            return false;
        }
        self.spent = after;
        true
    }

    /// Takes what an answer of `weight` bytes costs to send. A peer is never
    /// sent more than it has paid for, so a part of a unit is a whole one.
    pub fn afford_serving(&mut self, weight: usize, now: u64) -> (afforded: bool)
        ensures
            afforded == old(self)@.can_afford(serving_cost(weight), now),
            final(self)@ == old(self)@.charged(serving_cost(weight), now),
    {
        let whole: usize = weight / BYTES_PER_UNIT;
        let units: usize = if weight % BYTES_PER_UNIT == 0 {
            whole
        } else {
            whole + 1
        };
        let units: u32 = if units > ALLOWANCE as usize {
            ALLOWANCE + 1
        } else {
            units as u32
        };
        self.afford(units, now)
    }

    fn awaits(&mut self, heights: &Vec<u64>, now: u64)
        ensures
            final(self)@ == old(self)@.asked_for(heights@, now),
    {
        let ghost before = self.awaiting@;
        let mut at: usize = 0;
        assert(heights@.take(0).to_set() =~= Set::<u64>::empty());
        assert(before.union(Set::<u64>::empty()) =~= before);
        while at < heights.len()
            invariant
                at <= heights@.len(),
                self.awaiting@ == before.union(heights@.take(at as int).to_set()),
                self@ == (PeerView { awaiting: self.awaiting@, ..old(self)@ }),
            decreases heights.len() - at,
        {
            let height: u64 = heights[at];
            self.awaiting.insert(height);
            proof {
                let shorter = heights@.take(at as int);
                let longer = heights@.take(at + 1);
                assert(longer =~= shorter.push(height));
                assert forall|h: u64| longer.to_set().contains(h) <==> shorter.to_set().insert(height).contains(h) by {
                    if longer.contains(h) {
                        let i = choose|i: int| 0 <= i < longer.len() && longer[i] == h;
                        if i < at {
                            assert(shorter[i] == h);
                        }
                    }
                    if shorter.contains(h) {
                        let i = choose|i: int| 0 <= i < shorter.len() && shorter[i] == h;
                        assert(longer[i] == h);
                    }
                    assert(longer[at as int] == height);
                }
                assert(before.union(longer.to_set()) =~= before.union(shorter.to_set()).insert(height));
            }
            at = at + 1;
        }
        assert(heights@.take(at as int) =~= heights@);
        self.asked_at = now;
    }
}

/// What an answer of `weight` bytes costs to send: a unit for each
/// [`BYTES_PER_UNIT`] begun, and more than any window holds past that.
pub open spec fn serving_cost(weight: usize) -> u32 {
    let units = (weight + BYTES_PER_UNIT - 1) / BYTES_PER_UNIT as int;
    if units > ALLOWANCE {
        (ALLOWANCE + 1) as u32
    } else {
        units as u32
    }
}

/// Why a peer is no longer worth talking to.
#[allow(inconsistent_fields)]
#[derive(Clone, Copy, Debug, PartialEq, Eq, Structural)]
pub enum DropReason {
    /// Sent something before introducing itself.
    Unannounced { kind: Kind },
    /// Introduced itself twice.
    RepeatedHandshake,
    /// Speaks another version of the protocol.
    WrongVersion { theirs: u32 },
    /// Follows another network.
    WrongNetwork { theirs: NetworkId },
    /// Follows a chain starting somewhere else.
    ForeignChain { theirs: Hash32 },
    /// Sent a block this node rejects.
    BadBlock { id: Hash32 },
    /// Is this node.
    Ourselves,
}

impl DropReason {
    pub open spec fn misbehaves(self) -> bool {
        self is Unannounced || self is RepeatedHandshake || self is BadBlock
    }

    /// Whether this peer behaved badly, rather than merely belonging elsewhere.
    ///
    /// A node on another network or an older protocol has done nothing wrong
    /// and may be on this one tomorrow, and reaching yourself is a fact about
    /// routing.
    pub fn is_misbehaviour(self) -> (answer: bool)
        ensures
            answer == self.misbehaves(),
    {
        match self {
            DropReason::Unannounced { .. }
            | DropReason::RepeatedHandshake
            | DropReason::BadBlock { .. } => true,
            DropReason::WrongVersion { .. }
            | DropReason::WrongNetwork { .. }
            | DropReason::ForeignChain { .. }
            | DropReason::Ourselves => false,
        }
    }
}

/// A height this software has no rules for.
#[derive(Clone, Copy, Debug, PartialEq, Eq, Structural)]
pub struct Outdated {
    pub height: u64,
    /// The rules it takes.
    pub required: u32,
    /// The rules this build has.
    pub known: u32,
}

/// What to do about one received message.
#[derive(Debug)]
pub struct Reaction {
    /// Answers for the peer that sent the message.
    pub reply: Vec<Message>,
    /// What the block in this message did to the followed branch, when there
    /// was one and it was new.
    pub applied: Option<Accepted>,
    /// Blocks newly worth telling every other peer about.
    pub broadcast: Vec<Located>,
    /// A locator a peer sent, waiting to be answered. An option rather than an
    /// empty list standing for no question: a node with no chain at all sends
    /// an empty locator, and is the node most in need of an answer.
    pub locate: Option<Vec<Located>>,
    /// A piece of a join answer a peer asked for.
    pub join: Option<(Joining, u32)>,
    /// A run of headers a peer asked for: where to start, and how many.
    pub headers: Option<(u64, u64)>,
    /// A run of headers a peer offered: where it starts, and the heights the
    /// headers claim.
    pub offered_headers: Option<(u64, Vec<u64>)>,
    /// Heights on the followed branch a peer asked for, in the order asked.
    pub fetch: Vec<u64>,
    /// Places in the cold set a peer asked about. An option for the reason a
    /// locator is one: asking about none is still a question.
    pub prove: Option<Vec<u64>>,
    /// Paths a peer offered for places this node asked about.
    pub placed: Vec<Placed>,
    /// Whether a peer asked for addresses. Drawn from the book once the chain
    /// is let go of, because the book has to be ordered first.
    pub share_addresses: bool,
    /// Addresses worth adding to the book.
    pub learned: Vec<Address>,
    /// Addresses worth taking out of it.
    pub forget: Vec<Address>,
    /// Transfers the pool did not hold before, worth passing on.
    pub relayed: Vec<Hash32>,
    /// A block on a branch this node can never cross to, by its height.
    pub unreachable: Option<u64>,
    /// A block written under rules this build does not have, by its version.
    pub unjudged: Option<u16>,
    /// A block dated further ahead than this node's clock allows, by how far.
    pub ahead_of_the_clock: Option<u64>,
    /// Set when the connection should be closed.
    pub drop_peer: Option<DropReason>,
    /// Set when the block that arrived is judged by rules this software does
    /// not have. The node stops on this rather than carrying on.
    pub outdated: Option<Outdated>,
}

/// What a reaction says, apart from how it is held.
pub struct ReactionView {
    pub reply: Seq<MessageView>,
    pub applied: Option<Accepted>,
    pub broadcast: Seq<Located>,
    pub locate: Option<Seq<Located>>,
    pub join: Option<(Joining, u32)>,
    pub headers: Option<(u64, u64)>,
    pub offered_headers: Option<(u64, Seq<u64>)>,
    pub fetch: Seq<u64>,
    pub prove: Option<Seq<u64>>,
    pub share_addresses: bool,
    pub placed: Seq<Placed>,
    pub learned: Seq<Address>,
    pub forget: Seq<Address>,
    pub relayed: Seq<Hash32>,
    pub unreachable: Option<u64>,
    pub unjudged: Option<u16>,
    pub ahead_of_the_clock: Option<u64>,
    pub drop_peer: Option<DropReason>,
    pub outdated: Option<Outdated>,
}

/// What a run of messages says.
pub open spec fn said(messages: Seq<Message>) -> Seq<MessageView> {
    messages.map_values(|message: Message| message@)
}

impl View for Reaction {
    type V = ReactionView;

    open spec fn view(&self) -> ReactionView {
        ReactionView {
            reply: said(self.reply@),
            applied: self.applied,
            broadcast: self.broadcast@,
            locate: match self.locate {
                Some(locator) => Some(locator@),
                None => None,
            },
            join: self.join,
            headers: self.headers,
            offered_headers: match self.offered_headers {
                Some((from, heights)) => Some((from, heights@)),
                None => None,
            },
            fetch: self.fetch@,
            prove: match self.prove {
                Some(positions) => Some(positions@),
                None => None,
            },
            share_addresses: self.share_addresses,
            placed: self.placed@,
            learned: self.learned@,
            forget: self.forget@,
            relayed: self.relayed@,
            unreachable: self.unreachable,
            unjudged: self.unjudged,
            ahead_of_the_clock: self.ahead_of_the_clock,
            drop_peer: self.drop_peer,
            outdated: self.outdated,
        }
    }
}

impl ReactionView {
    /// Nothing to do.
    pub open spec fn idle() -> ReactionView {
        ReactionView {
            reply: Seq::empty(),
            applied: None,
            broadcast: Seq::empty(),
            locate: None,
            join: None,
            headers: None,
            offered_headers: None,
            fetch: Seq::empty(),
            prove: None,
            share_addresses: false,
            placed: Seq::empty(),
            learned: Seq::empty(),
            forget: Seq::empty(),
            relayed: Seq::empty(),
            unreachable: None,
            unjudged: None,
            ahead_of_the_clock: None,
            drop_peer: None,
            outdated: None,
        }
    }

    /// One answer and nothing else.
    pub open spec fn replying(message: MessageView) -> ReactionView {
        ReactionView { reply: seq![message], ..ReactionView::idle() }
    }

    /// The connection closed and nothing else.
    pub open spec fn closing(reason: DropReason) -> ReactionView {
        ReactionView { drop_peer: Some(reason), ..ReactionView::idle() }
    }
}

impl Reaction {
    pub fn idle() -> (reaction: Reaction)
        ensures
            reaction@ == ReactionView::idle(),
    {
        let reaction = Reaction {
            reply: Vec::new(),
            applied: None,
            broadcast: Vec::new(),
            locate: None,
            join: None,
            headers: None,
            offered_headers: None,
            fetch: Vec::new(),
            prove: None,
            share_addresses: false,
            placed: Vec::new(),
            learned: Vec::new(),
            forget: Vec::new(),
            relayed: Vec::new(),
            unreachable: None,
            unjudged: None,
            ahead_of_the_clock: None,
            drop_peer: None,
            outdated: None,
        };
        assert(reaction@.reply =~= Seq::<MessageView>::empty());
        reaction
    }

    pub fn reply(message: Message) -> (reaction: Reaction)
        ensures
            reaction@ == ReactionView::replying(message@),
    {
        let mut reaction = Reaction::idle();
        reaction.push_reply(message);
        assert(reaction@.reply =~= seq![message@]);
        reaction
    }

    pub fn close(reason: DropReason) -> (reaction: Reaction)
        ensures
            reaction@ == ReactionView::closing(reason),
    {
        let mut reaction = Reaction::idle();
        reaction.drop_peer = Some(reason);
        reaction
    }

    fn push_reply(&mut self, message: Message)
        ensures
            final(self)@ == (ReactionView { reply: old(self)@.reply.push(message@), ..old(self)@ }),
    {
        self.reply.push(message);
        assert(said(self.reply@) =~= old(self)@.reply.push(message@));
    }
}

impl Default for Reaction {
    fn default() -> (reaction: Reaction)
        ensures
            reaction@ == ReactionView::idle(),
    {
        Reaction::idle()
    }
}

/// What a node following `chain` says about itself.
pub open spec fn introduction(
    chain: &Chain,
    keeps: Keeps,
    version: u32,
    listen: u16,
    nonce: u64,
) -> Handshake {
    Handshake {
        version,
        network: chain.network,
        genesis: match chain.genesis {
            Some(genesis) => genesis,
            None => Hash32::spec_zero(),
        },
        tip: match chain.tip {
            Some(tip) => tip,
            None => Hash32::spec_zero(),
        },
        height: match chain.height {
            Some(height) => height,
            None => 0,
        },
        total_work: chain.total_work,
        keeps,
        listen,
        nonce,
    }
}

/// What this node says about itself.
pub fn local_handshake(chain: &Chain, keeps: Keeps, version: u32, listen: u16, nonce: u64) -> (ours:
    Handshake)
    ensures
        ours == introduction(chain, keeps, version, listen, nonce),
{
    Handshake {
        version,
        network: chain.network,
        genesis: match chain.genesis {
            Some(genesis) => genesis,
            None => Hash32::zero(),
        },
        tip: match chain.tip {
            Some(tip) => tip,
            None => Hash32::zero(),
        },
        height: match chain.height {
            Some(height) => height,
            None => 0,
        },
        total_work: chain.total_work,
        keeps,
        listen,
        nonce,
    }
}

/// Why a node on `chain`, speaking `version`, will not talk to whoever
/// introduced itself like this, if it will not.
///
/// A node with no chain of its own has nothing to compare against, and neither
/// has one introduced to such a node.
pub open spec fn refuses_introduction(chain: &Chain, version: u32, theirs: Handshake) -> Option<DropReason> {
    if theirs.version != version {
        Some(DropReason::WrongVersion { theirs: theirs.version })
    } else if theirs.network != chain.network {
        Some(DropReason::WrongNetwork { theirs: theirs.network })
    } else if chain.genesis is Some && theirs.genesis != chain.genesis->0 && theirs.genesis
        != Hash32::spec_zero() {
        Some(DropReason::ForeignChain { theirs: theirs.genesis })
    } else {
        None
    }
}

pub fn accept_handshake(chain: &Chain, version: u32, theirs: &Handshake) -> (outcome: Result<
    (),
    DropReason,
>)
    ensures
        outcome == match refuses_introduction(chain, version, *theirs) {
            Some(reason) => Err::<(), DropReason>(reason),
            None => Ok::<(), DropReason>(()),
        },
{
    if theirs.version != version {
        return Err(DropReason::WrongVersion { theirs: theirs.version });
    }
    if theirs.network != chain.network {
        return Err(DropReason::WrongNetwork { theirs: theirs.network });
    }
    match chain.genesis {
        Some(ours) => {
            if theirs.genesis != ours && theirs.genesis != Hash32::zero() {
                return Err(DropReason::ForeignChain { theirs: theirs.genesis });
            }
        },
        None => {},
    }
    Ok(())
}

/// Where whoever introduced itself like this, from `remote`, can be reached:
/// its own port on the address the connection came from. Taking the address
/// from the socket is what stops one node advertising someone else.
pub open spec fn reachable_at(remote: Option<Host>, theirs: Handshake) -> Option<Address> {
    match remote {
        Some(host) => if theirs.listen != 0 {
            Some(Address::plain(host, theirs.listen))
        } else {
            None
        },
        None => None,
    }
}

/// What a greeted peer is asked, given what it claims.
///
/// Only a peer claiming more work is asked for anything of its chain. Being
/// handed a ledger costs the same whatever the chain's age, so a node with no
/// chain takes one from a long chain whose owner can show it, and reads a
/// short one.
pub open spec fn catch_up(local: &Local, theirs: Handshake) -> Seq<MessageView> {
    if theirs.total_work <= local.chain.total_work {
        Seq::empty()
    } else if local.chain.height is None && theirs.keeps.headers && theirs.height
        >= JOIN_RATHER_THAN_READ {
        seq![MessageView::GetJoin { what: Joining::Weight, part: 0 }]
    } else {
        seq![MessageView::GetChain { locator: local.chain.locator@ }]
    }
}

/// What an introduction does to what is known of a peer.
pub open spec fn introduced(local: &Local, peer: PeerView, theirs: Handshake) -> PeerView {
    if peer.greeted || theirs.nonce == local.nonce || refuses_introduction(
        local.chain,
        local.limits.version,
        theirs,
    ) is Some {
        peer
    } else {
        PeerView {
            greeted: true,
            height: theirs.height,
            total_work: theirs.total_work,
            keeps: theirs.keeps,
            advertised: match reachable_at(peer.remote, theirs) {
                Some(address) => Some(address),
                None => peer.advertised,
            },
            ..peer
        }
    }
}

/// What a node does about an introduction.
pub open spec fn greeting(local: &Local, peer: PeerView, theirs: Handshake, answer: bool) -> ReactionView {
    if peer.greeted {
        ReactionView::closing(DropReason::RepeatedHandshake)
    } else if theirs.nonce == local.nonce {
        ReactionView {
            forget: match reachable_at(peer.remote, theirs) {
                Some(address) => seq![address],
                None => Seq::empty(),
            },
            ..ReactionView::closing(DropReason::Ourselves)
        }
    } else {
        match refuses_introduction(local.chain, local.limits.version, theirs) {
            Some(reason) => ReactionView::closing(reason),
            None => ReactionView {
                learned: match reachable_at(peer.remote, theirs) {
                    Some(address) => seq![address],
                    None => Seq::empty(),
                },
                reply: (if answer {
                    seq![
                        MessageView::Welcome(
                            introduction(
                                local.chain,
                                local.keeps,
                                local.limits.version,
                                local.listen,
                                local.nonce,
                            ),
                        ),
                    ]
                } else {
                    Seq::empty()
                }) + catch_up(local, theirs) + seq![MessageView::GetPeers],
                ..ReactionView::idle()
            },
        }
    }
}

fn reachable(remote: Option<Host>, theirs: &Handshake) -> (address: Option<Address>)
    ensures
        address == reachable_at(remote, *theirs),
{
    match remote {
        Some(host) => {
            if theirs.listen != 0 {
                Some(Address::new(host, theirs.listen))
            } else {
                None
            }
        },
        None => None,
    }
}

fn copied(locator: &Vec<Located>) -> (copy: Vec<Located>)
    ensures
        copy@ == locator@,
{
    let mut copy: Vec<Located> = Vec::new();
    let mut at: usize = 0;
    while at < locator.len()
        invariant
            at <= locator@.len(),
            copy@ == locator@.take(at as int),
        decreases locator.len() - at,
    {
        copy.push(locator[at]);
        at = at + 1;
        assert(copy@ =~= locator@.take(at as int));
    }
    assert(copy@ =~= locator@);
    copy
}

/// Takes an introduction, and answers it when `answer` is set.
///
/// A node that reaches itself is told apart before anything is written down,
/// and has its own address taken out of the book, or it would be dialled again
/// on the next sweep.
pub fn greet(local: &Local, peer: &mut PeerState, theirs: Handshake, answer: bool) -> (reaction:
    Reaction)
    ensures
        final(peer)@ == introduced(local, old(peer)@, theirs),
        reaction@ == greeting(local, old(peer)@, theirs, answer),
{
    if peer.greeted {
        return Reaction::close(DropReason::RepeatedHandshake);
    }
    let address = reachable(peer.remote, &theirs);
    if theirs.nonce == local.nonce {
        let mut reaction = Reaction::close(DropReason::Ourselves);
        match address {
            Some(address) => {
                reaction.forget.push(address);
                assert(reaction.forget@ =~= seq![address]);
            },
            None => {},
        }
        return reaction;
    }
    match accept_handshake(local.chain, local.limits.version, &theirs) {
        Err(reason) => {
            return Reaction::close(reason);
        },
        Ok(()) => {},
    }
    peer.greeted = true;
    peer.height = theirs.height;
    peer.total_work = theirs.total_work;
    peer.keeps = theirs.keeps;
    let mut reaction = Reaction::idle();
    match address {
        Some(address) => {
            peer.advertised = Some(address);
            reaction.learned.push(address);
            assert(reaction.learned@ =~= seq![address]);
        },
        None => {},
    }
    if answer {
        reaction.push_reply(
            Message::Welcome(
                local_handshake(
                    local.chain,
                    local.keeps,
                    local.limits.version,
                    local.listen,
                    local.nonce,
                ),
            ),
        );
    }
    if theirs.total_work > local.chain.total_work {
        if local.chain.is_empty() && theirs.keeps.headers && theirs.height >= JOIN_RATHER_THAN_READ {
            reaction.push_reply(Message::GetJoin { what: Joining::Weight, part: 0 });
        } else {
            reaction.push_reply(Message::GetChain { locator: copied(&local.chain.locator) });
        }
    }
    reaction.push_reply(Message::GetPeers);
    assert(reaction@.reply =~= greeting(local, old(peer)@, theirs, answer).reply);
    reaction
}

/// The heights of a stretch of at most [`MAX_REQUESTED`] blocks from `from`,
/// none of them past the last height there is.
pub open spec fn stretch(from: u64, count: u64) -> Seq<u64> {
    Seq::new(
        if count <= MAX_REQUESTED {
            count as nat
        } else {
            MAX_REQUESTED as nat
        },
        |i: int| from.saturating_add(i as u64),
    )
}

/// Asks for a stretch of a peer's branch, starting at `from`.
pub fn request_range(peer: &mut PeerState, from: u64, count: u64, now: u64) -> (reaction: Reaction)
    ensures
        if count == 0 {
            final(peer)@ == old(peer)@ && reaction@ == ReactionView::idle()
        } else {
            &&& final(peer)@ == old(peer)@.asked_for(stretch(from, count), now)
            &&& reaction@ == ReactionView::replying(MessageView::GetBlocks(stretch(from, count)))
        },
{
    let wanted: u64 = if count < MAX_REQUESTED as u64 {
        count
    } else {
        MAX_REQUESTED as u64
    };
    if wanted == 0 {
        return Reaction::idle();
    }
    let mut batch: Vec<u64> = Vec::new();
    let mut step: u64 = 0;
    while step < wanted
        invariant
            step <= wanted,
            wanted as nat == stretch(from, count).len(),
            batch@ == stretch(from, count).take(step as int),
        decreases wanted - step,
    {
        batch.push(from.saturating_add(step));
        step = step + 1;
        assert(batch@ =~= stretch(from, count).take(step as int));
    }
    assert(batch@ =~= stretch(from, count));
    peer.awaits(&batch, now);
    Reaction::reply(Message::GetBlocks(batch))
}

/// The heights among what was announced that this node does not hold, up to
/// [`MAX_REQUESTED`] of them, in order.
pub open spec fn not_held(ids: Seq<Located>, held: Seq<bool>) -> Seq<u64>
    decreases ids.len(),
{
    if ids.len() == 0 {
        Seq::empty()
    } else {
        let before = not_held(ids.drop_last(), held);
        if !held[ids.len() - 1] && before.len() < MAX_REQUESTED {
            before.push(ids.last().height)
        } else {
            before
        }
    }
}

/// What following up does to what is known of a peer, and what is said.
pub open spec fn followed_up(chain: &Chain, peer: PeerView, now: u64) -> ReactionView {
    if peer.patient(now).awaiting == Set::<u64>::empty() && peer.total_work > chain.total_work {
        ReactionView::replying(MessageView::GetChain { locator: chain.locator@ })
    } else {
        ReactionView::idle()
    }
}

/// Asks for the blocks among `ids` this node does not have, given which of
/// them it holds, and carries on with the sync when it has them all.
pub fn request_announced(
    chain: &Chain,
    peer: &mut PeerState,
    ids: &Vec<Located>,
    held: &Vec<bool>,
    now: u64,
) -> (reaction: Reaction)
    requires
        held@.len() == ids@.len(),
    ensures
        ({
            let wanted = not_held(ids@, held@);
            if wanted.len() == 0 {
                &&& final(peer)@ == old(peer)@.patient(now)
                &&& reaction@ == followed_up(chain, old(peer)@, now)
            } else {
                &&& final(peer)@ == old(peer)@.asked_for(wanted, now)
                &&& reaction@ == ReactionView::replying(MessageView::GetBlocks(wanted))
            }
        }),
{
    let mut wanted: Vec<u64> = Vec::new();
    let mut at: usize = 0;
    assert(ids@.take(0) =~= Seq::<Located>::empty());
    while at < ids.len()
        invariant
            at <= ids@.len(),
            held@.len() == ids@.len(),
            wanted@ == not_held(ids@.take(at as int), held@),
        decreases ids.len() - at,
    {
        assert(ids@.take(at + 1).drop_last() =~= ids@.take(at as int));
        if !held[at] && wanted.len() < MAX_REQUESTED {
            wanted.push(ids[at].height);
        }
        at = at + 1;
    }
    assert(ids@.take(at as int) =~= ids@);
    if wanted.len() == 0 {
        return follow_up(chain, peer, now);
    }
    peer.awaits(&wanted, now);
    Reaction::reply(Message::GetBlocks(wanted))
}

/// Once a batch has landed, asks for the next one if this node is still behind.
///
/// This is what drives a sync forward without any timer. The one exception is
/// a batch that never arrives, which is abandoned after [`BATCH_PATIENCE`] and
/// the question asked again.
pub fn follow_up(chain: &Chain, peer: &mut PeerState, now: u64) -> (reaction: Reaction)
    ensures
        final(peer)@ == old(peer)@.patient(now),
        reaction@ == followed_up(chain, old(peer)@, now),
{
    if !no_height(&peer.awaiting) && now.saturating_sub(peer.asked_at) >= BATCH_PATIENCE {
        peer.awaiting.clear();
    }
    if no_height(&peer.awaiting) && peer.total_work > chain.total_work {
        return Reaction::reply(Message::GetChain { locator: copied(&chain.locator) });
    }
    Reaction::idle()
}

fn no_height(awaiting: &BTreeSet<u64>) -> (none: bool)
    ensures
        none == (awaiting@ == Set::<u64>::empty()),
{
    let none: bool = awaiting.is_empty();
    assert(none ==> awaiting@ =~= Set::<u64>::empty());
    none
}

/// What a chain said of a block it was given.
#[derive(Clone, Copy, Debug, PartialEq, Eq, Structural)]
pub enum Verdict {
    /// Taken, and what that did to the branch.
    Taken(Accepted),
    /// Its parent, or its whole chain, has not arrived yet.
    MissingHistory,
    /// On a branch this node can never cross to.
    Unreachable,
    /// Written under rules this build does not have.
    Unjudged { version: u16 },
    /// Dated further ahead than this node's clock allows.
    AheadOfTheClock { by: u64 },
    /// At a height this build has no rules for.
    Outdated(Outdated),
    /// Against the rules.
    Bad,
}

/// What a node does about a block its chain said `verdict` of.
pub open spec fn about_block(chain: &Chain, peer: PeerView, block: Located, verdict: Verdict, now: u64) -> ReactionView {
    match verdict {
        Verdict::Taken(accepted) => match accepted {
            Accepted::Extended | Accepted::Reorganised { .. } => ReactionView {
                applied: Some(accepted),
                broadcast: seq![block],
                ..followed_up(chain, peer, now)
            },
            Accepted::SideBranch | Accepted::Duplicate => followed_up(chain, peer, now),
        },
        Verdict::MissingHistory => followed_up(chain, peer, now),
        Verdict::Unreachable => ReactionView { unreachable: Some(block.height), ..ReactionView::idle() },
        Verdict::Unjudged { version } => ReactionView { unjudged: Some(version), ..ReactionView::idle() },
        Verdict::AheadOfTheClock { by } => ReactionView { ahead_of_the_clock: Some(by), ..ReactionView::idle() },
        Verdict::Outdated(outdated) => ReactionView { outdated: Some(outdated), ..ReactionView::idle() },
        Verdict::Bad => ReactionView::closing(DropReason::BadBlock { id: block.id }),
    }
}

/// Whether a verdict carries the sync on to its next question.
pub open spec fn carries_on(verdict: Verdict) -> bool {
    verdict is Taken || verdict is MissingHistory
}

/// Takes what the chain said of a block, with `chain` as it is afterwards.
///
/// Missing history is not a bad peer: the block is fine, and this node has not
/// caught up to where it hangs. Nor is a block this node cannot judge: it is
/// named rather than counted against whoever sent it.
pub fn on_block(chain: &Chain, peer: &mut PeerState, block: Located, verdict: Verdict, now: u64) -> (reaction:
    Reaction)
    ensures
        ({
            let waiting = PeerView {
                awaiting: old(peer)@.awaiting.remove(block.height),
                ..old(peer)@
            };
            &&& final(peer)@ == if carries_on(verdict) {
                waiting.patient(now)
            } else {
                waiting
            }
            &&& reaction@ == about_block(chain, waiting, block, verdict, now)
        }),
{
    peer.awaiting.remove(&block.height);
    assert(peer.awaiting@ =~= old(peer)@.awaiting.remove(block.height));
    match verdict {
        Verdict::Taken(accepted) => {
            let mut reaction = follow_up(chain, peer, now);
            match accepted {
                Accepted::Extended | Accepted::Reorganised { .. } => {
                    reaction.applied = Some(accepted);
                    reaction.broadcast.push(block);
                    assert(reaction.broadcast@ =~= seq![block]);
                },
                Accepted::SideBranch | Accepted::Duplicate => {},
            }
            reaction
        },
        Verdict::MissingHistory => follow_up(chain, peer, now),
        Verdict::Unreachable => {
            let mut reaction = Reaction::idle();
            reaction.unreachable = Some(block.height);
            reaction
        },
        Verdict::Unjudged { version } => {
            let mut reaction = Reaction::idle();
            reaction.unjudged = Some(version);
            reaction
        },
        Verdict::AheadOfTheClock { by } => {
            let mut reaction = Reaction::idle();
            reaction.ahead_of_the_clock = Some(by);
            reaction
        },
        Verdict::Outdated(outdated) => {
            let mut reaction = Reaction::idle();
            reaction.outdated = Some(outdated);
            reaction
        },
        Verdict::Bad => Reaction::close(DropReason::BadBlock { id: block.id }),
    }
}

/// Takes what the pool said of a transfer: `true` for one it did not hold
/// before. One already held, or that this node cannot use, says nothing bad
/// about the peer.
pub fn on_transfer(id: Hash32, fresh: bool) -> (reaction: Reaction)
    ensures
        reaction@ == if fresh {
            ReactionView { relayed: seq![id], ..ReactionView::idle() }
        } else {
            ReactionView::idle()
        },
{
    let mut reaction = Reaction::idle();
    if fresh {
        reaction.relayed.push(id);
        assert(reaction.relayed@ =~= seq![id]);
    }
    reaction
}

/// What answering a message costs.
///
/// What is counted is work this peer causes: what it asks for, and what it
/// sends that nobody asked it for. A block this node asked for is not charged
/// as one, because refusing to take delivery of what you requested is a way of
/// never finishing a sync.
pub open spec fn cost(peer: PeerView, message: MessageView) -> u32 {
    match message {
        MessageView::GetChain { .. } => COST_CHAIN,
        MessageView::GetJoin { .. } => COST_JOIN,
        MessageView::Block(block) => if peer.awaiting.contains(block.height) {
            COST_TRIVIAL
        } else {
            COST_BLOCK
        },
        MessageView::Transaction(_) => COST_TRANSFER,
        MessageView::GetBlocks(heights) => if heights.len() <= MAX_REQUESTED {
            (heights.len() * COST_PER_BLOCK_SERVED) as u32
        } else {
            (MAX_REQUESTED * COST_PER_BLOCK_SERVED) as u32
        },
        MessageView::GetProofs(_) | MessageView::Proofs(_) => COST_PROOFS,
        _ => COST_TRIVIAL,
    }
}

fn cost_of(peer: &PeerState, message: &Message) -> (units: u32)
    ensures
        units == cost(peer@, message@),
{
    match message {
        Message::GetChain { .. } => COST_CHAIN,
        Message::GetJoin { .. } => COST_JOIN,
        Message::Block(block) => {
            if peer.awaiting.contains(&block.height) {
                COST_TRIVIAL
            } else {
                COST_BLOCK
            }
        },
        Message::Transaction(_) => COST_TRANSFER,
        Message::GetBlocks(heights) => {
            let wanted: usize = if heights.len() < MAX_REQUESTED {
                heights.len()
            } else {
                MAX_REQUESTED
            };
            wanted as u32 * COST_PER_BLOCK_SERVED
        },
        Message::GetProofs(_) => COST_PROOFS,
        Message::Proofs(_) => COST_PROOFS,
        _ => COST_TRIVIAL,
    }
}

/// What handling one message comes to.
#[derive(Debug)]
pub enum Reacting {
    /// The whole of the answer.
    Done(Reaction),
    /// Blocks were announced: look up which are held, for
    /// [`request_announced`].
    Announced(Vec<Located>),
    /// A block came: give it to the chain, for [`on_block`].
    Block(Located),
    /// A transfer came: give it to the pool, for [`on_transfer`].
    Transfer(Hash32),
}

/// What handling one message comes to, apart from how it is held.
pub enum ReactingView {
    Done(ReactionView),
    Announced(Seq<Located>),
    Block(Located),
    Transfer(Hash32),
}

impl View for Reacting {
    type V = ReactingView;

    open spec fn view(&self) -> ReactingView {
        match *self {
            Reacting::Done(reaction) => ReactingView::Done(reaction@),
            Reacting::Announced(ids) => ReactingView::Announced(ids@),
            Reacting::Block(block) => ReactingView::Block(block),
            Reacting::Transfer(id) => ReactingView::Transfer(id),
        }
    }
}

/// The first `most` of a run.
pub open spec fn first_of<T>(run: Seq<T>, most: nat) -> Seq<T> {
    if run.len() <= most {
        run
    } else {
        run.take(most as int)
    }
}

/// What a peer offering `count` blocks from `from` is asked for: what it
/// offers less what this node already has.
///
/// A peer can only agree with a position it was shown, so the agreement can
/// land well behind where this node actually is.
pub open spec fn offered(chain: &Chain, from: u64, count: u64) -> (u64, u64) {
    let start = if from < chain.reaches() {
        chain.reaches()
    } else {
        from
    };
    let end = from.saturating_add(count);
    (start, end.saturating_sub(start))
}

/// What a message from a greeted peer that can afford it comes to.
pub open spec fn answered(local: &Local, peer: PeerView, message: MessageView, now: u64) -> ReactingView {
    let idle = ReactionView::idle();
    match message {
        MessageView::Pong(_)
        | MessageView::Hello(_)
        | MessageView::Welcome(_)
        | MessageView::JoinPart { .. } => ReactingView::Done(idle),
        MessageView::Ping(nonce) => ReactingView::Done(
            ReactionView::replying(MessageView::Pong(nonce)),
        ),
        MessageView::GetChain { locator } => ReactingView::Done(
            ReactionView { locate: Some(locator), ..idle },
        ),
        MessageView::GetHeaders { from, count } => ReactingView::Done(
            ReactionView {
                headers: Some(
                    (
                        from,
                        if count <= MAX_HEADERS {
                            count
                        } else {
                            MAX_HEADERS
                        },
                    ),
                ),
                ..idle
            },
        ),
        MessageView::Headers { from, heights } => ReactingView::Done(
            ReactionView { offered_headers: Some((from, heights)), ..idle },
        ),
        MessageView::Chain { from, count } => {
            let (start, length) = offered(local.chain, from, count);
            if length == 0 {
                ReactingView::Done(followed_up(local.chain, peer, now))
            } else {
                ReactingView::Done(
                    ReactionView::replying(MessageView::GetBlocks(stretch(start, length))),
                )
            }
        },
        MessageView::Announce(ids) => ReactingView::Announced(
            first_of(ids, local.limits.announced as nat),
        ),
        MessageView::GetBlocks(heights) => ReactingView::Done(
            ReactionView { fetch: first_of(heights, MAX_REQUESTED as nat), ..idle },
        ),
        MessageView::Block(block) => ReactingView::Block(block),
        MessageView::GetJoin { what, part } => ReactingView::Done(
            ReactionView { join: Some((what, part)), ..idle },
        ),
        MessageView::GetPeers => ReactingView::Done(ReactionView { share_addresses: true, ..idle }),
        MessageView::Transaction(id) => ReactingView::Transfer(id),
        MessageView::Peers(addresses) => ReactingView::Done(
            ReactionView { learned: first_of(addresses, local.limits.shared as nat), ..idle },
        ),
        MessageView::GetProofs(positions) => ReactingView::Done(
            ReactionView { prove: Some(first_of(positions, MAX_PROVEN as nat)), ..idle },
        ),
        MessageView::Proofs(placed) => ReactingView::Done(
            ReactionView { placed: first_of(placed, MAX_PROVEN as nat), ..idle },
        ),
    }
}

/// What is known of a peer once a message it could afford has been answered.
pub open spec fn after_answering(local: &Local, peer: PeerView, message: MessageView, now: u64) -> PeerView {
    match message {
        MessageView::Chain { from, count } => {
            let (start, length) = offered(local.chain, from, count);
            if length == 0 {
                peer.patient(now)
            } else {
                peer.asked_for(stretch(start, length), now)
            }
        },
        _ => peer,
    }
}

/// What a node does about one message from one peer.
pub open spec fn reacts(local: &Local, peer: PeerView, message: MessageView, now: u64) -> ReactingView {
    let peer = PeerView { last_message: now, ..peer };
    match message {
        MessageView::Hello(theirs) => ReactingView::Done(greeting(local, peer, theirs, true)),
        MessageView::Welcome(theirs) => ReactingView::Done(greeting(local, peer, theirs, false)),
        _ => if !peer.greeted {
            ReactingView::Done(
                ReactionView::closing(DropReason::Unannounced { kind: message.kind() }),
            )
        } else if !peer.can_afford(cost(peer, message), now) {
            ReactingView::Done(ReactionView::idle())
        } else {
            answered(local, peer.charged(cost(peer, message), now), message, now)
        },
    }
}

/// What is known of a peer once one message of its has been handled.
pub open spec fn after_message(local: &Local, peer: PeerView, message: MessageView, now: u64) -> PeerView {
    let peer = PeerView { last_message: now, ..peer };
    match message {
        MessageView::Hello(theirs) => introduced(local, peer, theirs),
        MessageView::Welcome(theirs) => introduced(local, peer, theirs),
        _ => if !peer.greeted {
            peer
        } else {
            let charged = peer.charged(cost(peer, message), now);
            if peer.can_afford(cost(peer, message), now) {
                after_answering(local, charged, message, now)
            } else {
                charged
            }
        },
    }
}

/// Handles one message from one peer.
///
/// A peer that has used its window is answered with silence rather than
/// closed: what it asked for is not wrong, there has only been a lot of it.
pub fn on_message(local: &Local, peer: &mut PeerState, message: Message, now: u64) -> (reacting: Reacting)
    ensures
        final(peer)@ == after_message(local, old(peer)@, message@, now),
        reacting@ == reacts(local, old(peer)@, message@, now),
{
    peer.last_message = now;
    match &message {
        Message::Hello(theirs) => {
            return Reacting::Done(greet(local, peer, *theirs, true));
        },
        Message::Welcome(theirs) => {
            return Reacting::Done(greet(local, peer, *theirs, false));
        },
        _ => {},
    }
    if !peer.greeted {
        return Reacting::Done(Reaction::close(DropReason::Unannounced { kind: message.kind() }));
    }
    let units: u32 = cost_of(peer, &message);
    if !peer.afford(units, now) {
        return Reacting::Done(Reaction::idle());
    }
    match message {
        Message::Pong(_) | Message::Hello(_) | Message::Welcome(_) | Message::JoinPart { .. } => {
            Reacting::Done(Reaction::idle())
        },
        Message::Ping(nonce) => Reacting::Done(Reaction::reply(Message::Pong(nonce))),
        Message::GetChain { locator } => {
            let mut reaction = Reaction::idle();
            reaction.locate = Some(locator);
            Reacting::Done(reaction)
        },
        Message::GetHeaders { from, count } => {
            let mut reaction = Reaction::idle();
            reaction.headers = Some((
                from,
                if count < MAX_HEADERS {
                    count
                } else {
                    MAX_HEADERS
                },
            ));
            Reacting::Done(reaction)
        },
        Message::Headers { from, heights } => {
            let mut reaction = Reaction::idle();
            reaction.offered_headers = Some((from, heights));
            Reacting::Done(reaction)
        },
        Message::Chain { from, count } => {
            let have: u64 = match local.chain.height {
                Some(tip) => tip.saturating_add(1),
                None => 0,
            };
            let start: u64 = if from < have {
                have
            } else {
                from
            };
            let end: u64 = from.saturating_add(count);
            if start >= end {
                Reacting::Done(follow_up(local.chain, peer, now))
            } else {
                Reacting::Done(request_range(peer, start, end - start, now))
            }
        },
        Message::Announce(ids) => {
            let mut capped = ids;
            capped.truncate(local.limits.announced);
            assert(capped@ =~= first_of(ids@, local.limits.announced as nat));
            Reacting::Announced(capped)
        },
        Message::GetBlocks(heights) => {
            let mut reaction = Reaction::idle();
            let mut capped = heights;
            capped.truncate(MAX_REQUESTED);
            assert(capped@ =~= first_of(heights@, MAX_REQUESTED as nat));
            reaction.fetch = capped;
            Reacting::Done(reaction)
        },
        Message::Block(block) => Reacting::Block(block),
        Message::GetJoin { what, part } => {
            let mut reaction = Reaction::idle();
            reaction.join = Some((what, part));
            Reacting::Done(reaction)
        },
        Message::GetPeers => {
            let mut reaction = Reaction::idle();
            reaction.share_addresses = true;
            Reacting::Done(reaction)
        },
        Message::Transaction(id) => Reacting::Transfer(id),
        Message::Peers(addresses) => {
            let mut reaction = Reaction::idle();
            let mut capped = addresses;
            capped.truncate(local.limits.shared);
            assert(capped@ =~= first_of(addresses@, local.limits.shared as nat));
            reaction.learned = capped;
            Reacting::Done(reaction)
        },
        Message::GetProofs(positions) => {
            let mut reaction = Reaction::idle();
            let mut capped = positions;
            capped.truncate(MAX_PROVEN);
            assert(capped@ =~= first_of(positions@, MAX_PROVEN as nat));
            reaction.prove = Some(capped);
            Reacting::Done(reaction)
        },
        Message::Proofs(placed) => {
            let mut reaction = Reaction::idle();
            let mut capped = placed;
            capped.truncate(MAX_PROVEN);
            assert(capped@ =~= first_of(placed@, MAX_PROVEN as nat));
            reaction.placed = capped;
            Reacting::Done(reaction)
        },
    }
}

/// Nothing is answered until a peer has introduced itself: anything else it
/// sends closes the connection as misbehaviour, and changes nothing known of
/// it.
pub proof fn nothing_is_answered_before_an_introduction(
    local: &Local,
    peer: PeerView,
    message: MessageView,
    now: u64,
)
    requires
        !peer.greeted,
        !message.is_introduction(),
    ensures
        reacts(local, peer, message, now) == ReactingView::Done(
            ReactionView::closing(DropReason::Unannounced { kind: message.kind() }),
        ),
        (DropReason::Unannounced { kind: message.kind() }).misbehaves(),
        after_message(local, peer, message, now) == (PeerView { last_message: now, ..peer }),
{
}

/// A peer introduces itself once. A second introduction closes the connection
/// and is not believed.
pub proof fn a_second_introduction_is_refused(local: &Local, peer: PeerView, theirs: Handshake, now: u64)
    requires
        peer.greeted,
    ensures
        reacts(local, peer, MessageView::Hello(theirs), now) == ReactingView::Done(
            ReactionView::closing(DropReason::RepeatedHandshake),
        ),
        reacts(local, peer, MessageView::Welcome(theirs), now) == ReactingView::Done(
            ReactionView::closing(DropReason::RepeatedHandshake),
        ),
        after_message(local, peer, MessageView::Hello(theirs), now) == (PeerView {
            last_message: now,
            ..peer
        }),
{
}

/// Two nodes on one network, speaking one version, take each other's
/// introduction when they start from the same block or either has none yet,
/// and each of them otherwise calls the other's chain foreign.
pub proof fn two_nodes_of_one_chain_take_each_other(
    ours: &Chain,
    theirs: &Chain,
    version: u32,
    keeps: Keeps,
    listen: u16,
    nonce: u64,
)
    requires
        ours.network == theirs.network,
        theirs.genesis matches Some(genesis) ==> genesis != Hash32::spec_zero(),
    ensures
        refuses_introduction(ours, version, introduction(theirs, keeps, version, listen, nonce))
            == None::<DropReason> <==> (ours.genesis is None || theirs.genesis is None
            || ours.genesis == theirs.genesis),
{
}

/// A node that reaches itself learns nothing from it, takes its own address
/// out of the book, and holds nothing against the host.
pub proof fn meeting_itself_teaches_a_node_nothing(
    local: &Local,
    peer: PeerView,
    theirs: Handshake,
    answer: bool,
)
    requires
        !peer.greeted,
        theirs.nonce == local.nonce,
    ensures
        introduced(local, peer, theirs) == peer,
        greeting(local, peer, theirs, answer).learned == Seq::<Address>::empty(),
        greeting(local, peer, theirs, answer).drop_peer == Some(DropReason::Ourselves),
        !DropReason::Ourselves.misbehaves(),
        reachable_at(peer.remote, theirs) matches Some(address) ==> greeting(
            local,
            peer,
            theirs,
            answer,
        ).forget == seq![address],
{
}

/// What a peer is given out of a run of questions, each with its cost and the
/// moment it was asked.
pub open spec fn granted(peer: PeerView, asked: Seq<(u32, u64)>) -> nat
    decreases asked.len(),
{
    if asked.len() == 0 {
        0
    } else {
        let (cost, now) = asked[0];
        let rest = granted(peer.charged(cost, now), asked.skip(1));
        if peer.can_afford(cost, now) {
            rest + cost as nat
        } else {
            rest
        }
    }
}

/// Within one window a peer is never given more than the allowance, however it
/// divides what it asks for.
pub proof fn a_window_grants_no_more_than_the_allowance(peer: PeerView, asked: Seq<(u32, u64)>)
    requires
        peer.spent <= ALLOWANCE,
        forall|i: int|
            0 <= i < asked.len() ==> (#[trigger] asked[i]).1 < peer.window_started + WINDOW_SECONDS,
    ensures
        granted(peer, asked) + peer.spent <= ALLOWANCE,
    decreases asked.len(),
{
    if asked.len() > 0 {
        let (cost, now) = asked[0];
        assert(asked[0].1 == now);
        let next = peer.charged(cost, now);
        let rest = asked.skip(1);
        assert forall|i: int| 0 <= i < rest.len() implies (#[trigger] rest[i]).1 < next.window_started
            + WINDOW_SECONDS by {
            assert(rest[i] == asked[i + 1]);
        }
        a_window_grants_no_more_than_the_allowance(next, rest);
    }
}

/// A node asks for no block it already has, none it was not offered, and no
/// more than one question may ask for.
pub proof fn only_what_is_missing_is_asked_for(chain: &Chain, from: u64, count: u64, i: int)
    requires
        from + count <= u64::MAX,
        0 <= i < stretch(offered(chain, from, count).0, offered(chain, from, count).1).len(),
    ensures
        ({
            let (start, length) = offered(chain, from, count);
            let height = stretch(start, length)[i];
            &&& height >= chain.reaches()
            &&& from <= height < from + count
            &&& stretch(start, length).len() <= MAX_REQUESTED
        }),
{
}

/// A node is done asking a peer once it holds as much work as the peer claims:
/// the questions stop when the node has caught up.
pub proof fn a_sync_stops_once_caught_up(chain: &Chain, peer: PeerView, now: u64)
    requires
        peer.total_work <= chain.total_work,
    ensures
        followed_up(chain, peer, now) == ReactionView::idle(),
{
}

/// A batch that never arrives does not stall a sync: once its patience is
/// spent, a peer with more work is asked again.
pub proof fn a_lost_batch_is_asked_for_again(chain: &Chain, peer: PeerView, now: u64)
    requires
        peer.total_work > chain.total_work,
        now >= peer.asked_at + BATCH_PATIENCE,
    ensures
        followed_up(chain, peer, now) == ReactionView::replying(
            MessageView::GetChain { locator: chain.locator@ },
        ),
{
}

/// Whether a reaction leaves everything it could say unsaid but its replies.
pub open spec fn only_replies(reaction: ReactionView) -> bool {
    &&& reaction.applied is None
    &&& reaction.broadcast.len() == 0
    &&& reaction.locate is None
    &&& reaction.join is None
    &&& reaction.headers is None
    &&& reaction.offered_headers is None
    &&& reaction.fetch.len() == 0
    &&& reaction.prove is None
    &&& !reaction.share_addresses
    &&& reaction.placed.len() == 0
    &&& reaction.learned.len() == 0
    &&& reaction.forget.len() == 0
    &&& reaction.relayed.len() == 0
    &&& reaction.unreachable is None
    &&& reaction.unjudged is None
    &&& reaction.ahead_of_the_clock is None
    &&& reaction.drop_peer is None
    &&& reaction.outdated is None
}

/// Whether `heights` are the `count` heights from `from` on, without a gap.
pub open spec fn runs_on_from(heights: Seq<u64>, from: int, count: int) -> bool {
    heights.len() == count && forall|i: int| 0 <= i < count ==> #[trigger] heights[i] == from + i
}

/// What is asked for carries on from what is held: a request for a stretch asks
/// for its first heights, in order and without a gap, as many as one question
/// may name, and those are what the peer is waited on for.
pub proof fn a_request_leaves_no_gap(
    peer: &mut PeerState,
    from: u64,
    count: u64,
    now: u64,
    reaction: Reaction,
)
    requires
        call_ensures(request_range, (peer, from, count, now), reaction),
        from + count <= u64::MAX || from + 128 <= u64::MAX,
    ensures
        only_replies(reaction@),
        count == 0 ==> reaction@.reply.len() == 0 && final(peer)@ == old(peer)@,
        count > 0 ==> {
            let asked = if count < 128 {
                count as int
            } else {
                128
            };
            &&& reaction@.reply.len() == 1
            &&& reaction@.reply[0] matches MessageView::GetBlocks(heights) && runs_on_from(
                heights,
                from as int,
                asked,
            )
            &&& final(peer)@.asked_at == now
            &&& forall|height: u64| #[trigger]
                final(peer)@.awaiting.contains(height) <==> old(peer)@.awaiting.contains(height) || (
                from <= height < from + asked)
            &&& final(peer)@.spent == old(peer)@.spent
            &&& final(peer)@.greeted == old(peer)@.greeted
            &&& final(peer)@.total_work == old(peer)@.total_work
        },
{
    if count > 0 {
        let heights = stretch(from, count);
        assert forall|height: u64| #[trigger] final(peer)@.awaiting.contains(height) <==> old(
            peer,
        )@.awaiting.contains(height) || (from <= height < from + heights.len()) by {
            if from <= height < from + heights.len() {
                assert(heights[height - from] == height);
                assert(heights.contains(height));
            }
            if heights.contains(height) {
                let i = choose|i: int| 0 <= i < heights.len() && heights[i] == height;
                assert(heights[i] == from + i);
            }
        }
    }
}

/// A node offered a run past where it ends asks first for the height it ends
/// at, and one offered nothing it lacks asks for no block at all.
pub proof fn an_offer_is_taken_up_where_this_node_ends(
    local: &Local,
    peer: &mut PeerState,
    from: u64,
    count: u64,
    message: Message,
    now: u64,
    reacting: Reacting,
)
    requires
        call_ensures(on_message, (local, peer, message, now), reacting),
        message@ == (MessageView::Chain { from, count }),
        old(peer)@.greeted,
        old(peer)@.spent < 8_192 || old(peer)@.window_started + 10 <= now,
        from + count <= u64::MAX,
        local.chain.height matches Some(tip) ==> tip < u64::MAX,
    ensures
        ({
            let held = match local.chain.height {
                Some(tip) => tip + 1,
                None => 0int,
            };
            let start = if held > from {
                held
            } else {
                from as int
            };
            let left = from + count - start;
            let asked = if left < 128 {
                left
            } else {
                128
            };
            &&& left > 0 ==> {
                &&& reacting@ matches ReactingView::Done(reaction) && only_replies(reaction)
                    && reaction.reply.len() == 1 && (
                reaction.reply[0] matches MessageView::GetBlocks(heights) && runs_on_from(
                    heights,
                    start,
                    asked,
                ))
                &&& forall|height: u64| #[trigger]
                    final(peer)@.awaiting.contains(height) <==> old(peer)@.awaiting.contains(height)
                        || (start <= height < start + asked)
            }
            &&& left <= 0 && old(peer)@.asked_at <= now ==> {
                let waits = old(peer)@.awaiting != Set::<u64>::empty() && now < old(peer)@.asked_at
                    + 60;
                &&& reacting@ matches ReactingView::Done(reaction) && only_replies(reaction)
                    && reaction.reply == if !waits && old(peer)@.total_work > local.chain.total_work {
                    seq![MessageView::GetChain { locator: local.chain.locator@ }]
                } else {
                    Seq::empty()
                }
                &&& final(peer)@.awaiting == if waits {
                    old(peer)@.awaiting
                } else {
                    Set::empty()
                }
            }
        }),
{
    let (start, length) = offered(local.chain, from, count);
    if length > 0 {
        let heights = stretch(start, length);
        assert forall|height: u64| #[trigger] final(peer)@.awaiting.contains(height) <==> old(
            peer,
        )@.awaiting.contains(height) || (start <= height < start + heights.len()) by {
            if start <= height < start + heights.len() {
                assert(heights[height - start] == height);
                assert(heights.contains(height));
            }
            if heights.contains(height) {
                let i = choose|i: int| 0 <= i < heights.len() && heights[i] == height;
                assert(heights[i] == start + i);
            }
        }
    }
}

/// A block that moves the followed tip, by extending it or by crossing to
/// another branch, is written down as what it did and told to every other peer;
/// no other verdict moves anything. A verdict against the block closes the
/// connection naming it, and each of the rest is written down as itself.
pub proof fn a_block_that_moves_the_tip_is_written_down_and_told(
    chain: &Chain,
    peer: &mut PeerState,
    block: Located,
    verdict: Verdict,
    now: u64,
    reaction: Reaction,
)
    requires
        call_ensures(on_block, (chain, peer, block, verdict, now), reaction),
    ensures
        match verdict {
            Verdict::Taken(Accepted::Extended) => reaction@.applied == Some(Accepted::Extended)
                && reaction@.broadcast == seq![block],
            Verdict::Taken(Accepted::Reorganised { added }) => reaction@.applied == Some(
                Accepted::Reorganised { added },
            ) && reaction@.broadcast == seq![block],
            _ => reaction@.applied is None && reaction@.broadcast.len() == 0,
        },
        reaction@.unreachable == if verdict is Unreachable {
            Some(block.height)
        } else {
            None
        },
        match verdict {
            Verdict::Unjudged { version } => reaction@.unjudged == Some(version),
            _ => reaction@.unjudged is None,
        },
        match verdict {
            Verdict::AheadOfTheClock { by } => reaction@.ahead_of_the_clock == Some(by),
            _ => reaction@.ahead_of_the_clock is None,
        },
        match verdict {
            Verdict::Outdated(outdated) => reaction@.outdated == Some(outdated),
            _ => reaction@.outdated is None,
        },
        match verdict {
            Verdict::Bad => reaction@.drop_peer == Some(DropReason::BadBlock { id: block.id }),
            _ => reaction@.drop_peer is None,
        },
        reaction@.locate is None && reaction@.join is None && reaction@.headers is None
            && reaction@.fetch.len() == 0 && reaction@.prove is None && reaction@.relayed.len() == 0
            && reaction@.learned.len() == 0 && reaction@.forget.len() == 0
            && reaction@.placed.len() == 0 && !reaction@.share_addresses
            && reaction@.offered_headers is None,
{
}

/// A block that has come is waited for no longer, and nothing else stops being
/// waited for but a whole batch that never came. The next question goes out as
/// soon as nothing is waited for, and only while the peer claims more work.
pub proof fn a_block_that_came_is_waited_for_no_longer(
    chain: &Chain,
    peer: &mut PeerState,
    block: Located,
    verdict: Verdict,
    now: u64,
    reaction: Reaction,
)
    requires
        call_ensures(on_block, (chain, peer, block, verdict, now), reaction),
        old(peer)@.asked_at <= now,
    ensures
        !final(peer)@.awaiting.contains(block.height),
        now < old(peer)@.asked_at + 60 || !(verdict is Taken || verdict is MissingHistory)
            ==> forall|height: u64|
            height != block.height ==> (#[trigger] final(peer)@.awaiting.contains(height) <==> old(
                peer,
            )@.awaiting.contains(height)),
        now >= old(peer)@.asked_at + 60 && (verdict is Taken || verdict is MissingHistory)
            ==> forall|height: u64| !#[trigger] final(peer)@.awaiting.contains(height),
        (verdict is Taken || verdict is MissingHistory) ==> (reaction@.reply.len() > 0 <==> (
        forall|height: u64| !#[trigger] final(peer)@.awaiting.contains(height))
            && old(peer)@.total_work > chain.total_work),
        reaction@.reply.len() > 0 ==> reaction@.reply == seq![
            MessageView::GetChain { locator: chain.locator@ },
        ],
        !(verdict is Taken || verdict is MissingHistory) ==> reaction@.reply.len() == 0,
        final(peer)@.spent == old(peer)@.spent,
        final(peer)@.greeted == old(peer)@.greeted,
        final(peer)@.total_work == old(peer)@.total_work,
{
    let after = final(peer)@.awaiting;
    if forall|height: u64| !#[trigger] after.contains(height) {
        assert(after =~= Set::<u64>::empty());
    }
}

/// A sync is carried on exactly when there is more to be had and nothing is
/// outstanding that may still come: a batch asked for a minute ago is given up
/// on, and one asked for since is waited for.
pub proof fn a_sync_is_carried_on_once_nothing_is_outstanding(
    chain: &Chain,
    peer: &mut PeerState,
    now: u64,
    reaction: Reaction,
)
    requires
        call_ensures(follow_up, (chain, peer, now), reaction),
        old(peer)@.asked_at <= now,
    ensures
        only_replies(reaction@),
        ({
            let waits = old(peer)@.awaiting != Set::<u64>::empty() && now < old(peer)@.asked_at + 60;
            &&& final(peer)@.awaiting == if waits {
                old(peer)@.awaiting
            } else {
                Set::empty()
            }
            &&& reaction@.reply == if !waits && old(peer)@.total_work > chain.total_work {
                seq![MessageView::GetChain { locator: chain.locator@ }]
            } else {
                Seq::empty()
            }
        }),
        final(peer)@.asked_at == old(peer)@.asked_at,
        final(peer)@.spent == old(peer)@.spent,
        final(peer)@.greeted == old(peer)@.greeted,
        final(peer)@.height == old(peer)@.height,
        final(peer)@.total_work == old(peer)@.total_work,
{
}

proof fn what_is_not_held_is_listed(ids: Seq<Located>, held: Seq<bool>)
    requires
        held.len() >= ids.len(),
    ensures
        not_held(ids, held).len() <= 128,
        not_held(ids, held).len() <= ids.len(),
        forall|k: int|
            0 <= k < not_held(ids, held).len() ==> exists|i: int|
                0 <= i < ids.len() && !held[i] && (#[trigger] ids[i]).height == #[trigger] not_held(
                    ids,
                    held,
                )[k],
        not_held(ids, held).len() < 128 ==> forall|i: int|
            0 <= i < ids.len() && !held[i] ==> not_held(ids, held).contains(
                (#[trigger] ids[i]).height,
            ),
    decreases ids.len(),
{
    if ids.len() > 0 {
        let before = ids.drop_last();
        what_is_not_held_is_listed(before, held);
        let shorter = not_held(before, held);
        let wanted = not_held(ids, held);
        assert forall|k: int| 0 <= k < wanted.len() implies exists|i: int|
            0 <= i < ids.len() && !held[i] && (#[trigger] ids[i]).height == #[trigger] wanted[k] by {
            if k < shorter.len() {
                let i = choose|i: int|
                    0 <= i < before.len() && !held[i] && (#[trigger] before[i]).height == shorter[k];
                assert(ids[i].height == wanted[k]);
            } else {
                assert(ids[ids.len() - 1].height == wanted[k]);
            }
        }
        if wanted.len() < 128 {
            assert forall|i: int| 0 <= i < ids.len() && !held[i] implies wanted.contains(
                (#[trigger] ids[i]).height,
            ) by {
                if i < before.len() {
                    assert(before[i] == ids[i]);
                    assert(shorter.contains(ids[i].height));
                    let k = choose|k: int| 0 <= k < shorter.len() && shorter[k] == ids[i].height;
                    assert(wanted[k] == ids[i].height);
                } else {
                    assert(wanted[wanted.len() - 1] == ids[i].height);
                }
            }
        }
    }
}

/// Of what a peer announces, what this node does not hold is asked for, and
/// nothing it holds: all of it where one question has room, and otherwise as
/// much as it has room for.
pub proof fn announced_blocks_not_held_are_asked_for(
    chain: &Chain,
    peer: &mut PeerState,
    ids: &Vec<Located>,
    held: &Vec<bool>,
    now: u64,
    reaction: Reaction,
)
    requires
        call_ensures(request_announced, (chain, peer, ids, held, now), reaction),
        held@.len() == ids@.len(),
    ensures
        only_replies(reaction@),
        (exists|i: int| 0 <= i < ids@.len() && !(#[trigger] held@[i])) ==> {
            &&& reaction@.reply.len() == 1
            &&& reaction@.reply[0] matches MessageView::GetBlocks(heights) && 0 < heights.len() <= 128
                && (forall|k: int|
                0 <= k < heights.len() ==> exists|i: int|
                    0 <= i < ids@.len() && !held@[i] && (#[trigger] ids@[i]).height
                        == #[trigger] heights[k]) && (heights.len() < 128 ==> forall|i: int|
                0 <= i < ids@.len() && !held@[i] ==> heights.contains((#[trigger] ids@[i]).height))
                && (forall|k: int|
                0 <= k < heights.len() ==> final(peer)@.awaiting.contains(#[trigger] heights[k]))
            &&& final(peer)@.asked_at == now
        },
        (forall|i: int| 0 <= i < ids@.len() ==> #[trigger] held@[i]) ==> (reaction@.reply.len() > 0
            ==> reaction@.reply == seq![MessageView::GetChain { locator: chain.locator@ }]),
{
    what_is_not_held_is_listed(ids@, held@);
    let wanted = not_held(ids@, held@);
    if exists|i: int| 0 <= i < ids@.len() && !(#[trigger] held@[i]) {
        let i = choose|i: int| 0 <= i < ids@.len() && !(#[trigger] held@[i]);
        assert(ids@[i].height == ids@[i].height);
        if wanted.len() < 128 {
            assert(wanted.contains(ids@[i].height));
        }
        assert forall|k: int| 0 <= k < wanted.len() implies final(peer)@.awaiting.contains(
            #[trigger] wanted[k],
        ) by {
            assert(wanted.contains(wanted[k]));
        }
    } else {
        if wanted.len() > 0 {
            let k = 0;
            let i = choose|i: int|
                0 <= i < ids@.len() && !held@[i] && (#[trigger] ids@[i]).height == wanted[k];
            assert(held@[i]);
        }
    }
}

/// What has been announced and not held stays asked for, in order, whatever
/// more is announced behind it.
pub proof fn announcements_are_asked_for_in_order(ids: Seq<Located>, held: Seq<bool>, more: Located)
    requires
        held.len() > ids.len(),
    ensures
        ({
            let before = not_held(ids, held);
            let after = not_held(ids.push(more), held);
            &&& before.len() <= after.len()
            &&& after.take(before.len() as int) == before
            &&& !held[ids.len() as int] && before.len() < 128 ==> after.last() == more.height
                && after.len() == before.len() + 1
            &&& held[ids.len() as int] || before.len() == 128 ==> after == before
        }),
{
    assert(ids.push(more).drop_last() =~= ids);
    what_is_not_held_is_listed(ids, held);
    let before = not_held(ids, held);
    let after = not_held(ids.push(more), held);
    assert(after.take(before.len() as int) =~= before);
}

/// An allowance is spent inside its window and handed out whole in the next:
/// within ten seconds of its start what is asked for adds up against it, and
/// once they are over it is as though nothing had been.
pub proof fn an_allowance_is_spent_inside_its_window(
    peer: &mut PeerState,
    cost: u32,
    now: u64,
    afforded: bool,
)
    requires
        call_ensures(PeerState::afford, (peer, cost, now), afforded),
        old(peer)@.window_started <= now,
    ensures
        ({
            let over = now >= old(peer)@.window_started + 10;
            let spent = if over {
                0int
            } else {
                old(peer)@.spent as int
            };
            &&& afforded <==> spent + cost <= 8_192
            &&& final(peer)@.spent == if afforded {
                spent + cost
            } else {
                spent
            }
            &&& final(peer)@.window_started == if over {
                now
            } else {
                old(peer)@.window_started
            }
        }),
        final(peer)@.awaiting == old(peer)@.awaiting,
        final(peer)@.asked_at == old(peer)@.asked_at,
        final(peer)@.greeted == old(peer)@.greeted,
        final(peer)@.height == old(peer)@.height,
        final(peer)@.total_work == old(peer)@.total_work,
        final(peer)@.keeps == old(peer)@.keeps,
        final(peer)@.remote == old(peer)@.remote,
        final(peer)@.advertised == old(peer)@.advertised,
        final(peer)@.last_message == old(peer)@.last_message,
{
}

/// A peer is never sent more than it has paid for: what sending takes from a
/// fresh window pays for every byte sent, five hundred and twelve to a unit,
/// and for less than one unit more.
pub proof fn every_byte_served_is_paid_for(
    peer: &mut PeerState,
    weight: usize,
    now: u64,
    afforded: bool,
)
    requires
        call_ensures(PeerState::afford_serving, (peer, weight, now), afforded),
        old(peer)@.window_started + 10 <= now,
    ensures
        afforded <==> weight <= 8_192 * 512,
        afforded ==> weight <= final(peer)@.spent * 512 && final(peer)@.spent * 512 < weight + 512,
        !afforded ==> final(peer)@.spent == 0,
        final(peer)@.awaiting == old(peer)@.awaiting,
{
}

/// What a message costs is what answering it takes: a piece of a join is an
/// eighth of a window, a block nobody asked for costs what a question about a
/// chain does and one that was asked for next to nothing, and blocks are paid
/// for by the block, as many as one question may name. A peer that cannot pay
/// is answered with silence, and keeps what it has.
pub proof fn a_question_is_charged_for_what_answering_it_takes(
    local: &Local,
    peer: &mut PeerState,
    message: Message,
    now: u64,
    reacting: Reacting,
)
    requires
        call_ensures(on_message, (local, peer, message, now), reacting),
        old(peer)@.greeted,
        now < old(peer)@.window_started + 10,
        !(message@ is Hello),
        !(message@ is Welcome),
    ensures
        ({
            let units = match message@ {
                MessageView::GetChain { .. } => 8int,
                MessageView::GetJoin { .. } => 1_024,
                MessageView::Block(block) => if old(peer)@.awaiting.contains(block.height) {
                    1
                } else {
                    8
                },
                MessageView::Transaction(_) => 4,
                MessageView::GetBlocks(heights) => if heights.len() < 128 {
                    heights.len() as int
                } else {
                    128
                },
                MessageView::GetProofs(_) => 8,
                MessageView::Proofs(_) => 8,
                _ => 1,
            };
            &&& old(peer)@.spent + units <= 8_192 ==> final(peer)@.spent == old(peer)@.spent + units
            &&& old(peer)@.spent + units > 8_192 ==> final(peer)@.spent == old(peer)@.spent && (
            reacting@ matches ReactingView::Done(reaction) && only_replies(reaction)
                && reaction.reply.len() == 0) && final(peer)@.awaiting == old(peer)@.awaiting
        }),
        final(peer)@.last_message == now,
        final(peer)@.greeted,
        final(peer)@.window_started == old(peer)@.window_started,
        final(peer)@.total_work == old(peer)@.total_work,
        final(peer)@.height == old(peer)@.height,
        final(peer)@.remote == old(peer)@.remote,
        final(peer)@.advertised == old(peer)@.advertised,
{
}

/// Every question a peer may ask and can pay for is set aside as it was asked,
/// cut to what one answer may hold, and leads to nothing else.
pub proof fn a_question_is_set_aside_as_it_was_asked(
    local: &Local,
    peer: &mut PeerState,
    message: Message,
    now: u64,
    reacting: Reacting,
)
    requires
        call_ensures(on_message, (local, peer, message, now), reacting),
        old(peer)@.greeted,
        old(peer)@.window_started + 10 <= now || old(peer)@.spent <= 7_168,
    ensures
        match message@ {
            MessageView::Ping(nonce) => reacting@ matches ReactingView::Done(reaction)
                && only_replies(reaction) && reaction.reply == seq![MessageView::Pong(nonce)],
            MessageView::Pong(_) => reacting@ matches ReactingView::Done(reaction)
                && only_replies(reaction) && reaction.reply.len() == 0,
            MessageView::JoinPart { .. } => reacting@ matches ReactingView::Done(reaction)
                && only_replies(reaction) && reaction.reply.len() == 0,
            MessageView::GetChain { locator } => reacting@ matches ReactingView::Done(reaction)
                && reaction.locate == Some(locator) && only_replies(
                (ReactionView { locate: None, ..reaction }),
            ) && reaction.reply.len() == 0,
            MessageView::GetHeaders { from, count } => reacting@ matches ReactingView::Done(reaction)
                && reaction.headers == Some(
                (
                    from,
                    if count < 512 {
                        count
                    } else {
                        512
                    },
                ),
            ) && only_replies((ReactionView { headers: None, ..reaction })) && reaction.reply.len() == 0,
            MessageView::Headers { from, heights } => reacting@ matches ReactingView::Done(reaction)
                && reaction.offered_headers == Some((from, heights)) && only_replies(
                (ReactionView { offered_headers: None, ..reaction }),
            ) && reaction.reply.len() == 0,
            MessageView::GetJoin { what, part } => reacting@ matches ReactingView::Done(reaction)
                && reaction.join == Some((what, part)) && only_replies(
                (ReactionView { join: None, ..reaction }),
            ) && reaction.reply.len() == 0,
            MessageView::GetPeers => reacting@ matches ReactingView::Done(reaction)
                && reaction.share_addresses && only_replies(
                (ReactionView { share_addresses: false, ..reaction }),
            ) && reaction.reply.len() == 0,
            MessageView::GetBlocks(heights) => reacting@ matches ReactingView::Done(reaction)
                && is_cut_to(heights, 128, reaction.fetch) && only_replies(
                (ReactionView { fetch: Seq::empty(), ..reaction }),
            ) && reaction.reply.len() == 0,
            MessageView::Peers(addresses) => reacting@ matches ReactingView::Done(reaction)
                && is_cut_to(addresses, local.limits.shared as int, reaction.learned)
                && only_replies((ReactionView { learned: Seq::empty(), ..reaction }))
                && reaction.reply.len() == 0,
            MessageView::GetProofs(positions) => reacting@ matches ReactingView::Done(reaction)
                && (reaction.prove matches Some(asked) && is_cut_to(
                positions,
                64,
                asked,
            )) && only_replies((ReactionView { prove: None, ..reaction })) && reaction.reply.len() == 0,
            MessageView::Proofs(placed) => reacting@ matches ReactingView::Done(reaction)
                && is_cut_to(placed, 64, reaction.placed) && only_replies(
                (ReactionView { placed: Seq::empty(), ..reaction }),
            ) && reaction.reply.len() == 0,
            MessageView::Announce(ids) => reacting@ matches ReactingView::Announced(taken)
                && is_cut_to(ids, local.limits.announced as int, taken),
            MessageView::Block(block) => reacting@ == ReactingView::Block(block),
            MessageView::Transaction(id) => reacting@ == ReactingView::Transfer(id),
            _ => true,
        },
        !(message@ is Chain) && !(message@ is Hello) && !(message@ is Welcome)
            ==> final(peer)@.awaiting == old(peer)@.awaiting && final(peer)@.asked_at
            == old(peer)@.asked_at,
{
}

/// Whether `taken` is the first `most` of `run`, or all of it where there are
/// no more.
pub open spec fn is_cut_to<T>(run: Seq<T>, most: int, taken: Seq<T>) -> bool {
    &&& taken.len() == if run.len() < most {
        run.len() as int
    } else {
        most
    }
    &&& forall|i: int| 0 <= i < taken.len() ==> #[trigger] taken[i] == run[i]
}

/// An introduction is refused for the version, then for the network, then for
/// the first block, each named as the peer gave it, and for nothing else. No
/// first block at all is not another first block.
pub proof fn an_introduction_is_refused_for_three_things(
    chain: &Chain,
    version: u32,
    theirs: Handshake,
    outcome: Result<(), DropReason>,
)
    requires
        call_ensures(accept_handshake, (chain, version, &theirs), outcome),
    ensures
        ({
            let none = Hash32 { high: 0, low: 0 };
            let foreign = chain.genesis matches Some(genesis) && theirs.genesis != none
                && theirs.genesis != genesis;
            &&& theirs.version != version ==> outcome == Err::<(), DropReason>(
                DropReason::WrongVersion { theirs: theirs.version },
            )
            &&& theirs.version == version && theirs.network != chain.network ==> outcome == Err::<
                (),
                DropReason,
            >(DropReason::WrongNetwork { theirs: theirs.network })
            &&& theirs.version == version && theirs.network == chain.network && foreign ==> outcome
                == Err::<(), DropReason>(DropReason::ForeignChain { theirs: theirs.genesis })
            &&& theirs.version == version && theirs.network == chain.network && !foreign
                ==> outcome is Ok
        }),
{
}

/// Where a peer that introduces itself from `remote` is to be found: its own
/// port at the address it came from.
pub open spec fn found_at(remote: Option<Host>, listen: u16, address: Address) -> bool {
    remote == Some(address.host) && listen != 0 && address.port == listen && address.flow == 0
        && address.scope == 0
}

/// A peer taken in is what it says it is: what it claims is written down as it
/// claimed it, its own port at the address it came from is learned, it is
/// introduced to where it asked, and it is asked for its chain when, and only
/// when, it claims more work. A node with nothing asks a long chain whose owner
/// can show it to be handed over, and reads every other.
pub proof fn an_introduction_taken_is_believed_and_answered(
    local: &Local,
    peer: &mut PeerState,
    theirs: Handshake,
    answer: bool,
    reaction: Reaction,
)
    requires
        call_ensures(greet, (local, peer, theirs, answer), reaction),
        !old(peer)@.greeted,
        theirs.nonce != local.nonce,
        theirs.version == local.limits.version,
        theirs.network == local.chain.network,
        local.chain.genesis matches Some(genesis) ==> theirs.genesis == genesis || theirs.genesis == (
        Hash32 { high: 0, low: 0 }),
    ensures
        final(peer)@.greeted,
        final(peer)@.height == theirs.height,
        final(peer)@.total_work == theirs.total_work,
        final(peer)@.keeps == theirs.keeps,
        final(peer)@.spent == old(peer)@.spent,
        final(peer)@.awaiting == old(peer)@.awaiting,
        reaction@.drop_peer is None,
        reaction@.forget.len() == 0,
        old(peer)@.remote is Some && theirs.listen != 0 ==> reaction@.learned.len() == 1 && found_at(
            old(peer)@.remote,
            theirs.listen,
            reaction@.learned[0],
        ) && final(peer)@.advertised == Some(reaction@.learned[0]),
        old(peer)@.remote is None || theirs.listen == 0 ==> reaction@.learned.len() == 0
            && final(peer)@.advertised == old(peer)@.advertised,
        ({
            let behind = theirs.total_work > local.chain.total_work;
            let welcomes = if answer {
                1int
            } else {
                0
            };
            let asks = if behind {
                1int
            } else {
                0
            };
            &&& reaction@.reply.len() == welcomes + asks + 1
            &&& reaction@.reply.last() == MessageView::GetPeers
            &&& answer ==> (reaction@.reply[0] matches MessageView::Welcome(ours) && ours.version
                == local.limits.version && ours.network == local.chain.network && ours.total_work
                == local.chain.total_work && ours.keeps == local.keeps && ours.listen == local.listen
                && ours.nonce == local.nonce)
            &&& behind ==> reaction@.reply[welcomes] == if local.chain.height is None
                && theirs.keeps.headers && theirs.height >= 1_024 {
                MessageView::GetJoin { what: Joining::Weight, part: 0 }
            } else {
                MessageView::GetChain { locator: local.chain.locator@ }
            }
        }),
{
}

/// An introduction that is not taken leaves the peer as it was and answers
/// nothing, whatever is wrong with it; and only a second one is held against
/// whoever sent it.
pub proof fn an_introduction_not_taken_changes_nothing(
    local: &Local,
    peer: &mut PeerState,
    theirs: Handshake,
    answer: bool,
    reaction: Reaction,
)
    requires
        call_ensures(greet, (local, peer, theirs, answer), reaction),
        ({
            ||| old(peer)@.greeted
            ||| theirs.nonce == local.nonce
            ||| theirs.version != local.limits.version
            ||| theirs.network != local.chain.network
            ||| (local.chain.genesis matches Some(genesis) && theirs.genesis != genesis
                && theirs.genesis != (Hash32 { high: 0, low: 0 }))
        }),
    ensures
        final(peer)@ == old(peer)@,
        reaction@.reply.len() == 0,
        reaction@.learned.len() == 0,
        reaction@.drop_peer == Some(
            if old(peer)@.greeted {
                DropReason::RepeatedHandshake
            } else if theirs.nonce == local.nonce {
                DropReason::Ourselves
            } else if theirs.version != local.limits.version {
                DropReason::WrongVersion { theirs: theirs.version }
            } else if theirs.network != local.chain.network {
                DropReason::WrongNetwork { theirs: theirs.network }
            } else {
                DropReason::ForeignChain { theirs: theirs.genesis }
            },
        ),
        !old(peer)@.greeted && theirs.nonce == local.nonce && old(peer)@.remote is Some
            && theirs.listen != 0 ==> reaction@.forget.len() == 1 && found_at(
            old(peer)@.remote,
            theirs.listen,
            reaction@.forget[0],
        ),
        old(peer)@.greeted || theirs.nonce != local.nonce ==> reaction@.forget.len() == 0,
{
}

/// A node says of itself what its chain is: where it starts, where it ends and
/// the work behind it, with noughts where it has none.
pub proof fn an_introduction_says_what_the_chain_is(
    chain: &Chain,
    keeps: Keeps,
    version: u32,
    listen: u16,
    nonce: u64,
    ours: Handshake,
)
    requires
        call_ensures(local_handshake, (chain, keeps, version, listen, nonce), ours),
    ensures
        ours.version == version && ours.network == chain.network && ours.keeps == keeps
            && ours.listen == listen && ours.nonce == nonce && ours.total_work == chain.total_work,
        chain.genesis matches Some(genesis) ==> ours.genesis == genesis,
        chain.tip matches Some(tip) ==> ours.tip == tip,
        chain.height matches Some(height) ==> ours.height == height,
        chain.genesis is None ==> ours.genesis == (Hash32 { high: 0, low: 0 }),
        chain.tip is None ==> ours.tip == (Hash32 { high: 0, low: 0 }),
        chain.height is None ==> ours.height == 0,
{
}

/// Three things are misbehaviour and four are not: a node that belongs
/// elsewhere, or is this one, has done nothing wrong.
pub proof fn belonging_elsewhere_is_no_misbehaviour(reason: DropReason, answer: bool)
    requires
        call_ensures(DropReason::is_misbehaviour, (reason,), answer),
    ensures
        answer <==> match reason {
            DropReason::Unannounced { .. } => true,
            DropReason::RepeatedHandshake => true,
            DropReason::BadBlock { .. } => true,
            _ => false,
        },
{
}

/// A transfer the pool did not hold is passed on, once, and one it held is not.
pub proof fn a_new_transfer_is_passed_on(id: Hash32, fresh: bool, reaction: Reaction)
    requires
        call_ensures(on_transfer, (id, fresh), reaction),
    ensures
        reaction@.reply.len() == 0,
        only_replies((ReactionView { relayed: Seq::empty(), ..reaction@ })),
        fresh ==> reaction@.relayed == seq![id],
        !fresh ==> reaction@.relayed.len() == 0,
{
}

/// A peer just connected has said nothing, asked nothing and owes nothing.
pub proof fn a_new_peer_is_a_stranger(remote: Option<Host>, peer: PeerState)
    requires
        call_ensures(PeerState::new, (remote,), peer),
    ensures
        !peer.greeted,
        peer.spent == 0,
        peer.total_work == 0,
        peer.height == 0,
        peer.awaiting@ == Set::<u64>::empty(),
        peer.remote == remote,
        peer.advertised is None,
{
}

/// A reaction that says nothing asks for nothing, one that replies says one
/// thing, and one that closes only closes. A chain with no tip is empty.
pub proof fn a_plain_reaction_does_one_thing(
    idle: Reaction,
    message: Message,
    replying: Reaction,
    reason: DropReason,
    closing: Reaction,
    chain: &Chain,
    empty: bool,
)
    requires
        call_ensures(Reaction::idle, (), idle),
        call_ensures(Reaction::reply, (message,), replying),
        call_ensures(Reaction::close, (reason,), closing),
        call_ensures(Chain::is_empty, (chain,), empty),
    ensures
        only_replies(idle@) && idle@.reply.len() == 0,
        only_replies(replying@) && replying@.reply == seq![message@],
        closing@.drop_peer == Some(reason),
        closing@.reply.len() == 0 && closing@.broadcast.len() == 0 && closing@.relayed.len() == 0
            && closing@.applied is None && closing@.fetch.len() == 0,
        empty <==> chain.height is None,
{
}

/// Whoever has not introduced itself and says anything else is closed, with
/// what it said named, and nothing is learned of it but that it spoke.
pub proof fn a_stranger_introduces_itself_first(
    local: &Local,
    peer: &mut PeerState,
    message: Message,
    now: u64,
    reacting: Reacting,
)
    requires
        call_ensures(on_message, (local, peer, message, now), reacting),
        !old(peer)@.greeted,
        !(message@ is Hello),
        !(message@ is Welcome),
    ensures
        reacting@ matches ReactingView::Done(reaction) && (
        reaction.drop_peer matches Some(DropReason::Unannounced { kind }) && kind
            == message@.kind()) && reaction.reply.len() == 0 && reaction.fetch.len() == 0
            && reaction.locate is None && reaction.join is None,
        final(peer)@ == (PeerView { last_message: now, ..old(peer)@ }),
{
}

/// An introduction is met as one whatever has been spent, and answered with one
/// exactly when it is the first of the two.
pub proof fn an_introduction_is_met_as_one(
    local: &Local,
    peer: &mut PeerState,
    other: &mut PeerState,
    theirs: Handshake,
    now: u64,
    hello: Reacting,
    welcome: Reacting,
    met: &mut PeerState,
    answered: Reaction,
    unanswered: Reaction,
    quiet: &mut PeerState,
)
    requires
        call_ensures(on_message, (local, peer, Message::Hello(theirs), now), hello),
        call_ensures(on_message, (local, other, Message::Welcome(theirs), now), welcome),
        call_ensures(greet, (local, met, theirs, true), answered),
        call_ensures(greet, (local, quiet, theirs, false), unanswered),
        old(met)@ == (PeerView { last_message: now, ..old(peer)@ }),
        old(quiet)@ == (PeerView { last_message: now, ..old(other)@ }),
    ensures
        hello@ == ReactingView::Done(answered@),
        welcome@ == ReactingView::Done(unanswered@),
        final(peer)@ == final(met)@,
        final(other)@ == final(quiet)@,
{
}

/// A window that has run out is filled again by the next message, which is then
/// all that has been spent of it.
pub proof fn a_window_run_out_is_filled_again(
    local: &Local,
    peer: &mut PeerState,
    message: Message,
    now: u64,
    reacting: Reacting,
)
    requires
        call_ensures(on_message, (local, peer, message, now), reacting),
        old(peer)@.greeted,
        !(message@ is Hello),
        !(message@ is Welcome),
        old(peer)@.window_started + 10 <= now,
    ensures
        final(peer)@.window_started == now,
        final(peer)@.spent <= 1_024,
        message@ is Ping || message@ is GetPeers || message@ is GetHeaders ==> final(peer)@.spent
            == 1,
        message@ is GetChain ==> final(peer)@.spent == 8,
        message@ is GetJoin ==> final(peer)@.spent == 1_024,
{
}

} // verus!
