//! A running node: what it holds in memory, and what each event does to it.
//!
//! Sockets, threads, files and the chain itself are somebody else's. What is
//! here is everything a node remembers about its peers, its joins, its disk
//! and itself, and the rule for every change to it.

use vstd::prelude::*;
use vstd::string::*;

use crate::address::{Address, Host};
use crate::calls::handed_on;
use crate::connection::{note_the_ending, Connection};
use crate::disk::{
    comes_of_writing, could_not_read, could_not_take_a_visitor, cut_at, ledger_owed, note_writing, over_its_budget,
    past_saving, took_a_visitor, trim_history, Extent, LedgerOwed, Reading, Refusing, Unanswered, Unread,
    Unwritten, Wrote, KEEP_BLOCK_BYTES,
};
use crate::evidence::{
    clock_is_behind, count_out_of_step, count_unreadable, count_unweighed, counts_as,
    no_showing_checks_out, sender_of, too_old_for_the_chain, Behind, OutOfStep, OutOfStepView,
    Unjudged, Unreadable, UnreadableView, Unweighable, Unweighed, UnweighedView,
};
use crate::filling::{Filling, Headers, PeerId, Turn};
use crate::joining::{Answers, Joined, Progress, ProgressView};
use crate::logs::Accepted;
use crate::network::{Hash32, Located, NetworkId};
use crate::opening::{NodeError, NodeErrorView, Opening, Recovery, Unkept};
use crate::peers::{
    archiving_in, are_sendings, has_peer, how_many, may_be_sent, spoken_to, spoken_to_but, welcome,
    with_greeting, without, Peer, Peers,
};
use crate::probation::{
    probation_at, probation_round, still_owed, Probation, Stranded, Undertaking,
    STRANDING_PATIENCE,
};
use crate::recovery::{
    archivists, climbs, fresh_of, is_account_of, places, what_fits, worth_asking, Asking,
    AskingView, Recovered,
};
use crate::refusal::{comes_of_refusing, turned_away, Refusals};
use crate::rounds::{admission, keep_the_undertaking, may_be_dialled, Admitted};
use crate::sync::{Outdated, PeerView, Reaction};
use crate::windows::{
    held_by, mark_of, starting_from, Allowance, Mark, Window, Windows, MAX_ADDRESS_WINDOWS,
};

verus! {

/// Why the system would not give randomness.
#[verifier::external_type_specification]
#[verifier::external_body]
pub struct ExRandomError(getrandom::Error);

/// Eight bytes from `getrandom::fill`, which fills the bytes it is given from
/// the system's random number source or says why it could not.
///
/// Nothing is claimed of the bytes: they are random. Nor is it claimed when
/// the call succeeds, which is the system's to say.
#[verifier::external_body]
fn random_bytes() -> (drawn: Result<[u8; 8], getrandom::Error>) {
    let mut bytes = [0u8; 8];
    getrandom::fill(&mut bytes).map(|()| bytes)
}

/// The number eight bytes carry, least significant first.
pub open spec fn number_of(bytes: Seq<u8>) -> int {
    bytes[0] + 256 * (bytes[1] + 256 * (bytes[2] + 256 * (bytes[3] + 256 * (bytes[4] + 256 * (bytes[5]
        + 256 * (bytes[6] + 256 * bytes[7]))))))
}

/// The number a node calls itself by, by what was drawn for it.
pub open spec fn nonce_for(drawn: Option<[u8; 8]>, clock: Option<u128>) -> int {
    match (drawn, clock) {
        (Some(bytes), _) => number_of(bytes@),
        (None, Some(nanoseconds)) => if nanoseconds <= u64::MAX {
            nanoseconds as int
        } else {
            1
        },
        (None, None) => 1,
    }
}

/// A number this node calls itself by, out of eight random bytes, or out of
/// the nanoseconds the clock has counted where there was no randomness to be
/// had.
///
/// Only ever compared for equality, so what matters is that two nodes do not
/// draw the same one. The clock is a poor substitute but a harmless one, and a
/// clock that will not do either gives one.
pub fn nonce_from(drawn: Option<[u8; 8]>, clock: Option<u128>) -> (nonce: u64)
    ensures
        nonce == nonce_for(drawn, clock),
{
    match drawn {
        Some(bytes) => {
            let low: u64 = bytes[0] as u64 + 256 * (bytes[1] as u64 + 256 * (bytes[2] as u64 + 256
                * (bytes[3] as u64)));
            let high: u64 = bytes[4] as u64 + 256 * (bytes[5] as u64 + 256 * (bytes[6] as u64 + 256
                * (bytes[7] as u64)));
            assert(low <= 0xffff_ffff && high <= 0xffff_ffff);
            low + 0x1_0000_0000 * high
        },
        None => match clock {
            Some(nanoseconds) => if nanoseconds <= u64::MAX as u128 {
                nanoseconds as u64
            } else {
                1
            },
            None => 1,
        },
    }
}

/// A number this node calls itself by, for one run, with `clock` the
/// nanoseconds the clock has counted to fall back on.
pub fn fresh_nonce(clock: Option<u128>) -> (nonce: u64)
    ensures
        exists|drawn: Option<[u8; 8]>| nonce == #[trigger] nonce_for(drawn, clock),
{
    let drawn: Option<[u8; 8]> = match random_bytes() {
        Ok(bytes) => Some(bytes),
        Err(_) => None,
    };
    nonce_from(drawn, clock)
}

/// Why this node would not take something offered to it.
#[derive(Debug)]
pub enum Refused {
    /// The node has not validated its way to the tip it was handed, so the
    /// ledger this would be built on is still somebody else's word.
    OnProbation(Probation),
    /// The chain refused the block, in its own words.
    Block(String),
    /// The pool refused the transfer, in its own words.
    Transfer(String),
}

impl Refused {
    /// What an operator reads.
    pub open spec fn words(&self) -> Seq<char> {
        match self {
            Refused::OnProbation(probation) =>
                "this node is still validating the ledger it was handed: "@ + probation.words(),
            Refused::Block(words) => words@,
            Refused::Transfer(words) => words@,
        }
    }

    pub fn to_string(&self) -> (said: String)
        ensures
            said@ == self.words(),
    {
        match self {
            Refused::OnProbation(probation) => {
                let mut said = String::from_str(
                    "this node is still validating the ledger it was handed: ",
                );
                let rest = probation.to_string();
                said.append(rest.as_str());
                said
            },
            Refused::Block(words) => String::from_str(words.as_str()),
            Refused::Transfer(words) => String::from_str(words.as_str()),
        }
    }
}

/// A node, by everything it remembers.
#[derive(Debug)]
pub struct Node {
    pub network: NetworkId,
    /// Where this node listens.
    pub address: Address,
    /// Drawn once at start, so a node recognises its own connection coming
    /// back to it.
    pub nonce: u64,
    pub running: bool,
    /// Whether a shutdown has begun. Apart from `running`, because a node can
    /// clear that one from inside.
    pub winding_down: bool,
    pub next_id: PeerId,
    pub peers: Peers,
    pub windows: Windows,
    pub refusals: Refusals,
    /// Names to start from, kept as names.
    pub seed_names: Vec<String>,
    pub names_looked_up_at: u64,
    /// Changes the book had counted when it was last written.
    pub book_written_at: u64,
    pub unsaved_book: Option<String>,
    /// Bytes of blocks this node keeps on its disk.
    pub keep_bytes: u64,
    pub joining: Progress,
    pub answers: Answers,
    pub join_asked_again_at: u64,
    /// The ledger last written down: the tip it was written for, and where it
    /// stands.
    pub written: Option<(Hash32, Located)>,
    pub undertaking: Option<Undertaking>,
    pub stranding_patience: u64,
    /// Blocks offered that this node can never reach.
    pub out_of_reach: u64,
    pub stranded: Option<Stranded>,
    /// Whose turn it is to fill the headers in.
    pub filling_from: Option<Turn>,
    pub outdated: Option<Outdated>,
    pub unwritten: Option<Unwritten>,
    pub unread: Option<Unread>,
    pub unanswered: Option<Unanswered>,
    /// Visitors this node could not take, over its whole life.
    pub turned_away: u64,
    /// Forest nodes found torn and built again from the leaves.
    pub mended_nodes: u64,
    pub proofs_asked_for: u64,
    pub unjudged: Unreadable,
    pub unweighed: Unweighed,
    pub out_of_step: OutOfStep,
    pub asking: Asking,
}

impl Node {
    /// Every table the node keeps is as it should be, and the next number to
    /// give a connection is past every one given.
    pub open spec fn wf(&self) -> bool {
        &&& self.peers.wf()
        &&& self.windows.wf()
        &&& self.refusals.wf()
        &&& self.unjudged.wf()
        &&& self.unweighed.wf()
        &&& self.out_of_step.wf()
        &&& forall|id: PeerId| #[trigger] has_peer(self.peers@, id) ==> id < self.next_id
    }

    /// A node that has only just started.
    pub open spec fn has_just_started(&self) -> bool {
        &&& self.running
        &&& !self.winding_down
        &&& self.next_id == 0
        &&& self.peers@ == Seq::<(PeerId, Peer)>::empty()
        &&& self.windows.marks@.len() == 0
        &&& self.refusals@ == Map::<Host, u64>::empty()
        &&& self.seed_names@.len() == 0
        &&& self.names_looked_up_at == 0
        &&& self.book_written_at == u64::MAX
        &&& self.unsaved_book is None
        &&& self.keep_bytes == KEEP_BLOCK_BYTES
        &&& self.joining@ is Idle
        &&& self.answers.weight is None
        &&& self.answers.ledger is None
        &&& self.join_asked_again_at == 0
        &&& self.written is None
        &&& self.stranding_patience == STRANDING_PATIENCE
        &&& self.out_of_reach == 0
        &&& self.stranded is None
        &&& self.filling_from is None
        &&& self.outdated is None
        &&& self.unwritten is None
        &&& self.unanswered is None
        &&& self.turned_away == 0
        &&& self.mended_nodes == 0
        &&& self.proofs_asked_for == 0
        &&& self.unjudged@ == UnreadableView::empty()
        &&& self.unweighed@ == UnweighedView::empty()
        &&& self.out_of_step@ == OutOfStepView::empty()
        &&& self.asking@ == AskingView::nothing()
    }

    /// Starts a node that listens at `address`, with what opening a directory
    /// left to carry on with: what it owes on a ledger it was handed, and what
    /// the disk already refused.
    pub fn start(
        network: NetworkId,
        address: Address,
        nonce: u64,
        undertaking: Option<Undertaking>,
        unread: Option<Unread>,
    ) -> (node: Node)
        ensures
            node.wf(),
            node.has_just_started(),
            node.network == network,
            node.address == address,
            node.nonce == nonce,
            node.undertaking == undertaking,
            node.unread == unread,
    {
        Node {
            network,
            address,
            nonce,
            running: true,
            winding_down: false,
            next_id: 0,
            peers: Peers::new(),
            windows: Windows::new(),
            refusals: Refusals::new(),
            seed_names: Vec::new(),
            names_looked_up_at: 0,
            book_written_at: u64::MAX,
            unsaved_book: None,
            keep_bytes: KEEP_BLOCK_BYTES,
            joining: Progress::Idle,
            answers: Answers::new(),
            join_asked_again_at: 0,
            written: None,
            undertaking,
            stranding_patience: STRANDING_PATIENCE,
            out_of_reach: 0,
            stranded: None,
            filling_from: None,
            outdated: None,
            unwritten: None,
            unread,
            unanswered: None,
            turned_away: 0,
            mended_nodes: 0,
            proofs_asked_for: 0,
            unjudged: Unreadable::default(),
            unweighed: Unweighed::default(),
            out_of_step: OutOfStep::default(),
            asking: Asking::default(),
        }
    }

    /// Starts a node that keeps nothing across a restart.
    pub fn bind(network: NetworkId, address: Address, clock: Option<u128>) -> (node: Node)
        ensures
            node.wf(),
            node.has_just_started(),
            node.network == network,
            node.address == address,
            node.undertaking is None,
            node.unread is None,
    {
        Node::start(network, address, fresh_nonce(clock), None, None)
    }

    /// Begins a start on a directory, replaying whatever it already holds.
    pub fn open(log: Extent, recovered: Recovery) -> (opening: Opening)
        ensures
            opening.step == crate::opening::OpenStep::ReadLedger,
            opening.log == log,
            opening.recovered == recovered,
            opening.read_again is None,
            opening.handed is None,
            opening.applied == 0,
            opening.start == 0,
            opening.at == log.first,
            !opening.rejoining,
            opening.error is None,
    {
        Opening::open_with(false, log, recovered)
    }

    /// The same, for a wallet: which owners are watched is the chain's to
    /// know, and changes nothing about how the directory is read.
    pub fn open_watching(log: Extent, recovered: Recovery) -> (opening: Opening)
        ensures
            opening.step == crate::opening::OpenStep::ReadLedger,
            opening.log == log,
            opening.recovered == recovered,
            opening.read_again is None,
            opening.handed is None,
            opening.applied == 0,
            opening.start == 0,
            opening.at == log.first,
            !opening.rejoining,
            opening.error is None,
    {
        Opening::open_with(false, log, recovered)
    }

    /// The same, keeping the cold set so it can answer with proofs.
    pub fn open_archiving(log: Extent, recovered: Recovery) -> (opening: Opening)
        ensures
            opening.log == log,
            opening.recovered == recovered,
            opening.read_again is None,
            opening.handed is None,
            opening.applied == 0,
            opening.start == 0,
            opening.at == log.first,
            !opening.rejoining,
            if crate::opening::leads_nowhere(log, 0) {
                opening.is_stopped_with((NodeErrorView::CannotArchive { from: log.first }))
            } else {
                opening.step == crate::opening::OpenStep::Read(log.first) && opening.error is None
            },
    {
        Opening::open_with(true, log, recovered)
    }

    /// Where this node listens.
    pub fn address(&self) -> (address: Address)
        ensures
            address == self.address,
    {
        self.address
    }

    /// Names to start from. Held here, a name is asked again while this node
    /// has no seed to dial.
    pub fn start_from_names(&mut self, names: Vec<String>)
        ensures
            *final(self) == (Node { seed_names: names, ..*old(self) }),
    {
        self.seed_names = names;
    }

    /// Whether a connection is kept, before it is dialled: a host this node is
    /// turning away is not.
    pub fn may_dial(&self, address: Address, now: u64) -> (unkept: Option<Unkept>)
        requires
            self.wf(),
        ensures
            unkept == if turned_away(self.refusals@, address.host, now) {
                Some(Unkept::Refusing)
            } else {
                None
            },
    {
        if self.refusals.refuses(address.host, now) {
            Some(Unkept::Refusing)
        } else {
            None
        }
    }

    /// Why a connection that reached `host` is not kept, if it is not.
    pub open spec fn turns_away(&self, host: Option<Host>, now: u64) -> Option<Unkept> {
        if host matches Some(host) && turned_away(self.refusals@, host, now) {
            Some(Unkept::Refusing)
        } else if !welcome(self.peers@, host) {
            Some(Unkept::Full)
        } else if !self.running {
            Some(Unkept::Stopping)
        } else {
            None
        }
    }

    /// Keeps a connection dialled to `address` that reached `host`, if there
    /// is room for it. `written` is the address as it is written.
    ///
    /// Asked of the host again: one machine answers on more than one address,
    /// so the address dialled and the host that answered are two questions.
    pub fn connect(&mut self, address: Address, written: &str, host: Option<Host>, now: u64) -> (kept: Result<
        PeerId,
        NodeError,
    >)
        requires
            old(self).wf(),
            old(self).next_id < u64::MAX,
        ensures
            final(self).wf(),
            match old(self).turns_away(host, now) {
                Some(because) => *final(self) == *old(self) && (kept matches Err(error) && error@ == (
                NodeErrorView::NotKept { address: written@, because })),
                None => (kept matches Ok(id) && id == old(self).next_id) && final(self).took(
                    old(self),
                    host,
                    Some(address),
                ),
            },
    {
        let because: Unkept = match host {
            Some(reached) if self.refusals.refuses(reached, now) => Unkept::Refusing,
            _ => {
                if !self.peers.has_room_for(host) {
                    Unkept::Full
                } else {
                    match self.attach_peer(host, Some(address)) {
                        Some(id) => {
                            return Ok(id);
                        },
                        None => Unkept::Stopping,
                    }
                }
            },
        };
        Err(NodeError::NotKept { address: String::from_str(written), because })
    }

    /// This node is `before` with one connection more.
    pub open spec fn took(&self, before: &Node, host: Option<Host>, dialled: Option<Address>) -> bool {
        *self == (Node {
            next_id: (before.next_id + 1) as u64,
            peers: self.peers,
            ..*before
        }) && self.peers@ == before.peers@.push(
            (
                before.next_id,
                Peer {
                    host,
                    advertised: None,
                    dialled_to: dialled,
                    dialled: dialled is Some,
                    greeted: false,
                    archives: false,
                },
            ),
        )
    }

    /// Takes a connection into the peer table, and gives it a number; `None`
    /// on a node that has stopped, to which nothing is attached.
    pub fn attach_peer(&mut self, host: Option<Host>, dialled: Option<Address>) -> (id: Option<PeerId>)
        requires
            old(self).wf(),
            old(self).next_id < u64::MAX,
        ensures
            final(self).wf(),
            if old(self).running {
                id == Some(old(self).next_id) && final(self).took(old(self), host, dialled)
            } else {
                id is None && *final(self) == *old(self)
            },
    {
        if !self.running {
            return None;
        }
        let id: PeerId = self.next_id;
        let ghost before = self.peers@;
        self.next_id = id + 1;
        self.peers.insert(id, Peer::attached(host, dialled));
        assert forall|other: PeerId| #[trigger] has_peer(self.peers@, other) implies other
            < self.next_id by {
            let i = choose|i: int|
                0 <= i < self.peers@.len() && (#[trigger] self.peers@[i]).0 == other;
            if i < before.len() {
                assert(before[i].0 == other);
                assert(has_peer(before, other));
            }
        }
        Some(id)
    }

    /// Takes a connection out of the peer table, once both its threads are
    /// finished with it.
    pub fn detach_peer(&mut self, id: PeerId)
        requires
            old(self).wf(),
        ensures
            final(self).wf(),
            *final(self) == (Node { peers: final(self).peers, ..*old(self) }),
            final(self).peers@ == without(old(self).peers@, id),
    {
        let ghost before = self.peers@;
        self.peers.remove(id);
        proof {
            taking_out_adds_nobody(before, id);
        }
    }

    /// Counts a visitor this machine could not take, in the words of whatever
    /// refused it.
    pub fn could_not_take_a_visitor(&mut self, because: &str)
        requires
            old(self).wf(),
        ensures
            final(self).wf(),
            *final(self) == (Node {
                turned_away: old(self).turned_away.wrapping_add(1),
                unanswered: final(self).unanswered,
                ..*old(self)
            }),
            match final(self).unanswered {
                Some(said) => said.because@ == because@ && said.refusals == match old(self).unanswered {
                    Some(before) => before.refusals.saturating_add(1),
                    None => 1,
                },
                None => false,
            },
    {
        could_not_take_a_visitor(&mut self.unanswered, &mut self.turned_away, because);
    }

    /// Says a visitor was let in, so what is written down is a door that is
    /// still shut rather than one that was.
    pub fn took_a_visitor(&mut self)
        ensures
            *final(self) == (Node { unanswered: None, ..*old(self) }),
    {
        took_a_visitor(&mut self.unanswered);
    }

    /// Connections this node is holding, introduced or not.
    pub fn peer_count(&self) -> (count: usize)
        ensures
            count == self.peers@.len(),
    {
        self.peers.len()
    }

    /// Peers that have introduced themselves, which is the number worth
    /// showing a person.
    pub fn peers_introduced(&self) -> (count: usize)
        ensures
            count == spoken_to(self.peers@).len(),
    {
        self.peers.speakable().len()
    }

    /// Connected peers that say they keep the whole cold set.
    pub fn archiving_peers(&self) -> (count: usize)
        ensures
            count == archiving_in(self.peers@),
    {
        self.peers.archiving()
    }

    /// How a connection counts towards the counts of peers rather than of
    /// connections.
    pub fn sender_for(&self, id: PeerId) -> (sender: Option<Address>)
        ensures
            !has_peer(self.peers@, id) ==> sender is None,
            has_peer(self.peers@, id) ==> exists|peer: Peer| #[trigger]
                self.peers@.contains((id, peer)) && sender == counts_as(peer.advertised, peer.host),
    {
        match self.peers.get(id) {
            Some(peer) => sender_of(peer.advertised, peer.host),
            None => None,
        }
    }

    /// A record read back off this node's own disk. A read the disk refused is
    /// written down, and answers like a record that is not there.
    pub fn archived_at<T>(&mut self, height: u64, read: Result<Option<T>, String>) -> (found: Option<T>)
        requires
            old(self).wf(),
        ensures
            final(self).wf(),
            match read {
                Ok(record) => found == record && *final(self) == *old(self),
                Err(words) => found is None && *final(self) == (Node {
                    unread: final(self).unread,
                    ..*old(self)
                }) && final(self).has_noted(old(self), Reading::Blocks, height, words@),
            },
    {
        match read {
            Ok(record) => record,
            Err(words) => {
                could_not_read(&mut self.unread, Reading::Blocks, height, words.as_str());
                None
            },
        }
    }

    /// One more refused read is written down than `before` had.
    pub open spec fn has_noted(&self, before: &Node, what: Reading, height: u64, words: Seq<char>) -> bool {
        match self.unread {
            Some(unread) => unread.what == what && unread.height == height && unread.because@ == words
                && unread.refusals == match before.unread {
                Some(earlier) => earlier.refusals.saturating_add(1),
                None => 1,
            },
            None => false,
        }
    }

    /// A header read back off this node's own disk: out of the header log, and
    /// where that does not have it out of the block at that height, by
    /// `block`.
    ///
    /// The header log first: a node keeps every header and only the most
    /// recent blocks. A read either of them refused is written down.
    pub fn header_off_disk<T, B: FnOnce() -> Result<Option<T>, String>>(
        &mut self,
        height: u64,
        header: Result<Option<T>, String>,
        block: B,
    ) -> (found: Option<T>)
        requires
            old(self).wf(),
            !(header matches Ok(Some(_))) ==> call_requires(block, ()),
        ensures
            final(self).wf(),
            *final(self) == (Node { unread: final(self).unread, ..*old(self) }),
            match header {
                Ok(Some(record)) => found == Some(record) && *final(self) == *old(self),
                Ok(None) => exists|read: Result<Option<T>, String>| #[trigger]
                    call_ensures(block, (), read) && match read {
                        Ok(record) => found == record && final(self).unread == old(self).unread,
                        Err(words) => found is None && final(self).has_noted(
                            old(self),
                            Reading::Blocks,
                            height,
                            words@,
                        ),
                    },
                Err(said) => exists|read: Result<Option<T>, String>| #[trigger]
                    call_ensures(block, (), read) && match read {
                        Ok(record) => found == record && final(self).has_noted(
                            old(self),
                            Reading::Headers,
                            height,
                            said@,
                        ),
                        Err(words) => found is None && (final(self).unread matches Some(unread)
                            && unread.what == Reading::Blocks && unread.height == height
                            && unread.because@ == words@ && unread.refusals == match old(self).unread {
                            Some(earlier) => earlier.refusals.saturating_add(2),
                            None => 2,
                        }),
                    },
            },
    {
        match header {
            Ok(Some(record)) => {
                return Some(record);
            },
            Ok(None) => {},
            Err(words) => {
                self.could_not_read(Reading::Headers, height, words.as_str());
            },
        }
        let read = block();
        assert(call_ensures(block, (), read));
        match read {
            Ok(record) => record,
            Err(words) => {
                self.could_not_read(Reading::Blocks, height, words.as_str());
                None
            },
        }
    }

    /// Writes down one read of this node's own disk that the disk refused.
    pub fn could_not_read(&mut self, what: Reading, height: u64, because: &str)
        requires
            old(self).wf(),
        ensures
            final(self).wf(),
            *final(self) == (Node { unread: final(self).unread, ..*old(self) }),
            final(self).has_noted(old(self), what, height, because@),
    {
        could_not_read(&mut self.unread, what, height, because);
    }

    /// Writes down what the last pass at the disk left behind, and stops the
    /// node once what was left can no longer be made good.
    pub fn note_writing(&mut self, wrote: &Wrote, reached: Option<u64>)
        requires
            old(self).wf(),
        ensures
            final(self).wf(),
            *final(self) == (Node {
                unwritten: final(self).unwritten,
                running: final(self).running,
                ..*old(self)
            }),
            final(self).running == (old(self).running && !past_saving(
                old(self).unwritten,
                wrote,
                reached,
            )),
            comes_of_writing(old(self).unwritten, wrote, reached, final(self).unwritten),
    {
        if !note_writing(&mut self.unwritten, wrote, reached) {
            self.running = false;
        }
    }

    /// Notes a write the disk refused outside the writing of a branch, for a
    /// chain at `tip` over a block log reaching `on_disk`.
    pub fn note_refusal(&mut self, refusing: Refusing, on_disk: u64, tip: Option<u64>)
        requires
            old(self).wf(),
        ensures
            final(self).wf(),
            *final(self) == (Node {
                unwritten: final(self).unwritten,
                running: final(self).running,
                ..*old(self)
            }),
            final(self).running == (old(self).running && !past_saving(
                old(self).unwritten,
                &(Wrote { reaches: on_disk, refusing: Some(refusing) }),
                tip,
            )),
            comes_of_writing(
                old(self).unwritten,
                &(Wrote { reaches: on_disk, refusing: Some(refusing) }),
                tip,
                final(self).unwritten,
            ),
    {
        let wrote = Wrote { reaches: on_disk, refusing: Some(refusing) };
        self.note_writing(&wrote, tip);
    }

    /// Sets how many bytes of blocks this node keeps on disk. The most there
    /// is keeps every block ever accepted.
    pub fn keep_blocks(&mut self, bytes: u64)
        ensures
            *final(self) == (Node { keep_bytes: bytes, ..*old(self) }),
    {
        self.keep_bytes = bytes;
    }

    /// How many bytes of blocks this node is holding on disk, given what its
    /// block log says: none for a node without one.
    pub fn kept_bytes(&self, log: Option<u64>) -> (bytes: u64)
        ensures
            bytes == match log {
                Some(bytes) => bytes,
                None => 0,
            },
    {
        match log {
            Some(bytes) => bytes,
            None => 0,
        }
    }

    /// The highest block on the disk, given the block log.
    pub fn written_through(&self, log: Option<Extent>) -> (height: Option<u64>)
        ensures
            height == match log {
                Some(log) => if log.reaches == 0 {
                    None
                } else {
                    Some((log.reaches - 1) as u64)
                },
                None => None,
            },
    {
        match log {
            Some(log) => log.reaches.checked_sub(1),
            None => None,
        }
    }

    /// The lowest block on the disk, given the block log.
    pub fn blocks_from(&self, log: Option<Extent>) -> (height: Option<u64>)
        ensures
            height == match log {
                Some(log) => Some(log.first),
                None => None,
            },
    {
        match log {
            Some(log) => Some(log.first),
            None => None,
        }
    }

    /// What becomes of asking for this node's ledger to be written down, for a
    /// chain with the tip `tip`.
    pub fn write_ledger(&self, tip: Option<Hash32>) -> (owed: LedgerOwed)
        ensures
            owed == match (tip, self.written) {
                (None, _) => LedgerOwed::Nothing,
                (Some(tip), Some((for_tip, at))) if for_tip == tip => LedgerOwed::Written(at),
                _ => LedgerOwed::Build,
            },
    {
        ledger_owed(tip, self.written)
    }

    /// Notes that the ledger at `at` was written down for a chain with the tip
    /// `tip`.
    pub fn ledger_written(&mut self, tip: Hash32, at: Located)
        ensures
            *final(self) == (Node { written: Some((tip, at)), ..*old(self) }),
    {
        self.written = Some((tip, at));
    }

    /// Whether the disk has grown past what this node was asked to hold.
    pub fn is_over_its_budget(&self, bytes: Option<u64>) -> (over: bool)
        ensures
            over == (bytes matches Some(bytes) && bytes > self.keep_bytes),
    {
        over_its_budget(bytes, self.keep_bytes)
    }

    /// Where to cut the block log once the ledger at `at` is written down, or
    /// `None` where nothing is to be cut.
    pub fn trim_history(&self, at: Located, agrees: bool, log: Extent, bytes: u64) -> (from: Option<u64>)
        requires
            log.wf(),
        ensures
            match from {
                Some(from) => agrees && log.held_at(at.height) && from > log.first && from == cut_at(
                    at.height,
                    (log.reaches - log.first) as u64,
                    bytes,
                    self.keep_bytes,
                ),
                None => !agrees || !log.held_at(at.height) || cut_at(
                    at.height,
                    (log.reaches - log.first) as u64,
                    bytes,
                    self.keep_bytes,
                ) <= log.first,
            },
    {
        trim_history(at, agrees, log, bytes, self.keep_bytes)
    }

    /// How far this node is through joining a chain it was not on, for a chain
    /// at `height`.
    ///
    /// A node on probation reports the join as done, because it is: what that
    /// does not say is that the node stands behind it.
    pub fn joining(&mut self, height: Option<u64>) -> (joined: Joined)
        requires
            old(self).wf(),
        ensures
            final(self).wf(),
            *final(self) == (Node {
                undertaking: if still_owed(old(self).undertaking, height) is Some {
                    old(self).undertaking
                } else {
                    None
                },
                ..*old(self)
            }),
            joined == if still_owed(old(self).undertaking, height) is Some {
                Joined::Done
            } else {
                match old(self).joining@ {
                    ProgressView::Idle => Joined::NotYet,
                    ProgressView::Weighing(_) => Joined::Weighing,
                    ProgressView::Weighed { .. } | ProgressView::Fetching { .. } => Joined::Fetching,
                    ProgressView::Landed => Joined::Done,
                }
            },
    {
        if self.probation(height).is_some() {
            return Joined::Done;
        }
        self.joining.reported()
    }

    /// What this node has still to check before it stands behind the ledger it
    /// was handed, for a chain at `height`, or `None` for a node that owes
    /// nothing.
    pub fn probation(&mut self, height: Option<u64>) -> (owed: Option<Probation>)
        requires
            old(self).wf(),
        ensures
            final(self).wf(),
            owed == still_owed(old(self).undertaking, height),
            *final(self) == (Node {
                undertaking: if owed is Some {
                    old(self).undertaking
                } else {
                    None
                },
                ..*old(self)
            }),
    {
        probation_at(&mut self.undertaking, height)
    }

    /// Writes down what this node has taken on by adopting an anchor.
    pub fn undertake(&mut self, anchor: u64, settles_at: u64, now: u64)
        ensures
            *final(self) == (Node {
                undertaking: if anchor < settles_at {
                    Some(
                        Undertaking {
                            anchor,
                            settles_at,
                            reached: anchor,
                            moved: now,
                            asked: None,
                        },
                    )
                } else {
                    None
                },
                ..*old(self)
            }),
    {
        self.undertaking = Undertaking::resumed(anchor, settles_at, Some(anchor), now);
    }

    /// Sets how long this node waits for the blocks above an anchor it was
    /// handed before it says it is stranded.
    pub fn wait_for_the_burial(&mut self, seconds: u64)
        ensures
            *final(self) == (Node { stranding_patience: seconds, ..*old(self) }),
    {
        self.stranding_patience = seconds;
    }

    /// One round of what a node handed a ledger owes itself, for a chain at
    /// `height`: `true` when everybody is to be asked for the blocks above it.
    pub fn keep_the_undertaking(&mut self, height: Option<u64>, now: u64) -> (ask_everybody: bool)
        requires
            old(self).wf(),
        ensures
            final(self).wf(),
            *final(self) == (Node {
                undertaking: final(self).undertaking,
                stranded: final(self).stranded,
                running: final(self).running,
                ..*old(self)
            }),
            still_owed(old(self).undertaking, height) is None ==> !ask_everybody && final(self).undertaking is None && final(self).running == old(self).running && final(self).stranded
                == old(self).stranded,
            still_owed(old(self).undertaking, height) matches Some(probation) ==> {
                let held = old(self).undertaking->0;
                let still = !held.restarts(probation.reached, now) && spoken_to(
                    old(self).peers@,
                ).len() > 0;
                let given_up = still && now - held.moved >= old(self).stranding_patience;
                let asked = still && !given_up && held.is_due(now);
                &&& ask_everybody == asked
                &&& final(self).undertaking == Some(
                    Undertaking {
                        anchor: held.anchor,
                        settles_at: held.settles_at,
                        reached: if probation.reached > held.reached {
                            probation.reached
                        } else {
                            held.reached
                        },
                        moved: if held.restarts(probation.reached, now) {
                            now
                        } else {
                            held.moved
                        },
                        asked: if asked {
                            Some(now)
                        } else {
                            held.asked
                        },
                    },
                )
                &&& final(self).running == (old(self).running && !given_up)
                &&& final(self).stranded == if !given_up || old(self).stranded is Some {
                    old(self).stranded
                } else {
                    Some(
                        Stranded {
                            anchor: held.anchor,
                            settles_at: held.settles_at,
                            waited: (now - held.moved) as u64,
                            out_of_reach: old(self).out_of_reach,
                        },
                    )
                }
            },
    {
        let connected: usize = self.peers.speakable().len();
        let owed = probation_round(
            &mut self.undertaking,
            height,
            connected,
            self.stranding_patience,
            self.out_of_reach,
            now,
        );
        keep_the_undertaking(owed, &mut self.stranded, &mut self.running)
    }

    /// Why this node cannot get on from where it stands, if it cannot.
    pub fn stranded(&self) -> (stranded: Option<Stranded>)
        ensures
            stranded == self.stranded,
    {
        self.stranded
    }

    /// What the disk said when it would not take the address book.
    pub fn unsaved_addresses(&self) -> (words: &Option<String>)
        ensures
            *words == self.unsaved_book,
    {
        &self.unsaved_book
    }

    /// What this node has taken on and not managed to put on its disk.
    pub fn unwritten(&self) -> (unwritten: &Option<Unwritten>)
        ensures
            *unwritten == self.unwritten,
    {
        &self.unwritten
    }

    /// A record this node holds, was asked for, and could not read back.
    pub fn unread(&self) -> (unread: &Option<Unread>)
        ensures
            *unread == self.unread,
    {
        &self.unread
    }

    /// What says this build, with rules up to version `known`, is too old for
    /// the chain it is on.
    pub fn unjudged(&self, known: u16) -> (said: Option<Unjudged>)
        requires
            self.wf(),
        ensures
            said is Some <==> self.unjudged@.says_too_old(),
            said matches Some(said) ==> said.version == self.unjudged.version && said.known == known
                && said.blocks == self.unjudged.blocks && said.peers == self.unjudged@.peers.len()
                && said.over == self.unjudged.last - self.unjudged.first,
    {
        too_old_for_the_chain(&self.unjudged, known)
    }

    /// What says this node cannot weigh the chain it is being offered. Nothing
    /// on a node that has a chain.
    pub fn unweighable(&self, empty: bool) -> (said: Option<Unweighable>)
        requires
            self.wf(),
        ensures
            said is Some <==> empty && self.unweighed@.says_unweighable(),
            said matches Some(said) ==> said.because@ == self.unweighed.because@ && said.showings
                == self.unweighed.showings && said.peers == self.unweighed@.peers.len()
                && said.over == self.unweighed.last - self.unweighed.first,
    {
        if !empty {
            return None;
        }
        no_showing_checks_out(&self.unweighed)
    }

    /// What says this machine's clock is behind the network's, for rules that
    /// allow `drift` seconds.
    pub fn clock_behind(&self, drift: u64, empty: bool) -> (said: Option<Behind>)
        requires
            self.wf(),
        ensures
            said is Some <==> self.out_of_step@.says_behind(empty),
            said matches Some(said) ==> said.seconds == self.out_of_step.ahead && said.drift == drift
                && said.blocks == self.out_of_step.blocks && said.peers
                == self.out_of_step@.peers.len() && said.own_first_block == (
            self.out_of_step.own_first_block && empty),
    {
        clock_is_behind(&self.out_of_step, drift, empty)
    }

    /// What a node that cannot yet show a newcomer the chain is still missing,
    /// for a chain at `height` over header logs standing at `headers`, with
    /// `proved` leaves in the forest and `bytes` of blocks on the disk. `None`
    /// for one that can show it now.
    pub fn filling(&self, headers: &Headers, height: Option<u64>, bytes: u64) -> (filling: Option<Filling>)
        requires
            headers.wf(),
        ensures
            ({
                let reaches = match height {
                    Some(tip) => tip.saturating_add(1),
                    None => 0,
                };
                filling == if headers.own.first == 0 && headers.own.reaches >= reaches && headers.leaves >= reaches {
                    None
                } else {
                    Some(
                        Filling {
                            from: headers.own.first,
                            through: headers.own.reaches,
                            proved: headers.leaves,
                            reaches,
                            bytes,
                            keep: self.keep_bytes,
                        },
                    )
                }
            }),
    {
        let reaches: u64 = match height {
            Some(tip) => tip.saturating_add(1),
            None => 0,
        };
        if headers.can_show_the_chain(reaches) {
            return None;
        }
        Some(
            Filling {
                from: headers.own.first,
                through: headers.own.reaches,
                proved: headers.leaves,
                reaches,
                bytes,
                keep: self.keep_bytes,
            },
        )
    }

    /// Blocks this node was offered and can never reach.
    pub fn out_of_reach(&self) -> (blocks: u64)
        ensures
            blocks == self.out_of_reach,
    {
        self.out_of_reach
    }

    /// Offers a locally produced block, for a chain at `height`, to the chain
    /// by `submit`; with what came of it, whether to announce it.
    ///
    /// Refused while this node is on probation: a block made here is built on
    /// the ledger this node is holding, and a node that cannot yet be trusted
    /// to know what the chain is has no business manufacturing blocks on it.
    pub fn submit_block<S: FnOnce() -> Result<Accepted, String>>(
        &mut self,
        height: Option<u64>,
        submit: S,
    ) -> (outcome: Result<(Accepted, bool), Refused>)
        requires
            old(self).wf(),
            still_owed(old(self).undertaking, height) is None ==> call_requires(submit, ()),
        ensures
            final(self).wf(),
            *final(self) == (Node {
                undertaking: if still_owed(old(self).undertaking, height) is Some {
                    old(self).undertaking
                } else {
                    None
                },
                ..*old(self)
            }),
            match still_owed(old(self).undertaking, height) {
                Some(probation) => outcome == Err::<(Accepted, bool), Refused>(
                    Refused::OnProbation(probation),
                ),
                None => match outcome {
                    Ok((accepted, announce)) => call_ensures(
                        submit,
                        (),
                        Ok::<Accepted, String>(accepted),
                    ) && announce == is_new_on_the_branch(accepted),
                    Err(Refused::Block(words)) => call_ensures(
                        submit,
                        (),
                        Err::<Accepted, String>(words),
                    ),
                    Err(_) => false,
                },
            },
    {
        match self.probation(height) {
            Some(probation) => {
                return Err(Refused::OnProbation(probation));
            },
            None => {},
        }
        match submit() {
            Ok(accepted) => {
                let announce: bool = match accepted {
                    Accepted::Extended | Accepted::Reorganised { .. } => true,
                    Accepted::SideBranch | Accepted::Duplicate => false,
                };
                Ok((accepted, announce))
            },
            Err(words) => Err(Refused::Block(words)),
        }
    }

    /// Offers a transfer, for a chain at `height`, to the pool by `submit`,
    /// which answers whether it was new there; one that was is passed on.
    ///
    /// Refused while this node is on probation, for the same reason a block
    /// is.
    pub fn submit_transaction<S: FnOnce() -> Result<bool, String>>(
        &mut self,
        height: Option<u64>,
        submit: S,
    ) -> (outcome: Result<bool, Refused>)
        requires
            old(self).wf(),
            still_owed(old(self).undertaking, height) is None ==> call_requires(submit, ()),
        ensures
            final(self).wf(),
            *final(self) == (Node {
                undertaking: if still_owed(old(self).undertaking, height) is Some {
                    old(self).undertaking
                } else {
                    None
                },
                ..*old(self)
            }),
            match still_owed(old(self).undertaking, height) {
                Some(probation) => outcome == Err::<bool, Refused>(Refused::OnProbation(probation)),
                None => match outcome {
                    Ok(fresh) => call_ensures(submit, (), Ok::<bool, String>(fresh)),
                    Err(Refused::Transfer(words)) => call_ensures(
                        submit,
                        (),
                        Err::<bool, String>(words),
                    ),
                    Err(_) => false,
                },
            },
    {
        match self.probation(height) {
            Some(probation) => {
                return Err(Refused::OnProbation(probation));
            },
            None => {},
        }
        match submit() {
            Ok(fresh) => Ok(fresh),
            Err(words) => Err(Refused::Transfer(words)),
        }
    }

    /// Offers a transfer this node already holds to every peer again by
    /// `send` through `hand`, and says how many took it into their queue.
    /// Nought for one no longer in the pool: there is nothing to offer.
    pub fn offer_again<S, F: Fn(S, PeerId) -> (S, bool)>(&self, pooled: bool, hand: S, send: F) -> (taken:
        (S, usize))
        requires
            pooled ==> may_be_sent(self.peers@, None, send),
        ensures
            if pooled {
                exists|made: Seq<(S, bool)>| #[trigger]
                    are_sendings(spoken_to_but(self.peers@, None), hand, send, made) && taken.0
                        == handed_on(hand, made) && taken.1 == how_many(made)
            } else {
                taken.0 == hand && taken.1 == 0
            },
    {
        if !pooled {
            return (hand, 0);
        }
        self.peers.broadcast(None, hand, send)
    }

    /// Takes headers offered at the operator's own door rather than by a peer:
    /// whoever the node is filling from stands as their sender, and the turn
    /// is renewed.
    pub fn take_offered_headers(&mut self, now: u64) -> (peer: PeerId)
        ensures
            ({
                let (held, marked) = match old(self).filling_from {
                    Some(turn) => (turn.peer, turn.marked),
                    None => (0, 0),
                };
                &&& peer == held
                &&& *final(self) == (Node {
                    filling_from: Some(Turn { peer: held, moved: now, marked, spoiled: false }),
                    ..*old(self)
                })
            }),
    {
        let (peer, marked): (PeerId, u64) = match self.filling_from {
            Some(turn) => (turn.peer, turn.marked),
            None => (0, 0),
        };
        self.filling_from = Some(Turn { peer, moved: now, marked, spoiled: false });
        peer
    }

    /// Writes down what a peer said it keeps, beside its connection.
    pub fn note_what_it_keeps(&mut self, id: PeerId, archives: bool)
        requires
            old(self).wf(),
        ensures
            final(self).wf(),
            *final(self) == (Node { peers: final(self).peers, ..*old(self) }),
            final(self).peers@ == with_greeting(old(self).peers@, id, archives),
    {
        let ghost before = self.peers@;
        self.peers.note_what_it_keeps(id, archives);
        assert forall|other: PeerId| #[trigger] has_peer(self.peers@, other) implies other
            < self.next_id by {
            let i = choose|i: int|
                0 <= i < self.peers@.len() && (#[trigger] self.peers@[i]).0 == other;
            assert(before[i].0 == other);
            assert(has_peer(before, other));
        }
    }

    /// Writes down the three blocks a node refuses without blaming anybody.
    ///
    /// None of them is the peer's doing, and all are counted, so a run of them
    /// from several peers can be read for what it is.
    pub fn note_what_was_not_taken(&mut self, reaction: &Reaction, from: Option<Address>, now: u64)
        requires
            old(self).wf(),
        ensures
            final(self).wf(),
            *final(self) == (Node {
                out_of_reach: final(self).out_of_reach,
                unjudged: final(self).unjudged,
                out_of_step: final(self).out_of_step,
                ..*old(self)
            }),
            final(self).out_of_reach == if reaction.unreachable is Some {
                old(self).out_of_reach.wrapping_add(1)
            } else {
                old(self).out_of_reach
            },
            final(self).unjudged@ == match reaction.unjudged {
                Some(version) => old(self).unjudged@.counting(from, version, now),
                None => old(self).unjudged@,
            },
            final(self).out_of_step@ == match reaction.ahead_of_the_clock {
                Some(ahead) => old(self).out_of_step@.counting(from, ahead, now),
                None => old(self).out_of_step@,
            },
    {
        if reaction.unreachable.is_some() {
            self.out_of_reach = self.out_of_reach.wrapping_add(1);
        }
        match reaction.unjudged {
            Some(version) => {
                count_unreadable(&mut self.unjudged, from, version, now);
            },
            None => {},
        }
        match reaction.ahead_of_the_clock {
            Some(ahead) => {
                count_out_of_step(&mut self.out_of_step, from, ahead, now);
            },
            None => {},
        }
    }

    /// Writes down that this build's own first block was refused for standing
    /// `ahead` seconds ahead of this machine's clock.
    pub fn own_first_block_refused(&mut self, ahead: u64, now: u64)
        requires
            old(self).wf(),
        ensures
            final(self).wf(),
            *final(self) == (Node { out_of_step: final(self).out_of_step, ..*old(self) }),
            final(self).out_of_step@ == (OutOfStepView {
                own_first_block: true,
                ..old(self).out_of_step@
            }).counting(None, ahead, now),
    {
        self.out_of_step.own_first_block = true;
        count_out_of_step(&mut self.out_of_step, None, ahead, now);
    }

    /// Counts a showing of the work behind a chain that would not weigh.
    pub fn could_not_weigh(&mut self, from: Option<Address>, because: &str, now: u64)
        requires
            old(self).wf(),
        ensures
            final(self).wf(),
            *final(self) == (Node { unweighed: final(self).unweighed, ..*old(self) }),
            final(self).unweighed@ == old(self).unweighed@.counting(from, because@, now),
    {
        count_unweighed(&mut self.unweighed, from, because, now);
    }

    /// Notes rules this software turned out not to have, keeping the first
    /// account of them.
    pub fn is_outdated(&mut self, outdated: Outdated)
        ensures
            *final(self) == (Node {
                outdated: if old(self).outdated is Some {
                    old(self).outdated
                } else {
                    Some(outdated)
                },
                ..*old(self)
            }),
    {
        if self.outdated.is_none() {
            self.outdated = Some(outdated);
        }
    }

    /// Stops the node over rules it does not have: every peer that has updated
    /// would send the same block, so it is nothing to let a peer go over.
    pub fn stop_as_outdated(&mut self, outdated: Outdated)
        ensures
            *final(self) == (Node {
                outdated: if old(self).outdated is Some {
                    old(self).outdated
                } else {
                    Some(outdated)
                },
                running: false,
                ..*old(self)
            }),
    {
        self.is_outdated(outdated);
        self.running = false;
    }

    /// The rules this node turned out not to have, if it met any.
    pub fn outdated(&self) -> (outdated: Option<Outdated>)
        ensures
            outdated == self.outdated,
    {
        self.outdated
    }

    /// Why this node is not taking connections, if it is not.
    pub fn unanswered(&self) -> (unanswered: &Option<Unanswered>)
        ensures
            *unanswered == self.unanswered,
    {
        &self.unanswered
    }

    /// Visitors this node could not take, over its whole life.
    pub fn turned_away(&self) -> (count: u64)
        ensures
            count == self.turned_away,
    {
        self.turned_away
    }

    /// Forest nodes this node found torn and built again from the leaves.
    pub fn mended_nodes(&self) -> (count: u64)
        ensures
            count == self.mended_nodes,
    {
        self.mended_nodes
    }

    /// Questions this node has put to the network about where fallen notes
    /// sit.
    pub fn proofs_asked_for(&self) -> (count: u64)
        ensures
            count == self.proofs_asked_for,
    {
        self.proofs_asked_for
    }

    /// Begins asking the network where these fallen notes sit, and hands back
    /// the places for the question; `None` where nothing is asked, and nothing
    /// changes.
    ///
    /// The question replaces whatever was being asked before it.
    pub fn recover_proofs(&mut self, wanted: &Vec<(u64, Hash32)>) -> (positions: Option<Vec<u64>>)
        requires
            old(self).wf(),
        ensures
            final(self).wf(),
            wanted@.len() == 0 ==> positions is None && *final(self) == *old(self),
            wanted@.len() > 0 ==> {
                &&& *final(self) == (Node {
                    proofs_asked_for: old(self).proofs_asked_for.wrapping_add(1),
                    asking: final(self).asking,
                    ..*old(self)
                })
                &&& final(self).asking@ == (AskingView {
                    wanted: places(what_fits(wanted@)),
                    ..AskingView::nothing()
                })
                &&& positions matches Some(positions) && climbs(positions@) && forall|position: u64|
                    positions@.contains(position) <==> #[trigger] final(self).asking@.wanted.contains_key(
                        position,
                    )
            },
    {
        if wanted.len() == 0 {
            return None;
        }
        self.proofs_asked_for = self.proofs_asked_for.wrapping_add(1);
        let (asking, positions) = Asking::about(wanted);
        self.asking = asking;
        Some(positions)
    }

    /// The peers to put the question to this round that it has not been put
    /// to, and how many of those worth asking said they keep the cold set.
    pub fn asks_about_proofs(&mut self) -> (asked: (Vec<PeerId>, usize))
        requires
            old(self).wf(),
        ensures
            final(self).wf(),
            *final(self) == (Node { asking: final(self).asking, ..*old(self) }),
            ({
                let keeping = old(self).peers@.map_values(
                    |entry: (PeerId, Peer)| (entry.0, entry.1.archives),
                );
                let worth_it = if archivists(keeping).len() > 0 {
                    archivists(keeping)
                } else {
                    keeping.map_values(|peer: (PeerId, bool)| peer.0)
                };
                &&& asked.1 == archivists(keeping).len()
                &&& asked.0@ == fresh_of(worth_it, old(self).asking@.asked)
                &&& final(self).asking@ == (AskingView {
                    asked: old(self).asking@.asked.union(worth_it.to_set()),
                    ..old(self).asking@
                })
            }),
    {
        let keeping = self.peers.keeping();
        let (worth_it, archiving) = worth_asking(&keeping);
        let fresh = self.asking.fresh(&worth_it);
        (fresh, archiving)
    }

    /// The account of the question, once there is nothing further to wait on
    /// or no time left, and the end of it.
    pub fn recovered(&mut self, archiving: usize, out_of_time: bool) -> (done: Option<Recovered>)
        requires
            old(self).wf(),
        ensures
            final(self).wf(),
            *final(self) == (Node { asking: final(self).asking, ..*old(self) }),
            done is Some <==> old(self).asking@.is_over() || out_of_time,
            done matches Some(done) ==> is_account_of(old(self).asking@, archiving, done) && final(self).asking@ == AskingView::nothing(),
            done is None ==> final(self).asking == old(self).asking,
    {
        self.asking.over(archiving, out_of_time)
    }

    /// A connection about to be read, which starts where its address left off.
    pub fn connection_begun(
        &mut self,
        id: PeerId,
        remote: Option<Host>,
        dialled: Option<Address>,
        now: u64,
    ) -> (connection: Connection)
        requires
            old(self).wf(),
        ensures
            final(self).wf(),
            *final(self) == (Node { windows: final(self).windows, ..*old(self) }),
            final(self).windows.crowded == old(self).windows.crowded,
            match remote {
                None => connection.allowance == Allowance::Own && final(self).windows.marks@
                    == old(self).windows.marks@,
                Some(host) => if mark_of(old(self).windows.marks@, host) is Some {
                    connection.allowance == Allowance::At(host) && final(self).windows.marks@
                        == held_by(old(self).windows.marks@, host, true)
                } else if old(self).windows.marks@.len() >= MAX_ADDRESS_WINDOWS {
                    connection.allowance == Allowance::Crowded && final(self).windows.marks@
                        == old(self).windows.marks@
                } else {
                    connection.allowance == Allowance::At(host) && final(self).windows.marks@
                        == old(self).windows.marks@.push(
                        (Mark { host, window: Window { started: 0, spent: 0 }, holders: 1 }),
                    )
                },
            },
            connection.id == id,
            connection.remote == remote,
            connection.dialled == dialled,
            connection.peer@ == match final(self).windows.window_of(connection.allowance) {
                Some(mark) => starting_from(PeerView::stranger(remote), mark),
                None => PeerView::stranger(remote),
            },
            !connection.announced,
            connection.last_heard == now,
            connection.window_start == now,
            connection.in_window == 0,
            !connection.misbehaved,
    {
        let allowance = self.windows.allowance_for(remote);
        let mut connection = Connection::started(id, remote, dialled, allowance, now);
        self.windows.lend(allowance, &mut connection.peer);
        connection
    }

    /// Clears up after a connection that has ended: its host is turned away
    /// where it misbehaved, and its allowance let go of. What comes back is
    /// the address to count a miss against, if there is one.
    pub fn connection_ended(&mut self, connection: &Connection, now: u64) -> (missed: Option<Address>)
        requires
            old(self).wf(),
        ensures
            final(self).wf(),
            *final(self) == (Node {
                refusals: final(self).refusals,
                windows: final(self).windows,
                ..*old(self)
            }),
            missed == if connection.peer.greeted {
                None
            } else {
                connection.dialled
            },
            match connection.remote {
                Some(host) if connection.misbehaved => comes_of_refusing(
                    old(self).refusals@,
                    host,
                    now,
                    final(self).refusals@,
                ),
                _ => final(self).refusals == old(self).refusals,
            },
            final(self).windows.crowded == old(self).windows.crowded,
            final(self).windows.marks@ == match connection.allowance {
                Allowance::At(host) => held_by(old(self).windows.marks@, host, false),
                _ => old(self).windows.marks@,
            },
    {
        let held = note_the_ending(connection);
        match held.refuse {
            Some(host) => {
                self.refusals.refuse(host, now);
            },
            None => {},
        }
        self.windows.let_go(connection.allowance);
        held.missed
    }

    /// Begins a shutdown, and says whether it is this call that began it: what
    /// a shutdown does is done once, however often it is asked for.
    pub fn shutdown(&mut self) -> (first: bool)
        ensures
            first == !old(self).winding_down,
            *final(self) == (Node { running: false, winding_down: true, ..*old(self) }),
    {
        self.running = false;
        let first: bool = !self.winding_down;
        self.winding_down = true;
        first
    }
}

/// Whether a block moved the branch being followed.
pub open spec fn is_new_on_the_branch(accepted: Accepted) -> bool {
    accepted is Extended || accepted is Reorganised
}

proof fn taking_out_adds_nobody(peers: Seq<(PeerId, Peer)>, id: PeerId)
    ensures
        forall|other: PeerId| #[trigger]
            has_peer(without(peers, id), other) ==> has_peer(peers, other),
    decreases peers.len(),
{
    if peers.len() > 0 {
        let shorter = peers.drop_last();
        taking_out_adds_nobody(shorter, id);
        assert forall|other: PeerId| #[trigger] has_peer(without(peers, id), other) implies has_peer(
            peers,
            other,
        ) by {
            let left = without(peers, id);
            let i = choose|i: int| 0 <= i < left.len() && (#[trigger] left[i]).0 == other;
            let before = without(shorter, id);
            if i < before.len() {
                assert(before[i].0 == other);
                assert(has_peer(before, other));
                let j = choose|j: int| 0 <= j < shorter.len() && (#[trigger] shorter[j]).0 == other;
                assert(peers[j].0 == other);
            } else {
                assert(peers[peers.len() - 1].0 == other);
            }
        }
    }
}

/// A host this node is refusing is turned away at every door into the peer
/// table: a visitor from it is not taken in, a round of dialling passes it
/// over, and a connection asked for by name is not kept.
pub proof fn a_refused_host_is_turned_away_at_every_door(node: &Node, address: Address, now: u64)
    requires
        node.wf(),
        turned_away(node.refusals@, address.host, now),
    ensures
        admission(node.running, node.peers@, node.refusals@, address.host, now) != Admitted::TakenIn,
        !may_be_dialled(&node.peers, &node.refusals, address, now),
        node.turns_away(Some(address.host), now) == Some(Unkept::Refusing),
{
}

/// A nonce is the number that the eight bytes drawn spell, least first. Without
/// them it is the time, where that is a number this size, and one otherwise.
pub proof fn a_nonce_is_what_was_drawn(drawn: Option<[u8; 8]>, clock: Option<u128>, nonce: u64)
    requires
        call_ensures(nonce_from, (drawn, clock), nonce),
    ensures
        drawn matches Some(bytes) ==> {
            let b = bytes@;
            nonce == b[0] + 0x100 * b[1] + 0x1_0000 * b[2] + 0x100_0000 * b[3] + 0x1_0000_0000
                * b[4] + 0x100_0000_0000 * b[5] + 0x1_0000_0000_0000 * b[6]
                + 0x100_0000_0000_0000 * b[7]
        },
        drawn is None ==> (clock matches Some(nanoseconds) ==> (nanoseconds <= u64::MAX ==> nonce
            == nanoseconds) && (nanoseconds > u64::MAX ==> nonce == 1)),
        drawn is None && clock is None ==> nonce == 1,
{
}

/// Nobody at a host being turned away is dialled.
pub proof fn a_host_turned_away_is_not_dialled(
    node: &Node,
    address: Address,
    now: u64,
    unkept: Option<Unkept>,
    refused: bool,
)
    requires
        call_ensures(Node::may_dial, (node, address, now), unkept),
        call_ensures(Refusals::refuses, (&node.refusals, address.host, now), refused),
    ensures
        refused ==> unkept == Some(Unkept::Refusing),
        !refused ==> unkept is None,
{
}

/// A connection made is kept unless its host is being turned away, there is no
/// room for it, or the node has stopped, and which of those it was is said. One
/// kept gets a number never given before and is held as dialled to its address.
pub proof fn a_connection_made_is_kept_where_there_is_room(
    node: &mut Node,
    address: Address,
    written: &str,
    host: Host,
    now: u64,
    kept: Result<PeerId, NodeError>,
    refused: bool,
    room: bool,
)
    requires
        call_ensures(Node::connect, (node, address, written, Some(host), now), kept),
        call_ensures(Refusals::refuses, (&old(node).refusals, host, now), refused),
        call_ensures(Peers::has_room_for, (&old(node).peers, Some(host)), room),
        old(node).next_id < u64::MAX,
    ensures
        kept is Ok <==> !refused && room && old(node).running,
        kept matches Err(error) ==> *final(node) == *old(node) && (
        error@ matches NodeErrorView::NotKept { address: said, because } && said == written@ && (
        because is Refusing <==> refused) && (because is Full <==> !refused && !room) && (
        because is Stopping <==> !refused && room && !old(node).running)),
        kept matches Ok(id) ==> {
            &&& id == old(node).next_id
            &&& final(node).next_id == id + 1
            &&& final(node).peers@.len() == old(node).peers@.len() + 1
            &&& final(node).peers@.drop_last() == old(node).peers@
            &&& final(node).peers@.last().0 == id
            &&& final(node).peers@.last().1.host == Some(host)
            &&& final(node).peers@.last().1.dialled_to == Some(address)
            &&& final(node).peers@.last().1.dialled && !final(node).peers@.last().1.greeted
            &&& final(node).peers@.last().1.advertised is None
        },
{
    match kept {
        Ok(_) => {
            assert(final(node).peers@.drop_last() =~= old(node).peers@);
        },
        Err(_) => {},
    }
}

/// A connection is taken on by a node that is running, under a number never
/// given before, and is held as dialled exactly when this node dialled it.
pub proof fn a_running_node_takes_connections_on(
    node: &mut Node,
    host: Option<Host>,
    dialled: Option<Address>,
    id: Option<PeerId>,
)
    requires
        call_ensures(Node::attach_peer, (node, host, dialled), id),
        old(node).next_id < u64::MAX,
    ensures
        id is Some <==> old(node).running,
        id is None ==> *final(node) == *old(node),
        id matches Some(id) ==> {
            &&& id == old(node).next_id && final(node).next_id == id + 1
            &&& final(node).peers@.drop_last() == old(node).peers@
            &&& final(node).peers@.len() == old(node).peers@.len() + 1
            &&& final(node).peers@.last().0 == id
            &&& final(node).peers@.last().1.host == host
            &&& final(node).peers@.last().1.dialled_to == dialled
            &&& final(node).peers@.last().1.dialled <==> dialled is Some
            &&& !final(node).peers@.last().1.greeted
        },
{
    match id {
        Some(_) => {
            assert(final(node).peers@.drop_last() =~= old(node).peers@);
        },
        None => {},
    }
}

/// A connection let go of is gone, and every other is where it was.
pub proof fn a_connection_let_go_of_is_gone(node: &mut Node, peers: &mut Peers, id: PeerId)
    requires
        call_ensures(Node::detach_peer, (node, id), ()),
        call_ensures(Peers::remove, (peers, id), ()),
        old(peers)@ == old(node).peers@,
    ensures
        final(node).peers@ == final(peers)@,
        forall|i: int|
            0 <= i < final(node).peers@.len() ==> (#[trigger] final(node).peers@[i]).0 != id,
        final(node).next_id == old(node).next_id,
        final(node).running == old(node).running,
{
    assert forall|i: int| 0 <= i < final(node).peers@.len() implies (
    #[trigger] final(node).peers@[i]).0 != id by {
        assert(!has_peer(final(peers)@, id));
    }
}

/// A header is served from the headers where it is there, and from its block
/// where it is not or cannot be read. Everything that could not be read is
/// counted.
pub proof fn a_header_is_served_from_its_block_where_it_must_be<
    T,
    B: FnOnce() -> Result<Option<T>, String>,
>(
    node: &mut Node,
    height: u64,
    header: Result<Option<T>, String>,
    block: B,
    found: Option<T>,
)
    requires
        call_ensures(Node::header_off_disk::<T, B>, (node, height, header, block), found),
    ensures
        (header matches Ok(record) && record is Some) ==> (header matches Ok(record) && found
            == record) && *final(node) == *old(node),
        !(header matches Ok(record) && record is Some) ==> exists|read: Result<Option<T>, String>|
            #[trigger] call_ensures(block, (), read) && (read matches Ok(record) ==> found == record)
                && (read is Err ==> found is None) && (header is Ok && read is Ok
                ==> final(node).unread == old(node).unread) && (header is Err || read is Err ==> (
            final(node).unread matches Some(unread) && unread.height == height)),
        final(node).running == old(node).running,
        final(node).peers == old(node).peers,
{
    match header {
        Ok(Some(_)) => {},
        Ok(None) => {
            let read = choose|read: Result<Option<T>, String>| #[trigger]
                call_ensures(block, (), read) && match read {
                    Ok(record) => found == record && final(node).unread == old(node).unread,
                    Err(words) => found is None && final(node).has_noted(
                        old(node),
                        Reading::Blocks,
                        height,
                        words@,
                    ),
                };
            assert(call_ensures(block, (), read));
        },
        Err(said) => {
            let read = choose|read: Result<Option<T>, String>| #[trigger]
                call_ensures(block, (), read) && match read {
                    Ok(record) => found == record && final(node).has_noted(
                        old(node),
                        Reading::Headers,
                        height,
                        said@,
                    ),
                    Err(words) => found is None && (final(node).unread matches Some(unread)
                        && unread.what == Reading::Blocks && unread.height == height
                        && unread.because@ == words@ && unread.refusals == match old(node).unread {
                        Some(earlier) => earlier.refusals.saturating_add(2),
                        None => 2,
                    }),
                };
            assert(call_ensures(block, (), read));
        },
    }
}

/// A block off the disk is what the disk gave; one that could not be read is
/// not there, and is counted.
pub proof fn a_block_off_the_disk_is_what_it_gave<T>(
    node: &mut Node,
    height: u64,
    read: Result<Option<T>, String>,
    found: Option<T>,
)
    requires
        call_ensures(Node::archived_at::<T>, (node, height, read), found),
    ensures
        read matches Ok(record) ==> found == record && *final(node) == *old(node),
        read matches Err(words) ==> found is None && (final(node).unread matches Some(unread)
            && unread.height == height && unread.because@ == words@ && match old(node).unread {
            None => unread.refusals == 1,
            Some(before) => before.refusals < u64::MAX ==> unread.refusals == before.refusals + 1,
        }),
        final(node).running == old(node).running,
{
}

/// A node stops for its disk exactly when its disk is past carrying on with,
/// and is never started by it.
pub proof fn a_node_stops_for_its_disk(
    node: &mut Node,
    held: &mut Option<Unwritten>,
    wrote: &Wrote,
    reached: Option<u64>,
    carry_on: bool,
)
    requires
        call_ensures(Node::note_writing, (node, wrote, reached), ()),
        call_ensures(note_writing, (held, wrote, reached), carry_on),
        *old(held) == old(node).unwritten,
    ensures
        final(node).running <==> old(node).running && carry_on,
        (final(node).unwritten is Some) == (*final(held) is Some),
        final(node).unwritten matches Some(said) ==> (*final(held) matches Some(alone) && said.blocks
            == alone.blocks && said.within_reach == alone.within_reach && said.what == alone.what),
        final(node).peers == old(node).peers,
{
}

/// Where a log ends and begins: the last height it holds is one below where it
/// reaches, and an empty disk holds none.
pub proof fn a_log_is_written_through_its_last_height(
    node: &Node,
    log: Extent,
    through: Option<u64>,
    from: Option<u64>,
    none: Option<u64>,
)
    requires
        call_ensures(Node::written_through, (node, Some(log)), through),
        call_ensures(Node::blocks_from, (node, Some(log)), from),
        call_ensures(Node::written_through, (node, None::<Extent>), none),
    ensures
        log.reaches == 0 ==> through is None,
        log.reaches > 0 ==> (through matches Some(height) && height + 1 == log.reaches),
        from == Some(log.first),
        none is None,
{
}

/// How a join goes is how far it has got, and one whose ledger is still being
/// checked is done.
pub proof fn a_join_is_said_to_be_where_it_is(node: &mut Node, height: Option<u64>, joined: Joined)
    requires
        call_ensures(Node::joining, (node, height), joined),
    ensures
        ({
            let owed = old(node).undertaking matches Some(held) && (match height {
                Some(height) => height,
                None => held.anchor,
            }) < held.settles_at;
            &&& owed ==> joined is Done && final(node).undertaking == old(node).undertaking
            &&& !owed ==> final(node).undertaking is None
            &&& !owed && old(node).joining@ is Idle ==> joined is NotYet
            &&& !owed && old(node).joining@ is Weighing ==> joined is Weighing
            &&& !owed && (old(node).joining@ is Weighed || old(node).joining@ is Fetching)
                ==> joined is Fetching
            &&& !owed && old(node).joining@ is Landed ==> joined is Done
        }),
        final(node).joining == old(node).joining,
{
}

/// A ledger taken is an undertaking until it settles, and none where there is
/// nothing above it to check.
pub proof fn a_ledger_taken_is_an_undertaking(
    node: &mut Node,
    anchor: u64,
    settles_at: u64,
    now: u64,
)
    requires
        call_ensures(Node::undertake, (node, anchor, settles_at, now), ()),
    ensures
        final(node).undertaking is Some <==> anchor < settles_at,
        final(node).undertaking matches Some(held) ==> held.anchor == anchor && held.settles_at
            == settles_at && held.reached == anchor && held.moved == now && held.asked is None,
        final(node).running == old(node).running,
{
}

/// What a node undertook is kept as a round on probation says: it asks
/// everybody when a round asks, stops when a round gives up, and remembers what
/// first stranded it. Only those worth speaking to count as somebody to ask.
pub proof fn a_node_keeps_its_undertaking_by_the_round(
    node: &mut Node,
    held: &mut Option<Undertaking>,
    height: Option<u64>,
    now: u64,
    ask_everybody: bool,
    owed: Option<crate::probation::Owed>,
    speakable: Vec<PeerId>,
)
    requires
        call_ensures(Node::keep_the_undertaking, (node, height, now), ask_everybody),
        call_ensures(Peers::speakable, (&old(node).peers,), speakable),
        call_ensures(
            probation_round,
            (
                held,
                height,
                speakable@.len() as usize,
                old(node).stranding_patience,
                old(node).out_of_reach,
                now,
            ),
            owed,
        ),
        speakable@.len() <= usize::MAX,
        *old(held) == old(node).undertaking,
    ensures
        ask_everybody <==> (owed matches Some(owed) && owed is AskAgain),
        final(node).running <==> old(node).running && !(owed matches Some(owed) && owed is GivenUp),
        old(node).stranded is Some ==> final(node).stranded == old(node).stranded,
        old(node).stranded is None ==> (final(node).stranded is Some <==> (owed matches Some(owed)
            && owed is GivenUp)),
        final(node).undertaking is Some <==> *final(held) is Some,
{
}

/// Nothing is submitted by a node on probation. Otherwise what comes of it is
/// what the chain made of it, and it is announced exactly when it moved the
/// tip.
pub proof fn nothing_is_submitted_on_probation<S: FnOnce() -> Result<Accepted, String>>(
    node: &mut Node,
    height: Option<u64>,
    submit: S,
    outcome: Result<(Accepted, bool), Refused>,
)
    requires
        call_ensures(Node::submit_block::<S>, (node, height, submit), outcome),
    ensures
        ({
            let owed = old(node).undertaking matches Some(held) && (match height {
                Some(height) => height,
                None => held.anchor,
            }) < held.settles_at;
            &&& owed <==> (outcome matches Err(refused) && refused is OnProbation)
            &&& outcome matches Ok((accepted, announce)) ==> call_ensures(
                submit,
                (),
                Ok::<Accepted, String>(accepted),
            ) && (announce <==> accepted is Extended || accepted is Reorganised)
            &&& !owed ==> (outcome matches Err(refused) ==> (refused matches Refused::Block(words)
                && call_ensures(submit, (), Err::<Accepted, String>(words))))
        }),
{
}

/// The same of a transfer.
pub proof fn no_transfer_is_submitted_on_probation<S: FnOnce() -> Result<bool, String>>(
    node: &mut Node,
    height: Option<u64>,
    submit: S,
    outcome: Result<bool, Refused>,
)
    requires
        call_ensures(Node::submit_transaction::<S>, (node, height, submit), outcome),
    ensures
        ({
            let owed = old(node).undertaking matches Some(held) && (match height {
                Some(height) => height,
                None => held.anchor,
            }) < held.settles_at;
            &&& owed <==> (outcome matches Err(refused) && refused is OnProbation)
            &&& outcome matches Ok(fresh) ==> call_ensures(submit, (), Ok::<bool, String>(fresh))
            &&& !owed ==> (outcome matches Err(refused) ==> (refused matches Refused::Transfer(words)
                && call_ensures(submit, (), Err::<bool, String>(words))))
        }),
{
}

/// What is still in the pool is offered to everybody worth speaking to, and
/// what is not is offered to nobody.
pub proof fn only_what_is_pooled_is_offered_again<S, F: Fn(S, PeerId) -> (S, bool)>(
    node: &Node,
    pooled: bool,
    hand: S,
    send: F,
    taken: (S, usize),
)
    requires
        call_ensures(Node::offer_again::<S, F>, (node, pooled, hand, send), taken),
    ensures
        !pooled ==> taken.0 == hand && taken.1 == 0,
        pooled && crate::peers::that_hear(node.peers@, None).len() == 0 ==> taken.0 == hand
            && taken.1 == 0,
        pooled && (forall|h: S, id: PeerId, sent: (S, bool)| #[trigger]
            call_ensures(send, (h, id), sent) ==> sent.1) ==> taken.1 == crate::peers::that_hear(
            node.peers@,
            None,
        ).len(),
{
    if pooled {
        crate::peers::leaving_one_out_is_filtering(node.peers@, None);
        let ids = spoken_to_but(node.peers@, None);
        let made = choose|made: Seq<(S, bool)>| #[trigger]
            are_sendings(ids, hand, send, made) && taken.0 == handed_on(hand, made) && taken.1
                == how_many(made);
        crate::peers::a_sure_sending_is_counted(ids, hand, send, made);
    }
}

/// What could not be taken is counted for what it was: out of reach, unreadable
/// or ahead of the clock, and nothing where it was none of them.
pub proof fn what_was_not_taken_is_counted_for_what_it_was(
    node: &mut Node,
    reaction: &Reaction,
    from: Option<Address>,
    now: u64,
)
    requires
        call_ensures(Node::note_what_was_not_taken, (node, reaction, from, now), ()),
    ensures
        reaction.unreachable is None ==> final(node).out_of_reach == old(node).out_of_reach,
        reaction.unreachable is Some && old(node).out_of_reach < u64::MAX
            ==> final(node).out_of_reach == old(node).out_of_reach + 1,
        reaction.unjudged is None ==> final(node).unjudged@ == old(node).unjudged@,
        reaction.unjudged matches Some(version) ==> final(node).unjudged@.last == now
            && final(node).unjudged@.version >= version,
        reaction.ahead_of_the_clock is None ==> final(node).out_of_step@ == old(node).out_of_step@,
        reaction.ahead_of_the_clock matches Some(ahead) ==> final(node).out_of_step@.last == now
            && final(node).out_of_step@.ahead >= ahead && final(node).out_of_step@.own_first_block
            == old(node).out_of_step@.own_first_block,
{
}

/// A node's own first block refused as ahead of its clock is remembered as its
/// own, and counts as nobody's.
pub proof fn a_nodes_own_first_block_is_remembered_as_its_own(
    node: &mut Node,
    ahead: u64,
    now: u64,
)
    requires
        call_ensures(Node::own_first_block_refused, (node, ahead, now), ()),
    ensures
        final(node).out_of_step@.own_first_block,
        final(node).out_of_step@.ahead >= ahead,
        final(node).out_of_step@.last == now,
        old(node).out_of_step@.last <= now <= old(node).out_of_step@.last + 3_600
            ==> final(node).out_of_step@.peers == old(node).out_of_step@.peers,
{
}

/// The first rule a node turns out not to have is the one it is said to be
/// outdated by, and a node that stops for it is stopped.
pub proof fn the_first_missing_rule_is_the_one_said(
    noted: &mut Node,
    stopped: &mut Node,
    outdated: Outdated,
)
    requires
        call_ensures(Node::is_outdated, (noted, outdated), ()),
        call_ensures(Node::stop_as_outdated, (stopped, outdated), ()),
    ensures
        old(noted).outdated is Some ==> final(noted).outdated == old(noted).outdated,
        old(noted).outdated is None ==> final(noted).outdated == Some(outdated),
        final(noted).running == old(noted).running,
        old(stopped).outdated is Some ==> final(stopped).outdated == old(stopped).outdated,
        old(stopped).outdated is None ==> final(stopped).outdated == Some(outdated),
        !final(stopped).running,
{
}

/// A question about nothing is not asked. Any other replaces whatever was being
/// asked, and is about what was named.
pub proof fn a_new_question_replaces_the_last(
    node: &mut Node,
    wanted: &Vec<(u64, Hash32)>,
    positions: Option<Vec<u64>>,
    question: (Asking, Vec<u64>),
)
    requires
        call_ensures(Node::recover_proofs, (node, wanted), positions),
        call_ensures(Asking::about, (wanted,), question),
    ensures
        wanted@.len() == 0 ==> positions is None && *final(node) == *old(node),
        wanted@.len() > 0 ==> {
            &&& final(node).asking@ == question.0@
            &&& positions matches Some(positions) && forall|position: u64| #[trigger]
                positions@.contains(position) <==> question.1@.contains(position)
            &&& old(node).proofs_asked_for < u64::MAX ==> final(node).proofs_asked_for
                == old(node).proofs_asked_for + 1
        },
{
    if wanted@.len() > 0 {
        match positions {
            Some(positions) => {
                assert forall|position: u64| #[trigger] positions@.contains(position) <==>
                    question.1@.contains(position) by {
                    assert(question.0@.wanted.contains_key(position) <==> question.1@.contains(
                        position,
                    ));
                    assert(final(node).asking@.wanted.contains_key(position)
                        <==> positions@.contains(position));
                }
            },
            None => {},
        }
    }
}

/// A question is put to archivists where there are any and to everybody
/// otherwise, and to nobody twice.
pub proof fn a_question_is_put_to_archivists_first(
    node: &mut Node,
    asked: (Vec<PeerId>, usize),
    keeping: Vec<(PeerId, bool)>,
    worth: (Vec<PeerId>, usize),
    asking: &mut Asking,
    fresh: Vec<PeerId>,
)
    requires
        call_ensures(Node::asks_about_proofs, (node,), asked),
        call_ensures(Peers::keeping, (&old(node).peers,), keeping),
        call_ensures(worth_asking, (&keeping,), worth),
        call_ensures(Asking::fresh, (asking, &worth.0), fresh),
        old(asking)@ == old(node).asking@,
    ensures
        asked.1 == worth.1,
        asked.0@ == fresh@,
        final(node).asking@ == final(asking)@,
{
}

/// A node reports on a question when the question is over, and not before.
pub proof fn a_node_reports_when_a_question_is_over(
    node: &mut Node,
    archiving: usize,
    out_of_time: bool,
    done: Option<Recovered>,
    asking: &mut Asking,
    over: Option<Recovered>,
)
    requires
        call_ensures(Node::recovered, (node, archiving, out_of_time), done),
        call_ensures(Asking::over, (asking, archiving, out_of_time), over),
        *old(asking) == old(node).asking,
    ensures
        done is Some <==> over is Some,
        final(node).asking@ == final(asking)@,
        done matches Some(done) ==> (over matches Some(over) && done.asked == over.asked
            && done.answered == over.answered && done.archivists == over.archivists
            && done.refused == over.refused && done.proofs@ == over.proofs@),
{
}

/// A connection begins as a stranger, on the allowance of where it comes from
/// and with what has been spent of that.
pub proof fn a_connection_begins_on_its_hosts_allowance(
    node: &mut Node,
    windows: &mut Windows,
    id: PeerId,
    remote: Option<Host>,
    dialled: Option<Address>,
    now: u64,
    connection: Connection,
    allowance: Allowance,
)
    requires
        call_ensures(Node::connection_begun, (node, id, remote, dialled, now), connection),
        call_ensures(Windows::allowance_for, (windows, remote), allowance),
        *old(windows) == old(node).windows,
    ensures
        connection.allowance == allowance,
        final(node).windows.marks@ == final(windows).marks@,
        connection.id == id && connection.remote == remote && connection.dialled == dialled,
        !connection.announced && !connection.misbehaved,
        !connection.peer@.greeted,
        connection.last_heard == now && connection.in_window == 0,
        allowance == Allowance::Crowded ==> connection.peer@.spent
            == final(windows).crowded.spent && connection.peer@.window_started
            == final(windows).crowded.started,
{
}

/// A connection that ends lets go of its allowance, has its host turned away
/// where it misbehaved and not otherwise, and is missed where it was dialled
/// and never greeted.
pub proof fn a_connection_that_ends_is_settled(
    node: &mut Node,
    windows: &mut Windows,
    connection: &Connection,
    now: u64,
    missed: Option<Address>,
    refused: bool,
    host: Host,
)
    requires
        call_ensures(Node::connection_ended, (node, connection, now), missed),
        call_ensures(Windows::let_go, (windows, connection.allowance), ()),
        *old(windows) == old(node).windows,
        connection.remote == Some(host),
        call_ensures(Refusals::refuses, (&final(node).refusals, host, now), refused),
        now < u64::MAX,
    ensures
        missed == if connection.peer.greeted {
            None
        } else {
            connection.dialled
        },
        !connection.misbehaved ==> final(node).refusals == old(node).refusals,
        connection.misbehaved ==> (refused <==> !((host matches Host::V4(127, _, _, _)) || host
            == Host::V6(1))),
        final(node).windows.marks@ == final(windows).marks@,
        final(node).peers == old(node).peers,
{
}

/// A node is shut down once, and stays down.
pub proof fn a_node_is_shut_down_once(node: &mut Node, first: bool)
    requires
        call_ensures(Node::shutdown, (node,), first),
    ensures
        first <==> !old(node).winding_down,
        final(node).winding_down && !final(node).running,
{
}

/// A node that cannot show its chain whole is filling, and says what it holds
/// of it.
pub proof fn a_node_is_filling_until_it_can_show_its_chain(
    node: &Node,
    headers: &Headers,
    height: u64,
    bytes: u64,
    filling: Option<Filling>,
    can: bool,
)
    requires
        call_ensures(Node::filling, (node, headers, Some(height), bytes), filling),
        height < u64::MAX,
        call_ensures(Headers::can_show_the_chain, (headers, (height + 1) as u64), can),
    ensures
        filling is None <==> can,
        filling matches Some(filling) ==> filling.from == headers.own.first && filling.through
            == headers.own.reaches && filling.proved == headers.leaves && filling.reaches == height
            + 1 && filling.bytes == bytes && filling.keep == node.keep_bytes,
{
}

/// A turn given at once holds for whoever has it, from now, with what spoiled
/// it forgotten.
pub proof fn a_turn_given_at_once_holds_from_now(node: &mut Node, now: u64, peer: PeerId)
    requires
        call_ensures(Node::take_offered_headers, (node, now), peer),
    ensures
        final(node).filling_from matches Some(turn) && turn.peer == peer && turn.moved == now
            && !turn.spoiled && match old(node).filling_from {
            Some(before) => peer == before.peer && turn.marked == before.marked,
            None => peer == 0 && turn.marked == 0,
        },
{
}

/// What is refused says why: on probation how far it is, and otherwise in the
/// words the refusal came with.
pub proof fn what_is_refused_says_why(
    refused: &Refused,
    said: String,
    probation: Probation,
    words: String,
)
    requires
        call_ensures(Refused::to_string, (refused,), said),
        call_ensures(Probation::to_string, (&probation,), words),
    ensures
        *refused == Refused::OnProbation(probation) ==> said@
            == "this node is still validating the ledger it was handed: "@ + words@,
        refused matches Refused::Block(because) ==> said@ == because@,
        refused matches Refused::Transfer(because) ==> said@ == because@,
{
}

/// A node starts running, with nobody connected, nobody turned away, nothing
/// joined and nothing said; one that is bound owes nothing.
pub proof fn a_node_starts_with_nothing(
    network: NetworkId,
    address: Address,
    nonce: u64,
    undertaking: Option<Undertaking>,
    unread: Option<Unread>,
    node: Node,
    clock: Option<u128>,
    bound: Node,
    said: Address,
    count: usize,
)
    requires
        call_ensures(Node::start, (network, address, nonce, undertaking, unread), node),
        call_ensures(Node::bind, (network, address, clock), bound),
        call_ensures(Node::address, (&bound,), said),
        call_ensures(Node::peer_count, (&node,), count),
    ensures
        node.running && bound.running && !node.winding_down && !bound.winding_down,
        count == 0 && node.next_id == 0,
        said == address && node.address == address,
        node.network == network && bound.network == network,
        node.nonce == nonce && node.undertaking == undertaking && node.unread == unread,
        bound.undertaking is None && bound.unread is None,
        node.joining@ is Idle && node.stranded is None && node.outdated is None,
        node.turned_away == 0 && node.out_of_reach == 0 && node.unwritten is None,
        node.keep_bytes == 1_000_000_000 && node.stranding_patience == 3_600,
{
}

/// A node opens with its ledger, watching or not, and an archivist with every
/// block.
pub proof fn only_an_archivist_opens_without_a_ledger(
    log: Extent,
    recovered: Recovery,
    plain: Opening,
    watching: Opening,
    archiving: Opening,
)
    requires
        call_ensures(Node::open, (log, recovered), plain),
        call_ensures(Node::open_watching, (log, recovered), watching),
        call_ensures(Node::open_archiving, (log, recovered), archiving),
    ensures
        plain.step is ReadLedger && watching.step is ReadLedger,
        plain.error is None && watching.error is None,
        plain.log == log && watching.log == log && archiving.log == log,
        log.first > 0 && log.first != log.reaches <==> archiving.step is Failed,
        !(archiving.step is Failed) ==> archiving.step == crate::opening::OpenStep::Read(log.first),
        plain.applied == 0 && watching.applied == 0 && archiving.applied == 0,
{
}

/// What a node is told to keep, wait for and start from is what it keeps, waits
/// for and starts from, and nothing else of it changes.
pub proof fn a_node_does_as_it_is_told(
    named: &mut Node,
    names: Vec<String>,
    keeping: &mut Node,
    bytes: u64,
    waiting: &mut Node,
    seconds: u64,
    writing: &mut Node,
    tip: Hash32,
    at: Located,
    owed: LedgerOwed,
    other: LedgerOwed,
    later: Hash32,
)
    requires
        call_ensures(Node::start_from_names, (named, names), ()),
        call_ensures(Node::keep_blocks, (keeping, bytes), ()),
        call_ensures(Node::wait_for_the_burial, (waiting, seconds), ()),
        call_ensures(Node::ledger_written, (writing, tip, at), ()),
        call_ensures(Node::write_ledger, (&*final(writing), Some(tip)), owed),
        call_ensures(Node::write_ledger, (&*final(writing), Some(later)), other),
        later != tip,
    ensures
        final(named).seed_names == names && final(named).running == old(named).running,
        final(keeping).keep_bytes == bytes && final(keeping).running == old(keeping).running,
        final(waiting).stranding_patience == seconds && final(waiting).undertaking
            == old(waiting).undertaking,
        owed == LedgerOwed::Written(at),
        other is Build,
{
}

/// A node counts who is connected, who is worth speaking to and who keeps the
/// cold set.
pub proof fn a_node_counts_who_is_there(
    node: &Node,
    count: usize,
    introduced: usize,
    archiving: usize,
    speakable: Vec<PeerId>,
    keeping: usize,
)
    requires
        call_ensures(Node::peer_count, (node,), count),
        call_ensures(Node::peers_introduced, (node,), introduced),
        call_ensures(Node::archiving_peers, (node,), archiving),
        call_ensures(Peers::speakable, (&node.peers,), speakable),
        call_ensures(Peers::archiving, (&node.peers,), keeping),
    ensures
        count == node.peers@.len(),
        introduced == speakable@.len(),
        archiving == keeping,
{
}

/// A connection counts as where it says it is reached, as its host where it has
/// not said, and as nobody where it is gone.
pub proof fn a_connection_counts_as_itself(
    node: &Node,
    id: PeerId,
    sender: Option<Address>,
    found: Option<Peer>,
)
    requires
        call_ensures(Node::sender_for, (node, id), sender),
        call_ensures(Peers::get, (&node.peers, id), found),
        node.wf(),
    ensures
        found is None ==> sender is None,
        found matches Some(peer) ==> {
            &&& peer.advertised is Some ==> sender == peer.advertised
            &&& peer.advertised is None ==> match peer.host {
                Some(host) => sender matches Some(address) && address.host == host && address.port
                    == 0,
                None => sender is None,
            }
        },
{
    match found {
        Some(peer) => {
            let held = node.peers@;
            let other = choose|other: Peer| #[trigger]
                held.contains((id, other)) && sender == counts_as(other.advertised, other.host);
            let i = choose|i: int| 0 <= i < held.len() && held[i] == (id, peer);
            let j = choose|j: int| 0 <= j < held.len() && held[j] == (id, other);
            let ids = crate::peers::ids_of(held);
            assert(ids[i] == id && ids[j] == id);
            assert(i == j);
        },
        None => {},
    }
}

/// What a node could not read or write is kept and said as its disk says it,
/// and a refusal it cannot carry on with stops it.
pub proof fn a_node_says_what_its_disk_says(
    read: &mut Node,
    what: Reading,
    height: u64,
    because: &str,
    wrote: &mut Node,
    refusing: Refusing,
    on_disk: u64,
    tip: u64,
)
    requires
        call_ensures(Node::could_not_read, (read, what, height, because), ()),
        call_ensures(Node::note_refusal, (wrote, refusing, on_disk, Some(tip)), ()),
        old(wrote).unwritten is None,
        tip < u64::MAX,
    ensures
        final(read).unread matches Some(unread) && unread.what == what && unread.height == height
            && unread.because@ == because@ && match old(read).unread {
            None => unread.refusals == 1,
            Some(before) => before.refusals < u64::MAX ==> unread.refusals == before.refusals + 1,
        },
        final(read).running == old(read).running,
        final(wrote).unwritten matches Some(said) && said.what == refusing.what && said.because@
            == refusing.because@ && said.reached == tip,
        final(wrote).running <==> old(wrote).running && tip + 1 <= on_disk + 256,
{
}

/// A visitor not taken in is counted, and one taken in ends what is said of
/// those that were not.
pub proof fn a_node_counts_visitors_not_taken_in(
    node: &mut Node,
    because: &str,
    took: &mut Node,
    count: u64,
)
    requires
        call_ensures(Node::could_not_take_a_visitor, (node, because), ()),
        call_ensures(Node::took_a_visitor, (took,), ()),
        call_ensures(Node::turned_away, (&*final(node),), count),
    ensures
        old(node).turned_away < u64::MAX ==> count == old(node).turned_away + 1,
        final(node).unanswered matches Some(said) && said.because@ == because@,
        final(took).unanswered is None,
        final(took).turned_away == old(took).turned_away,
        final(node).running == old(node).running,
{
}

/// A node's log is weighed and trimmed against what it keeps.
pub proof fn a_node_trims_to_what_it_keeps(
    node: &Node,
    bytes: u64,
    over: bool,
    unknown: bool,
    at: Located,
    agrees: bool,
    log: Extent,
    from: Option<u64>,
    alone: Option<u64>,
    held: u64,
    none: u64,
)
    requires
        call_ensures(Node::is_over_its_budget, (node, Some(bytes)), over),
        call_ensures(Node::is_over_its_budget, (node, None::<u64>), unknown),
        call_ensures(Node::trim_history, (node, at, agrees, log, bytes), from),
        call_ensures(trim_history, (at, agrees, log, bytes, node.keep_bytes), alone),
        call_ensures(Node::kept_bytes, (node, Some(bytes)), held),
        call_ensures(Node::kept_bytes, (node, None::<u64>), none),
    ensures
        over <==> node.keep_bytes < bytes,
        !unknown,
        from == alone,
        held == bytes && none == 0,
{
}

/// What a node still owes is what its undertaking says at the height it has
/// reached.
pub proof fn a_node_owes_what_it_undertook(
    node: &mut Node,
    height: Option<u64>,
    owed: Option<Probation>,
    held: &mut Option<Undertaking>,
    alone: Option<Probation>,
)
    requires
        call_ensures(Node::probation, (node, height), owed),
        call_ensures(probation_at, (held, height), alone),
        *old(held) == old(node).undertaking,
    ensures
        owed == alone,
        final(node).undertaking == *final(held),
        final(node).running == old(node).running,
{
}

/// What a node has to say of itself is what it has counted: of blocks it cannot
/// read, of showings that do not check out while it has no chain, and of its
/// clock.
pub proof fn a_node_says_what_it_has_counted(
    node: &Node,
    known: u16,
    drift: u64,
    empty: bool,
    unjudged: Option<Unjudged>,
    unweighable: Option<Unweighable>,
    behind: Option<Behind>,
)
    requires
        call_ensures(Node::unjudged, (node, known), unjudged),
        call_ensures(Node::unweighable, (node, empty), unweighable),
        call_ensures(Node::clock_behind, (node, drift, empty), behind),
    ensures
        unjudged is Some <==> node.unjudged@.blocks >= 8 && node.unjudged@.peers.len() >= 2
            && node.unjudged@.first + 300 <= node.unjudged@.last,
        unweighable is Some <==> empty && node.unweighed@.showings >= 3
            && node.unweighed@.peers.len() >= 2 && node.unweighed@.first <= node.unweighed@.last,
        behind is Some <==> (node.out_of_step@.blocks >= 8 && node.out_of_step@.peers.len() >= 2)
            || (node.out_of_step@.own_first_block && empty),
        unjudged matches Some(said) ==> said.known == known && said.version
            == node.unjudged@.version,
        behind matches Some(said) ==> said.drift == drift && said.seconds
            == node.out_of_step@.ahead,
{
}

/// A showing that could not be weighed counts, and a greeting is written down
/// for whoever gave it.
pub proof fn a_node_counts_and_writes_down(
    weighing: &mut Node,
    from: Option<Address>,
    because: &str,
    now: u64,
    greeting: &mut Node,
    peers: &mut Peers,
    id: PeerId,
    archives: bool,
)
    requires
        call_ensures(Node::could_not_weigh, (weighing, from, because, now), ()),
        call_ensures(Node::note_what_it_keeps, (greeting, id, archives), ()),
        call_ensures(Peers::note_what_it_keeps, (peers, id, archives), ()),
        old(peers)@ == old(greeting).peers@,
    ensures
        final(weighing).unweighed@.because == because@ && final(weighing).unweighed@.last == now,
        old(weighing).unweighed@.because == because@ && old(weighing).unweighed@.last <= now
            && old(weighing).unweighed@.showings < u64::MAX ==> final(weighing).unweighed@.showings
            == old(weighing).unweighed@.showings + 1,
        old(weighing).unweighed@.because != because@ ==> final(weighing).unweighed@.showings == 1,
        final(greeting).peers@ == final(peers)@,
{
}

/// What is asked of a node is answered from what it holds.
pub proof fn a_node_answers_from_what_it_holds(
    node: &Node,
    stranded: Option<Stranded>,
    outdated: Option<Outdated>,
    out_of_reach: u64,
    mended: u64,
    asked_for: u64,
    unsaved: &Option<String>,
    unwritten: &Option<Unwritten>,
    unread: &Option<Unread>,
    unanswered: &Option<Unanswered>,
)
    requires
        call_ensures(Node::stranded, (node,), stranded),
        call_ensures(Node::outdated, (node,), outdated),
        call_ensures(Node::out_of_reach, (node,), out_of_reach),
        call_ensures(Node::mended_nodes, (node,), mended),
        call_ensures(Node::proofs_asked_for, (node,), asked_for),
        call_ensures(Node::unsaved_addresses, (node,), unsaved),
        call_ensures(Node::unwritten, (node,), unwritten),
        call_ensures(Node::unread, (node,), unread),
        call_ensures(Node::unanswered, (node,), unanswered),
    ensures
        stranded == node.stranded,
        outdated == node.outdated,
        out_of_reach == node.out_of_reach,
        mended == node.mended_nodes,
        asked_for == node.proofs_asked_for,
        *unsaved == node.unsaved_book,
        *unwritten == node.unwritten,
        *unread == node.unread,
        *unanswered == node.unanswered,
{
}

} // verus!
