//! The table of connections, and who may be in it.

use vstd::prelude::*;

use crate::address::{addresses_sort_totally, Address, Host};
use crate::calls::handed_on;
use crate::filling::PeerId;
use crate::refusal::can_be_refused;

verus! {

/// Connections this node opens for itself.
pub const TARGET_PEERS: usize = 8;

/// Connections a node holds at once, dialled and accepted together.
///
/// Each one costs two threads and a read buffer, so the ceiling is what turns
/// an unbounded cost into a known one.
pub const MAX_PEERS: usize = 48;

/// Connections somebody else can hold on a node that has reached nobody:
/// [`MAX_PEERS`] less the slots held back for the peers a node goes out and
/// chooses.
pub const MOST_FROM_OUTSIDE: usize = 40;

/// Connections accepted from any one address.
///
/// A single machine opening every slot would leave a node surrounded by one
/// peer wearing many hats, which is the cheapest way to isolate it.
pub const MAX_PER_HOST: usize = 2;

/// One live connection, as the rest of the node sees it.
#[derive(Clone, Copy, Debug, PartialEq, Eq, Structural)]
pub struct Peer {
    /// Where the connection came from, which is the only address about this
    /// peer that it did not choose itself.
    pub host: Option<Host>,
    /// Where this peer says it listens, once it has said so.
    pub advertised: Option<Address>,
    /// The address this node dialled to reach it, when it dialled.
    pub dialled_to: Option<Address>,
    /// Whether this node opened the connection, rather than answering one.
    pub dialled: bool,
    /// Whether this peer has introduced itself.
    pub greeted: bool,
    /// Whether this peer said it keeps the cold set.
    pub archives: bool,
}

impl Peer {
    /// A connection just taken: one opened to `dialled`, or answered where
    /// that is `None`.
    pub fn attached(host: Option<Host>, dialled: Option<Address>) -> (peer: Peer)
        ensures
            peer == (Peer {
                host,
                advertised: None,
                dialled_to: dialled,
                dialled: dialled is Some,
                greeted: false,
                archives: false,
            }),
    {
        Peer {
            host,
            advertised: None,
            dialled_to: dialled,
            dialled: dialled.is_some(),
            greeted: false,
            archives: false,
        }
    }

    /// Whether anything but an introduction may be sent down this connection.
    ///
    /// A node that dialled queued its hello first, and one queue is one order.
    /// One that answered is waiting to be told who it is talking to, and what
    /// it sent before then would reach a node it had not been introduced to.
    pub fn worth_speaking_to(self) -> (worth: bool)
        ensures
            worth == (self.dialled || self.greeted),
    {
        self.dialled || self.greeted
    }
}

/// How many of a run of connections came from `host`.
pub open spec fn held_from(hosts: Seq<Option<Host>>, host: Host) -> nat
    decreases hosts.len(),
{
    if hosts.len() == 0 {
        0
    } else {
        held_from(hosts.drop_last(), host) + if hosts.last() == Some(host) {
            1nat
        } else {
            0nat
        }
    }
}

/// Whether one more connection from `host` fits beside the connections held,
/// given where each of them came from.
pub fn room_beside(held: &Vec<Option<Host>>, host: Host) -> (room: bool)
    ensures
        room == (held_from(held@, host) < MAX_PER_HOST),
{
    let mut count: usize = 0;
    let mut at: usize = 0;
    while at < held.len()
        invariant
            at <= held@.len(),
            count <= at,
            count == held_from(held@.take(at as int), host),
        decreases held.len() - at,
    {
        assert(held@.take(at + 1).drop_last() =~= held@.take(at as int));
        let same: bool = match held[at] {
            Some(from) => from == host,
            None => false,
        };
        if same {
            count = count + 1;
        }
        at = at + 1;
    }
    assert(held@.take(at as int) =~= held@);
    count < MAX_PER_HOST
}

/// How many of a table's connections this node opened.
pub open spec fn dialled_in(peers: Seq<(PeerId, Peer)>) -> nat
    decreases peers.len(),
{
    if peers.len() == 0 {
        0
    } else {
        dialled_in(peers.drop_last()) + if peers.last().1.dialled {
            1nat
        } else {
            0nat
        }
    }
}

/// How many of a table's connections say they keep the cold set.
pub open spec fn archiving_in(peers: Seq<(PeerId, Peer)>) -> nat
    decreases peers.len(),
{
    if peers.len() == 0 {
        0
    } else {
        archiving_in(peers.drop_last()) + if peers.last().1.archives {
            1nat
        } else {
            0nat
        }
    }
}

/// A table without the connection `id`.
pub open spec fn without(peers: Seq<(PeerId, Peer)>, id: PeerId) -> Seq<(PeerId, Peer)>
    decreases peers.len(),
{
    if peers.len() == 0 {
        Seq::empty()
    } else if peers.last().0 == id {
        without(peers.drop_last(), id)
    } else {
        without(peers.drop_last(), id).push(peers.last())
    }
}

/// Where each of a table's connections came from.
pub open spec fn hosts_of(peers: Seq<(PeerId, Peer)>) -> Seq<Option<Host>> {
    peers.map_values(|entry: (PeerId, Peer)| entry.1.host)
}

/// The connections of a table by number.
pub open spec fn ids_of(peers: Seq<(PeerId, Peer)>) -> Seq<PeerId> {
    peers.map_values(|entry: (PeerId, Peer)| entry.0)
}

/// The connections of a table that a question can be put to. One that has not
/// introduced itself cannot be asked anything.
pub open spec fn spoken_to(peers: Seq<(PeerId, Peer)>) -> Seq<PeerId>
    decreases peers.len(),
{
    if peers.len() == 0 {
        Seq::empty()
    } else {
        let (id, peer) = peers.last();
        if peer.dialled || peer.greeted {
            spoken_to(peers.drop_last()).push(id)
        } else {
            spoken_to(peers.drop_last())
        }
    }
}

/// Whether a table has a connection with this number.
pub open spec fn has_peer(peers: Seq<(PeerId, Peer)>, id: PeerId) -> bool {
    exists|i: int| 0 <= i < peers.len() && (#[trigger] peers[i]).0 == id
}

/// A table with the connection `id` advertised at `address`.
pub open spec fn with_advertised(peers: Seq<(PeerId, Peer)>, id: PeerId, address: Address) -> Seq<
    (PeerId, Peer),
> {
    peers.map_values(
        |entry: (PeerId, Peer)|
            if entry.0 == id {
                (entry.0, Peer { advertised: Some(address), ..entry.1 })
            } else {
                entry
            },
    )
}

/// A table with what the connection `id` said of itself on introduction.
pub open spec fn with_greeting(peers: Seq<(PeerId, Peer)>, id: PeerId, archives: bool) -> Seq<
    (PeerId, Peer),
> {
    peers.map_values(
        |entry: (PeerId, Peer)|
            if entry.0 == id {
                (entry.0, Peer { archives, greeted: true, ..entry.1 })
            } else {
                entry
            },
    )
}

/// Whether a host may have one more connection to a node holding these.
pub open spec fn welcome(peers: Seq<(PeerId, Peer)>, host: Option<Host>) -> bool {
    &&& peers.len() < MAX_PEERS
    &&& match host {
        Some(host) => host.loopback() || held_from(hosts_of(peers), host) < MAX_PER_HOST,
        None => true,
    }
}

/// Slots counted as taken when somebody else asks for one: those held, and
/// those this node still needs to reach the peers it chooses for itself.
pub open spec fn spoken_for(peers: Seq<(PeerId, Peer)>) -> int {
    peers.len() + if dialled_in(peers) < TARGET_PEERS {
        TARGET_PEERS - dialled_in(peers)
    } else {
        0
    }
}

/// Whether a connection was the only one to where its peer says it listens.
#[derive(Clone, Copy, Debug, PartialEq, Eq, Structural)]
pub enum Registration {
    Recorded,
    /// Another connection to the same peer already exists, and this is it.
    Redundant(PeerId),
}

/// The connections a node holds.
#[derive(Debug)]
pub struct Peers {
    held: Vec<(PeerId, Peer)>,
}

impl View for Peers {
    type V = Seq<(PeerId, Peer)>;

    closed spec fn view(&self) -> Seq<(PeerId, Peer)> {
        self.held@
    }
}

impl Peers {
    /// No two connections have one number.
    pub open spec fn wf(&self) -> bool {
        ids_of(self@).no_duplicates()
    }

    pub fn new() -> (peers: Peers)
        ensures
            peers.wf(),
            peers@ == Seq::<(PeerId, Peer)>::empty(),
    {
        Peers { held: Vec::new() }
    }

    pub fn len(&self) -> (count: usize)
        ensures
            count == self@.len(),
    {
        self.held.len()
    }

    pub fn is_empty(&self) -> (empty: bool)
        ensures
            empty == (self@.len() == 0),
    {
        self.held.len() == 0
    }

    /// The connection with this number.
    pub fn get(&self, id: PeerId) -> (found: Option<Peer>)
        ensures
            found is Some <==> has_peer(self@, id),
            found matches Some(peer) ==> self@.contains((id, peer)),
    {
        let mut at: usize = 0;
        while at < self.held.len()
            invariant
                at <= self.held@.len(),
                forall|i: int| 0 <= i < at ==> (#[trigger] self.held@[i]).0 != id,
            decreases self.held.len() - at,
        {
            let (other, peer) = self.held[at];
            if other == id {
                assert(self@[at as int] == (id, peer));
                return Some(peer);
            }
            at = at + 1;
        }
        None
    }

    /// Takes a connection into the table, under a number nothing in it has.
    pub fn insert(&mut self, id: PeerId, peer: Peer)
        requires
            old(self).wf(),
            !has_peer(old(self)@, id),
        ensures
            final(self).wf(),
            final(self)@ == old(self)@.push((id, peer)),
    {
        let ghost before = self@;
        self.held.push((id, peer));
        assert(ids_of(self@).no_duplicates()) by {
            assert forall|i: int, j: int|
                0 <= i < j < ids_of(self@).len() implies ids_of(self@)[i] != ids_of(self@)[j] by {
                if j < before.len() {
                    assert(ids_of(before)[i] != ids_of(before)[j]);
                } else {
                    assert(before[i].0 != id);
                }
            }
        }
    }

    /// Takes the connection `id` out of the table, when it is there.
    pub fn remove(&mut self, id: PeerId)
        requires
            old(self).wf(),
        ensures
            final(self).wf(),
            final(self)@ == without(old(self)@, id),
            !has_peer(final(self)@, id),
    {
        let mut kept: Vec<(PeerId, Peer)> = Vec::new();
        let mut at: usize = 0;
        while at < self.held.len()
            invariant
                at <= self.held@.len(),
                *self == *old(self),
                kept@ == without(self.held@.take(at as int), id),
            decreases self.held.len() - at,
        {
            assert(self.held@.take(at + 1).drop_last() =~= self.held@.take(at as int));
            let (other, peer) = self.held[at];
            if other != id {
                kept.push((other, peer));
            }
            at = at + 1;
        }
        assert(self.held@.take(at as int) =~= self.held@);
        proof {
            taking_out_leaves_the_rest(self@, id);
        }
        self.held = kept;
    }

    /// Where each connection came from.
    fn hosts(&self) -> (hosts: Vec<Option<Host>>)
        ensures
            hosts@ == hosts_of(self@),
    {
        let mut hosts: Vec<Option<Host>> = Vec::new();
        let mut at: usize = 0;
        while at < self.held.len()
            invariant
                at <= self.held@.len(),
                hosts@ == hosts_of(self.held@.take(at as int)),
            decreases self.held.len() - at,
        {
            hosts.push(self.held[at].1.host);
            at = at + 1;
            assert(hosts@ =~= hosts_of(self.held@.take(at as int)));
        }
        assert(self.held@.take(at as int) =~= self.held@);
        hosts
    }

    /// The numbers of the connections held.
    pub fn ids(&self) -> (ids: Vec<PeerId>)
        ensures
            ids@ == ids_of(self@),
    {
        let mut ids: Vec<PeerId> = Vec::new();
        let mut at: usize = 0;
        while at < self.held.len()
            invariant
                at <= self.held@.len(),
                ids@ == ids_of(self.held@.take(at as int)),
            decreases self.held.len() - at,
        {
            ids.push(self.held[at].0);
            at = at + 1;
            assert(ids@ =~= ids_of(self.held@.take(at as int)));
        }
        assert(self.held@.take(at as int) =~= self.held@);
        ids
    }

    /// The connections held, each with whether it said it keeps the cold set.
    pub fn keeping(&self) -> (keeping: Vec<(PeerId, bool)>)
        ensures
            keeping@ == self@.map_values(|entry: (PeerId, Peer)| (entry.0, entry.1.archives)),
    {
        let mut keeping: Vec<(PeerId, bool)> = Vec::new();
        let mut at: usize = 0;
        while at < self.held.len()
            invariant
                at <= self.held@.len(),
                keeping@ == self.held@.take(at as int).map_values(
                    |entry: (PeerId, Peer)| (entry.0, entry.1.archives),
                ),
            decreases self.held.len() - at,
        {
            keeping.push((self.held[at].0, self.held[at].1.archives));
            at = at + 1;
            assert(keeping@ =~= self.held@.take(at as int).map_values(
                |entry: (PeerId, Peer)| (entry.0, entry.1.archives),
            ));
        }
        assert(self.held@.take(at as int) =~= self.held@);
        keeping
    }

    /// The connections something but an introduction may be sent down.
    pub fn speakable(&self) -> (ids: Vec<PeerId>)
        ensures
            ids@ == spoken_to(self@),
    {
        let mut ids: Vec<PeerId> = Vec::new();
        let mut at: usize = 0;
        while at < self.held.len()
            invariant
                at <= self.held@.len(),
                ids@ == spoken_to(self.held@.take(at as int)),
            decreases self.held.len() - at,
        {
            assert(self.held@.take(at + 1).drop_last() =~= self.held@.take(at as int));
            let (id, peer) = self.held[at];
            if peer.worth_speaking_to() {
                ids.push(id);
            }
            at = at + 1;
        }
        assert(self.held@.take(at as int) =~= self.held@);
        ids
    }

    /// Connections this node opened.
    pub fn dialled(&self) -> (count: usize)
        ensures
            count == dialled_in(self@),
    {
        let mut count: usize = 0;
        let mut at: usize = 0;
        while at < self.held.len()
            invariant
                at <= self.held@.len(),
                count <= at,
                count == dialled_in(self.held@.take(at as int)),
            decreases self.held.len() - at,
        {
            assert(self.held@.take(at + 1).drop_last() =~= self.held@.take(at as int));
            if self.held[at].1.dialled {
                count = count + 1;
            }
            at = at + 1;
        }
        assert(self.held@.take(at as int) =~= self.held@);
        count
    }

    /// Connections that say they keep the cold set.
    pub fn archiving(&self) -> (count: usize)
        ensures
            count == archiving_in(self@),
    {
        let mut count: usize = 0;
        let mut at: usize = 0;
        while at < self.held.len()
            invariant
                at <= self.held@.len(),
                count <= at,
                count == archiving_in(self.held@.take(at as int)),
            decreases self.held.len() - at,
        {
            assert(self.held@.take(at + 1).drop_last() =~= self.held@.take(at as int));
            if self.held[at].1.archives {
                count = count + 1;
            }
            at = at + 1;
        }
        assert(self.held@.take(at as int) =~= self.held@);
        count
    }

    /// Whether one more connection from `host` is welcome.
    pub fn has_room_for(&self, host: Option<Host>) -> (room: bool)
        ensures
            room == welcome(self@, host),
    {
        if self.held.len() >= MAX_PEERS {
            return false;
        }
        match host {
            Some(host) => {
                if !can_be_refused(host) {
                    return true;
                }
                room_beside(&self.hosts(), host)
            },
            None => true,
        }
    }

    /// Whether one more connection somebody else opened is welcome.
    ///
    /// The ceiling, less the slots this node still needs to reach the peers it
    /// chooses for itself: a table somebody else filled must not be a table
    /// this node cannot dial out of.
    pub fn has_room_to_accept(&self, host: Option<Host>) -> (room: bool)
        ensures
            room == (spoken_for(self@) < MAX_PEERS && welcome(self@, host)),
    {
        let dialled: usize = self.dialled();
        let held: usize = self.held.len().saturating_add(TARGET_PEERS.saturating_sub(dialled));
        if held >= MAX_PEERS {
            return false;
        }
        self.has_room_for(host)
    }

    /// Every address a connection is held to: where each peer introduced
    /// itself, and where this node dialled to reach it.
    ///
    /// An address that accepts a connection and never speaks has only the
    /// second, and reading only the first would dial it again every round.
    pub fn connected(&self) -> (connected: Vec<Address>)
        ensures
            forall|address: Address| #[trigger]
                connected@.contains(address) <==> exists|i: int|
                    0 <= i < self@.len() && ((#[trigger] self@[i]).1.advertised == Some(address)
                        || self@[i].1.dialled_to == Some(address)),
    {
        let mut connected: Vec<Address> = Vec::new();
        let mut at: usize = 0;
        while at < self.held.len()
            invariant
                at <= self.held@.len(),
                forall|address: Address| #[trigger]
                    connected@.contains(address) <==> exists|i: int|
                        0 <= i < at && ((#[trigger] self@[i]).1.advertised == Some(address)
                            || self@[i].1.dialled_to == Some(address)),
            decreases self.held.len() - at,
        {
            let (_, peer) = self.held[at];
            let ghost before = connected@;
            let ghost entry = self@[at as int];
            match peer.advertised {
                Some(address) => {
                    connected.push(address);
                },
                None => {},
            }
            match peer.dialled_to {
                Some(address) => {
                    connected.push(address);
                },
                None => {},
            }
            proof {
                assert forall|address: Address| #[trigger]
                    connected@.contains(address) <==> before.contains(address) || peer.advertised
                        == Some(address) || peer.dialled_to == Some(address) by {
                    if before.contains(address) {
                        let i = choose|i: int| 0 <= i < before.len() && before[i] == address;
                        assert(connected@[i] == address);
                    }
                    if peer.advertised == Some(address) {
                        assert(connected@[before.len() as int] == address);
                    }
                    if peer.dialled_to == Some(address) {
                        assert(connected@[connected@.len() - 1] == address);
                    }
                    if connected@.contains(address) {
                        let i = choose|i: int| 0 <= i < connected@.len() && connected@[i] == address;
                        if i < before.len() {
                            assert(before[i] == address);
                        }
                    }
                }
                assert(entry.1 == peer);
            }
            at = at + 1;
        }
        connected
    }

    /// Where each connection's peer is reached: where it says it listens, and
    /// failing that where this node dialled.
    pub fn reached(&self) -> (reached: Vec<Address>)
        ensures
            forall|address: Address| #[trigger]
                reached@.contains(address) <==> exists|i: int|
                    0 <= i < self@.len() && (#[trigger] self@[i]).1.reached_at() == Some(address),
    {
        let mut reached: Vec<Address> = Vec::new();
        let mut at: usize = 0;
        while at < self.held.len()
            invariant
                at <= self.held@.len(),
                forall|address: Address| #[trigger]
                    reached@.contains(address) <==> exists|i: int|
                        0 <= i < at && (#[trigger] self@[i]).1.reached_at() == Some(address),
            decreases self.held.len() - at,
        {
            let (_, peer) = self.held[at];
            let ghost before = reached@;
            let ghost entry = self@[at as int];
            let there: Option<Address> = if peer.advertised.is_some() {
                peer.advertised
            } else {
                peer.dialled_to
            };
            match there {
                Some(address) => {
                    reached.push(address);
                },
                None => {},
            }
            proof {
                assert forall|address: Address| #[trigger]
                    reached@.contains(address) <==> before.contains(address) || there == Some(
                        address,
                    ) by {
                    if before.contains(address) {
                        let i = choose|i: int| 0 <= i < before.len() && before[i] == address;
                        assert(reached@[i] == address);
                    }
                    if there == Some(address) {
                        assert(reached@[before.len() as int] == address);
                    }
                    if reached@.contains(address) {
                        let i = choose|i: int| 0 <= i < reached@.len() && reached@[i] == address;
                        if i < before.len() {
                            assert(before[i] == address);
                        }
                    }
                }
                assert(entry.1 == peer);
                assert(entry.1.reached_at() == there);
            }
            at = at + 1;
        }
        reached
    }

    /// Notes where a peer says it listens, and names the other connection to
    /// it when there is one.
    ///
    /// Only the second of a pair ever hears about the pair, so it has to be
    /// able to end either half, and which the other half is has to come back
    /// with the answer.
    pub fn register(&mut self, id: PeerId, address: Address) -> (registration: Registration)
        requires
            old(self).wf(),
        ensures
            final(self).wf(),
            final(self)@ == with_advertised(old(self)@, id, address),
            match registration {
                Registration::Redundant(other) => exists|i: int|
                    0 <= i < old(self)@.len() && (#[trigger] old(self)@[i]).0 == other && other != id
                        && old(self)@[i].1.advertised == Some(address),
                Registration::Recorded => forall|i: int|
                    0 <= i < old(self)@.len() && (#[trigger] old(self)@[i]).0 != id ==> old(self)@[i].1.advertised
                        != Some(address),
            },
    {
        let ghost before = self@;
        let mut existing: Option<PeerId> = None;
        let mut at: usize = 0;
        while at < self.held.len()
            invariant
                at <= self.held@.len(),
                self.held@.len() == before.len(),
                before == old(self)@,
                forall|i: int| at <= i < before.len() ==> self.held@[i] == before[i],
                forall|i: int|
                    0 <= i < at ==> self.held@[i] == with_advertised(before, id, address)[i],
                match existing {
                    Some(other) => exists|i: int|
                        0 <= i < before.len() && (#[trigger] before[i]).0 == other && other != id
                            && before[i].1.advertised == Some(address),
                    None => forall|i: int|
                        0 <= i < at && (#[trigger] before[i]).0 != id ==> before[i].1.advertised
                            != Some(address),
                },
            decreases self.held.len() - at,
        {
            let (other, peer) = self.held[at];
            assert(before[at as int] == (other, peer));
            if other == id {
                self.held.set(at, (other, Peer { advertised: Some(address), ..peer }));
            } else if existing.is_none() {
                let same: bool = match peer.advertised {
                    Some(there) => there == address,
                    None => false,
                };
                if same {
                    existing = Some(other);
                }
            }
            at = at + 1;
        }
        assert(self@ =~= with_advertised(before, id, address));
        assert(ids_of(self@) =~= ids_of(before));
        match existing {
            Some(other) => Registration::Redundant(other),
            None => Registration::Recorded,
        }
    }

    /// Writes down what a peer said it keeps. Called once the introduction has
    /// been read, which is the moment this connection is safe to send anything
    /// else down.
    pub fn note_what_it_keeps(&mut self, id: PeerId, archives: bool)
        requires
            old(self).wf(),
        ensures
            final(self).wf(),
            final(self)@ == with_greeting(old(self)@, id, archives),
    {
        let ghost before = self@;
        let mut at: usize = 0;
        while at < self.held.len()
            invariant
                at <= self.held@.len(),
                self.held@.len() == before.len(),
                before == old(self)@,
                forall|i: int| at <= i < before.len() ==> self.held@[i] == before[i],
                forall|i: int|
                    0 <= i < at ==> self.held@[i] == with_greeting(before, id, archives)[i],
            decreases self.held.len() - at,
        {
            let (other, peer) = self.held[at];
            assert(before[at as int] == (other, peer));
            if other == id {
                self.held.set(at, (other, Peer { archives, greeted: true, ..peer }));
            }
            at = at + 1;
        }
        assert(self@ =~= with_greeting(before, id, archives));
        assert(ids_of(self@) =~= ids_of(before));
    }

    /// Hands something to every peer but `except` that may be spoken to, by
    /// `send` through `hand`, and says how many took it.
    ///
    /// A full queue and a gone peer are both left alone: the first catches up
    /// by asking, and the second is already being cleared up.
    pub fn broadcast<S, F: Fn(S, PeerId) -> (S, bool)>(&self, except: Option<PeerId>, hand: S, send: F) -> (taken:
        (S, usize))
        requires
            may_be_sent(self@, except, send),
        ensures
            exists|made: Seq<(S, bool)>| #[trigger]
                are_sendings(spoken_to_but(self@, except), hand, send, made) && taken.0 == handed_on(
                    hand,
                    made,
                ) && taken.1 == how_many(made),
    {
        let mut held: S = hand;
        let mut taken: usize = 0;
        let ghost mut made: Seq<(S, bool)> = Seq::empty();
        let mut at: usize = 0;
        while at < self.held.len()
            invariant
                at <= self.held@.len(),
                may_be_sent(self@, except, send),
                are_sendings(spoken_to_but(self@.take(at as int), except), hand, send, made),
                held == handed_on(hand, made),
                taken == how_many(made),
                taken <= at,
            decreases self.held.len() - at,
        {
            let (id, peer) = self.held[at];
            let excepted: bool = match except {
                Some(except) => except == id,
                None => false,
            };
            let ghost longer = self@.take(at + 1);
            assert(longer.drop_last() =~= self@.take(at as int));
            assert(longer.last() == self@[at as int]);
            if !excepted && peer.worth_speaking_to() {
                let (next, took) = send(held, id);
                proof {
                    let before = made;
                    made = made.push((next, took));
                    assert(made.drop_last() =~= before);
                    let ids = spoken_to_but(longer, except);
                    assert(ids.drop_last() =~= spoken_to_but(longer.drop_last(), except));
                    assert(are_sendings(ids, hand, send, made));
                }
                held = next;
                if took {
                    taken = taken + 1;
                }
            }
            at = at + 1;
        }
        assert(self@.take(at as int) =~= self@);
        assert(are_sendings(spoken_to_but(self@, except), hand, send, made));
        (held, taken)
    }
}

impl Default for Peers {
    fn default() -> (peers: Peers)
        ensures
            peers.wf(),
            peers@ == Seq::<(PeerId, Peer)>::empty(),
    {
        Peers::new()
    }
}

impl Peer {
    /// Where the peer is reached: where it says it listens, and failing that
    /// where this node dialled.
    pub open spec fn reached_at(self) -> Option<Address> {
        if self.advertised is Some {
            self.advertised
        } else {
            self.dialled_to
        }
    }
}

/// The connections that may be spoken to, in order and but for `except`.
pub open spec fn spoken_to_but(peers: Seq<(PeerId, Peer)>, except: Option<PeerId>) -> Seq<PeerId>
    decreases peers.len(),
{
    if peers.len() == 0 {
        Seq::empty()
    } else {
        let before = spoken_to_but(peers.drop_last(), except);
        let (id, peer) = peers.last();
        if except != Some(id) && (peer.dialled || peer.greeted) {
            before.push(id)
        } else {
            before
        }
    }
}

/// Whether every connection that may be spoken to may be sent something, and
/// that is all that is asked of `send`.
pub open spec fn may_be_sent<S, F: Fn(S, PeerId) -> (S, bool)>(
    peers: Seq<(PeerId, Peer)>,
    except: Option<PeerId>,
    send: F,
) -> bool {
    forall|hand: S, i: int|
        #![trigger call_requires(send, (hand, peers[i].0))]
        0 <= i < peers.len() && except != Some(peers[i].0) && (peers[i].1.dialled
            || peers[i].1.greeted) ==> call_requires(send, (hand, peers[i].0))
}

/// Whether `made` are what sending something to each of `ids` came to, once
/// each and in order, the first of them given `hand`.
pub open spec fn are_sendings<S, F: Fn(S, PeerId) -> (S, bool)>(
    ids: Seq<PeerId>,
    hand: S,
    send: F,
    made: Seq<(S, bool)>,
) -> bool
    decreases made.len(),
{
    &&& made.len() == ids.len()
    &&& made.len() > 0 ==> {
        let before = made.drop_last();
        &&& are_sendings(ids.drop_last(), hand, send, before)
        &&& call_ensures(send, (handed_on(hand, before), ids.last()), made.last())
    }
}

/// How many of a run of sendings were taken.
pub open spec fn how_many<S>(made: Seq<(S, bool)>) -> nat
    decreases made.len(),
{
    if made.len() == 0 {
        0
    } else {
        how_many(made.drop_last()) + if made.last().1 {
            1nat
        } else {
            0nat
        }
    }
}

proof fn taking_out_leaves_the_rest(peers: Seq<(PeerId, Peer)>, id: PeerId)
    requires
        ids_of(peers).no_duplicates(),
    ensures
        !has_peer(without(peers, id), id),
        ids_of(without(peers, id)).no_duplicates(),
        forall|other: PeerId| #[trigger]
            has_peer(without(peers, id), other) ==> has_peer(peers, other),
    decreases peers.len(),
{
    if peers.len() > 0 {
        let shorter = peers.drop_last();
        let last = peers.last();
        assert forall|i: int, j: int|
            0 <= i < j < ids_of(shorter).len() implies ids_of(shorter)[i] != ids_of(shorter)[j] by {
            assert(ids_of(shorter)[i] == ids_of(peers)[i]);
            assert(ids_of(shorter)[j] == ids_of(peers)[j]);
        }
        taking_out_leaves_the_rest(shorter, id);
        let before = without(shorter, id);
        let after = without(peers, id);
        assert(!has_peer(shorter, last.0)) by {
            if has_peer(shorter, last.0) {
                let i = choose|i: int| 0 <= i < shorter.len() && (#[trigger] shorter[i]).0 == last.0;
                assert(ids_of(peers)[i] == ids_of(peers)[peers.len() - 1]);
            }
        }
        assert(!has_peer(before, last.0));
        if last.0 != id {
            assert(after == before.push(last));
            assert forall|i: int, j: int|
                0 <= i < j < ids_of(after).len() implies ids_of(after)[i] != ids_of(after)[j] by {
                if j < before.len() {
                    assert(ids_of(before)[i] != ids_of(before)[j]);
                } else {
                    assert(before[i].0 != last.0);
                }
            }
            assert(!has_peer(after, id)) by {
                if has_peer(after, id) {
                    let i = choose|i: int| 0 <= i < after.len() && (#[trigger] after[i]).0 == id;
                    if i < before.len() {
                        assert(before[i].0 == id);
                    }
                }
            }
        }
        assert forall|other: PeerId| #[trigger] has_peer(after, other) implies has_peer(
            peers,
            other,
        ) by {
            let i = choose|i: int| 0 <= i < after.len() && (#[trigger] after[i]).0 == other;
            if i < before.len() {
                assert(before[i].0 == other);
                assert(has_peer(before, other));
                let j = choose|j: int| 0 <= j < shorter.len() && (#[trigger] shorter[j]).0 == other;
                assert(peers[j].0 == other);
            } else {
                assert(peers[peers.len() - 1].0 == other);
            }
        }
    }
}

/// Whether the connection seen from here loses a tie: two connections between
/// one pair of nodes, of which one goes.
pub open spec fn loses(ours: Address, theirs: Address, initiator: bool) -> bool {
    if initiator {
        !ours.sorts_before(theirs)
    } else {
        ours.sorts_before(theirs)
    }
}

/// Which of two connections between the same pair of nodes is dropped.
///
/// Two nodes that dial each other at the same moment end up holding two
/// connections. The one that survives is the one opened by whichever node has
/// the lower address, a comparison both sides make identically.
pub fn loses_the_tie(ours: Address, theirs: Address, initiator: bool) -> (loses_it: bool)
    ensures
        loses_it == loses(ours, theirs, initiator),
{
    let our_dial_survives: bool = ours.is_before(theirs);
    if initiator {
        !our_dial_survives
    } else {
        our_dial_survives
    }
}

/// What a connection turns out to be, once the peer has named itself.
#[derive(Clone, Copy, Debug, PartialEq, Eq, Structural)]
pub enum Ending {
    Keep,
    /// This half of a duplicate pair goes.
    HangUp,
    /// This half stays, and the connection named goes.
    KeepAndHangUp(PeerId),
}

/// Files a peer's own account of where it listens, and says which half of a
/// duplicate pair is the one to end. Run once per connection, the first time
/// the peer names an address.
pub fn what_it_said_it_was(
    peers: &mut Peers,
    id: PeerId,
    advertised: Option<Address>,
    ours: Address,
    dialled: bool,
) -> (ending: Ending)
    requires
        old(peers).wf(),
    ensures
        final(peers).wf(),
        match advertised {
            None => ending == Ending::Keep && *final(peers) == *old(peers),
            Some(address) => {
                &&& final(peers)@ == with_advertised(old(peers)@, id, address)
                &&& match ending {
                    Ending::Keep => forall|i: int|
                        0 <= i < old(peers)@.len() && (#[trigger] old(peers)@[i]).0 != id ==> old(peers)@[i].1.advertised != Some(address),
                    Ending::HangUp => loses(ours, address, dialled) && exists|i: int|
                        0 <= i < old(peers)@.len() && (#[trigger] old(peers)@[i]).0 != id && old(peers)@[i].1.advertised == Some(address),
                    Ending::KeepAndHangUp(other) => !loses(ours, address, dialled) && other != id
                        && exists|i: int|
                        0 <= i < old(peers)@.len() && (#[trigger] old(peers)@[i]).0 == other && old(peers)@[i].1.advertised == Some(address),
                }
            },
        },
{
    let address: Address = match advertised {
        Some(address) => address,
        None => {
            return Ending::Keep;
        },
    };
    match peers.register(id, address) {
        Registration::Redundant(other) => if loses_the_tie(ours, address, dialled) {
            Ending::HangUp
        } else {
            Ending::KeepAndHangUp(other)
        },
        Registration::Recorded => Ending::Keep,
    }
}

/// Both ends of a doubled connection drop the same one, and keep the other.
///
/// The connection `a` opened is an initiator's at `a` and an answerer's at
/// `b`, and each end's verdict on it is the other's. Of the two connections
/// exactly one goes.
pub proof fn both_ends_of_a_pair_drop_the_same_one(a: Address, b: Address)
    requires
        a != b,
    ensures
        loses(a, b, true) == loses(b, a, false),
        loses(a, b, false) == loses(b, a, true),
        loses(a, b, true) != loses(a, b, false),
{
    addresses_sort_totally(a, b);
}

/// However its table is filled from outside, a node keeps the slots it needs
/// to reach the peers it chooses.
///
/// A table nobody else can add to still has room for every dial this node is
/// short of, and a node that has reached nobody takes [`MOST_FROM_OUTSIDE`]
/// connections and no more.
pub proof fn strangers_cannot_fill_the_table(peers: Seq<(PeerId, Peer)>)
    requires
        spoken_for(peers) <= MAX_PEERS,
    ensures
        dialled_in(peers) < TARGET_PEERS ==> peers.len() + (TARGET_PEERS - dialled_in(peers))
            <= MAX_PEERS,
        dialled_in(peers) == 0 ==> (spoken_for(peers) < MAX_PEERS <==> peers.len()
            < MOST_FROM_OUTSIDE),
{
}

/// Taking in a connection there is room to accept keeps the table within what
/// it holds and what it holds back.
pub proof fn accepting_keeps_the_slots_held_back(
    peers: Seq<(PeerId, Peer)>,
    id: PeerId,
    host: Option<Host>,
)
    requires
        spoken_for(peers) < MAX_PEERS,
    ensures
        spoken_for(
            peers.push(
                (
                    id,
                    Peer {
                        host,
                        advertised: None,
                        dialled_to: None,
                        dialled: false,
                        greeted: false,
                        archives: false,
                    },
                ),
            ),
        ) <= MAX_PEERS,
{
    let visitor = Peer {
        host,
        advertised: None,
        dialled_to: None,
        dialled: false,
        greeted: false,
        archives: false,
    };
    assert(peers.push((id, visitor)).drop_last() =~= peers);
}

/// Whether a table is within its bounds: no more connections than a node
/// holds, and no more than its share from any one address beyond this machine.
pub open spec fn is_within_bounds(peers: Seq<(PeerId, Peer)>) -> bool {
    &&& peers.len() <= MAX_PEERS
    &&& forall|host: Host|
        !host.loopback() ==> #[trigger] held_from(hosts_of(peers), host) <= MAX_PER_HOST
}

/// A node holds a bounded number of connections, and a bounded share of them
/// from any one address, whatever arrives.
///
/// A table within its bounds is still within them once a connection there was
/// room for has been taken in, once one has gone, and once a peer has said who
/// it is or where it listens.
pub proof fn the_table_stays_within_its_bounds(
    peers: Seq<(PeerId, Peer)>,
    id: PeerId,
    peer: Peer,
    address: Address,
    archives: bool,
)
    requires
        is_within_bounds(peers),
    ensures
        welcome(peers, peer.host) ==> is_within_bounds(peers.push((id, peer))),
        is_within_bounds(without(peers, id)),
        is_within_bounds(with_advertised(peers, id, address)),
        is_within_bounds(with_greeting(peers, id, archives)),
{
    let longer = peers.push((id, peer));
    assert(hosts_of(longer).drop_last() =~= hosts_of(peers));
    assert(hosts_of(longer).last() == peer.host);
    assert forall|host: Host|
        welcome(peers, peer.host) && !host.loopback() implies #[trigger] held_from(
        hosts_of(longer),
        host,
    ) <= MAX_PER_HOST by {
        assert(held_from(hosts_of(peers), host) <= MAX_PER_HOST);
    }
    assert(hosts_of(with_advertised(peers, id, address)) =~= hosts_of(peers));
    assert(hosts_of(with_greeting(peers, id, archives)) =~= hosts_of(peers));
    one_gone_leaves_no_more(peers, id);
}

proof fn one_gone_leaves_no_more(peers: Seq<(PeerId, Peer)>, id: PeerId)
    ensures
        without(peers, id).len() <= peers.len(),
        forall|host: Host| #[trigger]
            held_from(hosts_of(without(peers, id)), host) <= held_from(hosts_of(peers), host),
    decreases peers.len(),
{
    if peers.len() > 0 {
        let shorter = peers.drop_last();
        one_gone_leaves_no_more(shorter, id);
        assert(hosts_of(peers).drop_last() =~= hosts_of(shorter));
        if peers.last().0 != id {
            let rest = without(shorter, id);
            assert(hosts_of(rest.push(peers.last())).drop_last() =~= hosts_of(rest));
        }
        assert forall|host: Host| #[trigger]
            held_from(hosts_of(without(peers, id)), host) <= held_from(hosts_of(peers), host) by {
            assert(held_from(hosts_of(without(shorter, id)), host) <= held_from(
                hosts_of(shorter),
                host,
            ));
        }
    }
}

/// Those of a run of connections that this node dialled.
pub open spec fn that_were_dialled(peers: Seq<(PeerId, Peer)>) -> Seq<(PeerId, Peer)> {
    peers.filter(|entry: (PeerId, Peer)| entry.1.dialled)
}

/// Those of a run of connections that come from one host.
pub open spec fn that_come_from(peers: Seq<(PeerId, Peer)>, host: Host) -> Seq<(PeerId, Peer)> {
    peers.filter(|entry: (PeerId, Peer)| entry.1.host == Some(host))
}

/// Those of a run of connections worth speaking to, leaving one out.
pub open spec fn that_hear(peers: Seq<(PeerId, Peer)>, except: Option<PeerId>) -> Seq<PeerId> {
    peers.filter(
        |entry: (PeerId, Peer)| except != Some(entry.0) && (entry.1.dialled || entry.1.greeted),
    ).map_values(|entry: (PeerId, Peer)| entry.0)
}

/// Those of a run of connections that are not this one.
pub open spec fn that_are_others(peers: Seq<(PeerId, Peer)>, id: PeerId) -> Seq<(PeerId, Peer)> {
    peers.filter(|entry: (PeerId, Peer)| entry.0 != id)
}

proof fn counting_is_filtering(peers: Seq<(PeerId, Peer)>, host: Host, id: PeerId)
    ensures
        dialled_in(peers) == that_were_dialled(peers).len(),
        archiving_in(peers) == peers.filter(|entry: (PeerId, Peer)| entry.1.archives).len(),
        held_from(hosts_of(peers), host) == that_come_from(peers, host).len(),
        spoken_to(peers) == that_hear(peers, None),
        without(peers, id) == that_are_others(peers, id),
    decreases peers.len(),
{
    reveal(Seq::filter);
    if peers.len() > 0 {
        counting_is_filtering(peers.drop_last(), host, id);
        assert(hosts_of(peers).drop_last() =~= hosts_of(peers.drop_last()));
        assert(hosts_of(peers).last() == peers.last().1.host);
    }
    assert(spoken_to(peers) =~= that_hear(peers, None));
    assert(without(peers, id) =~= that_are_others(peers, id));
}

pub(crate) proof fn leaving_one_out_is_filtering(peers: Seq<(PeerId, Peer)>, except: Option<PeerId>)
    ensures
        spoken_to_but(peers, except) == that_hear(peers, except),
    decreases peers.len(),
{
    reveal(Seq::filter);
    if peers.len() > 0 {
        leaving_one_out_is_filtering(peers.drop_last(), except);
    }
    assert(spoken_to_but(peers, except) =~= that_hear(peers, except));
}

/// There is room for a connection while fewer than forty-eight are held and
/// fewer than two come from its host. This machine is never counted against
/// itself, and neither is a host nobody knows.
pub proof fn a_table_has_room_for_so_many(peers: &Peers, host: Option<Host>, room: bool)
    requires
        call_ensures(Peers::has_room_for, (peers, host), room),
    ensures
        host is None ==> (room <==> peers@.len() < 48),
        host matches Some(host) ==> (room <==> peers@.len() < 48 && ((host matches Host::V4(
            127,
            _,
            _,
            _,
        )) || host == Host::V6(1) || that_come_from(peers@, host).len() < 2)),
{
    match host {
        Some(host) => {
            counting_is_filtering(peers@, host, 0);
        },
        None => {},
    }
}

/// A connection from outside is taken only where there is room for it and for
/// every one of the eight this node has yet to dial.
pub proof fn room_is_kept_for_those_to_be_dialled(
    peers: &Peers,
    host: Option<Host>,
    room: bool,
    accepted: bool,
)
    requires
        call_ensures(Peers::has_room_for, (peers, host), room),
        call_ensures(Peers::has_room_to_accept, (peers, host), accepted),
    ensures
        accepted ==> room,
        ({
            let dialled = that_were_dialled(peers@).len();
            &&& dialled >= 8 ==> accepted == room
            &&& dialled < 8 ==> (accepted <==> room && peers@.len() + (8 - dialled) < 48)
        }),
{
    counting_is_filtering(peers@, Host::V6(0), 0);
}

/// What is counted is what is there.
pub proof fn what_is_counted_is_there(
    peers: &Peers,
    dialled: usize,
    archiving: usize,
    speakable: Vec<PeerId>,
)
    requires
        call_ensures(Peers::dialled, (peers,), dialled),
        call_ensures(Peers::archiving, (peers,), archiving),
        call_ensures(Peers::speakable, (peers,), speakable),
    ensures
        dialled == that_were_dialled(peers@).len(),
        archiving == peers@.filter(|entry: (PeerId, Peer)| entry.1.archives).len(),
        speakable@ == that_hear(peers@, None),
{
    counting_is_filtering(peers@, Host::V6(0), 0);
}

/// A connection is worth speaking to once this node dialled it or it said who
/// it is, and for nothing else.
pub proof fn a_stranger_is_not_worth_speaking_to(peer: Peer, worth: bool)
    requires
        call_ensures(Peer::worth_speaking_to, (peer,), worth),
    ensures
        peer.dialled ==> worth,
        peer.greeted ==> worth,
        !peer.dialled && !peer.greeted ==> !worth,
{
}

/// Removing a connection leaves every other one, in order, and not that one.
pub proof fn removing_leaves_the_others(peers: &mut Peers, id: PeerId)
    requires
        call_ensures(Peers::remove, (peers, id), ()),
    ensures
        final(peers)@ == that_are_others(old(peers)@, id),
{
    counting_is_filtering(old(peers)@, Host::V6(0), id);
}

/// What a connection advertises is written down for it and for no other, and
/// moves nothing else.
pub proof fn an_address_is_written_down_for_the_one_that_gave_it(
    peers: &mut Peers,
    id: PeerId,
    address: Address,
    registration: Registration,
)
    requires
        call_ensures(Peers::register, (peers, id, address), registration),
    ensures
        final(peers)@.len() == old(peers)@.len(),
        forall|i: int|
            #![trigger final(peers)@[i]]
            0 <= i < final(peers)@.len() ==> {
                let (before, was) = old(peers)@[i];
                let (after, is) = final(peers)@[i];
                &&& after == before
                &&& after == id ==> is.advertised == Some(address)
                &&& after != id ==> is == was
                &&& is.host == was.host && is.dialled_to == was.dialled_to && is.dialled
                    == was.dialled && is.greeted == was.greeted && is.archives == was.archives
            },
        registration is Recorded <==> forall|i: int|
            0 <= i < old(peers)@.len() && (#[trigger] old(peers)@[i]).0 != id ==> old(peers)@[i].1.advertised != Some(address),
{
}

/// A greeting marks the connection it came from as greeted and as keeping what
/// it said it keeps, and moves nothing else.
pub proof fn a_greeting_is_written_down_for_the_one_that_gave_it(
    peers: &mut Peers,
    id: PeerId,
    archives: bool,
)
    requires
        call_ensures(Peers::note_what_it_keeps, (peers, id, archives), ()),
    ensures
        final(peers)@.len() == old(peers)@.len(),
        forall|i: int|
            #![trigger final(peers)@[i]]
            0 <= i < final(peers)@.len() ==> {
                let (before, was) = old(peers)@[i];
                let (after, is) = final(peers)@[i];
                &&& after == before
                &&& after == id ==> is.greeted && is.archives == archives
                &&& after != id ==> is == was
                &&& is.host == was.host && is.dialled_to == was.dialled_to && is.dialled
                    == was.dialled && is.advertised == was.advertised
            },
{
}

pub(crate) proof fn a_sure_sending_is_counted<S, F: Fn(S, PeerId) -> (S, bool)>(
    ids: Seq<PeerId>,
    hand: S,
    send: F,
    made: Seq<(S, bool)>,
)
    requires
        are_sendings(ids, hand, send, made),
    ensures
        how_many(made) <= ids.len(),
        (forall|h: S, id: PeerId, sent: (S, bool)| #[trigger]
            call_ensures(send, (h, id), sent) ==> sent.1) ==> how_many(made) == ids.len(),
        (forall|h: S, id: PeerId, sent: (S, bool)| #[trigger]
            call_ensures(send, (h, id), sent) ==> !sent.1) ==> how_many(made) == 0,
    decreases made.len(),
{
    if made.len() > 0 {
        a_sure_sending_is_counted(ids.drop_last(), hand, send, made.drop_last());
    }
}

/// Everybody worth speaking to hears what is sent to all, but for the one left
/// out, and what is counted is how many took it.
pub proof fn what_is_sent_to_all_is_heard_by_all<S, F: Fn(S, PeerId) -> (S, bool)>(
    peers: &Peers,
    except: Option<PeerId>,
    hand: S,
    send: F,
    taken: (S, usize),
)
    requires
        call_ensures(Peers::broadcast::<S, F>, (peers, except, hand, send), taken),
    ensures
        taken.1 <= that_hear(peers@, except).len(),
        (forall|h: S, id: PeerId, sent: (S, bool)| #[trigger]
            call_ensures(send, (h, id), sent) ==> sent.1) ==> taken.1 == that_hear(
            peers@,
            except,
        ).len(),
        (forall|h: S, id: PeerId, sent: (S, bool)| #[trigger]
            call_ensures(send, (h, id), sent) ==> !sent.1) ==> taken.1 == 0,
        that_hear(peers@, except).len() == 0 ==> taken.0 == hand,
        that_hear(peers@, except).len() == 1 ==> call_ensures(
            send,
            (hand, that_hear(peers@, except)[0]),
            (taken.0, taken.1 == 1),
        ),
{
    leaving_one_out_is_filtering(peers@, except);
    let ids = spoken_to_but(peers@, except);
    let made = choose|made: Seq<(S, bool)>| #[trigger]
        are_sendings(ids, hand, send, made) && taken.0 == handed_on(hand, made) && taken.1
            == how_many(made);
    a_sure_sending_is_counted(ids, hand, send, made);
    if ids.len() == 1 {
        assert(made.drop_last().len() == 0);
        assert(how_many(made.drop_last()) == 0);
        assert(made.last() == (taken.0, taken.1 == 1));
    }
}

/// Of two connections to one node, the ends agree which to drop without a word:
/// exactly one of the two is lost, and it is the same one at both.
pub proof fn exactly_one_of_a_pair_is_dropped(
    a: Address,
    b: Address,
    dialled_at_a: bool,
    dialled_at_b: bool,
    accepted_at_a: bool,
    accepted_at_b: bool,
)
    requires
        a != b,
        call_ensures(loses_the_tie, (a, b, true), dialled_at_a),
        call_ensures(loses_the_tie, (b, a, true), dialled_at_b),
        call_ensures(loses_the_tie, (a, b, false), accepted_at_a),
        call_ensures(loses_the_tie, (b, a, false), accepted_at_b),
    ensures
        dialled_at_a == accepted_at_b,
        dialled_at_b == accepted_at_a,
        dialled_at_a != dialled_at_b,
        a.host == b.host && a.port < b.port ==> !dialled_at_a,
        a.host == b.host && a.port > b.port ==> dialled_at_a,
{
    addresses_sort_totally(a, b);
}

/// A connection that says where it is reached is kept unless another already
/// said the same: then one of the two goes, which one by the tie alone.
pub proof fn two_connections_to_one_node_become_one(
    peers: &mut Peers,
    id: PeerId,
    address: Address,
    ours: Address,
    dialled: bool,
    ending: Ending,
    lost: bool,
)
    requires
        call_ensures(what_it_said_it_was, (peers, id, Some(address), ours, dialled), ending),
        call_ensures(loses_the_tie, (ours, address, dialled), lost),
    ensures
        ({
            let twice = exists|i: int|
                0 <= i < old(peers)@.len() && (#[trigger] old(peers)@[i]).0 != id && old(peers)@[i].1.advertised == Some(address);
            &&& !twice <==> ending is Keep
            &&& twice && lost <==> ending is HangUp
            &&& twice && !lost <==> ending is KeepAndHangUp
        }),
        ending matches Ending::KeepAndHangUp(other) ==> other != id && exists|i: int|
            0 <= i < old(peers)@.len() && (#[trigger] old(peers)@[i]).0 == other && old(peers)@[i].1.advertised == Some(address),
        forall|i: int|
            #![trigger final(peers)@[i]]
            0 <= i < final(peers)@.len() && final(peers)@[i].0 == id ==> final(peers)@[i].1.advertised == Some(address),
{
}

/// Where a connection is reached is where it says it is, or where it was
/// dialled if it has not said.
pub proof fn what_was_said_stands_over_what_was_dialled(
    peers: &Peers,
    reached: Vec<Address>,
    connected: Vec<Address>,
    i: int,
)
    requires
        call_ensures(Peers::reached, (peers,), reached),
        call_ensures(Peers::connected, (peers,), connected),
        0 <= i < peers@.len(),
    ensures
        peers@[i].1.advertised matches Some(address) ==> reached@.contains(address),
        peers@[i].1.advertised is None ==> (peers@[i].1.dialled_to matches Some(address)
            ==> reached@.contains(address)),
        peers@[i].1.advertised matches Some(address) ==> connected@.contains(address),
        peers@[i].1.dialled_to matches Some(address) ==> connected@.contains(address),
        forall|address: Address| #[trigger]
            reached@.contains(address) ==> connected@.contains(address),
{
    let entry = peers@[i];
    assert forall|address: Address| #[trigger] reached@.contains(address) implies connected@.contains(
        address,
    ) by {
        let k = choose|k: int|
            0 <= k < peers@.len() && (#[trigger] peers@[k]).1.reached_at() == Some(address);
        assert(peers@[k].1.advertised == Some(address) || peers@[k].1.dialled_to == Some(address));
    }
}

/// There is room beside those held while fewer than two of them come from the
/// host. This asks nothing of which machine it is.
pub proof fn two_from_a_host_are_enough(held: &Vec<Option<Host>>, host: Host, room: bool)
    requires
        call_ensures(room_beside, (held, host), room),
    ensures
        room <==> held@.filter(|one: Option<Host>| one == Some(host)).len() < 2,
{
    counting_hosts_is_filtering(held@, host);
}

proof fn counting_hosts_is_filtering(held: Seq<Option<Host>>, host: Host)
    ensures
        held_from(held, host) == held.filter(|one: Option<Host>| one == Some(host)).len(),
    decreases held.len(),
{
    reveal(Seq::filter);
    if held.len() > 0 {
        counting_hosts_is_filtering(held.drop_last(), host);
    }
}

/// A connection put in is found under its number, as it was put in, and every
/// other is where it was.
pub proof fn a_connection_put_in_is_found(
    peers: &mut Peers,
    id: PeerId,
    peer: Peer,
    found: Option<Peer>,
    other: PeerId,
    before: Option<Peer>,
    after: Option<Peer>,
    ids: Vec<PeerId>,
)
    requires
        call_ensures(Peers::insert, (peers, id, peer), ()),
        old(peers).wf(),
        !has_peer(old(peers)@, id),
        call_ensures(Peers::get, (&*final(peers), id), found),
        call_ensures(Peers::get, (&*old(peers), other), before),
        call_ensures(Peers::get, (&*final(peers), other), after),
        call_ensures(Peers::ids, (&*final(peers),), ids),
    ensures
        found == Some(peer),
        other != id ==> (after is Some <==> before is Some),
        ids@.len() == old(peers)@.len() + 1,
        ids@.last() == id,
{
    let was = old(peers)@;
    let is = final(peers)@;
    assert(is[is.len() - 1].0 == id);
    assert(has_peer(is, id));
    match found {
        Some(one) => {
            let k = choose|k: int| 0 <= k < is.len() && is[k] == (id, one);
            if k < was.len() {
                assert(was[k].0 == id);
            }
        },
        None => {},
    }
    if other != id {
        if has_peer(was, other) {
            let k = choose|k: int| 0 <= k < was.len() && (#[trigger] was[k]).0 == other;
            assert(is[k].0 == other);
        }
        if has_peer(is, other) {
            let k = choose|k: int| 0 <= k < is.len() && (#[trigger] is[k]).0 == other;
            assert(was[k].0 == other);
        }
    }
}

/// A connection removed is not found, and the table is as large as what is in
/// it.
pub proof fn a_connection_removed_is_not_found(
    peers: &mut Peers,
    id: PeerId,
    found: Option<Peer>,
    count: usize,
    empty: bool,
)
    requires
        call_ensures(Peers::remove, (peers, id), ()),
        call_ensures(Peers::get, (&*final(peers), id), found),
        call_ensures(Peers::len, (&*final(peers),), count),
        call_ensures(Peers::is_empty, (&*final(peers),), empty),
    ensures
        found is None,
        count == that_are_others(old(peers)@, id).len(),
        empty <==> count == 0,
{
    counting_is_filtering(old(peers)@, Host::V6(0), id);
}

/// A connection starts as one nothing is known of but where it comes from and
/// whether this node dialled it.
pub proof fn a_connection_starts_unknown(
    host: Option<Host>,
    dialled: Option<Address>,
    peer: Peer,
    worth: bool,
    table: Peers,
    count: usize,
)
    requires
        call_ensures(Peer::attached, (host, dialled), peer),
        call_ensures(Peer::worth_speaking_to, (peer,), worth),
        call_ensures(Peers::new, (), table),
        call_ensures(Peers::len, (&table,), count),
    ensures
        peer.host == host && peer.dialled_to == dialled,
        worth <==> dialled is Some,
        !peer.archives && !peer.greeted && peer.advertised is None,
        count == 0,
{
}

proof fn sendings_leave_their_trace<S, F: Fn(S, PeerId) -> (S, bool)>(
    ids: Seq<PeerId>,
    hand: S,
    send: F,
    made: Seq<(S, bool)>,
    trace: spec_fn(S) -> Seq<PeerId>,
)
    requires
        are_sendings(ids, hand, send, made),
        forall|h: S, id: PeerId, sent: (S, bool)| #[trigger]
            call_ensures(send, (h, id), sent) ==> trace(sent.0) == trace(h).push(id),
    ensures
        trace(handed_on(hand, made)) == trace(hand) + ids,
    decreases made.len(),
{
    if made.len() > 0 {
        sendings_leave_their_trace(ids.drop_last(), hand, send, made.drop_last(), trace);
        assert(ids =~= ids.drop_last().push(ids.last()));
        assert(trace(handed_on(hand, made)) =~= trace(hand) + ids);
    } else {
        assert(trace(hand) =~= trace(hand) + ids);
    }
}

/// What is sent to all is sent to each of those worth speaking to but the one
/// left out, once, in the order they came, and to nobody else.
pub proof fn what_is_sent_to_all_is_sent_to_each_once<S, F: Fn(S, PeerId) -> (S, bool)>(
    peers: &Peers,
    except: Option<PeerId>,
    hand: S,
    send: F,
    taken: (S, usize),
    trace: spec_fn(S) -> Seq<PeerId>,
)
    requires
        call_ensures(Peers::broadcast::<S, F>, (peers, except, hand, send), taken),
        forall|h: S, id: PeerId, sent: (S, bool)| #[trigger]
            call_ensures(send, (h, id), sent) ==> trace(sent.0) == trace(h).push(id),
    ensures
        trace(taken.0) == trace(hand) + that_hear(peers@, except),
{
    leaving_one_out_is_filtering(peers@, except);
    let ids = spoken_to_but(peers@, except);
    let made = choose|made: Seq<(S, bool)>| #[trigger]
        are_sendings(ids, hand, send, made) && taken.0 == handed_on(hand, made) && taken.1
            == how_many(made);
    sendings_leave_their_trace(ids, hand, send, made, trace);
}

} // verus!
