//! Collecting the headers from before this node arrived.
//!
//! A node handed a ledger holds headers from where it was handed on. The rest
//! it asks the network for, one peer at a time, into a collection of its own:
//! until the whole of it has been weighed against the commitment the oldest
//! header already carries, it is a stranger's word.
//!
//! A turn is one peer's from end to end. A peer that stops adding to the
//! collection loses its turn, and so does one whose collection had to be
//! thrown away, and the turn goes to the next one along.

use vstd::prelude::*;

use crate::calls::handed_on;
use crate::disk::{could_not_read, Extent, Reading, Refusing, Unread, Writing};

verus! {

/// A connection, by the number it was given when it was opened.
pub type PeerId = u64;

/// Headers one answer carries at most.
pub const MAX_HEADERS: u64 = 512;

/// Seconds the peer a node is filling its headers in from may go without
/// getting on with it before another peer is asked instead.
pub const HEADER_PATIENCE: u64 = 30;

/// Headers a turn has to collect to be given [`HEADER_PATIENCE`] again.
///
/// Progress is a run rather than a header: a turn renewed by a single header
/// is one a peer answering each question with one header holds for ever.
pub const HEADER_RUN: u64 = 512;

/// What a node that cannot yet show a newcomer the chain is still missing.
///
/// Headers that start above the first block mend themselves; headers or a
/// forest that stop below the tip are a write the disk would not take.
#[derive(Clone, Copy, Debug, PartialEq, Eq, Structural)]
pub struct Filling {
    /// The lowest header this node holds.
    pub from: u64,
    /// One past the highest header it holds.
    pub through: u64,
    /// Leaves in the forest built over those headers.
    pub proved: u64,
    /// How far the chain has got.
    pub reaches: u64,
    /// Bytes of blocks on the disk now.
    pub bytes: u64,
    /// Bytes of blocks the operator asked this node to hold.
    pub keep: u64,
}

impl Filling {
    /// Whether the disk has grown past what this node was asked to hold.
    pub fn over_the_keep(&self) -> (over: bool)
        ensures
            over == (self.bytes > self.keep),
    {
        self.bytes > self.keep
    }
}

/// Whose turn it is to supply the headers from before this node arrived.
#[derive(Clone, Copy, Debug, PartialEq, Eq, Structural)]
pub struct Turn {
    pub peer: PeerId,
    /// When the turn was last renewed.
    pub moved: u64,
    /// How far the collection had reached then.
    pub marked: u64,
    /// Set when this peer's collection was thrown away, so that the turn is
    /// over at once. Remembered rather than forgotten, because what passes the
    /// turn to the next peer along is knowing who this one was.
    pub spoiled: bool,
}

/// What a node keeps of headers: its own, the forest over them, and the run
/// being collected to go in front of them.
#[derive(Clone, Copy, Debug, PartialEq, Eq, Structural)]
pub struct Headers {
    pub own: Extent,
    /// Leaves in the forest over its own.
    pub leaves: u64,
    pub collected: Extent,
    /// Which collection that is. What is merged has to be what was weighed,
    /// and a length would not say: a run thrown away and refilled to the same
    /// length is a different run.
    pub epoch: u64,
}

impl Headers {
    pub open spec fn wf(self) -> bool {
        self.own.wf() && self.collected.wf()
    }

    /// The store with its collection thrown away.
    pub open spec fn discarded(self) -> Headers {
        Headers {
            collected: Extent { first: 0, reaches: 0 },
            epoch: self.epoch.saturating_add(1),
            ..self
        }
    }

    /// Where the collection carries on from.
    pub open spec fn carries_on_from(self) -> u64 {
        if self.collected.holding_nothing() {
            0
        } else {
            self.collected.reaches
        }
    }

    /// The next run this node is missing, as where it starts and how long it
    /// may be.
    pub open spec fn missing(self) -> Option<(u64, u64)> {
        if self.own.first == 0 || self.carries_on_from() >= self.own.first {
            None
        } else {
            Some((self.carries_on_from(), MAX_HEADERS))
        }
    }

    /// Throws the collected run away, and says that what comes next is a
    /// different collection.
    pub fn discard_filling(&mut self)
        ensures
            *final(self) == old(self).discarded(),
    {
        self.collected = Extent { first: 0, reaches: 0 };
        self.epoch = self.epoch.saturating_add(1);
    }

    /// Whether this node holds the whole header forest of a chain reaching
    /// `reaches`, back to the first block: what it takes to show a newcomer
    /// which chain carries the most work.
    pub fn can_show_the_chain(&self, reaches: u64) -> (can: bool)
        ensures
            can == (self.own.first == 0 && self.own.reaches >= reaches && self.leaves >= reaches),
    {
        self.own.first == 0 && self.own.reaches >= reaches && self.leaves >= reaches
    }

    /// Whether the collection weighed at `epoch`, against the header at
    /// `oldest`, is no longer what is held here.
    pub open spec fn moved(self, oldest: u64, epoch: u64) -> bool {
        self.epoch != epoch || self.own.first != oldest || self.collected.reaches < oldest
    }

    pub fn moved_since_weighed(&self, oldest: u64, epoch: u64) -> (moved: bool)
        ensures
            moved == self.moved(oldest, epoch),
    {
        self.epoch != epoch || self.own.first != oldest || self.collected.reaches < oldest
    }

    fn expected(&self) -> (from: u64)
        ensures
            from == self.carries_on_from(),
    {
        if self.collected.is_empty() {
            0
        } else {
            self.collected.reaches
        }
    }

    /// The next run of headers this node is missing from before it arrived,
    /// or `None` when it is missing none.
    pub fn wants_headers(&self) -> (wanted: Option<(u64, u64)>)
        ensures
            wanted == self.missing(),
    {
        if self.own.first == 0 {
            return None;
        }
        let from: u64 = self.expected();
        if from >= self.own.first {
            return None;
        }
        Some((from, MAX_HEADERS))
    }

    /// Throws away the run collected as `epoch`, if it is still that run, and
    /// says whether it was.
    pub fn throw_the_run_away(&mut self, epoch: u64) -> (thrown: bool)
        ensures
            thrown == (old(self).epoch == epoch),
            *final(self) == if thrown {
                old(self).discarded()
            } else {
                *old(self)
            },
    {
        if self.epoch == epoch {
            self.discard_filling();
            return true;
        }
        false
    }

    /// Whether the collection left beside these headers at a start leads
    /// nowhere: beside headers that already begin at the first block, or not
    /// beginning there itself.
    pub fn leads_nowhere(&self) -> (nowhere: bool)
        ensures
            nowhere == (self.own.first == 0 || self.collected.first != 0),
    {
        self.own.first == 0 || self.collected.first != 0
    }
}

/// Whether a turn goes on: its peer is still connected, has not spoiled its
/// collection, and has got on with it inside the patience.
pub open spec fn keeps_turn(turn: Turn, connected: Seq<PeerId>, now: u64) -> bool {
    &&& !turn.spoiled
    &&& connected.contains(turn.peer)
    &&& now.saturating_sub(turn.moved) < HEADER_PATIENCE
}

/// Whether `peer` is further along than `last`, which anybody is than nobody.
pub open spec fn along(last: Option<PeerId>, peer: PeerId) -> bool {
    match last {
        Some(last) => peer > last,
        None => true,
    }
}

/// Whether `next` is the peer a turn passes to: the next number along from the
/// last one, or the lowest when there is none further along.
pub open spec fn passes_to(connected: Seq<PeerId>, last: Option<PeerId>, next: PeerId) -> bool {
    if exists|i: int| 0 <= i < connected.len() && along(last, #[trigger] connected[i]) {
        &&& connected.contains(next)
        &&& along(last, next)
        &&& forall|i: int|
            0 <= i < connected.len() && along(last, connected[i]) ==> next <= #[trigger] connected[i]
    } else {
        &&& connected.contains(next)
        &&& forall|i: int| 0 <= i < connected.len() ==> next <= #[trigger] connected[i]
    }
}

fn has(connected: &Vec<PeerId>, peer: PeerId) -> (found: bool)
    ensures
        found == connected@.contains(peer),
{
    let mut at: usize = 0;
    while at < connected.len()
        invariant
            at <= connected@.len(),
            forall|i: int| 0 <= i < at ==> connected@[i] != peer,
        decreases connected.len() - at,
    {
        if connected[at] == peer {
            return true;
        }
        at = at + 1;
    }
    false
}

/// The lowest connection above `last`, or of all of them when `last` is
/// `None`.
fn lowest_above(connected: &Vec<PeerId>, last: Option<PeerId>) -> (lowest: Option<PeerId>)
    ensures
        match lowest {
            Some(lowest) => connected@.contains(lowest) && along(last, lowest) && forall|i: int|
                0 <= i < connected@.len() && along(last, connected@[i]) ==> lowest
                    <= #[trigger] connected@[i],
            None => forall|i: int|
                0 <= i < connected@.len() ==> !along(last, #[trigger] connected@[i]),
        },
{
    let mut lowest: Option<PeerId> = None;
    let mut at: usize = 0;
    while at < connected.len()
        invariant
            at <= connected@.len(),
            match lowest {
                Some(lowest) => connected@.contains(lowest) && along(last, lowest) && forall|i: int|
                    0 <= i < at && along(last, connected@[i]) ==> lowest <= #[trigger] connected@[i],
                None => forall|i: int| 0 <= i < at ==> !along(last, #[trigger] connected@[i]),
            },
        decreases connected.len() - at,
    {
        let peer: PeerId = connected[at];
        let further: bool = match last {
            Some(last) => peer > last,
            None => true,
        };
        if further {
            lowest = match lowest {
                Some(held) => if peer < held {
                    Some(peer)
                } else {
                    Some(held)
                },
                None => Some(peer),
            };
        }
        at = at + 1;
    }
    lowest
}

/// The peer to ask for the next run of headers, and the run to ask for, or
/// `None` when nothing is missing or there is nobody to ask.
///
/// A turn that goes on is asked again. A turn that passes throws away what was
/// collected, because a run half from one peer and half from another would be
/// thrown out at the commitment check with neither shown to be wrong.
pub fn asks_headers_of(
    headers: &mut Headers,
    turn: &mut Option<Turn>,
    connected: &Vec<PeerId>,
    now: u64,
) -> (asked: Option<(PeerId, (u64, u64))>)
    requires
        old(headers).wf(),
    ensures
        final(headers).wf(),
        old(headers).missing() is None ==> asked is None && *final(headers) == *old(headers) && *final(turn) == *old(turn),
        old(headers).missing() is Some && (*old(turn) matches Some(turn) && keeps_turn(
            turn,
            connected@,
            now,
        )) ==> asked == Some((old(turn)->0.peer, old(headers).missing()->0)) && *final(headers)
            == *old(headers) && *final(turn) == *old(turn),
        old(headers).missing() is Some && !(*old(turn) matches Some(turn) && keeps_turn(
            turn,
            connected@,
            now,
        )) ==> match asked {
            None => connected@.len() == 0 && *final(headers) == *old(headers) && *final(turn) == *old(turn),
            Some((peer, run)) => {
                &&& connected@.len() > 0
                &&& run == (0u64, MAX_HEADERS)
                &&& passes_to(
                    connected@,
                    match *old(turn) {
                        Some(turn) => Some(turn.peer),
                        None => None,
                    },
                    peer,
                )
                &&& *final(headers) == old(headers).discarded()
                &&& *final(turn) == Some(Turn { peer, moved: now, marked: 0, spoiled: false })
            },
        },
{
    let asking = match headers.wants_headers() {
        Some(asking) => asking,
        None => {
            return None;
        },
    };
    let last: Option<PeerId> = match *turn {
        Some(held) => {
            if !held.spoiled && has(connected, held.peer) && now.saturating_sub(held.moved)
                < HEADER_PATIENCE {
                return Some((held.peer, asking));
            }
            Some(held.peer)
        },
        None => None,
    };
    let next: PeerId = match lowest_above(connected, last) {
        Some(next) => next,
        None => match lowest_above(connected, None) {
            Some(next) => next,
            None => {
                assert(connected@.len() == 0) by {
                    if connected@.len() > 0 {
                        assert(!along(None, connected@[0]));
                    }
                }
                return None;
            },
        },
    };
    proof {
        assert(connected@.len() > 0);
        assert(passes_to(connected@, last, next));
    }
    headers.discard_filling();
    *turn = Some(Turn { peer: next, moved: now, marked: 0, spoiled: false });
    match headers.wants_headers() {
        Some(fresh) => Some((next, fresh)),
        None => None,
    }
}

/// A peer that lost its turn is not asked again while anybody else is
/// connected: a node surrounded by peers that spoil the collection works
/// through them.
pub proof fn a_lost_turn_goes_to_somebody_else(connected: Seq<PeerId>, last: PeerId, next: PeerId)
    requires
        passes_to(connected, Some(last), next),
        exists|i: int| 0 <= i < connected.len() && connected[i] != last,
    ensures
        next != last,
{
    let i = choose|i: int| 0 <= i < connected.len() && connected[i] != last;
    if next == last {
        assert(next <= connected[i]);
    }
}

/// A step of the header merge that this node's own disk refused.
///
/// Kept apart from a run that did not add up: a collection that was invented
/// is a supplier that could not show what it claimed. A disk is not.
#[derive(Debug)]
pub enum OwnDisk {
    /// A record this log holds and would not give back.
    Read { what: Reading, height: u64, because: String },
    /// A record this log would not take.
    Write(Refusing),
}

/// What became of a run of headers offered to a node filling in what came
/// before it arrived.
#[derive(Debug)]
pub enum Filled {
    /// Nothing this node could use, and nothing lost.
    Ignored,
    /// The collection grew, and how far it now reaches.
    Grew(u64),
    /// What was collected was thrown away, and has to be gathered again.
    Discarded,
    /// The run was whole and checked out, and this node's own disk stopped the
    /// rest. Nobody is at fault out there.
    OwnDisk(OwnDisk),
}

/// What taking a run does next.
#[derive(Clone, Copy, Debug, PartialEq, Eq, Structural)]
pub enum FillStep {
    /// Add the offered header with this index to the collection.
    Append(usize),
    /// Throw the collection away, whatever has become of it.
    Discard,
    /// Read this node's own oldest header, which carries the commitment.
    Anchor(u64),
    /// Read the collected header at this height into the forest being weighed.
    Weigh(u64),
    /// Compare that forest with the commitment.
    Compare,
    /// Throw the collection away, if it is still the one being weighed.
    ThrowAway,
    /// Look at what is held again, now that the weighing has let go of it.
    Return,
    /// Put the collection in front of this node's own headers.
    Join,
    Done,
}

/// What adding one header to the collection came to.
#[derive(Debug)]
pub enum Filed {
    /// Added, and how far the collection now reaches.
    Added(u64),
    /// It does not follow on, which is the supplier's doing.
    OutOfOrder,
    /// The disk would not take it.
    Refused(String),
}

/// What reading one collected header back came to.
#[derive(Debug)]
pub enum Weighed {
    /// Read, and in the forest.
    Held,
    /// Not there: a run that was thrown away or never finished.
    Missing,
    /// There, and the disk would not give it back.
    Unread(String),
}

/// A run of headers being taken.
#[derive(Debug)]
pub struct HeaderFilling {
    /// This node's oldest header, which the run has to lead up to.
    pub oldest: u64,
    /// The collection the run belongs to.
    pub epoch: u64,
    /// How far the collection reached before the run.
    pub held: u64,
    /// How far it reaches now.
    pub reaches: u64,
    /// The heights of the headers offered.
    pub offered: Vec<u64>,
    pub step: FillStep,
    pub filled: Filled,
}

impl HeaderFilling {
    pub open spec fn wf(&self) -> bool {
        match self.step {
            FillStep::Append(at) => at < self.offered@.len() && self.offered@[at as int]
                < self.oldest,
            FillStep::Anchor(height) => height == self.oldest && self.oldest > 0,
            FillStep::Weigh(height) => height < self.oldest,
            _ => true,
        }
    }

    pub open spec fn same_run(&self, other: &HeaderFilling) -> bool {
        &&& self.oldest == other.oldest
        &&& self.epoch == other.epoch
        &&& self.held == other.held
        &&& self.offered@ == other.offered@
    }

    /// The step after everything usable before index `at` has been filed.
    pub open spec fn file_step(&self, at: int) -> FillStep {
        if at < self.offered@.len() && self.offered@[at] < self.oldest {
            FillStep::Append(at as usize)
        } else if self.reaches < self.oldest {
            FillStep::Done
        } else {
            FillStep::Anchor(self.oldest)
        }
    }

    /// What a run that stops short of the oldest header says of itself.
    pub open spec fn short_of_it(&self) -> Filled {
        if self.reaches > self.held {
            Filled::Grew(self.reaches)
        } else {
            Filled::Ignored
        }
    }

    fn file(&mut self, at: usize)
        requires
            at <= old(self).offered@.len(),
            old(self).oldest > 0,
        ensures
            final(self).wf(),
            final(self).same_run(old(self)),
            final(self).reaches == old(self).reaches,
            final(self).step == old(self).file_step(at as int),
            final(self).filled == if final(self).step == FillStep::Done {
                old(self).short_of_it()
            } else {
                old(self).filled
            },
    {
        if at < self.offered.len() && self.offered[at] < self.oldest {
            self.step = FillStep::Append(at);
        } else if self.reaches < self.oldest {
            self.step = FillStep::Done;
            self.filled = if self.reaches > self.held {
                Filled::Grew(self.reaches)
            } else {
                Filled::Ignored
            };
        } else {
            self.step = FillStep::Anchor(self.oldest);
        }
    }

    /// Begins taking a run offered from `from`, whose headers claim the
    /// heights `offered`, into what is held.
    ///
    /// A node that keeps no headers or is missing none, an empty run, and a
    /// run that does not start where the collection ends are all ignored.
    pub fn fill_headers(headers: Option<Headers>, from: u64, offered: Vec<u64>) -> (taking:
        HeaderFilling)
        requires
            headers matches Some(headers) ==> headers.wf(),
        ensures
            taking.wf(),
            taking.offered@ == offered@,
            match headers {
                Some(headers) if headers.own.first != 0 && offered@.len() > 0 && from
                    == headers.carries_on_from() => {
                    &&& taking.oldest == headers.own.first
                    &&& taking.epoch == headers.epoch
                    &&& taking.held == headers.collected.reaches
                    &&& taking.reaches == headers.collected.reaches
                    &&& taking.step == taking.file_step(0)
                    &&& taking.step == FillStep::Done ==> taking.filled == taking.short_of_it()
                },
                _ => taking.step == FillStep::Done && taking.filled == Filled::Ignored,
            },
    {
        let mut taking = HeaderFilling {
            oldest: 0,
            epoch: 0,
            held: 0,
            reaches: 0,
            offered,
            step: FillStep::Done,
            filled: Filled::Ignored,
        };
        match headers {
            None => {},
            Some(headers) => {
                if headers.own.first == 0 || taking.offered.len() == 0 {
                    return taking;
                }
                if from != headers.expected() {
                    return taking;
                }
                taking.oldest = headers.own.first;
                taking.epoch = headers.epoch;
                taking.held = headers.collected.reaches;
                taking.reaches = headers.collected.reaches;
                taking.file(0);
            },
        }
        taking
    }

    /// Takes what adding one header came to.
    ///
    /// The collection goes either way when one is refused, because half a run
    /// is no use to the walk that weighs it. Whose turn goes with it depends
    /// on which of the two refusals it was.
    pub fn filed(&mut self, outcome: Filed)
        requires
            old(self).wf(),
            old(self).step is Append,
            old(self).oldest > 0,
        ensures
            final(self).wf(),
            final(self).same_run(old(self)),
            match outcome {
                Filed::Added(reaches) => {
                    &&& final(self).reaches == reaches
                    &&& final(self).step == final(self).file_step(old(self).step->Append_0 + 1)
                    &&& final(self).filled == if final(self).step == FillStep::Done {
                        final(self).short_of_it()
                    } else {
                        old(self).filled
                    }
                },
                Filed::OutOfOrder => final(self).step == FillStep::Discard && final(self).filled
                    == Filled::Discarded,
                Filed::Refused(words) => final(self).step == FillStep::Discard && (final(self).filled matches Filled::OwnDisk(OwnDisk::Write(refusing)) && refusing.what
                    == Writing::Headers && refusing.because@ == words@),
            },
    {
        let at: usize = match self.step {
            FillStep::Append(at) => at,
            _ => 0,
        };
        match outcome {
            Filed::Added(reaches) => {
                let offered: usize = self.offered.len();
                assert(at < offered);
                self.reaches = reaches;
                self.file(at + 1);
            },
            Filed::OutOfOrder => {
                self.filled = Filled::Discarded;
                self.step = FillStep::Discard;
            },
            Filed::Refused(words) => {
                self.filled = Filled::OwnDisk(
                    OwnDisk::Write(Refusing { what: Writing::Headers, because: words }),
                );
                self.step = FillStep::Discard;
            },
        }
    }

    /// Takes whether the oldest header could be read. One that could not says
    /// nothing about the run.
    pub fn anchored(&mut self, found: bool)
        requires
            old(self).wf(),
            old(self).step is Anchor,
        ensures
            final(self).wf(),
            final(self).same_run(old(self)),
            final(self).reaches == old(self).reaches,
            if found {
                final(self).step == FillStep::Weigh(0) && final(self).filled == old(self).filled
            } else {
                final(self).step == FillStep::Done && final(self).filled == Filled::Ignored
            },
    {
        if found {
            self.step = FillStep::Weigh(0);
        } else {
            self.filled = Filled::Ignored;
            self.step = FillStep::Done;
        }
    }

    /// Takes what reading one collected header back came to. Only one of the
    /// three answers is about the supplier.
    pub fn weighed(&mut self, outcome: Weighed)
        requires
            old(self).wf(),
            old(self).step is Weigh,
        ensures
            final(self).wf(),
            final(self).same_run(old(self)),
            final(self).reaches == old(self).reaches,
            match outcome {
                Weighed::Held => final(self).step == (if old(self).step->Weigh_0 + 1 < old(self).oldest {
                    FillStep::Weigh((old(self).step->Weigh_0 + 1) as u64)
                } else {
                    FillStep::Compare
                }) && final(self).filled == old(self).filled,
                Weighed::Missing => final(self).step == FillStep::ThrowAway && final(self).filled
                    == Filled::Discarded,
                Weighed::Unread(words) => final(self).step == FillStep::Done && (final(self).filled matches Filled::OwnDisk(OwnDisk::Read { what, height, because }) && what
                    == Reading::Headers && height == old(self).step->Weigh_0 && because@ == words@),
            },
    {
        let height: u64 = match self.step {
            FillStep::Weigh(height) => height,
            _ => 0,
        };
        match outcome {
            Weighed::Held => {
                self.step = if height + 1 < self.oldest {
                    FillStep::Weigh(height + 1)
                } else {
                    FillStep::Compare
                };
            },
            Weighed::Missing => {
                self.filled = Filled::Discarded;
                self.step = FillStep::ThrowAway;
            },
            Weighed::Unread(words) => {
                self.filled = Filled::OwnDisk(
                    OwnDisk::Read { what: Reading::Headers, height, because: words },
                );
                self.step = FillStep::Done;
            },
        }
    }

    /// Takes whether the forest of the run is the one the oldest header
    /// commits to. One that is not was made up, or is another chain's.
    pub fn compared(&mut self, equal: bool)
        requires
            old(self).wf(),
            old(self).step == FillStep::Compare,
        ensures
            final(self).wf(),
            final(self).same_run(old(self)),
            final(self).reaches == old(self).reaches,
            if equal {
                final(self).step == FillStep::Return && final(self).filled == old(self).filled
            } else {
                final(self).step == FillStep::ThrowAway && final(self).filled == Filled::Discarded
            },
    {
        if equal {
            self.step = FillStep::Return;
        } else {
            self.filled = Filled::Discarded;
            self.step = FillStep::ThrowAway;
        }
    }

    /// Takes what is held once the weighing is over. What is merged has to be
    /// what was weighed.
    pub fn returned(&mut self, headers: Option<Headers>)
        requires
            old(self).wf(),
            old(self).step == FillStep::Return,
        ensures
            final(self).wf(),
            final(self).same_run(old(self)),
            final(self).reaches == old(self).reaches,
            match headers {
                Some(headers) if !headers.moved(old(self).oldest, old(self).epoch) => final(self).step
                    == FillStep::Join && final(self).filled == old(self).filled,
                _ => final(self).step == FillStep::Done && final(self).filled == Filled::Ignored,
            },
    {
        let still: bool = match headers {
            Some(headers) => !headers.moved_since_weighed(self.oldest, self.epoch),
            None => false,
        };
        if still {
            self.step = FillStep::Join;
        } else {
            self.filled = Filled::Ignored;
            self.step = FillStep::Done;
        }
    }

    /// Takes what putting the collection in front came to. Joined, it is this
    /// node's own headers and the collection is thrown away; every failure
    /// from here is this node's own disk.
    pub fn joined(&mut self, refused: Option<OwnDisk>)
        requires
            old(self).wf(),
            old(self).step == FillStep::Join,
        ensures
            final(self).wf(),
            final(self).same_run(old(self)),
            final(self).reaches == old(self).reaches,
            match refused {
                Some(own) => final(self).step == FillStep::Done && final(self).filled
                    == Filled::OwnDisk(own),
                None => final(self).step == FillStep::Discard && final(self).filled == Filled::Grew(
                    old(self).oldest,
                ),
            },
    {
        match refused {
            Some(own) => {
                self.filled = Filled::OwnDisk(own);
                self.step = FillStep::Done;
            },
            None => {
                self.filled = Filled::Grew(self.oldest);
                self.step = FillStep::Discard;
            },
        }
    }

    /// Says that what a step asked to be thrown away was.
    pub fn thrown(&mut self)
        requires
            old(self).wf(),
            old(self).step == FillStep::Discard || old(self).step == FillStep::ThrowAway,
        ensures
            final(self).wf(),
            final(self).same_run(old(self)),
            final(self).step == FillStep::Done,
            final(self).filled == old(self).filled,
    {
        self.step = FillStep::Done;
    }
}

/// One record of the run being collected in `epoch`, given what reading it came
/// to. `None` once the collection it belongs to has been thrown away, which is
/// what stops a reading of one run being weighed as a reading of another.
pub fn filling_at<T>(headers: Option<Headers>, height: u64, epoch: u64, read: Result<Option<T>, String>) -> (record: Result<
    Option<T>,
    OwnDisk,
>)
    ensures
        match headers {
            Some(headers) if headers.epoch == epoch => match read {
                Ok(found) => record == Ok::<Option<T>, OwnDisk>(found),
                Err(words) => record matches Err(OwnDisk::Read { what, height: at, because }) && what
                    == Reading::Headers && at == height && because@ == words@,
            },
            _ => record == Ok::<Option<T>, OwnDisk>(None),
        },
{
    match headers {
        Some(headers) => {
            if headers.epoch != epoch {
                return Ok(None);
            }
        },
        None => {
            return Ok(None);
        },
    }
    match read {
        Ok(found) => Ok(found),
        Err(words) => Err(OwnDisk::Read { what: Reading::Headers, height, because: words }),
    }
}

/// What stopped a merge of the collected run into a node's own headers.
#[derive(Debug)]
pub enum JoinFailed {
    /// A header could not be read back, in the words of the disk.
    Read { height: u64, because: String },
    /// The disk would not take the merged log, in its own words.
    Write(String),
}

/// What a merge the disk stopped is, as something this node's own disk did.
/// Nobody out there is at fault for it.
pub fn join_logs(failed: JoinFailed) -> (own: OwnDisk)
    ensures
        match failed {
            JoinFailed::Read { height, because } => own == (OwnDisk::Read {
                what: Reading::Headers,
                height,
                because,
            }),
            JoinFailed::Write(words) => own matches OwnDisk::Write(refusing) && refusing.what
                == Writing::Headers && refusing.because@ == words@,
        },
{
    match failed {
        JoinFailed::Read { height, because } => OwnDisk::Read {
            what: Reading::Headers,
            height,
            because,
        },
        JoinFailed::Write(words) => OwnDisk::Write(Refusing::at(Writing::Headers, words.as_str())),
    }
}

/// What writing down the headers a handover came with led to.
#[derive(Clone, Copy, Debug, PartialEq, Eq, Structural)]
pub enum Seeded {
    /// There are headers already, and they stand.
    LeftAlone,
    Written,
    /// The disk refused one, and what was written is to be cleared: a run with
    /// a hole in it is no run.
    ClearAgain,
}

/// Whether `made` are the writes of the first headers of a run, in order and
/// each once, the first of them given `hand`. None is made past one the disk
/// refused.
pub open spec fn are_writes<S, A: Fn(S, usize) -> (S, bool)>(append: A, hand: S, made: Seq<(S, bool)>) -> bool
    decreases made.len(),
{
    made.len() > 0 ==> {
        let before = made.drop_last();
        &&& are_writes(append, hand, before)
        &&& before.len() > 0 ==> before.last().1
        &&& call_ensures(append, (handed_on(hand, before), before.len() as usize), made.last())
    }
}

/// Writes down the `count` headers a handover came with, into a log that holds
/// none. `append` writes the header with a given number to `hand`, and says
/// whether the disk took it.
pub fn seed_headers<S, A: Fn(S, usize) -> (S, bool)>(own: Extent, count: usize, hand: S, append: A) -> (seeded:
    (S, Seeded))
    requires
        own.holding_nothing() ==> forall|made: Seq<(S, bool)>| #[trigger]
            are_writes(append, hand, made) && made.len() < count && (made.len() > 0
                ==> made.last().1) ==> call_requires(
                append,
                (handed_on(hand, made), made.len() as usize),
            ),
    ensures
        !own.holding_nothing() ==> seeded.0 == hand && seeded.1 == Seeded::LeftAlone,
        own.holding_nothing() ==> exists|made: Seq<(S, bool)>| #[trigger]
            are_writes(append, hand, made) && seeded.0 == handed_on(hand, made) && match seeded.1 {
                Seeded::LeftAlone => false,
                Seeded::Written => made.len() == count && (count > 0 ==> made.last().1),
                Seeded::ClearAgain => 0 < made.len() <= count && !made.last().1,
            },
{
    if !own.is_empty() {
        return (hand, Seeded::LeftAlone);
    }
    let mut held: S = hand;
    let ghost mut made: Seq<(S, bool)> = Seq::empty();
    let mut at: usize = 0;
    while at < count
        invariant
            at <= count,
            own.holding_nothing(),
            forall|made: Seq<(S, bool)>| #[trigger]
                are_writes(append, hand, made) && made.len() < count && (made.len() > 0
                    ==> made.last().1) ==> call_requires(
                    append,
                    (handed_on(hand, made), made.len() as usize),
                ),
            are_writes(append, hand, made),
            made.len() == at,
            at > 0 ==> made.last().1,
            held == handed_on(hand, made),
        decreases count - at,
    {
        let (next, took) = append(held, at);
        let ghost before = made;
        proof {
            made = made.push((next, took));
            assert(made.drop_last() =~= before);
            assert(are_writes(append, hand, made));
        }
        held = next;
        if !took {
            return (held, Seeded::ClearAgain);
        }
        at = at + 1;
    }
    assert(are_writes(append, hand, made));
    (held, Seeded::Written)
}

/// Whether a run offered by `peer` is taken at all: only from the peer this
/// node is filling from.
pub fn is_filling_from(turn: Option<Turn>, peer: PeerId) -> (answer: bool)
    ensures
        answer == (turn matches Some(turn) && turn.peer == peer),
{
    match turn {
        Some(turn) => turn.peer == peer,
        None => false,
    }
}

/// A turn once the collection has grown to `reached`: renewed by a run, and by
/// nothing less.
pub open spec fn after_growing(turn: Turn, reached: u64, now: u64) -> Turn {
    if reached.saturating_sub(turn.marked) >= HEADER_RUN {
        Turn { marked: reached, moved: now, ..turn }
    } else {
        turn
    }
}

/// What a run that came to `filled` costs or earns the peer whose turn it is.
///
/// A run renews the turn and a header does not. A collection thrown away ends
/// it. What this node's own disk did costs nobody a turn: a read is written
/// down here, and a write is handed back to be noted against the disk.
pub fn take_headers(
    turn: &mut Option<Turn>,
    unread: &mut Option<Unread>,
    filled: Filled,
    now: u64,
) -> (refusing: Option<Refusing>)
    ensures
        *final(turn) == match (*old(turn), filled) {
            (Some(turn), Filled::Grew(reached)) => Some(after_growing(turn, reached, now)),
            (Some(turn), Filled::Discarded) => Some(Turn { spoiled: true, ..turn }),
            (turn, _) => turn,
        },
        match filled {
            Filled::OwnDisk(OwnDisk::Read { what, height, because }) => {
                &&& *final(unread) is Some
                &&& (*final(unread))->0.what == what
                &&& (*final(unread))->0.height == height
                &&& (*final(unread))->0.because@ == because@
                &&& (*final(unread))->0.refusals == match *old(unread) {
                    Some(before) => before.refusals.saturating_add(1),
                    None => 1,
                }
            },
            _ => *final(unread) == *old(unread),
        },
        match filled {
            Filled::OwnDisk(OwnDisk::Write(said)) => refusing == Some(said),
            _ => refusing is None,
        },
{
    match filled {
        Filled::Ignored => None,
        Filled::Grew(reached) => {
            match *turn {
                Some(held) => {
                    if reached.saturating_sub(held.marked) >= HEADER_RUN {
                        *turn = Some(Turn { marked: reached, moved: now, ..held });
                    }
                },
                None => {},
            }
            None
        },
        Filled::Discarded => {
            match *turn {
                Some(held) => {
                    *turn = Some(Turn { spoiled: true, ..held });
                },
                None => {},
            }
            None
        },
        Filled::OwnDisk(OwnDisk::Read { what, height, because }) => {
            could_not_read(unread, what, height, because.as_str());
            None
        },
        Filled::OwnDisk(OwnDisk::Write(said)) => Some(said),
    }
}

/// A peer that adds less than a run to the collection keeps its turn for one
/// patience and no longer, however often it answers and whoever is connected.
pub proof fn less_than_a_run_does_not_hold_a_turn(
    turn: Turn,
    reached: u64,
    answered: u64,
    connected: Seq<PeerId>,
    now: u64,
)
    requires
        reached < turn.marked + HEADER_RUN,
        now >= turn.moved + HEADER_PATIENCE,
    ensures
        !keeps_turn(after_growing(turn, reached, answered), connected, now),
{
}

/// What reading one path through the forest does next.
#[derive(Clone, Copy, Debug, PartialEq, Eq, Structural)]
pub enum ProofStep {
    /// Read the path off the forest.
    Prove,
    /// Build the node that would not fold again, from the header log.
    Mend,
    Done,
}

/// What reading a path came to.
#[derive(Debug)]
pub enum Proved {
    /// The forest answered, with a path or without one.
    Answered,
    /// A node of the forest does not fold, which is this node's own disk.
    Unfolded,
    Refused(String),
}

/// One path being read off the forest, which is mended once on the way if a
/// node of it will not fold.
#[derive(Debug)]
pub struct ProofReading {
    pub height: u64,
    pub mended: bool,
    pub step: ProofStep,
}

impl ProofReading {
    pub fn proof_off_disk(height: u64) -> (reading: ProofReading)
        ensures
            reading.height == height,
            !reading.mended,
            reading.step == ProofStep::Prove,
    {
        ProofReading { height, mended: false, step: ProofStep::Prove }
    }

    /// Takes what reading the path came to, with the words to write down when
    /// the forest would not be read. One that will not fold is mended once; a
    /// second time it is only a read the disk refused.
    pub fn proved(&mut self, outcome: Proved, unfolded: &str, unread: &mut Option<Unread>)
        requires
            old(self).step == ProofStep::Prove,
        ensures
            final(self).height == old(self).height,
            final(self).mended == old(self).mended,
            final(self).step == if outcome is Unfolded && !old(self).mended {
                ProofStep::Mend
            } else {
                ProofStep::Done
            },
            match outcome {
                Proved::Refused(words) => read_refused(*old(unread), *final(unread), old(self).height, words@),
                Proved::Unfolded if old(self).mended => read_refused(
                    *old(unread),
                    *final(unread),
                    old(self).height,
                    unfolded@,
                ),
                _ => *final(unread) == *old(unread),
            },
    {
        match outcome {
            Proved::Answered => {
                self.step = ProofStep::Done;
            },
            Proved::Unfolded => {
                if self.mended {
                    could_not_read(unread, Reading::Headers, self.height, unfolded);
                    self.step = ProofStep::Done;
                } else {
                    self.step = ProofStep::Mend;
                }
            },
            Proved::Refused(words) => {
                could_not_read(unread, Reading::Headers, self.height, words.as_str());
                self.step = ProofStep::Done;
            },
        }
    }

    /// Takes what mending came to. One that was mended is counted, and the
    /// path is read again.
    pub fn mended(&mut self, refused: Option<String>, mended_nodes: &mut u64, unread: &mut Option<Unread>)
        requires
            old(self).step == ProofStep::Mend,
        ensures
            final(self).height == old(self).height,
            match refused {
                Some(words) => {
                    &&& final(self).step == ProofStep::Done
                    &&& final(self).mended == old(self).mended
                    &&& *final(mended_nodes) == *old(mended_nodes)
                    &&& read_refused(*old(unread), *final(unread), old(self).height, words@)
                },
                None => {
                    &&& final(self).step == ProofStep::Prove
                    &&& final(self).mended
                    &&& *final(mended_nodes) == old(mended_nodes).wrapping_add(1)
                    &&& *final(unread) == *old(unread)
                },
            },
    {
        match refused {
            Some(words) => {
                could_not_read(unread, Reading::Headers, self.height, words.as_str());
                self.step = ProofStep::Done;
            },
            None => {
                *mended_nodes = mended_nodes.wrapping_add(1);
                self.mended = true;
                self.step = ProofStep::Prove;
            },
        }
    }
}

/// Whether `after` is `before` with one more refused read of a header at
/// `height`, in these words.
pub open spec fn read_refused(
    before: Option<Unread>,
    after: Option<Unread>,
    height: u64,
    words: Seq<char>,
) -> bool {
    match after {
        Some(unread) => unread.what == Reading::Headers && unread.height == height
            && unread.because@ == words && unread.refusals == match before {
            Some(before) => before.refusals.saturating_add(1),
            None => 1,
        },
        None => false,
    }
}

/// Headers are asked for while the log does not go down to the first of all and
/// the run collected does not meet it: from where that run ends, or from the
/// first where there is none, five hundred and twelve at a time.
pub proof fn headers_missing_below_the_log_are_asked_for(
    headers: &Headers,
    wanted: Option<(u64, u64)>,
)
    requires
        call_ensures(Headers::wants_headers, (headers,), wanted),
    ensures
        ({
            let nothing = headers.collected.first == headers.collected.reaches;
            &&& headers.own.first == 0 ==> wanted is None
            &&& headers.own.first > 0 && nothing ==> wanted == Some((0u64, 512u64))
            &&& headers.own.first > 0 && !nothing && headers.collected.reaches < headers.own.first
                ==> wanted == Some((headers.collected.reaches, 512u64))
            &&& !nothing && headers.collected.reaches >= headers.own.first ==> wanted is None
        }),
{
}

/// A chain can be shown by a node whose log holds every header of it from the
/// first and a leaf for each.
pub proof fn a_chain_can_be_shown_whole_or_not_at_all(headers: &Headers, reaches: u64, can: bool)
    requires
        call_ensures(Headers::can_show_the_chain, (headers, reaches), can),
    ensures
        can <==> headers.own.first == 0 && reaches <= headers.own.reaches && reaches
            <= headers.leaves,
{
}

/// A run thrown away leaves nothing collected and marks everything weighed
/// against it as out of date; the log itself is not touched. One that was
/// already replaced is left alone.
pub proof fn a_run_thrown_away_leaves_nothing(headers: &mut Headers, epoch: u64, thrown: bool)
    requires
        call_ensures(Headers::throw_the_run_away, (headers, epoch), thrown),
    ensures
        thrown <==> old(headers).epoch == epoch,
        !thrown ==> *final(headers) == *old(headers),
        thrown ==> final(headers).collected.first == final(headers).collected.reaches,
        thrown && epoch < u64::MAX ==> final(headers).epoch == epoch + 1,
        final(headers).own == old(headers).own,
        final(headers).leaves == old(headers).leaves,
{
}

/// What was weighed still stands while the run was not replaced, the log begins
/// where it did and the run still meets it.
pub proof fn what_was_weighed_stands_while_nothing_moved(
    headers: &Headers,
    oldest: u64,
    epoch: u64,
    moved: bool,
)
    requires
        call_ensures(Headers::moved_since_weighed, (headers, oldest, epoch), moved),
    ensures
        !moved <==> headers.epoch == epoch && headers.own.first == oldest && oldest
            <= headers.collected.reaches,
{
}

/// A run leads nowhere where the log needs none or the run does not begin at
/// the first.
pub proof fn a_run_leads_somewhere_from_the_first(headers: &Headers, nowhere: bool)
    requires
        call_ensures(Headers::leads_nowhere, (headers,), nowhere),
    ensures
        !nowhere <==> headers.own.first > 0 && headers.collected.first == 0,
{
}

/// Whoever has the turn keeps it for half a minute after last moving, while
/// they are connected and have not spoiled it, and is asked to go on from where
/// the run ends.
pub proof fn a_turn_is_kept_while_it_moves(
    headers: &mut Headers,
    turn: &mut Option<Turn>,
    connected: &Vec<PeerId>,
    now: u64,
    asked: Option<(PeerId, (u64, u64))>,
    wanted: Option<(u64, u64)>,
    holder: Turn,
)
    requires
        call_ensures(asks_headers_of, (headers, turn, connected, now), asked),
        call_ensures(Headers::wants_headers, (&*old(headers),), wanted),
        *old(turn) == Some(holder),
        !holder.spoiled,
        connected@.contains(holder.peer),
        now < holder.moved + 30,
    ensures
        wanted is None ==> asked is None,
        wanted matches Some(run) ==> asked == Some((holder.peer, run)),
        *final(turn) == *old(turn),
        *final(headers) == *old(headers),
{
}

/// A turn spoiled, left or let lapse goes to the next peer along, and round to
/// the first where there is none further. The new holder begins at the first
/// header with what was collected thrown away. Nothing is asked, and nothing
/// thrown away, where nobody is connected or nothing is missing.
pub proof fn a_turn_lost_passes_along(
    headers: &mut Headers,
    turn: &mut Option<Turn>,
    connected: &Vec<PeerId>,
    now: u64,
    asked: Option<(PeerId, (u64, u64))>,
    wanted: Option<(u64, u64)>,
)
    requires
        call_ensures(asks_headers_of, (headers, turn, connected, now), asked),
        call_ensures(Headers::wants_headers, (&*old(headers),), wanted),
        *old(turn) matches Some(holder) ==> holder.spoiled || !connected@.contains(holder.peer)
            || holder.moved + 30 <= now,
    ensures
        wanted is None || connected@.len() == 0 ==> asked is None && *final(turn) == *old(turn)
            && *final(headers) == *old(headers),
        wanted is Some && connected@.len() > 0 ==> asked is Some,
        asked matches Some((peer, run)) ==> {
            &&& run.0 == 0 && run.1 == 512
            &&& connected@.contains(peer)
            &&& final(headers).collected.first == final(headers).collected.reaches
            &&& final(headers).own == old(headers).own
            &&& *final(turn) matches Some(holder) && holder.peer == peer && holder.moved == now
                && holder.marked == 0 && !holder.spoiled
            &&& *old(turn) is None ==> forall|i: int|
                0 <= i < connected@.len() ==> peer <= #[trigger] connected@[i]
            &&& *old(turn) matches Some(last) ==> {
                &&& peer > last.peer ==> forall|i: int|
                    0 <= i < connected@.len() && connected@[i] > last.peer ==> peer
                        <= #[trigger] connected@[i]
                &&& peer <= last.peer ==> forall|i: int|
                    0 <= i < connected@.len() ==> peer <= #[trigger] connected@[i]
                        && connected@[i] <= last.peer
            }
        },
{
    match asked {
        Some((peer, _)) => {
            match *old(turn) {
                Some(last) => {
                    if exists|i: int|
                        0 <= i < connected@.len() && along(Some(last.peer), #[trigger] connected@[i]) {
                        assert(along(Some(last.peer), peer));
                    } else {
                        assert forall|i: int| 0 <= i < connected@.len() implies peer
                            <= #[trigger] connected@[i] && connected@[i] <= last.peer by {
                            assert(!along(Some(last.peer), connected@[i]));
                        }
                        let k = choose|k: int| 0 <= k < connected@.len() && connected@[k] == peer;
                        assert(connected@[k] <= last.peer);
                    }
                },
                None => {
                    assert forall|i: int| 0 <= i < connected@.len() implies peer
                        <= #[trigger] connected@[i] by {
                        assert(along(None, connected@[i]));
                    }
                },
            }
        },
        None => {},
    }
}

/// Headers offered are filed one after another while they lie below the log,
/// and only where the log needs them and they go on from where the run ends.
/// Once none is left, a run that meets the log is held up to it, and one that
/// does not has grown by what was filed.
pub proof fn headers_offered_are_filed_below_the_log(
    headers: Headers,
    from: u64,
    offered: Vec<u64>,
    taking: HeaderFilling,
)
    requires
        call_ensures(HeaderFilling::fill_headers, (Some(headers), from, offered), taking),
    ensures
        ({
            let end = if headers.collected.first == headers.collected.reaches {
                0
            } else {
                headers.collected.reaches
            };
            let goes_on = headers.own.first > 0 && offered@.len() > 0 && from == end;
            &&& !goes_on ==> taking.step is Done && taking.filled is Ignored
            &&& goes_on && offered@[0] < headers.own.first ==> taking.step == FillStep::Append(0)
            &&& goes_on && offered@[0] >= headers.own.first && headers.collected.reaches
                >= headers.own.first ==> taking.step == FillStep::Anchor(headers.own.first)
            &&& goes_on && offered@[0] >= headers.own.first && headers.collected.reaches
                < headers.own.first ==> taking.step is Done && taking.filled is Ignored
            &&& goes_on ==> taking.oldest == headers.own.first && taking.epoch == headers.epoch
        }),
{
}

/// A header filed is followed by the next that lies below the log. One out of
/// order spoils the run, and one the disk refuses loses it without spoiling
/// anything of whoever sent it.
pub proof fn a_header_filed_is_followed_by_the_next(
    taking: &mut HeaderFilling,
    outcome: Filed,
    at: usize,
)
    requires
        call_ensures(HeaderFilling::filed, (taking, outcome), ()),
        old(taking).step == FillStep::Append(at),
    ensures
        outcome matches Filed::Added(reaches) ==> {
            let more = at + 1 < old(taking).offered@.len() && old(taking).offered@[at + 1]
                < old(taking).oldest;
            &&& final(taking).reaches == reaches
            &&& more ==> (final(taking).step matches FillStep::Append(next) && next == at + 1)
            &&& !more && reaches >= old(taking).oldest ==> final(taking).step == FillStep::Anchor(
                old(taking).oldest,
            )
            &&& !more && reaches < old(taking).oldest ==> final(taking).step is Done && (if reaches
                > old(taking).held {
                final(taking).filled == Filled::Grew(reaches)
            } else {
                final(taking).filled is Ignored
            })
        },
        outcome is OutOfOrder ==> final(taking).step is Discard && final(taking).filled is Discarded,
        outcome matches Filed::Refused(words) ==> final(taking).step is Discard && (
        final(taking).filled matches Filled::OwnDisk(OwnDisk::Write(refusing))
            && refusing.because@ == words@),
        final(taking).offered@ == old(taking).offered@,
        final(taking).oldest == old(taking).oldest,
        final(taking).epoch == old(taking).epoch,
{
    vstd::std_specs::vec::axiom_spec_len(&old(taking).offered);
}

/// Every header below the log is weighed, from the first on and none twice,
/// before the run is compared with the log. One missing throws the run away,
/// and one that cannot be read ends it and is this node's own trouble.
pub proof fn every_header_is_weighed_in_turn(
    taking: &mut HeaderFilling,
    outcome: Weighed,
    height: u64,
)
    requires
        call_ensures(HeaderFilling::weighed, (taking, outcome), ()),
        old(taking).step == FillStep::Weigh(height),
    ensures
        outcome is Held && height + 1 < old(taking).oldest ==> (
        final(taking).step matches FillStep::Weigh(next) && next == height + 1),
        outcome is Held && height + 1 >= old(taking).oldest ==> final(taking).step is Compare,
        outcome is Held ==> final(taking).filled == old(taking).filled,
        outcome is Missing ==> final(taking).step is ThrowAway && final(taking).filled is Discarded,
        outcome matches Weighed::Unread(words) ==> final(taking).step is Done && (
        final(taking).filled matches Filled::OwnDisk(OwnDisk::Read { height: at, because, .. }) && at
            == height && because@ == words@),
{
}

/// A run is joined to the log only after it was found to meet it, was weighed
/// from the first header, came to the same, and nothing moved meanwhile.
pub proof fn a_run_is_joined_only_when_it_all_holds(
    anchored: &mut HeaderFilling,
    found: bool,
    compared: &mut HeaderFilling,
    equal: bool,
    returned: &mut HeaderFilling,
    headers: Option<Headers>,
)
    requires
        call_ensures(HeaderFilling::anchored, (anchored, found), ()),
        call_ensures(HeaderFilling::compared, (compared, equal), ()),
        call_ensures(HeaderFilling::returned, (returned, headers), ()),
    ensures
        found ==> final(anchored).step == FillStep::Weigh(0),
        !found ==> final(anchored).step is Done && final(anchored).filled is Ignored,
        equal ==> final(compared).step is Return,
        !equal ==> final(compared).step is ThrowAway && final(compared).filled is Discarded,
        final(returned).step is Join <==> (headers matches Some(now) && now.epoch
            == old(returned).epoch && now.own.first == old(returned).oldest
            && old(returned).oldest <= now.collected.reaches),
        !(final(returned).step is Join) ==> final(returned).step is Done
            && final(returned).filled is Ignored,
{
}

/// A run joined has grown to the log and is thrown away as done with; one the
/// disk refused to join ends there, and is this node's own trouble.
pub proof fn a_run_joined_reaches_the_log(
    joined: &mut HeaderFilling,
    refused: Option<OwnDisk>,
    thrown: &mut HeaderFilling,
)
    requires
        call_ensures(HeaderFilling::joined, (joined, refused), ()),
        call_ensures(HeaderFilling::thrown, (thrown,), ()),
    ensures
        refused is None ==> final(joined).step is Discard && final(joined).filled == Filled::Grew(
            old(joined).oldest,
        ),
        refused matches Some(own) ==> final(joined).step is Done && final(joined).filled
            == Filled::OwnDisk(own),
        final(thrown).step is Done,
        final(thrown).filled == old(thrown).filled,
{
}

/// A record is read from a run only while it is the run that was meant; one
/// read after it was replaced is not there. What could not be read is said,
/// and where.
pub proof fn a_record_is_read_from_the_run_meant<T>(
    headers: Option<Headers>,
    height: u64,
    epoch: u64,
    read: Result<Option<T>, String>,
    record: Result<Option<T>, OwnDisk>,
)
    requires
        call_ensures(filling_at::<T>, (headers, height, epoch, read), record),
    ensures
        !(headers matches Some(headers) && headers.epoch == epoch) ==> record == Ok::<
            Option<T>,
            OwnDisk,
        >(None),
        (headers matches Some(headers) && headers.epoch == epoch) ==> {
            &&& read matches Ok(found) ==> record == Ok::<Option<T>, OwnDisk>(found)
            &&& read matches Err(words) ==> (record matches Err(
                OwnDisk::Read { height: at, because, .. },
            ) && at == height && because@ == words@)
        },
{
}

/// A turn moves on when a whole run of five hundred and twelve has come since
/// it was last marked, and not for less. A run spoiled spoils the turn, and
/// this node's own trouble with its disk leaves the turn as it was.
pub proof fn a_turn_moves_by_whole_runs(
    turn: &mut Option<Turn>,
    unread: &mut Option<Unread>,
    filled: Filled,
    now: u64,
    refusing: Option<Refusing>,
    holder: Turn,
)
    requires
        call_ensures(take_headers, (turn, unread, filled, now), refusing),
        *old(turn) == Some(holder),
    ensures
        *final(turn) matches Some(after) && after.peer == holder.peer && {
            &&& filled matches Filled::Grew(reached) ==> {
                &&& holder.marked + 512 <= reached ==> after.marked == reached && after.moved == now
                    && after.spoiled == holder.spoiled
                &&& reached < holder.marked + 512 ==> after == holder
            }
            &&& filled is Discarded ==> after.spoiled && after.moved == holder.moved && after.marked
                == holder.marked
            &&& filled is Ignored || filled is OwnDisk ==> after == holder
        },
        refusing is Some <==> (filled matches Filled::OwnDisk(OwnDisk::Write(_))),
        !(filled matches Filled::OwnDisk(OwnDisk::Read { .. })) ==> *final(unread) == *old(unread),
        filled matches Filled::OwnDisk(OwnDisk::Read { height, .. }) ==> (
        *final(unread) matches Some(said) && said.height == height),
{
}

/// A turn belongs to the peer that holds it and to nobody else.
pub proof fn a_turn_belongs_to_its_holder(turn: Option<Turn>, peer: PeerId, answer: bool)
    requires
        call_ensures(is_filling_from, (turn, peer), answer),
    ensures
        turn is None ==> !answer,
        turn matches Some(turn) ==> (answer <==> turn.peer == peer),
{
}


/// A log that holds nothing is seeded with every header handed over, and
/// cleared again where one of them could not be written; a log that holds
/// something is left alone.
pub proof fn a_log_is_seeded_whole_or_cleared<S, A: Fn(S, usize) -> (S, bool)>(
    own: Extent,
    count: usize,
    hand: S,
    append: A,
    seeded: (S, Seeded),
)
    requires
        call_ensures(seed_headers::<S, A>, (own, count, hand, append), seeded),
    ensures
        own.first != own.reaches ==> seeded.0 == hand && seeded.1 is LeftAlone,
        own.first == own.reaches ==> !(seeded.1 is LeftAlone),
        own.first == own.reaches && count == 0 ==> seeded.1 is Written && seeded.0 == hand,
        own.first == own.reaches && (forall|h: S, at: usize, took: (S, bool)| #[trigger]
            call_ensures(append, (h, at), took) ==> took.1) ==> seeded.1 is Written,
        own.first == own.reaches && count > 0 && (forall|h: S, at: usize, took: (S, bool)| #[trigger]
            call_ensures(append, (h, at), took) ==> !took.1) ==> seeded.1 is ClearAgain
            && call_ensures(append, (hand, 0usize), (seeded.0, false)),
{
    if own.first == own.reaches {
        let made = choose|made: Seq<(S, bool)>| #[trigger]
            are_writes(append, hand, made) && seeded.0 == handed_on(hand, made) && match seeded.1 {
                Seeded::LeftAlone => false,
                Seeded::Written => made.len() == count && (count > 0 ==> made.last().1),
                Seeded::ClearAgain => 0 < made.len() <= count && !made.last().1,
            };
        if made.len() > 1 {
            let before = made.drop_last();
            assert(are_writes(append, hand, before));
            assert(before.last().1);
        }
        if made.len() > 0 {
            assert(made.last() == (seeded.0, made.last().1));
        }
    }
}

/// A proof that does not fold is mended and tried once more, and given up with
/// what was wrong after that. One that could not be read is given up at once.
pub proof fn a_proof_is_mended_once(
    reading: &mut ProofReading,
    outcome: Proved,
    unfolded: &str,
    unread: &mut Option<Unread>,
)
    requires
        call_ensures(ProofReading::proved, (reading, outcome, unfolded, unread), ()),
    ensures
        outcome is Unfolded && !old(reading).mended ==> final(reading).step is Mend
            && *final(unread) == *old(unread),
        outcome is Unfolded && old(reading).mended ==> final(reading).step is Done && (
        *final(unread) matches Some(said) && said.height == old(reading).height && said.because@
            == unfolded@),
        outcome matches Proved::Refused(words) ==> final(reading).step is Done && (
        *final(unread) matches Some(said) && said.height == old(reading).height && said.because@
            == words@),
        !(outcome is Unfolded) && !(outcome is Refused) ==> final(reading).step is Done
            && *final(unread) == *old(unread),
        final(reading).mended == old(reading).mended,
{
}

/// What was mended is proved again and counted; what could not be is given up.
pub proof fn what_was_mended_is_proved_again(
    reading: &mut ProofReading,
    refused: Option<String>,
    mended_nodes: &mut u64,
    unread: &mut Option<Unread>,
)
    requires
        call_ensures(ProofReading::mended, (reading, refused, mended_nodes, unread), ()),
    ensures
        refused is None ==> final(reading).step is Prove && final(reading).mended && *final(unread)
            == *old(unread),
        refused is None && *old(mended_nodes) < u64::MAX ==> *final(mended_nodes)
            == *old(mended_nodes) + 1,
        refused matches Some(words) ==> final(reading).step is Done && *final(mended_nodes)
            == *old(mended_nodes) && (*final(unread) matches Some(said) && said.height
            == old(reading).height && said.because@ == words@),
{
}

/// What was collected is thrown away whole, and the log is not touched.
pub proof fn what_was_collected_is_thrown_away_whole(headers: &mut Headers)
    requires
        call_ensures(Headers::discard_filling, (headers,), ()),
    ensures
        final(headers).collected.first == final(headers).collected.reaches,
        old(headers).epoch < u64::MAX ==> final(headers).epoch == old(headers).epoch + 1,
        final(headers).own == old(headers).own,
        final(headers).leaves == old(headers).leaves,
{
}

/// A log that could not be joined to is this node's own trouble: with reading,
/// and where, or with writing, and why.
pub proof fn a_join_that_fails_is_this_nodes_own_trouble(failed: JoinFailed, own: OwnDisk)
    requires
        call_ensures(join_logs, (failed,), own),
    ensures
        failed matches JoinFailed::Read { height, because } ==> (own matches OwnDisk::Read {
            what,
            height: at,
            because: said,
        } && what == Reading::Headers && at == height && said@ == because@),
        failed matches JoinFailed::Write(words) ==> (own matches OwnDisk::Write(refusing)
            && refusing.what == Writing::Headers && refusing.because@ == words@),
{
}

/// A proof begins unmended at the height asked for, and a node filling is over
/// what it keeps when it holds more bytes.
pub proof fn a_proof_begins_unmended(
    height: u64,
    reading: ProofReading,
    filling: &Filling,
    over: bool,
)
    requires
        call_ensures(ProofReading::proof_off_disk, (height,), reading),
        call_ensures(Filling::over_the_keep, (filling,), over),
    ensures
        reading.height == height && !reading.mended && reading.step is Prove,
        over <==> filling.keep < filling.bytes,
{
}

proof fn writes_leave_their_trace<S, A: Fn(S, usize) -> (S, bool)>(
    append: A,
    hand: S,
    made: Seq<(S, bool)>,
    trace: spec_fn(S) -> Seq<usize>,
)
    requires
        are_writes(append, hand, made),
        made.len() <= usize::MAX,
        forall|h: S, at: usize, took: (S, bool)| #[trigger]
            call_ensures(append, (h, at), took) ==> trace(took.0) == trace(h).push(at),
    ensures
        trace(handed_on(hand, made)) == trace(hand) + Seq::new(made.len(), |i: int| i as usize),
    decreases made.len(),
{
    let all = Seq::new(made.len(), |i: int| i as usize);
    if made.len() > 0 {
        let before = made.drop_last();
        writes_leave_their_trace(append, hand, before, trace);
        let some = Seq::new(before.len(), |i: int| i as usize);
        assert(all =~= some.push(before.len() as usize));
        assert(trace(handed_on(hand, made)) =~= trace(hand) + all);
    } else {
        assert(trace(hand) =~= trace(hand) + all);
    }
}

/// Headers are seeded in the order they were handed over, each once: whatever a
/// log writes down of what it was given, it is given the first, then the
/// second, and so on to the last.
pub proof fn headers_are_seeded_in_order<S, A: Fn(S, usize) -> (S, bool)>(
    own: Extent,
    count: usize,
    hand: S,
    append: A,
    seeded: (S, Seeded),
    trace: spec_fn(S) -> Seq<usize>,
)
    requires
        call_ensures(seed_headers::<S, A>, (own, count, hand, append), seeded),
        own.first == own.reaches,
        seeded.1 is Written,
        forall|h: S, at: usize, took: (S, bool)| #[trigger]
            call_ensures(append, (h, at), took) ==> trace(took.0) == trace(h).push(at),
    ensures
        trace(seeded.0).len() == trace(hand).len() + count,
        forall|i: int|
            0 <= i < trace(hand).len() ==> #[trigger] trace(seeded.0)[i] == trace(hand)[i],
        forall|i: int|
            trace(hand).len() <= i < trace(seeded.0).len() ==> #[trigger] trace(seeded.0)[i] == i
                - trace(hand).len(),
{
    let made = choose|made: Seq<(S, bool)>| #[trigger]
        are_writes(append, hand, made) && seeded.0 == handed_on(hand, made) && match seeded.1 {
            Seeded::LeftAlone => false,
            Seeded::Written => made.len() == count && (count > 0 ==> made.last().1),
            Seeded::ClearAgain => 0 < made.len() <= count && !made.last().1,
        };
    writes_leave_their_trace(append, hand, made, trace);
}

} // verus!
