//! Being handed a chain rather than reading it, and handing one over.
//!
//! A join is two exchanges in sequence: what work stands behind a chain, and
//! then the ledger at its tip. Each arrives in pieces, and each is checked as
//! a whole once its pieces are all here, because a piece on its own proves
//! nothing.

use std::collections::BTreeMap;

use vstd::prelude::*;
use vstd::string::*;

use crate::filling::PeerId;
use crate::message::{Joining, Message, MessageView};
use crate::network::{Hash32, Located};
use crate::probation::settles_at;
use crate::sync::{Outdated, WINDOW_SECONDS};

verus! {

broadcast use vstd::std_specs::btree::group_btree_axioms;

/// Seconds a join may go without a piece arriving before it is given up on.
pub const JOIN_PATIENCE: u64 = 30;

/// The most a join may be: how many pieces an answer may come in, and how many
/// bytes there may be in one.
///
/// Both numbers of an answer are chosen by whoever sends it, so without a
/// ceiling a stranger would decide how much memory this node spends collecting
/// one.
#[derive(Clone, Copy, Debug, PartialEq, Eq, Structural)]
pub struct Ceiling {
    pub parts: u32,
    pub part_bytes: usize,
}

impl Ceiling {
    /// The ceiling on an answer of no more than `most` bytes, handed out
    /// `part_bytes` to a piece.
    pub fn of(most: usize, part_bytes: usize) -> (ceiling: Ceiling)
        requires
            part_bytes > 0,
        ensures
            ceiling.part_bytes == part_bytes,
            ceiling.parts == if pieces_in(most as nat, part_bytes) > u32::MAX {
                u32::MAX as nat
            } else {
                pieces_in(most as nat, part_bytes)
            },
    {
        let parts: usize = how_many_pieces(most, part_bytes);
        Ceiling {
            parts: if parts > u32::MAX as usize {
                u32::MAX
            } else {
                parts as u32
            },
            part_bytes,
        }
    }
}

/// An answer collected piece by piece.
#[derive(Debug)]
pub struct Collecting {
    what: Joining,
    at: Hash32,
    parts: u32,
    held: BTreeMap<u32, Vec<u8>>,
    moved: u64,
    most: Ceiling,
}

/// What a collection is of, what it holds and when it last moved.
#[verifier::ext_equal]
pub struct CollectingView {
    pub what: Joining,
    pub at: Hash32,
    pub parts: u32,
    pub pieces: Map<u32, Seq<u8>>,
    pub moved: u64,
    pub most: Ceiling,
}

/// The first `parts` pieces, one after another.
pub open spec fn put_together(pieces: Map<u32, Seq<u8>>, parts: nat) -> Seq<u8>
    decreases parts,
{
    if parts == 0 {
        Seq::empty()
    } else {
        put_together(pieces, (parts - 1) as nat) + pieces[(parts - 1) as u32]
    }
}

/// Bytes held among the first `parts` pieces, those that are here.
pub open spec fn bytes_among(pieces: Map<u32, Seq<u8>>, parts: nat) -> nat
    decreases parts,
{
    if parts == 0 {
        0
    } else {
        bytes_among(pieces, (parts - 1) as nat) + if pieces.contains_key((parts - 1) as u32) {
            pieces[(parts - 1) as u32].len()
        } else {
            0
        }
    }
}

impl CollectingView {
    /// The collection a first piece begins, or `None` for a piece that is not
    /// one of the parts it says there are, or that is of an answer over the
    /// ceiling.
    pub open spec fn begun(
        what: Joining,
        at: Hash32,
        part: u32,
        parts: u32,
        bytes: Seq<u8>,
        now: u64,
        most: Ceiling,
    ) -> Option<CollectingView> {
        if part < parts && parts <= most.parts && bytes.len() <= most.part_bytes {
            Some(
                CollectingView {
                    what,
                    at,
                    parts,
                    pieces: Map::<u32, Seq<u8>>::empty().insert(part, bytes),
                    moved: now,
                    most,
                },
            )
        } else {
            None
        }
    }

    /// Whether what is held is within the ceiling: no more pieces than it
    /// allows, all of them parts of this answer, and none of them too long.
    pub open spec fn is_bounded(self) -> bool {
        &&& self.parts <= self.most.parts
        &&& forall|part: u32| #[trigger]
            self.pieces.contains_key(part) ==> part < self.parts && self.pieces[part].len()
                <= self.most.part_bytes
    }

    /// Bytes held.
    pub open spec fn bytes_held(self) -> nat {
        bytes_among(self.pieces, self.parts as nat)
    }

    pub open spec fn has(self, part: int) -> bool {
        0 <= part <= u32::MAX && self.pieces.contains_key(part as u32)
    }

    /// Whether `part` is the first piece that is missing, with none before it
    /// missing.
    pub open spec fn is_first_missing(self, part: int) -> bool {
        &&& 0 <= part < self.parts
        &&& !self.has(part)
        &&& forall|earlier: int| 0 <= earlier < part ==> #[trigger] self.has(earlier)
    }

    /// Whether every piece is here.
    pub open spec fn is_whole(self) -> bool {
        forall|part: int| 0 <= part < self.parts ==> #[trigger] self.has(part)
    }

    /// The whole answer, for a collection with every piece.
    pub open spec fn answer(self) -> Seq<u8> {
        put_together(self.pieces, self.parts as nat)
    }

    /// Whether a piece belongs to this collection.
    pub open spec fn fits(self, what: Joining, at: Hash32, part: u32, bytes: Seq<u8>) -> bool {
        &&& what == self.what
        &&& at == self.at
        &&& part < self.parts
        &&& bytes.len() <= self.most.part_bytes
    }

    /// The collection with one piece more.
    pub open spec fn with(self, part: u32, bytes: Seq<u8>, now: u64) -> CollectingView {
        CollectingView { pieces: self.pieces.insert(part, bytes), moved: now, ..self }
    }
}

impl View for Collecting {
    type V = CollectingView;

    closed spec fn view(&self) -> CollectingView {
        CollectingView {
            what: self.what,
            at: self.at,
            parts: self.parts,
            pieces: self.held@.map_values(|bytes: Vec<u8>| bytes@),
            moved: self.moved,
            most: self.most,
        }
    }
}

impl Collecting {
    /// A collection begun by its first piece to arrive, or `None` for a piece
    /// that is not one of the parts it says there are, or that is of an answer
    /// over `most`.
    pub fn started(
        what: Joining,
        at: Hash32,
        part: u32,
        parts: u32,
        bytes: Vec<u8>,
        now: u64,
        most: Ceiling,
    ) -> (started: Option<Collecting>)
        ensures
            match CollectingView::begun(what, at, part, parts, bytes@, now, most) {
                Some(begun) => started matches Some(collecting) && collecting@ == begun
                    && begun.is_bounded(),
                None => started is None,
            },
    {
        if part >= parts || parts > most.parts || bytes.len() > most.part_bytes {
            return None;
        }
        let ghost said = bytes@;
        let mut held: BTreeMap<u32, Vec<u8>> = BTreeMap::new();
        held.insert(part, bytes);
        let collecting = Collecting { what, at, parts, held, moved: now, most };
        assert(collecting@.pieces =~= Map::<u32, Seq<u8>>::empty().insert(part, said));
        Some(collecting)
    }

    /// Takes one more piece, saying whether it belongs here. One that does not
    /// leaves the collection as it was.
    pub fn take(&mut self, what: Joining, at: Hash32, part: u32, bytes: Vec<u8>, now: u64) -> (taken: bool)
        ensures
            taken == old(self)@.fits(what, at, part, bytes@),
            final(self)@ == if taken {
                old(self)@.with(part, bytes@, now)
            } else {
                old(self)@
            },
            old(self)@.is_bounded() ==> final(self)@.is_bounded(),
    {
        if what != self.what || at != self.at || part >= self.parts || bytes.len()
            > self.most.part_bytes {
            return false;
        }
        let ghost before = self@;
        let ghost said = bytes@;
        self.held.insert(part, bytes);
        self.moved = now;
        assert(self@.pieces =~= before.pieces.insert(part, said));
        true
    }

    /// The first piece still missing, or `None` once every piece is here.
    pub fn wanted(&self) -> (wanted: Option<u32>)
        ensures
            match wanted {
                Some(part) => self@.is_first_missing(part as int),
                None => self@.is_whole(),
            },
    {
        let mut part: u32 = 0;
        while part < self.parts
            invariant
                part <= self.parts,
                forall|earlier: int| 0 <= earlier < part ==> #[trigger] self@.has(earlier),
            decreases self.parts - part,
        {
            assert(self.held@.contains_key(part) <==> self@.has(part as int));
            if !self.held.contains_key(&part) {
                return Some(part);
            }
            part = part + 1;
        }
        None
    }

    /// The whole answer, once every piece of it is here.
    pub fn whole(&self) -> (whole: Option<Vec<u8>>)
        ensures
            whole is Some <==> self@.is_whole(),
            whole matches Some(bytes) ==> bytes@ == self@.answer(),
    {
        let mut whole: Vec<u8> = Vec::new();
        let mut part: u32 = 0;
        while part < self.parts
            invariant
                part <= self.parts,
                forall|earlier: int| 0 <= earlier < part ==> #[trigger] self@.has(earlier),
                whole@ == put_together(self@.pieces, part as nat),
            decreases self.parts - part,
        {
            assert(self.held@.contains_key(part) <==> self@.has(part as int));
            match self.held.get(&part) {
                Some(bytes) => {
                    whole.extend_from_slice(bytes.as_slice());
                },
                None => {
                    return None;
                },
            }
            part = part + 1;
        }
        Some(whole)
    }

    /// Which of the two answers this is a collection of.
    pub fn what(&self) -> (what: Joining)
        ensures
            what == self@.what,
    {
        self.what
    }

    /// When the last piece landed.
    pub fn moved(&self) -> (moved: u64)
        ensures
            moved == self@.moved,
    {
        self.moved
    }
}

/// The tip a weighing settled on, and the work behind it.
#[derive(Clone, Copy, Debug, PartialEq, Eq, Structural)]
pub struct Tip {
    pub at: Located,
    pub total_work: u128,
}

/// How far a join has got.
#[derive(Debug)]
pub enum Progress {
    /// Nothing has come back.
    Idle,
    /// Collecting the weighing, which is where a join starts.
    Weighing(Collecting),
    /// Weighed, and waiting for the first piece of the ledger.
    Weighed { tip: Tip, since: u64 },
    /// Collecting the ledger of the chain that was weighed.
    Fetching { tip: Tip, collecting: Collecting },
    /// Over: this node is on a chain.
    Landed,
}

/// What a join holds.
#[verifier::ext_equal]
pub enum ProgressView {
    Idle,
    Weighing(CollectingView),
    Weighed { tip: Tip, since: u64 },
    Fetching { tip: Tip, collecting: CollectingView },
    Landed,
}

impl View for Progress {
    type V = ProgressView;

    open spec fn view(&self) -> ProgressView {
        match self {
            Progress::Idle => ProgressView::Idle,
            Progress::Weighing(collecting) => ProgressView::Weighing(collecting@),
            Progress::Weighed { tip, since } => ProgressView::Weighed { tip: *tip, since: *since },
            Progress::Fetching { tip, collecting } => ProgressView::Fetching {
                tip: *tip,
                collecting: collecting@,
            },
            Progress::Landed => ProgressView::Landed,
        }
    }
}

impl ProgressView {
    /// When the join last moved, or `None` for one with nothing to move.
    pub open spec fn moved(self) -> Option<u64> {
        match self {
            ProgressView::Idle | ProgressView::Landed => None,
            ProgressView::Weighing(collecting) => Some(collecting.moved),
            ProgressView::Weighed { since, .. } => Some(since),
            ProgressView::Fetching { collecting, .. } => Some(collecting.moved),
        }
    }

    /// The tip the weighing settled on, for a join past its weighing.
    pub open spec fn tip(self) -> Option<Tip> {
        match self {
            ProgressView::Weighed { tip, .. } | ProgressView::Fetching { tip, .. } => Some(tip),
            _ => None,
        }
    }

    /// The join with `collecting` filed where it belongs.
    pub open spec fn filed(collecting: CollectingView, tip: Option<Tip>) -> ProgressView {
        match tip {
            Some(tip) => ProgressView::Fetching { tip, collecting },
            None => ProgressView::Weighing(collecting),
        }
    }

    /// What a piece makes of what is being collected: the collection with it
    /// in, or `None` where it does not belong. A join that has collected
    /// nothing yet begins with it.
    pub open spec fn collects(
        self,
        what: Joining,
        at: Hash32,
        part: u32,
        parts: u32,
        bytes: Seq<u8>,
        now: u64,
        most: Ceiling,
    ) -> Option<CollectingView> {
        match self {
            ProgressView::Landed => None,
            ProgressView::Idle | ProgressView::Weighed { .. } => CollectingView::begun(
                what,
                at,
                part,
                parts,
                bytes,
                now,
                most,
            ),
            ProgressView::Weighing(collecting) | ProgressView::Fetching { collecting, .. } => if collecting.fits(
                what,
                at,
                part,
                bytes,
            ) {
                Some(collecting.with(part, bytes, now))
            } else {
                None
            },
        }
    }

    /// Whether what the join holds is within its ceiling.
    pub open spec fn is_bounded(self) -> bool {
        match self {
            ProgressView::Weighing(collecting) | ProgressView::Fetching { collecting, .. } => collecting.is_bounded(),
            _ => true,
        }
    }

    /// Whether `wanted` is the piece the join is waiting on.
    pub open spec fn waits_on(self, wanted: Option<(Joining, u32)>) -> bool {
        match self {
            ProgressView::Idle => wanted == Some((Joining::Weight, 0u32)),
            ProgressView::Landed => wanted is None,
            ProgressView::Weighed { .. } => wanted == Some((Joining::Ledger, 0u32)),
            ProgressView::Weighing(collecting) => match wanted {
                Some((what, part)) => what == Joining::Weight && collecting.is_first_missing(
                    part as int,
                ),
                None => collecting.is_whole(),
            },
            ProgressView::Fetching { collecting, .. } => match wanted {
                Some((what, part)) => what == Joining::Ledger && collecting.is_first_missing(
                    part as int,
                ),
                None => collecting.is_whole(),
            },
        }
    }
}

impl Progress {
    /// When the join last moved, or `None` for one with nothing to move.
    pub fn moved(&self) -> (moved: Option<u64>)
        ensures
            moved == self@.moved(),
    {
        match self {
            Progress::Idle | Progress::Landed => None,
            Progress::Weighing(collecting) => Some(collecting.moved()),
            Progress::Weighed { since, .. } => Some(*since),
            Progress::Fetching { collecting, .. } => Some(collecting.moved()),
        }
    }

    /// The tip the weighing settled on, for a join past its weighing.
    pub fn tip(&self) -> (tip: Option<Tip>)
        ensures
            tip == self@.tip(),
    {
        match self {
            Progress::Weighed { tip, .. } | Progress::Fetching { tip, .. } => Some(*tip),
            _ => None,
        }
    }
}

/// How far a node is through joining a chain, for a person to read.
#[derive(Clone, Copy, Debug, PartialEq, Eq, Structural)]
pub enum Joined {
    /// Nothing has come back.
    NotYet,
    /// The work behind a chain is being shown.
    Weighing,
    /// The ledger is being handed over.
    Fetching,
    /// The ledger is in the chain.
    Done,
}

impl Progress {
    /// How far the join is, for a person to read.
    pub fn reported(&self) -> (joined: Joined)
        ensures
            joined == match self@ {
                ProgressView::Idle => Joined::NotYet,
                ProgressView::Weighing(_) => Joined::Weighing,
                ProgressView::Weighed { .. } | ProgressView::Fetching { .. } => Joined::Fetching,
                ProgressView::Landed => Joined::Done,
            },
    {
        match self {
            Progress::Idle => Joined::NotYet,
            Progress::Weighing(_) => Joined::Weighing,
            Progress::Weighed { .. } | Progress::Fetching { .. } => Joined::Fetching,
            Progress::Landed => Joined::Done,
        }
    }
}

/// The piece a join is waiting on, or `None` when it is waiting on nothing.
pub fn still_wanted(joining: &Progress) -> (wanted: Option<(Joining, u32)>)
    ensures
        joining@.waits_on(wanted),
{
    match joining {
        Progress::Idle => Some((Joining::Weight, 0)),
        Progress::Landed => None,
        Progress::Weighing(collecting) => match collecting.wanted() {
            Some(part) => Some((Joining::Weight, part)),
            None => None,
        },
        Progress::Weighed { .. } => Some((Joining::Ledger, 0)),
        Progress::Fetching { collecting, .. } => match collecting.wanted() {
            Some(part) => Some((Joining::Ledger, part)),
            None => None,
        },
    }
}

/// Whether a message is a piece of a join answer, and one worth taking.
#[derive(Debug)]
pub enum Collected {
    /// A piece, from the peer that was asked.
    Piece { what: Joining, at: Hash32, part: u32, parts: u32, bytes: Vec<u8> },
    /// A piece from somebody who was not asked, which is dropped.
    Dropped,
    /// Something else entirely.
    Other(Message),
}

/// Sorts out the one message taken before the allowance is asked about: a
/// piece of a join answer.
///
/// Only the peer the node chose to ask is collected from. Anybody may send a
/// piece, and there is one collection: a piece from somebody else would not
/// fit it, and would tear down an honest exchange at the cost of one message.
pub fn collected(message: Message, asked: bool) -> (collected: Collected)
    ensures
        match message@ {
            MessageView::JoinPart { what, at, part, parts, bytes } => if asked {
                collected matches Collected::Piece {
                    what: w,
                    at: a,
                    part: p,
                    parts: ps,
                    bytes: b,
                } && w == what && a == at && p == part && ps == parts && b@ == bytes
            } else {
                collected is Dropped
            },
            _ => collected == Collected::Other(message),
        },
{
    match message {
        Message::JoinPart { what, at, part, parts, bytes } => if asked {
            Collected::Piece { what, at, part, parts, bytes }
        } else {
            Collected::Dropped
        },
        other => Collected::Other(other),
    }
}

/// What filing a piece came to.
#[derive(Debug)]
pub enum Taken {
    /// There was nothing to file it against.
    Ignored,
    /// It does not belong, which ends the attempt: the sender's claim stops
    /// counting.
    Failed,
    /// Filed, and this is the piece to ask for next.
    Ask(Message),
    /// Filed, and it was the last: the whole answer.
    Whole(Vec<u8>),
}

/// Files a collection back where it belongs, and says what is still missing,
/// or hands over the whole answer once nothing is.
pub fn step(joining: &mut Progress, collecting: Collecting, tip: Option<Tip>) -> (taken: Taken)
    ensures
        final(joining)@ == ProgressView::filed(collecting@, tip),
        match taken {
            Taken::Whole(bytes) => collecting@.is_whole() && bytes@ == collecting@.answer(),
            Taken::Ask(message) => message@ matches MessageView::GetJoin { what, part } && what
                == collecting@.what && collecting@.is_first_missing(part as int),
            _ => false,
        },
{
    let wanted = collecting.wanted();
    let what = collecting.what();
    let whole = collecting.whole();
    *joining =
    match tip {
        Some(tip) => Progress::Fetching { tip, collecting },
        None => Progress::Weighing(collecting),
    };
    match wanted {
        Some(part) => Taken::Ask(Message::GetJoin { what, part }),
        None => match whole {
            Some(bytes) => Taken::Whole(bytes),
            None => Taken::Ignored,
        },
    }
}

/// Files one piece, and says what to ask for next or hands over the whole
/// answer.
///
/// A piece that does not belong ends the attempt rather than being argued
/// with: the pieces held cannot be completed. One for a join that has landed
/// is ignored, and leaves nothing under way. Nothing over `most` is collected,
/// whatever its sender says there is of it.
pub fn take_piece(
    joining: &mut Progress,
    what: Joining,
    at: Hash32,
    part: u32,
    parts: u32,
    bytes: Vec<u8>,
    now: u64,
    most: Ceiling,
) -> (taken: Taken)
    ensures
        old(joining)@.is_bounded() ==> final(joining)@.is_bounded(),
        match old(joining)@.collects(what, at, part, parts, bytes@, now, most) {
            Some(collecting) => {
                &&& final(joining)@ == ProgressView::filed(collecting, old(joining)@.tip())
                &&& match taken {
                    Taken::Whole(bytes) => collecting.is_whole() && bytes@ == collecting.answer(),
                    Taken::Ask(message) => message@ matches MessageView::GetJoin { what, part }
                        && what == collecting.what && collecting.is_first_missing(part as int),
                    _ => false,
                }
            },
            None => if old(joining)@ is Landed {
                taken is Ignored && final(joining)@ is Idle
            } else {
                taken is Failed && final(joining)@ is Idle
            },
        },
{
    let tip = joining.tip();
    let mut held = Progress::Idle;
    std::mem::swap(&mut held, joining);
    match held {
        Progress::Landed => Taken::Ignored,
        Progress::Idle | Progress::Weighed { .. } => match Collecting::started(
            what,
            at,
            part,
            parts,
            bytes,
            now,
            most,
        ) {
            Some(started) => step(joining, started, tip),
            None => fail_attempt(joining),
        },
        Progress::Weighing(collecting) => {
            let mut collecting = collecting;
            if collecting.take(what, at, part, bytes, now) {
                step(joining, collecting, tip)
            } else {
                fail_attempt(joining)
            }
        },
        Progress::Fetching { collecting, .. } => {
            let mut collecting = collecting;
            if collecting.take(what, at, part, bytes, now) {
                step(joining, collecting, tip)
            } else {
                fail_attempt(joining)
            }
        },
    }
}

/// Ends a join attempt whose answer does not add up. The claim behind it stops
/// counting and the next claimant is asked in its turn, so a failed answer
/// costs its owner the exchange rather than costing this node its choice.
pub fn fail_attempt(joining: &mut Progress) -> (taken: Taken)
    ensures
        taken is Failed,
        final(joining)@ is Idle,
{
    *joining = Progress::Idle;
    Taken::Failed
}

/// Takes one piece of a join answer, for a node that may already be on a
/// chain. One that is has nothing to join: the answer outlived the question.
///
/// Beside a whole answer comes the tip the weighing settled on, which a ledger
/// has to belong to.
pub fn take_join_part(
    joining: &mut Progress,
    empty: bool,
    what: Joining,
    at: Hash32,
    part: u32,
    parts: u32,
    bytes: Vec<u8>,
    now: u64,
    most: Ceiling,
) -> (taken: (Taken, Option<Tip>))
    ensures
        old(joining)@.is_bounded() ==> final(joining)@.is_bounded(),
        taken.1 == final(joining)@.tip(),
        if !empty {
            taken.0 is Ignored && final(joining)@ is Landed
        } else {
            match old(joining)@.collects(what, at, part, parts, bytes@, now, most) {
                Some(collecting) => {
                    &&& final(joining)@ == ProgressView::filed(collecting, old(joining)@.tip())
                    &&& match taken.0 {
                        Taken::Whole(bytes) => collecting.is_whole() && bytes@ == collecting.answer(),
                        Taken::Ask(message) => message@ matches MessageView::GetJoin { what, part }
                            && what == collecting.what && collecting.is_first_missing(part as int),
                        _ => false,
                    }
                },
                None => if old(joining)@ is Landed {
                    taken.0 is Ignored && final(joining)@ is Idle
                } else {
                    taken.0 is Failed && final(joining)@ is Idle
                },
            }
        },
{
    if !empty {
        *joining = Progress::Landed;
        return (Taken::Ignored, None);
    }
    let taken = take_piece(joining, what, at, part, parts, bytes, now, most);
    let tip = joining.tip();
    (taken, tip)
}

/// What a whole showing of the work behind a chain led to.
#[derive(Debug)]
pub enum Shown {
    /// The attempt was given up on while it was being weighed.
    Stale,
    /// It did not check out. The sender's claim stops counting.
    Failed,
    /// It checked out, and somebody credible claims more.
    HeldBack,
    /// It checked out and goes forward: the ledger is asked for.
    Forward(Message),
}

/// Takes what a whole showing weighed, or `None` where it did not check out.
///
/// `shown` tells whoever is choosing what was shown, and answers whether it
/// goes forward. What weighing settles is that this chain's work was really
/// done. It does not settle that no heavier chain exists, so a chain that
/// proves itself goes forward only while nobody credible claims more.
pub fn weigh_what_was_shown<S: FnOnce(u128) -> bool>(
    joining: &mut Progress,
    weighed: Option<Tip>,
    shown: S,
    now: u64,
) -> (outcome: Shown)
    requires
        old(joining)@ is Weighing ==> (weighed matches Some(tip) ==> call_requires(
            shown,
            (tip.total_work,),
        )),
    ensures
        match (old(joining)@, weighed) {
            (ProgressView::Weighing(_), None) => outcome is Failed && final(joining)@ is Idle,
            (ProgressView::Weighing(_), Some(tip)) => match outcome {
                Shown::HeldBack => call_ensures(shown, (tip.total_work,), false) && final(joining)@
                    is Idle,
                Shown::Forward(message) => {
                    &&& call_ensures(shown, (tip.total_work,), true)
                    &&& final(joining)@ == (ProgressView::Weighed { tip, since: now })
                    &&& message@ == (MessageView::GetJoin { what: Joining::Ledger, part: 0 })
                },
                _ => false,
            },
            _ => outcome is Stale && *final(joining) == *old(joining),
        },
{
    match joining {
        Progress::Weighing(_) => {},
        _ => {
            return Shown::Stale;
        },
    }
    let tip: Tip = match weighed {
        Some(tip) => tip,
        None => {
            *joining = Progress::Idle;
            return Shown::Failed;
        },
    };
    if !shown(tip.total_work) {
        *joining = Progress::Idle;
        return Shown::HeldBack;
    }
    *joining = Progress::Weighed { tip, since: now };
    Shown::Forward(Message::GetJoin { what: Joining::Ledger, part: 0 })
}

/// A handover, by what decides whether it is taken.
#[derive(Clone, Copy, Debug, PartialEq, Eq, Structural)]
pub struct Handed {
    /// The tip it names.
    pub tip: Located,
    /// The height of the ledger it carries.
    pub anchor: u64,
}

/// What checking a ledger, or adopting one, came to.
#[derive(Clone, Copy, Debug, PartialEq, Eq, Structural)]
pub enum Checked {
    Sound,
    Refused,
    /// This build has no rules for the chain the ledger belongs to.
    TooOld(Outdated),
}

/// What came of a ledger arriving.
#[derive(Clone, Copy, Debug, PartialEq, Eq, Structural)]
pub enum Landed {
    /// It checked out and was adopted: what it was taken on, and how far this
    /// node has to get on its own before it stands behind it.
    Took { anchor: u64, settles_at: u64 },
    /// It did not check out, which is the sender's doing and costs the sender
    /// the exchange.
    Refused,
    /// This build has no rules for it, which is a judgement about the reader
    /// and not about the sender.
    TooOld(Outdated),
}

/// What the verdicts on a ledger come to: the first that is not sound.
pub open spec fn landed(checked: Checked, adopted: Checked, handed: Handed, burial: u64, outcome: Landed) -> bool {
    match (checked, adopted) {
        (Checked::TooOld(outdated), _) => outcome == Landed::TooOld(outdated),
        (Checked::Refused, _) => outcome == Landed::Refused,
        (Checked::Sound, Checked::TooOld(outdated)) => outcome == Landed::TooOld(outdated),
        (Checked::Sound, Checked::Refused) => outcome == Landed::Refused,
        (Checked::Sound, Checked::Sound) => outcome matches Landed::Took { anchor, settles_at }
            && anchor == handed.anchor && settles_at == (if handed.anchor + burial <= handed.tip.height {
            (handed.anchor + burial) as int
        } else {
            handed.tip.height as int
        }),
    }
}

/// Checks a ledger and adopts it, for a node that weighed a chain with the tip
/// `tip`. `handed` is `None` for an answer that could not be read at all.
///
/// A ledger naming another tip is refused: a peer that weighed one chain and
/// handed over another would otherwise have its second answer taken on the
/// strength of the first. Nothing of it is checked, and nothing is adopted that
/// was not found sound. Adopting is asked apart from checking, because the two
/// refuse for different reasons.
pub fn take_the_ledger<A: FnOnce() -> Checked, B: FnOnce() -> Checked>(
    handed: Option<Handed>,
    tip: Hash32,
    burial: u64,
    accept: A,
    adopt: B,
) -> (outcome: Landed)
    requires
        (handed matches Some(handed) && handed.tip.id == tip) ==> call_requires(accept, ()),
        (handed matches Some(handed) && handed.tip.id == tip) && call_ensures(
            accept,
            (),
            Checked::Sound,
        ) ==> call_requires(adopt, ()),
    ensures
        match handed {
            Some(handed) => if handed.tip.id != tip {
                outcome == Landed::Refused
            } else {
                exists|checked: Checked| #[trigger]
                    call_ensures(accept, (), checked) && if checked == Checked::Sound {
                        exists|adopted: Checked| #[trigger]
                            call_ensures(adopt, (), adopted) && landed(
                                checked,
                                adopted,
                                handed,
                                burial,
                                outcome,
                            )
                    } else {
                        landed(checked, checked, handed, burial, outcome)
                    }
            },
            None => outcome == Landed::Refused,
        },
{
    let handed: Handed = match handed {
        Some(handed) => handed,
        None => {
            return Landed::Refused;
        },
    };
    if handed.tip.id != tip {
        return Landed::Refused;
    }
    match accept() {
        Checked::Sound => {},
        Checked::Refused => {
            return Landed::Refused;
        },
        Checked::TooOld(outdated) => {
            return Landed::TooOld(outdated);
        },
    }
    match adopt() {
        Checked::Sound => {},
        Checked::Refused => {
            return Landed::Refused;
        },
        Checked::TooOld(outdated) => {
            return Landed::TooOld(outdated);
        },
    }
    Landed::Took {
        anchor: handed.anchor,
        settles_at: settles_at(handed.anchor, handed.tip.height, burial),
    }
}

/// What a whole ledger led to.
#[derive(Clone, Copy, Debug, PartialEq, Eq, Structural)]
pub enum Landing {
    /// There was no weighed chain for it to belong to.
    Nothing,
    /// A heavier claim arrived while it was crossing.
    HeldBack,
    /// It did not check out. The sender's claim stops counting.
    Failed,
    /// This build has no rules for it. The claim stops counting, since this
    /// node cannot be handed that chain whoever offers it, and nobody is held
    /// to have done anything wrong.
    TooOld(Outdated),
    /// It is adopted, and the blocks between it and the tip are asked for.
    Took { anchor: u64, settles_at: u64 },
}

/// Takes a whole ledger, for a join whose weighing settled on `weighed`.
///
/// `allows` is the last look before the one commitment this node gets to make:
/// whether nobody claims more than the work given. `take` checks the ledger
/// against the tip given, and adopts it.
pub fn land_the_ledger<A: FnOnce(u128) -> bool, T: FnOnce(&Tip) -> Landed>(
    joining: &mut Progress,
    weighed: Option<Tip>,
    allows: A,
    take: T,
) -> (landing: Landing)
    requires
        weighed matches Some(tip) ==> call_requires(allows, (tip.total_work,)),
        weighed matches Some(tip) ==> call_ensures(allows, (tip.total_work,), true) ==> call_requires(
            take,
            (&tip,),
        ),
    ensures
        match weighed {
            None => landing == Landing::Nothing && *final(joining) == *old(joining),
            Some(tip) => match landing {
                Landing::Nothing => false,
                Landing::HeldBack => call_ensures(allows, (tip.total_work,), false) && final(joining)@
                    is Idle,
                Landing::Failed => call_ensures(allows, (tip.total_work,), true) && call_ensures(
                    take,
                    (&tip,),
                    Landed::Refused,
                ) && final(joining)@ is Idle,
                Landing::TooOld(outdated) => call_ensures(allows, (tip.total_work,), true)
                    && call_ensures(take, (&tip,), Landed::TooOld(outdated)) && final(joining)@ is Idle,
                Landing::Took { anchor, settles_at } => call_ensures(allows, (tip.total_work,), true)
                    && call_ensures(take, (&tip,), (Landed::Took { anchor, settles_at })) && final(joining)@ is Landed,
            },
        },
{
    let tip: Tip = match weighed {
        Some(tip) => tip,
        None => {
            return Landing::Nothing;
        },
    };
    if !allows(tip.total_work) {
        *joining = Progress::Idle;
        return Landing::HeldBack;
    }
    match take(&tip) {
        Landed::Refused => {
            *joining = Progress::Idle;
            Landing::Failed
        },
        Landed::TooOld(outdated) => {
            *joining = Progress::Idle;
            Landing::TooOld(outdated)
        },
        Landed::Took { anchor, settles_at } => {
            *joining = Progress::Landed;
            Landing::Took { anchor, settles_at }
        },
    }
}

/// Whether a join that last moved at `moved` has been quiet long enough to be
/// given up on.
///
/// `None` means there is no join to give up on. A clock that went backwards
/// counts as quiet: what this node believes about how long it has been waiting
/// is then worth nothing.
pub fn has_gone_quiet(moved: Option<u64>, now: u64) -> (quiet: bool)
    ensures
        quiet == match moved {
            None => false,
            Some(moved) => now < moved || now - moved >= JOIN_PATIENCE,
        },
{
    match moved {
        None => false,
        Some(moved) => now < moved || now.saturating_sub(moved) >= JOIN_PATIENCE,
    }
}

/// How a join is going, for whoever is choosing whom to follow.
#[derive(Clone, Copy, Debug, PartialEq, Eq, Structural)]
pub enum JoinProgress {
    NothingYet,
    Moving,
    Stalled,
}

/// How a join is going at `now`.
pub fn how_it_goes(joining: &Progress, now: u64) -> (going: JoinProgress)
    ensures
        going == match joining@.moved() {
            None => JoinProgress::NothingYet,
            Some(moved) => if now < moved || now - moved >= JOIN_PATIENCE {
                JoinProgress::Stalled
            } else {
                JoinProgress::Moving
            },
        },
{
    let moved = joining.moved();
    if moved.is_none() {
        JoinProgress::NothingYet
    } else if has_gone_quiet(moved, now) {
        JoinProgress::Stalled
    } else {
        JoinProgress::Moving
    }
}

/// How a peer is approached for its chain.
#[derive(Clone, Copy, Debug, PartialEq, Eq, Structural)]
pub enum Approach {
    /// By being handed its ledger.
    Join,
    /// By reading it from the first block.
    Read,
}

/// What the choice of whom to follow calls for.
#[derive(Debug)]
pub enum Step {
    Quiet,
    Ask(PeerId, Approach),
    /// The choice is made, and these still claim more than the chain taken.
    Nudge(Vec<PeerId>),
}

/// What a round of the choice sends.
#[derive(Debug)]
pub enum Sending {
    Nothing,
    /// The ordinary question, where the chain carries on from this node's own,
    /// to each of these.
    Chain(Vec<PeerId>),
    /// The first question of a join.
    Join(PeerId, Message),
}

/// One round of the choice a node with no chain makes about whom to follow.
///
/// An archivist reads the chain rather than being handed it: a ledger carries
/// the cold set as roots, so an archivist that took one would hold none of its
/// leaves. Whoever still claims more than the chain this node took was held
/// off while it chose, and gets the ordinary question once it has.
pub fn drive_choosing(joining: &mut Progress, step: Step, archiving: bool) -> (sending: Sending)
    ensures
        match step {
            Step::Quiet => sending is Nothing && *final(joining) == *old(joining),
            Step::Ask(peer, approach) => if approach == Approach::Join && !archiving {
                &&& final(joining)@ is Idle
                &&& sending matches Sending::Join(asked, message) && asked == peer && message@ == (
                MessageView::GetJoin { what: Joining::Weight, part: 0 })
            } else {
                &&& *final(joining) == *old(joining)
                &&& sending matches Sending::Chain(peers) && peers@ == seq![peer]
            },
            Step::Nudge(peers) => sending == Sending::Chain(peers) && *final(joining) == *old(joining),
        },
{
    match step {
        Step::Quiet => Sending::Nothing,
        Step::Ask(peer, Approach::Join) => {
            if archiving {
                return Sending::Chain(vec![peer]);
            }
            // A fresh attempt starts from nothing: pieces of an old one would
            // not fit it.
            *joining = Progress::Idle;
            Sending::Join(peer, Message::GetJoin { what: Joining::Weight, part: 0 })
        },
        Step::Ask(peer, Approach::Read) => Sending::Chain(vec![peer]),
        Step::Nudge(peers) => Sending::Chain(peers),
    }
}

/// Whether the window of allowance at `now` is another than the one at `then`.
pub fn a_window_has_turned(then: u64, now: u64) -> (turned: bool)
    ensures
        turned == (then / WINDOW_SECONDS != now / WINDOW_SECONDS),
{
    then / WINDOW_SECONDS != now / WINDOW_SECONDS
}

/// Whether a join asked for at `asked_at` is asked for again at `now`.
pub open spec fn asks_again(joining: ProgressView, asked_at: u64, last: u64, now: u64) -> bool {
    let since = match joining.moved() {
        Some(moved) => moved,
        None => asked_at,
    };
    last / WINDOW_SECONDS != now / WINDOW_SECONDS && since / WINDOW_SECONDS != now / WINDOW_SECONDS
}

/// Asks again for the piece a join is waiting on, once the window it was asked
/// for in has turned.
///
/// A question that goes unanswered is most often one the peer had no allowance
/// left for, and the turn of its window is the moment the answer can change.
/// `asking` is whom a join is being asked of and since when. Nothing is asked
/// twice inside one window, and an archivist, which reads rather than joins,
/// never asks.
pub fn ask_again_for_the_join(
    joining: &Progress,
    archiving: bool,
    asking: Option<(PeerId, u64)>,
    asked_again_at: &mut u64,
    now: u64,
) -> (sent: Option<(PeerId, Message)>)
    ensures
        match (asking, sent) {
            (Some((peer, asked_at)), Some((to, message))) => {
                &&& !archiving
                &&& asks_again(joining@, asked_at, *old(asked_again_at), now)
                &&& to == peer
                &&& message@ matches MessageView::GetJoin { what, part } && joining@.waits_on(
                    Some((what, part)),
                )
            },
            (Some((peer, asked_at)), None) => archiving || !asks_again(
                joining@,
                asked_at,
                *old(asked_again_at),
                now,
            ) || joining@.waits_on(None),
            (None, sent) => sent is None,
        },
        *final(asked_again_at) == if sent is Some {
            now
        } else {
            *old(asked_again_at)
        },
{
    if archiving {
        return None;
    }
    match asking {
        Some((peer, asked_at)) => {
            if !a_window_has_turned(*asked_again_at, now) {
                return None;
            }
            let since: u64 = match joining.moved() {
                Some(moved) => moved,
                None => asked_at,
            };
            if !a_window_has_turned(since, now) {
                return None;
            }
            match still_wanted(joining) {
                Some((what, part)) => {
                    *asked_again_at = now;
                    Some((peer, Message::GetJoin { what, part }))
                },
                None => None,
            }
        },
        None => None,
    }
}

/// A join answer, built once and handed out in pieces.
#[derive(Debug)]
pub struct Prepared {
    pub what: Joining,
    /// The tip it was built against.
    pub at: Hash32,
    pub bytes: Vec<u8>,
}

/// How many pieces an answer of `len` bytes is handed out in. One that is
/// empty still has a piece.
pub open spec fn pieces_in(len: nat, part_bytes: usize) -> nat {
    if len == 0 {
        1
    } else {
        ((len + part_bytes - 1) / part_bytes as int) as nat
    }
}

fn how_many_pieces(len: usize, part_bytes: usize) -> (parts: usize)
    requires
        part_bytes > 0,
    ensures
        parts == pieces_in(len as nat, part_bytes),
        len > 0 ==> parts == (len - 1) / part_bytes as int + 1,
{
    let parts: usize = if len == 0 {
        1
    } else {
        (len - 1) / part_bytes + 1
    };
    proof {
        if len > 0 {
            vstd::arithmetic::div_mod::lemma_div_plus_one(len - 1, part_bytes as int);
            assert((len - 1) / part_bytes as int + 1 == (len - 1 + part_bytes) / part_bytes as int);
        }
    }
    parts
}

/// The bytes of one piece.
pub open spec fn piece(bytes: Seq<u8>, part_bytes: usize, part: int) -> Seq<u8> {
    let start = part * part_bytes;
    let end = if start + part_bytes < bytes.len() {
        start + part_bytes
    } else {
        bytes.len() as int
    };
    bytes.subrange(start, end)
}

/// Whether an answer has a piece with this number.
pub open spec fn has_piece(len: nat, part_bytes: usize, part: u32) -> bool {
    part < pieces_in(len, part_bytes)
}

/// The message that carries one piece.
pub open spec fn piece_message(ready: &Prepared, part_bytes: usize, part: u32) -> MessageView {
    let parts = pieces_in(ready.bytes@.len(), part_bytes);
    MessageView::JoinPart {
        what: ready.what,
        at: ready.at,
        part,
        parts: if parts > u32::MAX {
            u32::MAX
        } else {
            parts as u32
        },
        bytes: piece(ready.bytes@, part_bytes, part as int),
    }
}

/// One piece of an answer already built, `part_bytes` to a piece, or `None`
/// for a piece past its end.
pub fn piece_of(ready: &Prepared, part: u32, part_bytes: usize) -> (piece: Option<Message>)
    requires
        part_bytes > 0,
    ensures
        piece is Some <==> has_piece(ready.bytes@.len(), part_bytes, part),
        piece matches Some(message) ==> message@ == piece_message(ready, part_bytes, part),
{
    let len: usize = ready.bytes.len();
    let parts: usize = how_many_pieces(len, part_bytes);
    if part as usize >= parts {
        return None;
    }
    proof {
        if len > 0 {
            vstd::arithmetic::div_mod::lemma_remainder_lower(len - 1, part_bytes as int);
            vstd::arithmetic::mul::lemma_mul_inequality(
                part as int,
                (len - 1) / part_bytes as int,
                part_bytes as int,
            );
        } else {
            assert(part * part_bytes == 0) by (nonlinear_arith)
                requires
                    part == 0,
            ;
        }
        assert(part * part_bytes <= len);
    }
    let start: usize = part as usize * part_bytes;
    let end: usize = if len - start < part_bytes {
        len
    } else {
        start + part_bytes
    };
    let bytes: Vec<u8> = copied(&ready.bytes, start, end);
    let parts: u32 = if parts > u32::MAX as usize {
        u32::MAX
    } else {
        parts as u32
    };
    Some(Message::JoinPart { what: ready.what, at: ready.at, part, parts, bytes })
}

fn copied(bytes: &Vec<u8>, start: usize, end: usize) -> (copy: Vec<u8>)
    requires
        start <= end <= bytes@.len(),
    ensures
        copy@ == bytes@.subrange(start as int, end as int),
{
    let mut copy: Vec<u8> = Vec::new();
    let mut at: usize = start;
    while at < end
        invariant
            start <= at <= end <= bytes@.len(),
            copy@ == bytes@.subrange(start as int, at as int),
        decreases end - at,
    {
        copy.push(bytes[at]);
        at = at + 1;
        assert(copy@ =~= bytes@.subrange(start as int, at as int));
    }
    copy
}

/// What the join answer this node holds says about one question.
///
/// Three answers and not two, because the two ways of having no piece to send
/// call for opposite things. An answer about another tip is worth rebuilding.
/// A current answer that has no such part is not.
#[derive(Debug)]
pub enum Held {
    /// The piece asked for.
    Piece(Message),
    /// The answer is current, and has no piece with that number.
    NoSuchPart,
    /// Nothing held that this question is about.
    Nothing,
}

/// The join answers this node has built: one of each kind.
#[derive(Debug)]
pub struct Answers {
    pub weight: Option<Prepared>,
    pub ledger: Option<Prepared>,
}

impl Answers {
    /// The answer of one kind.
    pub open spec fn slot(&self, what: Joining) -> Option<Prepared> {
        match what {
            Joining::Weight => self.weight,
            Joining::Ledger => self.ledger,
        }
    }

    /// Whether the answer held is the one this question is about, for a chain
    /// with the tip `tip`.
    pub open spec fn is_current(&self, what: Joining, tip: Option<Hash32>) -> bool {
        self.slot(what) matches Some(ready) && tip == Some(ready.at)
    }

    /// No answer built yet.
    pub fn new() -> (answers: Answers)
        ensures
            answers.weight is None,
            answers.ledger is None,
    {
        Answers { weight: None, ledger: None }
    }

    /// What the answer already held says about the question being asked.
    pub fn held_join(&self, what: Joining, part: u32, tip: Option<Hash32>, part_bytes: usize) -> (held: Held)
        requires
            part_bytes > 0,
        ensures
            match held {
                Held::Nothing => !self.is_current(what, tip),
                Held::NoSuchPart => self.is_current(what, tip) && !has_piece(
                    self.slot(what)->0.bytes@.len(),
                    part_bytes,
                    part,
                ),
                Held::Piece(message) => self.is_current(what, tip) && has_piece(
                    self.slot(what)->0.bytes@.len(),
                    part_bytes,
                    part,
                ) && message@ == piece_message(&self.slot(what)->0, part_bytes, part),
            },
    {
        let tip: Hash32 = match tip {
            Some(tip) => tip,
            None => {
                return Held::Nothing;
            },
        };
        let slot: &Option<Prepared> = match what {
            Joining::Weight => &self.weight,
            Joining::Ledger => &self.ledger,
        };
        match slot {
            Some(ready) => {
                if ready.at != tip {
                    return Held::Nothing;
                }
                match piece_of(ready, part, part_bytes) {
                    Some(piece) => Held::Piece(piece),
                    None => Held::NoSuchPart,
                }
            },
            None => Held::Nothing,
        }
    }

    /// Puts a freshly built answer in its slot, and takes one piece of it.
    ///
    /// `still_there` says whether the chain still agrees with the tip the
    /// answer was built against. `None`, with nothing kept, when it does not:
    /// keeping it would put an answer about a chain this node is no longer on
    /// where the answer about the chain it is on belongs.
    pub fn keep_join(&mut self, prepared: Prepared, still_there: bool, part: u32, part_bytes: usize) -> (piece:
        Option<Message>)
        requires
            part_bytes > 0,
        ensures
            !still_there ==> piece is None && *final(self) == *old(self),
            still_there ==> {
                &&& final(self).slot(prepared.what) == Some(prepared)
                &&& forall|other: Joining|
                    other != prepared.what ==> #[trigger] final(self).slot(other) == old(self).slot(
                        other,
                    )
                &&& piece is Some <==> has_piece(prepared.bytes@.len(), part_bytes, part)
                &&& piece matches Some(message) ==> message@ == piece_message(
                    &prepared,
                    part_bytes,
                    part,
                )
            },
    {
        if !still_there {
            return None;
        }
        let piece = piece_of(&prepared, part, part_bytes);
        match prepared.what {
            Joining::Weight => {
                self.weight = Some(prepared);
            },
            Joining::Ledger => {
                self.ledger = Some(prepared);
            },
        }
        piece
    }
}

impl Default for Answers {
    fn default() -> (answers: Answers)
        ensures
            answers.weight is None,
            answers.ledger is None,
    {
        Answers::new()
    }
}

/// What answering one question about joining takes.
#[derive(Debug)]
pub enum Serving {
    /// The answer this node holds has the piece.
    Send(Message),
    /// The answer this node holds is the current one and has no such piece.
    /// That is a fact about the question, and building the answer again would
    /// come to the same silence at the price of the whole build.
    Silence,
    /// There is no current answer, and one has to be built.
    Build,
}

/// One piece of what a newcomer asked for, building the whole only if the last
/// one built is not it.
pub fn serve_join(answers: &Answers, what: Joining, part: u32, tip: Option<Hash32>, part_bytes: usize) -> (serving:
    Serving)
    requires
        part_bytes > 0,
    ensures
        serving is Build <==> !answers.is_current(what, tip),
        serving is Silence <==> answers.is_current(what, tip) && !has_piece(
            answers.slot(what)->0.bytes@.len(),
            part_bytes,
            part,
        ),
        serving matches Serving::Send(message) ==> message@ == piece_message(
            &answers.slot(what)->0,
            part_bytes,
            part,
        ),
{
    match answers.held_join(what, part, tip, part_bytes) {
        Held::Piece(piece) => Serving::Send(piece),
        Held::NoSuchPart => Serving::Silence,
        Held::Nothing => Serving::Build,
    }
}

/// What building a join answer takes.
#[derive(Clone, Copy, Debug, PartialEq, Eq, Structural)]
pub enum Building {
    /// The work behind the tip.
    Weight,
    /// The ledger at `anchor`, a burial below the tip.
    Ledger { anchor: u64 },
}

/// What building an answer of this kind takes, for a chain whose tip was `at`
/// when the ground was taken. `tip` is what the disk says that header is.
///
/// `None` when the log has not caught up with the chain, or the chain is not
/// deep enough to have buried a ledger. That is a node that cannot answer yet
/// rather than one with a wrong answer.
pub fn build_join(what: Joining, at: Located, tip: Option<Hash32>, burial: u64) -> (building: Option<
    Building,
>)
    ensures
        building == if tip != Some(at.id) {
            None
        } else {
            match what {
                Joining::Weight => Some(Building::Weight),
                Joining::Ledger => if burial <= at.height {
                    Some(Building::Ledger { anchor: (at.height - burial) as u64 })
                } else {
                    None
                },
            }
        },
{
    match tip {
        Some(id) => if id != at.id {
            return None;
        },
        None => {
            return None;
        },
    }
    match what {
        Joining::Weight => Some(Building::Weight),
        Joining::Ledger => match at.height.checked_sub(burial) {
            Some(anchor) => Some(Building::Ledger { anchor }),
            None => None,
        },
    }
}

/// Whether `run` is every header from `from` to just before `to`.
pub open spec fn is_run<T, H: Fn(u64) -> Option<T>>(header_at: H, from: u64, to: int, run: Seq<T>) -> bool {
    &&& run.len() == to - from
    &&& forall|i: int|
        0 <= i < run.len() ==> call_ensures(header_at, ((from + i) as u64,), Some(#[trigger] run[i]))
}

/// Whether a header is missing between `from` and just before `to`.
pub open spec fn is_missing_one<T, H: Fn(u64) -> Option<T>>(header_at: H, from: u64, to: int) -> bool {
    exists|height: u64|
        from <= height < to && #[trigger] call_ensures(header_at, (height,), None::<T>)
}

fn run_of_headers<T, H: Fn(u64) -> Option<T>>(header_at: &H, from: u64, through: u64) -> (run: Option<
    Vec<T>,
>)
    requires
        forall|height: u64|
            from <= height <= through ==> #[trigger] call_requires(*header_at, (height,)),
        from <= through,
    ensures
        match run {
            Some(run) => is_run(*header_at, from, through + 1, run@),
            None => is_missing_one::<T, H>(*header_at, from, through + 1),
        },
{
    let mut run: Vec<T> = Vec::new();
    let mut height: u64 = from;
    loop
        invariant_except_break
            is_run(*header_at, from, height as int, run@),
        invariant
            forall|height: u64|
                from <= height <= through ==> #[trigger] call_requires(*header_at, (height,)),
            from <= height <= through,
        ensures
            is_run(*header_at, from, through + 1, run@),
        decreases through - height,
    {
        match header_at(height) {
            Some(header) => {
                run.push(header);
            },
            None => {
                assert(call_ensures(*header_at, (height,), None::<T>));
                return None;
            },
        }
        if height == through {
            break;
        }
        height = height + 1;
    }
    Some(run)
}

/// Where the recent headers that travel with a ledger at `at` begin.
pub open spec fn recent_from(at: u64, recent: u64) -> u64 {
    at.saturating_sub(recent.saturating_sub(1))
}

/// The two runs of headers a newcomer needs to stand behind the ledger at
/// `at`, under the tip at `tip`, with `recent` the number of recent headers
/// that travel.
///
/// The recent ones end at the ledger rather than at the tip: they are what the
/// difficulty and timestamp rules read, and the first block this newcomer will
/// check is the one after. The buried ones are every header between the ledger
/// and the tip, and they are what says the ledger belongs to that chain.
///
/// `None` where a header is not to be had, or there is nothing the ledger is
/// buried under.
pub fn build_ledger<T, H: Fn(u64) -> Option<T>>(at: u64, tip: u64, recent: u64, header_at: H) -> (runs: Option<
    (Vec<T>, Vec<T>),
>)
    requires
        forall|height: u64|
            recent_from(at, recent) <= height && (height <= at || height <= tip) ==> #[trigger]
                call_requires(header_at, (height,)),
    ensures
        match runs {
            Some((headers, buried)) => at <= tip && at < u64::MAX && is_run(
                header_at,
                recent_from(at, recent),
                at + 1,
                headers@,
            ) && is_run(header_at, (at + 1) as u64, tip + 1, buried@),
            None => at > tip || at == u64::MAX || is_missing_one::<T, H>(
                header_at,
                recent_from(at, recent),
                at + 1,
            ) || is_missing_one::<T, H>(header_at, (at + 1) as u64, tip + 1),
        },
{
    let from: u64 = at.saturating_sub(recent.saturating_sub(1));
    let headers: Vec<T> = match run_of_headers(&header_at, from, at) {
        Some(headers) => headers,
        None => {
            return None;
        },
    };
    if at > tip || at == u64::MAX {
        return None;
    }
    if at == tip {
        let buried: Vec<T> = Vec::new();
        assert(is_run(header_at, (at + 1) as u64, tip + 1, buried@));
        return Some((headers, buried));
    }
    match run_of_headers(&header_at, at + 1, tip) {
        Some(buried) => Some((headers, buried)),
        None => None,
    }
}

/// The pieces of an answer, put one after another, are the answer.
proof fn the_pieces_add_up(bytes: Seq<u8>, part_bytes: usize, pieces: Map<u32, Seq<u8>>, parts: nat)
    requires
        part_bytes > 0,
        parts <= pieces_in(bytes.len(), part_bytes),
        parts <= u32::MAX,
        forall|part: u32|
            part < parts ==> #[trigger] pieces[part] == piece(bytes, part_bytes, part as int),
    ensures
        put_together(pieces, parts) == bytes.take(
            if parts * part_bytes < bytes.len() {
                (parts * part_bytes) as int
            } else {
                bytes.len() as int
            },
        ),
    decreases parts,
{
    if parts == 0 {
        assert(bytes.take(0) =~= Seq::<u8>::empty());
        assert(0 * part_bytes == 0) by (nonlinear_arith);
        if bytes.len() == 0 {
            assert(bytes.take(0) =~= bytes.take(bytes.len() as int));
        }
    } else {
        let last = (parts - 1) as nat;
        the_pieces_add_up(bytes, part_bytes, pieces, last);
        let start = last * part_bytes;
        assert(parts * part_bytes == start + part_bytes) by (nonlinear_arith)
            requires
                parts == last + 1,
                start == last * part_bytes,
        ;
        assert(start <= bytes.len()) by {
            if bytes.len() == 0 {
                assert(last == 0);
                assert(0 * part_bytes == 0) by (nonlinear_arith);
            } else {
                let len = bytes.len() as int;
                let n = part_bytes as int;
                let all = (len + n - 1) / n;
                assert(last <= all - 1);
                vstd::arithmetic::div_mod::lemma_fundamental_div_mod(len + n - 1, n);
                assert(n * all <= len + n - 1);
                assert(last * n <= (all - 1) * n) by (nonlinear_arith)
                    requires
                        last <= all - 1,
                        n > 0,
                ;
                assert((all - 1) * n == n * all - n) by (nonlinear_arith);
            }
        }
        assert(pieces[last as u32] == piece(bytes, part_bytes, last as int));
        let end = if start + part_bytes < bytes.len() {
            start + part_bytes
        } else {
            bytes.len() as int
        };
        assert(bytes.take(start as int) + bytes.subrange(start as int, end) =~= bytes.take(end));
        if start < bytes.len() {
        } else {
            assert(bytes.take(start as int) =~= bytes.take(bytes.len() as int));
        }
    }
}

/// What one node hands out in pieces, another collects back whole.
///
/// A collection of all the pieces of an answer, in whatever order they
/// arrived, puts together the very bytes the answer was built of.
pub proof fn an_answer_in_pieces_comes_back_whole(
    ready: &Prepared,
    part_bytes: usize,
    collecting: CollectingView,
)
    requires
        part_bytes > 0,
        collecting.parts == pieces_in(ready.bytes@.len(), part_bytes),
        collecting.is_whole(),
        forall|part: u32|
            part < collecting.parts ==> #[trigger] collecting.pieces[part] == piece(
                ready.bytes@,
                part_bytes,
                part as int,
            ),
    ensures
        collecting.answer() == ready.bytes@,
{
    let bytes = ready.bytes@;
    let parts = collecting.parts as nat;
    the_pieces_add_up(bytes, part_bytes, collecting.pieces, parts);
    assert(parts * part_bytes >= bytes.len()) by {
        if bytes.len() == 0 {
            assert(parts * part_bytes >= 0) by (nonlinear_arith);
        } else {
            let len = bytes.len() as int;
            let n = part_bytes as int;
            let all = (len + n - 1) / n;
            vstd::arithmetic::div_mod::lemma_fundamental_div_mod(len + n - 1, n);
            assert(n * all > len - 1);
            assert(parts * part_bytes == n * all) by (nonlinear_arith)
                requires
                    parts == all,
                    part_bytes == n,
            ;
        }
    }
    assert(bytes.take(bytes.len() as int) =~= bytes);
}

proof fn bytes_are_within_the_ceiling(collecting: CollectingView, parts: nat)
    requires
        collecting.is_bounded(),
        parts <= collecting.parts,
    ensures
        bytes_among(collecting.pieces, parts) <= parts * collecting.most.part_bytes,
    decreases parts,
{
    if parts > 0 {
        let fewer = (parts - 1) as nat;
        bytes_are_within_the_ceiling(collecting, fewer);
        assert(parts * collecting.most.part_bytes == fewer * collecting.most.part_bytes
            + collecting.most.part_bytes) by (nonlinear_arith)
            requires
                parts == fewer + 1,
        ;
    }
}

/// However many pieces a peer says an answer comes in and whatever it sends,
/// what is collected of it stays within the ceiling: one piece more leaves it
/// there, and it holds no more bytes than the pieces allowed, each at its
/// fullest.
pub proof fn a_collection_stays_within_its_ceiling(
    collecting: CollectingView,
    what: Joining,
    at: Hash32,
    part: u32,
    bytes: Seq<u8>,
    now: u64,
)
    requires
        collecting.is_bounded(),
    ensures
        collecting.bytes_held() <= collecting.most.parts * collecting.most.part_bytes,
        collecting.fits(what, at, part, bytes) ==> collecting.with(part, bytes, now).is_bounded(),
{
    bytes_are_within_the_ceiling(collecting, collecting.parts as nat);
    vstd::arithmetic::mul::lemma_mul_inequality(
        collecting.parts as int,
        collecting.most.parts as int,
        collecting.most.part_bytes as int,
    );
}

/// A join waits on nothing only once it has everything it is collecting, so
/// one short of a piece always has a piece to ask for.
pub proof fn a_join_short_of_a_piece_asks_for_one(collecting: CollectingView, tip: Tip)
    requires
        !collecting.is_whole(),
    ensures
        !ProgressView::Weighing(collecting).waits_on(None),
        !(ProgressView::Fetching { tip, collecting }).waits_on(None),
{
}

/// A join asked again inside a window is not asked again until another.
pub proof fn nothing_is_asked_twice_in_one_window(joining: ProgressView, asked_at: u64, last: u64, now: u64)
    requires
        last / WINDOW_SECONDS == now / WINDOW_SECONDS,
    ensures
        !asks_again(joining, asked_at, last, now),
{
}

/// Whether a collection of `parts` pieces has `part` to come and everything
/// before it.
pub open spec fn lacks_first(pieces: Map<u32, Seq<u8>>, parts: u32, part: u32) -> bool {
    &&& part < parts
    &&& !pieces.contains_key(part)
    &&& forall|earlier: u32| earlier < part ==> #[trigger] pieces.contains_key(earlier)
}

/// Whether a collection of `parts` pieces has them all.
pub open spec fn lacks_none(pieces: Map<u32, Seq<u8>>, parts: u32) -> bool {
    forall|part: u32| part < parts ==> #[trigger] pieces.contains_key(part)
}

proof fn lacking_is_one_or_the_other(collecting: CollectingView)
    ensures
        collecting.is_whole() <==> lacks_none(collecting.pieces, collecting.parts),
        forall|part: u32|
            #![trigger collecting.is_first_missing(part as int)]
            collecting.is_first_missing(part as int) <==> lacks_first(
                collecting.pieces,
                collecting.parts,
                part,
            ),
{
    if lacks_none(collecting.pieces, collecting.parts) {
        assert forall|part: int| 0 <= part < collecting.parts implies #[trigger] collecting.has(
            part,
        ) by {
            assert(collecting.pieces.contains_key(part as u32));
        }
    }
    if collecting.is_whole() {
        assert forall|part: u32| part < collecting.parts implies #[trigger] collecting.pieces.contains_key(
            part,
        ) by {
            assert(collecting.has(part as int));
        }
    }
    assert forall|part: u32|
        #![trigger collecting.is_first_missing(part as int)]
        collecting.is_first_missing(part as int) <==> lacks_first(
            collecting.pieces,
            collecting.parts,
            part,
        ) by {
        if collecting.is_first_missing(part as int) {
            assert(!collecting.has(part as int));
            assert forall|earlier: u32| earlier < part implies #[trigger] collecting.pieces.contains_key(
                earlier,
            ) by {
                assert(collecting.has(earlier as int));
            }
        }
        if lacks_first(collecting.pieces, collecting.parts, part) {
            assert forall|earlier: int| 0 <= earlier < part implies #[trigger] collecting.has(
                earlier,
            ) by {
                assert(collecting.pieces.contains_key(earlier as u32));
            }
        }
    }
}

/// A join still short of a piece is asked for again, of the peer being asked,
/// once a ten second window has turned since it last moved and since it was
/// last asked again: for the first piece it lacks where it has begun, and for
/// the first of all where it has not. A join that lacks nothing asks nothing.
pub proof fn a_join_that_stopped_moving_is_asked_for_again(
    joining: &Progress,
    peer: PeerId,
    asked_at: u64,
    asked_again_at: &mut u64,
    now: u64,
    sent: Option<(PeerId, Message)>,
)
    requires
        call_ensures(
            ask_again_for_the_join,
            (joining, false, Some((peer, asked_at)), asked_again_at, now),
            sent,
        ),
        *old(asked_again_at) / 10 != now / 10,
        match joining@ {
            ProgressView::Idle => asked_at / 10 != now / 10,
            ProgressView::Weighing(collecting) => collecting.moved / 10 != now / 10,
            ProgressView::Weighed { since, .. } => since / 10 != now / 10,
            ProgressView::Fetching { collecting, .. } => collecting.moved / 10 != now / 10,
            ProgressView::Landed => true,
        },
    ensures
        match joining@ {
            ProgressView::Idle => sent matches Some((to, message)) && to == peer && message@ == (
            MessageView::GetJoin { what: Joining::Weight, part: 0 }),
            ProgressView::Weighed { .. } => sent matches Some((to, message)) && to == peer
                && message@ == (MessageView::GetJoin { what: Joining::Ledger, part: 0 }),
            ProgressView::Weighing(collecting) => if lacks_none(collecting.pieces, collecting.parts) {
                sent is None
            } else {
                sent matches Some((to, message)) && to == peer && (
                message@ matches MessageView::GetJoin { what, part } && what == Joining::Weight
                    && lacks_first(collecting.pieces, collecting.parts, part))
            },
            ProgressView::Fetching { collecting, .. } => if lacks_none(
                collecting.pieces,
                collecting.parts,
            ) {
                sent is None
            } else {
                sent matches Some((to, message)) && to == peer && (
                message@ matches MessageView::GetJoin { what, part } && what == Joining::Ledger
                    && lacks_first(collecting.pieces, collecting.parts, part))
            },
            ProgressView::Landed => sent is None,
        },
        sent is Some ==> *final(asked_again_at) == now,
        sent is None ==> *final(asked_again_at) == *old(asked_again_at),
{
    match joining@ {
        ProgressView::Weighing(collecting) | ProgressView::Fetching { collecting, .. } => {
            lacking_is_one_or_the_other(collecting);
            match sent {
                Some((_, message)) => {
                    match message@ {
                        MessageView::GetJoin { part, .. } => {
                            assert(collecting.is_first_missing(part as int));
                        },
                        _ => {},
                    }
                },
                None => {},
            }
        },
        _ => {},
    }
}

/// Nothing is asked again by an archivist, of nobody, twice in one window, or
/// in the window a join last moved in.
pub proof fn nothing_is_asked_again_too_soon(
    joining: &Progress,
    archiving: bool,
    asking: Option<(PeerId, u64)>,
    asked_again_at: &mut u64,
    now: u64,
    sent: Option<(PeerId, Message)>,
)
    requires
        call_ensures(
            ask_again_for_the_join,
            (joining, archiving, asking, asked_again_at, now),
            sent,
        ),
        ({
            ||| archiving
            ||| asking is None
            ||| *old(asked_again_at) / 10 == now / 10
            ||| (joining@ matches ProgressView::Weighing(collecting) && collecting.moved / 10 == now
                / 10)
            ||| (joining@ matches ProgressView::Weighed { since, .. } && since / 10 == now / 10)
            ||| (joining@ matches ProgressView::Fetching { collecting, .. } && collecting.moved / 10
                == now / 10)
            ||| (joining@ is Idle && (asking matches Some((_, asked_at)) && asked_at / 10 == now / 10))
        }),
    ensures
        sent is None,
        *final(asked_again_at) == *old(asked_again_at),
{
}

/// What a join is waiting on is the first piece it lacks.
pub proof fn a_join_waits_on_the_first_piece_it_lacks(
    joining: &Progress,
    wanted: Option<(Joining, u32)>,
)
    requires
        call_ensures(still_wanted, (joining,), wanted),
    ensures
        match joining@ {
            ProgressView::Idle => wanted == Some((Joining::Weight, 0u32)),
            ProgressView::Weighed { .. } => wanted == Some((Joining::Ledger, 0u32)),
            ProgressView::Landed => wanted is None,
            ProgressView::Weighing(collecting) => match wanted {
                Some((what, part)) => what == Joining::Weight && lacks_first(
                    collecting.pieces,
                    collecting.parts,
                    part,
                ),
                None => lacks_none(collecting.pieces, collecting.parts),
            },
            ProgressView::Fetching { collecting, .. } => match wanted {
                Some((what, part)) => what == Joining::Ledger && lacks_first(
                    collecting.pieces,
                    collecting.parts,
                    part,
                ),
                None => lacks_none(collecting.pieces, collecting.parts),
            },
        },
{
    match joining@ {
        ProgressView::Weighing(collecting) | ProgressView::Fetching { collecting, .. } => {
            lacking_is_one_or_the_other(collecting);
            match wanted {
                Some((_, part)) => {
                    assert(collecting.is_first_missing(part as int));
                },
                None => {},
            }
        },
        _ => {},
    }
}

/// A collection begins with the piece that began it and nothing else, and only
/// for a piece that is one of those it is said to be of, within the ceiling.
pub proof fn a_collection_begins_with_its_first_piece(
    what: Joining,
    at: Hash32,
    part: u32,
    parts: u32,
    bytes: Vec<u8>,
    now: u64,
    most: Ceiling,
    started: Option<Collecting>,
)
    requires
        call_ensures(Collecting::started, (what, at, part, parts, bytes, now, most), started),
    ensures
        started is Some <==> part < parts && parts <= most.parts && bytes@.len() <= most.part_bytes,
        started matches Some(collecting) ==> {
            &&& collecting@.what == what && collecting@.at == at && collecting@.parts == parts
                && collecting@.moved == now && collecting@.most == most
            &&& forall|other: u32| #[trigger]
                collecting@.pieces.contains_key(other) <==> other == part
            &&& collecting@.pieces[part] == bytes@
        },
{
}

/// A collection grows by one piece at a time and only by pieces of its own
/// answer: one of another answer, kind or number, or too long, changes nothing.
pub proof fn a_collection_grows_by_its_own_pieces(
    collecting: &mut Collecting,
    what: Joining,
    at: Hash32,
    part: u32,
    bytes: Vec<u8>,
    now: u64,
    taken: bool,
)
    requires
        call_ensures(Collecting::take, (collecting, what, at, part, bytes, now), taken),
    ensures
        taken <==> what == old(collecting)@.what && at == old(collecting)@.at && part < old(
            collecting,
        )@.parts && bytes@.len() <= old(collecting)@.most.part_bytes,
        final(collecting)@.what == old(collecting)@.what,
        final(collecting)@.at == old(collecting)@.at,
        final(collecting)@.parts == old(collecting)@.parts,
        final(collecting)@.most == old(collecting)@.most,
        !taken ==> final(collecting)@.pieces == old(collecting)@.pieces && final(collecting)@.moved
            == old(collecting)@.moved,
        taken ==> {
            &&& final(collecting)@.moved == now
            &&& final(collecting)@.pieces.contains_key(part)
            &&& final(collecting)@.pieces[part] == bytes@
            &&& forall|other: u32|
                other != part ==> (#[trigger] final(collecting)@.pieces.contains_key(other) <==> old(
                    collecting,
                )@.pieces.contains_key(other)) && final(collecting)@.pieces[other] == old(
                    collecting,
                )@.pieces[other]
        },
{
}

/// Where in an answer the piece with a given number begins, by how long those
/// before it are.
pub open spec fn length_before(pieces: Map<u32, Seq<u8>>, part: nat) -> nat
    decreases part,
{
    if part == 0 {
        0
    } else {
        length_before(pieces, (part - 1) as nat) + pieces[(part - 1) as u32].len()
    }
}

proof fn each_piece_stands_where_those_before_it_end(
    pieces: Map<u32, Seq<u8>>,
    parts: nat,
    part: nat,
)
    requires
        part < parts <= u32::MAX,
    ensures
        put_together(pieces, parts).len() == length_before(pieces, parts),
        length_before(pieces, part) + pieces[part as u32].len() <= length_before(pieces, parts),
        put_together(pieces, parts).subrange(
            length_before(pieces, part) as int,
            (length_before(pieces, part) + pieces[part as u32].len()) as int,
        ) == pieces[part as u32],
    decreases parts,
{
    let fewer = (parts - 1) as nat;
    let start = length_before(pieces, part) as int;
    let end = start + pieces[part as u32].len();
    let whole = put_together(pieces, parts);
    if fewer > 0 {
        each_piece_stands_where_those_before_it_end(
            pieces,
            fewer,
            if part < fewer {
                part
            } else {
                0
            },
        );
    } else {
        assert(put_together(pieces, 0).len() == 0);
    }
    if part < fewer {
        assert(whole.subrange(start, end) =~= put_together(pieces, fewer).subrange(start, end));
    } else {
        assert(whole.subrange(start, end) =~= pieces[part as u32]);
    }
}

/// An answer is put together once every piece of it is here and not before, in
/// the order of the pieces: each stands where those before it end, and together
/// they are all there is.
pub proof fn an_answer_is_put_together_in_order(
    collecting: &Collecting,
    whole: Option<Vec<u8>>,
    part: u32,
)
    requires
        call_ensures(Collecting::whole, (collecting,), whole),
    ensures
        whole is Some <==> lacks_none(collecting@.pieces, collecting@.parts),
        whole matches Some(bytes) ==> {
            let pieces = collecting@.pieces;
            let start = length_before(pieces, part as nat) as int;
            &&& collecting@.parts > 0 ==> bytes@.len() == length_before(
                pieces,
                collecting@.parts as nat,
            )
            &&& part < collecting@.parts ==> start + pieces[part].len() <= bytes@.len()
                && bytes@.subrange(start, start + pieces[part].len()) == pieces[part]
        },
{
    lacking_is_one_or_the_other(collecting@);
    if collecting@.parts > 0 {
        each_piece_stands_where_those_before_it_end(
            collecting@.pieces,
            collecting@.parts as nat,
            if part < collecting@.parts {
                part as nat
            } else {
                0
            },
        );
    }
}

/// The pieces of an answer are its bytes in order: the piece with number
/// `part` is the bytes from `part` whole pieces on, as many as a piece holds or
/// as are left, and there are exactly as many pieces as it takes.
pub proof fn a_piece_is_its_own_stretch_of_the_answer(
    ready: &Prepared,
    part: u32,
    part_bytes: usize,
    piece: Option<Message>,
)
    requires
        call_ensures(piece_of, (ready, part, part_bytes), piece),
        part_bytes > 0,
    ensures
        piece is Some <==> part * part_bytes < ready.bytes@.len() || (part == 0
            && ready.bytes@.len() == 0),
        piece matches Some(message) ==> (message@ matches MessageView::JoinPart {
            what,
            at,
            part: number,
            parts,
            bytes,
        } && what == ready.what && at == ready.at && number == part && {
            let start = part * part_bytes;
            let left = ready.bytes@.len() - start;
            &&& bytes.len() == if left < part_bytes {
                left
            } else {
                part_bytes as int
            }
            &&& forall|i: int| 0 <= i < bytes.len() ==> #[trigger] bytes[i] == ready.bytes@[start + i]
            &&& ready.bytes@.len() == 0 ==> parts == 1
            &&& ready.bytes@.len() > 0 && parts < u32::MAX ==> (parts - 1) * part_bytes
                < ready.bytes@.len() <= parts * part_bytes
        }),
{
    let len = ready.bytes@.len() as int;
    let n = part_bytes as int;
    if len > 0 {
        let all = (len + n - 1) / n;
        vstd::arithmetic::div_mod::lemma_fundamental_div_mod(len + n - 1, n);
        vstd::arithmetic::div_mod::lemma_mod_bound(len + n - 1, n);
        assert(n * all <= len + n - 1 < n * all + n);
        assert((all - 1) * n == n * all - n) by (nonlinear_arith);
        assert(all * n == n * all) by (nonlinear_arith);
        if part < all {
            assert(part * n <= (all - 1) * n) by (nonlinear_arith)
                requires
                    part <= all - 1,
                    n > 0,
            ;
        } else {
            assert(part * n >= all * n) by (nonlinear_arith)
                requires
                    part >= all,
                    n > 0,
            ;
        }
        assert(all > 0) by (nonlinear_arith)
            requires
                n > 0,
                len > 0,
                len + n - 1 < n * all + n,
        ;
    } else {
        if part > 0 {
            assert(part * n >= 0) by (nonlinear_arith)
                requires
                    part > 0,
                    n > 0,
            ;
        } else {
            assert(0 * n == 0) by (nonlinear_arith);
        }
    }
}

/// An answer held is given out while it is about the tip the chain stands at,
/// and only then: a question past its last piece is met with silence, and any
/// other tip has another answer built.
pub proof fn a_held_answer_is_served_while_it_is_current(
    answers: &Answers,
    what: Joining,
    part: u32,
    tip: Option<Hash32>,
    part_bytes: usize,
    serving: Serving,
)
    requires
        call_ensures(serve_join, (answers, what, part, tip, part_bytes), serving),
        part_bytes > 0,
    ensures
        ({
            let held = if what == Joining::Weight {
                answers.weight
            } else {
                answers.ledger
            };
            match held {
                None => serving is Build,
                Some(ready) => if tip != Some(ready.at) {
                    serving is Build
                } else if part * part_bytes < ready.bytes@.len() || (part == 0 && ready.bytes@.len()
                    == 0) {
                    serving matches Serving::Send(message) && (message@ matches MessageView::JoinPart {
                        what: kind,
                        at,
                        part: number,
                        bytes,
                        ..
                    } && kind == ready.what && at == ready.at && number == part && bytes.len()
                        <= part_bytes && forall|i: int|
                        0 <= i < bytes.len() ==> #[trigger] bytes[i] == ready.bytes@[part * part_bytes
                            + i])
                } else {
                    serving is Silence
                },
            }
        }),
{
    let held = answers.slot(what);
    match held {
        Some(ready) => {
            has_piece_is_having_bytes(ready.bytes@.len(), part_bytes, part);
        },
        None => {},
    }
}

proof fn has_piece_is_having_bytes(len: nat, part_bytes: usize, part: u32)
    requires
        part_bytes > 0,
    ensures
        has_piece(len, part_bytes, part) <==> part * part_bytes < len || (part == 0 && len == 0),
{
    let n = part_bytes as int;
    if len > 0 {
        let all = (len + n - 1) / n;
        vstd::arithmetic::div_mod::lemma_fundamental_div_mod(len + n - 1, n);
        vstd::arithmetic::div_mod::lemma_mod_bound(len + n - 1, n);
        assert((all - 1) * n == n * all - n) by (nonlinear_arith);
        assert(all * n == n * all) by (nonlinear_arith);
        if part < all {
            assert(part * n <= (all - 1) * n) by (nonlinear_arith)
                requires
                    part <= all - 1,
                    n > 0,
            ;
        } else {
            assert(part * n >= all * n) by (nonlinear_arith)
                requires
                    part >= all,
                    n > 0,
            ;
        }
        assert(all > 0) by (nonlinear_arith)
            requires
                n > 0,
                len > 0,
                len + n - 1 < n * all + n,
        ;
    } else if part > 0 {
        assert(part * n >= 0) by (nonlinear_arith)
            requires
                part > 0,
                n > 0,
        ;
    }
}

/// A freshly built answer takes the place of its own kind and leaves the other,
/// so that the next question about it is served; one about a chain this node
/// has left is not kept.
pub proof fn a_built_answer_is_kept_for_the_next_question(
    answers: &mut Answers,
    prepared: Prepared,
    still_there: bool,
    part: u32,
    part_bytes: usize,
    piece: Option<Message>,
)
    requires
        call_ensures(Answers::keep_join, (answers, prepared, still_there, part, part_bytes), piece),
        part_bytes > 0,
    ensures
        !still_there ==> piece is None && *final(answers) == *old(answers),
        still_there && prepared.what == Joining::Weight ==> final(answers).weight == Some(prepared)
            && final(answers).ledger == old(answers).ledger,
        still_there && prepared.what == Joining::Ledger ==> final(answers).ledger == Some(prepared)
            && final(answers).weight == old(answers).weight,
        still_there ==> (piece is Some <==> part * part_bytes < prepared.bytes@.len() || (part == 0
            && prepared.bytes@.len() == 0)),
{
    has_piece_is_having_bytes(prepared.bytes@.len(), part_bytes, part);
    if still_there {
        assert(final(answers).slot(prepared.what) == Some(prepared));
        let other = if prepared.what == Joining::Weight {
            Joining::Ledger
        } else {
            Joining::Weight
        };
        assert(final(answers).slot(other) == old(answers).slot(other));
    }
}

/// A piece of a join goes where the join has got to: it begins what has not
/// begun, it is filed with what it belongs to, and anything else ends the
/// attempt. A ledger keeps the tip it was weighed with from its first piece to
/// its last. What is asked for next is the first piece still lacking, and the
/// answer is handed over once none is.
pub proof fn a_piece_is_filed_where_the_join_has_got_to(
    joining: &mut Progress,
    what: Joining,
    at: Hash32,
    part: u32,
    parts: u32,
    bytes: Vec<u8>,
    now: u64,
    most: Ceiling,
    taken: (Taken, Option<Tip>),
)
    requires
        call_ensures(
            take_join_part,
            (joining, true, what, at, part, parts, bytes, now, most),
            taken,
        ),
    ensures
        ({
            let begins = part < parts && parts <= most.parts && bytes@.len() <= most.part_bytes;
            match old(joining)@ {
                ProgressView::Landed => taken.0 is Ignored && final(joining)@ is Idle,
                ProgressView::Idle => if begins {
                    final(joining)@ matches ProgressView::Weighing(now_held) && is_only_piece(
                        now_held,
                        what,
                        at,
                        part,
                        parts,
                        bytes@,
                        now,
                    ) && goes_on_with(now_held, taken.0) && taken.1 is None
                } else {
                    taken.0 is Failed && final(joining)@ is Idle
                },
                ProgressView::Weighed { tip, .. } => if begins {
                    final(joining)@ matches ProgressView::Fetching { tip: kept, collecting: now_held }
                        && kept == tip && is_only_piece(
                        now_held,
                        what,
                        at,
                        part,
                        parts,
                        bytes@,
                        now,
                    ) && goes_on_with(now_held, taken.0) && taken.1 == Some(tip)
                } else {
                    taken.0 is Failed && final(joining)@ is Idle
                },
                ProgressView::Weighing(held) => if belongs_to(held, what, at, part, bytes@) {
                    final(joining)@ matches ProgressView::Weighing(now_held) && is_one_piece_more(
                        held,
                        part,
                        bytes@,
                        now,
                        now_held,
                    ) && goes_on_with(now_held, taken.0) && taken.1 is None
                } else {
                    taken.0 is Failed && final(joining)@ is Idle
                },
                ProgressView::Fetching { tip, collecting: held } => if belongs_to(
                    held,
                    what,
                    at,
                    part,
                    bytes@,
                ) {
                    final(joining)@ matches ProgressView::Fetching { tip: kept, collecting: now_held }
                        && kept == tip && is_one_piece_more(held, part, bytes@, now, now_held)
                        && goes_on_with(now_held, taken.0) && taken.1 == Some(tip)
                } else {
                    taken.0 is Failed && final(joining)@ is Idle
                },
            }
        }),
{
    match final(joining)@ {
        ProgressView::Weighing(collecting) | ProgressView::Fetching { collecting, .. } => {
            lacking_is_one_or_the_other(collecting);
            match taken.0 {
                Taken::Ask(message) => {
                    match message@ {
                        MessageView::GetJoin { part, .. } => {
                            assert(collecting.is_first_missing(part as int));
                        },
                        _ => {},
                    }
                },
                _ => {},
            }
        },
        _ => {},
    }
}

/// Whether a collection holds one piece and no more.
pub open spec fn is_only_piece(
    held: CollectingView,
    what: Joining,
    at: Hash32,
    part: u32,
    parts: u32,
    bytes: Seq<u8>,
    now: u64,
) -> bool {
    &&& held.what == what && held.at == at && held.parts == parts && held.moved == now
    &&& forall|other: u32| #[trigger] held.pieces.contains_key(other) <==> other == part
    &&& held.pieces[part] == bytes
}

/// Whether a piece is one of the answer being collected.
pub open spec fn belongs_to(held: CollectingView, what: Joining, at: Hash32, part: u32, bytes: Seq<u8>) -> bool {
    held.what == what && held.at == at && part < held.parts && bytes.len() <= held.most.part_bytes
}

/// Whether a collection is another with one piece put in.
pub open spec fn is_one_piece_more(
    before: CollectingView,
    part: u32,
    bytes: Seq<u8>,
    now: u64,
    after: CollectingView,
) -> bool {
    &&& after.what == before.what && after.at == before.at && after.parts == before.parts
    &&& after.most == before.most && after.moved == now
    &&& after.pieces.contains_key(part) && after.pieces[part] == bytes
    &&& forall|other: u32|
        other != part ==> (#[trigger] after.pieces.contains_key(other)
            <==> before.pieces.contains_key(other)) && after.pieces[other] == before.pieces[other]
}

/// Whether what filing a piece came to is right for what is now held: the first
/// piece lacking is asked for, of the same kind, or nothing is lacking.
pub open spec fn goes_on_with(held: CollectingView, taken: Taken) -> bool {
    match taken {
        Taken::Ask(message) => message@ matches MessageView::GetJoin { what, part } && what
            == held.what && lacks_first(held.pieces, held.parts, part),
        Taken::Whole(bytes) => lacks_none(held.pieces, held.parts) && bytes@ == held.answer(),
        _ => false,
    }
}

/// A node that has a chain takes no piece of a join, and is done joining.
pub proof fn a_node_with_a_chain_is_done_joining(
    joining: &mut Progress,
    what: Joining,
    at: Hash32,
    part: u32,
    parts: u32,
    bytes: Vec<u8>,
    now: u64,
    most: Ceiling,
    taken: (Taken, Option<Tip>),
)
    requires
        call_ensures(
            take_join_part,
            (joining, false, what, at, part, parts, bytes, now, most),
            taken,
        ),
    ensures
        taken.0 is Ignored,
        taken.1 is None,
        final(joining)@ is Landed,
{
}

/// A showing that checks out goes forward with its own tip while nobody
/// credible claims more, and is held back otherwise; one that does not check
/// out ends the attempt, and one nobody is waiting for changes nothing.
pub proof fn a_showing_goes_forward_with_its_own_tip<S: FnOnce(u128) -> bool>(
    joining: &mut Progress,
    weighed: Option<Tip>,
    shown: S,
    now: u64,
    outcome: Shown,
)
    requires
        call_ensures(weigh_what_was_shown::<S>, (joining, weighed, shown, now), outcome),
    ensures
        !(old(joining)@ is Weighing) ==> outcome is Stale && *final(joining) == *old(joining),
        old(joining)@ is Weighing && weighed is None ==> outcome is Failed && final(joining)@ is Idle,
        old(joining)@ is Weighing ==> (weighed matches Some(tip) ==> {
            &&& outcome is HeldBack || outcome is Forward
            &&& outcome is HeldBack ==> call_ensures(shown, (tip.total_work,), false)
                && final(joining)@ is Idle
            &&& outcome matches Shown::Forward(message) ==> call_ensures(
                shown,
                (tip.total_work,),
                true,
            ) && message@ == (MessageView::GetJoin { what: Joining::Ledger, part: 0 }) && (
            final(joining)@ matches ProgressView::Weighed { tip: kept, since } && kept == tip && since
                == now)
        }),
{
}

/// A ledger is taken only when it names the tip that was weighed and is found
/// sound twice, by whoever checks it and whoever adopts it; it is then stood
/// behind a burial above its anchor, or at its tip where that comes first.
pub proof fn only_a_sound_ledger_of_the_weighed_tip_is_taken<
    A: FnOnce() -> Checked,
    B: FnOnce() -> Checked,
>(handed: Option<Handed>, tip: Hash32, burial: u64, accept: A, adopt: B, outcome: Landed)
    requires
        call_ensures(take_the_ledger::<A, B>, (handed, tip, burial, accept, adopt), outcome),
    ensures
        outcome is Took ==> (handed matches Some(handed) && handed.tip.id == tip && call_ensures(
            accept,
            (),
            Checked::Sound,
        ) && call_ensures(adopt, (), Checked::Sound) && (outcome matches Landed::Took {
            anchor,
            settles_at,
        } && anchor == handed.anchor && settles_at <= handed.tip.height && settles_at <= anchor
            + burial && (settles_at == handed.tip.height || settles_at == anchor + burial))),
        handed is None ==> outcome is Refused,
        handed matches Some(handed) ==> handed.tip.id != tip ==> outcome is Refused,
        outcome matches Landed::TooOld(outdated) ==> call_ensures(
            accept,
            (),
            Checked::TooOld(outdated),
        ) || (call_ensures(accept, (), Checked::Sound) && call_ensures(
            adopt,
            (),
            Checked::TooOld(outdated),
        )),
        (handed matches Some(handed) && handed.tip.id == tip) && outcome is Refused ==> call_ensures(
            accept,
            (),
            Checked::Refused,
        ) || (call_ensures(accept, (), Checked::Sound) && call_ensures(adopt, (), Checked::Refused)),
{
}

/// A ledger lands only in a join that weighed a chain, only while nobody claims
/// more, and only by being taken; whatever else comes of it, the attempt is
/// over and nothing is landed.
pub proof fn a_ledger_lands_only_by_being_taken<A: FnOnce(u128) -> bool, T: FnOnce(&Tip) -> Landed>(
    joining: &mut Progress,
    weighed: Option<Tip>,
    allows: A,
    take: T,
    landing: Landing,
)
    requires
        call_ensures(land_the_ledger::<A, T>, (joining, weighed, allows, take), landing),
    ensures
        weighed is None ==> landing is Nothing && *final(joining) == *old(joining),
        weighed matches Some(tip) ==> {
            &&& final(joining)@ is Landed <==> landing is Took
            &&& !(landing is Took) ==> final(joining)@ is Idle
            &&& landing is HeldBack <==> !(landing is Failed || landing is TooOld || landing is Took)
            &&& landing is HeldBack ==> call_ensures(allows, (tip.total_work,), false)
            &&& !(landing is HeldBack) ==> call_ensures(allows, (tip.total_work,), true)
            &&& landing is Failed ==> call_ensures(take, (&tip,), Landed::Refused)
            &&& landing matches Landing::TooOld(outdated) ==> call_ensures(
                take,
                (&tip,),
                Landed::TooOld(outdated),
            )
            &&& landing matches Landing::Took { anchor, settles_at } ==> call_ensures(
                take,
                (&tip,),
                (Landed::Took { anchor, settles_at }),
            )
        },
{
}

/// A join goes quiet half a minute after it last moved, and at once where the
/// clock has gone back; one that never moved has nothing to go quiet.
pub proof fn a_join_goes_quiet_after_half_a_minute(joining: &Progress, now: u64, going: JoinProgress)
    requires
        call_ensures(how_it_goes, (joining, now), going),
    ensures
        match joining@ {
            ProgressView::Idle | ProgressView::Landed => going == JoinProgress::NothingYet,
            ProgressView::Weighing(collecting) | ProgressView::Fetching { collecting, .. } => going
                == if collecting.moved <= now < collecting.moved + 30 {
                JoinProgress::Moving
            } else {
                JoinProgress::Stalled
            },
            ProgressView::Weighed { since, .. } => going == if since <= now < since + 30 {
                JoinProgress::Moving
            } else {
                JoinProgress::Stalled
            },
        },
{
}

/// Whoever is chosen is asked in the way they were chosen for: to hand the
/// chain over from its first piece, with whatever was under way let go, or for
/// the chain itself, which lets nothing go. An archivist only ever reads.
pub proof fn whoever_is_chosen_is_asked(joining: &mut Progress, step: Step, archiving: bool, sending: Sending)
    requires
        call_ensures(drive_choosing, (joining, step, archiving), sending),
    ensures
        match step {
            Step::Quiet => sending is Nothing && *final(joining) == *old(joining),
            Step::Nudge(peers) => *final(joining) == *old(joining) && (
            sending matches Sending::Chain(asked) && asked@ == peers@),
            Step::Ask(peer, approach) => if approach == Approach::Join && !archiving {
                final(joining)@ is Idle && (sending matches Sending::Join(asked, message) && asked
                    == peer && message@ == (MessageView::GetJoin { what: Joining::Weight, part: 0 }))
            } else {
                *final(joining) == *old(joining) && (sending matches Sending::Chain(asked) && asked@
                    == seq![peer])
            },
        },
{
}

/// An answer is built only for the tip the disk agrees about, and a ledger only
/// from the height a whole burial below it.
pub proof fn a_ledger_is_handed_over_from_a_burial_down(
    what: Joining,
    at: Located,
    tip: Option<Hash32>,
    burial: u64,
    building: Option<Building>,
)
    requires
        call_ensures(build_join, (what, at, tip, burial), building),
    ensures
        tip != Some(at.id) ==> building is None,
        tip == Some(at.id) && what == Joining::Weight ==> building == Some(Building::Weight),
        tip == Some(at.id) && what == Joining::Ledger ==> (building is Some <==> burial <= at.height),
        building matches Some(Building::Ledger { anchor }) ==> what == Joining::Ledger && anchor
            + burial == at.height,
{
}

/// What travels with a ledger is the recent headers that end at it and every
/// header from there to the tip, each once and in order.
pub proof fn the_headers_of_a_ledger_meet_at_it<T, H: Fn(u64) -> Option<T>>(
    at: u64,
    tip: u64,
    recent: u64,
    header_at: H,
    runs: Option<(Vec<T>, Vec<T>)>,
)
    requires
        call_ensures(build_ledger::<T, H>, (at, tip, recent, header_at), runs),
    ensures
        runs matches Some((headers, buried)) ==> {
            let many = if recent == 0 {
                1int
            } else if recent <= at {
                recent as int
            } else {
                at + 1
            };
            &&& at <= tip
            &&& headers@.len() == many
            &&& forall|i: int|
                0 <= i < headers@.len() ==> call_ensures(
                    header_at,
                    ((at - many + 1 + i) as u64,),
                    Some(#[trigger] headers@[i]),
                )
            &&& buried@.len() == tip - at
            &&& forall|i: int|
                0 <= i < buried@.len() ==> call_ensures(
                    header_at,
                    ((at + 1 + i) as u64,),
                    Some(#[trigger] buried@[i]),
                )
        },
        runs is None && at <= tip && at < u64::MAX ==> exists|height: u64|
            height <= tip && #[trigger] call_ensures(header_at, (height,), None::<T>),
{
}

/// A piece is taken only from the peer that was asked, and anything that is no
/// piece is left as it came.
pub proof fn only_the_peer_that_was_asked_is_collected_from(
    message: Message,
    asked: bool,
    collected_as: Collected,
)
    requires
        call_ensures(collected, (message, asked), collected_as),
    ensures
        !(message@ is JoinPart) ==> collected_as == Collected::Other(message),
        message@ is JoinPart && !asked ==> collected_as is Dropped,
        message@ is JoinPart && asked ==> (collected_as matches Collected::Piece {
            what,
            at,
            part,
            parts,
            bytes,
        } && message@ == (MessageView::JoinPart { what, at, part, parts, bytes: bytes@ })),
{
}

/// The ceiling on an answer lets through one of the most bytes, cut to pieces,
/// and not a whole piece more.
pub proof fn a_ceiling_has_room_for_the_most_there_may_be(most: usize, part_bytes: usize, ceiling: Ceiling)
    requires
        call_ensures(Ceiling::of, (most, part_bytes), ceiling),
        part_bytes > 0,
    ensures
        ceiling.part_bytes == part_bytes,
        ceiling.parts >= 1,
        ceiling.parts < u32::MAX ==> most <= ceiling.parts * part_bytes,
        most > 0 ==> (ceiling.parts - 1) * part_bytes < most,
{
    let n = part_bytes as int;
    if most > 0 {
        let all = (most + n - 1) / n;
        vstd::arithmetic::div_mod::lemma_fundamental_div_mod(most + n - 1, n);
        vstd::arithmetic::div_mod::lemma_mod_bound(most + n - 1, n);
        assert((all - 1) * n == n * all - n) by (nonlinear_arith);
        assert(all * n == n * all) by (nonlinear_arith);
        assert((ceiling.parts - 1) * n <= (all - 1) * n) by (nonlinear_arith)
            requires
                ceiling.parts <= all,
                n > 0,
        ;
        assert(all > 0) by (nonlinear_arith)
            requires
                n > 0,
                most > 0,
                most + n - 1 < n * all + n,
        ;
    } else {
        assert(1 * n >= 0) by (nonlinear_arith)
            requires
                n > 0,
        ;
    }
}

/// What a collection wants is the first piece it lacks, and nothing once it
/// lacks none. What it is of and when it moved are what its last piece made
/// them.
pub proof fn a_collection_wants_the_first_piece_it_lacks(
    collecting: &Collecting,
    wanted: Option<u32>,
    what: Joining,
    moved: u64,
)
    requires
        call_ensures(Collecting::wanted, (collecting,), wanted),
        call_ensures(Collecting::what, (collecting,), what),
        call_ensures(Collecting::moved, (collecting,), moved),
    ensures
        wanted is None <==> lacks_none(collecting@.pieces, collecting@.parts),
        wanted matches Some(part) ==> lacks_first(collecting@.pieces, collecting@.parts, part),
        what == collecting@.what,
        moved == collecting@.moved,
{
    lacking_is_one_or_the_other(collecting@);
    match wanted {
        Some(part) => {
            assert(collecting@.is_first_missing(part as int));
        },
        None => {},
    }
}

/// A join last moved when its last piece came, or when its chain was weighed.
/// The tip it is after is the one that was weighed, and there is none before.
pub proof fn a_join_is_known_by_how_far_it_has_got(
    joining: &Progress,
    moved: Option<u64>,
    tip: Option<Tip>,
    joined: Joined,
)
    requires
        call_ensures(Progress::moved, (joining,), moved),
        call_ensures(Progress::tip, (joining,), tip),
        call_ensures(Progress::reported, (joining,), joined),
    ensures
        match joining@ {
            ProgressView::Idle => moved is None && tip is None && joined is NotYet,
            ProgressView::Landed => moved is None && tip is None && joined is Done,
            ProgressView::Weighing(collecting) => moved == Some(collecting.moved) && tip is None
                && joined is Weighing,
            ProgressView::Weighed { tip: weighed, since } => moved == Some(since) && tip == Some(
                weighed,
            ) && joined is Fetching,
            ProgressView::Fetching { tip: weighed, collecting } => moved == Some(collecting.moved)
                && tip == Some(weighed) && joined is Fetching,
        },
{
}

/// A collection is filed with the tip it is for, and what is asked for next is
/// the first piece it lacks, or it is handed over.
pub proof fn a_collection_is_filed_with_its_tip(
    joining: &mut Progress,
    collecting: Collecting,
    tip: Option<Tip>,
    taken: Taken,
)
    requires
        call_ensures(step, (joining, collecting, tip), taken),
    ensures
        tip is None ==> (final(joining)@ matches ProgressView::Weighing(held) && held
            == collecting@),
        tip matches Some(tip) ==> (final(joining)@ matches ProgressView::Fetching {
            tip: kept,
            collecting: held,
        } && kept == tip && held == collecting@),
        goes_on_with(collecting@, taken),
{
    lacking_is_one_or_the_other(collecting@);
    match taken {
        Taken::Ask(message) => {
            match message@ {
                MessageView::GetJoin { part, .. } => {
                    assert(collecting@.is_first_missing(part as int));
                },
                _ => {},
            }
        },
        _ => {},
    }
}

/// A piece taken by a node without a chain is the piece that node takes.
pub proof fn a_piece_is_taken_as_by_a_node_without_a_chain(
    joining: &mut Progress,
    other: &mut Progress,
    what: Joining,
    at: Hash32,
    part: u32,
    parts: u32,
    bytes: Vec<u8>,
    now: u64,
    most: Ceiling,
    taken: Taken,
    whole: (Taken, Option<Tip>),
)
    requires
        call_ensures(take_piece, (joining, what, at, part, parts, bytes, now, most), taken),
        call_ensures(
            take_join_part,
            (other, true, what, at, part, parts, bytes, now, most),
            whole,
        ),
        *old(other) == *old(joining),
    ensures
        final(joining)@ == final(other)@,
        taken is Failed <==> whole.0 is Failed,
        taken is Ignored <==> whole.0 is Ignored,
        taken is Ask <==> whole.0 is Ask,
        taken is Whole <==> whole.0 is Whole,
{
    match final(joining)@ {
        ProgressView::Weighing(collecting) | ProgressView::Fetching { collecting, .. } => {
            lacking_is_one_or_the_other(collecting);
            match taken {
                Taken::Ask(message) => {
                    match message@ {
                        MessageView::GetJoin { part, .. } => {
                            assert(collecting.is_first_missing(part as int));
                        },
                        _ => {},
                    }
                },
                _ => {},
            }
            match whole.0 {
                Taken::Ask(message) => {
                    match message@ {
                        MessageView::GetJoin { part, .. } => {
                            assert(collecting.is_first_missing(part as int));
                        },
                        _ => {},
                    }
                },
                _ => {},
            }
        },
        _ => {},
    }
}

/// An attempt that fails is over, whatever had come of it.
pub proof fn an_attempt_that_fails_is_over(joining: &mut Progress, taken: Taken)
    requires
        call_ensures(fail_attempt, (joining,), taken),
    ensures
        taken is Failed,
        final(joining)@ is Idle,
{
}

/// Windows are ten seconds by the clock: two moments share one when the same
/// number of tens has gone by at both.
pub proof fn a_window_turns_every_ten_seconds(then: u64, now: u64, turned: bool, quiet: bool)
    requires
        call_ensures(a_window_has_turned, (then, now), turned),
        call_ensures(has_gone_quiet, (Some(then), now), quiet),
    ensures
        then + 10 <= now || now + 10 <= then ==> turned,
        then == now ==> !turned,
        then < now && now / 10 == then / 10 ==> !turned,
        then < now && now / 10 > then / 10 ==> turned,
        then <= now < then + 30 ==> !quiet,
        then + 30 <= now || now < then ==> quiet,
{
}

/// Nothing is held until something is built, and what never moved has not gone
/// quiet.
pub proof fn nothing_is_held_to_begin_with(
    answers: Answers,
    what: Joining,
    part: u32,
    tip: Option<Hash32>,
    part_bytes: usize,
    held: Held,
    now: u64,
    quiet: bool,
)
    requires
        call_ensures(Answers::new, (), answers),
        call_ensures(Answers::held_join, (&answers, what, part, tip, part_bytes), held),
        call_ensures(has_gone_quiet, (None::<u64>, now), quiet),
    ensures
        held is Nothing,
        !quiet,
{
}

/// An answer held is looked up by kind and tip: one for another tip is as good
/// as none, one for this tip has the pieces its bytes make and no more.
pub proof fn an_answer_held_is_for_one_tip(
    answers: &Answers,
    what: Joining,
    part: u32,
    tip: Option<Hash32>,
    part_bytes: usize,
    held: Held,
)
    requires
        call_ensures(Answers::held_join, (answers, what, part, tip, part_bytes), held),
        part_bytes > 0,
    ensures
        ({
            let ready = if what == Joining::Weight {
                answers.weight
            } else {
                answers.ledger
            };
            &&& held is Nothing <==> !(ready matches Some(ready) && tip == Some(ready.at))
            &&& ready matches Some(ready) ==> tip == Some(ready.at) ==> (held is Piece <==> part
                * part_bytes < ready.bytes@.len() || (part == 0 && ready.bytes@.len() == 0))
        }),
{
    match answers.slot(what) {
        Some(ready) => {
            has_piece_is_having_bytes(ready.bytes@.len(), part_bytes, part);
        },
        None => {},
    }
}

} // verus!
