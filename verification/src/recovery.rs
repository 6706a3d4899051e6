//! Asking the network where a wallet's fallen notes sit.
//!
//! A note that has fallen out of the set every node keeps can only be spent
//! alongside a path showing where it sits. Nothing here trusts anybody: a path
//! is folded from the place named up to a commitment this node worked out for
//! itself, and one that does not reach it is simply not used.

use std::collections::{BTreeMap, BTreeSet};

use vstd::prelude::*;

use crate::address::Address;
use crate::filling::PeerId;
use crate::message::{Path, Placed, MAX_PROVEN};
use crate::network::Hash32;

verus! {

broadcast use vstd::std_specs::btree::group_btree_axioms;

/// Addresses one recovery will dial in search of somebody who keeps the cold
/// set.
pub const REACH_FOR_ARCHIVISTS: usize = 4;

/// What came of asking the network where a wallet's fallen notes sit.
#[derive(Debug)]
pub struct Recovered {
    /// Peers the question went to. Zero means there was nobody to ask at all.
    pub asked: usize,
    /// How many of those said they keep the whole cold set.
    pub archivists: usize,
    /// Peers that answered at all, whatever the answer was.
    pub answered: usize,
    /// The paths that folded to this node's own commitment, by place.
    pub proofs: BTreeMap<u64, Path>,
    /// Answers refused because the path did not reach this node's commitment.
    /// A wrong answer and a late one look the same from here, so both are
    /// simply not used.
    pub refused: usize,
}

impl Default for Recovered {
    /// The account of a question about nothing.
    fn default() -> (recovered: Recovered)
        ensures
            recovered.asked == 0,
            recovered.archivists == 0,
            recovered.answered == 0,
            recovered.proofs@ == Map::<u64, Path>::empty(),
            recovered.refused == 0,
    {
        Recovered { asked: 0, archivists: 0, answered: 0, proofs: BTreeMap::new(), refused: 0 }
    }
}

/// One question about where fallen notes sit, and what has come back.
///
/// One question at a time. A second one replaces the first: what came back for
/// a question nobody is waiting on any more is not worth the room.
#[derive(Debug)]
pub struct Asking {
    /// The places asked about, and the leaf each answer has to fold to.
    pub wanted: BTreeMap<u64, Hash32>,
    /// Connections the question went to.
    pub asked: BTreeSet<PeerId>,
    /// Connections that answered, whatever they said.
    pub answered: BTreeSet<PeerId>,
    /// Paths that folded.
    pub found: BTreeMap<u64, Path>,
    /// Answers that did not.
    pub refused: usize,
}

/// What a question holds.
#[verifier::ext_equal]
pub struct AskingView {
    pub wanted: Map<u64, Hash32>,
    pub asked: Set<PeerId>,
    pub answered: Set<PeerId>,
    pub found: Map<u64, Path>,
    pub refused: usize,
}

impl View for Asking {
    type V = AskingView;

    open spec fn view(&self) -> AskingView {
        AskingView {
            wanted: self.wanted@,
            asked: self.asked@,
            answered: self.answered@,
            found: self.found@,
            refused: self.refused,
        }
    }
}

/// The places and leaves a list asks about, a later entry about a place
/// standing over an earlier one.
pub open spec fn places(wanted: Seq<(u64, Hash32)>) -> Map<u64, Hash32>
    decreases wanted.len(),
{
    if wanted.len() == 0 {
        Map::empty()
    } else {
        places(wanted.drop_last()).insert(wanted.last().0, wanted.last().1)
    }
}

/// As much of a list as one message carries.
pub open spec fn what_fits(wanted: Seq<(u64, Hash32)>) -> Seq<(u64, Hash32)> {
    if wanted.len() <= MAX_PROVEN {
        wanted
    } else {
        wanted.take(MAX_PROVEN as int)
    }
}

/// Those of `peers` that are not among `asked`, once each and in order.
pub open spec fn fresh_of(peers: Seq<PeerId>, asked: Set<PeerId>) -> Seq<PeerId>
    decreases peers.len(),
{
    if peers.len() == 0 {
        Seq::empty()
    } else {
        let before = fresh_of(peers.drop_last(), asked);
        if asked.contains(peers.last()) || peers.drop_last().contains(peers.last()) {
            before
        } else {
            before.push(peers.last())
        }
    }
}

/// Whether a run of numbers climbs.
pub open spec fn climbs(run: Seq<u64>) -> bool {
    forall|i: int, j: int| 0 <= i < j < run.len() ==> run[i] < run[j]
}

impl AskingView {
    /// No question at all.
    pub open spec fn nothing() -> AskingView {
        AskingView {
            wanted: Map::empty(),
            asked: Set::empty(),
            answered: Set::empty(),
            found: Map::empty(),
            refused: 0,
        }
    }

    /// Whether every place asked about has been answered for.
    pub open spec fn is_satisfied(self) -> bool {
        self.wanted.len() > 0 && self.found.len() >= self.wanted.len()
    }

    /// Whether there is nothing further to wait on.
    pub open spec fn is_over(self) -> bool {
        self.is_satisfied() || (self.asked.len() > 0 && self.answered.len() >= self.asked.len())
    }

    /// Whether an entry of an answer is about a place asked about, with a path
    /// to fold.
    pub open spec fn checks(self, placed: Placed) -> bool {
        self.wanted.contains_key(placed.position) && placed.proof is Some
    }

    /// The entries of an answer worth folding, each with the leaf it has to
    /// fold with.
    pub open spec fn checkable(self, placed: Seq<Placed>) -> Seq<(u64, Hash32, Path)>
        decreases placed.len(),
    {
        if placed.len() == 0 {
            Seq::empty()
        } else {
            let before = self.checkable(placed.drop_last());
            let last = placed.last();
            if self.checks(last) {
                before.push((last.position, self.wanted[last.position], last.proof->0))
            } else {
                before
            }
        }
    }

    /// The question once a run of paths has been folded: those that hold are
    /// kept, and the rest are counted.
    pub open spec fn folded(self, folded: Seq<(u64, Path, bool)>) -> AskingView
        decreases folded.len(),
    {
        if folded.len() == 0 {
            self
        } else {
            let before = self.folded(folded.drop_last());
            let (position, proof, holds) = folded.last();
            if holds {
                AskingView { found: before.found.insert(position, proof), ..before }
            } else {
                AskingView { refused: before.refused.saturating_add(1), ..before }
            }
        }
    }
}

/// Puts a number where it belongs in a climbing run, unless it is there.
fn put_in_order(run: &mut Vec<u64>, number: u64)
    requires
        climbs(old(run)@),
        old(run)@.len() < usize::MAX,
    ensures
        climbs(final(run)@),
        final(run)@.len() <= old(run)@.len() + 1,
        forall|other: u64|
            #![trigger old(run)@.contains(other)]
            #![trigger final(run)@.contains(other)]
            final(run)@.contains(other) <==> old(run)@.contains(other) || other == number,
{
    let mut at: usize = 0;
    while at < run.len() && run[at] < number
        invariant
            at <= run@.len(),
            *run == *old(run),
            forall|i: int| 0 <= i < at ==> run@[i] < number,
        decreases run.len() - at,
    {
        at = at + 1;
    }
    let ghost before = run@;
    if at < run.len() && run[at] == number {
        assert(before.contains(number));
        return ;
    }
    run.insert(at, number);
    proof {
        assert(run@ =~= before.insert(at as int, number));
        assert forall|i: int, j: int| 0 <= i < j < run@.len() implies run@[i] < run@[j] by {
            let bi = if i < at {
                i
            } else {
                i - 1
            };
            let bj = if j < at {
                j
            } else {
                j - 1
            };
            if i != at {
                assert(run@[i] == before[bi]);
            }
            if j != at {
                assert(run@[j] == before[bj]);
            }
            if i == at {
                assert(before[at as int] <= before[bj]);
            }
        }
        assert forall|other: u64|
            run@.contains(other) <==> #[trigger] before.contains(other) || other == number by {
            if before.contains(other) {
                let i = choose|i: int| 0 <= i < before.len() && before[i] == other;
                if i < at {
                    assert(run@[i] == other);
                } else {
                    assert(run@[i + 1] == other);
                }
            }
            if other == number {
                assert(run@[at as int] == number);
            }
            if run@.contains(other) {
                let i = choose|i: int| 0 <= i < run@.len() && run@[i] == other;
                if i < at {
                    assert(before[i] == other);
                } else if i > at {
                    assert(before[i - 1] == other);
                }
            }
        }
    }
}

impl Asking {
    /// A question about as many of these places as one message carries, and
    /// the places, in order, for that message.
    ///
    /// Capped here as well as on the wire, so a caller that asks about more
    /// than one message carries is answered about what fits.
    pub fn about(wanted: &Vec<(u64, Hash32)>) -> (question: (Asking, Vec<u64>))
        ensures
            question.0@ == (AskingView {
                wanted: places(what_fits(wanted@)),
                ..AskingView::nothing()
            }),
            climbs(question.1@),
            forall|position: u64|
                question.1@.contains(position) <==> #[trigger] question.0@.wanted.contains_key(position),
    {
        let mut asked_about: BTreeMap<u64, Hash32> = BTreeMap::new();
        let mut positions: Vec<u64> = Vec::new();
        let mut at: usize = 0;
        while at < wanted.len() && at < MAX_PROVEN
            invariant
                at <= wanted@.len(),
                at <= MAX_PROVEN,
                positions@.len() <= at,
                asked_about@ == places(wanted@.take(at as int)),
                climbs(positions@),
                forall|position: u64|
                    positions@.contains(position) <==> #[trigger] asked_about@.contains_key(position),
            decreases wanted.len() - at,
        {
            let (position, leaf) = wanted[at];
            let ghost before = asked_about@;
            asked_about.insert(position, leaf);
            put_in_order(&mut positions, position);
            assert(wanted@.take(at + 1).drop_last() =~= wanted@.take(at as int));
            assert(forall|place: u64| #[trigger]
                asked_about@.contains_key(place) <==> before.contains_key(place) || place == position);
            at = at + 1;
        }
        assert(wanted@.take(at as int) =~= what_fits(wanted@));
        let asking = Asking {
            wanted: asked_about,
            asked: BTreeSet::new(),
            answered: BTreeSet::new(),
            found: BTreeMap::new(),
            refused: 0,
        };
        (asking, positions)
    }

    /// Whether every place asked about has been answered for.
    pub fn satisfied(&self) -> (satisfied: bool)
        ensures
            satisfied == self@.is_satisfied(),
    {
        self.wanted.len() > 0 && self.found.len() >= self.wanted.len()
    }

    /// Marks the question as put to each of these that it has not been put to,
    /// and hands those back: the ones to send it to.
    pub fn fresh(&mut self, worth_asking: &Vec<PeerId>) -> (fresh: Vec<PeerId>)
        ensures
            final(self)@ == (AskingView {
                asked: old(self)@.asked.union(worth_asking@.to_set()),
                ..old(self)@
            }),
            fresh@ == fresh_of(worth_asking@, old(self)@.asked),
    {
        let mut fresh: Vec<PeerId> = Vec::new();
        let mut at: usize = 0;
        while at < worth_asking.len()
            invariant
                at <= worth_asking@.len(),
                self@ == (AskingView {
                    asked: old(self)@.asked.union(worth_asking@.take(at as int).to_set()),
                    ..old(self)@
                }),
                fresh@ == fresh_of(worth_asking@.take(at as int), old(self)@.asked),
            decreases worth_asking.len() - at,
        {
            let peer: PeerId = worth_asking[at];
            let ghost run = worth_asking@.take(at as int);
            let ghost longer = worth_asking@.take(at + 1);
            assert(longer =~= run.push(peer));
            assert(longer.drop_last() =~= run);
            assert(run.to_set().contains(peer) <==> run.contains(peer));
            let first: bool = self.asked.insert(peer);
            if first {
                fresh.push(peer);
            }
            assert forall|other: PeerId| #[trigger]
                longer.contains(other) <==> run.contains(other) || other == peer by {
                assert(longer[at as int] == peer);
                if run.contains(other) {
                    let i = choose|i: int| 0 <= i < run.len() && run[i] == other;
                    assert(longer[i] == other);
                }
                if longer.contains(other) {
                    let i = choose|i: int| 0 <= i < longer.len() && longer[i] == other;
                    if i < at {
                        assert(run[i] == other);
                    }
                }
            }
            assert(self@.asked =~= old(self)@.asked.union(longer.to_set())) by {
                assert forall|other: PeerId| #[trigger]
                    self@.asked.contains(other) <==> old(self)@.asked.union(longer.to_set()).contains(
                        other,
                    ) by {
                    assert(longer.to_set().contains(other) <==> longer.contains(other));
                    assert(run.to_set().contains(other) <==> run.contains(other));
                }
            }
            at = at + 1;
        }
        assert(worth_asking@.take(at as int) =~= worth_asking@);
        fresh
    }

    /// Ends the question once there is nothing further to wait on: every place
    /// answered for, everyone asked having answered, or no time left. `None`
    /// while there is.
    pub fn over(&mut self, archivists: usize, out_of_time: bool) -> (done: Option<Recovered>)
        ensures
            done is Some <==> old(self)@.is_over() || out_of_time,
            match done {
                Some(done) => is_account_of(old(self)@, archivists, done) && final(self)@
                    == AskingView::nothing(),
                None => *final(self) == *old(self),
            },
    {
        let everyone: bool = self.asked.len() > 0 && self.answered.len() >= self.asked.len();
        if self.satisfied() || everyone || out_of_time {
            Some(finished(self, archivists))
        } else {
            None
        }
    }

    /// Takes note that `from` answered, and hands back the entries of its
    /// answer worth folding.
    ///
    /// Only from a connection this node asked, and only about the places it
    /// asked about. An answer from anybody else is a stranger handing this
    /// node work to do.
    pub fn checkable(&mut self, from: PeerId, placed: Vec<Placed>) -> (checking: Vec<(u64, Hash32, Path)>)
        ensures
            if old(self)@.asked.contains(from) {
                &&& final(self)@ == (AskingView {
                    answered: old(self)@.answered.insert(from),
                    ..old(self)@
                })
                &&& checking@ == old(self)@.checkable(placed@)
            } else {
                *final(self) == *old(self) && checking@.len() == 0
            },
    {
        let mut checking: Vec<(u64, Hash32, Path)> = Vec::new();
        if !self.asked.contains(&from) {
            return checking;
        }
        self.answered.insert(from);
        let ghost before = old(self)@;
        let ghost all = placed@;
        let mut left: Vec<Placed> = placed;
        let ghost mut seen: int = 0;
        while left.len() > 0
            invariant
                0 <= seen <= all.len(),
                left@ == all.skip(seen),
                before.wanted == self.wanted@,
                checking@ == before.checkable(all.take(seen)),
            decreases left.len(),
        {
            let entry = left.remove(0);
            proof {
                assert(entry == all[seen]);
                assert(all.take(seen + 1).drop_last() =~= all.take(seen));
                seen = seen + 1;
                assert(left@ =~= all.skip(seen));
            }
            match self.wanted.get(&entry.position) {
                Some(leaf) => match entry.proof {
                    Some(proof) => {
                        checking.push((entry.position, *leaf, proof));
                    },
                    None => {},
                },
                None => {},
            }
        }
        assert(all.take(seen) =~= all);
        checking
    }

    /// Files paths once they have been folded, each with whether it held.
    pub fn fold(&mut self, folded: Vec<(u64, Path, bool)>)
        ensures
            final(self)@ == old(self)@.folded(folded@),
    {
        let ghost before = self@;
        let ghost all = folded@;
        let mut left: Vec<(u64, Path, bool)> = folded;
        let ghost mut filed: int = 0;
        while left.len() > 0
            invariant
                0 <= filed <= all.len(),
                left@ == all.skip(filed),
                self@ == before.folded(all.take(filed)),
            decreases left.len(),
        {
            let (position, proof, holds) = left.remove(0);
            proof {
                assert(all.take(filed + 1).drop_last() =~= all.take(filed));
                assert(all.take(filed + 1).last() == (position, proof, holds));
                filed = filed + 1;
                assert(left@ =~= all.skip(filed));
            }
            if holds {
                self.found.insert(position, proof);
            } else {
                self.refused = self.refused.saturating_add(1);
            }
        }
        assert(all.take(filed) =~= all);
    }
}

impl Default for Asking {
    fn default() -> (asking: Asking)
        ensures
            asking@ == AskingView::nothing(),
    {
        Asking {
            wanted: BTreeMap::new(),
            asked: BTreeSet::new(),
            answered: BTreeSet::new(),
            found: BTreeMap::new(),
            refused: 0,
        }
    }
}

/// Whether `done` is the account of what a question came to.
pub open spec fn is_account_of(asking: AskingView, archivists: usize, done: Recovered) -> bool {
    &&& done.asked == asking.asked.len()
    &&& done.archivists == archivists
    &&& done.answered == asking.answered.len()
    &&& done.proofs@ == asking.found
    &&& done.refused == asking.refused
}

/// The account of one question about where fallen notes sit, and the end of
/// the question.
///
/// The collection is emptied here, which is the whole of what ends a question:
/// a question nobody is waiting on is not a question.
pub fn finished(asking: &mut Asking, archivists: usize) -> (done: Recovered)
    ensures
        is_account_of(old(asking)@, archivists, done),
        final(asking)@ == AskingView::nothing(),
{
    let mut held = Asking::default();
    std::mem::swap(&mut held, asking);
    Recovered {
        asked: held.asked.len(),
        archivists,
        answered: held.answered.len(),
        refused: held.refused,
        proofs: held.found,
    }
}

/// Whether each of a run of paths may be folded.
pub open spec fn are_granted<V: Fn(u64, Hash32, &Path) -> bool>(
    verify: V,
    checking: Seq<(u64, Hash32, Path)>,
) -> bool {
    forall|i: int|
        #![trigger checking[i]]
        0 <= i < checking.len() ==> call_requires(
            verify,
            (checking[i].0, checking[i].1, &checking[i].2),
        )
}

/// Whether `folded` is what folding each of a run of paths came to.
pub open spec fn folds<V: Fn(u64, Hash32, &Path) -> bool>(
    verify: V,
    checking: Seq<(u64, Hash32, Path)>,
    folded: Seq<(u64, Path, bool)>,
) -> bool {
    &&& folded.len() == checking.len()
    &&& forall|i: int|
        #![trigger folded[i]]
        0 <= i < folded.len() ==> {
            let (position, leaf, proof) = checking[i];
            let (at, path, holds) = folded[i];
            at == position && path == proof && call_ensures(verify, (position, leaf, &proof), holds)
        }
}

/// Takes an answer about where fallen notes sit, keeping only the paths that
/// fold by `verify`.
pub fn take_placed<V: Fn(u64, Hash32, &Path) -> bool>(
    asking: &mut Asking,
    from: PeerId,
    placed: Vec<Placed>,
    verify: V,
)
    requires
        old(asking)@.asked.contains(from) ==> are_granted(verify, old(asking)@.checkable(placed@)),
    ensures
        if old(asking)@.asked.contains(from) {
            exists|folded: Seq<(u64, Path, bool)>| #[trigger]
                folds(verify, old(asking)@.checkable(placed@), folded) && final(asking)@ == (
                AskingView {
                    answered: old(asking)@.answered.insert(from),
                    ..old(asking)@
                }).folded(folded)
        } else {
            *final(asking) == *old(asking)
        },
{
    if !asking.asked.contains(&from) {
        return ;
    }
    let checking = asking.checkable(from, placed);
    let ghost all = checking@;
    let mut left: Vec<(u64, Hash32, Path)> = checking;
    let mut folded: Vec<(u64, Path, bool)> = Vec::new();
    while left.len() > 0
        invariant
            are_granted(verify, all),
            folded@.len() <= all.len(),
            left@ == all.skip(folded@.len() as int),
            folds(verify, all.take(folded@.len() as int), folded@),
        decreases left.len(),
    {
        let ghost done = folded@.len() as int;
        let (position, leaf, proof) = left.remove(0);
        assert(all[done] == (position, leaf, proof));
        let holds: bool = verify(position, leaf, &proof);
        let ghost shorter = folded@;
        folded.push((position, proof, holds));
        proof {
            assert(left@ =~= all.skip(done + 1));
            assert forall|i: int|
                #![trigger folded@[i]]
                0 <= i < folded@.len() implies {
                let (position, leaf, proof) = all.take(done + 1)[i];
                let (at, path, holds) = folded@[i];
                at == position && path == proof && call_ensures(
                    verify,
                    (position, leaf, &proof),
                    holds,
                )
            } by {
                if i < done {
                    assert(folded@[i] == shorter[i]);
                    assert(all.take(done + 1)[i] == all.take(done)[i]);
                }
            }
        }
    }
    assert(all.take(folded@.len() as int) =~= all);
    assert(folds(verify, all, folded@));
    asking.fold(folded);
}

/// Where each of these places sits, by `proof_of`, with nothing where the path
/// would be for one this node cannot place. That is not the same as saying
/// nothing: whoever asked can tell a node that cannot help from one that has
/// gone away.
pub fn place<P: Fn(u64) -> Option<Path>>(positions: &Vec<u64>, proof_of: P) -> (placed: Vec<Placed>)
    requires
        forall|i: int|
            0 <= i < positions@.len() ==> call_requires(proof_of, (#[trigger] positions@[i],)),
    ensures
        placed@.len() == positions@.len(),
        forall|i: int|
            0 <= i < placed@.len() ==> (#[trigger] placed@[i]).position == positions@[i]
                && call_ensures(proof_of, (positions@[i],), placed@[i].proof),
{
    let mut placed: Vec<Placed> = Vec::new();
    let mut at: usize = 0;
    while at < positions.len()
        invariant
            at <= positions@.len(),
            forall|i: int|
                0 <= i < positions@.len() ==> call_requires(proof_of, (#[trigger] positions@[i],)),
            placed@.len() == at,
            forall|i: int|
                0 <= i < at ==> (#[trigger] placed@[i]).position == positions@[i] && call_ensures(
                    proof_of,
                    (positions@[i],),
                    placed@[i].proof,
                ),
        decreases positions.len() - at,
    {
        let position: u64 = positions[at];
        let proof_found = proof_of(position);
        placed.push(Placed { position, proof: proof_found });
        at = at + 1;
    }
    placed
}

/// The peers of a run of connections that say they keep the whole cold set.
pub open spec fn archivists(peers: Seq<(PeerId, bool)>) -> Seq<PeerId>
    decreases peers.len(),
{
    if peers.len() == 0 {
        Seq::empty()
    } else {
        let (peer, archives) = peers.last();
        if archives {
            archivists(peers.drop_last()).push(peer)
        } else {
            archivists(peers.drop_last())
        }
    }
}

/// Whom to ask where fallen notes sit, out of the connections and whether each
/// said it keeps the whole cold set, and how many of them did.
///
/// Peers that claim the service, when there are any. When there are none,
/// everybody: a node that never said it archives still holds the path for
/// every note of an owner it follows.
pub fn worth_asking(peers: &Vec<(PeerId, bool)>) -> (asked: (Vec<PeerId>, usize))
    ensures
        asked.1 == archivists(peers@).len(),
        archivists(peers@).len() > 0 ==> asked.0@ == archivists(peers@),
        archivists(peers@).len() == 0 ==> asked.0@ == peers@.map_values(
            |peer: (PeerId, bool)| peer.0,
        ),
{
    let mut archiving: Vec<PeerId> = Vec::new();
    let mut everybody: Vec<PeerId> = Vec::new();
    let mut at: usize = 0;
    while at < peers.len()
        invariant
            at <= peers@.len(),
            archiving@ == archivists(peers@.take(at as int)),
            everybody@ == peers@.take(at as int).map_values(|peer: (PeerId, bool)| peer.0),
        decreases peers.len() - at,
    {
        let (peer, archives) = peers[at];
        assert(peers@.take(at + 1).drop_last() =~= peers@.take(at as int));
        if archives {
            archiving.push(peer);
        }
        everybody.push(peer);
        at = at + 1;
        assert(everybody@ =~= peers@.take(at as int).map_values(|peer: (PeerId, bool)| peer.0));
    }
    assert(peers@.take(at as int) =~= peers@);
    let count: usize = archiving.len();
    if count > 0 {
        (archiving, count)
    } else {
        (everybody, 0)
    }
}

/// The addresses of a run that are not among those connected.
pub open spec fn not_connected(known: Seq<Address>, connected: Seq<Address>) -> Seq<Address>
    decreases known.len(),
{
    if known.len() == 0 {
        Seq::empty()
    } else if connected.contains(known.last()) {
        not_connected(known.drop_last(), connected)
    } else {
        not_connected(known.drop_last(), connected).push(known.last())
    }
}

proof fn a_longer_run_begins_the_same(known: Seq<Address>, connected: Seq<Address>, at: int)
    requires
        0 <= at <= known.len(),
    ensures
        not_connected(known.take(at), connected).len() <= not_connected(known, connected).len(),
        not_connected(known.take(at), connected) == not_connected(known, connected).take(
            not_connected(known.take(at), connected).len() as int,
        ),
    decreases known.len() - at,
{
    if at == known.len() {
        assert(known.take(at) =~= known);
        assert(not_connected(known, connected).take(not_connected(known, connected).len() as int)
            =~= not_connected(known, connected));
    } else {
        a_longer_run_begins_the_same(known, connected, at + 1);
        let longer = known.take(at + 1);
        assert(longer.drop_last() =~= known.take(at));
        assert(longer.last() == known[at]);
        let here = not_connected(known.take(at), connected);
        let next = not_connected(longer, connected);
        let whole = not_connected(known, connected);
        assert(here =~= next.take(here.len() as int));
        assert(whole.take(next.len() as int).take(here.len() as int) =~= whole.take(
            here.len() as int,
        ));
    }
}

fn is_among(addresses: &Vec<Address>, address: Address) -> (among: bool)
    ensures
        among == addresses@.contains(address),
{
    let mut at: usize = 0;
    while at < addresses.len()
        invariant
            at <= addresses@.len(),
            forall|i: int| 0 <= i < at ==> addresses@[i] != address,
        decreases addresses.len() - at,
    {
        if addresses[at] == address {
            return true;
        }
        at = at + 1;
    }
    false
}

/// The addresses to dial in search of somebody who keeps the cold set: the
/// first few of those known to have said they do that are not connected.
///
/// Only ones already in the book, so this is an ordinary dial made a few
/// seconds early rather than a second way of choosing who this node talks to.
pub fn reach_for_an_archivist(known: &Vec<Address>, connected: &Vec<Address>) -> (dial: Vec<Address>)
    ensures
        ({
            let worth_it = not_connected(known@, connected@);
            dial@ == if worth_it.len() <= REACH_FOR_ARCHIVISTS {
                worth_it
            } else {
                worth_it.take(REACH_FOR_ARCHIVISTS as int)
            }
        }),
{
    let mut dial: Vec<Address> = Vec::new();
    let mut at: usize = 0;
    while at < known.len() && dial.len() < REACH_FOR_ARCHIVISTS
        invariant
            at <= known@.len(),
            dial@.len() <= REACH_FOR_ARCHIVISTS,
            dial@ == not_connected(known@.take(at as int), connected@),
        decreases known.len() - at,
    {
        assert(known@.take(at + 1).drop_last() =~= known@.take(at as int));
        assert(known@.take(at + 1).last() == known@[at as int]);
        if !is_among(connected, known[at]) {
            dial.push(known[at]);
        }
        at = at + 1;
    }
    proof {
        a_longer_run_begins_the_same(known@, connected@, at as int);
        assert(known@.take(known@.len() as int) =~= known@);
    }
    dial
}

/// A question that has ended takes no answer from anybody.
pub proof fn an_ended_question_takes_no_answer(from: PeerId, placed: Seq<Placed>)
    ensures
        !AskingView::nothing().asked.contains(from),
        AskingView::nothing().checkable(placed) == Seq::<(u64, Hash32, Path)>::empty(),
    decreases placed.len(),
{
    if placed.len() > 0 {
        an_ended_question_takes_no_answer(from, placed.drop_last());
    }
}

/// Everything found is about a place that was asked about, and goes on being
/// so whatever an answer holds.
pub proof fn only_what_was_asked_about_is_found(
    asking: AskingView,
    placed: Seq<Placed>,
    folded: Seq<(u64, Path, bool)>,
)
    requires
        asking.found.dom().subset_of(asking.wanted.dom()),
        folded.len() == asking.checkable(placed).len(),
        forall|i: int|
            0 <= i < folded.len() ==> (#[trigger] folded[i]).0 == asking.checkable(placed)[i].0,
    ensures
        asking.folded(folded).found.dom().subset_of(asking.wanted.dom()),
        asking.folded(folded).wanted == asking.wanted,
{
    assert forall|i: int| 0 <= i < folded.len() implies asking.wanted.contains_key(
        (#[trigger] folded[i]).0,
    ) by {
        every_checked_place_was_asked_about(asking, placed, i);
    }
    filing_keeps_to_what_was_asked(asking, folded);
}

proof fn every_checked_place_was_asked_about(asking: AskingView, placed: Seq<Placed>, i: int)
    requires
        0 <= i < asking.checkable(placed).len(),
    ensures
        asking.wanted.contains_key(asking.checkable(placed)[i].0),
    decreases placed.len(),
{
    let before = asking.checkable(placed.drop_last());
    if i < before.len() {
        every_checked_place_was_asked_about(asking, placed.drop_last(), i);
    }
}

proof fn filing_keeps_to_what_was_asked(asking: AskingView, folded: Seq<(u64, Path, bool)>)
    requires
        asking.found.dom().subset_of(asking.wanted.dom()),
        forall|i: int|
            0 <= i < folded.len() ==> asking.wanted.contains_key((#[trigger] folded[i]).0),
    ensures
        asking.folded(folded).found.dom().subset_of(asking.wanted.dom()),
        asking.folded(folded).wanted == asking.wanted,
    decreases folded.len(),
{
    if folded.len() > 0 {
        let earlier = folded.drop_last();
        assert forall|i: int| 0 <= i < earlier.len() implies asking.wanted.contains_key(
            (#[trigger] earlier[i]).0,
        ) by {
            assert(earlier[i] == folded[i]);
        }
        filing_keeps_to_what_was_asked(asking, earlier);
        assert(asking.wanted.contains_key(folded[folded.len() - 1].0));
    }
}

/// While there is time left, while a place asked about has no path, and while a
/// connection that was asked has said nothing, a question goes on: nothing is
/// reported and nothing of it is changed.
pub proof fn a_question_goes_on_while_an_answer_may_come(
    asking: &mut Asking,
    archivists: usize,
    done: Option<Recovered>,
    place: u64,
    peer: PeerId,
)
    requires
        call_ensures(Asking::over, (asking, archivists, false), done),
        old(asking)@.found.dom().subset_of(old(asking)@.wanted.dom()),
        old(asking)@.answered.subset_of(old(asking)@.asked),
        old(asking)@.wanted.contains_key(place),
        !old(asking)@.found.contains_key(place),
        old(asking)@.asked.finite(),
        old(asking)@.asked.contains(peer),
        !old(asking)@.answered.contains(peer),
    ensures
        done is None,
        *final(asking) == *old(asking),
{
    let before = old(asking)@;
    assert(old(asking).wanted@.dom().finite());
    let places = before.wanted.dom().remove(place);
    assert(before.found.dom().subset_of(places));
    vstd::set_lib::lemma_len_subset(before.found.dom(), places);
    let peers = before.asked.remove(peer);
    assert(before.answered.subset_of(peers));
    vstd::set_lib::lemma_len_subset(before.answered, peers);
}

/// A question that has been put to nobody goes on while there is time left and
/// a place asked about has no path: there may yet be somebody to ask.
pub proof fn a_question_put_to_nobody_goes_on(
    asking: &mut Asking,
    archivists: usize,
    done: Option<Recovered>,
    place: u64,
)
    requires
        call_ensures(Asking::over, (asking, archivists, false), done),
        old(asking)@.found.dom().subset_of(old(asking)@.wanted.dom()),
        old(asking)@.wanted.contains_key(place),
        !old(asking)@.found.contains_key(place),
        old(asking)@.asked == Set::<PeerId>::empty(),
    ensures
        done is None,
        *final(asking) == *old(asking),
{
    let before = old(asking)@;
    assert(old(asking).wanted@.dom().finite());
    let places = before.wanted.dom().remove(place);
    assert(before.found.dom().subset_of(places));
    vstd::set_lib::lemma_len_subset(before.found.dom(), places);
}

/// A question ends when its time is up, when every place asked about has a
/// path, or when everybody asked has answered. What is reported is what it came
/// to, and nothing of it is left behind.
pub proof fn a_question_ends_for_one_of_three_things(
    asking: &mut Asking,
    archivists: usize,
    out_of_time: bool,
    done: Option<Recovered>,
    place: u64,
    peer: PeerId,
)
    requires
        call_ensures(Asking::over, (asking, archivists, out_of_time), done),
        old(asking)@.answered.finite(),
        ({
            ||| out_of_time
            ||| old(asking)@.wanted.contains_key(place) && old(asking)@.wanted.dom().subset_of(
                old(asking)@.found.dom(),
            )
            ||| old(asking)@.asked.contains(peer) && old(asking)@.asked.subset_of(
                old(asking)@.answered,
            )
        }),
    ensures
        done is Some,
        done matches Some(done) ==> {
            &&& done.asked == old(asking)@.asked.len()
            &&& done.archivists == archivists
            &&& done.answered == old(asking)@.answered.len()
            &&& done.proofs@ == old(asking)@.found
            &&& done.refused == old(asking)@.refused
        },
        final(asking)@.wanted == Map::<u64, Hash32>::empty(),
        final(asking)@.asked == Set::<PeerId>::empty(),
        final(asking)@.answered == Set::<PeerId>::empty(),
        final(asking)@.found == Map::<u64, Path>::empty(),
        final(asking)@.refused == 0,
{
    let before = old(asking)@;
    assert(old(asking).wanted@.dom().finite());
    assert(old(asking).found@.dom().finite());
    if before.wanted.contains_key(place) && before.wanted.dom().subset_of(before.found.dom()) {
        vstd::set_lib::lemma_len_subset(before.wanted.dom(), before.found.dom());
        vstd::set_lib::lemma_len_subset(set![place], before.wanted.dom());
    }
    if before.asked.contains(peer) && before.asked.subset_of(before.answered) {
        vstd::set_lib::lemma_len_subset(before.asked, before.answered);
        vstd::set_lib::lemma_len_subset(set![peer], before.asked);
    }
}

/// A question is satisfied exactly when every place asked about has a path,
/// given that there is a place asked about and that nothing else has one.
pub proof fn a_question_is_satisfied_by_a_path_to_every_place(asking: &Asking, satisfied: bool)
    requires
        call_ensures(Asking::satisfied, (asking,), satisfied),
        asking@.found.dom().subset_of(asking@.wanted.dom()),
    ensures
        satisfied <==> (exists|place: u64| #[trigger] asking@.wanted.contains_key(place)) && (
        forall|place: u64| #[trigger]
            asking@.wanted.contains_key(place) ==> asking@.found.contains_key(place)),
{
    let wanted = asking@.wanted.dom();
    let found = asking@.found.dom();
    assert(asking.wanted@.dom().finite());
    assert(asking.found@.dom().finite());
    vstd::set_lib::lemma_len_subset(found, wanted);
    if wanted.len() > 0 {
        let place = wanted.choose();
        assert(wanted.contains(place)) by {
            if wanted =~= Set::empty() {
            }
        }
        assert(asking@.wanted.contains_key(place));
    }
    if exists|place: u64| #[trigger] asking@.wanted.contains_key(place) {
        let place = choose|place: u64| #[trigger] asking@.wanted.contains_key(place);
        vstd::set_lib::lemma_len_subset(set![place], wanted);
    }
    if forall|place: u64| #[trigger]
        asking@.wanted.contains_key(place) ==> asking@.found.contains_key(place) {
        assert(wanted.subset_of(found)) by {
            assert forall|place: u64| wanted.contains(place) implies found.contains(place) by {
                assert(asking@.wanted.contains_key(place));
            }
        }
        vstd::set_lib::lemma_len_subset(wanted, found);
    }
    if satisfied {
        assert forall|place: u64| #[trigger]
            asking@.wanted.contains_key(place) implies asking@.found.contains_key(place) by {
            if !asking@.found.contains_key(place) {
                let others = wanted.remove(place);
                assert(found.subset_of(others));
                vstd::set_lib::lemma_len_subset(found, others);
            }
        }
    }
}

proof fn the_last_word_on_a_place_stands(wanted: Seq<(u64, Hash32)>)
    ensures
        forall|place: u64| #[trigger]
            places(wanted).contains_key(place) ==> exists|i: int|
                0 <= i < wanted.len() && (#[trigger] wanted[i]).0 == place,
        forall|i: int|
            0 <= i < wanted.len() ==> places(wanted).contains_key((#[trigger] wanted[i]).0),
        forall|i: int|
            #![trigger wanted[i]]
            0 <= i < wanted.len() && (forall|j: int|
                i < j < wanted.len() ==> (#[trigger] wanted[j]).0 != wanted[i].0)
                ==> places(wanted)[wanted[i].0] == wanted[i].1,
    decreases wanted.len(),
{
    if wanted.len() > 0 {
        let fewer = wanted.drop_last();
        the_last_word_on_a_place_stands(fewer);
        assert forall|place: u64| #[trigger] places(wanted).contains_key(place) implies exists|i: int|
            0 <= i < wanted.len() && (#[trigger] wanted[i]).0 == place by {
            if place == wanted.last().0 {
                assert(wanted[wanted.len() - 1].0 == place);
            } else {
                assert(places(fewer).contains_key(place));
                let i = choose|i: int| 0 <= i < fewer.len() && (#[trigger] fewer[i]).0 == place;
                assert(wanted[i].0 == place);
            }
        }
        assert forall|i: int| 0 <= i < wanted.len() implies places(wanted).contains_key(
            (#[trigger] wanted[i]).0,
        ) by {
            if i < fewer.len() {
                assert(fewer[i] == wanted[i]);
            }
        }
        assert forall|i: int|
            #![trigger wanted[i]]
            0 <= i < wanted.len() && (forall|j: int|
                i < j < wanted.len() ==> (#[trigger] wanted[j]).0 != wanted[i].0) implies places(
            wanted,
        )[wanted[i].0] == wanted[i].1 by {
            if i < fewer.len() {
                assert(fewer[i] == wanted[i]);
                assert(wanted[wanted.len() - 1].0 != wanted[i].0);
                assert forall|j: int| i < j < fewer.len() implies (#[trigger] fewer[j]).0
                    != fewer[i].0 by {
                    assert(wanted[j].0 != wanted[i].0);
                }
            }
        }
    }
}

/// A question is about the first sixty-four places named and no others. The
/// last leaf named for a place is the one its path has to fold to, the places
/// go out in order and each once, and nobody has been asked.
pub proof fn a_question_is_about_what_was_named(
    wanted: &Vec<(u64, Hash32)>,
    question: (Asking, Vec<u64>),
)
    requires
        call_ensures(Asking::about, (wanted,), question),
    ensures
        forall|i: int|
            0 <= i < wanted@.len() && i < 64 ==> question.0@.wanted.contains_key(
                (#[trigger] wanted@[i]).0,
            ),
        forall|place: u64| #[trigger]
            question.0@.wanted.contains_key(place) ==> exists|i: int|
                0 <= i < wanted@.len() && i < 64 && (#[trigger] wanted@[i]).0 == place,
        forall|i: int|
            #![trigger wanted@[i]]
            0 <= i < wanted@.len() && i < 64 && (forall|j: int|
                i < j < wanted@.len() && j < 64 ==> (#[trigger] wanted@[j]).0 != wanted@[i].0)
                ==> question.0@.wanted[wanted@[i].0] == wanted@[i].1,
        forall|i: int, j: int|
            0 <= i < j < question.1@.len() ==> question.1@[i] < question.1@[j],
        forall|place: u64| #[trigger]
            question.0@.wanted.contains_key(place) <==> question.1@.contains(place),
        question.0@.asked == Set::<PeerId>::empty(),
        question.0@.answered == Set::<PeerId>::empty(),
        question.0@.found == Map::<u64, Path>::empty(),
        question.0@.refused == 0,
{
    let some = what_fits(wanted@);
    the_last_word_on_a_place_stands(some);
    assert forall|i: int| 0 <= i < wanted@.len() && i < 64 implies question.0@.wanted.contains_key(
        (#[trigger] wanted@[i]).0,
    ) by {
        assert(some[i] == wanted@[i]);
    }
    assert forall|place: u64| #[trigger] question.0@.wanted.contains_key(place) implies exists|i: int|
        0 <= i < wanted@.len() && i < 64 && (#[trigger] wanted@[i]).0 == place by {
        let i = choose|i: int| 0 <= i < some.len() && (#[trigger] some[i]).0 == place;
        assert(wanted@[i].0 == place);
    }
    assert forall|i: int|
        #![trigger wanted@[i]]
        0 <= i < wanted@.len() && i < 64 && (forall|j: int|
            i < j < wanted@.len() && j < 64 ==> (#[trigger] wanted@[j]).0 != wanted@[i].0) implies
        question.0@.wanted[wanted@[i].0] == wanted@[i].1 by {
        assert(some[i] == wanted@[i]);
        assert forall|j: int| i < j < some.len() implies (#[trigger] some[j]).0 != some[i].0 by {
            assert(wanted@[j].0 != wanted@[i].0);
        }
    }
}

proof fn the_fresh_are_those_not_asked(peers: Seq<PeerId>, asked: Set<PeerId>)
    ensures
        forall|peer: PeerId| #[trigger]
            fresh_of(peers, asked).contains(peer) <==> peers.contains(peer) && !asked.contains(peer),
        fresh_of(peers, asked).no_duplicates(),
    decreases peers.len(),
{
    if peers.len() > 0 {
        let fewer = peers.drop_last();
        let before = fresh_of(fewer, asked);
        the_fresh_are_those_not_asked(fewer, asked);
        assert forall|peer: PeerId| #[trigger]
            fresh_of(peers, asked).contains(peer) <==> peers.contains(peer) && !asked.contains(
            peer,
        ) by {
            let fresh = fresh_of(peers, asked);
            if peers.contains(peer) {
                let i = choose|i: int| 0 <= i < peers.len() && peers[i] == peer;
                if i < fewer.len() {
                    assert(fewer[i] == peer);
                }
            }
            if fewer.contains(peer) {
                let i = choose|i: int| 0 <= i < fewer.len() && fewer[i] == peer;
                assert(peers[i] == peer);
            }
            if before.contains(peer) {
                let i = choose|i: int| 0 <= i < before.len() && before[i] == peer;
                assert(fresh[i] == peer);
            }
            if fresh.contains(peer) && !before.contains(peer) {
                let i = choose|i: int| 0 <= i < fresh.len() && fresh[i] == peer;
                assert(i == before.len()) by {
                    if i < before.len() {
                        assert(before[i] == peer);
                    }
                }
                assert(peers[peers.len() - 1] == peer);
            }
            if peer == peers.last() && !asked.contains(peer) && !fewer.contains(peer) {
                assert(fresh[before.len() as int] == peer);
            }
        }
        if !asked.contains(peers.last()) && !fewer.contains(peers.last()) {
            assert(!before.contains(peers.last()));
        }
    }
}

/// A connection is asked once: those put forward that have not been asked come
/// back, each once and nobody else, and from then on they have been.
pub proof fn a_connection_is_asked_once(
    asking: &mut Asking,
    worth_asking: &Vec<PeerId>,
    fresh: Vec<PeerId>,
)
    requires
        call_ensures(Asking::fresh, (asking, worth_asking), fresh),
    ensures
        forall|peer: PeerId| #[trigger]
            fresh@.contains(peer) <==> worth_asking@.contains(peer) && !old(asking)@.asked.contains(
                peer,
            ),
        fresh@.no_duplicates(),
        forall|peer: PeerId| #[trigger]
            final(asking)@.asked.contains(peer) <==> old(asking)@.asked.contains(peer)
                || worth_asking@.contains(peer),
        final(asking)@.wanted == old(asking)@.wanted,
        final(asking)@.answered == old(asking)@.answered,
        final(asking)@.found == old(asking)@.found,
        final(asking)@.refused == old(asking)@.refused,
{
    the_fresh_are_those_not_asked(worth_asking@, old(asking)@.asked);
}

/// What of an answer is worth folding: the paths to places asked about, with
/// the leaf each has to fold to, in the order they came.
pub open spec fn paths_to_places_asked_about(
    wanted: Map<u64, Hash32>,
    placed: Seq<Placed>,
) -> Seq<(u64, Hash32, Path)> {
    placed.filter(
        |placed: Placed| wanted.contains_key(placed.position) && placed.proof is Some,
    ).map_values(
        |placed: Placed| (placed.position, wanted[placed.position], placed.proof->0),
    )
}

proof fn checkable_is_paths_to_places_asked_about(asking: AskingView, placed: Seq<Placed>)
    ensures
        asking.checkable(placed) == paths_to_places_asked_about(asking.wanted, placed),
    decreases placed.len(),
{
    reveal(Seq::filter);
    if placed.len() > 0 {
        checkable_is_paths_to_places_asked_about(asking, placed.drop_last());
    }
    assert(asking.checkable(placed) =~= paths_to_places_asked_about(asking.wanted, placed));
}

/// An answer from somebody asked counts as one, whatever is in it, and every
/// path in it to a place asked about is folded, in order. An answer from
/// anybody else is not looked at.
pub proof fn an_answer_is_looked_at_if_it_was_asked_for(
    asking: &mut Asking,
    from: PeerId,
    placed: Vec<Placed>,
    checking: Vec<(u64, Hash32, Path)>,
)
    requires
        call_ensures(Asking::checkable, (asking, from, placed), checking),
    ensures
        !old(asking)@.asked.contains(from) ==> checking@.len() == 0 && *final(asking) == *old(asking),
        old(asking)@.asked.contains(from) ==> {
            &&& checking@ == paths_to_places_asked_about(old(asking)@.wanted, placed@)
            &&& forall|peer: PeerId| #[trigger]
                final(asking)@.answered.contains(peer) <==> old(asking)@.answered.contains(peer)
                    || peer == from
            &&& final(asking)@.wanted == old(asking)@.wanted
            &&& final(asking)@.asked == old(asking)@.asked
            &&& final(asking)@.found == old(asking)@.found
            &&& final(asking)@.refused == old(asking)@.refused
        },
{
    checkable_is_paths_to_places_asked_about(old(asking)@, placed@);
}

/// How many of a run of folded paths did not reach the commitment.
pub open spec fn that_did_not_hold(folded: Seq<(u64, Path, bool)>) -> nat {
    folded.filter(|one: (u64, Path, bool)| !one.2).len()
}

proof fn folding_keeps_what_holds(asking: AskingView, folded: Seq<(u64, Path, bool)>)
    ensures
        asking.folded(folded).wanted == asking.wanted,
        asking.folded(folded).asked == asking.asked,
        asking.folded(folded).answered == asking.answered,
        asking.folded(folded).refused == if asking.refused + that_did_not_hold(folded)
            > usize::MAX {
            usize::MAX as int
        } else {
            asking.refused + that_did_not_hold(folded)
        },
        forall|i: int|
            0 <= i < folded.len() && (#[trigger] folded[i]).2 ==> asking.folded(
                folded,
            ).found.contains_key(folded[i].0),
        forall|place: u64| #[trigger]
            asking.folded(folded).found.contains_key(place) ==> ({
                ||| asking.found.contains_key(place) && asking.folded(folded).found[place]
                    == asking.found[place]
                ||| exists|i: int|
                    0 <= i < folded.len() && (#[trigger] folded[i]).2 && folded[i].0 == place
                        && folded[i].1 == asking.folded(folded).found[place]
            }),
        forall|place: u64| #[trigger]
            asking.found.contains_key(place) ==> asking.folded(folded).found.contains_key(place),
    decreases folded.len(),
{
    reveal(Seq::filter);
    if folded.len() > 0 {
        let fewer = folded.drop_last();
        folding_keeps_what_holds(asking, fewer);
        let before = asking.folded(fewer).found;
        let after = asking.folded(folded).found;
        assert forall|i: int| 0 <= i < folded.len() && (#[trigger] folded[i]).2 implies
            after.contains_key(folded[i].0) by {
            if i < fewer.len() {
                assert(fewer[i] == folded[i]);
            }
        }
        assert forall|place: u64| #[trigger] after.contains_key(place) implies ({
            ||| asking.found.contains_key(place) && after[place] == asking.found[place]
            ||| exists|i: int|
                0 <= i < folded.len() && (#[trigger] folded[i]).2 && folded[i].0 == place
                    && folded[i].1 == after[place]
        }) by {
            let last = folded.last();
            if last.2 && last.0 == place {
                assert(folded[folded.len() - 1].2);
            } else {
                assert(before.contains_key(place));
                if !(asking.found.contains_key(place) && before[place] == asking.found[place]) {
                    let i = choose|i: int|
                        0 <= i < fewer.len() && (#[trigger] fewer[i]).2 && fewer[i].0 == place
                            && fewer[i].1 == before[place];
                    assert(folded[i].2);
                }
            }
        }
    }
}

/// A path that reached the commitment is kept, and one that did not is counted
/// and not used: a place has a path when it had one or one of these holds for
/// it, and the path it has is one that held. Nothing else of the question is
/// touched.
pub proof fn only_a_path_that_holds_is_used(asking: &mut Asking, folded: Vec<(u64, Path, bool)>)
    requires
        call_ensures(Asking::fold, (asking, folded), ()),
    ensures
        forall|i: int|
            0 <= i < folded@.len() && (#[trigger] folded@[i]).2 ==> final(asking)@.found.contains_key(folded@[i].0),
        forall|place: u64| #[trigger]
            old(asking)@.found.contains_key(place) ==> final(asking)@.found.contains_key(place),
        forall|place: u64| #[trigger]
            final(asking)@.found.contains_key(place) ==> ({
                ||| old(asking)@.found.contains_key(place) && final(asking)@.found[place] == old(asking)@.found[place]
                ||| exists|i: int|
                    0 <= i < folded@.len() && (#[trigger] folded@[i]).2 && folded@[i].0 == place
                        && folded@[i].1 == final(asking)@.found[place]
            }),
        old(asking)@.refused + that_did_not_hold(folded@) <= usize::MAX ==> final(asking)@.refused
            == old(asking)@.refused + that_did_not_hold(folded@),
        old(asking)@.refused + that_did_not_hold(folded@) > usize::MAX ==> final(asking)@.refused
            == usize::MAX,
        final(asking)@.wanted == old(asking)@.wanted,
        final(asking)@.asked == old(asking)@.asked,
        final(asking)@.answered == old(asking)@.answered,
{
    folding_keeps_what_holds(old(asking)@, folded@);
}

/// A place is found only by a path that was checked, against the leaf the
/// question names for it, and held; and every such path for which the check
/// never fails is found. Whoever was not asked moves nothing.
pub proof fn a_place_is_found_by_a_path_checked_against_its_own_leaf<
    V: Fn(u64, Hash32, &Path) -> bool,
>(asking: &mut Asking, from: PeerId, placed: Vec<Placed>, verify: V)
    requires
        call_ensures(take_placed::<V>, (asking, from, placed, verify), ()),
    ensures
        !old(asking)@.asked.contains(from) ==> *final(asking) == *old(asking),
        forall|place: u64| #[trigger]
            final(asking)@.found.contains_key(place) ==> ({
                ||| old(asking)@.found.contains_key(place) && final(asking)@.found[place] == old(asking)@.found[place]
                ||| old(asking)@.wanted.contains_key(place) && call_ensures(
                    verify,
                    (place, old(asking)@.wanted[place], &final(asking)@.found[place]),
                    true,
                )
            }),
        old(asking)@.asked.contains(from) ==> final(asking)@.answered == old(asking)@.answered.insert(from),
        old(asking)@.asked.contains(from) ==> forall|i: int|
            #![trigger placed@[i]]
            0 <= i < placed@.len() && old(asking)@.wanted.contains_key(placed@[i].position)
                && placed@[i].proof is Some && (forall|holds: bool| #[trigger]
                call_ensures(
                    verify,
                    (
                        placed@[i].position,
                        old(asking)@.wanted[placed@[i].position],
                        &placed@[i].proof->0,
                    ),
                    holds,
                ) ==> holds) ==> final(asking)@.found.contains_key(placed@[i].position),
        final(asking)@.wanted == old(asking)@.wanted,
        final(asking)@.asked == old(asking)@.asked,
{
    let before = old(asking)@;
    if before.asked.contains(from) {
        let checking = before.checkable(placed@);
        let answered = AskingView { answered: before.answered.insert(from), ..before };
        let folded = choose|folded: Seq<(u64, Path, bool)>| #[trigger]
            folds(verify, checking, folded) && final(asking)@ == answered.folded(folded);
        folding_keeps_what_holds(answered, folded);
        each_checkable_was_placed(before, placed@);
        assert forall|place: u64| #[trigger] final(asking)@.found.contains_key(place) implies ({
            ||| before.found.contains_key(place) && final(asking)@.found[place]
                == before.found[place]
            ||| before.wanted.contains_key(place) && call_ensures(
                verify,
                (place, before.wanted[place], &final(asking)@.found[place]),
                true,
            )
        }) by {
            if !(before.found.contains_key(place) && final(asking)@.found[place]
                == before.found[place]) {
                let i = choose|i: int|
                    0 <= i < folded.len() && (#[trigger] folded[i]).2 && folded[i].0 == place
                        && folded[i].1 == final(asking)@.found[place];
                assert(folded[i].2);
                assert(before.wanted.contains_key(checking[i].0));
            }
        }
        assert forall|i: int|
            #![trigger placed@[i]]
            0 <= i < placed@.len() && before.wanted.contains_key(placed@[i].position)
                && placed@[i].proof is Some && (forall|holds: bool| #[trigger]
                call_ensures(
                    verify,
                    (
                        placed@[i].position,
                        before.wanted[placed@[i].position],
                        &placed@[i].proof->0,
                    ),
                    holds,
                ) ==> holds) implies final(asking)@.found.contains_key(placed@[i].position) by {
            let one = (
                placed@[i].position,
                before.wanted[placed@[i].position],
                placed@[i].proof->0,
            );
            assert(checking.contains(one));
            let k = choose|k: int| 0 <= k < checking.len() && checking[k] == one;
            assert(folded[k].2);
        }
    }
}

proof fn each_checkable_was_placed(asking: AskingView, placed: Seq<Placed>)
    ensures
        forall|k: int|
            0 <= k < asking.checkable(placed).len() ==> {
                let one = #[trigger] asking.checkable(placed)[k];
                asking.wanted.contains_key(one.0) && one.1 == asking.wanted[one.0]
            },
        forall|i: int|
            #![trigger placed[i]]
            0 <= i < placed.len() && asking.wanted.contains_key(placed[i].position)
                && placed[i].proof is Some ==> asking.checkable(placed).contains(
                (placed[i].position, asking.wanted[placed[i].position], placed[i].proof->0),
            ),
    decreases placed.len(),
{
    if placed.len() > 0 {
        let fewer = placed.drop_last();
        each_checkable_was_placed(asking, fewer);
        let before = asking.checkable(fewer);
        let after = asking.checkable(placed);
        assert forall|k: int| 0 <= k < after.len() implies {
            let one = #[trigger] after[k];
            asking.wanted.contains_key(one.0) && one.1 == asking.wanted[one.0]
        } by {
            if k < before.len() {
                assert(after[k] == before[k]);
            }
        }
        assert forall|i: int|
            #![trigger placed[i]]
            0 <= i < placed.len() && asking.wanted.contains_key(placed[i].position)
                && placed[i].proof is Some implies after.contains(
            (placed[i].position, asking.wanted[placed[i].position], placed[i].proof->0),
        ) by {
            let one = (placed[i].position, asking.wanted[placed[i].position], placed[i].proof->0);
            if i < fewer.len() {
                assert(fewer[i] == placed[i]);
                let k = choose|k: int| 0 <= k < before.len() && before[k] == one;
                assert(after[k] == one);
            } else {
                assert(after[before.len() as int] == one);
            }
        }
    }
}

/// Every place asked about is answered for, in the order asked, each with what
/// this node has for that place.
pub proof fn every_place_is_answered_for<P: Fn(u64) -> Option<Path>>(
    positions: &Vec<u64>,
    proof_of: P,
    placed: Vec<Placed>,
)
    requires
        call_ensures(place::<P>, (positions, proof_of), placed),
    ensures
        placed@.map_values(|one: Placed| one.position) == positions@,
        forall|i: int|
            0 <= i < placed@.len() ==> call_ensures(
                proof_of,
                (positions@[i],),
                (#[trigger] placed@[i]).proof,
            ),
{
    assert(placed@.map_values(|one: Placed| one.position) =~= positions@);
}

/// Whoever keeps the cold set among a run of peers, in order.
pub open spec fn that_archive(peers: Seq<(PeerId, bool)>) -> Seq<PeerId> {
    peers.filter(|peer: (PeerId, bool)| peer.1).map_values(|peer: (PeerId, bool)| peer.0)
}

proof fn archivists_are_those_that_archive(peers: Seq<(PeerId, bool)>)
    ensures
        archivists(peers) == that_archive(peers),
    decreases peers.len(),
{
    reveal(Seq::filter);
    if peers.len() > 0 {
        archivists_are_those_that_archive(peers.drop_last());
    }
    assert(archivists(peers) =~= that_archive(peers));
}

proof fn nobody_archives(peers: Seq<(PeerId, bool)>)
    requires
        forall|i: int| 0 <= i < peers.len() ==> !(#[trigger] peers[i]).1,
    ensures
        archivists(peers).len() == 0,
    decreases peers.len(),
{
    if peers.len() > 0 {
        assert(!peers[peers.len() - 1].1);
        assert forall|i: int| 0 <= i < peers.drop_last().len() implies !(
        #[trigger] peers.drop_last()[i]).1 by {
            assert(!peers[i].1);
        }
        nobody_archives(peers.drop_last());
    }
}

/// Archivists are asked where there are any, all of them and nobody else, and
/// everybody is where there are none.
pub proof fn archivists_are_asked_before_anybody(
    peers: &Vec<(PeerId, bool)>,
    asked: (Vec<PeerId>, usize),
)
    requires
        call_ensures(worth_asking, (peers,), asked),
    ensures
        asked.1 == that_archive(peers@).len(),
        (exists|i: int| 0 <= i < peers@.len() && (#[trigger] peers@[i]).1) ==> asked.1 > 0
            && asked.0@ == that_archive(peers@),
        (forall|i: int| 0 <= i < peers@.len() ==> !(#[trigger] peers@[i]).1) ==> asked.1 == 0
            && asked.0@.len() == peers@.len() && forall|i: int|
            0 <= i < peers@.len() ==> #[trigger] asked.0@[i] == peers@[i].0,
{
    archivists_are_those_that_archive(peers@);
    let kept = peers@.filter(|peer: (PeerId, bool)| peer.1);
    broadcast use vstd::seq_lib::group_filter_ensures;

    if exists|i: int| 0 <= i < peers@.len() && (#[trigger] peers@[i]).1 {
        let i = choose|i: int| 0 <= i < peers@.len() && (#[trigger] peers@[i]).1;
        assert(kept.contains(peers@[i]));
        assert(kept.len() > 0);
    }
    if forall|i: int| 0 <= i < peers@.len() ==> !(#[trigger] peers@[i]).1 {
        nobody_archives(peers@);
    }
}

/// Those known of whom no connection goes to, in order.
pub open spec fn known_but_not_connected(known: Seq<Address>, connected: Seq<Address>) -> Seq<
    Address,
> {
    known.filter(|address: Address| !connected.contains(address))
}

proof fn not_connected_is_known_but_not_connected(known: Seq<Address>, connected: Seq<Address>)
    ensures
        not_connected(known, connected) == known_but_not_connected(known, connected),
    decreases known.len(),
{
    reveal(Seq::filter);
    if known.len() > 0 {
        not_connected_is_known_but_not_connected(known.drop_last(), connected);
    }
}

/// At most four are dialled in search of an archivist: the first of those known
/// that no connection goes to, as many as there are up to that.
pub proof fn the_first_few_not_connected_are_dialled(
    known: &Vec<Address>,
    connected: &Vec<Address>,
    dial: Vec<Address>,
)
    requires
        call_ensures(reach_for_an_archivist, (known, connected), dial),
    ensures
        ({
            let worth_it = known_but_not_connected(known@, connected@);
            &&& dial@.len() == if worth_it.len() < 4 {
                worth_it.len()
            } else {
                4
            }
            &&& forall|i: int| 0 <= i < dial@.len() ==> #[trigger] dial@[i] == worth_it[i]
        }),
{
    not_connected_is_known_but_not_connected(known@, connected@);
}

/// A question finished is accounted for as it stood, and nothing of it is left.
pub proof fn a_question_finished_is_accounted_for(
    asking: &mut Asking,
    archivists: usize,
    done: Recovered,
)
    requires
        call_ensures(finished, (asking, archivists), done),
    ensures
        done.asked == old(asking)@.asked.len(),
        done.answered == old(asking)@.answered.len(),
        done.archivists == archivists,
        done.proofs@ == old(asking)@.found,
        done.refused == old(asking)@.refused,
        final(asking)@.wanted == Map::<u64, Hash32>::empty(),
        final(asking)@.asked == Set::<PeerId>::empty(),
        final(asking)@.answered == Set::<PeerId>::empty(),
        final(asking)@.found == Map::<u64, Path>::empty(),
        final(asking)@.refused == 0,
{
}

} // verus!
