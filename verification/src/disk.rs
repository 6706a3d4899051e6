//! What a node's own disk would not take, and what it would not give back.
//!
//! A node whose disk has stopped taking writes goes on doing everything else,
//! and every line it prints is the line a healthy node prints. So a write the
//! disk refuses and a read it refuses are each written down in the disk's own
//! words, and the node stops itself before the gap between its chain and its
//! disk is one nothing can close.

use vstd::prelude::*;
use vstd::string::*;

use crate::network::{Hash32, Located};

verus! {

/// Bytes of blocks a node keeps on disk before it writes its ledger down and
/// drops what is below it.
pub const KEEP_BLOCK_BYTES: u64 = 1_000_000_000;

/// Blocks behind its tip a chain keeps the bodies of, whatever has reached the
/// disk.
pub const MAX_REORG_DEPTH: u64 = 1_024;

/// Blocks the chain may run ahead of the block log before the node stops.
///
/// A quarter of the window bodies are kept over: bringing a log level means
/// reading bodies back out of memory, so a log further behind than that window
/// can never be brought level, and an operator needs room to act in first.
pub const MAX_BEHIND: u64 = 256;

/// What a node was putting on its disk when the disk would not take it.
#[derive(Clone, Copy, Debug, PartialEq, Eq, Structural)]
pub enum Writing {
    /// The blocks it has accepted. The one that costs the chain.
    Blocks,
    /// The headers, and the forest of them a node proves things against.
    Headers,
    /// The ledger a node writes down so its next start does not begin at the
    /// first block, and the blocks below it that writing one lets go.
    Ledger,
}

impl Writing {
    /// What each costs to lose, highest first.
    pub open spec fn cost(self) -> u8 {
        match self {
            Writing::Blocks => 2,
            Writing::Headers => 1,
            Writing::Ledger => 0,
        }
    }

    /// Which of two refusals is the one worth saying, highest first.
    ///
    /// On a disk with nothing left the ledger fails once a second; without an
    /// order between them, that would replace the account of the blocks that
    /// are not reaching the disk at all.
    pub fn costs(self) -> (cost: u8)
        ensures
            cost == self.cost(),
    {
        match self {
            Writing::Blocks => 2,
            Writing::Headers => 1,
            Writing::Ledger => 0,
        }
    }

    pub open spec fn words(self) -> Seq<char> {
        match self {
            Writing::Blocks => "the blocks it has accepted"@,
            Writing::Headers => "the headers it shows the chain with"@,
            Writing::Ledger => "the ledger it starts from"@,
        }
    }

    pub fn to_string(&self) -> (said: String)
        ensures
            said@ == self.words(),
    {
        match self {
            Writing::Blocks => String::from_str("the blocks it has accepted"),
            Writing::Headers => String::from_str("the headers it shows the chain with"),
            Writing::Ledger => String::from_str("the ledger it starts from"),
        }
    }
}

/// What this node was reading back off its own disk when the disk refused it.
#[derive(Clone, Copy, Debug, PartialEq, Eq, Structural)]
pub enum Reading {
    /// A block.
    Blocks,
    /// A header, or the forest built over them.
    Headers,
}

impl Reading {
    pub open spec fn words(self) -> Seq<char> {
        match self {
            Reading::Blocks => "a block it had accepted"@,
            Reading::Headers => "a header it shows the chain with"@,
        }
    }

    pub fn to_string(&self) -> (said: String)
        ensures
            said@ == self.words(),
    {
        match self {
            Reading::Blocks => String::from_str("a block it had accepted"),
            Reading::Headers => String::from_str("a header it shows the chain with"),
        }
    }
}

/// A write the disk would not take, in the words the store used.
#[derive(Debug)]
pub struct Refusing {
    pub what: Writing,
    pub because: String,
}

impl Refusing {
    pub fn at(what: Writing, because: &str) -> (refusing: Refusing)
        ensures
            refusing.what == what,
            refusing.because@ == because@,
    {
        Refusing { what, because: because.to_owned() }
    }
}

/// What this node has taken on and not managed to put on its disk.
#[derive(Debug)]
pub struct Unwritten {
    /// What this node was writing when the disk last refused it.
    pub what: Writing,
    /// What the disk said, in its own words.
    pub because: String,
    /// The height the chain had reached the last time this was looked at.
    pub reached: u64,
    /// The highest block that is on the disk, or `None` for a log holding
    /// nothing at all.
    pub written_through: Option<u64>,
    /// Blocks accepted and not written, which is what a restart costs.
    pub blocks: u64,
    /// Whether those blocks could still reach the disk if the room came back.
    pub within_reach: bool,
}

/// A record this node holds, was asked for, and could not read back.
#[derive(Debug)]
pub struct Unread {
    /// What was being read when the disk last refused.
    pub what: Reading,
    /// The height of that record.
    pub height: u64,
    /// What the store said, in its own words.
    pub because: String,
    /// How many reads have been refused since this node started.
    pub refusals: u64,
}

/// One refusal met before the node exists to be told about it.
pub fn stopped_at(what: Reading, height: u64, because: &str) -> (unread: Unread)
    ensures
        unread.what == what,
        unread.height == height,
        unread.because@ == because@,
        unread.refusals == 1,
{
    Unread { what, height, because: because.to_owned(), refusals: 1 }
}

/// Writes down one read of this node's own disk that the disk refused.
///
/// The count does not go down and is not cleared by a read that worked: a
/// later read that succeeded was a different question.
pub fn could_not_read(held: &mut Option<Unread>, what: Reading, height: u64, because: &str)
    ensures
        match *final(held) {
            Some(unread) => unread.what == what && unread.height == height && unread.because@
                == because@ && unread.refusals == match *old(held) {
                Some(before) => before.refusals.saturating_add(1),
                None => 1,
            },
            None => false,
        },
{
    let refusals: u64 = match held.as_ref() {
        Some(before) => before.refusals,
        None => 0,
    };
    *held = Some(
        Unread { what, height, because: because.to_owned(), refusals: refusals.saturating_add(1) },
    );
}

/// Which of a fresh refusal and a standing one is said, as `true` for the
/// fresh one: the costlier of the two, and between two of one cost what the
/// disk says now.
pub open spec fn fresh_is_said(fresh: Writing, standing: Writing) -> bool {
    fresh.cost() >= standing.cost()
}

/// Which refusal a report of unwritten blocks carries, given the one a pass
/// just met and the one already standing.
pub fn the_refusal_to_say(fresh: Option<&Refusing>, standing: Option<&Unwritten>) -> (said: Option<
    (Writing, String),
>)
    ensures
        said is Some <==> fresh is Some || standing is Some,
        match (fresh, standing, said) {
            (Some(fresh), Some(standing), Some(said)) => if fresh_is_said(fresh.what, standing.what) {
                said.0 == fresh.what && said.1@ == fresh.because@
            } else {
                said.0 == standing.what && said.1@ == standing.because@
            },
            (Some(fresh), None, Some(said)) => said.0 == fresh.what && said.1@ == fresh.because@,
            (None, Some(standing), Some(said)) => said.0 == standing.what && said.1@
                == standing.because@,
            _ => true,
        },
{
    match (fresh, standing) {
        (Some(fresh), Some(standing)) => {
            if standing.what.costs() > fresh.what.costs() {
                Some((standing.what, standing.because.clone()))
            } else {
                Some((fresh.what, fresh.because.clone()))
            }
        },
        (Some(fresh), None) => Some((fresh.what, fresh.because.clone())),
        (None, Some(standing)) => Some((standing.what, standing.because.clone())),
        (None, None) => None,
    }
}

/// What one pass at bringing the disk in line with the branch managed.
#[derive(Debug)]
pub struct Wrote {
    /// The height the block log now reaches, one past the highest block on
    /// the disk.
    pub reaches: u64,
    /// What stopped the pass, when something did.
    pub refusing: Option<Refusing>,
}

/// Blocks a chain at `reached` is ahead of a log reaching `reaches`.
pub open spec fn gap(reached: u64, reaches: u64) -> u64 {
    reached.saturating_add(1).saturating_sub(reaches)
}

/// Whether a pass at the disk leaves a gap that can no longer be made good.
pub open spec fn past_saving(held: Option<Unwritten>, wrote: &Wrote, reached: Option<u64>) -> bool {
    &&& reached matches Some(reached) && gap(reached, wrote.reaches) > MAX_BEHIND
    &&& wrote.refusing is Some || held is Some
    &&& !(held matches Some(held) && !held.within_reach)
}

/// Whether `after` is what a pass at the disk leaves of the account of it.
pub open spec fn comes_of_writing(
    held: Option<Unwritten>,
    wrote: &Wrote,
    reached: Option<u64>,
    after: Option<Unwritten>,
) -> bool {
    match (reached, held) {
        (None, _) => after == held,
        (_, Some(before)) if !before.within_reach => after == held,
        (Some(reached), before) => {
            let behind = gap(reached, wrote.reaches);
            if behind == 0 && wrote.refusing is None {
                after is None
            } else if wrote.refusing is None && before is None {
                after is None
            } else {
                &&& after is Some
                &&& {
                    let said = after->0;
                    &&& said.reached == reached
                    &&& said.blocks == behind
                    &&& said.within_reach == (behind <= MAX_BEHIND)
                    &&& said.written_through == if wrote.reaches == 0 {
                        None
                    } else {
                        Some((wrote.reaches - 1) as u64)
                    }
                    &&& match (wrote.refusing, before) {
                        (Some(fresh), Some(standing)) => if fresh_is_said(
                            fresh.what,
                            standing.what,
                        ) {
                            said.what == fresh.what && said.because@ == fresh.because@
                        } else {
                            said.what == standing.what && said.because@ == standing.because@
                        },
                        (Some(fresh), None) => said.what == fresh.what && said.because@
                            == fresh.because@,
                        (None, Some(standing)) => said.what == standing.what && said.because@
                            == standing.because@,
                        (None, None) => false,
                    }
                }
            }
        },
    }
}

/// Writes down what the last pass at the disk left behind, and says whether
/// the node may carry on: not when what was left can no longer be made good.
///
/// A pass that wrote everything and refused nothing clears whatever was held,
/// so a disk that comes back says so by this going quiet. An account already
/// past saving is never replaced.
pub fn note_writing(held: &mut Option<Unwritten>, wrote: &Wrote, reached: Option<u64>) -> (carry_on:
    bool)
    ensures
        carry_on == !past_saving(*old(held), wrote, reached),
        comes_of_writing(*old(held), wrote, reached, *final(held)),
{
    let reached: u64 = match reached {
        Some(reached) => reached,
        None => {
            return true;
        },
    };
    let behind: u64 = reached.saturating_add(1).saturating_sub(wrote.reaches);
    match held.as_ref() {
        Some(before) => {
            if !before.within_reach {
                return true;
            }
        },
        None => {},
    }
    if behind == 0 && wrote.refusing.is_none() {
        *held = None;
        return true;
    }
    let (what, because) = match the_refusal_to_say(wrote.refusing.as_ref(), held.as_ref()) {
        Some(said) => said,
        None => {
            return true;
        },
    };
    let within_reach: bool = behind <= MAX_BEHIND;
    *held = Some(
        Unwritten {
            what,
            because,
            reached,
            written_through: wrote.reaches.checked_sub(1),
            blocks: behind,
            within_reach,
        },
    );
    within_reach
}

/// The costlier refusal is the one an operator is left with, in whichever
/// order a disk gives the two: what is said never costs less than what either
/// of them was about.
pub proof fn the_costlier_refusal_stands(fresh: Writing, standing: Writing)
    ensures
        ({
            let said = if fresh_is_said(fresh, standing) {
                fresh
            } else {
                standing
            };
            said.cost() >= fresh.cost() && said.cost() >= standing.cost()
        }),
{
}

/// A node that stops over its disk stops while every block it has not written
/// is still one the chain holds the body of, with as much room again left
/// over.
pub proof fn a_node_stops_inside_the_window(reached: u64, reaches: u64)
    requires
        gap(reached, reaches) <= MAX_BEHIND + 1,
    ensures
        gap(reached, reaches) < MAX_REORG_DEPTH,
        2 * MAX_BEHIND <= MAX_REORG_DEPTH,
{
}

/// What a log of records in order of height holds.
#[derive(Clone, Copy, Debug, PartialEq, Eq, Structural)]
pub struct Extent {
    /// The height of the first record, or nought of a log holding nothing.
    pub first: u64,
    /// One past the height of the last.
    pub reaches: u64,
}

impl Extent {
    pub open spec fn wf(self) -> bool {
        self.first <= self.reaches
    }

    pub open spec fn holding_nothing(self) -> bool {
        self.first == self.reaches
    }

    pub open spec fn held_at(self, height: u64) -> bool {
        self.first <= height < self.reaches
    }

    pub fn is_empty(self) -> (empty: bool)
        ensures
            empty == self.holding_nothing(),
    {
        self.first == self.reaches
    }

    /// Records held.
    pub fn len(self) -> (count: u64)
        requires
            self.wf(),
        ensures
            count == self.reaches - self.first,
    {
        self.reaches - self.first
    }

    pub fn holds(self, height: u64) -> (held: bool)
        ensures
            held == self.held_at(height),
    {
        self.first <= height && height < self.reaches
    }
}

/// What a block takes on average, never less than a byte.
pub open spec fn average(held: u64, bytes: u64) -> int {
    if held == 0 || bytes / held == 0 {
        1
    } else {
        (bytes / held) as int
    }
}

/// The height a block log is cut back to, keeping everything above it: the
/// budget spent on blocks of an average size, from the tip down.
pub open spec fn cut_at(tip: u64, held: u64, bytes: u64, keep: u64) -> int {
    let affordable = keep as int / average(held, bytes);
    let reaches = tip.saturating_add(1);
    if affordable >= reaches {
        0
    } else {
        reaches - affordable
    }
}

/// The height a block log should be cut back to, keeping everything above it.
///
/// The budget is met on an average rather than by measuring each block. It is
/// an operator's preference about disk, not a rule anything depends on.
pub fn cut_for(tip: u64, held: u64, bytes: u64, keep: u64) -> (cut: u64)
    ensures
        cut == cut_at(tip, held, bytes, keep),
{
    let average: u64 = match bytes.checked_div(held) {
        Some(average) => if average == 0 {
            1
        } else {
            average
        },
        None => 1,
    };
    let affordable: u64 = match keep.checked_div(average) {
        Some(affordable) => affordable,
        None => 0,
    };
    tip.saturating_add(1).saturating_sub(affordable)
}

/// What is kept costs no more than the budget, at the size a block takes on
/// average; and a budget for everything drops nothing.
pub proof fn a_cut_keeps_what_the_budget_pays_for(tip: u64, held: u64, bytes: u64, keep: u64)
    requires
        tip < u64::MAX,
    ensures
        0 <= cut_at(tip, held, bytes, keep) <= tip + 1,
        cut_at(tip, held, bytes, keep) > 0 ==> (tip + 1 - cut_at(tip, held, bytes, keep)) * average(
            held,
            bytes,
        ) <= keep,
        (tip + 1) * average(held, bytes) <= keep ==> cut_at(tip, held, bytes, keep) == 0,
{
    let size = average(held, bytes);
    let affordable = keep as int / size;
    assert(size >= 1);
    assert(affordable * size <= keep && 0 <= affordable) by (nonlinear_arith)
        requires
            size >= 1,
            keep >= 0,
            affordable == keep as int / size,
    ;
    if (tip + 1) * size <= keep {
        assert(affordable >= tip + 1) by (nonlinear_arith)
            requires
                size >= 1,
                (tip + 1) * size <= keep,
                affordable == keep as int / size,
        ;
    }
}

/// Whether a log is over the bytes this node keeps. A node with no log on disk
/// never is.
pub fn over_its_budget(bytes: Option<u64>, keep: u64) -> (over: bool)
    ensures
        over == match bytes {
            Some(bytes) => bytes > keep,
            None => false,
        },
{
    match bytes {
        Some(bytes) => bytes > keep,
        None => false,
    }
}

/// What a round of upkeep over its budget does about the ledger on disk.
#[derive(Clone, Copy, Debug, PartialEq, Eq, Structural)]
pub enum LedgerOwed {
    /// There is no chain to write a ledger for.
    Nothing,
    /// One for this tip is on the disk already, standing at this place.
    Written(Located),
    /// One has to be built.
    Build,
}

/// What the ledger on disk owes the tip: nothing is written twice for one tip.
pub fn ledger_owed(tip: Option<Hash32>, written: Option<(Hash32, Located)>) -> (owed: LedgerOwed)
    ensures
        owed == match (tip, written) {
            (None, _) => LedgerOwed::Nothing,
            (Some(tip), Some((for_tip, at))) if for_tip == tip => LedgerOwed::Written(at),
            _ => LedgerOwed::Build,
        },
{
    match tip {
        None => LedgerOwed::Nothing,
        Some(tip) => match written {
            Some((for_tip, at)) => {
                if for_tip == tip {
                    LedgerOwed::Written(at)
                } else {
                    LedgerOwed::Build
                }
            },
            None => LedgerOwed::Build,
        },
    }
}

/// The height from which a log is kept once a ledger standing at `at` is on
/// the disk, or `None` when nothing is dropped.
///
/// Nothing is dropped against a ledger of a branch this node has left, nor out
/// of a log that no longer reaches it, nor when the budget keeps everything
/// the log still holds.
pub fn trim_history(at: Located, agrees: bool, log: Extent, bytes: u64, keep: u64) -> (from: Option<
    u64,
>)
    requires
        log.wf(),
    ensures
        match from {
            Some(from) => agrees && log.held_at(at.height) && from > log.first && from == cut_at(
                at.height,
                (log.reaches - log.first) as u64,
                bytes,
                keep,
            ),
            None => !agrees || !log.held_at(at.height) || cut_at(
                at.height,
                (log.reaches - log.first) as u64,
                bytes,
                keep,
            ) <= log.first,
        },
{
    if !agrees {
        return None;
    }
    if !log.holds(at.height) {
        return None;
    }
    let cut: u64 = cut_for(at.height, log.len(), bytes, keep);
    if cut <= log.first {
        return None;
    }
    Some(cut)
}

/// Why this node is not taking connections, if it is not.
#[derive(Debug)]
pub struct Unanswered {
    /// What the listener said, in its own words.
    pub because: String,
    /// Visitors turned away in a row.
    pub refusals: u64,
}

/// Writes down that a visitor was turned away, and what said so. Both halves
/// together, because they are one fact.
pub fn could_not_take_a_visitor(said: &mut Option<Unanswered>, turned_away: &mut u64, because: &str)
    ensures
        *final(turned_away) == old(turned_away).wrapping_add(1),
        match *final(said) {
            Some(held) => held.because@ == because@ && held.refusals == match *old(said) {
                Some(before) => before.refusals.saturating_add(1),
                None => 1,
            },
            None => false,
        },
{
    *turned_away = turned_away.wrapping_add(1);
    let refusals: u64 = match said.as_ref() {
        Some(held) => held.refusals,
        None => 0,
    };
    *said = Some(Unanswered { because: because.to_owned(), refusals: refusals.saturating_add(1) });
}

/// Says a visitor was let in, so what is written down is a door that is still
/// shut rather than one that was.
pub fn took_a_visitor(said: &mut Option<Unanswered>)
    ensures
        *final(said) is None,
{
    *said = None;
}

/// Blocks that cannot be written cost the most and a ledger the least.
pub proof fn blocks_cost_more_than_headers_and_headers_than_a_ledger(
    blocks: u8,
    headers: u8,
    ledger: u8,
)
    requires
        call_ensures(Writing::costs, (Writing::Blocks,), blocks),
        call_ensures(Writing::costs, (Writing::Headers,), headers),
        call_ensures(Writing::costs, (Writing::Ledger,), ledger),
    ensures
        ledger < headers < blocks,
{
}

/// A refusal is counted with those before it, and what is said is the latest:
/// what it was of, where, and why.
pub proof fn what_could_not_be_read_is_counted(
    held: &mut Option<Unread>,
    what: Reading,
    height: u64,
    because: &str,
)
    requires
        call_ensures(could_not_read, (held, what, height, because), ()),
    ensures
        *final(held) matches Some(unread) && unread.what == what && unread.height == height
            && unread.because@ == because@ && match *old(held) {
            None => unread.refusals == 1,
            Some(before) => before.refusals < u64::MAX ==> unread.refusals == before.refusals + 1,
        },
{
}

/// Of a fresh refusal and one that stands, the one that costs more is said, and
/// the fresh one where they cost alike.
pub proof fn the_costlier_refusal_is_the_one_said(
    fresh: Option<&Refusing>,
    standing: Option<&Unwritten>,
    said: Option<(Writing, String)>,
)
    requires
        call_ensures(the_refusal_to_say, (fresh, standing), said),
    ensures
        said is None <==> fresh is None && standing is None,
        fresh matches Some(fresh) ==> fresh.what is Blocks || standing is None || (
        standing matches Some(standing) && (standing.what is Ledger || standing.what == fresh.what))
            ==> (said matches Some(said) && said.0 == fresh.what && said.1@ == fresh.because@),
        standing matches Some(standing) ==> fresh is None || (fresh matches Some(fresh) && ((
        standing.what is Blocks && !(fresh.what is Blocks)) || (standing.what is Headers
            && fresh.what is Ledger))) ==> (said matches Some(said) && said.0 == standing.what
            && said.1@ == standing.because@),
{
}

/// A disk refusing to write is carried on with until the chain is more than two
/// hundred and fifty-six blocks past what is written, and stopped for then. A
/// disk that caught up and refuses nothing has nothing said of it. Once out of
/// reach, what was said stands.
pub proof fn a_disk_falling_behind_is_stopped_for(
    held: &mut Option<Unwritten>,
    wrote: &Wrote,
    reached: u64,
    carry_on: bool,
)
    requires
        call_ensures(note_writing, (held, wrote, Some(reached)), carry_on),
        reached < u64::MAX,
    ensures
        *old(held) is None && wrote.refusing is None ==> carry_on && *final(held) is None,
        (*old(held) matches Some(before) && !before.within_reach) ==> carry_on && *final(held)
            == *old(held),
        !(*old(held) matches Some(before) && !before.within_reach) && wrote.refusing is None
            && reached < wrote.reaches ==> carry_on && *final(held) is None,
        !(*old(held) matches Some(before) && !before.within_reach) && (wrote.refusing is Some
            || (*old(held) is Some && wrote.reaches <= reached)) ==> {
            &&& *final(held) is Some
            &&& carry_on <==> reached + 1 <= wrote.reaches + 256
            &&& *final(held) matches Some(said) ==> {
                &&& said.within_reach == carry_on
                &&& said.reached == reached
                &&& wrote.reaches <= reached ==> said.blocks + wrote.reaches == reached + 1
                &&& reached < wrote.reaches ==> said.blocks == 0
                &&& wrote.reaches == 0 ==> said.written_through is None
                &&& wrote.reaches > 0 ==> (said.written_through matches Some(through) && through + 1
                    == wrote.reaches)
            }
        },
{
}

/// A node that has not reached anything has nothing to be behind with.
pub proof fn a_node_nowhere_is_not_behind(
    held: &mut Option<Unwritten>,
    wrote: &Wrote,
    carry_on: bool,
)
    requires
        call_ensures(note_writing, (held, wrote, None::<u64>), carry_on),
    ensures
        carry_on,
        *final(held) == *old(held),
{
}

/// What is said of a disk behind is the costlier of what it refuses now and
/// what stands.
pub proof fn a_disk_behind_says_the_costlier_refusal(
    held: &mut Option<Unwritten>,
    wrote: &Wrote,
    reached: u64,
    carry_on: bool,
)
    requires
        call_ensures(note_writing, (held, wrote, Some(reached)), carry_on),
        wrote.refusing is Some,
        !(*old(held) matches Some(before) && !before.within_reach),
    ensures
        *final(held) matches Some(said) && (wrote.refusing matches Some(fresh) && ({
            let other = *old(held) matches Some(standing) && ((standing.what is Blocks && !(
            fresh.what is Blocks)) || (standing.what is Headers && fresh.what is Ledger));
            &&& !other ==> said.what == fresh.what && said.because@ == fresh.because@
            &&& other ==> (*old(held) matches Some(standing) && said.what == standing.what
                && said.because@ == standing.because@)
        })),
{
}

/// A run of records holds the heights from its first up to where it reaches,
/// and as many as lie between.
pub proof fn a_run_of_records_holds_what_lies_in_it(
    extent: Extent,
    height: u64,
    held: bool,
    empty: bool,
    count: u64,
)
    requires
        call_ensures(Extent::holds, (extent, height), held),
        call_ensures(Extent::is_empty, (extent,), empty),
        call_ensures(Extent::len, (extent,), count),
        extent.first <= extent.reaches,
    ensures
        held <==> extent.first <= height && height < extent.reaches,
        empty <==> extent.first == extent.reaches,
        extent.first + count == extent.reaches,
        empty ==> !held,
{
}

/// A cut keeps as many blocks as the budget pays for at what one weighs on
/// average, and as few less as it can: one more would be over it. Nothing is
/// cut where the budget pays for all of them.
pub proof fn a_cut_keeps_as_much_as_is_paid_for(
    tip: u64,
    held: u64,
    bytes: u64,
    keep: u64,
    cut: u64,
    each: int,
)
    requires
        call_ensures(cut_for, (tip, held, bytes, keep), cut),
        tip < u64::MAX,
        each >= 1,
        held > 0 && bytes >= held ==> each * held <= bytes < (each + 1) * held,
        held == 0 || bytes < held ==> each == 1,
    ensures
        cut <= tip + 1,
        cut > 0 ==> (tip + 1 - cut) * each <= keep,
        cut > 0 ==> keep < (tip + 2 - cut) * each,
        (tip + 1) * each <= keep ==> cut == 0,
{
    if held > 0 && bytes >= held {
        assert(bytes as int / held as int == each) by (nonlinear_arith)
            requires
                held > 0,
                each * held <= bytes < (each + 1) * held,
        ;
    } else if held > 0 {
        assert(bytes as int / held as int == 0) by (nonlinear_arith)
            requires
                0 <= bytes < held,
        ;
    }
    assert(average(held, bytes) == each);
    let affordable = keep as int / each;
    assert(affordable * each <= keep < (affordable + 1) * each) by (nonlinear_arith)
        requires
            each >= 1,
            affordable == keep as int / each,
    ;
    if (tip + 1) * each <= keep {
        assert(affordable >= tip + 1) by (nonlinear_arith)
            requires
                each >= 1,
                (tip + 1) * each <= keep,
                keep < (affordable + 1) * each,
        ;
    }
}

/// A log is over its budget when it weighs more than is kept, and one nobody
/// could weigh is not.
pub proof fn a_log_is_over_its_budget_when_it_weighs_more(
    bytes: Option<u64>,
    keep: u64,
    over: bool,
)
    requires
        call_ensures(over_its_budget, (bytes, keep), over),
    ensures
        over <==> (bytes matches Some(bytes) && bytes > keep),
{
}

/// A ledger is built for the tip a chain stands at, once: one written for that
/// tip is used again, and one written for another is not.
pub proof fn a_ledger_is_built_once_for_a_tip(
    tip: Option<Hash32>,
    written: Option<(Hash32, Located)>,
    owed: LedgerOwed,
)
    requires
        call_ensures(ledger_owed, (tip, written), owed),
    ensures
        tip is None <==> owed is Nothing,
        owed is Build <==> tip is Some && !(written matches Some(written) && tip == Some(written.0)),
        owed matches LedgerOwed::Written(at) ==> (written matches Some(written) && tip == Some(
            written.0,
        ) && at == written.1),
{
}

/// Old blocks go only where the log agrees about the tip and holds it, only
/// where that would drop something, and then from where the budget says.
pub proof fn history_is_trimmed_to_the_budget(
    at: Located,
    agrees: bool,
    log: Extent,
    bytes: u64,
    keep: u64,
    from: Option<u64>,
    cut: u64,
)
    requires
        call_ensures(trim_history, (at, agrees, log, bytes, keep), from),
        log.first <= log.reaches,
        call_ensures(cut_for, (at.height, (log.reaches - log.first) as u64, bytes, keep), cut),
    ensures
        from is Some <==> agrees && log.first <= at.height < log.reaches && log.first < cut,
        from matches Some(from) ==> from == cut,
{
}

/// A visitor that could not be taken in is counted, here and for as long as it
/// lasts, and the latest reason is the one said. One taken in ends that.
pub proof fn visitors_not_taken_in_are_counted(
    said: &mut Option<Unanswered>,
    turned_away: &mut u64,
    because: &str,
    ended: &mut Option<Unanswered>,
)
    requires
        call_ensures(could_not_take_a_visitor, (said, turned_away, because), ()),
        call_ensures(took_a_visitor, (ended,), ()),
    ensures
        *old(turned_away) < u64::MAX ==> *final(turned_away) == *old(turned_away) + 1,
        *final(said) matches Some(held) && held.because@ == because@ && match *old(said) {
            None => held.refusals == 1,
            Some(before) => before.refusals < u64::MAX ==> held.refusals == before.refusals + 1,
        },
        *final(ended) is None,
{
}

/// What is said of a disk is what it was, where, and why, the first time it is
/// said.
pub proof fn what_is_said_of_a_disk_is_what_was_met(
    what: Reading,
    height: u64,
    because: &str,
    unread: Unread,
    writing: Writing,
    refusing: Refusing,
)
    requires
        call_ensures(stopped_at, (what, height, because), unread),
        call_ensures(Refusing::at, (writing, because), refusing),
    ensures
        unread.what == what && unread.height == height && unread.because@ == because@,
        unread.refusals == 1,
        refusing.what == writing && refusing.because@ == because@,
{
}

/// What a disk refuses to take, and what it could not give, are told apart in
/// words.
pub proof fn refusals_are_told_apart_in_words(
    blocks: String,
    headers: String,
    ledger: String,
    block: String,
    header: String,
)
    requires
        call_ensures(Writing::to_string, (&Writing::Blocks,), blocks),
        call_ensures(Writing::to_string, (&Writing::Headers,), headers),
        call_ensures(Writing::to_string, (&Writing::Ledger,), ledger),
        call_ensures(Reading::to_string, (&Reading::Blocks,), block),
        call_ensures(Reading::to_string, (&Reading::Headers,), header),
    ensures
        blocks@ == "the blocks it has accepted"@,
        headers@ == "the headers it shows the chain with"@,
        ledger@ == "the ledger it starts from"@,
        block@ == "a block it had accepted"@,
        header@ == "a header it shows the chain with"@,
        blocks@ != headers@ && headers@ != ledger@ && ledger@ != blocks@,
        block@ != header@,
{
    reveal_strlit("the blocks it has accepted");
    reveal_strlit("the headers it shows the chain with");
    reveal_strlit("the ledger it starts from");
    reveal_strlit("a block it had accepted");
    reveal_strlit("a header it shows the chain with");
    assert(blocks@.len() == 26 && headers@.len() == 35 && ledger@.len() == 25);
    assert(block@.len() == 23 && header@.len() == 32);
}

} // verus!
