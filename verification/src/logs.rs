//! Keeping what is on the disk in line with the branch being followed.
//!
//! The disk answers slowly and can refuse, so each of these passes is a
//! machine: it says what to do next, the caller does it, and what came of it
//! is handed back. A pass ends with what refused it, if anything did.
//!
//! Two logs of the same branch part company at one height. Everything here
//! walks back from the top to find it, cuts what is above it, and fills in
//! from there, so a record never sits at a height that is not its own.

use vstd::prelude::*;
use vstd::string::*;

use crate::disk::{stopped_at, Extent, Reading, Refusing, Unread, Wrote, Writing};
use crate::network::Hash32;
use crate::text::{append_number, decimal};

verus! {

/// Where a walk back from `top` ends: at the lowest height above which every
/// height differs, or at `floor`.
pub open spec fn parts_at(floor: u64, top: u64, differs: spec_fn(u64) -> bool) -> u64
    decreases top,
{
    if top > floor && differs((top - 1) as u64) {
        parts_at(floor, (top - 1) as u64, differs)
    } else {
        top
    }
}

/// A walk back ends where the two part company: everything from there up
/// differs, and the height below does not, unless the floor was reached.
pub proof fn a_walk_ends_where_two_branches_part(floor: u64, top: u64, differs: spec_fn(u64) -> bool)
    ensures
        ({
            let fork = parts_at(floor, top, differs);
            &&& fork <= top
            &&& floor <= top ==> floor <= fork
            &&& forall|height: u64| fork <= height < top ==> #[trigger] differs(height)
            &&& fork > floor ==> !differs((fork - 1) as u64)
        }),
    decreases top,
{
    if top > floor && differs((top - 1) as u64) {
        a_walk_ends_where_two_branches_part(floor, (top - 1) as u64, differs);
    }
}

/// Whether two runs of identifiers, each starting at `first`, agree at a
/// height only when they agree at every height below it: what linking each
/// record to the one before it gives.
pub open spec fn linked(ours: Seq<Hash32>, theirs: Seq<Hash32>) -> bool {
    forall|i: int, j: int|
        0 <= j <= i < ours.len() && i < theirs.len() && ours[i] == theirs[i] ==> #[trigger] ours[i]
            == theirs[i] && #[trigger] ours[j] == theirs[j]
}

/// Cutting a log where it leaves a branch, and filling it in from there, makes
/// it that branch: nothing of another branch is left in it, and nothing of
/// this one is left out.
///
/// `log` and `branch` hold the records from `first` up.
pub proof fn a_log_cut_where_it_parts_becomes_the_branch(
    first: u64,
    log: Seq<Hash32>,
    branch: Seq<Hash32>,
)
    requires
        first + log.len() <= u64::MAX,
        first + branch.len() <= u64::MAX,
        linked(log, branch),
    ensures
        ({
            let top = if log.len() < branch.len() {
                log.len()
            } else {
                branch.len()
            };
            let fork = parts_at(
                first,
                (first + top) as u64,
                |height: u64| log[height - first] != branch[height - first],
            );
            &&& first <= fork <= first + top
            &&& log.take(fork - first) + branch.skip(fork - first) == branch
        }),
{
    let top = if log.len() < branch.len() {
        log.len()
    } else {
        branch.len()
    };
    let differs = |height: u64| log[height - first] != branch[height - first];
    a_walk_ends_where_two_branches_part(first, (first + top) as u64, differs);
    let fork = parts_at(first, (first + top) as u64, differs);
    if fork > first {
        let last = fork - first - 1;
        assert(!differs((fork - 1) as u64));
        assert(log[last] == branch[last]);
        assert forall|j: int| 0 <= j <= last implies log[j] == branch[j] by {}
    }
    assert(log.take(fork - first) + branch.skip(fork - first) =~= branch);
}

/// What a pass at the header log does next.
#[derive(Clone, Copy, Debug, PartialEq, Eq, Structural)]
pub enum HeaderStep {
    /// Read the log's header at this height, and ask the chain for its own.
    Look(u64),
    /// Cut the log to what is below this height.
    Cut(u64),
    /// Write the chain's header at this height at the end of the log.
    Append(u64),
    Done,
}

/// What writing one record came to.
#[derive(Debug)]
pub enum Appended {
    Written,
    /// There is no such record left to write.
    Gone,
    Refused(String),
}

/// One pass at bringing the header log in line with the branch.
///
/// Headers are kept whatever happens to the blocks, because they are what a
/// newcomer is shown to settle which chain carries the most work.
#[derive(Debug)]
pub struct HeaderWriting {
    /// What the log held when the pass began.
    pub log: Extent,
    /// One past the height of the branch.
    pub reaches: u64,
    /// The lowest height the chain still answers for.
    pub held_from: u64,
    /// Where the log and the branch are known to part, so far.
    pub common: u64,
    pub step: HeaderStep,
    /// What refused, when something did.
    pub refusing: Option<Refusing>,
}

impl HeaderWriting {
    pub open spec fn wf(&self) -> bool {
        &&& self.log.wf()
        &&& match self.step {
            HeaderStep::Look(height) => self.common > self.log.first && height + 1 == self.common,
            HeaderStep::Cut(height) => height == self.common,
            HeaderStep::Append(height) => height < self.reaches,
            HeaderStep::Done => true,
        }
    }

    /// Where appending begins once the log is cut at `common`: where the chain
    /// can still answer for a log that is empty, and on from the log
    /// otherwise.
    pub open spec fn fill_from(&self, common: u64) -> u64 {
        if self.log.holding_nothing() || common <= self.log.first {
            self.held_from
        } else {
            common
        }
    }

    pub open spec fn append_step(&self, height: u64) -> HeaderStep {
        if height < self.reaches {
            HeaderStep::Append(height)
        } else {
            HeaderStep::Done
        }
    }

    /// The step after the walk settled on `common`.
    pub open spec fn settled_step(&self, common: u64) -> HeaderStep {
        if self.log.reaches > common {
            HeaderStep::Cut(common)
        } else {
            self.append_step(self.fill_from(common))
        }
    }

    /// The step with the walk standing at `common`.
    pub open spec fn walk_step(&self, common: u64) -> HeaderStep {
        if common > self.log.first {
            HeaderStep::Look((common - 1) as u64)
        } else {
            self.settled_step(common)
        }
    }

    fn append_from(&self, height: u64) -> (step: HeaderStep)
        ensures
            step == self.append_step(height),
    {
        if height < self.reaches {
            HeaderStep::Append(height)
        } else {
            HeaderStep::Done
        }
    }

    fn fill(&self, common: u64) -> (step: HeaderStep)
        ensures
            step == self.append_step(self.fill_from(common)),
    {
        if self.log.is_empty() || common <= self.log.first {
            self.append_from(self.held_from)
        } else {
            self.append_from(common)
        }
    }

    fn settle(&self, common: u64) -> (step: HeaderStep)
        ensures
            step == self.settled_step(common),
    {
        if self.log.reaches > common {
            HeaderStep::Cut(common)
        } else {
            self.fill(common)
        }
    }

    fn walk(&self, common: u64) -> (step: HeaderStep)
        ensures
            step == self.walk_step(common),
    {
        if common > self.log.first {
            HeaderStep::Look(common - 1)
        } else {
            self.settle(common)
        }
    }

    /// Begins a pass for a chain at `height`, over a log holding `log`, where
    /// the chain answers from `held_from` up. With no chain there is nothing
    /// to do.
    pub fn write_headers(log: Extent, height: Option<u64>, held_from: u64) -> (pass: HeaderWriting)
        requires
            log.wf(),
        ensures
            pass.wf(),
            pass.log == log,
            pass.held_from == held_from,
            pass.refusing is None,
            match height {
                None => pass.step == HeaderStep::Done,
                Some(height) => pass.reaches == height.saturating_add(1) && pass.common == (if log.reaches
                    < pass.reaches {
                    log.reaches
                } else {
                    pass.reaches
                }) && pass.step == pass.walk_step(pass.common),
            },
    {
        match height {
            None => HeaderWriting {
                log,
                reaches: 0,
                held_from,
                common: 0,
                step: HeaderStep::Done,
                refusing: None,
            },
            Some(height) => {
                let reaches: u64 = height.saturating_add(1);
                let common: u64 = if log.reaches < reaches {
                    log.reaches
                } else {
                    reaches
                };
                let mut pass = HeaderWriting {
                    log,
                    reaches,
                    held_from,
                    common,
                    step: HeaderStep::Done,
                    refusing: None,
                };
                pass.step = pass.walk(common);
                pass
            },
        }
    }

    /// Whether the log's answer and the chain's send the walk further back.
    /// With nothing to compare against, what is written stands.
    pub open spec fn sends_back(held: Result<Option<Hash32>, String>, now: Option<Hash32>) -> bool {
        match now {
            None => false,
            Some(now) => held != Ok::<Option<Hash32>, String>(Some(now)),
        }
    }

    /// Takes what a look found: the log's identifier there, or why the store
    /// would not read it, and the chain's.
    ///
    /// A refusal is kept for the operator and tells the walk nothing about the
    /// branch, so the walk goes on. The first is the one that is kept.
    pub fn looked(&mut self, held: Result<Option<Hash32>, String>, now: Option<Hash32>)
        requires
            old(self).wf(),
            old(self).step is Look,
        ensures
            final(self).wf(),
            final(self).log == old(self).log,
            final(self).reaches == old(self).reaches,
            final(self).held_from == old(self).held_from,
            match (old(self).refusing, held) {
                (None, Err(words)) => final(self).refusing matches Some(refusing) && refusing.what
                    == Writing::Headers && refusing.because@ == words@,
                _ => final(self).refusing == old(self).refusing,
            },
            if HeaderWriting::sends_back(held, now) {
                &&& final(self).common == old(self).common - 1
                &&& final(self).step == final(self).walk_step(final(self).common)
            } else {
                &&& final(self).common == old(self).common
                &&& final(self).step == final(self).settled_step(final(self).common)
            },
            // Where the walk will end is where it was always going to end.
            forall|differs: spec_fn(u64) -> bool|
                differs((old(self).common - 1) as u64) == HeaderWriting::sends_back(held, now)
                    ==> #[trigger] parts_at(old(self).log.first, old(self).common, differs) == (
                if HeaderWriting::sends_back(held, now) {
                    parts_at(old(self).log.first, final(self).common, differs)
                } else {
                    final(self).common
                }),
    {
        let same: bool = match (&held, now) {
            (Ok(Some(held)), Some(now)) => *held == now,
            _ => false,
        };
        match held {
            Err(words) => {
                if self.refusing.is_none() {
                    self.refusing = Some(Refusing { what: Writing::Headers, because: words });
                }
            },
            Ok(_) => {},
        }
        if same || now.is_none() {
            self.step = self.settle(self.common);
        } else {
            self.common = self.common - 1;
            self.step = self.walk(self.common);
        }
    }

    /// Takes what cutting the log came to. A log that could not be cut is left
    /// where it is, and the pass is over.
    pub fn cut(&mut self, refused: Option<String>)
        requires
            old(self).wf(),
            old(self).step is Cut,
        ensures
            final(self).wf(),
            final(self).log == old(self).log,
            final(self).reaches == old(self).reaches,
            final(self).held_from == old(self).held_from,
            final(self).common == old(self).common,
            match refused {
                Some(words) => final(self).step == HeaderStep::Done && (final(self).refusing matches Some(
                    refusing,
                ) && refusing.what == Writing::Headers && refusing.because@ == words@),
                None => final(self).step == final(self).append_step(
                    final(self).fill_from(final(self).common),
                ) && final(self).refusing == old(self).refusing,
            },
    {
        match refused {
            Some(words) => {
                self.refusing = Some(Refusing { what: Writing::Headers, because: words });
                self.step = HeaderStep::Done;
            },
            None => {
                self.step = self.fill(self.common);
            },
        }
    }

    /// What is said of a header there is no block left to take from.
    pub open spec fn header_gone(height: u64) -> Seq<char> {
        "the header at height "@ + decimal(height as nat)
            + " cannot be written down: the chain has let go of the block it comes from"@
    }

    /// Takes what writing one header came to.
    pub fn appended(&mut self, outcome: Appended)
        requires
            old(self).wf(),
            old(self).step is Append,
        ensures
            final(self).wf(),
            final(self).log == old(self).log,
            final(self).reaches == old(self).reaches,
            final(self).held_from == old(self).held_from,
            final(self).common == old(self).common,
            match outcome {
                Appended::Written => final(self).step == final(self).append_step(
                    (old(self).step->Append_0 + 1) as u64,
                ) && final(self).refusing == old(self).refusing,
                Appended::Gone => final(self).step == HeaderStep::Done && match old(self).refusing {
                    Some(_) => final(self).refusing == old(self).refusing,
                    None => final(self).refusing matches Some(refusing) && refusing.what
                        == Writing::Headers && refusing.because@ == HeaderWriting::header_gone(
                        old(self).step->Append_0,
                    ),
                },
                Appended::Refused(words) => final(self).step == HeaderStep::Done && (final(self).refusing matches Some(refusing) && refusing.what == Writing::Headers
                    && refusing.because@ == words@),
            },
    {
        let height: u64 = match self.step {
            HeaderStep::Append(height) => height,
            _ => 0,
        };
        match outcome {
            Appended::Written => {
                self.step = self.append_from(height + 1);
            },
            Appended::Gone => {
                if self.refusing.is_none() {
                    let mut words = String::from_str("the header at height ");
                    append_number(&mut words, height);
                    words.append(
                        " cannot be written down: the chain has let go of the block it comes from",
                    );
                    self.refusing = Some(Refusing { what: Writing::Headers, because: words });
                }
                self.step = HeaderStep::Done;
            },
            Appended::Refused(words) => {
                self.refusing = Some(Refusing { what: Writing::Headers, because: words });
                self.step = HeaderStep::Done;
            },
        }
    }
}

/// What a pass at the header forest does next.
#[derive(Clone, Copy, Debug, PartialEq, Eq, Structural)]
pub enum ForestStep {
    /// Read the forest's leaf and the log's header at this height.
    Look(u64),
    /// Cut the forest to this many leaves.
    Cut(u64),
    /// Read the log's header at this height and add its leaf to the forest.
    Append(u64),
    Done,
}

/// One pass at bringing the header forest in line with the header log.
///
/// The forest is what the log says it is, so it follows rather than being
/// written alongside. Only a log that starts at the first block can make a
/// forest at all.
///
/// A record the store refuses to read is not a record that is not there: a
/// refusal ends the pass where it happens, and nothing is cut on the strength
/// of it.
#[derive(Debug)]
pub struct ForestGrowing {
    /// Leaves the forest held when the pass began.
    pub leaves: u64,
    /// One past the height the header log reaches.
    pub reaches: u64,
    pub common: u64,
    pub step: ForestStep,
    pub refusing: Option<Refusing>,
}

impl ForestGrowing {
    pub open spec fn wf(&self) -> bool {
        match self.step {
            ForestStep::Look(height) => self.common > 0 && height + 1 == self.common,
            ForestStep::Cut(height) => height == self.common,
            ForestStep::Append(height) => height < self.reaches,
            ForestStep::Done => true,
        }
    }

    pub open spec fn append_step(&self, height: u64) -> ForestStep {
        if height < self.reaches {
            ForestStep::Append(height)
        } else {
            ForestStep::Done
        }
    }

    pub open spec fn settled_step(&self, common: u64) -> ForestStep {
        if self.leaves > common {
            ForestStep::Cut(common)
        } else {
            self.append_step(self.leaves)
        }
    }

    pub open spec fn walk_step(&self, common: u64) -> ForestStep {
        if common > 0 {
            ForestStep::Look((common - 1) as u64)
        } else {
            self.settled_step(common)
        }
    }

    fn append_from(&self, height: u64) -> (step: ForestStep)
        ensures
            step == self.append_step(height),
    {
        if height < self.reaches {
            ForestStep::Append(height)
        } else {
            ForestStep::Done
        }
    }

    fn settle(&self, common: u64) -> (step: ForestStep)
        ensures
            step == self.settled_step(common),
    {
        if self.leaves > common {
            ForestStep::Cut(common)
        } else {
            self.append_from(self.leaves)
        }
    }

    fn walk(&self, common: u64) -> (step: ForestStep)
        ensures
            step == self.walk_step(common),
    {
        if common > 0 {
            ForestStep::Look(common - 1)
        } else {
            self.settle(common)
        }
    }

    /// Begins a pass over a forest of `leaves`, following a log holding
    /// `headers`.
    pub fn grow_forest(leaves: u64, headers: Extent) -> (pass: ForestGrowing)
        requires
            headers.wf(),
        ensures
            pass.wf(),
            pass.leaves == leaves,
            pass.reaches == headers.reaches,
            pass.refusing is None,
            if headers.first != 0 {
                pass.step == ForestStep::Done
            } else {
                &&& pass.common == if leaves < headers.reaches {
                    leaves
                } else {
                    headers.reaches
                }
                &&& pass.step == pass.walk_step(pass.common)
            },
    {
        let common: u64 = if leaves < headers.reaches {
            leaves
        } else {
            headers.reaches
        };
        let mut pass = ForestGrowing {
            leaves,
            reaches: headers.reaches,
            common,
            step: ForestStep::Done,
            refusing: None,
        };
        if headers.first == 0 {
            pass.step = pass.walk(common);
        }
        pass
    }

    /// Whether a leaf and a header send the walk further back: any two but a
    /// leaf that is there and is the header's.
    pub open spec fn sends_back(held: Option<Hash32>, now: Option<Hash32>) -> bool {
        !(held is Some && held == now)
    }

    /// Takes what a look found: the leaf held, and the leaf the log's header
    /// makes, or what the store refused either read with.
    pub fn looked(&mut self, found: Result<(Option<Hash32>, Option<Hash32>), String>)
        requires
            old(self).wf(),
            old(self).step is Look,
        ensures
            final(self).wf(),
            final(self).leaves == old(self).leaves,
            final(self).reaches == old(self).reaches,
            match found {
                Err(words) => final(self).step == ForestStep::Done && (final(self).refusing matches Some(
                    refusing,
                ) && refusing.what == Writing::Headers && refusing.because@ == words@),
                Ok((held, now)) => {
                    &&& final(self).refusing == old(self).refusing
                    &&& if ForestGrowing::sends_back(held, now) {
                        &&& final(self).common == old(self).common - 1
                        &&& final(self).step == final(self).walk_step(final(self).common)
                    } else {
                        &&& final(self).common == old(self).common
                        &&& final(self).step == final(self).settled_step(final(self).common)
                    }
                    &&& forall|differs: spec_fn(u64) -> bool|
                        differs((old(self).common - 1) as u64) == ForestGrowing::sends_back(held, now)
                            ==> #[trigger] parts_at(0, old(self).common, differs) == (
                        if ForestGrowing::sends_back(held, now) {
                            parts_at(0, final(self).common, differs)
                        } else {
                            final(self).common
                        })
                },
            },
    {
        match found {
            Err(words) => {
                self.refusing = Some(Refusing { what: Writing::Headers, because: words });
                self.step = ForestStep::Done;
            },
            Ok((held, now)) => {
                let same: bool = match (held, now) {
                    (Some(held), Some(now)) => held == now,
                    _ => false,
                };
                if same {
                    self.step = self.settle(self.common);
                } else {
                    self.common = self.common - 1;
                    self.step = self.walk(self.common);
                }
            },
        }
    }

    /// Takes what cutting the forest came to.
    pub fn cut(&mut self, refused: Option<String>)
        requires
            old(self).wf(),
            old(self).step is Cut,
        ensures
            final(self).wf(),
            final(self).reaches == old(self).reaches,
            final(self).common == old(self).common,
            match refused {
                Some(words) => final(self).step == ForestStep::Done && (final(self).refusing matches Some(
                    refusing,
                ) && refusing.what == Writing::Headers && refusing.because@ == words@),
                None => final(self).step == final(self).append_step(final(self).common) && final(self).refusing == old(self).refusing,
            },
    {
        match refused {
            Some(words) => {
                self.refusing = Some(Refusing { what: Writing::Headers, because: words });
                self.step = ForestStep::Done;
            },
            None => {
                self.step = self.append_from(self.common);
            },
        }
    }

    /// Takes what adding one leaf came to. A header that is not there ends the
    /// pass with nothing to say.
    pub fn appended(&mut self, outcome: Appended)
        requires
            old(self).wf(),
            old(self).step is Append,
        ensures
            final(self).wf(),
            final(self).reaches == old(self).reaches,
            final(self).common == old(self).common,
            match outcome {
                Appended::Written => final(self).step == final(self).append_step(
                    (old(self).step->Append_0 + 1) as u64,
                ) && final(self).refusing == old(self).refusing,
                Appended::Gone => final(self).step == ForestStep::Done && final(self).refusing == old(self).refusing,
                Appended::Refused(words) => final(self).step == ForestStep::Done && (final(self).refusing matches Some(refusing) && refusing.what == Writing::Headers
                    && refusing.because@ == words@),
            },
    {
        let height: u64 = match self.step {
            ForestStep::Append(height) => height,
            _ => 0,
        };
        match outcome {
            Appended::Written => {
                self.step = self.append_from(height + 1);
            },
            Appended::Gone => {
                self.step = ForestStep::Done;
            },
            Appended::Refused(words) => {
                self.refusing = Some(Refusing { what: Writing::Headers, because: words });
                self.step = ForestStep::Done;
            },
        }
    }
}

/// What a block did to the branch being followed.
#[derive(Clone, Copy, Debug, PartialEq, Eq, Structural)]
pub enum Accepted {
    /// Held already.
    Duplicate,
    /// On a branch that is not the one followed.
    SideBranch,
    /// The new tip.
    Extended,
    /// The tip of another branch, now followed, that adds this many blocks.
    Reorganised { added: u64 },
}

/// What a pass at the block log does next.
#[derive(Clone, Copy, Debug, PartialEq, Eq, Structural)]
pub enum BlockStep {
    /// Cut the log to what is below this height.
    Cut(u64),
    /// Say whether the chain still holds the body of the block at this height.
    Ask(u64),
    /// Write the block at this height at the end of the log.
    Append(u64),
    Done,
}

/// One pass at bringing the block log in line with the branch.
///
/// Where the two part company is counted from the branch rather than from the
/// log: a write that failed earlier leaves them disagreeing, and counting from
/// the log would then put every record after it at a height that is not its
/// own.
#[derive(Debug)]
pub struct BlockWriting {
    pub log: Extent,
    /// One past the height of the branch.
    pub reaches: u64,
    /// The height below which the branch did not change.
    pub common: u64,
    pub step: BlockStep,
    pub refusing: Option<Refusing>,
}

impl BlockWriting {
    pub open spec fn wf(&self) -> bool {
        &&& self.log.wf()
        &&& match self.step {
            BlockStep::Cut(height) => height == self.common,
            BlockStep::Ask(height) => height < u64::MAX,
            BlockStep::Append(height) => height < self.reaches,
            BlockStep::Done => true,
        }
    }

    pub open spec fn append_step(&self, height: u64) -> BlockStep {
        if height < self.reaches {
            BlockStep::Append(height)
        } else {
            BlockStep::Done
        }
    }

    /// The step once the log holds nothing above `common`. A log that holds
    /// nothing at all starts at the first block this node can still produce,
    /// which is looked for from `common` down.
    pub open spec fn fill_step(&self) -> BlockStep {
        if self.log.holding_nothing() || self.common <= self.log.first {
            self.search_step(self.common)
        } else if self.log.reaches > self.common {
            self.append_step(self.common)
        } else {
            self.append_step(self.log.reaches)
        }
    }

    /// The step with everything from `lowest` up known to be there.
    pub open spec fn search_step(&self, lowest: u64) -> BlockStep {
        if lowest > 0 {
            BlockStep::Ask((lowest - 1) as u64)
        } else {
            self.append_step(lowest)
        }
    }

    fn append_from(&self, height: u64) -> (step: BlockStep)
        ensures
            step == self.append_step(height),
    {
        if height < self.reaches {
            BlockStep::Append(height)
        } else {
            BlockStep::Done
        }
    }

    fn search(&self, lowest: u64) -> (step: BlockStep)
        ensures
            step == self.search_step(lowest),
    {
        if lowest > 0 {
            BlockStep::Ask(lowest - 1)
        } else {
            self.append_from(lowest)
        }
    }

    fn fill(&self) -> (step: BlockStep)
        ensures
            step == self.fill_step(),
    {
        if self.log.is_empty() || self.common <= self.log.first {
            self.search(self.common)
        } else if self.log.reaches > self.common {
            self.append_from(self.common)
        } else {
            self.append_from(self.log.reaches)
        }
    }

    /// Blocks `accepted` put on the branch, or `None` when it put none there.
    pub open spec fn added_by(accepted: Accepted) -> Option<u64> {
        match accepted {
            Accepted::Duplicate | Accepted::SideBranch => None,
            Accepted::Extended => Some(1),
            Accepted::Reorganised { added } => Some(added),
        }
    }

    /// Begins a pass for a chain at `height`, over a log holding `log`, after
    /// a block that did `accepted`.
    pub fn write_blocks(log: Extent, accepted: Accepted, height: Option<u64>) -> (pass: BlockWriting)
        requires
            log.wf(),
        ensures
            pass.wf(),
            pass.log == log,
            pass.refusing is None,
            match (BlockWriting::added_by(accepted), height) {
                (Some(added), Some(height)) => {
                    &&& pass.reaches == height.saturating_add(1)
                    &&& pass.common == pass.reaches.saturating_sub(added)
                    &&& pass.step == if log.reaches > pass.common {
                        BlockStep::Cut(pass.common)
                    } else {
                        pass.fill_step()
                    }
                },
                _ => pass.step == BlockStep::Done,
            },
    {
        let added: u64 = match accepted {
            Accepted::Duplicate | Accepted::SideBranch => {
                return BlockWriting {
                    log,
                    reaches: 0,
                    common: 0,
                    step: BlockStep::Done,
                    refusing: None,
                };
            },
            Accepted::Extended => 1,
            Accepted::Reorganised { added } => added,
        };
        match height {
            None => BlockWriting {
                log,
                reaches: 0,
                common: 0,
                step: BlockStep::Done,
                refusing: None,
            },
            Some(height) => {
                let reaches: u64 = height.saturating_add(1);
                let common: u64 = reaches.saturating_sub(added);
                let mut pass = BlockWriting {
                    log,
                    reaches,
                    common,
                    step: BlockStep::Cut(common),
                    refusing: None,
                };
                if log.reaches <= common {
                    pass.step = pass.fill();
                }
                pass
            },
        }
    }

    /// Takes what cutting the log came to.
    pub fn cut(&mut self, refused: Option<String>)
        requires
            old(self).wf(),
            old(self).step is Cut,
        ensures
            final(self).wf(),
            final(self).log == old(self).log,
            final(self).reaches == old(self).reaches,
            final(self).common == old(self).common,
            match refused {
                Some(words) => final(self).step == BlockStep::Done && (final(self).refusing matches Some(
                    refusing,
                ) && refusing.what == Writing::Blocks && refusing.because@ == words@),
                None => final(self).step == final(self).fill_step() && final(self).refusing == old(self).refusing,
            },
    {
        match refused {
            Some(words) => {
                self.refusing = Some(Refusing { what: Writing::Blocks, because: words });
                self.step = BlockStep::Done;
            },
            None => {
                self.step = self.fill();
            },
        }
    }

    /// Takes whether the chain holds the body asked about. One it does is
    /// lower ground to start from; the first it does not is where starting
    /// begins, one above.
    pub fn asked(&mut self, held: bool)
        requires
            old(self).wf(),
            old(self).step is Ask,
        ensures
            final(self).wf(),
            final(self).log == old(self).log,
            final(self).reaches == old(self).reaches,
            final(self).common == old(self).common,
            final(self).refusing == old(self).refusing,
            final(self).step == if held {
                final(self).search_step(old(self).step->Ask_0)
            } else {
                final(self).append_step((old(self).step->Ask_0 + 1) as u64)
            },
    {
        let below: u64 = match self.step {
            BlockStep::Ask(below) => below,
            _ => 0,
        };
        self.step = if held {
            self.search(below)
        } else {
            self.append_from(below + 1)
        };
    }

    /// What is said of a block there is nowhere left to read from.
    pub open spec fn block_gone(height: u64) -> Seq<char> {
        "the block at height "@ + decimal(height as nat)
            + " left memory before the disk took it, so there is nowhere left to read it from"@
    }

    /// Takes what writing one block came to.
    pub fn appended(&mut self, outcome: Appended)
        requires
            old(self).wf(),
            old(self).step is Append,
        ensures
            final(self).wf(),
            final(self).log == old(self).log,
            final(self).reaches == old(self).reaches,
            final(self).common == old(self).common,
            match outcome {
                Appended::Written => final(self).step == final(self).append_step(
                    (old(self).step->Append_0 + 1) as u64,
                ) && final(self).refusing == old(self).refusing,
                Appended::Gone => final(self).step == BlockStep::Done && (final(self).refusing matches Some(
                    refusing,
                ) && refusing.what == Writing::Blocks && refusing.because@ == BlockWriting::block_gone(
                    old(self).step->Append_0,
                )),
                Appended::Refused(words) => final(self).step == BlockStep::Done && (final(self).refusing matches Some(refusing) && refusing.what == Writing::Blocks
                    && refusing.because@ == words@),
            },
    {
        let height: u64 = match self.step {
            BlockStep::Append(height) => height,
            _ => 0,
        };
        match outcome {
            Appended::Written => {
                self.step = self.append_from(height + 1);
            },
            Appended::Gone => {
                let mut words = String::from_str("the block at height ");
                append_number(&mut words, height);
                words.append(
                    " left memory before the disk took it, so there is nowhere left to read it from",
                );
                self.refusing = Some(Refusing { what: Writing::Blocks, because: words });
                self.step = BlockStep::Done;
            },
            Appended::Refused(words) => {
                self.refusing = Some(Refusing { what: Writing::Blocks, because: words });
                self.step = BlockStep::Done;
            },
        }
    }
}

/// A block log that holds anything below the fork is written on from exactly
/// where it ends once it is cut, so every record sits at its own height: a log
/// that fell behind is caught up rather than written past.
pub proof fn blocks_are_written_where_the_log_ends(pass: BlockWriting)
    requires
        pass.wf(),
        !pass.log.holding_nothing(),
        pass.common > pass.log.first,
    ensures
        ({
            let ends = if pass.log.reaches > pass.common {
                pass.common
            } else {
                pass.log.reaches
            };
            pass.fill_step() == pass.append_step(ends)
        }),
{
}

/// The same of the header log.
pub proof fn headers_are_written_where_the_log_ends(pass: HeaderWriting)
    requires
        pass.wf(),
        !pass.log.holding_nothing(),
        pass.log.first < pass.common <= pass.log.reaches,
    ensures
        pass.settled_step(pass.common) == if pass.log.reaches > pass.common {
            HeaderStep::Cut(pass.common)
        } else {
            pass.append_step(pass.log.reaches)
        },
        pass.fill_from(pass.common) == pass.common,
{
}

/// What three passes after one block came to, for a block log that now reaches
/// `reaches`. The blocks are said first when more than one refused: they are
/// the half that costs a restart the chain rather than the ability to show it.
pub fn write_branch(
    headers: Option<Refusing>,
    forest: Option<Refusing>,
    blocks: Option<Refusing>,
    reaches: u64,
) -> (wrote: Wrote)
    ensures
        wrote.reaches == reaches,
        wrote.refusing == if blocks is Some {
            blocks
        } else if headers is Some {
            headers
        } else {
            forest
        },
{
    let refusing: Option<Refusing> = if blocks.is_some() {
        blocks
    } else if headers.is_some() {
        headers
    } else {
        forest
    };
    Wrote { reaches, refusing }
}

/// What filling the header log in from the blocks did.
#[derive(Debug)]
pub struct CaughtUp {
    /// Headers deleted because the blocks left them stranded.
    pub dropped: u64,
    /// Headers cut because they were of a branch the blocks are not on.
    pub replaced: u64,
    /// A read or a write that the disk refused partway through the fill.
    pub unread: Option<Unread>,
}

/// What filling the header log in does next.
#[derive(Clone, Copy, Debug, PartialEq, Eq, Structural)]
pub enum CatchUpStep {
    /// Empty the header log.
    Empty,
    /// Read the header log and the block log at this height.
    Look(u64),
    /// Cut the header log to what is below this height.
    Cut(u64),
    /// Read the block at this height and write its header at the end of the
    /// header log.
    Copy(u64),
    Done,
}

/// What copying one header off a block came to.
#[derive(Debug)]
pub enum Copied {
    Written,
    /// The block log holds nothing there.
    Missing,
    /// The block would not be read.
    Unread(String),
    /// The header would not be written.
    Unwritten(String),
}

/// Filling the header log in from the blocks, for the stretch it is missing.
///
/// Best effort: it stops where the disk stopped answering and keeps what it
/// wrote.
#[derive(Debug)]
pub struct CatchingUp {
    pub headers: Extent,
    pub blocks: Extent,
    /// The lowest height the walk goes back to.
    pub bottom: u64,
    pub step: CatchUpStep,
    pub done: CaughtUp,
}

impl CatchingUp {
    /// The top of what both logs hold.
    pub open spec fn top(&self) -> u64 {
        if self.headers.reaches < self.blocks.reaches {
            self.headers.reaches
        } else {
            self.blocks.reaches
        }
    }

    /// Where the fill begins when the header log is left as it is.
    pub open spec fn from(&self) -> u64 {
        if self.headers.holding_nothing() {
            self.blocks.first
        } else {
            self.headers.reaches
        }
    }

    pub open spec fn wf(&self) -> bool {
        &&& self.headers.wf()
        &&& self.blocks.wf()
        &&& match self.step {
            CatchUpStep::Look(height) => self.bottom <= height < self.top(),
            CatchUpStep::Cut(height) => height < self.top(),
            CatchUpStep::Copy(height) => height < self.blocks.reaches,
            _ => true,
        }
    }

    pub open spec fn copy_step(&self, height: u64) -> CatchUpStep {
        if height < self.blocks.reaches {
            CatchUpStep::Copy(height)
        } else {
            CatchUpStep::Done
        }
    }

    /// The step with every height from `above` to the top known to differ.
    pub open spec fn walk_step(&self, above: u64) -> CatchUpStep {
        if above > self.bottom {
            CatchUpStep::Look((above - 1) as u64)
        } else {
            self.copy_step(self.from())
        }
    }

    fn copy_from(&self, height: u64) -> (step: CatchUpStep)
        ensures
            step == self.copy_step(height),
    {
        if height < self.blocks.reaches {
            CatchUpStep::Copy(height)
        } else {
            CatchUpStep::Done
        }
    }

    fn lowest(&self) -> (top: u64)
        ensures
            top == self.top(),
    {
        if self.headers.reaches < self.blocks.reaches {
            self.headers.reaches
        } else {
            self.blocks.reaches
        }
    }

    fn start(&self) -> (from: u64)
        ensures
            from == self.from(),
    {
        if self.headers.is_empty() {
            self.blocks.first
        } else {
            self.headers.reaches
        }
    }

    fn walk(&self, above: u64) -> (step: CatchUpStep)
        ensures
            step == self.walk_step(above),
    {
        if above > self.bottom {
            CatchUpStep::Look(above - 1)
        } else {
            self.copy_from(self.start())
        }
    }

    /// The lowest height two logs can have come apart at: what both hold, and
    /// no further than `window` below the top.
    pub open spec fn walks_down_to(headers: Extent, blocks: Extent, window: u64) -> u64 {
        let top = if headers.reaches < blocks.reaches {
            headers.reaches
        } else {
            blocks.reaches
        };
        let reach = top.saturating_sub(window);
        let shared = if headers.first < blocks.first {
            blocks.first
        } else {
            headers.first
        };
        if shared < reach {
            reach
        } else {
            shared
        }
    }

    /// Begins filling in a header log holding `headers` from a block log
    /// holding `blocks`, on a chain that reorganises no deeper than `window`.
    ///
    /// Headers that stop before the blocks start are a gap nothing can fill,
    /// and are dropped. Otherwise the header log is walked back to where it is
    /// on the branch the blocks are on, as far as a reorganisation reaches.
    pub fn catch_up_headers(headers: Extent, blocks: Extent, window: u64) -> (pass: CatchingUp)
        requires
            headers.wf(),
            blocks.wf(),
        ensures
            pass.wf(),
            pass.headers == headers,
            pass.blocks == blocks,
            pass.bottom == CatchingUp::walks_down_to(headers, blocks, window),
            pass.done.dropped == 0,
            pass.done.replaced == 0,
            pass.done.unread is None,
            pass.step == if blocks.holding_nothing() {
                CatchUpStep::Done
            } else if pass.from() < blocks.first {
                CatchUpStep::Empty
            } else {
                pass.walk_step(pass.top())
            },
    {
        let top: u64 = if headers.reaches < blocks.reaches {
            headers.reaches
        } else {
            blocks.reaches
        };
        let reach: u64 = top.saturating_sub(window);
        let shared: u64 = if headers.first < blocks.first {
            blocks.first
        } else {
            headers.first
        };
        let bottom: u64 = if shared < reach {
            reach
        } else {
            shared
        };
        let mut pass = CatchingUp {
            headers,
            blocks,
            bottom,
            step: CatchUpStep::Done,
            done: CaughtUp { dropped: 0, replaced: 0, unread: None },
        };
        if blocks.is_empty() {
            return pass;
        }
        if pass.start() < blocks.first {
            pass.step = CatchUpStep::Empty;
        } else {
            pass.step = pass.walk(top);
        }
        pass
    }

    /// Takes what emptying the header log came to.
    pub fn emptied(&mut self, refused: Option<String>)
        requires
            old(self).wf(),
            old(self).step is Empty,
        ensures
            final(self).wf(),
            final(self).headers == old(self).headers,
            final(self).blocks == old(self).blocks,
            final(self).bottom == old(self).bottom,
            final(self).done.replaced == old(self).done.replaced,
            match refused {
                Some(words) => final(self).step == CatchUpStep::Done && final(self).done.dropped == old(self).done.dropped && (final(self).done.unread matches Some(unread) && unread.what
                    == Reading::Headers && unread.height == 0 && unread.because@ == words@
                    && unread.refusals == 1),
                None => final(self).step == final(self).copy_step(final(self).blocks.first) && final(self).done.dropped == final(self).headers.reaches - final(self).headers.first && final(self).done.unread == old(self).done.unread,
            },
    {
        match refused {
            Some(words) => {
                self.done.unread = Some(stopped_at(Reading::Headers, 0, words.as_str()));
                self.step = CatchUpStep::Done;
            },
            None => {
                self.done.dropped = self.headers.len();
                self.step = self.copy_from(self.blocks.first);
            },
        }
    }

    /// Takes what a look found: the identifier each log holds there, or `None`
    /// from one that would not or could not say.
    ///
    /// A record either side will not read ends the walk with nothing to cut,
    /// and so does finding no height where the two agree.
    pub fn off_the_branch(&mut self, held: Option<Hash32>, block: Option<Hash32>)
        requires
            old(self).wf(),
            old(self).step is Look,
        ensures
            final(self).wf(),
            final(self).headers == old(self).headers,
            final(self).blocks == old(self).blocks,
            final(self).bottom == old(self).bottom,
            final(self).done == old(self).done,
            final(self).step == match (held, block) {
                (Some(held), Some(block)) => {
                    let fork = (old(self).step->Look_0 + 1) as u64;
                    if held != block {
                        final(self).walk_step(old(self).step->Look_0)
                    } else if fork < final(self).top() {
                        CatchUpStep::Cut(fork)
                    } else {
                        final(self).copy_step(final(self).from())
                    }
                },
                _ => final(self).copy_step(final(self).from()),
            },
            match (held, block) {
                (Some(held), Some(block)) => {
                    let at = old(self).step->Look_0;
                    forall|differs: spec_fn(u64) -> bool|
                        differs(at) == (held != block) ==> #[trigger] parts_at(
                            old(self).bottom,
                            (at + 1) as u64,
                            differs,
                        ) == (if held != block {
                            parts_at(old(self).bottom, at, differs)
                        } else {
                            (at + 1) as u64
                        })
                },
                _ => true,
            },
    {
        let at: u64 = match self.step {
            CatchUpStep::Look(at) => at,
            _ => 0,
        };
        match (held, block) {
            (Some(held), Some(block)) => {
                if held == block {
                    let fork: u64 = at + 1;
                    if fork < self.lowest() {
                        self.step = CatchUpStep::Cut(fork);
                    } else {
                        self.step = self.copy_from(self.start());
                    }
                } else {
                    self.step = self.walk(at);
                }
            },
            _ => {
                self.step = self.copy_from(self.start());
            },
        }
    }

    /// Takes what cutting the header log at the fork came to.
    pub fn cut(&mut self, refused: Option<String>)
        requires
            old(self).wf(),
            old(self).step is Cut,
        ensures
            final(self).wf(),
            final(self).headers == old(self).headers,
            final(self).blocks == old(self).blocks,
            final(self).bottom == old(self).bottom,
            final(self).done.dropped == old(self).done.dropped,
            match refused {
                Some(words) => final(self).step == CatchUpStep::Done && final(self).done.replaced == old(self).done.replaced && (final(self).done.unread matches Some(unread) && unread.what
                    == Reading::Headers && unread.height == old(self).step->Cut_0 && unread.because@
                    == words@ && unread.refusals == 1),
                None => final(self).step == final(self).copy_step(old(self).step->Cut_0) && final(self).done.replaced == final(self).headers.reaches - old(self).step->Cut_0 && final(self).done.unread == old(self).done.unread,
            },
    {
        let fork: u64 = match self.step {
            CatchUpStep::Cut(fork) => fork,
            _ => 0,
        };
        match refused {
            Some(words) => {
                self.done.unread = Some(stopped_at(Reading::Headers, fork, words.as_str()));
                self.step = CatchUpStep::Done;
            },
            None => {
                self.done.replaced = self.headers.reaches - fork;
                self.step = self.copy_from(fork);
            },
        }
    }

    /// Takes what copying one header off a block came to. Either half can
    /// refuse, and each is this node's own disk.
    pub fn catch_up_from(&mut self, outcome: Copied)
        requires
            old(self).wf(),
            old(self).step is Copy,
        ensures
            final(self).wf(),
            final(self).headers == old(self).headers,
            final(self).blocks == old(self).blocks,
            final(self).bottom == old(self).bottom,
            final(self).done.dropped == old(self).done.dropped,
            final(self).done.replaced == old(self).done.replaced,
            match outcome {
                Copied::Written => final(self).step == final(self).copy_step(
                    (old(self).step->Copy_0 + 1) as u64,
                ) && final(self).done.unread == old(self).done.unread,
                Copied::Missing => final(self).step == CatchUpStep::Done && final(self).done.unread
                    == old(self).done.unread,
                Copied::Unread(words) => final(self).step == CatchUpStep::Done && (final(self).done.unread matches Some(unread) && unread.what == Reading::Blocks
                    && unread.height == old(self).step->Copy_0 && unread.because@ == words@
                    && unread.refusals == 1),
                Copied::Unwritten(words) => final(self).step == CatchUpStep::Done && (final(self).done.unread matches Some(unread) && unread.what == Reading::Headers
                    && unread.height == old(self).step->Copy_0 && unread.because@ == words@
                    && unread.refusals == 1),
            },
    {
        let height: u64 = match self.step {
            CatchUpStep::Copy(height) => height,
            _ => 0,
        };
        match outcome {
            Copied::Written => {
                self.step = self.copy_from(height + 1);
            },
            Copied::Missing => {
                self.step = CatchUpStep::Done;
            },
            Copied::Unread(words) => {
                self.done.unread = Some(stopped_at(Reading::Blocks, height, words.as_str()));
                self.step = CatchUpStep::Done;
            },
            Copied::Unwritten(words) => {
                self.done.unread = Some(stopped_at(Reading::Headers, height, words.as_str()));
                self.step = CatchUpStep::Done;
            },
        }
    }
}

/// A pass over the headers begins where the shorter of the log and the chain
/// ends, and looks below that while there is anything of the log to look at.
/// With no chain there is nothing to do.
pub proof fn a_pass_over_headers_begins_where_the_shorter_ends(
    log: Extent,
    height: Option<u64>,
    held_from: u64,
    pass: HeaderWriting,
)
    requires
        call_ensures(HeaderWriting::write_headers, (log, height, held_from), pass),
    ensures
        height is None ==> pass.step is Done,
        height matches Some(height) ==> height < u64::MAX ==> {
            &&& pass.common <= log.reaches && pass.common <= height + 1
            &&& pass.common == log.reaches || pass.common == height + 1
            &&& log.first < pass.common ==> (pass.step matches HeaderStep::Look(at) && at + 1
                == pass.common)
            &&& pass.common <= log.first && pass.common < log.reaches ==> pass.step
                == HeaderStep::Cut(pass.common)
            &&& pass.common <= log.first && log.reaches <= pass.common && held_from <= height
                ==> pass.step == HeaderStep::Append(held_from)
        },
        pass.refusing is None,
{
}

/// A header the log holds otherwise than the chain sends a pass one further
/// down, and so does one that cannot be read, which is said. One that is the
/// same, or that the chain has let go of, is where the pass settles: what the
/// log holds past it is cut off.
pub proof fn a_header_that_differs_sends_a_pass_down(
    pass: &mut HeaderWriting,
    held: Result<Option<Hash32>, String>,
    now: Option<Hash32>,
)
    requires
        call_ensures(HeaderWriting::looked, (pass, held, now), ()),
        old(pass).log.first < old(pass).common,
    ensures
        ({
            let differs = now is Some && !(held matches Ok(held) && held == now);
            &&& differs ==> final(pass).common == old(pass).common - 1 && (if final(pass).common
                > old(pass).log.first {
                final(pass).step matches HeaderStep::Look(at) && at + 1 == final(pass).common
            } else {
                !(final(pass).step is Look)
            })
            &&& !differs ==> final(pass).common == old(pass).common && !(final(pass).step is Look)
            &&& !(final(pass).step is Look) && final(pass).common < old(pass).log.reaches
                ==> final(pass).step == HeaderStep::Cut(final(pass).common)
            &&& !(final(pass).step is Look) && final(pass).common >= old(pass).log.reaches ==> !(
            final(pass).step is Cut)
        }),
        held matches Err(words) ==> old(pass).refusing is None ==> (
        final(pass).refusing matches Some(refusing) && refusing.because@ == words@),
        held is Ok || old(pass).refusing is Some ==> final(pass).refusing == old(pass).refusing,
        final(pass).log == old(pass).log,
        final(pass).reaches == old(pass).reaches,
{
}

/// Once the log is cut, headers are written from there up to the tip, and from
/// the lowest the chain holds where nothing of the log is left. A cut refused
/// ends the pass.
pub proof fn headers_are_written_from_the_cut_up(pass: &mut HeaderWriting, refused: Option<String>)
    requires
        call_ensures(HeaderWriting::cut, (pass, refused), ()),
    ensures
        refused matches Some(words) ==> final(pass).step is Done && (
        final(pass).refusing matches Some(refusing) && refusing.because@ == words@),
        refused is None ==> {
            let kept = old(pass).log.first != old(pass).log.reaches && old(pass).log.first
                < old(pass).common;
            &&& kept && old(pass).common < old(pass).reaches ==> final(pass).step
                == HeaderStep::Append(old(pass).common)
            &&& !kept && old(pass).held_from < old(pass).reaches ==> final(pass).step
                == HeaderStep::Append(old(pass).held_from)
            &&& kept && old(pass).common >= old(pass).reaches ==> final(pass).step is Done
            &&& !kept && old(pass).held_from >= old(pass).reaches ==> final(pass).step is Done
            &&& final(pass).refusing == old(pass).refusing
        },
{
}

/// A header written is followed by the next until the tip is. One the chain has
/// let go of or the disk refuses ends the pass and is said; what was already
/// being said stands over a header that is gone.
pub proof fn headers_are_written_one_after_another(
    pass: &mut HeaderWriting,
    outcome: Appended,
    at: u64,
)
    requires
        call_ensures(HeaderWriting::appended, (pass, outcome), ()),
        old(pass).step == HeaderStep::Append(at),
        at < old(pass).reaches,
    ensures
        outcome is Written && at + 1 < old(pass).reaches ==> (
        final(pass).step matches HeaderStep::Append(next) && next == at + 1),
        outcome is Written && at + 1 >= old(pass).reaches ==> final(pass).step is Done,
        outcome is Written ==> final(pass).refusing == old(pass).refusing,
        outcome is Gone ==> final(pass).step is Done && final(pass).refusing is Some,
        outcome is Gone && old(pass).refusing is Some ==> final(pass).refusing
            == old(pass).refusing,
        outcome matches Appended::Refused(words) ==> final(pass).step is Done && (
        final(pass).refusing matches Some(refusing) && refusing.because@ == words@),
{
}

/// A forest is grown only over headers held from the first. It is looked at
/// from where the shorter of it and the headers ends.
pub proof fn a_forest_grows_from_the_first_header(
    leaves: u64,
    headers: Extent,
    pass: ForestGrowing,
)
    requires
        call_ensures(ForestGrowing::grow_forest, (leaves, headers), pass),
    ensures
        headers.first > 0 ==> pass.step is Done,
        headers.first == 0 ==> {
            &&& pass.common <= leaves && pass.common <= headers.reaches
            &&& pass.common == leaves || pass.common == headers.reaches
            &&& pass.common > 0 ==> (pass.step matches ForestStep::Look(at) && at + 1
                == pass.common)
            &&& pass.common == 0 && leaves > 0 ==> pass.step == ForestStep::Cut(0)
            &&& pass.common == 0 && leaves == 0 && headers.reaches > 0 ==> pass.step
                == ForestStep::Append(0)
        },
        pass.refusing is None,
{
}

/// A leaf of another header, or one that is not there, sends a pass one further
/// down; the first that is the header's own is where it settles, and leaves past
/// it are cut off. What cannot be read ends the pass.
pub proof fn a_leaf_that_differs_sends_a_pass_down(
    pass: &mut ForestGrowing,
    found: Result<(Option<Hash32>, Option<Hash32>), String>,
)
    requires
        call_ensures(ForestGrowing::looked, (pass, found), ()),
        old(pass).common > 0,
    ensures
        found matches Err(words) ==> final(pass).step is Done && (
        final(pass).refusing matches Some(refusing) && refusing.because@ == words@),
        found matches Ok((held, now)) ==> {
            let same = held is Some && held == now;
            &&& same ==> final(pass).common == old(pass).common && !(final(pass).step is Look)
            &&& !same ==> final(pass).common == old(pass).common - 1
            &&& !same && final(pass).common > 0 ==> (final(pass).step matches ForestStep::Look(at)
                && at + 1 == final(pass).common)
            &&& (same || final(pass).common == 0) && final(pass).common < old(pass).leaves
                ==> final(pass).step == ForestStep::Cut(final(pass).common)
            &&& (same || final(pass).common == 0) && final(pass).common >= old(pass).leaves
                && old(pass).leaves < old(pass).reaches ==> final(pass).step == ForestStep::Append(
                old(pass).leaves,
            )
        },
{
}

/// Leaves are added from the cut up, one for each header, and what goes wrong
/// ends the pass.
pub proof fn leaves_are_added_from_the_cut_up(
    cut: &mut ForestGrowing,
    refused: Option<String>,
    adding: &mut ForestGrowing,
    outcome: Appended,
    at: u64,
)
    requires
        call_ensures(ForestGrowing::cut, (cut, refused), ()),
        call_ensures(ForestGrowing::appended, (adding, outcome), ()),
        old(adding).step == ForestStep::Append(at),
        at < old(adding).reaches,
    ensures
        refused is Some ==> final(cut).step is Done && final(cut).refusing is Some,
        refused is None && old(cut).common < old(cut).reaches ==> final(cut).step
            == ForestStep::Append(old(cut).common),
        refused is None && old(cut).common >= old(cut).reaches ==> final(cut).step is Done,
        outcome is Written && at + 1 < old(adding).reaches ==> (
        final(adding).step matches ForestStep::Append(next) && next == at + 1),
        outcome is Written && at + 1 >= old(adding).reaches ==> final(adding).step is Done,
        !(outcome is Written) ==> final(adding).step is Done,
        outcome is Gone || outcome is Written ==> final(adding).refusing == old(adding).refusing,
        outcome is Refused ==> final(adding).refusing is Some,
{
}

/// Blocks are written only where the tip moved. What the log holds from where
/// the added blocks begin is cut off first.
pub proof fn blocks_are_written_where_the_tip_moved(
    log: Extent,
    accepted: Accepted,
    height: Option<u64>,
    pass: BlockWriting,
)
    requires
        call_ensures(BlockWriting::write_blocks, (log, accepted, height), pass),
    ensures
        accepted is Duplicate || accepted is SideBranch || height is None ==> pass.step is Done,
        (accepted is Extended || accepted is Reorganised) && height is Some ==> {
            let added = match accepted {
                Accepted::Reorganised { added } => added,
                _ => 1,
            };
            &&& height matches Some(height) ==> (height < u64::MAX && added <= height + 1
                ==> pass.common + added == height + 1 && pass.reaches == height + 1)
            &&& pass.common < log.reaches ==> pass.step == BlockStep::Cut(pass.common)
            &&& pass.common >= log.reaches && log.first < log.reaches && log.first < pass.common
                && log.reaches < pass.reaches ==> pass.step == BlockStep::Append(log.reaches)
            &&& pass.common >= log.reaches && log.first == log.reaches && pass.common > 0 ==> (
            pass.step matches BlockStep::Ask(at) && at + 1 == pass.common)
        },
        pass.refusing is None,
{
}

/// A log with nothing left to go on from is begun at the lowest block still in
/// memory: each held sends the search one further down.
pub proof fn a_log_is_begun_at_the_lowest_block_held(pass: &mut BlockWriting, held: bool, at: u64)
    requires
        call_ensures(BlockWriting::asked, (pass, held), ()),
        old(pass).step == BlockStep::Ask(at),
        at < u64::MAX,
    ensures
        held && at > 0 ==> (final(pass).step matches BlockStep::Ask(next) && next + 1 == at),
        held && at == 0 && 0 < old(pass).reaches ==> final(pass).step == BlockStep::Append(0),
        !held && at + 1 < old(pass).reaches ==> (final(pass).step matches BlockStep::Append(next)
            && next == at + 1),
        !held && at + 1 >= old(pass).reaches ==> final(pass).step is Done,
        final(pass).refusing == old(pass).refusing,
{
}

/// A block written is followed by the next until the tip is. One that left
/// memory first or that the disk refuses ends the pass, and is said.
pub proof fn blocks_are_written_one_after_another(
    pass: &mut BlockWriting,
    outcome: Appended,
    at: u64,
    cut: &mut BlockWriting,
    refused: Option<String>,
)
    requires
        call_ensures(BlockWriting::appended, (pass, outcome), ()),
        old(pass).step == BlockStep::Append(at),
        at < old(pass).reaches,
        call_ensures(BlockWriting::cut, (cut, refused), ()),
    ensures
        outcome is Written && at + 1 < old(pass).reaches ==> (
        final(pass).step matches BlockStep::Append(next) && next == at + 1),
        outcome is Written && at + 1 >= old(pass).reaches ==> final(pass).step is Done,
        outcome is Written ==> final(pass).refusing == old(pass).refusing,
        outcome is Gone || outcome is Refused ==> final(pass).step is Done
            && final(pass).refusing is Some,
        refused is Some ==> final(cut).step is Done && final(cut).refusing is Some,
        refused is None && old(cut).log.first < old(cut).common < old(cut).log.reaches
            && old(cut).common < old(cut).reaches ==> final(cut).step == BlockStep::Append(
            old(cut).common,
        ),
        refused is None && old(cut).common <= old(cut).log.first && old(cut).common > 0 ==> (
        final(cut).step matches BlockStep::Ask(next) && next + 1 == old(cut).common),
{
}

/// Of what was refused of a branch, blocks are said before headers and headers
/// before the forest over them.
pub proof fn a_branch_says_its_blocks_first(
    headers: Option<Refusing>,
    forest: Option<Refusing>,
    blocks: Option<Refusing>,
    reaches: u64,
    wrote: Wrote,
)
    requires
        call_ensures(write_branch, (headers, forest, blocks, reaches), wrote),
    ensures
        wrote.reaches == reaches,
        blocks is Some ==> wrote.refusing == blocks,
        blocks is None && headers is Some ==> wrote.refusing == headers,
        blocks is None && headers is None ==> wrote.refusing == forest,
{
}

/// Headers catch up with blocks from where the two last agree, no further down
/// than they both go nor than a window below the shorter. Headers that end
/// below the first block are emptied out first, and with no blocks there is
/// nothing to catch up with.
pub proof fn headers_catch_up_with_blocks(
    headers: Extent,
    blocks: Extent,
    window: u64,
    pass: CatchingUp,
)
    requires
        call_ensures(CatchingUp::catch_up_headers, (headers, blocks, window), pass),
        headers.first <= headers.reaches,
        blocks.first <= blocks.reaches,
    ensures
        blocks.first == blocks.reaches ==> pass.step is Done,
        blocks.first < blocks.reaches && headers.first < headers.reaches && headers.reaches
            < blocks.first ==> pass.step is Empty,
        headers.first <= pass.bottom && blocks.first <= pass.bottom,
        headers.reaches <= pass.bottom + window || blocks.reaches <= pass.bottom + window,
        pass.bottom == headers.first || pass.bottom == blocks.first || pass.bottom + window
            == headers.reaches || pass.bottom + window == blocks.reaches,
        blocks.first < blocks.reaches && headers.first == headers.reaches && (headers.reaches
            <= pass.bottom || blocks.reaches <= pass.bottom) ==> pass.step == CatchUpStep::Copy(
            blocks.first,
        ),
        pass.step matches CatchUpStep::Look(at) ==> (at + 1 == headers.reaches || at + 1
            == blocks.reaches) && at < headers.reaches && at < blocks.reaches,
        pass.done.dropped == 0 && pass.done.replaced == 0 && pass.done.unread is None,
{
}

/// A header that is not its block's sends the walk one further down, as far as
/// it goes. The first that is one is kept and those past it cut off, and
/// headers are then copied from where the log ends.
pub proof fn a_header_off_the_branch_sends_the_walk_down(
    pass: &mut CatchingUp,
    held: Hash32,
    block: Hash32,
    at: u64,
)
    requires
        call_ensures(CatchingUp::off_the_branch, (pass, Some(held), Some(block)), ()),
        old(pass).step == CatchUpStep::Look(at),
        old(pass).bottom <= at < old(pass).headers.reaches,
        at < old(pass).blocks.reaches,
    ensures
        held != block && old(pass).bottom < at ==> (final(pass).step matches CatchUpStep::Look(next)
            && next + 1 == at),
        held == block && at + 1 < old(pass).headers.reaches && at + 1 < old(pass).blocks.reaches
            ==> (final(pass).step matches CatchUpStep::Cut(fork) && fork == at + 1),
        held == block && at + 1 == old(pass).headers.reaches && old(pass).headers.first
            < old(pass).headers.reaches && old(pass).headers.reaches < old(pass).blocks.reaches
            ==> final(pass).step == CatchUpStep::Copy(old(pass).headers.reaches),
        final(pass).done == old(pass).done,
{
}

/// What was emptied out or cut off is counted, and headers are copied from
/// there. What the disk refuses ends the catching up, and is said.
pub proof fn what_is_cut_off_is_counted(
    emptied: &mut CatchingUp,
    refused: Option<String>,
    cut: &mut CatchingUp,
    fork: u64,
)
    requires
        call_ensures(CatchingUp::emptied, (emptied, refused), ()),
        call_ensures(CatchingUp::cut, (cut, refused), ()),
        old(cut).step == CatchUpStep::Cut(fork),
        fork < old(cut).blocks.reaches,
        old(emptied).headers.first <= old(emptied).headers.reaches,
    ensures
        refused is Some ==> final(emptied).step is Done && final(cut).step is Done
            && final(emptied).done.unread is Some && final(cut).done.unread is Some,
        refused is Some ==> final(emptied).done.dropped == old(emptied).done.dropped
            && final(cut).done.replaced == old(cut).done.replaced,
        refused is None ==> {
            &&& final(emptied).done.dropped + old(emptied).headers.first
                == old(emptied).headers.reaches
            &&& old(emptied).blocks.first < old(emptied).blocks.reaches ==> final(emptied).step
                == CatchUpStep::Copy(old(emptied).blocks.first)
            &&& fork <= old(cut).headers.reaches ==> final(cut).done.replaced + fork
                == old(cut).headers.reaches
            &&& final(cut).step == CatchUpStep::Copy(fork)
        },
{
}

/// Headers are copied one after another up to where the blocks end. One with no
/// block to come from, or that cannot be read or written, ends it there.
pub proof fn headers_are_copied_one_after_another(pass: &mut CatchingUp, outcome: Copied, at: u64)
    requires
        call_ensures(CatchingUp::catch_up_from, (pass, outcome), ()),
        old(pass).step == CatchUpStep::Copy(at),
        at < old(pass).blocks.reaches,
    ensures
        outcome is Written && at + 1 < old(pass).blocks.reaches ==> (
        final(pass).step matches CatchUpStep::Copy(next) && next == at + 1),
        outcome is Written && at + 1 >= old(pass).blocks.reaches ==> final(pass).step is Done,
        !(outcome is Written) ==> final(pass).step is Done,
        outcome is Written || outcome is Missing ==> final(pass).done.unread
            == old(pass).done.unread,
        outcome is Unread || outcome is Unwritten ==> (final(pass).done.unread matches Some(unread)
            && unread.height == at && unread.refusals == 1),
        final(pass).done.dropped == old(pass).done.dropped,
        final(pass).done.replaced == old(pass).done.replaced,
{
}

} // verus!
