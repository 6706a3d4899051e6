//! Answering a peer off this node's own memory and disk.
//!
//! A run is gathered a few records at a time, so that no one take of the disk
//! answers for the whole of it. A run assembled that way is assembled across a
//! log that can move in between, so it is refused whole where its pieces do
//! not follow on.

use vstd::prelude::*;

use crate::calls::handed_on;
use crate::filling::MAX_HEADERS;
use crate::network::{Hash32, Located};
use crate::outbound::Outbound;
use crate::sync::{serving_cost, PeerState, Reaction, ReactionView};

verus! {

/// The most header reads any one take of the log answers for.
pub const READS_PER_HOLD: u64 = 32;

/// The same for block records.
pub const BLOCKS_PER_HOLD: usize = 8;

/// How many are asked for at a time: never none.
pub open spec fn at_a_time(per_take: usize) -> usize {
    if per_take == 0 {
        1
    } else {
        per_take
    }
}

/// How much of `total` the take with number `at` is asked for.
pub open spec fn run_of(total: usize, per_take: usize, at: int) -> int {
    if total - at * per_take < per_take {
        total - at * per_take
    } else {
        per_take as int
    }
}

/// Whether there was nothing left to ask for, or no point in asking.
pub open spec fn ended<S, T>(total: usize, per_take: usize, takes: Seq<(S, (Vec<T>, bool))>) -> bool {
    takes.len() * per_take >= total || (takes.len() > 0 && !takes.last().1.1)
}

/// Everything a run of takes brought, in order.
pub open spec fn brought<S, T>(takes: Seq<(S, (Vec<T>, bool))>) -> Seq<T>
    decreases takes.len(),
{
    if takes.len() == 0 {
        Seq::empty()
    } else {
        brought(takes.drop_last()) + takes.last().1.0@
    }
}

/// Whether each of a run was found to belong directly after the one before it.
pub open spec fn follow_on<T, G: Fn(&T, &T) -> bool>(follows: G, run: Seq<T>) -> bool {
    forall|before: int, after: int|
        #![trigger run[before], run[after]]
        0 <= before < after < run.len() && after == before + 1 ==> call_ensures(
            follows,
            (&run[before], &run[after]),
            true,
        )
}

/// Whether one of a run was found not to belong after the one before it.
pub open spec fn torn<T, G: Fn(&T, &T) -> bool>(follows: G, run: Seq<T>) -> bool {
    exists|before: int, after: int|
        #![trigger run[before], run[after]]
        0 <= before < after < run.len() && after == before + 1 && call_ensures(
            follows,
            (&run[before], &run[after]),
            false,
        )
}

/// Whether a run of takes has earned another: something is left to ask for,
/// there is a point in asking, and what they brought follows on.
pub open spec fn earned<S, T, G: Fn(&T, &T) -> bool>(
    follows: G,
    total: usize,
    per_take: usize,
    takes: Seq<(S, (Vec<T>, bool))>,
) -> bool {
    !ended(total, per_take, takes) && follow_on(follows, brought(takes))
}

/// Whether `takes` are all the takes there were in asking for `total`
/// positions, `per_take` at a time and starting from `hand`: each of them
/// earned by those before it, given what the last of those handed on, and one
/// that `may` be what its number comes to.
pub open spec fn are_takes<S, T, G: Fn(&T, &T) -> bool>(
    may: spec_fn(S, int, (S, (Vec<T>, bool))) -> bool,
    follows: G,
    hand: S,
    total: usize,
    per_take: usize,
    takes: Seq<(S, (Vec<T>, bool))>,
) -> bool
    decreases takes.len(),
{
    takes.len() > 0 ==> {
        let before = takes.drop_last();
        &&& are_takes(may, follows, hand, total, per_take, before)
        &&& earned(follows, total, per_take, before)
        &&& may(handed_on(hand, before), before.len() as int, takes.last())
    }
}

/// What the take with a given number may come to, by `take`.
pub open spec fn by_taking<S, T, F: Fn(S, usize, usize) -> (S, (Vec<T>, bool))>(
    take: F,
    total: usize,
    per_take: usize,
) -> spec_fn(S, int, (S, (Vec<T>, bool))) -> bool {
    |hand: S, at: int, took: (S, (Vec<T>, bool))|
        call_ensures(
            take,
            (hand, (at * per_take) as usize, run_of(total, per_take, at) as usize),
            took,
        )
}

/// Whether `gathered` is what all the takes there were come to, with what the
/// last of them handed on: everything they brought, each following on from the
/// last, or nothing at all where one of them did not.
pub open spec fn gathered_from<S, T, G: Fn(&T, &T) -> bool>(
    may: spec_fn(S, int, (S, (Vec<T>, bool))) -> bool,
    follows: G,
    hand: S,
    total: usize,
    per_take: usize,
    gathered: (S, Seq<T>),
) -> bool {
    exists|takes: Seq<(S, (Vec<T>, bool))>| #[trigger]
        are_takes(may, follows, hand, total, per_take, takes) && gathered.0 == handed_on(hand, takes)
            && ((ended(total, per_take, takes) && gathered.1 == brought(takes) && follow_on(
            follows,
            gathered.1,
        )) || (takes.len() > 0 && gathered.1.len() == 0 && torn(follows, brought(takes))))
}

proof fn takes_that_may_be_otherwise<S, T, G: Fn(&T, &T) -> bool>(
    may: spec_fn(S, int, (S, (Vec<T>, bool))) -> bool,
    other: spec_fn(S, int, (S, (Vec<T>, bool))) -> bool,
    follows: G,
    hand: S,
    total: usize,
    per_take: usize,
    takes: Seq<(S, (Vec<T>, bool))>,
)
    requires
        are_takes(may, follows, hand, total, per_take, takes),
        forall|hand: S, at: int, took: (S, (Vec<T>, bool))|
            0 <= at && at * per_take < total && #[trigger] may(hand, at, took) ==> other(hand, at, took),
    ensures
        are_takes(other, follows, hand, total, per_take, takes),
    decreases takes.len(),
{
    if takes.len() > 0 {
        takes_that_may_be_otherwise(may, other, follows, hand, total, per_take, takes.drop_last());
    }
}

/// A run is taken in order and no further than there is a point: a take starts
/// where the runs before it end and asks for something, it was given what the
/// one before it handed on, every one before it said to go on, and what they
/// brought follows on. For nothing at all, none is made.
pub proof fn takes_are_made_in_order<S, T, G: Fn(&T, &T) -> bool>(
    may: spec_fn(S, int, (S, (Vec<T>, bool))) -> bool,
    follows: G,
    hand: S,
    total: usize,
    per_take: usize,
    takes: Seq<(S, (Vec<T>, bool))>,
    at: int,
)
    requires
        are_takes(may, follows, hand, total, per_take, takes),
        0 <= at < takes.len(),
    ensures
        at * per_take < total,
        0 < at ==> takes[at - 1].1.1,
        follow_on(follows, brought(takes.take(at))),
        may(handed_on(hand, takes.take(at)), at, takes[at]),
    decreases takes.len(),
{
    let before = takes.drop_last();
    if at == takes.len() - 1 {
        assert(takes.take(at) =~= before);
    } else {
        takes_are_made_in_order(may, follows, hand, total, per_take, before, at);
        assert(before.take(at) =~= takes.take(at));
    }
}

/// Puts `some` behind a run, as long as each of it follows on from the last;
/// `None` once one does not.
fn joined_on<T, G: Fn(&T, &T) -> bool>(run: Vec<T>, some: Vec<T>, follows: &G) -> (joined: Option<
    Vec<T>,
>)
    requires
        forall|before: T, after: T| #[trigger] call_requires(follows, (&before, &after)),
        follow_on(*follows, run@),
    ensures
        match joined {
            Some(joined) => joined@ == run@ + some@ && follow_on(*follows, joined@),
            None => torn(*follows, run@ + some@),
        },
{
    let ghost held = run@;
    let ghost brings = some@;
    let mut all = run;
    let mut left = some;
    let ghost mut moved: int = 0;
    while left.len() > 0
        invariant
            0 <= moved <= brings.len(),
            left@ == brings.skip(moved),
            all@ == held + brings.take(moved),
            held == run@,
            brings == some@,
            follow_on(*follows, all@),
            forall|before: T, after: T| #[trigger] call_requires(follows, (&before, &after)),
        decreases left.len(),
    {
        let one = left.remove(0);
        assert(one == brings[moved]);
        let ghost whole = held + brings;
        let ghost at = held.len() + moved;
        assert(whole[at] == one);
        if all.len() > 0 {
            let last: usize = all.len() - 1;
            assert(whole[at - 1] == all@[last as int]);
            if !follows(&all[last], &one) {
                assert(call_ensures(*follows, (&whole[at - 1], &whole[at]), false));
                assert(torn(*follows, whole));
                return None;
            }
        }
        let ghost shorter = all@;
        all.push(one);
        proof {
            moved = moved + 1;
            assert(left@ =~= brings.skip(moved));
            assert(all@ =~= held + brings.take(moved));
            assert forall|before: int, after: int|
                #![trigger all@[before], all@[after]]
                0 <= before < after < all@.len() && after == before + 1 implies call_ensures(
                *follows,
                (&all@[before], &all@[after]),
                true,
            ) by {
                if after < shorter.len() {
                    assert(all@[before] == shorter[before] && all@[after] == shorter[after]);
                }
            }
        }
    }
    assert(all@ =~= held + brings);
    Some(all)
}

/// Gathers `total` positions a few at a time, so no one take of a lock
/// answers for the whole of a run.
///
/// `take` is given a start and a length, answers for that much or less, and
/// holds nothing by the time it returns. The second of its answers says whether
/// there is any point asking again. What it works on is `hand`, which each take
/// hands on to the next and the last hands back. `follows` says whether one
/// thing belongs directly after another; a run in which one does not is refused
/// whole rather than served torn.
pub fn gathered_a_few_at_a_time<
    S,
    T,
    F: Fn(S, usize, usize) -> (S, (Vec<T>, bool)),
    G: Fn(&T, &T) -> bool,
>(total: usize, per_take: usize, hand: S, take: F, follows: G) -> (gathered: (S, Vec<T>))
    requires
        forall|takes: Seq<(S, (Vec<T>, bool))>| #[trigger]
            are_takes(
                by_taking(take, total, at_a_time(per_take)),
                follows,
                hand,
                total,
                at_a_time(per_take),
                takes,
            ) && earned(follows, total, at_a_time(per_take), takes) ==> call_requires(
                take,
                (
                    handed_on(hand, takes),
                    (takes.len() * at_a_time(per_take)) as usize,
                    run_of(total, at_a_time(per_take), takes.len() as int) as usize,
                ),
            ),
        forall|before: T, after: T| #[trigger] call_requires(follows, (&before, &after)),
    ensures
        gathered_from(
            by_taking(take, total, at_a_time(per_take)),
            follows,
            hand,
            total,
            at_a_time(per_take),
            (gathered.0, gathered.1@),
        ),
{
    let most: usize = if per_take == 0 {
        1
    } else {
        per_take
    };
    assert(most == at_a_time(per_take));
    let mut held: S = hand;
    let mut all: Vec<T> = Vec::new();
    let mut at: usize = 0;
    let mut more: bool = true;
    let ghost mut takes: Seq<(S, (Vec<T>, bool))> = Seq::empty();
    while at < total && more
        invariant
            most > 0,
            most == at_a_time(per_take),
            at <= total,
            forall|takes: Seq<(S, (Vec<T>, bool))>| #[trigger]
                are_takes(by_taking(take, total, most), follows, hand, total, most, takes) && earned(
                    follows,
                    total,
                    most,
                    takes,
                ) ==> call_requires(
                    take,
                    (
                        handed_on(hand, takes),
                        (takes.len() * most) as usize,
                        run_of(total, most, takes.len() as int) as usize,
                    ),
                ),
            forall|before: T, after: T| #[trigger] call_requires(follows, (&before, &after)),
            are_takes(by_taking(take, total, most), follows, hand, total, most, takes),
            held == handed_on(hand, takes),
            at < total ==> at == takes.len() * most,
            at == total ==> takes.len() * most >= total,
            takes.len() > 0 ==> takes.last().1.1 == more,
            takes.len() == 0 ==> more,
            all@ == brought(takes),
            follow_on(follows, all@),
        decreases total - at,
    {
        let run: usize = if total - at < most {
            total - at
        } else {
            most
        };
        assert(earned(follows, total, most, takes));
        let (next, (some, again)) = take(held, at, run);
        let ghost before = takes;
        proof {
            takes = takes.push((next, (some, again)));
            assert(takes.drop_last() =~= before);
            assert(takes.len() * most == before.len() * most + most) by (nonlinear_arith)
                requires
                    takes.len() == before.len() + 1,
            ;
            assert(by_taking(take, total, most)(handed_on(hand, before), before.len() as int, takes.last()));
            assert(are_takes(by_taking(take, total, most), follows, hand, total, most, takes));
            assert(brought(takes) == all@ + some@);
        }
        held = next;
        match joined_on(all, some, &follows) {
            Some(joined) => {
                all = joined;
            },
            None => {
                let nothing: Vec<T> = Vec::new();
                assert(gathered_from(by_taking(take, total, most), follows, hand, total, most, (held, nothing@)));
                return (held, nothing);
            },
        }
        more = again;
        at = at + run;
    }
    assert(are_takes(by_taking(take, total, most), follows, hand, total, most, takes));
    (held, all)
}

/// Whether memory refused every one of the first `many` positions of a
/// locator.
pub open spec fn refused_in_memory<A: Fn(&Located) -> bool>(
    locator: Seq<Located>,
    agrees: A,
    many: int,
) -> bool {
    forall|j: int|
        0 <= j < many ==> call_ensures(agrees, (&#[trigger] locator[j],), false)
}

/// Whether the disk answers for a position with something other than the block
/// it names.
pub open spec fn is_not_on_disk<D: Fn(u64) -> Option<Hash32>>(entry: Located, off_disk: D) -> bool {
    exists|found: Option<Hash32>| #[trigger]
        call_ensures(off_disk, (entry.height,), found) && found != Some(entry.id)
}

/// Whether the disk answered for every one of the first `many` positions of a
/// locator with something else.
pub open spec fn missed_on_disk<D: Fn(u64) -> Option<Hash32>>(
    locator: Seq<Located>,
    off_disk: D,
    many: int,
) -> bool {
    forall|j: int| 0 <= j < many ==> is_not_on_disk(#[trigger] locator[j], off_disk)
}

/// Whether `height` is what a locator was agreed with at: the first position
/// agreed with in memory, or, where there is none, the first the disk holds
/// that very block at.
pub open spec fn agreed_at<A: Fn(&Located) -> bool, D: Fn(u64) -> Option<Hash32>>(
    locator: Seq<Located>,
    agrees: A,
    off_disk: D,
    agreed: Option<u64>,
) -> bool {
    match agreed {
        Some(height) => exists|i: int|
            #![trigger locator[i]]
            0 <= i < locator.len() && locator[i].height == height && {
                ||| call_ensures(agrees, (&locator[i],), true) && refused_in_memory(
                    locator,
                    agrees,
                    i,
                )
                ||| call_ensures(off_disk, (height,), Some(locator[i].id)) && refused_in_memory(
                    locator,
                    agrees,
                    locator.len() as int,
                ) && missed_on_disk(locator, off_disk, i)
            },
        None => refused_in_memory(locator, agrees, locator.len() as int) && missed_on_disk(
            locator,
            off_disk,
            locator.len() as int,
        ),
    }
}

/// Where this node's branch carries on from, for a peer agreed with at
/// `agreed`, and how much of it there is to offer.
///
/// A peer agreed with about nothing is told where this node can start: what it
/// can hand over begins where its log does, at `floor`.
pub open spec fn carries_on_after(agreed: Option<u64>, height: Option<u64>, floor: u64, max: u64) -> (
    u64,
    u64,
) {
    let from = match agreed {
        Some(height) => height.saturating_add(1),
        None => floor,
    };
    let reaches = match height {
        Some(tip) => tip.saturating_add(1),
        None => 0,
    };
    let left = reaches.saturating_sub(from);
    (
        from,
        if left < max {
            left
        } else {
            max
        },
    )
}

/// How far this node's branch runs past the first position in `locator` this
/// node agrees with, for a chain at `height` over a block log that begins at
/// `floor`.
///
/// Memory first, by `agrees`, which answers whenever the peer is anywhere near
/// this node's tip. A peer far behind names heights this node no longer holds
/// an identifier for, and the answer for those is on the disk. Nothing is asked
/// about past the first position agreed with.
pub fn chain_after<A: Fn(&Located) -> bool, D: Fn(u64) -> Option<Hash32>>(
    locator: &Vec<Located>,
    height: Option<u64>,
    floor: u64,
    max: u64,
    agrees: A,
    off_disk: D,
) -> (answer: (u64, u64))
    requires
        forall|i: int|
            0 <= i < locator@.len() && refused_in_memory(locator@, agrees, i) ==> call_requires(
                agrees,
                (&#[trigger] locator@[i],),
            ),
        forall|i: int|
            0 <= i < locator@.len() && refused_in_memory(locator@, agrees, locator@.len() as int)
                && missed_on_disk(locator@, off_disk, i) ==> call_requires(
                off_disk,
                ((#[trigger] locator@[i]).height,),
            ),
    ensures
        exists|agreed: Option<u64>| #[trigger]
            agreed_at(locator@, agrees, off_disk, agreed) && answer == carries_on_after(
                agreed,
                height,
                floor,
                max,
            ),
{
    let mut agreed: Option<u64> = None;
    let mut at: usize = 0;
    while at < locator.len() && agreed.is_none()
        invariant
            at <= locator@.len(),
            forall|i: int|
                0 <= i < locator@.len() && refused_in_memory(locator@, agrees, i)
                    ==> call_requires(agrees, (&#[trigger] locator@[i],)),
            agreed is None ==> refused_in_memory(locator@, agrees, at as int),
            agreed is Some ==> agreed_at(locator@, agrees, off_disk, agreed),
        decreases locator.len() - at, if agreed is None { 1int } else { 0int },
    {
        if agrees(&locator[at]) {
            agreed = Some(locator[at].height);
            proof {
                let i = at as int;
                assert(locator@[i].height == agreed->0);
                assert(call_ensures(agrees, (&locator@[i],), true));
                assert(agreed_at(locator@, agrees, off_disk, agreed));
            }
        } else {
            at = at + 1;
        }
    }
    if agreed.is_none() {
        let mut at: usize = 0;
        while at < locator.len() && agreed.is_none()
            invariant
                at <= locator@.len(),
                forall|i: int|
                    0 <= i < locator@.len() && refused_in_memory(
                        locator@,
                        agrees,
                        locator@.len() as int,
                    ) && missed_on_disk(locator@, off_disk, i) ==> call_requires(
                        off_disk,
                        ((#[trigger] locator@[i]).height,),
                    ),
                refused_in_memory(locator@, agrees, locator@.len() as int),
                agreed is None ==> missed_on_disk(locator@, off_disk, at as int),
                agreed is Some ==> agreed_at(locator@, agrees, off_disk, agreed),
            decreases locator.len() - at, if agreed is None { 1int } else { 0int },
        {
            let found = off_disk(locator[at].height);
            let same: bool = match found {
                Some(id) => id == locator[at].id,
                None => false,
            };
            if same {
                agreed = Some(locator[at].height);
                proof {
                    let i = at as int;
                    assert(locator@[i].height == agreed->0);
                    assert(call_ensures(off_disk, (locator@[i].height,), Some(locator@[i].id)));
                    assert(agreed_at(locator@, agrees, off_disk, agreed));
                }
            } else {
                assert(is_not_on_disk(locator@[at as int], off_disk)) by {
                    assert(call_ensures(off_disk, (locator@[at as int].height,), found));
                }
                at = at + 1;
            }
        }
    }
    assert(agreed_at(locator@, agrees, off_disk, agreed));
    let from: u64 = match agreed {
        Some(height) => height.saturating_add(1),
        None => floor,
    };
    let reaches: u64 = match height {
        Some(tip) => tip.saturating_add(1),
        None => 0,
    };
    let left: u64 = reaches.saturating_sub(from);
    (
        from,
        if left < max {
            left
        } else {
            max
        },
    )
}

/// Whether every header from `from` to just before `to` was read.
pub open spec fn are_read<T, R: Fn(u64) -> Result<Option<T>, String>>(read: R, from: u64, to: u64) -> bool {
    forall|height: u64|
        from <= height < to ==> #[trigger] is_read::<T, R>(read, height)
}

/// Whether a header was read.
pub open spec fn is_read<T, R: Fn(u64) -> Result<Option<T>, String>>(read: R, height: u64) -> bool {
    exists|header: T| #[trigger]
        call_ensures(read, (height,), Ok::<Option<T>, String>(Some(header)))
}

/// Where one take of a log reaching `reaches` ends: it answers for at most
/// [`READS_PER_HOLD`] of the `count` from `from`.
pub open spec fn one_hold_ends(from: u64, count: u64, reaches: u64) -> u64 {
    let asked = from.saturating_add(
        if count < READS_PER_HOLD {
            count
        } else {
            READS_PER_HOLD
        },
    );
    if asked < reaches {
        asked
    } else {
        reaches
    }
}

/// A few headers under one take of the log: at most [`READS_PER_HOLD`] of the
/// `count` from `from`, out of a log reaching `reaches`, or `None` where there
/// is no log.
///
/// The second answer says whether the run goes on. The third is the read that
/// the disk refused, when one was: a run cut short by this node's own disk is
/// told apart from one that simply ran out.
#[verifier::loop_isolation(false)]
pub fn headers_under_one_hold<T, R: Fn(u64) -> Result<Option<T>, String>>(
    from: u64,
    count: u64,
    reaches: Option<u64>,
    read: R,
) -> (answer: (Vec<T>, bool, Option<(u64, String)>))
    requires
        reaches matches Some(reaches) ==> forall|height: u64|
            from <= height < one_hold_ends(from, count, reaches) && are_read::<T, R>(
                read,
                from,
                height,
            ) ==> #[trigger] call_requires(read, (height,)),
    ensures
        answer.0@.len() <= READS_PER_HOLD,
        forall|i: int|
            0 <= i < answer.0@.len() ==> call_ensures(
                read,
                ((from + i) as u64,),
                Ok::<Option<T>, String>(Some(#[trigger] answer.0@[i])),
            ),
        match reaches {
            None => answer.0@.len() == 0 && !answer.1 && answer.2 is None,
            Some(reaches) => {
                let wanted = if count < READS_PER_HOLD {
                    count
                } else {
                    READS_PER_HOLD
                };
                let asked = from.saturating_add(wanted);
                let stop = if asked < reaches {
                    asked
                } else {
                    reaches
                };
                let whole = stop.saturating_sub(from);
                let got = answer.0@.len();
                &&& got <= whole
                &&& got == whole ==> answer.1 == (stop == asked) && answer.2 is None
                &&& got < whole ==> !answer.1 && match answer.2 {
                    Some((height, words)) => height == from + got && call_ensures(
                        read,
                        (height,),
                        Err::<Option<T>, String>(words),
                    ),
                    None => call_ensures(
                        read,
                        ((from + got) as u64,),
                        Ok::<Option<T>, String>(None),
                    ),
                }
            },
        },
{
    let mut headers: Vec<T> = Vec::new();
    let reaches: u64 = match reaches {
        Some(reaches) => reaches,
        None => {
            return (headers, false, None);
        },
    };
    let wanted: u64 = if count < READS_PER_HOLD {
        count
    } else {
        READS_PER_HOLD
    };
    let asked: u64 = from.saturating_add(wanted);
    let stop: u64 = if asked < reaches {
        asked
    } else {
        reaches
    };
    let mut height: u64 = from;
    while height < stop
        invariant
            are_read::<T, R>(read, from, height),
            from <= height,
            height <= stop || height == from,
            stop <= from + READS_PER_HOLD,
            headers@.len() == height - from,
            forall|i: int|
                0 <= i < headers@.len() ==> call_ensures(
                    read,
                    ((from + i) as u64,),
                    Ok::<Option<T>, String>(Some(#[trigger] headers@[i])),
                ),
        decreases stop - height,
    {
        match read(height) {
            Ok(Some(header)) => {
                assert(is_read::<T, R>(read, height)) by {
                    assert(call_ensures(read, (height,), Ok::<Option<T>, String>(Some(header))));
                }
                headers.push(header);
                height = height + 1;
            },
            Ok(None) => {
                return (headers, false, None);
            },
            Err(words) => {
                return (headers, false, Some((height, words)));
            },
        }
    }
    (headers, stop == asked, None)
}

/// How many headers one question is answered with at most.
pub open spec fn headers_wanted(count: u64) -> usize {
    if count < MAX_HEADERS {
        count as usize
    } else {
        MAX_HEADERS as usize
    }
}

/// What asking for headers from `from` may come to, a hold's worth at a time.
pub open spec fn by_holding<S, T, H: Fn(S, u64, u64) -> (S, (Vec<T>, bool))>(
    hold: H,
    from: u64,
    want: usize,
) -> spec_fn(S, int, (S, (Vec<T>, bool))) -> bool {
    |hand: S, at: int, took: (S, (Vec<T>, bool))|
        call_ensures(
            hold,
            (
                hand,
                from.saturating_add((at * READS_PER_HOLD) as u64),
                run_of(want, READS_PER_HOLD as usize, at) as u64,
            ),
            took,
        )
}

/// Headers for a peer, `count` of them from `from` and never more than
/// [`MAX_HEADERS`], gathered a hold's worth at a time by `hold`, which works on
/// `hand`. `follows` says whether one header belongs directly after another,
/// and a run whose halves come off different branches is refused.
pub fn headers_from<
    S,
    T,
    H: Fn(S, u64, u64) -> (S, (Vec<T>, bool)),
    G: Fn(&T, &T) -> bool,
>(from: u64, count: u64, hand: S, hold: H, follows: G) -> (headers: (S, Vec<T>))
    requires
        forall|takes: Seq<(S, (Vec<T>, bool))>| #[trigger]
            are_takes(
                by_holding(hold, from, headers_wanted(count)),
                follows,
                hand,
                headers_wanted(count),
                READS_PER_HOLD as usize,
                takes,
            ) && earned(follows, headers_wanted(count), READS_PER_HOLD as usize, takes)
                ==> call_requires(
                hold,
                (
                    handed_on(hand, takes),
                    from.saturating_add((takes.len() * READS_PER_HOLD) as u64),
                    run_of(headers_wanted(count), READS_PER_HOLD as usize, takes.len() as int) as u64,
                ),
            ),
        forall|before: T, after: T| #[trigger] call_requires(follows, (&before, &after)),
    ensures
        gathered_from(
            by_holding(hold, from, headers_wanted(count)),
            follows,
            hand,
            headers_wanted(count),
            READS_PER_HOLD as usize,
            (headers.0, headers.1@),
        ),
{
    let want: usize = if count < MAX_HEADERS {
        count as usize
    } else {
        MAX_HEADERS as usize
    };
    let per_take: usize = READS_PER_HOLD as usize;
    let held: &H = &hold;
    let take = |hand: S, at: usize, run: usize| -> (answer: (S, (Vec<T>, bool)))
        requires
            call_requires(held, (hand, from.saturating_add(at as u64), run as u64)),
        ensures
            call_ensures(held, (hand, from.saturating_add(at as u64), run as u64), answer),
        { held(hand, from.saturating_add(at as u64), run as u64) };
    let ghost asked = take;
    let ghost may = by_taking(asked, want, per_take);
    let ghost held_to = by_holding(hold, from, want);
    proof {
        assert forall|hand: S, at: int, took: (S, (Vec<T>, bool))|
            0 <= at && at * per_take < want && #[trigger] may(hand, at, took) implies held_to(
            hand,
            at,
            took,
        ) by {}
        assert forall|takes: Seq<(S, (Vec<T>, bool))>| #[trigger]
            are_takes(may, follows, hand, want, per_take, takes) && earned(
                follows,
                want,
                per_take,
                takes,
            ) implies call_requires(
            asked,
            (
                handed_on(hand, takes),
                (takes.len() * per_take) as usize,
                run_of(want, per_take, takes.len() as int) as usize,
            ),
        ) by {
            takes_that_may_be_otherwise(may, held_to, follows, hand, want, per_take, takes);
            assert(are_takes(
                by_holding(hold, from, headers_wanted(count)),
                follows,
                hand,
                headers_wanted(count),
                READS_PER_HOLD as usize,
                takes,
            ));
            let run = run_of(want, per_take, takes.len() as int);
            assert(run as usize as u64 == run as u64);
        }
    }
    let headers = gathered_a_few_at_a_time(want, per_take, hand, take, follows);
    proof {
        let takes = choose|takes: Seq<(S, (Vec<T>, bool))>| #[trigger]
            are_takes(may, follows, hand, want, per_take, takes) && headers.0 == handed_on(
                hand,
                takes,
            ) && ((ended(want, per_take, takes) && headers.1@ == brought(takes) && follow_on(
                follows,
                headers.1@,
            )) || (takes.len() > 0 && headers.1@.len() == 0 && torn(follows, brought(takes))));
        takes_that_may_be_otherwise(may, held_to, follows, hand, want, per_take, takes);
    }
    headers
}

/// What was found at each of a run of heights, without the gaps.
pub open spec fn without_gaps<T>(found: Seq<Option<T>>) -> Seq<T>
    decreases found.len(),
{
    if found.len() == 0 {
        Seq::empty()
    } else {
        match found.last() {
            Some(one) => without_gaps(found.drop_last()).push(one),
            None => without_gaps(found.drop_last()),
        }
    }
}

/// Whether `found` is what a height was answered with: out of memory where it
/// is there, and off the disk where it is not. A record the disk refuses is a
/// gap like one it does not hold, and is among the refusals.
pub open spec fn looked_up<
    T,
    M: Fn(u64) -> Option<T>,
    D: Fn(u64) -> Result<Option<T>, String>,
>(memory: M, disk: D, refused: Seq<(u64, String)>, height: u64, found: Option<T>) -> bool {
    ||| found is Some && call_ensures(memory, (height,), found)
    ||| call_ensures(memory, (height,), None) && call_ensures(
        disk,
        (height,),
        Ok::<Option<T>, String>(found),
    )
    ||| found is None && call_ensures(memory, (height,), None) && exists|words: String| #[trigger]
        refused.contains((height, words))
}

/// A few of the blocks at `heights`, in that order: at most
/// [`BLOCKS_PER_HOLD`], out of memory first and then off the disk. Each read
/// the disk refused comes back with its height and its words.
pub fn blocks_under_one_hold<
    T,
    M: Fn(u64) -> Option<T>,
    D: Fn(u64) -> Result<Option<T>, String>,
>(heights: &Vec<u64>, memory: M, disk: D) -> (answer: (Vec<T>, Vec<(u64, String)>))
    requires
        forall|i: int|
            0 <= i < heights@.len() && i < BLOCKS_PER_HOLD ==> call_requires(
                memory,
                (#[trigger] heights@[i],),
            ),
        forall|i: int|
            0 <= i < heights@.len() && i < BLOCKS_PER_HOLD && call_ensures(
                memory,
                (#[trigger] heights@[i],),
                None,
            ) ==> call_requires(disk, (heights@[i],)),
    ensures
        exists|found: Seq<Option<T>>|
            {
                &&& found.len() == if heights@.len() < BLOCKS_PER_HOLD {
                    heights@.len()
                } else {
                    BLOCKS_PER_HOLD as nat
                }
                &&& forall|i: int|
                    0 <= i < found.len() ==> looked_up(
                        memory,
                        disk,
                        answer.1@,
                        heights@[i],
                        #[trigger] found[i],
                    )
                &&& answer.0@ == #[trigger] without_gaps(found)
            },
        forall|i: int|
            0 <= i < answer.1@.len() ==> {
                let (height, words) = #[trigger] answer.1@[i];
                &&& heights@.contains(height)
                &&& call_ensures(disk, (height,), Err::<Option<T>, String>(words))
            },
{
    let mut blocks: Vec<T> = Vec::new();
    let mut refused: Vec<(u64, String)> = Vec::new();
    let ghost mut found: Seq<Option<T>> = Seq::empty();
    let mut at: usize = 0;
    while at < heights.len() && at < BLOCKS_PER_HOLD
        invariant
            at <= heights@.len(),
            at <= BLOCKS_PER_HOLD,
            forall|i: int|
                0 <= i < heights@.len() && i < BLOCKS_PER_HOLD ==> call_requires(
                    memory,
                    (#[trigger] heights@[i],),
                ),
            forall|i: int|
                0 <= i < heights@.len() && i < BLOCKS_PER_HOLD && call_ensures(
                    memory,
                    (#[trigger] heights@[i],),
                    None,
                ) ==> call_requires(disk, (heights@[i],)),
            found.len() == at,
            forall|i: int|
                0 <= i < found.len() ==> looked_up(
                    memory,
                    disk,
                    refused@,
                    heights@[i],
                    #[trigger] found[i],
                ),
            blocks@ == without_gaps(found),
            forall|i: int|
                0 <= i < refused@.len() ==> {
                    let (height, words) = #[trigger] refused@[i];
                    &&& heights@.contains(height)
                    &&& call_ensures(disk, (height,), Err::<Option<T>, String>(words))
                },
        decreases heights.len() - at,
    {
        let height: u64 = heights[at];
        let ghost before = found;
        let ghost listed = refused@;
        let mut one: Option<T> = memory(height);
        if one.is_none() {
            match disk(height) {
                Ok(read) => {
                    one = read;
                },
                Err(words) => {
                    assert(heights@.contains(height));
                    assert(call_ensures(disk, (height,), Err::<Option<T>, String>(words)));
                    refused.push((height, words));
                    assert(refused@[refused@.len() - 1] == (height, words));
                    assert(refused@.contains((height, words)));
                },
            }
        }
        proof {
            found = found.push(one);
            assert(found.drop_last() =~= before);
            assert(looked_up(memory, disk, refused@, height, one));
            assert forall|refusal: (u64, String)| #[trigger] listed.contains(refusal) implies refused@.contains(refusal) by {
                let i = choose|i: int| 0 <= i < listed.len() && listed[i] == refusal;
                assert(refused@[i] == refusal);
            }
            assert forall|i: int| 0 <= i < found.len() implies looked_up(
                memory,
                disk,
                refused@,
                heights@[i],
                #[trigger] found[i],
            ) by {
                if i < before.len() {
                    assert(found[i] == before[i]);
                    assert(looked_up(memory, disk, listed, heights@[i], before[i]));
                }
            }
        }
        match one {
            Some(block) => {
                blocks.push(block);
            },
            None => {},
        }
        at = at + 1;
    }
    assert(blocks@ == without_gaps(found));
    (blocks, refused)
}

fn part_of(heights: &Vec<u64>, at: usize, run: usize) -> (part: Vec<u64>)
    requires
        at + run <= heights@.len(),
    ensures
        part@ == heights@.subrange(at as int, at + run),
{
    let mut part: Vec<u64> = Vec::new();
    let len: usize = heights.len();
    assert(at + run <= len);
    let end: usize = at + run;
    let mut next: usize = at;
    while next < end
        invariant
            at <= next <= end,
            end <= heights@.len(),
            part@ == heights@.subrange(at as int, next as int),
        decreases end - next,
    {
        part.push(heights[next]);
        next = next + 1;
        assert(part@ =~= heights@.subrange(at as int, next as int));
    }
    part
}

/// The heights the take with number `k` answers for.
pub open spec fn heights_of(heights: Seq<u64>, k: int) -> Seq<u64> {
    heights.subrange(
        k * BLOCKS_PER_HOLD,
        k * BLOCKS_PER_HOLD + run_of(heights.len() as usize, BLOCKS_PER_HOLD, k),
    )
}

/// Whether `found` is what `hold` may answer about `heights`, given `hand`.
pub open spec fn answers_for<S, T, H: Fn(S, &Vec<u64>) -> (S, Vec<T>)>(
    hold: &H,
    hand: S,
    heights: Seq<u64>,
    found: (S, Vec<T>),
) -> bool {
    exists|part: Vec<u64>| part@ == heights && #[trigger] call_ensures(*hold, (hand, &part), found)
}

/// What asking for the blocks at `heights` may come to, a hold's worth at a
/// time. There is always a point in asking for the next.
pub open spec fn by_holding_blocks<S, T, H: Fn(S, &Vec<u64>) -> (S, Vec<T>)>(
    hold: H,
    heights: Seq<u64>,
) -> spec_fn(S, int, (S, (Vec<T>, bool))) -> bool {
    |hand: S, at: int, took: (S, (Vec<T>, bool))|
        took.1.1 && answers_for(&hold, hand, heights_of(heights, at), (took.0, took.1.0))
}

/// The blocks at `heights`, in that order, gathered a hold's worth at a time by
/// `hold`, which works on `hand`. `follows` says whether one block may follow
/// another, and a batch that moved underneath its gathering is refused rather
/// than served torn.
pub fn blocks_at<S, T, H: Fn(S, &Vec<u64>) -> (S, Vec<T>), G: Fn(&T, &T) -> bool>(
    heights: &Vec<u64>,
    hand: S,
    hold: H,
    follows: G,
) -> (blocks: (S, Vec<T>))
    requires
        forall|takes: Seq<(S, (Vec<T>, bool))>, part: Vec<u64>|
            #![trigger are_takes(by_holding_blocks(hold, heights@), follows, hand, heights@.len() as usize, BLOCKS_PER_HOLD, takes), part@]
            are_takes(
                by_holding_blocks(hold, heights@),
                follows,
                hand,
                heights@.len() as usize,
                BLOCKS_PER_HOLD,
                takes,
            ) && earned(follows, heights@.len() as usize, BLOCKS_PER_HOLD, takes) && part@
                == heights_of(heights@, takes.len() as int) ==> call_requires(
                hold,
                (handed_on(hand, takes), &part),
            ),
        forall|before: T, after: T| #[trigger] call_requires(follows, (&before, &after)),
    ensures
        gathered_from(
            by_holding_blocks(hold, heights@),
            follows,
            hand,
            heights@.len() as usize,
            BLOCKS_PER_HOLD,
            (blocks.0, blocks.1@),
        ),
{
    let total: usize = heights.len();
    let held: &H = &hold;
    let take = |hand: S, at: usize, run: usize| -> (answer: (S, (Vec<T>, bool)))
        requires
            at + run <= total,
            forall|part: Vec<u64>|
                #[trigger] part@ == heights@.subrange(at as int, at + run) ==> call_requires(
                    held,
                    (hand, &part),
                ),
        ensures
            answer.1.1,
            answers_for(
                held,
                hand,
                heights@.subrange(at as int, at + run),
                (answer.0, answer.1.0),
            ),
        {
            let part: Vec<u64> = part_of(heights, at, run);
            let ghost given = hand;
            let (next, found) = held(hand, &part);
            assert(answers_for(held, given, part@, (next, found)));
            (next, (found, true))
        };
    let ghost asked = take;
    let ghost may = by_taking(asked, total, BLOCKS_PER_HOLD);
    let ghost held_to = by_holding_blocks(hold, heights@);
    proof {
        assert forall|hand: S, at: int, took: (S, (Vec<T>, bool))|
            0 <= at && at * BLOCKS_PER_HOLD < total && #[trigger] may(hand, at, took) implies held_to(
            hand,
            at,
            took,
        ) by {}
        assert forall|takes: Seq<(S, (Vec<T>, bool))>| #[trigger]
            are_takes(may, follows, hand, total, BLOCKS_PER_HOLD, takes) && earned(
                follows,
                total,
                BLOCKS_PER_HOLD,
                takes,
            ) implies call_requires(
            asked,
            (
                handed_on(hand, takes),
                (takes.len() * BLOCKS_PER_HOLD) as usize,
                run_of(total, BLOCKS_PER_HOLD, takes.len() as int) as usize,
            ),
        ) by {
            takes_that_may_be_otherwise(may, held_to, follows, hand, total, BLOCKS_PER_HOLD, takes);
        }
    }
    let blocks = gathered_a_few_at_a_time(total, BLOCKS_PER_HOLD, hand, take, follows);
    proof {
        let takes = choose|takes: Seq<(S, (Vec<T>, bool))>| #[trigger]
            are_takes(may, follows, hand, total, BLOCKS_PER_HOLD, takes) && blocks.0 == handed_on(
                hand,
                takes,
            ) && ((ended(total, BLOCKS_PER_HOLD, takes) && blocks.1@ == brought(takes) && follow_on(
                follows,
                blocks.1@,
            )) || (takes.len() > 0 && blocks.1@.len() == 0 && torn(follows, brought(takes))));
        takes_that_may_be_otherwise(may, held_to, follows, hand, total, BLOCKS_PER_HOLD, takes);
    }
    blocks
}

/// Whether a header belongs directly after another: it names it.
pub fn header_follows(before: Hash32, previous: Hash32) -> (follows: bool)
    ensures
        follows == (previous == before),
{
    previous == before
}

/// A block as a batch of them is checked: where it sits, what it is, and what
/// it builds on.
#[derive(Clone, Copy, Debug, PartialEq, Eq, Structural)]
pub struct Link {
    pub height: u64,
    pub id: Hash32,
    pub previous: Hash32,
}

/// Whether a block may follow another in an answer. Only heights next to each
/// other can be checked, and those are the ones a peer applies as a chain.
pub fn block_follows(before: Link, after: Link) -> (follows: bool)
    ensures
        follows == (after.height != before.height.saturating_add(1) || after.previous == before.id),
{
    after.height != before.height.saturating_add(1) || after.previous == before.id
}

/// A question the sync layer set aside.
#[derive(Clone, Copy, Debug, PartialEq, Eq, Structural)]
pub enum Deferred {
    /// Where the chain carries on from a locator.
    Locate,
    /// Blocks.
    Fetch,
    /// A piece of a join answer.
    Join,
    /// Paths through the cold set.
    Prove,
    /// Headers.
    Headers,
    /// Addresses.
    Share,
    /// Everything asked has been answered.
    Done,
    /// The peer is not reading what it asked for, and is let go of.
    Failed,
}

/// What answering one of them came to.
#[derive(Clone, Copy, Debug, PartialEq, Eq, Structural)]
pub enum Answered {
    Queued,
    /// This node has nothing to say, which it says by saying nothing.
    Nothing,
    /// There was no room in the queue.
    NoRoom,
}

impl Deferred {
    pub open spec fn place(self) -> int {
        match self {
            Deferred::Locate => 0,
            Deferred::Fetch => 1,
            Deferred::Join => 2,
            Deferred::Prove => 3,
            Deferred::Headers => 4,
            Deferred::Share => 5,
            Deferred::Done => 6,
            Deferred::Failed => 7,
        }
    }

    /// Whether a reaction set this question aside.
    pub open spec fn is_asked(self, reaction: ReactionView) -> bool {
        match self {
            Deferred::Locate => reaction.locate is Some,
            Deferred::Fetch => reaction.fetch.len() > 0,
            Deferred::Join => reaction.join is Some,
            Deferred::Prove => reaction.prove is Some,
            Deferred::Headers => reaction.headers is Some,
            Deferred::Share => reaction.share_addresses,
            Deferred::Done => true,
            Deferred::Failed => false,
        }
    }
}

/// The first question from `place` on that a reaction set aside.
pub open spec fn next_asked(reaction: ReactionView, place: int, next: Deferred) -> bool {
    &&& next.is_asked(reaction)
    &&& next.place() >= place
    &&& forall|earlier: Deferred| #[trigger]
        earlier.is_asked(reaction) && earlier.place() >= place ==> next.place() <= earlier.place()
}

fn asked_from(reaction: &Reaction, place: u8) -> (next: Deferred)
    ensures
        place <= 6 ==> next_asked(reaction@, place as int, next),
{
    if place <= 0 && reaction.locate.is_some() {
        Deferred::Locate
    } else if place <= 1 && reaction.fetch.len() > 0 {
        Deferred::Fetch
    } else if place <= 2 && reaction.join.is_some() {
        Deferred::Join
    } else if place <= 3 && reaction.prove.is_some() {
        Deferred::Prove
    } else if place <= 4 && reaction.headers.is_some() {
        Deferred::Headers
    } else if place <= 5 && reaction.share_addresses {
        Deferred::Share
    } else {
        Deferred::Done
    }
}

/// The first of the questions the sync layer set aside, now that nothing is
/// held.
pub fn first_deferred(reaction: &Reaction) -> (first: Deferred)
    ensures
        next_asked(reaction@, 0, first),
{
    asked_from(reaction, 0)
}

/// The next of them, given what answering the last came to.
///
/// A queue with no room for an answer is a peer not reading what it asked for,
/// which ends it, except among blocks: there the rest of the batch is left,
/// and the connection is left to the writer's own deadline.
pub fn answer_deferred(reaction: &Reaction, last: Deferred, answered: Answered) -> (next: Deferred)
    ensures
        match last {
            Deferred::Done | Deferred::Failed => next == last,
            _ => if answered == Answered::NoRoom && last != Deferred::Fetch {
                next == Deferred::Failed
            } else {
                next_asked(reaction@, last.place() + 1, next)
            },
        },
{
    match last {
        Deferred::Done | Deferred::Failed => {
            return last;
        },
        _ => {},
    }
    match (answered, last) {
        (Answered::NoRoom, Deferred::Fetch) => {},
        (Answered::NoRoom, _) => {
            return Deferred::Failed;
        },
        _ => {},
    }
    match last {
        Deferred::Locate => asked_from(reaction, 1),
        Deferred::Fetch => asked_from(reaction, 2),
        Deferred::Join => asked_from(reaction, 3),
        Deferred::Prove => asked_from(reaction, 4),
        Deferred::Headers => asked_from(reaction, 5),
        _ => asked_from(reaction, 6),
    }
}

/// Queues one block of a batch for a peer, saying whether to go on with the
/// batch.
///
/// What a peer cannot afford is not sent, and it asks again against a fresh
/// window.
pub fn serve_block<M>(
    peer: &mut PeerState,
    outbound: &mut Outbound<M>,
    block: M,
    weight: usize,
    now: u64,
) -> (go_on: bool)
    requires
        old(outbound).wf(),
    ensures
        final(outbound).wf(),
        final(peer)@ == old(peer)@.charged(serving_cost(weight), now),
        go_on == (old(peer)@.can_afford(serving_cost(weight), now) && old(outbound).room_for(weight)),
        final(outbound).held() == if go_on {
            old(outbound).held().push((block, weight))
        } else {
            old(outbound).held()
        },
        final(outbound).read() == old(outbound).read(),
        final(outbound).in_hand() == old(outbound).in_hand(),
{
    if !peer.afford_serving(weight, now) {
        return false;
    }
    match outbound.hand_over(block, weight) {
        Ok(()) => true,
        Err(()) => false,
    }
}

/// A peer with nothing in common, its every position refused in memory and
/// missed on disk, is served from the floor: as much as was asked for, or as
/// much as the chain reaches past there.
pub proof fn a_peer_with_nothing_shared_is_served_from_the_floor<
    A: Fn(&Located) -> bool,
    D: Fn(u64) -> Option<Hash32>,
>(
    locator: Vec<Located>,
    height: Option<u64>,
    floor: u64,
    max: u64,
    agrees: A,
    off_disk: D,
    answer: (u64, u64),
)
    requires
        call_ensures(
            chain_after::<A, D>,
            (&locator, height, floor, max, agrees, off_disk),
            answer,
        ),
        forall|i: int|
            0 <= i < locator@.len() ==> !call_ensures(agrees, (&#[trigger] locator@[i],), true),
        forall|i: int|
            0 <= i < locator@.len() ==> !call_ensures(
                off_disk,
                ((#[trigger] locator@[i]).height,),
                Some(locator@[i].id),
            ),
    ensures
        answer.0 == floor,
        answer.1 <= max,
        height is None ==> answer.1 == 0,
        height matches Some(tip) ==> {
            &&& answer.1 > 0 ==> floor + answer.1 - 1 <= tip
            &&& answer.1 < max && tip < u64::MAX ==> floor + answer.1 > tip
        },
{
}

/// A peer that shares a position in memory is served from the one after it,
/// the first of those it named that is shared.
pub proof fn a_peer_is_served_from_past_what_memory_shares<
    A: Fn(&Located) -> bool,
    D: Fn(u64) -> Option<Hash32>,
>(
    locator: Vec<Located>,
    height: Option<u64>,
    floor: u64,
    max: u64,
    agrees: A,
    off_disk: D,
    answer: (u64, u64),
    shared: int,
)
    requires
        call_ensures(
            chain_after::<A, D>,
            (&locator, height, floor, max, agrees, off_disk),
            answer,
        ),
        0 <= shared < locator@.len(),
        forall|i: int|
            0 <= i < shared ==> !call_ensures(agrees, (&#[trigger] locator@[i],), true),
        !call_ensures(agrees, (&locator@[shared],), false),
    ensures
        locator@[shared].height < u64::MAX ==> answer.0 == locator@[shared].height + 1,
        answer.1 <= max,
        height is None ==> answer.1 == 0,
        height matches Some(tip) ==> {
            &&& answer.1 > 0 ==> answer.0 + answer.1 - 1 <= tip
            &&& answer.1 < max && tip < u64::MAX ==> answer.0 + answer.1 > tip
        },
{
}

/// A peer that shares nothing in memory is served from past the first position
/// it named that is shared on disk.
pub proof fn a_peer_is_served_from_past_what_the_disk_shares<
    A: Fn(&Located) -> bool,
    D: Fn(u64) -> Option<Hash32>,
>(
    locator: Vec<Located>,
    height: Option<u64>,
    floor: u64,
    max: u64,
    agrees: A,
    off_disk: D,
    answer: (u64, u64),
    shared: int,
)
    requires
        call_ensures(
            chain_after::<A, D>,
            (&locator, height, floor, max, agrees, off_disk),
            answer,
        ),
        0 <= shared < locator@.len(),
        forall|i: int|
            0 <= i < locator@.len() ==> !call_ensures(agrees, (&#[trigger] locator@[i],), true),
        forall|i: int|
            0 <= i < shared ==> !call_ensures(
                off_disk,
                ((#[trigger] locator@[i]).height,),
                Some(locator@[i].id),
            ),
        forall|found: Option<Hash32>| #[trigger]
            call_ensures(off_disk, (locator@[shared].height,), found) ==> found == Some(
                locator@[shared].id,
            ),
    ensures
        locator@[shared].height < u64::MAX ==> answer.0 == locator@[shared].height + 1,
        answer.1 <= max,
        height is None ==> answer.1 == 0,
        height matches Some(tip) ==> {
            &&& answer.1 > 0 ==> answer.0 + answer.1 - 1 <= tip
            &&& answer.1 < max && tip < u64::MAX ==> answer.0 + answer.1 > tip
        },
{
    let agreed = choose|agreed: Option<u64>| #[trigger]
        agreed_at(locator@, agrees, off_disk, agreed) && answer == carries_on_after(
            agreed,
            height,
            floor,
            max,
        );
    let entry = locator@[shared];
    assert(!is_not_on_disk(entry, off_disk));
    match agreed {
        Some(at) => {
            let i = choose|i: int|
                #![trigger locator@[i]]
                0 <= i < locator@.len() && locator@[i].height == at && {
                    ||| call_ensures(agrees, (&locator@[i],), true) && refused_in_memory(
                        locator@,
                        agrees,
                        i,
                    )
                    ||| call_ensures(off_disk, (at,), Some(locator@[i].id)) && refused_in_memory(
                        locator@,
                        agrees,
                        locator@.len() as int,
                    ) && missed_on_disk(locator@, off_disk, i)
                };
            assert(!call_ensures(agrees, (&locator@[i],), true));
            if shared < i {
                assert(is_not_on_disk(locator@[shared], off_disk));
            }
            assert(i == shared);
        },
        None => {
            assert(is_not_on_disk(locator@[shared], off_disk));
        },
    }
}

/// A header follows the one it names and no other.
pub proof fn a_header_follows_the_one_it_names(before: Hash32, previous: Hash32, follows: bool)
    requires
        call_ensures(header_follows, (before, previous), follows),
    ensures
        previous == before ==> follows,
        previous != before ==> !follows,
{
}

/// A block at the next height has to name the one before it. At any other
/// height there is nothing to hold it to.
pub proof fn a_block_at_the_next_height_names_the_one_before(
    before: Link,
    after: Link,
    follows: bool,
)
    requires
        call_ensures(block_follows, (before, after), follows),
    ensures
        after.height == before.height + 1 ==> (follows <==> after.previous == before.id),
        after.height < before.height || after.height > before.height + 1 ==> follows,
{
}

/// What was put off is answered in one order: where a chain is shared, then
/// blocks, a piece of a join, paths, headers and addresses, leaving out what
/// was not asked.
pub proof fn what_was_put_off_is_answered_in_order(reaction: &Reaction, first: Deferred)
    requires
        call_ensures(first_deferred, (reaction,), first),
    ensures
        first is Locate <==> reaction@.locate is Some,
        first is Fetch <==> reaction@.locate is None && reaction@.fetch.len() > 0,
        first is Join <==> reaction@.locate is None && reaction@.fetch.len() == 0
            && reaction@.join is Some,
        first is Prove <==> reaction@.locate is None && reaction@.fetch.len() == 0
            && reaction@.join is None && reaction@.prove is Some,
        first is Headers <==> reaction@.locate is None && reaction@.fetch.len() == 0
            && reaction@.join is None && reaction@.prove is None && reaction@.headers is Some,
        first is Share <==> reaction@.locate is None && reaction@.fetch.len() == 0
            && reaction@.join is None && reaction@.prove is None && reaction@.headers is None
            && reaction@.share_addresses,
        !(first is Failed),
{
    every_question_put_off(reaction@);
}

proof fn every_question_put_off(reaction: ReactionView)
    ensures
        Deferred::Locate.is_asked(reaction) <==> reaction.locate is Some,
        Deferred::Fetch.is_asked(reaction) <==> reaction.fetch.len() > 0,
        Deferred::Join.is_asked(reaction) <==> reaction.join is Some,
        Deferred::Prove.is_asked(reaction) <==> reaction.prove is Some,
        Deferred::Headers.is_asked(reaction) <==> reaction.headers is Some,
        Deferred::Share.is_asked(reaction) <==> reaction.share_addresses,
        Deferred::Done.is_asked(reaction),
{
}

/// After one question put off the next one asked is answered, and none is
/// answered twice. A reply there is no room for ends it, but for blocks, which
/// are left off where the room ends.
pub proof fn what_was_put_off_is_answered_once(
    reaction: &Reaction,
    last: Deferred,
    answered: Answered,
    next: Deferred,
)
    requires
        call_ensures(answer_deferred, (reaction, last, answered), next),
    ensures
        last is Done || last is Failed ==> next == last,
        answered == Answered::NoRoom && !(last is Fetch) && !(last is Done) ==> next is Failed,
        answered != Answered::NoRoom && !(last is Failed) ==> !(next is Failed),
        answered != Answered::NoRoom || last is Fetch ==> ({
            let join = reaction@.join is Some;
            let prove = reaction@.prove is Some;
            let headers = reaction@.headers is Some;
            let share = reaction@.share_addresses;
            &&& last is Locate ==> (next is Fetch <==> reaction@.fetch.len() > 0) && (next is Join
                <==> reaction@.fetch.len() == 0 && join) && (next is Prove <==> reaction@.fetch.len()
                == 0 && !join && prove) && (next is Headers <==> reaction@.fetch.len() == 0 && !join
                && !prove && headers) && (next is Share <==> reaction@.fetch.len() == 0 && !join
                && !prove && !headers && share) && !(next is Locate)
            &&& last is Fetch ==> (next is Join <==> join) && (next is Prove <==> !join && prove) && (
            next is Headers <==> !join && !prove && headers) && (next is Share <==> !join && !prove
                && !headers && share) && !(next is Locate) && !(next is Fetch) && !(next is Failed)
            &&& last is Join ==> (next is Prove <==> prove) && (next is Headers <==> !prove
                && headers) && (next is Share <==> !prove && !headers && share) && (next is Done
                <==> !prove && !headers && !share)
            &&& last is Prove ==> (next is Headers <==> headers) && (next is Share <==> !headers
                && share) && (next is Done <==> !headers && !share)
            &&& last is Headers ==> (next is Share <==> share) && (next is Done <==> !share)
            &&& last is Share ==> next is Done
        }),
{
    every_question_put_off(reaction@);
}

/// A block goes out while the peer can pay for every byte of it and there is
/// room, behind what is already waiting; otherwise nothing is put in the
/// queue.
pub proof fn a_block_goes_out_when_paid_for_and_there_is_room<M>(
    peer: &mut PeerState,
    outbound: &mut Outbound<M>,
    block: M,
    weight: usize,
    now: u64,
    go_on: bool,
)
    requires
        call_ensures(serve_block::<M>, (peer, outbound, block, weight, now), go_on),
        old(peer)@.window_started + 10 <= now,
    ensures
        go_on <==> weight <= 8_192 * 512 && old(outbound).room_for(weight),
        go_on ==> final(outbound).held().len() == old(outbound).held().len() + 1 && final(outbound).held().last() == (block, weight) && final(outbound).held().drop_last() == old(outbound).held(),
        !go_on ==> final(outbound).held() == old(outbound).held(),
        weight <= 8_192 * 512 ==> weight <= final(peer)@.spent * 512,
        weight <= 8_192 * 512 ==> final(peer)@.spent * 512 < weight + 512,
{
    if go_on {
        assert(final(outbound).held().drop_last() =~= old(outbound).held());
    }
}

proof fn takes_bring_a_run_in_order<S, T, G: Fn(&T, &T) -> bool>(
    may: spec_fn(S, int, (S, (Vec<T>, bool))) -> bool,
    follows: G,
    hand: S,
    total: usize,
    per_take: usize,
    takes: Seq<(S, (Vec<T>, bool))>,
    all: Seq<T>,
)
    requires
        per_take > 0,
        all.len() == total,
        are_takes(may, follows, hand, total, per_take, takes),
        forall|h: S, at: int, took: (S, (Vec<T>, bool))| #[trigger]
            may(h, at, took) && 0 <= at && at * per_take < total ==> took.1.1 && took.1.0@
                == all.subrange(at * per_take, at * per_take + run_of(total, per_take, at)),
    ensures
        takes.len() > 0 ==> takes.last().1.1,
        brought(takes) == if takes.len() * per_take < total {
            all.take(takes.len() * per_take)
        } else {
            all
        },
    decreases takes.len(),
{
    if takes.len() > 0 {
        let before = takes.drop_last();
        takes_bring_a_run_in_order(may, follows, hand, total, per_take, before, all);
        let at = before.len() as int;
        assert(takes.len() * per_take == at * per_take + per_take) by (nonlinear_arith)
            requires
                takes.len() == at + 1,
        ;
        assert(at * per_take >= 0) by (nonlinear_arith)
            requires
                at >= 0,
                per_take > 0,
        ;
        assert(may(handed_on(hand, before), at, takes.last()));
        assert(brought(takes) =~= if takes.len() * per_take < total {
            all.take(takes.len() * per_take)
        } else {
            all
        });
    } else {
        assert(0 * per_take == 0) by (nonlinear_arith);
        assert(brought(takes) =~= all.take(0));
        if total == 0 {
            assert(all.take(0) =~= all);
        }
    }
}

proof fn gathering_is_all_or_nothing<S, T, G: Fn(&T, &T) -> bool>(
    may: spec_fn(S, int, (S, (Vec<T>, bool))) -> bool,
    follows: G,
    hand: S,
    total: usize,
    per_take: usize,
    gathered: (S, Seq<T>),
    all: Seq<T>,
)
    requires
        per_take > 0,
        all.len() == total,
        gathered_from(may, follows, hand, total, per_take, gathered),
        forall|h: S, at: int, took: (S, (Vec<T>, bool))| #[trigger]
            may(h, at, took) && 0 <= at && at * per_take < total ==> took.1.1 && took.1.0@
                == all.subrange(at * per_take, at * per_take + run_of(total, per_take, at)),
    ensures
        gathered.1 == all || gathered.1.len() == 0,
        (forall|before: int, after: int|
            #![trigger all[before], all[after]]
            0 <= before < after < all.len() && after == before + 1 ==> !call_ensures(
                follows,
                (&all[before], &all[after]),
                false,
            )) ==> gathered.1 == all,
        (exists|before: int, after: int|
            #![trigger all[before], all[after]]
            0 <= before < after < all.len() && after == before + 1 && !call_ensures(
                follows,
                (&all[before], &all[after]),
                true,
            )) ==> gathered.1.len() == 0,
{
    let takes = choose|takes: Seq<(S, (Vec<T>, bool))>| #[trigger]
        are_takes(may, follows, hand, total, per_take, takes) && gathered.0 == handed_on(hand, takes)
            && ((ended(total, per_take, takes) && gathered.1 == brought(takes) && follow_on(
            follows,
            gathered.1,
        )) || (takes.len() > 0 && gathered.1.len() == 0 && torn(follows, brought(takes))));
    takes_bring_a_run_in_order(may, follows, hand, total, per_take, takes, all);
    let run = brought(takes);
    if forall|before: int, after: int|
        #![trigger all[before], all[after]]
        0 <= before < after < all.len() && after == before + 1 ==> !call_ensures(
            follows,
            (&all[before], &all[after]),
            false,
        ) {
        if torn(follows, run) {
            let (before, after) = choose|before: int, after: int|
                #![trigger run[before], run[after]]
                0 <= before < after < run.len() && after == before + 1 && call_ensures(
                    follows,
                    (&run[before], &run[after]),
                    false,
                );
            assert(run[before] == all[before] && run[after] == all[after]);
        }
    }
    if exists|before: int, after: int|
        #![trigger all[before], all[after]]
        0 <= before < after < all.len() && after == before + 1 && !call_ensures(
            follows,
            (&all[before], &all[after]),
            true,
        ) {
        let (before, after) = choose|before: int, after: int|
            #![trigger all[before], all[after]]
            0 <= before < after < all.len() && after == before + 1 && !call_ensures(
                follows,
                (&all[before], &all[after]),
                true,
            );
        if gathered.1 == all {
            assert(gathered.1[before] == all[before] && gathered.1[after] == all[after]);
        }
    }
}

/// Gathering a run a few at a time brings what asking for it at once would:
/// the whole of it in order, whatever the number taken at a time, as long as
/// each follows the one before. Where one does not, nothing is handed over.
pub proof fn a_run_gathered_a_few_at_a_time_is_the_run<
    S,
    T,
    F: Fn(S, usize, usize) -> (S, (Vec<T>, bool)),
    G: Fn(&T, &T) -> bool,
>(
    total: usize,
    per_take: usize,
    hand: S,
    take: F,
    follows: G,
    gathered: (S, Vec<T>),
    all: Seq<T>,
)
    requires
        call_ensures(
            gathered_a_few_at_a_time::<S, T, F, G>,
            (total, per_take, hand, take, follows),
            gathered,
        ),
        all.len() == total,
        forall|h: S, from: usize, many: usize, took: (S, (Vec<T>, bool))| #[trigger]
            call_ensures(take, (h, from, many), took) && from + many <= total ==> took.1.1
                && took.1.0@ == all.subrange(from as int, from + many),
    ensures
        gathered.1@ == all || gathered.1@.len() == 0,
        (forall|before: int, after: int|
            #![trigger all[before], all[after]]
            0 <= before < after < all.len() && after == before + 1 ==> !call_ensures(
                follows,
                (&all[before], &all[after]),
                false,
            )) ==> gathered.1@ == all,
        (exists|before: int, after: int|
            #![trigger all[before], all[after]]
            0 <= before < after < all.len() && after == before + 1 && !call_ensures(
                follows,
                (&all[before], &all[after]),
                true,
            )) ==> gathered.1@.len() == 0,
{
    let step = at_a_time(per_take);
    let may = by_taking(take, total, step);
    assert forall|h: S, at: int, took: (S, (Vec<T>, bool))| #[trigger]
        may(h, at, took) && 0 <= at && at * step < total implies took.1.1 && took.1.0@
        == all.subrange(at * step, at * step + run_of(total, step, at)) by {
        assert(at * step >= 0) by (nonlinear_arith)
            requires
                at >= 0,
                step > 0,
        ;
        assert(call_ensures(
            take,
            (h, (at * step) as usize, run_of(total, step, at) as usize),
            took,
        ));
    }
    gathering_is_all_or_nothing(
        may,
        follows,
        hand,
        total,
        step,
        (gathered.0, gathered.1@),
        all,
    );
}

/// Headers are the ones asked for, from the first on and in order, at most
/// five hundred and twelve of them, though they are read a few at a time. A run
/// that does not hang together is not handed over at all.
pub proof fn headers_are_a_run_from_the_first_asked_for<
    S,
    T,
    H: Fn(S, u64, u64) -> (S, (Vec<T>, bool)),
    G: Fn(&T, &T) -> bool,
>(
    from: u64,
    count: u64,
    hand: S,
    hold: H,
    follows: G,
    headers: (S, Vec<T>),
    all: Seq<T>,
)
    requires
        call_ensures(headers_from::<S, T, H, G>, (from, count, hand, hold, follows), headers),
        from + 512 <= u64::MAX,
        all.len() == if count < 512 {
            count as int
        } else {
            512
        },
        forall|h: S, at: u64, many: u64, took: (S, (Vec<T>, bool))| #[trigger]
            call_ensures(hold, (h, at, many), took) && from <= at && at + many <= from + all.len()
                ==> took.1.1 && took.1.0@ == all.subrange(at - from, at - from + many),
    ensures
        headers.1@ == all || headers.1@.len() == 0,
        (forall|before: int, after: int|
            #![trigger all[before], all[after]]
            0 <= before < after < all.len() && after == before + 1 ==> !call_ensures(
                follows,
                (&all[before], &all[after]),
                false,
            )) ==> headers.1@ == all,
        (exists|before: int, after: int|
            #![trigger all[before], all[after]]
            0 <= before < after < all.len() && after == before + 1 && !call_ensures(
                follows,
                (&all[before], &all[after]),
                true,
            )) ==> headers.1@.len() == 0,
{
    let total = headers_wanted(count);
    let may = by_holding(hold, from, total);
    assert forall|h: S, at: int, took: (S, (Vec<T>, bool))| #[trigger]
        may(h, at, took) && 0 <= at && at * (READS_PER_HOLD as usize) < total implies took.1.1
        && took.1.0@ == all.subrange(
        at * (READS_PER_HOLD as usize),
        at * (READS_PER_HOLD as usize) + run_of(total, READS_PER_HOLD as usize, at),
    ) by {
        assert(call_ensures(
            hold,
            (
                h,
                from.saturating_add((at * READS_PER_HOLD) as u64),
                run_of(total, READS_PER_HOLD as usize, at) as u64,
            ),
            took,
        ));
    }
    gathering_is_all_or_nothing(
        may,
        follows,
        hand,
        total,
        READS_PER_HOLD as usize,
        (headers.0, headers.1@),
        all,
    );
}

/// Blocks are the ones at the heights asked for, in the order asked, though
/// they are read a few at a time. Blocks that contradict one another are not
/// handed over at all.
pub proof fn blocks_are_the_ones_at_the_heights_asked_for<
    S,
    T,
    H: Fn(S, &Vec<u64>) -> (S, Vec<T>),
    G: Fn(&T, &T) -> bool,
>(
    heights: &Vec<u64>,
    hand: S,
    hold: H,
    follows: G,
    blocks: (S, Vec<T>),
    at: spec_fn(u64) -> T,
)
    requires
        call_ensures(blocks_at::<S, T, H, G>, (heights, hand, hold, follows), blocks),
        forall|h: S, part: Vec<u64>, found: (S, Vec<T>)| #[trigger]
            call_ensures(hold, (h, &part), found) ==> found.1@ == part@.map_values(at),
    ensures
        ({
            let all = heights@.map_values(at);
            &&& blocks.1@ == all || blocks.1@.len() == 0
            &&& (forall|before: int, after: int|
                #![trigger all[before], all[after]]
                0 <= before < after < all.len() && after == before + 1 ==> !call_ensures(
                    follows,
                    (&all[before], &all[after]),
                    false,
                )) ==> blocks.1@ == all
            &&& (exists|before: int, after: int|
                #![trigger all[before], all[after]]
                0 <= before < after < all.len() && after == before + 1 && !call_ensures(
                    follows,
                    (&all[before], &all[after]),
                    true,
                )) ==> blocks.1@.len() == 0
        }),
{
    let all = heights@.map_values(at);
    let total = heights@.len() as usize;
    vstd::std_specs::vec::axiom_spec_len(heights);
    assert(total == heights@.len());
    let may = by_holding_blocks(hold, heights@);
    assert forall|h: S, k: int, took: (S, (Vec<T>, bool))| #[trigger]
        may(h, k, took) && 0 <= k && k * BLOCKS_PER_HOLD < total implies took.1.1 && took.1.0@
        == all.subrange(
        k * BLOCKS_PER_HOLD,
        k * BLOCKS_PER_HOLD + run_of(total, BLOCKS_PER_HOLD, k),
    ) by {
        let part = choose|part: Vec<u64>|
            part@ == heights_of(heights@, k) && #[trigger] call_ensures(
                hold,
                (h, &part),
                (took.0, took.1.0),
            );
        assert(took.1.0@ =~= all.subrange(
            k * BLOCKS_PER_HOLD,
            k * BLOCKS_PER_HOLD + run_of(total, BLOCKS_PER_HOLD, k),
        ));
    }
    gathering_is_all_or_nothing(
        may,
        follows,
        hand,
        total,
        BLOCKS_PER_HOLD,
        (blocks.0, blocks.1@),
        all,
    );
}

/// A log that can be read is read from the first height asked for, in order,
/// thirty-two at most and no further than it reaches. There is more to come
/// exactly when the log held all that was asked of it.
pub proof fn one_hold_reads_a_run_of_headers<T, R: Fn(u64) -> Result<Option<T>, String>>(
    from: u64,
    count: u64,
    reaches: u64,
    read: R,
    answer: (Vec<T>, bool, Option<(u64, String)>),
    many: u64,
)
    requires
        call_ensures(headers_under_one_hold::<T, R>, (from, count, Some(reaches), read), answer),
        from + 32 <= u64::MAX,
        many <= count && many <= 32 && (many == count || many == 32),
        forall|height: u64, found: Result<Option<T>, String>| #[trigger]
            call_ensures(read, (height,), found) ==> (found matches Ok(one) && one is Some),
    ensures
        from + many <= reaches ==> answer.0@.len() == many && answer.1,
        from <= reaches < from + many ==> answer.0@.len() == reaches - from && !answer.1,
        reaches < from ==> answer.0@.len() == 0 && !answer.1,
        answer.2 is None,
        forall|i: int|
            0 <= i < answer.0@.len() ==> call_ensures(
                read,
                ((from + i) as u64,),
                Ok::<Option<T>, String>(Some(#[trigger] answer.0@[i])),
            ),
{
}

/// A run of headers stops at the first one that is not there or cannot be
/// read: nothing past it is handed over, there is no more to come, and what
/// could not be read is said and where.
pub proof fn one_hold_stops_at_what_cannot_be_read<T, R: Fn(u64) -> Result<Option<T>, String>>(
    from: u64,
    count: u64,
    reaches: u64,
    read: R,
    answer: (Vec<T>, bool, Option<(u64, String)>),
    bad: u64,
)
    requires
        call_ensures(headers_under_one_hold::<T, R>, (from, count, Some(reaches), read), answer),
        from <= bad < reaches,
        bad < from + count,
        bad < from + 32,
        forall|one: T| !#[trigger]
            call_ensures(read, (bad,), Ok::<Option<T>, String>(Some(one))),
    ensures
        answer.0@.len() <= bad - from,
        !answer.1,
        answer.2 matches Some((height, words)) ==> height == from + answer.0@.len() && call_ensures(
            read,
            (height,),
            Err::<Option<T>, String>(words),
        ),
        answer.2 is None ==> call_ensures(
            read,
            ((from + answer.0@.len()) as u64,),
            Ok::<Option<T>, String>(None),
        ),
{
    if answer.0@.len() > bad - from {
        let one = answer.0@[bad - from];
        assert(call_ensures(read, (bad,), Ok::<Option<T>, String>(Some(one))));
    }
}

/// What was found of what was looked for, in order.
pub open spec fn those_found<T>(found: Seq<Option<T>>) -> Seq<T> {
    found.filter(|one: Option<T>| one is Some).map_values(|one: Option<T>| one->0)
}

proof fn without_gaps_is_those_found<T>(found: Seq<Option<T>>)
    ensures
        without_gaps(found) == those_found(found),
    decreases found.len(),
{
    reveal(Seq::filter);
    if found.len() > 0 {
        without_gaps_is_those_found(found.drop_last());
    }
    assert(without_gaps(found) =~= those_found(found));
}

/// A block in memory is served from there and one that is not from disk, the
/// first eight asked for and no more, in the order asked and leaving out what
/// this node does not have. A disk that can be read has nothing said of it.
pub proof fn one_hold_serves_blocks_from_memory_before_disk<
    T,
    M: Fn(u64) -> Option<T>,
    D: Fn(u64) -> Result<Option<T>, String>,
>(
    heights: &Vec<u64>,
    memory: M,
    disk: D,
    answer: (Vec<T>, Vec<(u64, String)>),
    held: spec_fn(u64) -> Option<T>,
    kept: spec_fn(u64) -> Option<T>,
)
    requires
        call_ensures(blocks_under_one_hold::<T, M, D>, (heights, memory, disk), answer),
        forall|height: u64, found: Option<T>| #[trigger]
            call_ensures(memory, (height,), found) ==> found == held(height),
        forall|height: u64, found: Result<Option<T>, String>| #[trigger]
            call_ensures(disk, (height,), found) ==> found == Ok::<Option<T>, String>(kept(height)),
    ensures
        answer.1@.len() == 0,
        answer.0@ == those_found(
            heights@.take(
                if heights@.len() < 8 {
                    heights@.len() as int
                } else {
                    8
                },
            ).map_values(
                |height: u64|
                    if held(height) is Some {
                        held(height)
                    } else {
                        kept(height)
                    },
            ),
        ),
{
    if answer.1@.len() > 0 {
        let (height, words) = answer.1@[0];
        assert(call_ensures(disk, (height,), Err::<Option<T>, String>(words)));
    }
    let found = choose|found: Seq<Option<T>>|
        {
            &&& found.len() == if heights@.len() < BLOCKS_PER_HOLD {
                heights@.len()
            } else {
                BLOCKS_PER_HOLD as nat
            }
            &&& forall|i: int|
                0 <= i < found.len() ==> looked_up(
                    memory,
                    disk,
                    answer.1@,
                    heights@[i],
                    #[trigger] found[i],
                )
            &&& answer.0@ == #[trigger] without_gaps(found)
        };
    without_gaps_is_those_found(found);
    assert forall|i: int| 0 <= i < found.len() implies #[trigger] found[i] == if held(
        heights@[i],
    ) is Some {
        held(heights@[i])
    } else {
        kept(heights@[i])
    } by {
        assert(looked_up(memory, disk, answer.1@, heights@[i], found[i]));
    }
    assert(found =~= heights@.take(
        if heights@.len() < 8 {
            heights@.len() as int
        } else {
            8
        },
    ).map_values(
        |height: u64|
            if held(height) is Some {
                held(height)
            } else {
                kept(height)
            },
    ));
}

} // verus!
