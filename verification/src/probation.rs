//! What a node handed a ledger has still to check before it stands behind it.
//!
//! Taking a handover checks the anchor and the ledger it commits to. It checks
//! nothing about the blocks between the anchor and the tip: whether they
//! exist, and whether anyone did the work they stand for, is settled by this
//! node validating them and by nothing else. Until it has, it is on probation.

use vstd::prelude::*;
use vstd::string::*;

use crate::text::{append_number, decimal};

verus! {

/// Seconds a node on probation waits for blocks above its anchor before it
/// asks somebody other than whoever handed it the ledger.
pub const BURIAL_PATIENCE: u64 = 30;

/// Seconds a node on probation may go with nothing arriving at all, while it
/// has somebody to ask, before it says it is stranded and stops.
pub const STRANDING_PATIENCE: u64 = 3_600;

/// What a node handed a ledger has still to check.
#[derive(Clone, Copy, Debug, PartialEq, Eq, Structural)]
pub struct Probation {
    /// The height the ledger was handed at.
    pub anchor: u64,
    /// The height this node's own validation has to reach: the anchor plus
    /// the burial depth.
    pub settles_at: u64,
    /// How far that validation has got.
    pub reached: u64,
}

impl Probation {
    /// Blocks above the anchor this node has checked for itself.
    pub fn checked(&self) -> (blocks: u64)
        ensures
            blocks == self.reached.saturating_sub(self.anchor),
    {
        self.reached.saturating_sub(self.anchor)
    }

    /// Blocks it undertook to check when it took the anchor.
    pub fn owed(&self) -> (blocks: u64)
        ensures
            blocks == self.settles_at.saturating_sub(self.anchor),
    {
        self.settles_at.saturating_sub(self.anchor)
    }

    /// The account an operator reads.
    pub open spec fn words(&self) -> Seq<char> {
        "checked "@ + decimal(self.reached.saturating_sub(self.anchor) as nat) + " of the "@ + decimal(
            self.settles_at.saturating_sub(self.anchor) as nat,
        ) + " blocks above the ledger handed over at height "@ + decimal(self.anchor as nat)
    }

    pub fn to_string(&self) -> (said: String)
        ensures
            said@ == self.words(),
    {
        let mut said = String::from_str("checked ");
        append_number(&mut said, self.checked());
        said.append(" of the ");
        append_number(&mut said, self.owed());
        said.append(" blocks above the ledger handed over at height ");
        append_number(&mut said, self.anchor);
        said
    }
}

/// A node that cannot get on from where it was handed its ledger.
///
/// It holds nothing below its anchor, so a heavier chain forking under there
/// cannot be assembled at all. Starting again from an empty directory is the
/// only way off it.
#[derive(Clone, Copy, Debug, PartialEq, Eq, Structural)]
pub struct Stranded {
    /// The height the ledger was handed at.
    pub anchor: u64,
    /// The height it had to validate its way to.
    pub settles_at: u64,
    /// How long it waited for the blocks in between, with somebody to ask.
    pub waited: u64,
    /// Blocks it was offered meanwhile and could not reach.
    pub out_of_reach: u64,
}

/// Where a node handed a ledger at `anchor`, under a tip at `tip`, has to get
/// its own validation to: the burial depth above the anchor, and never past
/// the tip. A supplier is free to anchor further down; it is not free to set
/// how much this node owes itself.
pub fn settles_at(anchor: u64, tip: u64, burial: u64) -> (height: u64)
    ensures
        height == if anchor + burial <= tip {
            (anchor + burial) as int
        } else {
            tip as int
        },
{
    let buried: u64 = anchor.saturating_add(burial);
    if buried < tip {
        buried
    } else {
        tip
    }
}

/// The undertaking a node took on with a handed ledger, as it stands.
#[derive(Clone, Copy, Debug, PartialEq, Eq, Structural)]
pub struct Undertaking {
    pub anchor: u64,
    pub settles_at: u64,
    /// The highest the chain had reached when it last moved.
    pub reached: u64,
    /// When that was.
    pub moved: u64,
    /// When somebody was last asked for what is missing.
    pub asked: Option<u64>,
}

impl Undertaking {
    /// The undertaking a node comes back to after a restart.
    ///
    /// `None` when there is none left to keep: a chain already at or past the
    /// height it settles at has validated the burial, and a node with no chain
    /// at all took no anchor.
    pub fn resumed(anchor: u64, settles_at: u64, reached: Option<u64>, now: u64) -> (held: Option<
        Undertaking,
    >)
        ensures
            held == match reached {
                Some(reached) => if reached < settles_at {
                    Some(Undertaking { anchor, settles_at, reached, moved: now, asked: None })
                } else {
                    None
                },
                None => None,
            },
    {
        match reached {
            None => None,
            Some(reached) => {
                if reached < settles_at {
                    Some(Undertaking { anchor, settles_at, reached, moved: now, asked: None })
                } else {
                    None
                }
            },
        }
    }

    /// Whether the chain being at `reached` at `now` starts the waiting again:
    /// the chain moved, or the clock went backwards.
    pub open spec fn restarts(self, reached: u64, now: u64) -> bool {
        reached > self.reached || now < self.moved
    }

    /// Whether it is time to ask somebody at `now`: nobody was asked yet, or
    /// not for [`BURIAL_PATIENCE`], or the clock is behind the last question.
    pub open spec fn is_due(self, now: u64) -> bool {
        match self.asked {
            None => true,
            Some(at) => now < at || now - at >= BURIAL_PATIENCE,
        }
    }
}

/// What one round of upkeep decided about an undertaking.
#[derive(Clone, Copy, Debug, PartialEq, Eq, Structural)]
pub enum Owed {
    /// Nothing to do: the chain is moving, or it has not been still long
    /// enough to be worth acting on.
    Waiting,
    /// Ask everybody for what is missing, because whoever was supplying it has
    /// stopped.
    AskAgain,
    /// Waiting has stopped being the answer.
    GivenUp(Stranded),
}

/// What one round of upkeep owes an undertaking, given where the chain has
/// reached. Three deadlines, and their order matters.
///
/// Nobody to ask is a different fault with a different cure: an operator whose
/// node has no peers has a network to mend, not a directory to wipe.
pub fn owed_this_round(held: &mut Undertaking, reached: u64, peers: usize, patience: u64, now: u64) -> (owed:
    Owed)
    ensures
        final(held).anchor == old(held).anchor,
        final(held).settles_at == old(held).settles_at,
        old(held).restarts(reached, now) ==> {
            &&& owed == Owed::Waiting
            &&& final(held).reached == if reached > old(held).reached {
                reached
            } else {
                old(held).reached
            }
            &&& final(held).moved == now
            &&& final(held).asked == old(held).asked
        },
        !old(held).restarts(reached, now) ==> {
            &&& final(held).reached == old(held).reached
            &&& final(held).moved == old(held).moved
            &&& if peers == 0 {
                owed == Owed::Waiting && final(held).asked == old(held).asked
            } else if now - old(held).moved >= patience {
                &&& owed == Owed::GivenUp(
                    Stranded {
                        anchor: old(held).anchor,
                        settles_at: old(held).settles_at,
                        waited: (now - old(held).moved) as u64,
                        out_of_reach: 0,
                    },
                )
                &&& final(held).asked == old(held).asked
            } else if old(held).is_due(now) {
                owed == Owed::AskAgain && final(held).asked == Some(now)
            } else {
                owed == Owed::Waiting && final(held).asked == old(held).asked
            }
        },
{
    if reached > held.reached || now < held.moved {
        if reached > held.reached {
            held.reached = reached;
        }
        held.moved = now;
        return Owed::Waiting;
    }
    if peers == 0 {
        return Owed::Waiting;
    }
    let still: u64 = now.saturating_sub(held.moved);
    if still >= patience {
        return Owed::GivenUp(
            Stranded {
                anchor: held.anchor,
                settles_at: held.settles_at,
                waited: still,
                out_of_reach: 0,
            },
        );
    }
    let due: bool = match held.asked {
        None => true,
        Some(at) => now < at || now - at >= BURIAL_PATIENCE,
    };
    if due {
        held.asked = Some(now);
        return Owed::AskAgain;
    }
    Owed::Waiting
}

/// What is still owed on an undertaking by a chain at `height`.
pub open spec fn still_owed(held: Option<Undertaking>, height: Option<u64>) -> Option<Probation> {
    match held {
        None => None,
        Some(held) => {
            let reached = match height {
                Some(height) => height,
                None => held.anchor,
            };
            if reached >= held.settles_at {
                None
            } else {
                Some(Probation { anchor: held.anchor, settles_at: held.settles_at, reached })
            }
        },
    }
}

/// What this node still owes on the ledger it was handed, given where its
/// chain has reached. Met once, it is over for good.
pub fn probation_at(held: &mut Option<Undertaking>, height: Option<u64>) -> (owed: Option<Probation>)
    ensures
        owed == still_owed(*old(held), height),
        *final(held) == if owed is Some {
            *old(held)
        } else {
            None
        },
{
    match *held {
        None => None,
        Some(undertaking) => {
            let reached: u64 = match height {
                Some(height) => height,
                None => undertaking.anchor,
            };
            if reached >= undertaking.settles_at {
                *held = None;
                return None;
            }
            Some(
                Probation {
                    anchor: undertaking.anchor,
                    settles_at: undertaking.settles_at,
                    reached,
                },
            )
        },
    }
}

/// One round of the undertaking: where the chain has got to, and what to do
/// about it having got no further. `None` when nothing is owed.
///
/// Giving up carries the count of blocks this node was offered and could not
/// reach.
pub fn probation_round(
    held: &mut Option<Undertaking>,
    height: Option<u64>,
    peers: usize,
    patience: u64,
    out_of_reach: u64,
    now: u64,
) -> (owed: Option<Owed>)
    ensures
        owed is Some <==> still_owed(*old(held), height) is Some,
        owed is None ==> *final(held) is None,
        match (owed, still_owed(*old(held), height)) {
            (Some(owed), Some(probation)) => {
                let before = (*old(held))->0;
                &&& *final(held) is Some
                &&& (*final(held))->0.anchor == before.anchor
                &&& (*final(held))->0.settles_at == before.settles_at
                &&& owed is GivenUp <==> !before.restarts(probation.reached, now) && peers > 0 && now
                    - before.moved >= patience
                &&& owed is AskAgain <==> !before.restarts(probation.reached, now) && peers > 0 && now
                    - before.moved < patience && before.is_due(now)
                &&& owed matches Owed::GivenUp(stranded) ==> stranded == (Stranded {
                    anchor: before.anchor,
                    settles_at: before.settles_at,
                    waited: (now - before.moved) as u64,
                    out_of_reach,
                })
                &&& (*final(held))->0.asked == if owed is AskAgain {
                    Some(now)
                } else {
                    before.asked
                }
                &&& (*final(held))->0.moved == if before.restarts(probation.reached, now) {
                    now
                } else {
                    before.moved
                }
                &&& (*final(held))->0.reached == if probation.reached > before.reached {
                    probation.reached
                } else {
                    before.reached
                }
            },
            _ => true,
        },
{
    match probation_at(held, height) {
        None => None,
        Some(probation) => {
            match *held {
                None => None,
                Some(undertaking) => {
                    let mut undertaking = undertaking;
                    let owed = owed_this_round(
                        &mut undertaking,
                        probation.reached,
                        peers,
                        patience,
                        now,
                    );
                    *held = Some(undertaking);
                    match owed {
                        Owed::GivenUp(stranded) => Some(
                            Owed::GivenUp(
                                Stranded {
                                    anchor: stranded.anchor,
                                    settles_at: stranded.settles_at,
                                    waited: stranded.waited,
                                    out_of_reach,
                                },
                            ),
                        ),
                        other => Some(other),
                    }
                },
            }
        },
    }
}

/// A probation ends exactly when the chain reaches the height it settles at,
/// and a node on one always has something left to check.
pub proof fn a_probation_ends_where_it_settles(held: Undertaking, height: u64)
    ensures
        still_owed(Some(held), Some(height)) is None <==> height >= held.settles_at,
        match still_owed(Some(held), Some(height)) {
            Some(owed) => owed.reached < owed.settles_at,
            None => true,
        },
{
}

/// An undertaking taken on and one resumed after a restart owe the same thing:
/// what is owed depends on the anchor, the height it settles at and the chain,
/// and on nothing the restart forgot.
pub proof fn a_restart_owes_what_was_owed(held: Undertaking, later: Undertaking, height: Option<u64>)
    requires
        held.anchor == later.anchor,
        held.settles_at == later.settles_at,
    ensures
        still_owed(Some(held), height) == still_owed(Some(later), height),
{
}

/// A probation ends a burial above where the ledger was handed over, or at the
/// tip where the chain is shorter than that.
pub proof fn a_probation_ends_a_burial_up_or_at_the_tip(
    anchor: u64,
    tip: u64,
    burial: u64,
    height: u64,
)
    requires
        call_ensures(settles_at, (anchor, tip, burial), height),
    ensures
        height <= tip,
        height <= anchor + burial,
        height == tip || height == anchor + burial,
{
}

/// An undertaking is resumed where a chain is still short of where it ends, as
/// if it had just moved and nobody had been asked.
pub proof fn an_undertaking_is_resumed_short_of_its_end(
    anchor: u64,
    settles_at: u64,
    reached: Option<u64>,
    now: u64,
    held: Option<Undertaking>,
)
    requires
        call_ensures(Undertaking::resumed, (anchor, settles_at, reached, now), held),
    ensures
        held is Some <==> (reached matches Some(reached) && reached < settles_at),
        held matches Some(held) ==> held.anchor == anchor && held.settles_at == settles_at
            && reached == Some(held.reached) && held.moved == now && held.asked is None,
{
}

/// A block gained, or a clock gone back, starts the waiting over, and nothing
/// is owed this round.
pub proof fn moving_starts_the_waiting_over(
    held: &mut Undertaking,
    reached: u64,
    peers: usize,
    patience: u64,
    now: u64,
    owed: Owed,
)
    requires
        call_ensures(owed_this_round, (held, reached, peers, patience, now), owed),
        old(held).reached < reached || now < old(held).moved,
    ensures
        owed is Waiting,
        final(held).moved == now,
        final(held).reached >= reached && final(held).reached >= old(held).reached,
        final(held).reached == reached || final(held).reached == old(held).reached,
        final(held).asked == old(held).asked,
        final(held).anchor == old(held).anchor,
        final(held).settles_at == old(held).settles_at,
{
}

/// A chain that does not move is waited for: given up once somebody has been
/// there to ask for as long as there is patience, asked after every half
/// minute until then, and left alone while there is nobody to ask.
pub proof fn a_chain_that_does_not_move_is_asked_after_and_given_up(
    held: &mut Undertaking,
    reached: u64,
    peers: usize,
    patience: u64,
    now: u64,
    owed: Owed,
)
    requires
        call_ensures(owed_this_round, (held, reached, peers, patience, now), owed),
        reached <= old(held).reached,
        old(held).moved <= now,
    ensures
        peers == 0 ==> owed is Waiting && final(held).asked == old(held).asked,
        owed is GivenUp <==> peers > 0 && old(held).moved + patience <= now,
        owed matches Owed::GivenUp(stranded) ==> stranded.anchor == old(held).anchor
            && stranded.settles_at == old(held).settles_at && stranded.waited + old(held).moved
            == now,
        peers > 0 && now < old(held).moved + patience ==> {
            &&& old(held).asked is None ==> owed is AskAgain
            &&& old(held).asked matches Some(at) ==> (at + 30 <= now || now < at ==> owed is AskAgain)
                && (at <= now < at + 30 ==> owed is Waiting)
        },
        owed is AskAgain ==> final(held).asked == Some(now),
        !(owed is AskAgain) ==> final(held).asked == old(held).asked,
        final(held).moved == old(held).moved,
        final(held).reached == old(held).reached,
{
}

/// What is owed is owed until the chain reaches where it settles, and forgotten
/// there for good. A chain that is not there yet stands where the ledger was
/// handed over.
pub proof fn what_is_owed_is_owed_until_it_settles(
    held: &mut Option<Undertaking>,
    height: Option<u64>,
    owed: Option<Probation>,
)
    requires
        call_ensures(probation_at, (held, height), owed),
    ensures
        *old(held) is None ==> owed is None && *final(held) is None,
        *old(held) matches Some(before) ==> {
            let reached = match height {
                Some(height) => height,
                None => before.anchor,
            };
            &&& before.settles_at <= reached ==> owed is None && *final(held) is None
            &&& reached < before.settles_at ==> *final(held) == *old(held) && (
            owed matches Some(owed) && owed.anchor == before.anchor && owed.settles_at
                == before.settles_at && owed.reached == reached)
        },
{
}

/// A round on probation comes to what is owed that round, and to nothing once
/// it has settled. What cannot be reached is said with what is given up.
pub proof fn a_round_on_probation_owes_what_a_round_owes(
    held: &mut Option<Undertaking>,
    alone: &mut Undertaking,
    height: u64,
    peers: usize,
    patience: u64,
    out_of_reach: u64,
    now: u64,
    owed: Option<Owed>,
    owed_alone: Owed,
)
    requires
        call_ensures(
            probation_round,
            (held, Some(height), peers, patience, out_of_reach, now),
            owed,
        ),
        *old(held) == Some(*old(alone)),
        call_ensures(owed_this_round, (alone, height, peers, patience, now), owed_alone),
    ensures
        old(alone).settles_at <= height ==> owed is None && *final(held) is None,
        height < old(alone).settles_at ==> {
            &&& owed matches Some(owed) && (owed is AskAgain <==> owed_alone is AskAgain) && (
            owed is GivenUp <==> owed_alone is GivenUp)
            &&& *final(held) matches Some(after) && after.moved == final(alone).moved
                && after.reached == final(alone).reached && after.asked == final(alone).asked
                && after.anchor == old(alone).anchor && after.settles_at == old(alone).settles_at
            &&& owed matches Some(Owed::GivenUp(stranded)) ==> stranded.out_of_reach == out_of_reach
                && stranded.waited + old(alone).moved == now
        },
{
}

/// What has been checked and what is owed are counted from where the ledger was
/// handed over.
pub proof fn blocks_are_counted_from_the_ledger(probation: &Probation, checked: u64, owed: u64)
    requires
        call_ensures(Probation::checked, (probation,), checked),
        call_ensures(Probation::owed, (probation,), owed),
    ensures
        probation.anchor <= probation.reached ==> checked + probation.anchor == probation.reached,
        probation.reached < probation.anchor ==> checked == 0,
        probation.anchor <= probation.settles_at ==> owed + probation.anchor
            == probation.settles_at,
        probation.settles_at < probation.anchor ==> owed == 0,
{
}

/// What is said of a probation is how many blocks were checked, of how many,
/// and above which height.
pub proof fn a_probation_says_how_far_it_is(
    probation: &Probation,
    said: String,
    checked: u64,
    owed: u64,
)
    requires
        call_ensures(Probation::to_string, (probation,), said),
        call_ensures(Probation::checked, (probation,), checked),
        call_ensures(Probation::owed, (probation,), owed),
    ensures
        said@ == "checked "@ + decimal(checked as nat) + " of the "@ + decimal(owed as nat)
            + " blocks above the ledger handed over at height "@ + decimal(
            probation.anchor as nat,
        ),
{
}

} // verus!
