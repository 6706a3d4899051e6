//! Reading from one peer: what is taken, what is let pass, and what ends it.

use vstd::prelude::*;

use crate::address::{Address, Host};
use crate::evidence::{counts_as, sender_of};
use crate::filling::PeerId;
use crate::message::{Kind, Message, MessageView};
use crate::network::{Hash32, Located};
use crate::sync::{
    about_block, after_message, carries_on, followed_up, not_held, on_block, on_message,
    on_transfer, reacts, request_announced, Chain, DropReason, Local, Outdated, PeerState, PeerView,
    Reacting, ReactingView, Reaction, ReactionView, Verdict,
};
use crate::windows::Allowance;
use crate::wire::{most_from, WireError, MAX_FRAME_BYTES, MOST_BEFORE_A_NAME};

verus! {

/// Seconds a peer may say nothing before the connection is let go of.
pub const PEER_SILENCE: u64 = 90;

/// Messages one peer may send within one window before it is a flood.
pub const MAX_MESSAGES_PER_WINDOW: u32 = 2_000;

/// Seconds such a window lasts.
pub const FLOOD_WINDOW: u64 = 10;

/// Whether a window that began at `started` has run out by `now`.
pub open spec fn is_over(started: u64, now: u64) -> bool {
    now < started || now - started >= FLOOD_WINDOW
}

/// Whether the flood window that began at `started` is over by `now`.
///
/// A clock that went backwards says nothing about how long the window has been
/// open, so the window starts again: holding it open for as long as the clock
/// went back would make a flood of any peer serving a catch-up.
pub fn window_is_over(started: u64, now: u64) -> (over: bool)
    ensures
        over == is_over(started, now),
{
    now < started || now.saturating_sub(started) >= FLOOD_WINDOW
}

/// Whether a framing failure is the peer's doing.
pub open spec fn blames_the_peer(error: WireError) -> bool {
    error is FrameTooLarge || error is Malformed
}

/// Whether a framing failure is the peer's fault rather than the network's.
///
/// A closed socket or a peer from another network has done nothing wrong, and
/// a frame that stalls is a fact about a link. A peer that announces a size
/// past the limit, or sends something that does not decode, wrote those bytes
/// itself.
pub fn is_peer_fault(error: &WireError) -> (fault: bool)
    ensures
        fault == blames_the_peer(*error),
{
    match error {
        WireError::FrameTooLarge { .. } | WireError::Malformed => true,
        _ => false,
    }
}

/// Whether a message begins, or carries on, the following of a chain.
pub open spec fn is_of_a_chain(kind: Kind) -> bool {
    kind == Kind::Block || kind == Kind::Announce || kind == Kind::Chain
}

/// Whether this node keeps a message from the layer that decides about it.
///
/// A block taken while the node is still choosing whom to follow is the
/// beginning of following whoever sent it, so `holding_off` says whether this
/// peer's turn has come. A transfer is judged against the ledger this node
/// holds, and a node on probation has not stood behind that ledger. A peer
/// that has not introduced itself is let through so that the layer below can
/// refuse it for that, which is the worse fault.
pub fn held_off(kind: Kind, greeted: bool, holding_off: bool, on_probation: bool) -> (held: bool)
    ensures
        held == ((is_of_a_chain(kind) && holding_off) || (greeted && kind == Kind::Transaction
            && on_probation)),
{
    if holding_off {
        match kind {
            Kind::Block | Kind::Announce | Kind::Chain => {
                return true;
            },
            _ => {},
        }
    }
    greeted && kind == Kind::Transaction && on_probation
}

/// What a read came to.
#[derive(Debug)]
pub enum Heard {
    /// A whole message.
    Message,
    /// The deadline passed with no frame begun.
    Quiet,
    /// The frame failed.
    Failed(WireError),
}

/// What to do about it.
#[derive(Clone, Copy, Debug, PartialEq, Eq, Structural)]
pub enum Next {
    /// Deal with the message.
    Take,
    /// Read again.
    Read,
    /// Let the connection go.
    End,
}

/// One connection being read.
#[derive(Debug)]
pub struct Connection {
    pub id: PeerId,
    pub remote: Option<Host>,
    /// The address this node dialled, for a connection it opened.
    pub dialled: Option<Address>,
    pub allowance: Allowance,
    pub peer: PeerState,
    /// Whether the peer has named where it listens.
    pub announced: bool,
    pub last_heard: u64,
    pub window_start: u64,
    pub in_window: u32,
    pub misbehaved: bool,
}

/// The count of a flood window once one message more has arrived.
pub open spec fn counted(started: u64, in_window: u32, now: u64) -> u32 {
    if is_over(started, now) {
        1
    } else {
        in_window.saturating_add(1)
    }
}

impl Connection {
    /// A connection just taken.
    pub fn started(
        id: PeerId,
        remote: Option<Host>,
        dialled: Option<Address>,
        allowance: Allowance,
        now: u64,
    ) -> (connection: Connection)
        ensures
            connection.id == id,
            connection.remote == remote,
            connection.dialled == dialled,
            connection.allowance == allowance,
            connection.peer@ == PeerView::stranger(remote),
            !connection.announced,
            connection.last_heard == now,
            connection.window_start == now,
            connection.in_window == 0,
            !connection.misbehaved,
    {
        Connection {
            id,
            remote,
            dialled,
            allowance,
            peer: PeerState::new(remote),
            announced: false,
            last_heard: now,
            window_start: now,
            in_window: 0,
            misbehaved: false,
        }
    }

    /// Everything but what a read touches is as it was.
    pub open spec fn same_peer(&self, other: &Connection) -> bool {
        &&& self.id == other.id
        &&& self.remote == other.remote
        &&& self.dialled == other.dialled
        &&& self.allowance == other.allowance
        &&& self.peer == other.peer
        &&& self.announced == other.announced
    }

    /// The largest frame this peer may send: little until it has said who it
    /// is, because decoding what a stranger sent is work done before anything
    /// has been charged for it.
    pub fn most(&self) -> (bytes: usize)
        ensures
            bytes == if self.announced {
                MAX_FRAME_BYTES
            } else {
                MOST_BEFORE_A_NAME
            },
    {
        most_from(self.announced)
    }

    /// Takes what a read came to.
    ///
    /// Two silences are told apart: a peer with nothing to say between frames
    /// is fine and stays for as long as a peer may be silent, and a peer
    /// holding a frame open is not and goes.
    pub fn heard(&mut self, heard: &Heard, now: u64) -> (next: Next)
        ensures
            final(self).same_peer(old(self)),
            match heard {
                Heard::Message => {
                    let count = counted(old(self).window_start, old(self).in_window, now);
                    &&& final(self).last_heard == now
                    &&& final(self).in_window == count
                    &&& final(self).window_start == if is_over(old(self).window_start, now) {
                        now
                    } else {
                        old(self).window_start
                    }
                    &&& next == if count > MAX_MESSAGES_PER_WINDOW {
                        Next::End
                    } else {
                        Next::Take
                    }
                    &&& final(self).misbehaved == (old(self).misbehaved || count
                        > MAX_MESSAGES_PER_WINDOW)
                },
                Heard::Quiet => {
                    &&& next == if now.saturating_sub(old(self).last_heard) >= PEER_SILENCE {
                        Next::End
                    } else {
                        Next::Read
                    }
                    &&& *final(self) == *old(self)
                },
                Heard::Failed(error) => {
                    &&& next == Next::End
                    &&& final(self).misbehaved == blames_the_peer(*error)
                    &&& final(self).last_heard == old(self).last_heard
                    &&& final(self).window_start == old(self).window_start
                    &&& final(self).in_window == old(self).in_window
                },
            },
    {
        match heard {
            Heard::Message => {
                self.last_heard = now;
                if window_is_over(self.window_start, now) {
                    self.window_start = now;
                    self.in_window = 0;
                }
                self.in_window = self.in_window.saturating_add(1);
                if self.in_window > MAX_MESSAGES_PER_WINDOW {
                    self.misbehaved = true;
                    return Next::End;
                }
                Next::Take
            },
            Heard::Quiet => {
                if now.saturating_sub(self.last_heard) >= PEER_SILENCE {
                    return Next::End;
                }
                Next::Read
            },
            Heard::Failed(error) => {
                self.misbehaved = is_peer_fault(error);
                Next::End
            },
        }
    }
}

/// Whether `held` says of each announced block whether it is held.
pub open spec fn looked_up<H: Fn(&Located) -> bool>(holds: H, ids: Seq<Located>, held: Seq<bool>) -> bool {
    &&& held.len() == ids.len()
    &&& forall|i: int|
        0 <= i < held.len() ==> call_ensures(holds, (&ids[i],), #[trigger] held[i])
}

/// What a decision about announced blocks comes to.
pub open spec fn decided_announced(
    chain: &Chain,
    peer: PeerView,
    ids: Seq<Located>,
    held: Seq<bool>,
    now: u64,
    after: PeerView,
    reaction: ReactionView,
) -> bool {
    let wanted = not_held(ids, held);
    if wanted.len() == 0 {
        after == peer.patient(now) && reaction == followed_up(chain, peer, now)
    } else {
        after == peer.asked_for(wanted, now) && reaction == ReactionView::replying(
            MessageView::GetBlocks(wanted),
        )
    }
}

/// What a decision about a block comes to.
pub open spec fn decided_block(
    peer: PeerView,
    block: Located,
    applied: (Verdict, Chain),
    now: u64,
    after: PeerView,
    reaction: ReactionView,
) -> bool {
    let waiting = PeerView { awaiting: peer.awaiting.remove(block.height), ..peer };
    &&& after == if carries_on(applied.0) {
        waiting.patient(now)
    } else {
        waiting
    }
    &&& reaction == about_block(&applied.1, waiting, block, applied.0, now)
}

/// What a decision about a transfer comes to.
pub open spec fn decided_transfer(id: Hash32, fresh: bool) -> ReactionView {
    if fresh {
        ReactionView { relayed: seq![id], ..ReactionView::idle() }
    } else {
        ReactionView::idle()
    }
}

/// Whether announced blocks may be answered this way.
pub open spec fn from_announced<H: Fn(&Located) -> bool>(
    chain: &Chain,
    peer: PeerView,
    ids: Seq<Located>,
    now: u64,
    holds: H,
    after: PeerView,
    reaction: ReactionView,
) -> bool {
    exists|held: Seq<bool>| #[trigger]
        looked_up(holds, ids, held) && decided_announced(chain, peer, ids, held, now, after, reaction)
}

/// Whether a block may be answered this way.
pub open spec fn from_block<B: FnOnce(Located) -> (Verdict, Chain)>(
    peer: PeerView,
    block: Located,
    now: u64,
    apply: B,
    after: PeerView,
    reaction: ReactionView,
) -> bool {
    exists|applied: (Verdict, Chain)| #[trigger]
        call_ensures(apply, (block,), applied) && decided_block(peer, block, applied, now, after, reaction)
}

/// Whether a transfer may be answered this way.
pub open spec fn from_transfer<T: FnOnce(Hash32) -> bool>(id: Hash32, take: T, reaction: ReactionView) -> bool {
    exists|fresh: bool| #[trigger]
        call_ensures(take, (id,), fresh) && reaction == decided_transfer(id, fresh)
}

/// Whether handling a message, with the questions it leaves answered as they
/// may be, leads to `after` being known of the peer and to `reaction`.
pub open spec fn is_decision<
    H: Fn(&Located) -> bool,
    B: FnOnce(Located) -> (Verdict, Chain),
    T: FnOnce(Hash32) -> bool,
>(
    chain: &Chain,
    handled: PeerView,
    reacting: ReactingView,
    now: u64,
    holds: H,
    apply: B,
    take: T,
    after: PeerView,
    reaction: ReactionView,
) -> bool {
    match reacting {
        ReactingView::Done(done) => after == handled && reaction == done,
        ReactingView::Announced(ids) => from_announced(chain, handled, ids, now, holds, after, reaction),
        ReactingView::Block(block) => from_block(handled, block, now, apply, after, reaction),
        ReactingView::Transfer(id) => after == handled && from_transfer(id, take, reaction),
    }
}

/// Works out what to do about one message.
///
/// Everything that needs the chain happens through the three questions:
/// `holds` says whether a block is held, `apply` gives one to the chain and
/// says what came of it and how the chain stands, and `take` gives a transfer
/// to the pool and says whether it was new there. Each is asked only of what a
/// peer may ask for, and the chain and the pool are given one thing at most.
pub fn decide<
    H: Fn(&Located) -> bool,
    B: FnOnce(Located) -> (Verdict, Chain),
    T: FnOnce(Hash32) -> bool,
>(local: &Local, peer: &mut PeerState, message: Message, now: u64, holds: H, apply: B, take: T) -> (reaction:
    Reaction)
    requires
        reacts(local, old(peer)@, message@, now) matches ReactingView::Announced(ids) ==> forall|i: int|
            0 <= i < ids.len() ==> call_requires(holds, (&#[trigger] ids[i],)),
        reacts(local, old(peer)@, message@, now) matches ReactingView::Block(block) ==> call_requires(
            apply,
            (block,),
        ),
        reacts(local, old(peer)@, message@, now) matches ReactingView::Transfer(id) ==> call_requires(
            take,
            (id,),
        ),
    ensures
        is_decision(
            local.chain,
            after_message(local, old(peer)@, message@, now),
            reacts(local, old(peer)@, message@, now),
            now,
            holds,
            apply,
            take,
            final(peer)@,
            reaction@,
        ),
{
    let reacting = on_message(local, peer, message, now);
    let ghost handled = peer@;
    let ghost reacts = reacting@;
    match reacting {
        Reacting::Done(reaction) => {
            reaction
        },
        Reacting::Announced(ids) => {
            proof {
                let asked = crate::sync::reacts(local, old(peer)@, message@, now);
                assert(asked == ReactingView::Announced(ids@));
                assert forall|i: int| 0 <= i < ids@.len() implies call_requires(
                    holds,
                    (&#[trigger] ids@[i],),
                ) by {
                    assert(asked->Announced_0[i] == ids@[i]);
                }
            }
            let mut held: Vec<bool> = Vec::new();
            let mut at: usize = 0;
            while at < ids.len()
                invariant
                    at <= ids@.len(),
                    forall|i: int|
                        0 <= i < ids@.len() ==> call_requires(holds, (&#[trigger] ids@[i],)),
                    looked_up(holds, ids@.take(at as int), held@),
                decreases ids.len() - at,
            {
                let ghost before = held@;
                let one: bool = holds(&ids[at]);
                held.push(one);
                proof {
                    assert forall|i: int| 0 <= i < held@.len() implies call_ensures(
                        holds,
                        (&ids@.take(at + 1)[i],),
                        #[trigger] held@[i],
                    ) by {
                        if i < before.len() {
                            assert(held@[i] == before[i]);
                            assert(ids@.take(at + 1)[i] == ids@.take(at as int)[i]);
                        }
                    }
                }
                at = at + 1;
            }
            assert(ids@.take(at as int) =~= ids@);
            assert(looked_up(holds, ids@, held@));
            let reaction = request_announced(local.chain, peer, &ids, &held, now);
            assert(decided_announced(local.chain, handled, ids@, held@, now, peer@, reaction@));
            reaction
        },
        Reacting::Block(block) => {
            let applied = apply(block);
            assert(call_ensures(apply, (block,), applied));
            let reaction = on_block(&applied.1, peer, block, applied.0, now);
            assert(decided_block(handled, block, applied, now, peer@, reaction@));
            assert(from_block(handled, block, now, apply, peer@, reaction@));
            assert(reacts == ReactingView::Block(block));
            reaction
        },
        Reacting::Transfer(id) => {
            let fresh: bool = take(id);
            assert(call_ensures(take, (id,), fresh));
            let reaction = on_transfer(id, fresh);
            reaction
        },
    }
}

/// One of the things a reaction calls for, once the chain has been let go of.
#[derive(Clone, Copy, Debug, PartialEq, Eq, Structural)]
pub enum Act {
    /// Fold the paths offered for places this node asked about.
    FoldPaths,
    /// Note what the peer claims to have.
    NoteClaim,
    /// Add the addresses learned to the book.
    Remember,
    /// Note what the peer said it keeps.
    NoteWhatItKeeps,
    /// Take addresses out of the book.
    Forget,
    /// File the peer's own account of where it listens.
    WhatItSaidItWas,
    /// Queue the answers.
    Reply,
    /// Answer what the sync layer named rather than answered.
    Answer,
    /// Take the headers offered from before this node arrived.
    TakeHeaders,
    /// Write down what was refused without blaming anybody.
    NoteWhatWasNotTaken,
    /// Announce new blocks to everybody else.
    Announce,
    /// Pass new transfers on to everybody else.
    PassOn,
    /// Stop the node: this software is older than the chain.
    Stop(Outdated),
    /// Let the peer go.
    Drop(DropReason),
    /// Read the next message.
    ReadOn,
    /// Let the connection go.
    End,
}

impl Act {
    pub open spec fn place(self) -> int {
        match self {
            Act::FoldPaths => 0,
            Act::NoteClaim => 1,
            Act::Remember => 2,
            Act::NoteWhatItKeeps => 3,
            Act::Forget => 4,
            Act::WhatItSaidItWas => 5,
            Act::Reply => 6,
            Act::Answer => 7,
            Act::TakeHeaders => 8,
            Act::NoteWhatWasNotTaken => 9,
            Act::Announce => 10,
            Act::PassOn => 11,
            Act::Stop(_) => 12,
            Act::Drop(_) => 13,
            Act::ReadOn => 14,
            Act::End => 15,
        }
    }

    /// Whether a reaction calls for this, from a peer that has introduced
    /// itself or not, in a message that is the introduction or not, on a
    /// connection whose peer had named an address or not.
    pub open spec fn is_due(self, reaction: ReactionView, introduced: bool, names_itself: bool) -> bool {
        match self {
            Act::FoldPaths => reaction.placed.len() > 0,
            Act::NoteClaim => introduced,
            Act::Remember => reaction.learned.len() > 0,
            Act::NoteWhatItKeeps => introduced,
            Act::Forget => reaction.forget.len() > 0,
            Act::WhatItSaidItWas => names_itself,
            Act::Reply => reaction.reply.len() > 0,
            Act::Answer => true,
            Act::TakeHeaders => reaction.offered_headers is Some,
            Act::NoteWhatWasNotTaken => true,
            Act::Announce => reaction.broadcast.len() > 0,
            Act::PassOn => reaction.relayed.len() > 0,
            Act::Stop(outdated) => reaction.outdated == Some(outdated),
            Act::Drop(reason) => reaction.drop_peer == Some(reason),
            Act::ReadOn => true,
            Act::End => false,
        }
    }
}

/// Whether `next` is the first thing due from `place` on.
pub open spec fn is_next(
    reaction: ReactionView,
    introduced: bool,
    names_itself: bool,
    place: int,
    next: Act,
) -> bool {
    &&& next.is_due(reaction, introduced, names_itself)
    &&& next.place() >= place
    &&& forall|earlier: Act| #[trigger]
        earlier.is_due(reaction, introduced, names_itself) && earlier.place() >= place ==> next.place()
            <= earlier.place()
}

fn due_from(reaction: &Reaction, introduced: bool, names_itself: bool, place: u8) -> (next: Act)
    ensures
        place <= 14 ==> is_next(reaction@, introduced, names_itself, place as int, next),
{
    if place <= 0 && reaction.placed.len() > 0 {
        return Act::FoldPaths;
    }
    if place <= 1 && introduced {
        return Act::NoteClaim;
    }
    if place <= 2 && reaction.learned.len() > 0 {
        return Act::Remember;
    }
    if place <= 3 && introduced {
        return Act::NoteWhatItKeeps;
    }
    if place <= 4 && reaction.forget.len() > 0 {
        return Act::Forget;
    }
    if place <= 5 && names_itself {
        return Act::WhatItSaidItWas;
    }
    if place <= 6 && reaction.reply.len() > 0 {
        return Act::Reply;
    }
    if place <= 7 {
        return Act::Answer;
    }
    if place <= 8 && reaction.offered_headers.is_some() {
        return Act::TakeHeaders;
    }
    if place <= 9 {
        return Act::NoteWhatWasNotTaken;
    }
    if place <= 10 && reaction.broadcast.len() > 0 {
        return Act::Announce;
    }
    if place <= 11 && reaction.relayed.len() > 0 {
        return Act::PassOn;
    }
    if place <= 12 {
        match reaction.outdated {
            Some(outdated) => {
                return Act::Stop(outdated);
            },
            None => {},
        }
    }
    if place <= 13 {
        match reaction.drop_peer {
            Some(reason) => {
                return Act::Drop(reason);
            },
            None => {},
        }
    }
    Act::ReadOn
}

/// The things a reaction calls for, one after another.
///
/// In this order, and the order is the point. Whatever reaches a disk or
/// another peer comes after the chain has been let go of; an answer that finds
/// no room in the queue, and a connection that turns out to be the half of a
/// pair to end, end it there, with what comes after left undone.
#[derive(Debug)]
pub struct Reacted {
    introduced: bool,
    names_itself: bool,
    act: Act,
}

impl Reacted {
    /// What is to be done next.
    pub closed spec fn doing(&self) -> Act {
        self.act
    }

    pub closed spec fn came_introduced(&self) -> bool {
        self.introduced
    }

    pub closed spec fn came_named(&self) -> bool {
        self.names_itself
    }

    /// Begins with what a message led to: `introduction` for one that is the
    /// introduction. A peer naming where it listens for the first time is
    /// noted on the connection, so it is asked about once.
    pub fn to(connection: &mut Connection, introduction: bool, reaction: &Reaction) -> (reacted: Reacted)
        ensures
            ({
                let names_itself = !old(connection).announced && old(connection).peer.advertised is Some;
                &&& reacted.came_introduced() == (introduction && old(connection).peer.greeted)
                &&& reacted.came_named() == names_itself
                &&& is_next(
                    reaction@,
                    reacted.came_introduced(),
                    names_itself,
                    0,
                    reacted.doing(),
                )
                &&& *final(connection) == (Connection {
                    announced: old(connection).announced || names_itself,
                    ..*old(connection)
                })
            }),
    {
        let introduced: bool = introduction && connection.peer.greeted;
        let names_itself: bool = !connection.announced && connection.peer.advertised.is_some();
        if names_itself {
            connection.announced = true;
        }
        Reacted { introduced, names_itself, act: due_from(reaction, introduced, names_itself, 0) }
    }

    /// What is to be done next.
    pub fn act(&self) -> (act: Act)
        ensures
            act == self.doing(),
    {
        self.act
    }

    /// Moves on, given whether the last thing went well. The ones that can go
    /// badly are an answer the queue had no room for, and an account of itself
    /// that makes this connection the half of a pair to end.
    pub fn done(&mut self, connection: &mut Connection, reaction: &Reaction, went_well: bool)
        ensures
            final(self).came_introduced() == old(self).came_introduced(),
            final(self).came_named() == old(self).came_named(),
            match old(self).doing() {
                Act::ReadOn | Act::End => final(self).doing() == old(self).doing(),
                Act::Stop(_) | Act::Drop(_) => final(self).doing() == Act::End,
                doing => if !went_well && (doing == Act::WhatItSaidItWas || doing == Act::Reply
                    || doing == Act::Answer) {
                    final(self).doing() == Act::End
                } else {
                    is_next(
                        reaction@,
                        old(self).came_introduced(),
                        old(self).came_named(),
                        doing.place() + 1,
                        final(self).doing(),
                    )
                },
            },
            *final(connection) == match old(self).doing() {
                Act::Drop(reason) => (Connection {
                    misbehaved: reason.misbehaves(),
                    ..*old(connection)
                }),
                _ => *old(connection),
            },
    {
        let place: u8 = match self.act {
            Act::ReadOn | Act::End => {
                return ;
            },
            Act::Stop(_) => {
                self.act = Act::End;
                return ;
            },
            Act::Drop(reason) => {
                connection.misbehaved = reason.is_misbehaviour();
                self.act = Act::End;
                return ;
            },
            Act::FoldPaths => 1,
            Act::NoteClaim => 2,
            Act::Remember => 3,
            Act::NoteWhatItKeeps => 4,
            Act::Forget => 5,
            Act::WhatItSaidItWas => {
                if !went_well {
                    self.act = Act::End;
                    return ;
                }
                6
            },
            Act::Reply => {
                if !went_well {
                    self.act = Act::End;
                    return ;
                }
                7
            },
            Act::Answer => {
                if !went_well {
                    self.act = Act::End;
                    return ;
                }
                8
            },
            Act::TakeHeaders => 9,
            Act::NoteWhatWasNotTaken => 10,
            Act::Announce => 11,
            Act::PassOn => 12,
        };
        self.act = due_from(reaction, self.introduced, self.names_itself, place);
    }
}

/// What a peer claims to have, as whoever is choosing whom to follow is told.
#[derive(Clone, Copy, Debug, PartialEq, Eq, Structural)]
pub struct Claim {
    pub remote: Option<Host>,
    pub total_work: u128,
    pub height: u64,
    /// Whether it says it can show the chain.
    pub shows: bool,
}

/// The claim to note of a peer that has introduced itself. None on a node that
/// has a chain: whom to follow is a question it has answered.
pub fn note_claim(empty: bool, peer: &PeerState) -> (claim: Option<Claim>)
    ensures
        claim == if empty {
            Some(
                Claim {
                    remote: peer@.remote,
                    total_work: peer@.total_work,
                    height: peer@.height,
                    shows: peer@.keeps.headers,
                },
            )
        } else {
            None
        },
{
    if !empty {
        return None;
    }
    Some(
        Claim {
            remote: peer.remote,
            total_work: peer.total_work,
            height: peer.height,
            shows: peer.keeps.headers,
        },
    )
}

/// What is held against an address once its connection has ended.
#[derive(Clone, Copy, Debug, PartialEq, Eq, Structural)]
pub struct Held {
    /// The host to turn away for a while.
    pub refuse: Option<Host>,
    /// The address to count a miss against.
    pub missed: Option<Address>,
}

/// What the node holds against an address once its connection has ended.
///
/// Two different judgements, and neither is about the message that happened to
/// be last. A peer that behaved badly is turned away for a while. And an
/// address this node went out to, that took the connection and then never
/// introduced itself, has a miss counted against it exactly as one that
/// refused the dial outright does.
pub fn note_the_ending(connection: &Connection) -> (held: Held)
    ensures
        held.refuse == if connection.misbehaved {
            connection.remote
        } else {
            None
        },
        held.missed == if connection.peer.greeted {
            None
        } else {
            connection.dialled
        },
{
    Held {
        refuse: if connection.misbehaved {
            connection.remote
        } else {
            None
        },
        missed: if connection.peer.greeted {
            None
        } else {
            connection.dialled
        },
    }
}

/// Whom what a connection sends is counted against: where its peer says it
/// listens, and failing that where it came from.
pub fn sender_for(connection: &Connection) -> (sender: Option<Address>)
    ensures
        sender == counts_as(connection.peer.advertised, connection.remote),
{
    sender_of(connection.peer.advertised, connection.remote)
}

/// A slow link loses its connection and not its address: a frame that stalls
/// is held against nobody.
pub proof fn a_stalled_frame_is_nobodys_fault(had: usize, wanted: usize)
    ensures
        !blames_the_peer(WireError::Stalled { had, wanted }),
{
}

/// A peer is a flood only for what it sent inside one window: however the
/// clock moves, the first message of a fresh window counts as one.
pub proof fn a_clock_stepping_back_makes_no_flood(started: u64, in_window: u32, now: u64)
    requires
        now < started,
    ensures
        counted(started, in_window, now) == 1,
{
}

/// Of everything a chain can say of a block, one thing is held against whoever
/// sent it: that it breaks the rules. A block this node has not caught up to,
/// cannot reach, has no rules for or finds ahead of its clock is nobody's
/// fault.
pub proof fn only_a_bad_block_is_held_against_its_sender(
    chain: &Chain,
    peer: PeerView,
    block: Located,
    verdict: Verdict,
    now: u64,
)
    ensures
        match about_block(chain, peer, block, verdict, now).drop_peer {
            Some(reason) => verdict is Bad && reason.misbehaves(),
            None => !(verdict is Bad),
        },
{
}

/// A block at a height this build has no rules for stops the node, once
/// everything due before it has been done, and lets no peer go.
pub proof fn a_build_without_the_rules_stops(
    chain: &Chain,
    peer: PeerView,
    block: Located,
    outdated: Outdated,
    now: u64,
    names_itself: bool,
)
    ensures
        ({
            let reaction = about_block(chain, peer, block, Verdict::Outdated(outdated), now);
            &&& Act::Stop(outdated).is_due(reaction, false, names_itself)
            &&& forall|reason: DropReason| !#[trigger] Act::Drop(reason).is_due(
                reaction,
                false,
                names_itself,
            )
            &&& is_next(
                reaction,
                false,
                names_itself,
                Act::NoteWhatWasNotTaken.place() + 1,
                Act::Stop(outdated),
            )
        }),
{
}

/// A run of messages is counted over ten seconds, and started over where the
/// clock has gone back.
pub proof fn messages_are_counted_over_ten_seconds(started: u64, now: u64, over: bool)
    requires
        call_ensures(window_is_over, (started, now), over),
    ensures
        started <= now < started + 10 ==> !over,
        started + 10 <= now ==> over,
        now < started ==> over,
{
}

/// A frame declared too large and one that cannot be read are held against
/// whoever sent it, and nothing else that goes wrong on a line is.
pub proof fn only_a_bad_frame_is_held_against_its_sender(error: &WireError, fault: bool)
    requires
        call_ensures(is_peer_fault, (error,), fault),
    ensures
        (*error matches WireError::FrameTooLarge { .. }) || *error is Malformed ==> fault,
        *error is Io || *error is WrongNetwork || *error is OversizedSend || *error is Stalled
            || *error is Unaccepted ==> !fault,
{
}

/// Blocks and word of them are put off while a node is holding off, and
/// transfers while it is on probation; whatever else comes is taken.
pub proof fn only_what_is_of_a_chain_is_held_off(
    kind: Kind,
    greeted: bool,
    holding_off: bool,
    on_probation: bool,
    held: bool,
)
    requires
        call_ensures(held_off, (kind, greeted, holding_off, on_probation), held),
    ensures
        kind == Kind::Block || kind == Kind::Announce || kind == Kind::Chain ==> held == holding_off,
        kind == Kind::Transaction ==> held == (greeted && on_probation),
        kind != Kind::Block && kind != Kind::Announce && kind != Kind::Chain && kind
            != Kind::Transaction ==> !held,
{
}

/// A message is taken unless it is past the two thousandth of its ten seconds,
/// which ends the connection and is held against whoever sent it.
pub proof fn a_flood_ends_a_connection(connection: &mut Connection, now: u64, next: Next)
    requires
        call_ensures(Connection::heard, (connection, &Heard::Message, now), next),
    ensures
        old(connection).window_start <= now < old(connection).window_start + 10 ==> {
            &&& old(connection).in_window < 2_000 ==> next is Take && final(connection).in_window
                == old(connection).in_window + 1 && final(connection).misbehaved
                == old(connection).misbehaved
            &&& old(connection).in_window >= 2_000 ==> next is End && final(connection).misbehaved
            &&& final(connection).window_start == old(connection).window_start
        },
        now < old(connection).window_start || old(connection).window_start + 10 <= now ==> {
            &&& next is Take
            &&& final(connection).in_window == 1
            &&& final(connection).window_start == now
            &&& final(connection).misbehaved == old(connection).misbehaved
        },
        final(connection).last_heard == now,
        final(connection).peer == old(connection).peer,
        final(connection).announced == old(connection).announced,
{
}

/// A minute and a half without a word ends a connection, and nothing is held
/// against it; anything less is waited out.
pub proof fn a_silence_ends_a_connection(connection: &mut Connection, now: u64, next: Next)
    requires
        call_ensures(Connection::heard, (connection, &Heard::Quiet, now), next),
    ensures
        old(connection).last_heard + 90 <= now ==> next is End,
        now < old(connection).last_heard + 90 ==> next is Read,
        *final(connection) == *old(connection),
{
}

/// A line that fails ends the connection, and is held against the peer exactly
/// when the failure is the peer's.
pub proof fn a_failure_ends_a_connection(
    connection: &mut Connection,
    error: WireError,
    now: u64,
    next: Next,
    fault: bool,
)
    requires
        call_ensures(Connection::heard, (connection, &Heard::Failed(error), now), next),
        call_ensures(is_peer_fault, (&error,), fault),
    ensures
        next is End,
        final(connection).misbehaved == fault,
        final(connection).peer == old(connection).peer,
{
}

/// A connection that has not said who it is may send four kilobytes at a time,
/// and one that has a megabyte.
pub proof fn a_stranger_sends_less_at_a_time(connection: &Connection, bytes: usize)
    requires
        call_ensures(Connection::most, (connection,), bytes),
    ensures
        connection.announced ==> bytes == 1_048_576,
        !connection.announced ==> bytes == 4_096,
{
}

/// A message decided with what this node holds to hand comes to what the same
/// message comes to in steps: whatever needs nothing looked up is as it was, a
/// block is what comes of what the chain made of it, and a transfer is passed
/// on exactly when it is new.
pub proof fn a_message_decided_at_once_is_one_decided_in_steps<
    H: Fn(&Located) -> bool,
    B: FnOnce(Located) -> (Verdict, Chain),
    T: FnOnce(Hash32) -> bool,
>(
    local: &Local,
    peer: &mut PeerState,
    stepped: &mut PeerState,
    message: Message,
    now: u64,
    holds: H,
    apply: B,
    take: T,
    reaction: Reaction,
    reacting: Reacting,
)
    requires
        call_ensures(
            decide::<H, B, T>,
            (local, peer, message, now, holds, apply, take),
            reaction,
        ),
        call_ensures(on_message, (local, stepped, message, now), reacting),
        old(stepped)@ == old(peer)@,
    ensures
        reacting@ matches ReactingView::Done(done) ==> reaction@ == done && final(peer)@
            == final(stepped)@,
        reacting@ matches ReactingView::Transfer(id) ==> {
            &&& final(peer)@ == final(stepped)@
            &&& !call_ensures(take, (id,), false) ==> reaction@.relayed == seq![id]
            &&& !call_ensures(take, (id,), true) ==> reaction@.relayed.len() == 0
            &&& reaction@.reply.len() == 0 && reaction@.drop_peer is None
        },
        reacting@ matches ReactingView::Block(block) ==> exists|verdict: Verdict, chain: Chain|
            #![trigger call_ensures(apply, (block,), (verdict, chain))]
            call_ensures(apply, (block,), (verdict, chain)) && (verdict is Bad
                <==> reaction@.drop_peer is Some) && final(peer)@.awaiting.subset_of(
                final(stepped)@.awaiting,
            ) && !final(peer)@.awaiting.contains(block.height),
{
    match reacting@ {
        ReactingView::Block(block) => {
            let applied = choose|applied: (Verdict, Chain)| #[trigger]
                call_ensures(apply, (block,), applied) && decided_block(
                    after_message(local, old(peer)@, message@, now),
                    block,
                    applied,
                    now,
                    final(peer)@,
                    reaction@,
                );
            assert(call_ensures(apply, (block,), (applied.0, applied.1)));
        },
        ReactingView::Transfer(id) => {
            assert(from_transfer(id, take, reaction@));
        },
        _ => {},
    }
}

/// How far along what a reaction asks for an act comes.
pub open spec fn order_of(act: Act) -> int {
    match act {
        Act::FoldPaths => 0,
        Act::NoteClaim => 1,
        Act::Remember => 2,
        Act::NoteWhatItKeeps => 3,
        Act::Forget => 4,
        Act::WhatItSaidItWas => 5,
        Act::Reply => 6,
        Act::Answer => 7,
        Act::TakeHeaders => 8,
        Act::NoteWhatWasNotTaken => 9,
        Act::Announce => 10,
        Act::PassOn => 11,
        Act::Stop(_) => 12,
        Act::Drop(_) => 13,
        Act::ReadOn => 14,
        Act::End => 15,
    }
}

/// Whether an act is the first thing asked for from a place in the order on:
/// it is asked for, and nothing asked for in between is passed over.
pub open spec fn passes_nothing_over(
    reaction: ReactionView,
    introduced: bool,
    names_itself: bool,
    from: int,
    act: Act,
) -> bool {
    let at = order_of(act);
    &&& from <= at
    &&& act is FoldPaths ==> reaction.placed.len() > 0
    &&& act is NoteClaim || act is NoteWhatItKeeps ==> introduced
    &&& act is Remember ==> reaction.learned.len() > 0
    &&& act is Forget ==> reaction.forget.len() > 0
    &&& act is WhatItSaidItWas ==> names_itself
    &&& act is Reply ==> reaction.reply.len() > 0
    &&& act is TakeHeaders ==> reaction.offered_headers is Some
    &&& act is Announce ==> reaction.broadcast.len() > 0
    &&& act is PassOn ==> reaction.relayed.len() > 0
    &&& act matches Act::Stop(outdated) ==> reaction.outdated == Some(outdated)
    &&& act matches Act::Drop(reason) ==> reaction.drop_peer == Some(reason)
    &&& !(act is End)
    &&& from <= 0 && reaction.placed.len() > 0 ==> at <= 0
    &&& from <= 1 && introduced ==> at <= 1
    &&& from <= 2 && reaction.learned.len() > 0 ==> at <= 2
    &&& from <= 3 && introduced ==> at <= 3
    &&& from <= 4 && reaction.forget.len() > 0 ==> at <= 4
    &&& from <= 5 && names_itself ==> at <= 5
    &&& from <= 6 && reaction.reply.len() > 0 ==> at <= 6
    &&& from <= 7 ==> at <= 7
    &&& from <= 8 && reaction.offered_headers is Some ==> at <= 8
    &&& from <= 9 ==> at <= 9
    &&& from <= 10 && reaction.broadcast.len() > 0 ==> at <= 10
    &&& from <= 11 && reaction.relayed.len() > 0 ==> at <= 11
    &&& from <= 12 && reaction.outdated is Some ==> at <= 12
    &&& from <= 13 && reaction.drop_peer is Some ==> at <= 13
    &&& from <= 14 ==> at <= 14
}

proof fn next_passes_nothing_over(
    reaction: ReactionView,
    introduced: bool,
    names_itself: bool,
    from: int,
    act: Act,
)
    requires
        is_next(reaction, introduced, names_itself, from, act),
    ensures
        passes_nothing_over(reaction, introduced, names_itself, from, act),
{
    assert(reaction.placed.len() > 0 ==> Act::FoldPaths.is_due(
        reaction,
        introduced,
        names_itself,
    ));
    assert(introduced ==> Act::NoteClaim.is_due(reaction, introduced, names_itself));
    assert(reaction.learned.len() > 0 ==> Act::Remember.is_due(
        reaction,
        introduced,
        names_itself,
    ));
    assert(introduced ==> Act::NoteWhatItKeeps.is_due(reaction, introduced, names_itself));
    assert(reaction.forget.len() > 0 ==> Act::Forget.is_due(reaction, introduced, names_itself));
    assert(names_itself ==> Act::WhatItSaidItWas.is_due(reaction, introduced, names_itself));
    assert(reaction.reply.len() > 0 ==> Act::Reply.is_due(reaction, introduced, names_itself));
    assert(Act::Answer.is_due(reaction, introduced, names_itself));
    assert(reaction.offered_headers is Some ==> Act::TakeHeaders.is_due(
        reaction,
        introduced,
        names_itself,
    ));
    assert(Act::NoteWhatWasNotTaken.is_due(reaction, introduced, names_itself));
    assert(reaction.broadcast.len() > 0 ==> Act::Announce.is_due(
        reaction,
        introduced,
        names_itself,
    ));
    assert(reaction.relayed.len() > 0 ==> Act::PassOn.is_due(reaction, introduced, names_itself));
    match reaction.outdated {
        Some(outdated) => {
            assert(Act::Stop(outdated).is_due(reaction, introduced, names_itself));
        },
        None => {},
    }
    match reaction.drop_peer {
        Some(reason) => {
            assert(Act::Drop(reason).is_due(reaction, introduced, names_itself));
        },
        None => {},
    }
    assert(Act::ReadOn.is_due(reaction, introduced, names_itself));
}

/// A reaction is carried out from its first act on. A connection names itself
/// once, the first time it has said where it is reached, and counts as
/// introduced when it has just introduced itself and been greeted.
pub proof fn a_reaction_is_carried_out_from_the_first(
    connection: &mut Connection,
    introduction: bool,
    reaction: &Reaction,
    reacted: Reacted,
    act: Act,
)
    requires
        call_ensures(Reacted::to, (connection, introduction, reaction), reacted),
        call_ensures(Reacted::act, (&reacted,), act),
    ensures
        ({
            let introduced = introduction && old(connection).peer.greeted;
            let names_itself = !old(connection).announced && old(connection).peer.advertised is Some;
            &&& passes_nothing_over(reaction@, introduced, names_itself, 0, act)
            &&& final(connection).announced == (old(connection).announced || names_itself)
            &&& final(connection).peer == old(connection).peer
            &&& final(connection).misbehaved == old(connection).misbehaved
            &&& final(connection).last_heard == old(connection).last_heard
            &&& final(connection).in_window == old(connection).in_window
        }),
{
    next_passes_nothing_over(
        reaction@,
        reacted.came_introduced(),
        reacted.came_named(),
        0,
        reacted.doing(),
    );
}

/// An act done is followed by the next one asked for, and none is passed over.
/// A connection that could not be named, replied to or answered ends there, and
/// so does one that is stopped or dropped. Only being dropped says anything of
/// how the peer behaved.
pub proof fn an_act_is_followed_by_the_next_asked_for(
    reacted: &mut Reacted,
    connection: &mut Connection,
    reaction: &Reaction,
    went_well: bool,
    before: Act,
    after: Act,
    misbehaved: bool,
    reason: DropReason,
)
    requires
        call_ensures(Reacted::act, (&*old(reacted),), before),
        call_ensures(Reacted::done, (reacted, connection, reaction, went_well), ()),
        call_ensures(Reacted::act, (&*final(reacted),), after),
        call_ensures(DropReason::is_misbehaviour, (reason,), misbehaved),
    ensures
        before is ReadOn || before is End ==> after == before,
        before is Stop || before is Drop ==> after is End,
        !went_well && (before is WhatItSaidItWas || before is Reply || before is Answer)
            ==> after is End,
        order_of(before) < 12 && (went_well || !(before is WhatItSaidItWas || before is Reply
            || before is Answer)) ==> passes_nothing_over(
            reaction@,
            old(reacted).came_introduced(),
            old(reacted).came_named(),
            order_of(before) + 1,
            after,
        ),
        before == Act::Drop(reason) ==> final(connection).misbehaved == misbehaved,
        !(before is Drop) ==> *final(connection) == *old(connection),
        final(connection).peer == old(connection).peer,
{
    if order_of(before) < 12 && (went_well || !(before is WhatItSaidItWas || before is Reply
        || before is Answer)) {
        next_passes_nothing_over(
            reaction@,
            old(reacted).came_introduced(),
            old(reacted).came_named(),
            before.place() + 1,
            after,
        );
    }
}

/// A connection that misbehaved has its host turned away, and one that was
/// dialled and never greeted is one that was missed.
pub proof fn an_ending_is_held_against_whoever_earned_it(connection: &Connection, held: Held)
    requires
        call_ensures(note_the_ending, (connection,), held),
    ensures
        connection.misbehaved ==> held.refuse == connection.remote,
        !connection.misbehaved ==> held.refuse is None,
        connection.peer.greeted ==> held.missed is None,
        !connection.peer.greeted ==> held.missed == connection.dialled,
{
}

/// A claim is noted by a node without a chain and by no other, as it was made.
pub proof fn a_claim_is_noted_as_it_was_made(empty: bool, peer: &PeerState, claim: Option<Claim>)
    requires
        call_ensures(note_claim, (empty, peer), claim),
    ensures
        claim is Some <==> empty,
        claim matches Some(claim) ==> claim.remote == peer@.remote && claim.total_work
            == peer@.total_work && claim.height == peer@.height && claim.shows
            == peer@.keeps.headers,
{
}

/// A connection counts as the address it says it is reached at, and as its
/// host alone where it has said nothing.
pub proof fn a_connection_counts_as_where_it_is_reached(
    connection: &Connection,
    sender: Option<Address>,
)
    requires
        call_ensures(sender_for, (connection,), sender),
    ensures
        connection.peer.advertised is Some ==> sender == connection.peer.advertised,
        connection.peer.advertised is None ==> match connection.remote {
            Some(host) => sender matches Some(address) && address.host == host && address.port == 0,
            None => sender is None,
        },
{
}

/// A connection starts as a stranger that was just heard from, with nothing
/// counted against it.
pub proof fn a_connection_starts_as_a_stranger(
    id: PeerId,
    remote: Option<Host>,
    dialled: Option<Address>,
    allowance: Allowance,
    now: u64,
    connection: Connection,
)
    requires
        call_ensures(Connection::started, (id, remote, dialled, allowance, now), connection),
    ensures
        connection.id == id && connection.remote == remote && connection.dialled == dialled,
        connection.allowance == allowance,
        connection.last_heard == now && connection.window_start == now,
        connection.in_window == 0,
        !connection.announced && !connection.misbehaved,
        !connection.peer@.greeted && connection.peer@.advertised is None,
        connection.peer@.spent == 0 && connection.peer@.total_work == 0,
        connection.peer@.awaiting == Set::<u64>::empty(),
{
}

proof fn none_held_are_all_listed(ids: Seq<Located>, held: Seq<bool>)
    requires
        held.len() >= ids.len(),
        forall|i: int| 0 <= i < ids.len() ==> !#[trigger] held[i],
        ids.len() <= 128,
    ensures
        not_held(ids, held) == ids.map_values(|id: Located| id.height),
    decreases ids.len(),
{
    if ids.len() > 0 {
        none_held_are_all_listed(ids.drop_last(), held);
        assert(!held[ids.len() - 1]);
    }
    assert(not_held(ids, held) =~= ids.map_values(|id: Located| id.height));
}

proof fn all_held_are_none_listed(ids: Seq<Located>, held: Seq<bool>)
    requires
        held.len() >= ids.len(),
        forall|i: int| 0 <= i < ids.len() ==> #[trigger] held[i],
    ensures
        not_held(ids, held).len() == 0,
    decreases ids.len(),
{
    if ids.len() > 0 {
        assert(held[ids.len() - 1]);
        all_held_are_none_listed(ids.drop_last(), held);
    }
}

/// Blocks announced that are not held are asked for, in order and waited for
/// from now, and where all of them are held none is.
pub proof fn an_announcement_decided_asks_for_what_is_not_held<
    H: Fn(&Located) -> bool,
    B: FnOnce(Located) -> (Verdict, Chain),
    T: FnOnce(Hash32) -> bool,
>(
    local: &Local,
    peer: &mut PeerState,
    stepped: &mut PeerState,
    message: Message,
    now: u64,
    holds: H,
    apply: B,
    take: T,
    reaction: Reaction,
    reacting: Reacting,
    ids: Seq<Located>,
)
    requires
        call_ensures(
            decide::<H, B, T>,
            (local, peer, message, now, holds, apply, take),
            reaction,
        ),
        call_ensures(on_message, (local, stepped, message, now), reacting),
        old(stepped)@ == old(peer)@,
        reacting@ == ReactingView::Announced(ids),
        ids.len() <= 128,
    ensures
        ids.len() > 0 && (forall|i: int|
            0 <= i < ids.len() ==> !call_ensures(holds, (&#[trigger] ids[i],), true)) ==> {
            &&& reaction@.reply == seq![
                MessageView::GetBlocks(ids.map_values(|id: Located| id.height)),
            ]
            &&& final(peer)@.asked_at == now
            &&& forall|i: int|
                0 <= i < ids.len() ==> final(peer)@.awaiting.contains((#[trigger] ids[i]).height)
        },
        (forall|i: int|
            0 <= i < ids.len() ==> !call_ensures(holds, (&#[trigger] ids[i],), false)) ==> {
            &&& reaction@.reply.len() <= 1
            &&& reaction@.reply.len() == 1 ==> reaction@.reply[0] == (MessageView::GetChain {
                locator: local.chain.locator@,
            })
            &&& final(peer)@.awaiting.subset_of(final(stepped)@.awaiting)
        },
        reaction@.drop_peer is None,
{
    let handled = after_message(local, old(peer)@, message@, now);
    let held = choose|held: Seq<bool>| #[trigger]
        looked_up(holds, ids, held) && decided_announced(
            local.chain,
            handled,
            ids,
            held,
            now,
            final(peer)@,
            reaction@,
        );
    if ids.len() > 0 && forall|i: int|
        0 <= i < ids.len() ==> !call_ensures(holds, (&#[trigger] ids[i],), true) {
        assert forall|i: int| 0 <= i < ids.len() implies !#[trigger] held[i] by {
            assert(call_ensures(holds, (&ids[i],), held[i]));
        }
        none_held_are_all_listed(ids, held);
        let wanted = ids.map_values(|id: Located| id.height);
        assert forall|i: int| 0 <= i < ids.len() implies final(peer)@.awaiting.contains(
            (#[trigger] ids[i]).height,
        ) by {
            assert(wanted[i] == ids[i].height);
            assert(wanted.contains(ids[i].height));
        }
    }
    if forall|i: int|
        0 <= i < ids.len() ==> !call_ensures(holds, (&#[trigger] ids[i],), false) {
        assert forall|i: int| 0 <= i < ids.len() implies #[trigger] held[i] by {
            assert(call_ensures(holds, (&ids[i],), held[i]));
        }
        all_held_are_none_listed(ids, held);
    }
}

} // verus!
