//! One peer's queue of things to say, bounded in messages and in bytes.
//!
//! What is counted is what has been handed over and not yet written, so the
//! bound is on memory this node is holding rather than on anything it has
//! said.

use std::collections::VecDeque;

use vstd::prelude::*;

verus! {

/// Messages queued for one peer before further ones are dropped.
pub const OUTBOUND_QUEUE: usize = 256;

/// Bytes queued for one peer before further messages are dropped.
///
/// What a window of allowance buys, so a peer cannot have more waiting for it
/// than it has paid for.
pub const OUTBOUND_QUEUE_BYTES: usize = 4_194_304;

/// What a queue weighs.
pub open spec fn total<M>(queue: Seq<(M, usize)>) -> int
    decreases queue.len(),
{
    if queue.len() == 0 {
        0
    } else {
        queue[0].1 + total(queue.skip(1))
    }
}

proof fn total_of_a_longer_queue<M>(queue: Seq<(M, usize)>, last: (M, usize))
    ensures
        total(queue.push(last)) == total(queue) + last.1,
    decreases queue.len(),
{
    reveal_with_fuel(total, 2);
    let longer = queue.push(last);
    if queue.len() == 0 {
        assert(longer.skip(1) =~= Seq::<(M, usize)>::empty());
        assert(longer[0] == last);
    } else {
        assert(longer.skip(1) =~= queue.skip(1).push(last));
        total_of_a_longer_queue(queue.skip(1), last);
    }
}

proof fn a_total_is_never_negative<M>(queue: Seq<(M, usize)>)
    ensures
        total(queue) >= 0,
    decreases queue.len(),
{
    if queue.len() > 0 {
        a_total_is_never_negative(queue.skip(1));
    }
}

/// One peer's queue.
#[derive(Debug)]
pub struct Outbound<M> {
    /// Whether anybody reads it.
    open: bool,
    queue: VecDeque<(M, usize)>,
    /// Bytes taken off the queue and still being written.
    writing: usize,
    /// Bytes handed over and not yet written.
    waiting: usize,
}

impl<M> Outbound<M> {
    /// The bytes counted are those in the queue and those being written, and
    /// neither the messages nor the bytes are past their ceiling.
    pub closed spec fn wf(&self) -> bool {
        &&& self.waiting == total(self.queue@) + self.writing
        &&& self.waiting <= OUTBOUND_QUEUE_BYTES
        &&& self.queue@.len() <= OUTBOUND_QUEUE
    }

    /// What is waiting to be written, with what each weighs, in order.
    pub closed spec fn held(&self) -> Seq<(M, usize)> {
        self.queue@
    }

    /// Bytes being written.
    pub closed spec fn in_hand(&self) -> int {
        self.writing as int
    }

    /// Whether anybody reads it.
    pub closed spec fn read(&self) -> bool {
        self.open
    }

    /// Bytes handed over and not yet written.
    pub open spec fn bytes(&self) -> int {
        total(self.held()) + self.in_hand()
    }

    /// Whether there is room for `weight` bytes more.
    pub open spec fn room_for(&self, weight: usize) -> bool {
        &&& self.read()
        &&& self.held().len() < OUTBOUND_QUEUE
        &&& self.bytes() + weight <= OUTBOUND_QUEUE_BYTES
    }

    /// An empty queue.
    pub fn new() -> (outbound: Outbound<M>)
        ensures
            outbound.wf(),
            outbound.read(),
            outbound.held() == Seq::<(M, usize)>::empty(),
            outbound.in_hand() == 0,
    {
        Outbound { open: true, queue: VecDeque::new(), writing: 0, waiting: 0 }
    }

    /// A queue nobody reads, for a connection this node has finished with.
    pub fn nowhere() -> (outbound: Outbound<M>)
        ensures
            outbound.wf(),
            !outbound.read(),
            outbound.held() == Seq::<(M, usize)>::empty(),
            outbound.in_hand() == 0,
    {
        Outbound { open: false, queue: VecDeque::new(), writing: 0, waiting: 0 }
    }

    /// Queues `message`, weighed by `weigh`, saying whether there was room for
    /// it.
    pub fn try_send<W: FnOnce(&M) -> usize>(&mut self, message: M, weigh: W) -> (outcome: Result<(), ()>)
        requires
            old(self).wf(),
            call_requires(weigh, (&message,)),
        ensures
            final(self).wf(),
            final(self).read() == old(self).read(),
            final(self).in_hand() == old(self).in_hand(),
            exists|weight: usize| #[trigger]
                call_ensures(weigh, (&message,), weight) && (outcome is Ok) == old(self).room_for(
                    weight,
                ) && final(self).held() == (if old(self).room_for(weight) {
                    old(self).held().push((message, weight))
                } else {
                    old(self).held()
                }),
    {
        let weight: usize = weigh(&message);
        self.hand_over(message, weight)
    }

    /// The same, for a caller that has already weighed what it is sending.
    pub fn hand_over(&mut self, message: M, weight: usize) -> (outcome: Result<(), ()>)
        requires
            old(self).wf(),
        ensures
            final(self).wf(),
            final(self).read() == old(self).read(),
            final(self).in_hand() == old(self).in_hand(),
            outcome is Ok <==> old(self).room_for(weight),
            final(self).held() == if old(self).room_for(weight) {
                old(self).held().push((message, weight))
            } else {
                old(self).held()
            },
    {
        proof {
            total_of_a_longer_queue(self.queue@, (message, weight));
        }
        if weight > OUTBOUND_QUEUE_BYTES - self.waiting {
            return Err(());
        }
        if !self.open || self.queue.len() >= OUTBOUND_QUEUE {
            return Err(());
        }
        self.waiting = self.waiting + weight;
        self.queue.push_back((message, weight));
        Ok(())
    }

    /// Takes the next message to be written. Its bytes stay counted until the
    /// write is over.
    pub fn next(&mut self) -> (next: Option<(M, usize)>)
        requires
            old(self).wf(),
        ensures
            final(self).wf(),
            final(self).read() == old(self).read(),
            match next {
                Some(next) => old(self).held().len() > 0 && next == old(self).held()[0] && final(self).held() == old(self).held().skip(1) && final(self).in_hand() == old(self).in_hand()
                    + next.1,
                None => old(self).held().len() == 0 && final(self).held() == old(self).held() && final(self).in_hand() == old(self).in_hand(),
            },
    {
        let ghost before = self.queue@;
        proof {
            if before.len() > 0 {
                a_total_is_never_negative(before.skip(1));
            }
        }
        match self.queue.pop_front() {
            Some(next) => {
                assert(self.queue@ =~= before.skip(1));
                self.writing = self.writing + next.1;
                Some(next)
            },
            None => None,
        }
    }

    /// Counts `weight` bytes as written, whether or not they reached the far
    /// end: once the write has returned this node is holding nothing.
    pub fn written(&mut self, weight: usize)
        requires
            old(self).wf(),
            weight <= old(self).in_hand(),
        ensures
            final(self).wf(),
            final(self).read() == old(self).read(),
            final(self).held() == old(self).held(),
            final(self).in_hand() == old(self).in_hand() - weight,
    {
        proof {
            a_total_is_never_negative(self.queue@);
        }
        self.writing = self.writing - weight;
        self.waiting = self.waiting - weight;
    }

    /// Bytes handed over and not yet written.
    pub fn queued(&self) -> (bytes: usize)
        requires
            self.wf(),
        ensures
            bytes == self.bytes(),
            bytes <= OUTBOUND_QUEUE_BYTES,
    {
        self.waiting
    }
}

/// However much is asked for it, no more waits for one peer than its queue may
/// hold, in messages and in bytes.
pub proof fn a_queue_is_bounded<M>(outbound: Outbound<M>)
    requires
        outbound.wf(),
    ensures
        outbound.held().len() <= OUTBOUND_QUEUE,
        outbound.bytes() <= OUTBOUND_QUEUE_BYTES,
{
}

/// A message is queued behind the rest, or not at all. It is queued exactly
/// when somebody is reading, fewer than two hundred and fifty-six are waiting,
/// and with it no more than four megabytes are.
pub proof fn a_message_is_queued_behind_the_rest<M>(
    outbound: &mut Outbound<M>,
    message: M,
    weight: usize,
    outcome: Result<(), ()>,
)
    requires
        call_ensures(Outbound::<M>::hand_over, (outbound, message, weight), outcome),
    ensures
        outcome is Ok <==> old(outbound).read() && old(outbound).held().len() < 256 && total(
            old(outbound).held(),
        ) + old(outbound).in_hand() + weight <= 4_194_304,
        outcome is Ok ==> final(outbound).held().len() == old(outbound).held().len() + 1
            && final(outbound).held().last() == (message, weight)
            && final(outbound).held().drop_last() == old(outbound).held(),
        outcome is Err ==> final(outbound).held() == old(outbound).held(),
        final(outbound).in_hand() == old(outbound).in_hand(),
        final(outbound).read() == old(outbound).read(),
{
    if outcome is Ok {
        assert(final(outbound).held().drop_last() =~= old(outbound).held());
    }
}

/// A message weighed as it is sent counts for what it weighs.
pub proof fn a_message_counts_for_what_it_weighs<M, W: FnOnce(&M) -> usize>(
    outbound: &mut Outbound<M>,
    message: M,
    weigh: W,
    outcome: Result<(), ()>,
    weight: usize,
)
    requires
        call_ensures(Outbound::<M>::try_send::<W>, (outbound, message, weigh), outcome),
        forall|weighed: usize| #[trigger]
            call_ensures(weigh, (&message,), weighed) ==> weighed == weight,
    ensures
        outcome is Ok <==> old(outbound).read() && old(outbound).held().len() < 256 && total(
            old(outbound).held(),
        ) + old(outbound).in_hand() + weight <= 4_194_304,
        outcome is Ok ==> final(outbound).held() == old(outbound).held().push((message, weight)),
        outcome is Err ==> final(outbound).held() == old(outbound).held(),
{
}

/// What was queued first is written first, and counts until it is written.
pub proof fn what_waits_longest_goes_first<M>(
    outbound: &mut Outbound<M>,
    next: Option<(M, usize)>,
)
    requires
        call_ensures(Outbound::<M>::next, (outbound,), next),
    ensures
        next is None <==> old(outbound).held().len() == 0,
        next matches Some(first) ==> {
            &&& old(outbound).held() == seq![first] + final(outbound).held()
            &&& total(final(outbound).held()) + final(outbound).in_hand() == total(
                old(outbound).held(),
            ) + old(outbound).in_hand()
        },
        next is None ==> final(outbound).held() == old(outbound).held() && final(outbound).in_hand()
            == old(outbound).in_hand(),
{
    match next {
        Some(first) => {
            assert(old(outbound).held() =~= seq![first] + final(outbound).held());
        },
        None => {},
    }
}

/// A message written makes room for as much again.
pub proof fn a_message_written_makes_room<M>(
    outbound: &mut Outbound<M>,
    weight: usize,
    before: usize,
)
    requires
        call_ensures(Outbound::<M>::queued, (&*old(outbound),), before),
        call_ensures(Outbound::<M>::written, (outbound, weight), ()),
    ensures
        total(final(outbound).held()) + final(outbound).in_hand() == before - weight,
        final(outbound).held() == old(outbound).held(),
{
}

/// What a queue weighs is what each thing in it weighs, added up.
pub proof fn a_queue_weighs_what_is_in_it<M>(queue: Seq<(M, usize)>, message: M, weight: usize)
    ensures
        total(Seq::<(M, usize)>::empty()) == 0,
        total(queue.push((message, weight))) == total(queue) + weight,
        total(queue) >= 0,
    decreases queue.len(),
{
    let more = queue.push((message, weight));
    if queue.len() > 0 {
        a_queue_weighs_what_is_in_it(queue.skip(1), message, weight);
        assert(more.skip(1) =~= queue.skip(1).push((message, weight)));
    } else {
        assert(more.skip(1) =~= Seq::<(M, usize)>::empty());
        assert(total(more.skip(1)) == 0);
    }
}

/// A queue nobody reads takes nothing.
pub proof fn a_queue_nobody_reads_takes_nothing<M>(
    outbound: &mut Outbound<M>,
    message: M,
    weight: usize,
    outcome: Result<(), ()>,
)
    requires
        call_ensures(Outbound::<M>::nowhere, (), *old(outbound)),
        call_ensures(Outbound::<M>::hand_over, (outbound, message, weight), outcome),
    ensures
        outcome is Err,
        final(outbound).held().len() == 0,
{
}

} // verus!
