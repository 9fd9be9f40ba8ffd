//! What the event of a channel tells about its queue, when every push and every pop goes through
//! the two ends of the channel.
use crate::channel::{flush_end, unsignalled};
use crate::consistency::{busy, consistent, untouched};
use crate::content_laws::is_shown;
use crate::index::{is_consumed, Index, INVALID_INDEX};
use crate::interleaving::{ConsumerPc, PopCall, PushCall, World};
use crate::queue_laws::law_starts_consistent;
use crate::queue_spec::{CellAccess, PopResult};
use crate::whole_call_laws::{
    ended_well, has_taken, lemma_pop_counts, lemma_push_counts, one_if, unread,
};
use vstd::prelude::*;

verus! {

/// A channel with an event in use. `count` is what the event holds: a signal adds one, and one
/// that is waited for takes one off.
pub struct Signalling {
    pub world: World,
    pub count: int,
    /// The producer has made a push that it is to signal.
    pub due: bool,
    /// The consumer was signalled for the pop that it makes.
    pub signalled: bool,
}

impl Signalling {
    pub open spec fn initial(self) -> bool {
        &&& self.world.initial()
        &&& self.count == 0
        &&& !self.due
        &&& !self.signalled
    }

    /// The producer makes an access. It starts no call while it has to signal the last one.
    pub open spec fn pushes(self, call: PushCall, access: CellAccess, after: Signalling) -> bool {
        &&& !self.due
        &&& self.world.producer_steps(call, access, after.world)
        &&& after == (Signalling {
            world: after.world,
            due: ended_well(self.world, after.world),
            ..self
        })
    }

    /// The producer signals the push that it has made.
    pub open spec fn signals(self, after: Signalling) -> bool {
        &&& self.due
        &&& after == (Signalling { count: self.count + 1, due: false, ..self })
    }

    /// The consumer is signalled, before it pops.
    pub open spec fn waits(self, after: Signalling) -> bool {
        &&& self.world.consumer.pc is Idle
        &&& !self.signalled
        &&& self.count > 0
        &&& after == (Signalling { count: self.count - 1, signalled: true, ..self })
    }

    /// The consumer makes an access, in a pop for which it was signalled.
    pub open spec fn pops(self, access: CellAccess, after: Signalling) -> bool {
        &&& self.signalled
        &&& self.world.consumer_steps(PopCall::Pop, access, after.world)
        &&& after == (Signalling {
            world: after.world,
            signalled: !(after.world.consumer.pc is Idle),
            ..self
        })
    }

    pub open spec fn goes_to(self, after: Signalling) -> bool {
        ||| exists|call: PushCall, access: CellAccess| #[trigger] self.pushes(call, access, after)
        ||| self.signals(after)
        ||| self.waits(after)
        ||| exists|access: CellAccess| #[trigger] self.pops(access, after)
    }

    /// A push is under way whose message is visible, or it is still to be signalled.
    pub open spec fn owes(self) -> bool {
        is_shown(self.world.producer.pc) || self.due
    }
}

/// A channel with an event in use from its setup on.
pub open spec fn is_signalling(row: Seq<Signalling>) -> bool {
    &&& row.len() > 0
    &&& row[0].initial()
    &&& forall|i: int| 0 <= i < row.len() - 1 ==> (#[trigger] row[i]).goes_to(row[i + 1])
}

/// Every unread message has its signal: in the event, with the producer that is to give it, or
/// with the consumer that has received it.
spec fn is_balanced(s: Signalling) -> bool {
    &&& s.count >= 0
    &&& unread(s.world) == s.count + one_if(s.owes()) + one_if(s.signalled)
}

/// The consumer only pops: it has no message until it has taken the first one.
spec fn only_pops(w: World) -> bool {
    &&& match w.consumer.pc {
        ConsumerPc::Idle => w.consumer.view.available || w.held == -1,
        ConsumerPc::Follow { tail } => true,
        ConsumerPc::Advance { tail, next } => true,
        ConsumerPc::Catch => true,
        _ => false,
    }
    &&& w.producer.view.overrun != INVALID_INDEX ==> w.held >= 0
}

/// What holds of a channel with an event at every moment.
spec fn holds(s: Signalling) -> bool {
    &&& consistent(s.world)
    &&& only_pops(s.world)
    &&& is_balanced(s)
    &&& s.due ==> s.world.producer.pc is Idle
    &&& !s.signalled ==> s.world.consumer.pc is Idle
}

/// A slot is only overrun while the consumer has a message.
proof fn lemma_push_overruns(w: World, call: PushCall, access: CellAccess, after: World)
    requires
        consistent(w),
        only_pops(w),
        w.producer_steps(call, access, after),
    ensures
        only_pops(after),
{
    if !untouched(w) && w.producer.pc is Jump && access.op->swapped {
        let (order, at): (Seq<Index>, int) = choose|order: Seq<Index>, at: int|
            busy(w, order, at);
        assert(order[at] < w.len());
    }
}

/// An access of a pop, for which there is an unread message, and the number of unread messages.
proof fn lemma_signalled_pop(w: World, access: CellAccess, after: World)
    requires
        consistent(w),
        only_pops(w),
        unread(w) > 0,
        w.consumer_steps(PopCall::Pop, access, after),
    ensures
        consistent(after),
        only_pops(after),
        unread(w) - unread(after) == one_if(after.consumer.pc is Idle),
        after.producer == w.producer,
        after.consumer.pc is Idle ==> has_taken(after),
{
    lemma_pop_counts(w, access, after);
}

/// Every step keeps what holds.
proof fn lemma_step_holds(s: Signalling, after: Signalling)
    requires
        holds(s),
        s.goes_to(after),
    ensures
        holds(after),
{
    let w = s.world;
    if exists|call: PushCall, access: CellAccess| #[trigger] s.pushes(call, access, after) {
        let (call, access) = choose|call: PushCall, access: CellAccess|
            #[trigger] s.pushes(call, access, after);
        lemma_push_counts(w, call, access, after.world);
        lemma_push_overruns(w, call, access, after.world);
    } else if exists|access: CellAccess| #[trigger] s.pops(access, after) {
        let access = choose|access: CellAccess| #[trigger] s.pops(access, after);
        lemma_signalled_pop(w, access, after.world);
    }
}

/// What holds does so at every moment.
proof fn lemma_always_holds(row: Seq<Signalling>, i: int)
    requires
        is_signalling(row),
        0 <= i < row.len(),
    ensures
        holds(row[i]),
    decreases i,
{
    if i == 0 {
        law_starts_consistent(row[0].world);
    } else {
        lemma_always_holds(row, i - 1);
        assert(row[i - 1].goes_to(row[i - 1 + 1]));
        lemma_step_holds(row[i - 1], row[i]);
    }
}

/// The event holds one signal for each unread message, less those that are on their way: that of a
/// push which is not signalled yet, and that of a pop which was signalled but has not taken its
/// message yet. Between the calls of both ends it holds exactly as many as there are unread
/// messages.
pub proof fn law_event_counts_unread_messages(row: Seq<Signalling>, i: int)
    requires
        is_signalling(row),
        0 <= i < row.len(),
    ensures
        ({
            let s = row[i];
            let owed: int = if s.owes() {
                1
            } else {
                0
            };
            let received: int = if s.signalled {
                1
            } else {
                0
            };
            unread(s.world) == s.count + owed + received
        }),
        row[i].count >= 0,
{
    lemma_always_holds(row, i);
}

/// A pop that was signalled takes a message.
pub proof fn law_signalled_pop_takes_a_message(row: Seq<Signalling>, i: int, access: CellAccess)
    requires
        is_signalling(row),
        0 <= i < row.len() - 1,
        row[i].pops(access, row[i + 1]),
        row[i + 1].world.consumer.pc is Idle,
    ensures
        has_taken(row[i + 1].world),
        row[i + 1].world.held > row[i].world.held,
{
    lemma_always_holds(row, i);
    let w = row[i].world;
    lemma_signalled_pop(w, access, row[i + 1].world);
    crate::queue_laws::law_pops_in_order(w, access, row[i + 1].world);
}

/// A pop that was not signalled reports that there is no message, and a flush ends so, only if
/// nothing was ever pushed; at most the very first push is under way or still to be signalled.
pub proof fn law_no_message_means_none_was_pushed(
    row: Seq<Signalling>,
    i: int,
    flushed: Option<PopResult>,
)
    requires
        is_signalling(row),
        0 <= i < row.len(),
        row[i].world.consumer.pc is Idle,
        !row[i].signalled,
        row[i].count == 0,
        flushed matches Some(f) ==> f == PopResult::Success || f
            == PopResult::SuccessMessagesDiscarded,
    ensures
        ({
            let s = row[i];
            let popped = unsignalled(s.world.consumer.view);
            popped == PopResult::NoMessage || flush_end(flushed, popped) == Some(
                PopResult::NoMessage,
            ) ==> s.world.pushed == 0 || (s.world.pushed == 1 && s.owes())
        }),
{
    lemma_always_holds(row, i);
    let w = row[i].world;
    if !untouched(w) && !w.consumer.view.available {
        let (order, at): (Seq<Index>, int) = choose|order: Seq<Index>, at: int|
            busy(w, order, at);
        assert(order[at] < w.len());
        assert(!is_consumed(w.memory.tail));
    }
}

} // verus!
