//! What the consumer reads is what the producer wrote.
use crate::consistency::{busy, consistent, untouched};
use crate::index::Index;
use crate::interleaving::{PopCall, ProducerPc, PushCall, World};
use crate::queue_laws::{law_starts_consistent, law_steps_keep_consistency};
use crate::queue_spec::CellAccess;
use vstd::prelude::*;

verus! {

/// A queue in use, with what is in its message slots. `sent` has every message that became visible
/// so far, as it was when its push began to show it.
pub struct Traffic<M> {
    pub world: World,
    pub contents: Seq<M>,
    pub sent: Seq<M>,
}

impl<M> Traffic<M> {
    /// A queue as it is set up, with anything in its slots.
    pub open spec fn initial(self) -> bool {
        &&& self.world.initial()
        &&& self.contents.len() == self.world.len()
        &&& self.sent.len() == 0
    }

    /// Between two calls the producer writes to the slot that it fills.
    pub open spec fn writes(self, after: Traffic<M>) -> bool {
        &&& self.world.producer.pc is Idle
        &&& after.world == self.world
        &&& after.sent == self.sent
        &&& after.contents == self.contents.update(
            self.world.producer.view.current as int,
            after.contents[self.world.producer.view.current as int],
        )
    }

    /// One of the ends makes an access to the words. No message is copied by it.
    pub open spec fn accesses(self, after: Traffic<M>) -> bool {
        &&& self.world.steps_to(after.world)
        &&& after.contents == self.contents
        &&& after.sent == if after.world.pushed == self.world.pushed {
            self.sent
        } else {
            self.sent.push(self.contents[self.world.producer.view.current as int])
        }
    }

    pub open spec fn goes_to(self, after: Traffic<M>) -> bool {
        self.writes(after) || self.accesses(after)
    }
}

/// A queue in use from its setup on.
pub open spec fn is_traffic<M>(traffic: Seq<Traffic<M>>) -> bool {
    &&& traffic.len() > 0
    &&& traffic[0].initial()
    &&& forall|i: int|
        0 <= i < traffic.len() - 1 ==> (#[trigger] traffic[i]).goes_to(traffic[i + 1])
}

/// Whether the message that the producer is pushing is visible.
pub open spec fn is_shown(pc: ProducerPc) -> bool {
    match pc {
        ProducerPc::Idle => false,
        ProducerPc::FirstTail { next } => false,
        ProducerPc::Clear { next, reason } => false,
        ProducerPc::Link { next, reason } => false,
        _ => true,
    }
}

/// All slots but the one that the producer may write to hold the messages that were put there.
spec fn is_kept<M>(t: Traffic<M>) -> bool {
    let w = t.world;
    &&& t.contents.len() == w.len()
    &&& w.numbers.len() == w.len()
    &&& t.sent.len() == w.pushed
    &&& forall|slot: int|
        #![trigger w.numbers[slot]]
        0 <= slot < w.len() ==> w.numbers[slot] < w.pushed
    &&& forall|slot: int|
        #![trigger w.numbers[slot]]
        0 <= slot < w.len() && w.numbers[slot] >= 0 && (slot != w.producer.view.current
            || is_shown(w.producer.pc)) ==> t.contents[slot] == t.sent[w.numbers[slot]]
}

/// The slots that the producer works on are slots of the queue.
proof fn lemma_producer_within(w: World)
    requires
        consistent(w),
    ensures
        w.numbers.len() == w.len(),
        w.producer.view.current < w.len(),
        w.producer.pc is Link ==> w.producer.view.head < w.len(),
        w.producer.pc is Requeue ==> w.producer.view.overrun < w.len(),
{
    if !untouched(w) {
        let (order, at): (Seq<Index>, int) = choose|order: Seq<Index>, at: int|
            busy(w, order, at);
        assert(order[0] < w.len());
        assert(order[order.len() - 1] < w.len());
    }
}

/// What an access of the producer changes of a queue, as far as messages are concerned.
pub proof fn lemma_producer_changes(w: World, call: PushCall, access: CellAccess, after: World)
    requires
        consistent(w),
        w.producer_steps(call, access, after),
    ensures
        after.len() == w.len(),
        if w.producer.pc is FirstTail || w.producer.pc is Link {
            &&& after.pushed == w.pushed + 1
            &&& after.numbers == w.numbers.update(w.producer.view.current as int, w.pushed)
            &&& after.producer.view.current == w.producer.view.current
            &&& is_shown(after.producer.pc)
        } else {
            &&& after.pushed == w.pushed
            &&& after.numbers == w.numbers
            &&& is_shown(w.producer.pc) || (after.producer.view.current
                == w.producer.view.current && !is_shown(after.producer.pc))
        },
{
    lemma_producer_within(w);
}

/// An access of the producer keeps the messages.
proof fn lemma_producer_keeps<M>(
    t: Traffic<M>,
    call: PushCall,
    access: CellAccess,
    after: Traffic<M>,
)
    requires
        is_kept(t),
        consistent(t.world),
        t.world.producer_steps(call, access, after.world),
        t.accesses(after),
    ensures
        is_kept(after),
{
    lemma_producer_within(t.world);
    lemma_producer_changes(t.world, call, access, after.world);
}

/// An access of the consumer keeps the messages.
proof fn lemma_consumer_keeps<M>(
    t: Traffic<M>,
    call: PopCall,
    access: CellAccess,
    after: Traffic<M>,
)
    requires
        is_kept(t),
        t.world.consumer_steps(call, access, after.world),
        t.accesses(after),
    ensures
        is_kept(after),
{
}

/// A message that is written while the producer is between calls harms no other.
proof fn lemma_writing_keeps<M>(t: Traffic<M>, after: Traffic<M>)
    requires
        is_kept(t),
        consistent(t.world),
        t.writes(after),
    ensures
        is_kept(after),
{
    lemma_producer_within(t.world);
}

/// Every step keeps the messages.
proof fn lemma_step_keeps<M>(t: Traffic<M>, after: Traffic<M>)
    requires
        is_kept(t),
        consistent(t.world),
        t.goes_to(after),
    ensures
        is_kept(after),
        consistent(after.world),
{
    let w = t.world;
    if t.writes(after) {
        lemma_writing_keeps(t, after);
    } else {
        law_steps_keep_consistency(w, after.world);
        if exists|call: PushCall, access: CellAccess|
            #[trigger] w.producer_steps(call, access, after.world) {
            let (call, access) = choose|call: PushCall, access: CellAccess|
                #[trigger] w.producer_steps(call, access, after.world);
            lemma_producer_keeps(t, call, access, after);
        } else {
            let (call, access) = choose|call: PopCall, access: CellAccess|
                #[trigger] w.consumer_steps(call, access, after.world);
            lemma_consumer_keeps(t, call, access, after);
        }
    }
}

/// The messages are kept at every moment.
proof fn lemma_always_kept<M>(traffic: Seq<Traffic<M>>, i: int)
    requires
        is_traffic(traffic),
        0 <= i < traffic.len(),
    ensures
        is_kept(traffic[i]),
        consistent(traffic[i].world),
    decreases i,
{
    if i == 0 {
        law_starts_consistent(traffic[0].world);
    } else {
        lemma_always_kept(traffic, i - 1);
        assert(traffic[i - 1].goes_to(traffic[i - 1 + 1]));
        lemma_step_keeps(traffic[i - 1], traffic[i]);
    }
}

/// The message that the consumer has, between its calls, and the slot that the producer may write
/// to.
proof fn lemma_consumer_has(w: World)
    requires
        consistent(w),
        w.consumer.pc is Idle,
        w.consumer.view.available,
    ensures
        w.consumer.view.current < w.len(),
        w.numbers[w.consumer.view.current as int] == w.held,
        w.held >= 0,
        w.consumer.view.current != w.producer.view.current || is_shown(w.producer.pc),
{
    let (order, at): (Seq<Index>, int) = choose|order: Seq<Index>, at: int| busy(w, order, at);
    assert(order[at] < w.len());
    assert(order[0] < w.len());
    assert(order.contains(order[0]));
}

/// Whenever the consumer has a message, between its calls, its slot holds exactly what the
/// producer wrote there for the push of that message.
pub proof fn law_read_gives_what_was_written<M>(traffic: Seq<Traffic<M>>, i: int)
    requires
        is_traffic(traffic),
        0 <= i < traffic.len(),
        traffic[i].world.consumer.pc is Idle,
        traffic[i].world.consumer.view.available,
    ensures
        ({
            let t = traffic[i];
            let w = t.world;
            &&& 0 <= w.held < t.sent.len()
            &&& t.contents[w.consumer.view.current as int] == t.sent[w.held]
        }),
{
    lemma_always_kept(traffic, i);
    lemma_consumer_has(traffic[i].world);
}

} // verus!
