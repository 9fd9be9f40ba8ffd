//! What a queue promises to its two ends, at every moment and in every interleaving.
use crate::consistency::{busy, consistent, unharmed, untouched};
use crate::consumer_steps::{
    lemma_finds_nothing, lemma_goes_on, lemma_goes_to_target, lemma_marks_tail, lemma_reads_head,
    lemma_reads_link, lemma_reads_successor, position_of,
};
use crate::index::{
    is_consumed, lemma_consume, lemma_invalid, lemma_plain, lemma_same_word, slot_of, Index,
    CONSUMED_FLAG, INVALID_INDEX,
};
use crate::interleaving::{ConsumerPc, Memory, PopCall, ProducerPc, PushCall, PushReturn, World};
use crate::producer_steps::{
    first_order, lemma_from_clear, lemma_from_idle, lemma_from_jump, lemma_from_link,
    lemma_from_move_tail, lemma_from_move_tail_again, lemma_from_observe, lemma_from_publish,
    lemma_from_requeue, lemma_from_untouched, rotated,
};
use crate::queue_spec::{CellAccess, ForcePushResult, PopResult, TryPushResult};
use vstd::prelude::*;

verus! {

/// A queue is consistent when it is set up.
pub proof fn law_starts_consistent(w: World)
    requires
        w.initial(),
    ensures
        consistent(w),
{
}

/// An access of the producer keeps the queue consistent.
pub proof fn law_producer_keeps_consistency(
    w: World,
    call: PushCall,
    access: CellAccess,
    after: World,
)
    requires
        consistent(w),
        w.producer_steps(call, access, after),
    ensures
        consistent(after),
{
    if untouched(w) {
        lemma_from_untouched(w, call, access, after);
        if !(w.producer.pc is Idle) {
            assert(busy(after, first_order(w.len()), w.len() - 1));
        }
    } else {
        let (order, at): (Seq<Index>, int) = choose|order: Seq<Index>, at: int|
            busy(w, order, at);
        match w.producer.pc {
            ProducerPc::Idle => lemma_from_idle(w, order, at, call, access, after),
            ProducerPc::FirstTail { next } => {},
            ProducerPc::FirstHead { next } => lemma_from_publish(
                w,
                order,
                at,
                call,
                access,
                after,
            ),
            ProducerPc::Clear { next, reason } => lemma_from_clear(
                w,
                order,
                at,
                call,
                access,
                after,
            ),
            ProducerPc::Link { next, reason } => {
                lemma_from_link(w, order, at, call, access, after);
                assert(busy(after, rotated(order), at - 1));
            },
            ProducerPc::Publish { next, reason } => lemma_from_publish(
                w,
                order,
                at,
                call,
                access,
                after,
            ),
            ProducerPc::Observe { next } => lemma_from_observe(w, order, at, call, access, after),
            ProducerPc::MoveTail { next, tail } => lemma_from_move_tail(
                w,
                order,
                at,
                call,
                access,
                after,
            ),
            ProducerPc::MoveTailAgain { next, tail } => lemma_from_move_tail_again(
                w,
                order,
                at,
                call,
                access,
                after,
            ),
            ProducerPc::Jump { next, tail } => {
                lemma_from_jump(w, order, at, call, access, after);
                if access.op->swapped {
                    assert(busy(after, order.skip(1), 1));
                }
            },
            ProducerPc::Requeue { next } => {
                lemma_from_requeue(w, order, at, call, access, after);
                assert(busy(after, seq![w.producer.view.overrun] + order, at + 1));
            },
        }
    }
}

/// An access of the consumer keeps the queue consistent.
pub proof fn law_consumer_keeps_consistency(
    w: World,
    call: PopCall,
    access: CellAccess,
    after: World,
)
    requires
        consistent(w),
        w.consumer_steps(call, access, after),
    ensures
        consistent(after),
{
    if untouched(w) {
        lemma_finds_nothing(w, call, access, after);
    } else {
        let (order, at): (Seq<Index>, int) = choose|order: Seq<Index>, at: int|
            busy(w, order, at);
        match w.consumer.pc {
            ConsumerPc::Idle => lemma_marks_tail(w, order, at, call, access, after),
            ConsumerPc::Catch => lemma_marks_tail(w, order, at, call, access, after),
            ConsumerPc::Follow { tail } => lemma_reads_successor(
                w,
                order,
                at,
                call,
                access,
                after,
            ),
            ConsumerPc::Advance { tail, next } => lemma_goes_on(
                w,
                order,
                at,
                call,
                access,
                after,
            ),
            ConsumerPc::FlushHead { tail } => lemma_reads_head(w, order, at, call, access, after),
            ConsumerPc::FlushLink { tail } => lemma_reads_link(w, order, at, call, access, after),
            ConsumerPc::FlushHeadAgain { tail } => lemma_reads_head(
                w,
                order,
                at,
                call,
                access,
                after,
            ),
            ConsumerPc::FlushSwap { tail, target } => lemma_goes_to_target(
                w,
                order,
                at,
                call,
                access,
                after,
            ),
        }
    }
}

/// An access of either end keeps the queue consistent.
pub proof fn law_steps_keep_consistency(w: World, after: World)
    requires
        consistent(w),
        w.steps_to(after),
    ensures
        consistent(after),
{
    if exists|call: PushCall, access: CellAccess|
        #[trigger] w.producer_steps(call, access, after) {
        let (call, access) = choose|call: PushCall, access: CellAccess|
            #[trigger] w.producer_steps(call, access, after);
        law_producer_keeps_consistency(w, call, access, after);
    } else {
        let (call, access) = choose|call: PopCall, access: CellAccess|
            #[trigger] w.consumer_steps(call, access, after);
        law_consumer_keeps_consistency(w, call, access, after);
    }
}

/// A row of worlds, from the setup of a queue on, each one access after the one before.
pub open spec fn is_execution(worlds: Seq<World>) -> bool {
    &&& worlds.len() > 0
    &&& worlds[0].initial()
    &&& forall|i: int| 0 <= i < worlds.len() - 1 ==> (#[trigger] worlds[i]).steps_to(worlds[i + 1])
}

/// However the accesses of the two ends interleave, the queue is consistent at every moment.
pub proof fn law_always_consistent(worlds: Seq<World>, i: int)
    requires
        is_execution(worlds),
        0 <= i < worlds.len(),
    ensures
        consistent(worlds[i]),
    decreases i,
{
    if i == 0 {
        law_starts_consistent(worlds[0]);
    } else {
        law_always_consistent(worlds, i - 1);
        assert(worlds[i - 1].steps_to(worlds[i - 1 + 1]));
        law_steps_keep_consistency(worlds[i - 1], worlds[i]);
    }
}

/// The slot that the producer fills is never the one that the consumer reads: whenever both are
/// between calls, and the consumer has a message, the slots differ.
pub proof fn law_slots_are_exclusive(worlds: Seq<World>, i: int)
    requires
        is_execution(worlds),
        0 <= i < worlds.len(),
        worlds[i].producer.pc is Idle,
        worlds[i].consumer.pc is Idle,
        worlds[i].consumer.view.available,
    ensures
        worlds[i].producer.view.current < worlds[i].len(),
        worlds[i].consumer.view.current < worlds[i].len(),
        worlds[i].producer.view.current != worlds[i].consumer.view.current,
{
    law_always_consistent(worlds, i);
    let w = worlds[i];
    let (order, at): (Seq<Index>, int) = choose|order: Seq<Index>, at: int| busy(w, order, at);
    assert(order[0] < w.len());
    assert(order[at] != order[0]);
    assert(order.contains(order[0]));
}

/// No call of an end ever reports an invalid index, as long as the other end keeps to the
/// protocol.
pub proof fn law_no_queue_error(worlds: Seq<World>, i: int)
    requires
        is_execution(worlds),
        0 <= i < worlds.len(),
    ensures
        worlds[i].producer.returned != Some(PushReturn::Force(ForcePushResult::QueueError)),
        worlds[i].producer.returned != Some(PushReturn::Try(TryPushResult::QueueError)),
        worlds[i].consumer.returned != Some(PopResult::QueueError),
{
    law_always_consistent(worlds, i);
}

/// Pops hand the messages out in the order of their pushes. One that reports `Success` takes the
/// message right behind the one taken before; one that reports `SuccessMessagesDiscarded` takes a
/// later one, and at least one in between is lost; the others take none. `NoMessage` means that
/// nothing was pushed yet, `NoNewMessage` that the newest message was taken before.
pub proof fn law_pops_in_order(w: World, access: CellAccess, after: World)
    requires
        consistent(w),
        w.consumer_steps(PopCall::Pop, access, after),
        w.consumer.pc is Idle || !is_flushing(w.consumer.pc),
        after.consumer.pc is Idle,
    ensures
        match after.consumer.returned {
            Some(PopResult::NoMessage) => after.held == w.held && after.pushed == 0,
            Some(PopResult::NoNewMessage) => after.held == w.held && after.held == after.pushed - 1,
            Some(PopResult::Success) => after.held == w.held + 1,
            Some(PopResult::SuccessMessagesDiscarded) => after.held >= w.held + 2,
            _ => false,
        },
        after.held > w.held ==> after.numbers[after.consumer.view.current as int] == after.held,
        after.held < after.pushed,
{
    if untouched(w) {
        lemma_invalid();
    } else {
        let (order, at): (Seq<Index>, int) = choose|order: Seq<Index>, at: int|
            busy(w, order, at);
        let tail = w.memory.tail;
        assert(order[at] < w.len());
        if at + 1 < order.len() {
            assert(order[at + 1] < w.len());
        }
        lemma_plain(order[at]);
        lemma_invalid();
        if w.consumer.pc is Catch {
            lemma_same_word(tail, order[at]);
        }
    }
}

/// Whether a consumer is between calls or within a flush.
pub open spec fn is_flushing(pc: ConsumerPc) -> bool {
    match pc {
        ConsumerPc::Follow { tail } => false,
        ConsumerPc::Advance { tail, next } => false,
        ConsumerPc::Catch => false,
        _ => true,
    }
}

/// A flush goes forward. One that reports `Success` takes a message that is newer than the one
/// taken before; one that reports `NoNewMessage` stays on that one; one that is to be taken up
/// again has none. `NoMessage` means that nothing was pushed yet.
pub proof fn law_flush_goes_forward(w: World, access: CellAccess, after: World)
    requires
        consistent(w),
        w.consumer_steps(PopCall::Flush, access, after),
        is_flushing(w.consumer.pc),
        after.consumer.pc is Idle,
    ensures
        match after.consumer.returned {
            Some(PopResult::NoMessage) => after.held == w.held && after.pushed == 0,
            Some(PopResult::NoNewMessage) => after.held == w.held && after.held >= 0,
            Some(PopResult::Success) => w.held < after.held < after.pushed,
            None => after.held == w.held && !after.consumer.view.available,
            _ => false,
        },
        after.consumer.view.available ==> after.numbers[after.consumer.view.current as int]
            == after.held,
{
    if untouched(w) {
        lemma_invalid();
    } else {
        let (order, at): (Seq<Index>, int) = choose|order: Seq<Index>, at: int|
            busy(w, order, at);
        assert(order[at] < w.len());
        lemma_invalid();
        lemma_consume(w.consumer.pc->FlushSwap_tail);
        if w.consumer.pc is FlushHead || w.consumer.pc is FlushHeadAgain {
            lemma_reads_head(w, order, at, PopCall::Flush, access, after);
        }
        if w.consumer.pc is FlushSwap && access.op->swapped {
            let target = w.consumer.pc->FlushSwap_target;
            assert(order[position_of(w, order, target)] == target);
        }
    }
}

/// A whole call of the consumer during which the producer makes no access: a row of worlds, from
/// the call to the return.
pub open spec fn is_undisturbed_pop(row: Seq<World>, call: PopCall) -> bool {
    &&& row.len() > 1
    &&& row[0].consumer.pc is Idle
    &&& row.last().consumer.pc is Idle
    &&& forall|i: int| 0 < i < row.len() - 1 ==> !((#[trigger] row[i]).consumer.pc is Idle)
    &&& forall|i: int|
        0 <= i < row.len() - 1 ==> exists|access: CellAccess|
            #[trigger] (#[trigger] row[i]).consumer_steps(call, access, row[i + 1])
}

/// A flush under way that the producer, between calls, has not disturbed.
spec fn aims_at_newest(start: World, w: World, order: Seq<Index>, at: int) -> bool {
    let tail = start.memory.tail;
    let slot = order[at];
    &&& busy(w, order, at)
    &&& w.memory == (Memory { tail: tail | CONSUMED_FLAG, ..start.memory })
    &&& w.producer == start.producer
    &&& w.pushed == start.pushed
    &&& w.numbers == start.numbers
    &&& w.held == start.held
    &&& w.consumer.view == start.consumer.view
    &&& match w.consumer.pc {
        ConsumerPc::FlushHead { tail: seen } => seen == tail,
        ConsumerPc::FlushLink { tail: seen } => seen == tail && slot != order.last(),
        ConsumerPc::FlushHeadAgain { tail: seen } => seen == tail && slot != order.last(),
        ConsumerPc::FlushSwap { tail: seen, target } => seen == tail && target == order.last(),
        _ => false,
    }
}

/// One access of an undisturbed flush.
proof fn lemma_aims_at_newest(
    start: World,
    w: World,
    order: Seq<Index>,
    at: int,
    access: CellAccess,
    after: World,
)
    requires
        busy(start, order, at),
        consistent(w),
        start.producer.pc is Idle,
        start.consumer.pc is Idle,
        w == start || aims_at_newest(start, w, order, at),
        w.consumer_steps(PopCall::Flush, access, after),
        unharmed(start),
    ensures
        if w != start && w.consumer.pc is FlushSwap {
            &&& after.consumer.pc is Idle
            &&& after.pushed == start.pushed
            &&& after.held == after.pushed - 1
            &&& after.consumer.returned == Some(
                if start.held == start.pushed - 1 {
                    PopResult::NoNewMessage
                } else {
                    PopResult::Success
                },
            )
        } else {
            aims_at_newest(start, after, order, at)
        },
{
    let tail = start.memory.tail;
    let call = PopCall::Flush;
    assert(order[at] < w.len());
    assert(order[order.len() - 1] < w.len());
    lemma_invalid();
    lemma_consume(tail);
    if w == start {
        lemma_marks_tail(w, order, at, call, access, after);
    } else if w.consumer.pc is FlushLink {
        lemma_reads_link(w, order, at, call, access, after);
        assert(at < order.len() - 1);
        assert(w.memory.links[order[at] as int] == order[at + 1]);
        assert(order[at + 1] < w.len());
    } else if w.consumer.pc is FlushSwap {
        lemma_goes_to_target(w, order, at, call, access, after);
    } else {
        lemma_reads_head(w, order, at, call, access, after);
    }
}

/// A flush during which the producer is between calls takes the newest message, or stays on it if
/// the consumer has it already.
pub proof fn law_undisturbed_flush_takes_the_newest(row: Seq<World>)
    requires
        is_undisturbed_pop(row, PopCall::Flush),
        consistent(row[0]),
        row[0].pushed > 0,
        row[0].producer.pc is Idle,
    ensures
        row.last().pushed == row[0].pushed,
        row.last().held == row[0].pushed - 1,
        row.last().consumer.returned == Some(
            if row[0].held == row[0].pushed - 1 {
                PopResult::NoNewMessage
            } else {
                PopResult::Success
            },
        ),
{
    let start = row[0];
    let (order, at): (Seq<Index>, int) = choose|order: Seq<Index>, at: int|
        busy(start, order, at);
    lemma_flush_row(row, order, at, row.len() - 1);
}

/// An undisturbed flush up to one of its worlds.
proof fn lemma_flush_row(row: Seq<World>, order: Seq<Index>, at: int, i: int)
    requires
        is_undisturbed_pop(row, PopCall::Flush),
        consistent(row[0]),
        busy(row[0], order, at),
        row[0].producer.pc is Idle,
        0 < i < row.len(),
    ensures
        if row[i].consumer.pc is Idle {
            &&& row[i].pushed == row[0].pushed
            &&& row[i].held == row[i].pushed - 1
            &&& row[i].consumer.returned == Some(
                if row[0].held == row[0].pushed - 1 {
                    PopResult::NoNewMessage
                } else {
                    PopResult::Success
                },
            )
        } else {
            aims_at_newest(row[0], row[i], order, at)
        },
        consistent(row[i]),
    decreases i,
{
    let w = row[i - 1];
    let access = choose|access: CellAccess|
        #[trigger] w.consumer_steps(PopCall::Flush, access, row[i - 1 + 1]);
    if i > 1 {
        lemma_flush_row(row, order, at, i - 1);
    }
    law_consumer_keeps_consistency(w, PopCall::Flush, access, row[i]);
    lemma_aims_at_newest(row[0], w, order, at, access, row[i]);
}

/// The number of the oldest message that the consumer has not taken, once there was a message.
pub open spec fn oldest_unread(w: World) -> int {
    let under = w.numbers[slot_of(w.memory.tail) as int];
    if is_consumed(w.memory.tail) {
        under + 1
    } else {
        under
    }
}

/// A push loses a message when it reports `SuccessMessageDiscarded`, and only then: exactly one,
/// and that is the oldest that the consumer has not taken.
pub proof fn law_push_discards_the_oldest(
    w: World,
    call: PushCall,
    access: CellAccess,
    after: World,
)
    requires
        consistent(w),
        w.pushed > 0,
        w.producer_steps(call, access, after),
    ensures
        oldest_unread(after) == if after.producer.pc is Idle && !(w.producer.pc is Idle)
            && after.producer.returned == Some(
            PushReturn::Force(ForcePushResult::SuccessMessageDiscarded),
        ) {
            oldest_unread(w) + 1
        } else {
            oldest_unread(w)
        },
{
    let (order, at): (Seq<Index>, int) = choose|order: Seq<Index>, at: int| busy(w, order, at);
    assert(order[at] < w.len());
    assert(order[0] < w.len());
    assert(order[1] < w.len());
    lemma_plain(order[1]);
    if order.len() > 2 {
        assert(order[2] < w.len());
        lemma_plain(order[2]);
    }
    lemma_consume(w.producer.pc->MoveTail_tail);
}

/// How many slots are neither kept by the consumer nor the one that the producer fills.
pub open spec fn usable_slots(w: World) -> int {
    if w.producer.view.overrun == INVALID_INDEX {
        w.len() - 1
    } else {
        w.len() - 2
    }
}

/// A push that must not discard reports a full queue exactly when every usable slot holds a
/// message that the consumer has not let go of; with an overrun slot only while the consumer has
/// not come back for the message under the tail. The query `full` says the same.
pub proof fn law_full_means_full(w: World, call: PushCall, access: CellAccess, after: World)
    requires
        consistent(w),
        w.pushed > 0,
        w.producer.pc is Idle,
        !(call is Force),
        w.producer_steps(call, access, after),
    ensures
        ({
            let messages = w.pushed - w.numbers[slot_of(w.memory.tail) as int];
            let full = messages == usable_slots(w) && (w.producer.view.overrun == INVALID_INDEX
                || !is_consumed(w.memory.tail));
            &&& messages <= usable_slots(w)
            &&& call is Try ==> (full <==> after.producer.pc is Idle && after.producer.returned
                == Some(PushReturn::Try(TryPushResult::QueueFull)))
            &&& call is Full ==> after.producer.returned == Some(PushReturn::Full(full))
        }),
{
    let (order, at): (Seq<Index>, int) = choose|order: Seq<Index>, at: int| busy(w, order, at);
    assert(order[at] < w.len());
    assert(order[0] < w.len());
    assert(order[1] < w.len());
    assert(w.producer.view.next() == order[1]);
    assert(at != 1 ==> order[at] != order[1]);
}

} // verus!
