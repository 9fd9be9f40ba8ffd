//! Every access of the consumer keeps the queue consistent.
use crate::consistency::{busy, unharmed, untouched};
use crate::index::{lemma_consume, lemma_invalid, lemma_plain, lemma_same_word, Index};
use crate::interleaving::{PopCall, World};
use crate::queue_spec::CellAccess;
use vstd::prelude::*;

verus! {

/// Before the first message a pop and a flush find nothing.
pub proof fn lemma_finds_nothing(w: World, call: PopCall, access: CellAccess, after: World)
    requires
        untouched(w),
        unharmed(w),
        w.consumer_steps(call, access, after),
    ensures
        untouched(after),
        unharmed(after),
{
    lemma_invalid();
}

/// The tail is marked as consumed.
pub proof fn lemma_marks_tail(
    w: World,
    order: Seq<Index>,
    at: int,
    call: PopCall,
    access: CellAccess,
    after: World,
)
    requires
        busy(w, order, at),
        unharmed(w),
        w.consumer.pc is Idle || w.consumer.pc is Catch,
        w.consumer_steps(call, access, after),
    ensures
        busy(after, order, at),
        unharmed(after),
{
    let tail = w.memory.tail;
    assert(order[at] < w.len());
    lemma_consume(tail);
    lemma_invalid();
    lemma_consume(after.consumer.pc->FlushHead_tail);
    lemma_consume(w.producer.pc->MoveTail_tail);
    lemma_plain(order[at]);
    if w.consumer.pc is Catch {
        lemma_same_word(tail, order[at]);
    }
}

/// The successor of the consumer's message is read.
pub proof fn lemma_reads_successor(
    w: World,
    order: Seq<Index>,
    at: int,
    call: PopCall,
    access: CellAccess,
    after: World,
)
    requires
        busy(w, order, at),
        unharmed(w),
        w.consumer.pc is Follow,
        w.consumer_steps(call, access, after),
    ensures
        busy(after, order, at),
        unharmed(after),
{
    assert(order[at] < w.len());
    if at + 1 < order.len() {
        assert(order[at + 1] < w.len());
    }
}

/// The tail goes on to the successor, or the producer was faster.
pub proof fn lemma_goes_on(
    w: World,
    order: Seq<Index>,
    at: int,
    call: PopCall,
    access: CellAccess,
    after: World,
)
    requires
        busy(w, order, at),
        unharmed(w),
        w.consumer.pc is Advance,
        w.consumer_steps(call, access, after),
    ensures
        busy(after, order, if access.op->swapped { at + 1 } else { at }),
        unharmed(after),
{
    if access.op->swapped {
        let next = w.consumer.pc->Advance_next;
        assert(order[at + 1] < w.len());
        lemma_plain(next);
    }
}

/// The successor of the message under the tail is read.
pub proof fn lemma_reads_link(
    w: World,
    order: Seq<Index>,
    at: int,
    call: PopCall,
    access: CellAccess,
    after: World,
)
    requires
        busy(w, order, at),
        unharmed(w),
        w.consumer.pc is FlushLink,
        w.consumer_steps(call, access, after),
    ensures
        busy(after, order, at),
        unharmed(after),
{
    let seen = w.consumer.pc->FlushLink_tail;
    lemma_consume(seen);
    assert(order[at] < w.len());
}

/// The head word is read, for the first or for the second time.
pub proof fn lemma_reads_head(
    w: World,
    order: Seq<Index>,
    at: int,
    call: PopCall,
    access: CellAccess,
    after: World,
)
    requires
        busy(w, order, at),
        unharmed(w),
        w.consumer.pc is FlushHead || w.consumer.pc is FlushHeadAgain,
        w.consumer_steps(call, access, after),
    ensures
        busy(after, order, at),
        unharmed(after),
{
    let count = order.len();
    lemma_consume(w.consumer.pc->FlushHead_tail);
    lemma_consume(w.consumer.pc->FlushHeadAgain_tail);
    assert(order[at] < w.len());
    assert(order[count - 1] < w.len());
    assert(order[count - 2] < w.len());
}

/// The position of a message in the row of slots.
pub open spec fn position_of(w: World, order: Seq<Index>, slot: Index) -> int {
    order.len() - (w.pushed - w.numbers[slot as int])
}

/// The tail goes to the target of the flush, or the producer was faster.
pub proof fn lemma_goes_to_target(
    w: World,
    order: Seq<Index>,
    at: int,
    call: PopCall,
    access: CellAccess,
    after: World,
)
    requires
        busy(w, order, at),
        unharmed(w),
        w.consumer.pc is FlushSwap,
        w.consumer_steps(call, access, after),
    ensures
        busy(
            after,
            order,
            if access.op->swapped {
                position_of(w, order, w.consumer.pc->FlushSwap_target)
            } else {
                at
            },
        ),
        unharmed(after),
{
    let target = w.consumer.pc->FlushSwap_target;
    let seen = w.consumer.pc->FlushSwap_tail;
    lemma_consume(seen);
    if access.op->swapped {
        let position = position_of(w, order, target);
        assert(order[position] == target);
        assert(order[at] < w.len());
        lemma_plain(target);
    }
}

} // verus!
