//! Every access of the producer keeps the queue consistent.
use crate::consistency::{busy, links_follow, unharmed, untouched};
use crate::index::{
    is_consumed, lemma_consume, lemma_plain, slot_of, Index, CONSUMED_FLAG, INVALID_INDEX,
};
use crate::interleaving::{PushCall, World};
use crate::queue_spec::CellAccess;
use vstd::prelude::*;

verus! {

/// The links of `order` stay as they are when the link of a slot outside of it changes.
proof fn lemma_links_elsewhere(
    links: Seq<Index>,
    order: Seq<Index>,
    start: int,
    slot: int,
    value: Index,
)
    requires
        links_follow(links, order, start),
        0 <= start < order.len(),
        forall|i: int|
            #![trigger order[i]]
            start <= i < order.len() ==> order[i] < links.len() && order[i] != slot,
        0 <= slot < links.len(),
    ensures
        links_follow(links.update(slot, value), order, start),
{
}

/// A flush under way looks for a tail word that carries the consumed flag.
proof fn lemma_flush_expects_consumed(w: World)
    ensures
        w.consumer.pc is FlushLink ==> is_consumed(w.consumer.pc->FlushLink_tail | CONSUMED_FLAG),
        w.consumer.pc is FlushHead ==> is_consumed(w.consumer.pc->FlushHead_tail | CONSUMED_FLAG),
        w.consumer.pc is FlushHeadAgain ==> is_consumed(
            w.consumer.pc->FlushHeadAgain_tail | CONSUMED_FLAG,
        ),
        w.consumer.pc is FlushSwap ==> is_consumed(w.consumer.pc->FlushSwap_tail | CONSUMED_FLAG),
{
    lemma_consume(w.consumer.pc->FlushLink_tail);
    lemma_consume(w.consumer.pc->FlushHead_tail);
    lemma_consume(w.consumer.pc->FlushHeadAgain_tail);
    lemma_consume(w.consumer.pc->FlushSwap_tail);
}

/// A call starts, or reads the tail only.
pub proof fn lemma_from_idle(
    w: World,
    order: Seq<Index>,
    at: int,
    call: PushCall,
    access: CellAccess,
    after: World,
)
    requires
        busy(w, order, at),
        unharmed(w),
        w.producer.pc is Idle,
        w.producer_steps(call, access, after),
    ensures
        busy(after, order, at),
        unharmed(after),
{
    assert(order[0] < w.len());
    assert(order[1] < w.len());
    assert(order[0] != order[1]);
    assert(w.producer.view.next() == order[1]);
    match call {
        PushCall::Force => {
            lemma_links_elsewhere(
                w.memory.links,
                order,
                1,
                order[0] as int,
                INVALID_INDEX,
            );
        },
        _ => {
            assert(slot_of(w.memory.tail) < w.len());
        },
    }
}

/// The link of the message is cleared.
pub proof fn lemma_from_clear(
    w: World,
    order: Seq<Index>,
    at: int,
    call: PushCall,
    access: CellAccess,
    after: World,
)
    requires
        busy(w, order, at),
        unharmed(w),
        w.producer.pc is Clear,
        w.producer_steps(call, access, after),
    ensures
        busy(after, order, at),
        unharmed(after),
{
    assert(order[0] < w.len());
    lemma_links_elsewhere(w.memory.links, order, 1, order[0] as int, INVALID_INDEX);
}

/// The row of slots after its front was put behind its end.
pub open spec fn rotated(order: Seq<Index>) -> Seq<Index> {
    order.skip(1).push(order[0])
}

/// The message is linked in behind the newest one.
pub proof fn lemma_from_link(
    w: World,
    order: Seq<Index>,
    at: int,
    call: PushCall,
    access: CellAccess,
    after: World,
)
    requires
        busy(w, order, at),
        unharmed(w),
        w.producer.pc is Link,
        w.producer_steps(call, access, after),
    ensures
        busy(after, rotated(order), at - 1),
        unharmed(after),
{
    let turned = rotated(order);
    let count = order.len();
    assert(order[0] < w.len());
    assert(order[count - 1] < w.len());
    assert(order[0] != order[count - 1]);
    assert forall|i: int| 0 <= i < count - 1 implies turned[i] == order[i + 1] by {}
    assert(turned[count - 1] == order[0]);
    assert(turned.no_duplicates());
    assert(w.producer.view.overrun != INVALID_INDEX ==> !turned.contains(w.producer.view.overrun));
    assert(links_follow(after.memory.links, turned, 0));
}

/// The head word is stored.
pub proof fn lemma_from_publish(
    w: World,
    order: Seq<Index>,
    at: int,
    call: PushCall,
    access: CellAccess,
    after: World,
)
    requires
        busy(w, order, at),
        unharmed(w),
        w.producer.pc is Publish || w.producer.pc is FirstHead,
        w.producer_steps(call, access, after),
    ensures
        busy(after, order, at),
        unharmed(after),
{
    assert(order[0] < w.len());
}

/// The tail is read.
pub proof fn lemma_from_observe(
    w: World,
    order: Seq<Index>,
    at: int,
    call: PushCall,
    access: CellAccess,
    after: World,
)
    requires
        busy(w, order, at),
        unharmed(w),
        w.producer.pc is Observe,
        w.producer_steps(call, access, after),
    ensures
        busy(after, order, at),
        unharmed(after),
{
    assert(order[0] < w.len());
    assert(order[1] < w.len());
    assert(order[at] < w.len());
}

/// The tail is moved to discard the oldest message, or the consumer was faster.
pub proof fn lemma_from_move_tail(
    w: World,
    order: Seq<Index>,
    at: int,
    call: PushCall,
    access: CellAccess,
    after: World,
)
    requires
        busy(w, order, at),
        unharmed(w),
        w.producer.pc is MoveTail,
        w.producer_steps(call, access, after),
    ensures
        busy(after, order, if access.op->swapped { 1 } else { at }),
        unharmed(after),
{
    let seen = w.producer.pc->MoveTail_tail;
    lemma_flush_expects_consumed(w);
    assert(order[0] < w.len());
    assert(order[1] < w.len());
    assert(order[2] < w.len());
    assert(w.memory.links[order[0] as int] == order[1]);
    lemma_plain(order[1]);
    lemma_consume(seen);
    if at == 0 {
        lemma_consume(w.memory.tail);
    }
}

/// The tail is moved while a slot is overrun, or the consumer was faster.
pub proof fn lemma_from_move_tail_again(
    w: World,
    order: Seq<Index>,
    at: int,
    call: PushCall,
    access: CellAccess,
    after: World,
)
    requires
        busy(w, order, at),
        unharmed(w),
        w.producer.pc is MoveTailAgain,
        w.producer_steps(call, access, after),
    ensures
        busy(after, order, if access.op->swapped { 1 } else { at }),
        unharmed(after),
{
    assert(order[0] < w.len());
    assert(order[1] < w.len());
    assert(w.memory.links[order[0] as int] == order[1]);
    lemma_plain(order[1]);
    lemma_flush_expects_consumed(w);
}

/// The tail is moved past the message that the consumer keeps, or the consumer was faster.
pub proof fn lemma_from_jump(
    w: World,
    order: Seq<Index>,
    at: int,
    call: PushCall,
    access: CellAccess,
    after: World,
)
    requires
        busy(w, order, at),
        unharmed(w),
        w.producer.pc is Jump,
        w.producer_steps(call, access, after),
    ensures
        ({
            &&& access.op->swapped ==> busy(after, order.skip(1), 1)
            &&& !access.op->swapped ==> busy(after, order, at)
        }),
        unharmed(after),
{
    let rest = order.skip(1);
    lemma_flush_expects_consumed(w);
    assert(order[0] < w.len());
    assert(order[1] < w.len());
    assert(order[2] < w.len());
    assert(w.memory.links[order[0] as int] == order[1]);
    assert(w.memory.links[order[1] as int] == order[2]);
    lemma_plain(order[2]);
    if access.op->swapped {
        assert forall|i: int| 0 <= i < rest.len() implies rest[i] == order[i + 1] by {}
        assert(rest.no_duplicates());
        assert(!rest.contains(order[0]));
        assert(links_follow(after.memory.links, rest, 0));
    }
}

/// The overrun slot is put back in front.
pub proof fn lemma_from_requeue(
    w: World,
    order: Seq<Index>,
    at: int,
    call: PushCall,
    access: CellAccess,
    after: World,
)
    requires
        busy(w, order, at),
        unharmed(w),
        w.producer.pc is Requeue,
        w.producer_steps(call, access, after),
    ensures
        busy(after, seq![w.producer.view.overrun] + order, at + 1),
        unharmed(after),
{
    let overrun = w.producer.view.overrun;
    let whole = seq![overrun] + order;
    assert(whole[0] == overrun);
    assert forall|i: int| 0 < i < whole.len() implies whole[i] == order[i - 1] by {}
    assert forall|i: int| #![trigger order[i]] 0 <= i < order.len() implies order[i] != overrun by {
        assert(order.contains(order[i]));
    }
    assert(whole.no_duplicates());
    lemma_links_elsewhere(w.memory.links, order, 0, overrun as int, order[0]);
    assert(links_follow(after.memory.links, whole, 0));
}

/// The row of slots once the first message is visible.
pub open spec fn first_order(len: nat) -> Seq<Index> {
    Seq::new(
        len,
        |i: int|
            if i + 1 < len {
                (i + 1) as Index
            } else {
                0
            },
    )
}

/// The first message becomes visible, or its push starts.
pub proof fn lemma_from_untouched(w: World, call: PushCall, access: CellAccess, after: World)
    requires
        untouched(w),
        unharmed(w),
        w.producer_steps(call, access, after),
    ensures
        w.producer.pc is Idle ==> untouched(after),
        !(w.producer.pc is Idle) ==> busy(after, first_order(w.len()), w.len() - 1),
        unharmed(after),
{
    let order = first_order(w.len());
    let len = w.len();
    lemma_plain(0);
    if w.producer.pc is FirstTail {
        assert forall|i: int| #![trigger order[i]] 0 <= i < len implies order[i] < len by {}
        assert(order.no_duplicates());
        assert(order.last() == 0);
        assert(links_follow(after.memory.links, order, 0));
    }
}

} // verus!
