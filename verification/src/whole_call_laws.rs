//! What whole calls do to the messages of a queue.
use crate::consistency::{busy, consistent, untouched};
use crate::content_laws::{is_shown, lemma_producer_changes};
use crate::index::{lemma_consume, lemma_invalid, lemma_plain, lemma_same_word, Index};
use crate::interleaving::{PopCall, PushCall, PushReturn, World};
use crate::queue_laws::{
    is_flushing, is_undisturbed_pop, law_consumer_keeps_consistency,
    law_producer_keeps_consistency, law_push_discards_the_oldest, oldest_unread,
};
use crate::queue_spec::{CellAccess, ForcePushResult, PopResult, TryPushResult};
use vstd::prelude::*;

verus! {

/// How many messages the consumer has not taken.
pub open spec fn unread(w: World) -> int {
    if w.pushed == 0 {
        0
    } else {
        w.pushed - oldest_unread(w)
    }
}

pub open spec fn one_if(condition: bool) -> int {
    if condition {
        1
    } else {
        0
    }
}

/// The last access of a push has added its message without discarding another.
pub open spec fn ended_well(before: World, after: World) -> bool {
    &&& !(before.producer.pc is Idle)
    &&& after.producer.pc is Idle
    &&& after.producer.returned == Some(PushReturn::Force(ForcePushResult::Success))
        || after.producer.returned == Some(PushReturn::Try(TryPushResult::Success))
}

/// The last pop has taken a message.
pub open spec fn has_taken(w: World) -> bool {
    w.consumer.returned == Some(PopResult::Success) || w.consumer.returned == Some(
        PopResult::SuccessMessagesDiscarded,
    )
}

/// An access of the producer and the number of unread messages.
pub proof fn lemma_push_counts(w: World, call: PushCall, access: CellAccess, after: World)
    requires
        consistent(w),
        w.producer_steps(call, access, after),
    ensures
        consistent(after),
        unread(after) - unread(w) == one_if(is_shown(after.producer.pc) || ended_well(w, after))
            - one_if(is_shown(w.producer.pc)),
        after.consumer == w.consumer,
        after.held == w.held,
{
    law_producer_keeps_consistency(w, call, access, after);
    lemma_producer_changes(w, call, access, after);
    if w.pushed > 0 {
        law_push_discards_the_oldest(w, call, access, after);
    } else if untouched(w) {
        lemma_plain(0);
    } else {
        let (order, at): (Seq<Index>, int) = choose|order: Seq<Index>, at: int|
            busy(w, order, at);
        assert(order.len() - at <= 0);
    }
}

/// An access of a pop and the number of unread messages.
pub proof fn lemma_pop_counts(w: World, access: CellAccess, after: World)
    requires
        consistent(w),
        w.consumer.pc is Idle || !is_flushing(w.consumer.pc),
        w.consumer_steps(PopCall::Pop, access, after),
    ensures
        consistent(after),
        after.producer == w.producer,
        after.pushed == w.pushed,
        after.consumer.pc is Idle || !is_flushing(after.consumer.pc),
        unread(w) - unread(after) == one_if(after.consumer.pc is Idle && has_taken(after)),
        after.consumer.pc is Idle && has_taken(after) ==> {
            &&& unread(w) > 0
            &&& after.held == oldest_unread(w)
            &&& after.consumer.view.available
        },
        after.consumer.pc is Idle && !has_taken(after) ==> {
            &&& unread(w) == 0
            &&& after.consumer.returned == Some(
                if w.pushed == 0 {
                    PopResult::NoMessage
                } else {
                    PopResult::NoNewMessage
                },
            )
        },
        !(after.consumer.pc is Idle) ==> oldest_unread(after) == oldest_unread(w),
{
    law_consumer_keeps_consistency(w, PopCall::Pop, access, after);
    lemma_invalid();
    if !untouched(w) {
        let (order, at): (Seq<Index>, int) = choose|order: Seq<Index>, at: int|
            busy(w, order, at);
        let tail = w.memory.tail;
        assert(order[at] < w.len());
        lemma_consume(tail);
        lemma_plain(order[at]);
        if at + 1 < order.len() {
            assert(order[at + 1] < w.len());
            lemma_plain(order[at + 1]);
        }
        if w.consumer.pc is Catch {
            lemma_same_word(tail, order[at]);
        }
    }
}

/// A whole call of the producer during which the consumer makes no access: a row of worlds, from
/// the call to the return.
pub open spec fn is_undisturbed_push(row: Seq<World>, call: PushCall) -> bool {
    &&& row.len() > 1
    &&& row[0].producer.pc is Idle
    &&& row.last().producer.pc is Idle
    &&& forall|i: int| 0 < i < row.len() - 1 ==> !((#[trigger] row[i]).producer.pc is Idle)
    &&& forall|i: int|
        0 <= i < row.len() - 1 ==> exists|access: CellAccess|
            #[trigger] (#[trigger] row[i]).producer_steps(call, access, row[i + 1])
}

/// An undisturbed push up to one of its worlds.
proof fn lemma_push_row(row: Seq<World>, call: PushCall, i: int)
    requires
        is_undisturbed_push(row, call),
        consistent(row[0]),
        0 <= i < row.len(),
    ensures
        consistent(row[i]),
        row[i].consumer == row[0].consumer,
        row[i].held == row[0].held,
        ({
            let shown = is_shown(row[i].producer.pc);
            let ended = i > 0 && row[i].producer.pc is Idle;
            let added = ended && is_shown(row[i - 1].producer.pc);
            let well = ended && ended_well(row[i - 1], row[i]);
            &&& row[i].pushed - row[0].pushed == one_if(shown || added)
            &&& unread(row[i]) - unread(row[0]) == one_if(shown || well)
        }),
    decreases i,
{
    if i > 0 {
        lemma_push_row(row, call, i - 1);
        let w = row[i - 1];
        let access = choose|access: CellAccess|
            #[trigger] w.producer_steps(call, access, row[i - 1 + 1]);
        lemma_push_counts(w, call, access, row[i]);
        lemma_producer_changes(w, call, access, row[i]);
    }
}

/// An undisturbed push and the unread messages: one more after a success; as many as before, with
/// the oldest gone, after one that discards; nothing changes if the queue is full or was only asked
/// about.
pub proof fn law_undisturbed_push_counts(row: Seq<World>, call: PushCall)
    requires
        is_undisturbed_push(row, call),
        consistent(row[0]),
    ensures
        match row.last().producer.returned {
            Some(PushReturn::Force(ForcePushResult::Success)) | Some(
                PushReturn::Try(TryPushResult::Success),
            ) => {
                &&& unread(row.last()) == unread(row[0]) + 1
                &&& row.last().pushed == row[0].pushed + 1
            },
            Some(PushReturn::Force(ForcePushResult::SuccessMessageDiscarded)) => {
                &&& unread(row.last()) == unread(row[0])
                &&& row.last().pushed == row[0].pushed + 1
            },
            Some(PushReturn::Try(TryPushResult::QueueFull)) | Some(PushReturn::Full(_)) => {
                &&& unread(row.last()) == unread(row[0])
                &&& row.last().pushed == row[0].pushed
            },
            _ => false,
        },
        row.last().held == row[0].held,
{
    let end = row.len() - 1;
    lemma_push_row(row, call, end);
    lemma_push_row(row, call, end - 1);
    let w = row[end - 1];
    let access = choose|access: CellAccess|
        #[trigger] w.producer_steps(call, access, row[end - 1 + 1]);
    lemma_producer_changes(w, call, access, row[end]);
    assert(consistent(row[end]));
}

/// An undisturbed pop up to one of its worlds.
proof fn lemma_pop_row(row: Seq<World>, i: int)
    requires
        is_undisturbed_pop(row, PopCall::Pop),
        consistent(row[0]),
        0 <= i < row.len() - 1,
    ensures
        consistent(row[i]),
        row[i].consumer.pc is Idle || !is_flushing(row[i].consumer.pc),
        row[i].pushed == row[0].pushed,
        unread(row[i]) == unread(row[0]),
        oldest_unread(row[i]) == oldest_unread(row[0]),
    decreases i,
{
    if i > 0 {
        lemma_pop_row(row, i - 1);
        let w = row[i - 1];
        let access = choose|access: CellAccess|
            #[trigger] w.consumer_steps(PopCall::Pop, access, row[i - 1 + 1]);
        lemma_pop_counts(w, access, row[i]);
    }
}

/// An undisturbed pop takes the oldest unread message, if there is one, and leaves one less;
/// otherwise it says whether there ever was a message.
pub proof fn law_undisturbed_pop_takes_the_oldest(row: Seq<World>)
    requires
        is_undisturbed_pop(row, PopCall::Pop),
        consistent(row[0]),
    ensures
        row.last().pushed == row[0].pushed,
        if unread(row[0]) > 0 {
            &&& has_taken(row.last())
            &&& row.last().held == oldest_unread(row[0])
            &&& unread(row.last()) == unread(row[0]) - 1
        } else {
            &&& unread(row.last()) == unread(row[0])
            &&& row.last().consumer.returned == Some(
                if row[0].pushed == 0 {
                    PopResult::NoMessage
                } else {
                    PopResult::NoNewMessage
                },
            )
        },
{
    let end = row.len() - 1;
    lemma_pop_row(row, end - 1);
    let w = row[end - 1];
    let access = choose|access: CellAccess|
        #[trigger] w.consumer_steps(PopCall::Pop, access, row[end - 1 + 1]);
    lemma_pop_counts(w, access, row[end]);
}

} // verus!
