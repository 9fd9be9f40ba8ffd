//! What holds of a queue at every moment, whatever its two ends do.
use crate::index::{
    is_consumed, is_first, max_slots, slot_of, Index, CONSUMED_FLAG, INVALID_INDEX,
};
use crate::interleaving::{ConsumerPc, LinkReason, ProducerPc, PushReturn, World};
use crate::queue_spec::{ForcePushResult, PopResult, ProducerView, TryPushResult};
use vstd::prelude::*;

verus! {

/// From position `start` on, each slot of `order` links to the one behind it; the last links to
/// none.
pub open spec fn links_follow(links: Seq<Index>, order: Seq<Index>, start: int) -> bool {
    &&& forall|i: int|
        #![trigger links[order[i] as int]]
        start <= i < order.len() - 1 ==> links[order[i] as int] == order[i + 1]
    &&& links[order.last() as int] == INVALID_INDEX
}

/// The slots that are not overrun, in one row `order`: it starts with the slot that the producer
/// fills and ends with the newest message. The tail is at position `at`; the messages are there
/// and behind it, those in front of it are free.
pub open spec fn arranged(w: World, order: Seq<Index>, at: int) -> bool {
    let v = w.producer.view;
    let links = w.memory.links;
    let len = links.len();
    &&& 3 <= len <= max_slots()
    &&& v.chain == links
    &&& forall|i: int|
        #![trigger links[i]]
        0 <= i < len ==> links[i] == INVALID_INDEX || links[i] < len
    &&& order.no_duplicates()
    &&& forall|i: int| #![trigger order[i]] 0 <= i < order.len() ==> order[i] < len
    &&& if v.overrun == INVALID_INDEX {
        order.len() == len
    } else {
        &&& v.overrun < len
        &&& order.len() == len - 1
        &&& !order.contains(v.overrun)
        &&& !is_first(w.memory.tail)
        &&& links[v.overrun as int] != INVALID_INDEX
    }
    &&& 0 <= at < order.len()
    &&& slot_of(w.memory.tail) == order[at]
    &&& v.head == order.last()
    &&& w.numbers.len() == len
    &&& order.len() - at <= w.pushed
    &&& forall|i: int|
        #![trigger order[i]]
        at <= i < order.len() ==> w.numbers[order[i] as int] == w.pushed - (order.len() - i)
    &&& forall|i: int|
        #![trigger order[i]]
        0 <= i < at ==> w.numbers[order[i] as int] < w.pushed - (order.len() - at)
    &&& v.overrun != INVALID_INDEX ==> w.numbers[v.overrun as int] < w.pushed - (order.len() - at)
    &&& is_first(w.memory.tail) ==> w.numbers[order[at] as int] == 0
}

/// Before the message of the current push is linked in.
pub open spec fn unlinked(w: World, order: Seq<Index>, at: int) -> bool {
    &&& w.producer.view.current == order[0]
    &&& w.memory.head == order.last()
    &&& at >= 1
    &&& !is_consumed(w.memory.tail) && !is_first(w.memory.tail) ==> at == 1
}

/// After the message of the current push was linked in; `next` is the slot in front.
pub open spec fn linked(w: World, order: Seq<Index>, at: int, next: Index) -> bool {
    &&& w.producer.view.current == order.last()
    &&& next == order[0]
    &&& links_follow(w.memory.links, order, 0)
    &&& !is_consumed(w.memory.tail) && !is_first(w.memory.tail) ==> at == 0
}

/// What the reason of a push promises, with `room` slots in front of the tail at least.
pub open spec fn reasoned(w: World, reason: LinkReason, at: int, room: int) -> bool {
    match reason {
        LinkReason::Force => true,
        LinkReason::TryAdvance => w.producer.view.overrun == INVALID_INDEX && at >= room,
        LinkReason::TryRequeue => w.producer.view.overrun != INVALID_INDEX && is_consumed(
            w.memory.tail,
        ),
    }
}

pub open spec fn producer_holds(w: World, order: Seq<Index>, at: int) -> bool {
    let v = w.producer.view;
    let links = w.memory.links;
    let tail = w.memory.tail;
    match w.producer.pc {
        ProducerPc::Idle => unlinked(w, order, at) && links_follow(links, order, 0),
        ProducerPc::FirstTail { next } => false,
        ProducerPc::FirstHead { next } => {
            &&& linked(w, order, at, next)
            &&& w.memory.head == INVALID_INDEX
            &&& v.overrun == INVALID_INDEX
            &&& at == order.len() - 1
            &&& is_first(tail)
        },
        ProducerPc::Clear { next, reason } => {
            &&& unlinked(w, order, at)
            &&& links_follow(links, order, 0)
            &&& next == order[1]
            &&& reasoned(w, reason, at, 2)
            &&& !(reason is Force)
        },
        ProducerPc::Link { next, reason } => {
            &&& unlinked(w, order, at)
            &&& links_follow(links, order, 1)
            &&& links[order[0] as int] == INVALID_INDEX
            &&& next == order[1]
            &&& reasoned(w, reason, at, 2)
        },
        ProducerPc::Publish { next, reason } => {
            &&& linked(w, order, at, next)
            &&& w.memory.head == order[order.len() - 2]
            &&& reasoned(w, reason, at, 1)
        },
        ProducerPc::Observe { next } => {
            &&& linked(w, order, at, next)
            &&& w.memory.head == order.last()
        },
        ProducerPc::MoveTail { next, tail: seen } => {
            &&& linked(w, order, at, next)
            &&& w.memory.head == order.last()
            &&& v.overrun == INVALID_INDEX
            &&& slot_of(seen) == order[0]
            &&& !is_consumed(seen)
            &&& if at == 0 {
                tail == seen || tail == seen | CONSUMED_FLAG
            } else {
                is_consumed(tail)
            }
        },
        ProducerPc::MoveTailAgain { next, tail: seen } => {
            &&& linked(w, order, at, next)
            &&& w.memory.head == order.last()
            &&& v.overrun != INVALID_INDEX
            &&& slot_of(seen) == order[0]
            &&& !is_consumed(seen)
            &&& !is_consumed(tail) ==> tail == seen
        },
        ProducerPc::Jump { next, tail: seen } => {
            &&& linked(w, order, at, next)
            &&& w.memory.head == order.last()
            &&& v.overrun == INVALID_INDEX
            &&& slot_of(seen) == order[0]
            &&& is_consumed(seen)
            &&& if at == 0 {
                tail == seen
            } else {
                is_consumed(tail)
            }
        },
        ProducerPc::Requeue { next } => {
            &&& linked(w, order, at, next)
            &&& w.memory.head == order.last()
            &&& v.overrun != INVALID_INDEX
            &&& is_consumed(tail)
        },
    }
}

/// The consumer keeps its message although the tail moved on.
pub open spec fn left_behind(w: World) -> bool {
    &&& !is_consumed(w.memory.tail)
    &&& w.producer.view.overrun != INVALID_INDEX
    &&& w.producer.view.overrun == w.consumer.view.current
    &&& w.held == w.numbers[w.consumer.view.current as int]
    &&& w.held >= 0
}

/// The consumer has the message under the tail.
pub open spec fn at_tail(w: World, order: Seq<Index>, at: int) -> bool {
    &&& is_consumed(w.memory.tail)
    &&& w.consumer.view.current == order[at]
    &&& w.held == w.numbers[order[at] as int]
}

/// A flush has marked the tail word `seen`. Either the tail is still there, and the message under
/// it is new to the consumer unless it was marked before, or the producer has moved it.
pub open spec fn flushing(w: World, order: Seq<Index>, at: int, seen: Index) -> bool {
    let tail = w.memory.tail;
    &&& slot_of(seen) < w.len()
    &&& if tail == seen | CONSUMED_FLAG {
        if is_consumed(seen) {
            at_tail(w, order, at) && w.consumer.view.available
        } else {
            w.held < w.numbers[order[at] as int]
        }
    } else {
        !is_consumed(tail) && !is_first(tail)
    }
}

pub open spec fn consumer_holds(w: World, order: Seq<Index>, at: int) -> bool {
    let c = w.consumer.view;
    let tail = w.memory.tail;
    let under = w.numbers[order[at] as int];
    &&& c.current < w.len()
    &&& if is_consumed(tail) {
        w.held <= under
    } else if is_first(tail) {
        w.held == -1
    } else {
        w.held + 2 <= under
    }
    &&& match w.consumer.pc {
        ConsumerPc::Idle => if is_consumed(tail) {
            at_tail(w, order, at) && c.available
        } else {
            c.available ==> left_behind(w)
        },
        ConsumerPc::Follow { tail: seen } => {
            &&& is_consumed(seen)
            &&& if tail == seen {
                at_tail(w, order, at)
            } else {
                left_behind(w)
            }
        },
        ConsumerPc::Advance { tail: seen, next } => {
            &&& is_consumed(seen)
            &&& if tail == seen {
                at_tail(w, order, at) && at + 1 < order.len() && order[at + 1] == next
            } else {
                left_behind(w)
            }
        },
        ConsumerPc::Catch => left_behind(w),
        ConsumerPc::FlushHead { tail: seen } => flushing(w, order, at, seen),
        ConsumerPc::FlushLink { tail: seen } => flushing(w, order, at, seen),
        ConsumerPc::FlushHeadAgain { tail: seen } => {
            &&& flushing(w, order, at, seen)
            &&& tail == seen | CONSUMED_FLAG ==> at + 1 < order.len()
        },
        ConsumerPc::FlushSwap { tail: seen, target } => {
            &&& flushing(w, order, at, seen)
            &&& target < w.len()
            &&& tail == seen | CONSUMED_FLAG ==> {
                let position = order.len() - (w.pushed - w.numbers[target as int]);
                at <= position < order.len() && order[position] == target
            }
        },
    }
}

/// A queue with at least one message.
pub open spec fn busy(w: World, order: Seq<Index>, at: int) -> bool {
    &&& arranged(w, order, at)
    &&& producer_holds(w, order, at)
    &&& consumer_holds(w, order, at)
}

/// A queue before its first message.
pub open spec fn untouched(w: World) -> bool {
    let len = w.len();
    let ring = ProducerView::initial(len);
    let v = w.producer.view;
    &&& 3 <= len <= max_slots()
    &&& w.memory.tail == INVALID_INDEX
    &&& w.memory.head == INVALID_INDEX
    &&& v.chain == w.memory.links
    &&& v.head == INVALID_INDEX
    &&& v.current == 0
    &&& v.overrun == INVALID_INDEX
    &&& match w.producer.pc {
        ProducerPc::Idle => w.memory.links == ring.chain,
        ProducerPc::FirstTail { next } => w.memory.links == ring.chain.update(0, INVALID_INDEX)
            && next == 1,
        _ => false,
    }
    &&& w.consumer.pc is Idle
    &&& w.consumer.view.current == 0
    &&& !w.consumer.view.available
    &&& w.pushed == 0
    &&& w.numbers == Seq::new(len, |i: int| -1int)
    &&& w.held == -1
}

/// No call has reported an invalid index.
pub open spec fn unharmed(w: World) -> bool {
    &&& w.producer.returned != Some(PushReturn::Force(ForcePushResult::QueueError))
    &&& w.producer.returned != Some(PushReturn::Try(TryPushResult::QueueError))
    &&& w.consumer.returned != Some(PopResult::QueueError)
}

/// What holds of a queue at every moment.
pub open spec fn consistent(w: World) -> bool {
    &&& unharmed(w)
    &&& untouched(w) || exists|order: Seq<Index>, at: int| busy(w, order, at)
}

} // verus!
