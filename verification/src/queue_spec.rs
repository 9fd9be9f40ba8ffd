//! What the two ends of a queue do: their local state, the words they touch, and what each call
//! makes of the values it sees there.
use crate::index::{
    is_consumed, is_first, is_slot, slot_of, Index, CONSUMED_FLAG, FIRST_FLAG, INVALID_INDEX,
};
use crate::memory::Op;
use vstd::prelude::*;

verus! {

/// What a pop or a flush found.
#[derive(Clone, Copy, Debug, PartialEq, Eq, Structural)]
pub enum PopResult {
    /// An invalid index was written to shared memory (unrecoverable error).
    QueueError,
    /// No message has been produced yet.
    /// `current_message` returns `None`.
    NoMessage,
    /// No new message has been produced, but an old one is still available.
    /// `current_message` returns the old message.
    NoNewMessage,
    /// A new message is available.
    Success,
    /// A new message is available, but one or more older messages were discarded by the
    /// producer.
    SuccessMessagesDiscarded,
}

/// How a push that may discard ended.
#[derive(Clone, Copy, Debug, PartialEq, Eq, Structural)]
pub enum ForcePushResult {
    /// An invalid index was written to shared memory (unrecoverable error).
    QueueError,
    /// The message was added.
    Success,
    /// The queue was full; the message was added, but the oldest message was discarded.
    SuccessMessageDiscarded,
}

/// How a push that never discards ended.
#[derive(Clone, Copy, Debug, PartialEq, Eq, Structural)]
pub enum TryPushResult {
    /// An invalid index was written to shared memory (unrecoverable error).
    QueueError,
    /// The queue was full; the message was not added.
    QueueFull,
    /// The message was added.
    Success,
}

/// The words of a queue in shared memory.
pub enum Cell {
    /// Where the consumer is.
    Tail,
    /// The newest message.
    Head,
    /// The successor of a slot.
    Link(int),
}

/// An operation on a word of a queue.
pub struct CellAccess {
    pub cell: Cell,
    pub op: Op,
}

pub open spec fn stores(cell: Cell, value: Index) -> CellAccess {
    CellAccess { cell, op: Op::Store { value } }
}

pub open spec fn loads(cell: Cell, value: Index) -> CellAccess {
    CellAccess { cell, op: Op::Load { value } }
}

pub open spec fn swaps_tail(expected: Index, new: Index, swapped: bool) -> CellAccess {
    CellAccess { cell: Cell::Tail, op: Op::CompareExchange { expected, new, swapped } }
}

pub open spec fn consumes_tail(previous: Index) -> CellAccess {
    CellAccess { cell: Cell::Tail, op: Op::FetchOr { mask: CONSUMED_FLAG, previous } }
}

/// What a call leaves behind: the local state, what it returned and the accesses it made.
pub struct Outcome<S, R> {
    pub state: S,
    pub result: R,
    pub accesses: Seq<CellAccess>,
}

/// The local state of the producer.
pub struct ProducerView {
    /// The links as the producer last wrote them.
    pub chain: Seq<Index>,
    /// The newest message.
    pub head: Index,
    /// The slot the producer fills next.
    pub current: Index,
    /// A slot taken out of the chain because the consumer kept it while the tail moved on.
    pub overrun: Index,
}

/// What a pushing producer saw in shared memory: the tail word, and whether its first and its
/// second exchange of the tail word went through.
pub struct PushSeen {
    pub tail: Index,
    pub swapped: bool,
    pub swapped_again: bool,
}

/// What is to be done with the tail after a message was linked in.
#[derive(Clone, Copy, Debug, PartialEq, Eq, Structural)]
pub enum ForcePlan {
    /// The tail names no slot.
    Fail,
    /// The consumer has let go of the overrun slot: put it back in front and fill it next.
    Requeue,
    /// There is room: fill the next slot.
    Advance,
    /// The queue is full: discard the oldest message by moving the tail.
    MoveTail,
    /// As `MoveTail`, while a slot is still overrun.
    MoveTailAgain,
    /// The queue is full and the consumer keeps the oldest message: jump over it.
    Overrun,
}

/// What is to be done about a push that must not discard.
#[derive(Clone, Copy, Debug, PartialEq, Eq, Structural)]
pub enum TryPlan {
    /// The tail names no slot.
    Fail,
    /// There is no room.
    Full,
    /// Link the message in and fill the next slot.
    Advance,
    /// Link the message in, then put the overrun slot back in front and fill it next.
    Requeue,
}

impl ProducerView {
    /// The state before the first push: the slots form a ring.
    pub open spec fn initial(len: nat) -> ProducerView {
        ProducerView {
            chain: Seq::new(
                len,
                |i: int|
                    if i + 1 < len {
                        (i + 1) as Index
                    } else {
                        0
                    },
            ),
            head: INVALID_INDEX,
            current: 0,
            overrun: INVALID_INDEX,
        }
    }

    pub open spec fn next(self) -> Index {
        self.chain[self.current as int]
    }

    pub open spec fn with_current(self, current: Index) -> ProducerView {
        ProducerView { current, ..self }
    }

    /// After the very first message was made visible.
    pub open spec fn first_enqueued(self) -> ProducerView {
        ProducerView {
            chain: self.chain.update(self.current as int, INVALID_INDEX),
            head: self.current,
            ..self
        }
    }

    pub open spec fn first_accesses(self) -> Seq<CellAccess> {
        seq![
            stores(Cell::Link(self.current as int), INVALID_INDEX),
            stores(Cell::Tail, self.current | FIRST_FLAG),
            stores(Cell::Head, self.current),
        ]
    }

    /// After the current message was linked behind the head.
    pub open spec fn enqueued(self) -> ProducerView {
        ProducerView {
            chain: self.chain.update(self.current as int, INVALID_INDEX).update(
                self.head as int,
                self.current,
            ),
            head: self.current,
            ..self
        }
    }

    pub open spec fn enqueue_accesses(self) -> Seq<CellAccess> {
        seq![
            stores(Cell::Link(self.current as int), INVALID_INDEX),
            stores(Cell::Link(self.head as int), self.current),
            stores(Cell::Head, self.current),
        ]
    }

    /// After the overrun slot was put back in front of `next`.
    pub open spec fn requeued(self, next: Index) -> ProducerView {
        ProducerView {
            chain: self.chain.update(self.overrun as int, next),
            current: self.overrun,
            overrun: INVALID_INDEX,
            ..self
        }
    }

    pub open spec fn requeue_access(self, next: Index) -> CellAccess {
        stores(Cell::Link(self.overrun as int), next)
    }

    /// What a push that may discard does next, once its message is linked in and it has read
    /// `tail`; `next` followed the message before.
    pub open spec fn plan_force(self, next: Index, tail: Index) -> ForcePlan {
        if !is_slot(self.chain.len(), slot_of(tail)) {
            ForcePlan::Fail
        } else if self.overrun != INVALID_INDEX {
            if is_consumed(tail) {
                ForcePlan::Requeue
            } else {
                ForcePlan::MoveTailAgain
            }
        } else if next != slot_of(tail) {
            ForcePlan::Advance
        } else if !is_consumed(tail) {
            ForcePlan::MoveTail
        } else {
            ForcePlan::Overrun
        }
    }

    /// What a push that must not discard does once it has read `tail`.
    pub open spec fn plan_try(self, tail: Index) -> TryPlan {
        if !is_slot(self.chain.len(), slot_of(tail)) {
            TryPlan::Fail
        } else if self.overrun != INVALID_INDEX {
            if is_consumed(tail) {
                TryPlan::Requeue
            } else {
                TryPlan::Full
            }
        } else if self.next() == slot_of(tail) {
            TryPlan::Full
        } else {
            TryPlan::Advance
        }
    }

    /// The attempt to jump over the slot of `expected`, which the consumer keeps.
    pub open spec fn jumped(self, expected: Index, swapped: bool) -> Outcome<
        ProducerView,
        ForcePushResult,
    > {
        let kept = slot_of(expected);
        let after = self.chain[kept as int];
        if after >= self.chain.len() {
            Outcome { state: self, result: ForcePushResult::QueueError, accesses: seq![] }
        } else {
            Outcome {
                state: if swapped {
                    ProducerView { overrun: kept, current: after, ..self }
                } else {
                    self.with_current(kept)
                },
                result: if swapped {
                    ForcePushResult::SuccessMessageDiscarded
                } else {
                    ForcePushResult::Success
                },
                accesses: seq![swaps_tail(expected, self.chain[after as int], swapped)],
            }
        }
    }

    /// A push after the message was linked in and the tail was read.
    pub open spec fn settled(self, next: Index, seen: PushSeen) -> Outcome<
        ProducerView,
        ForcePushResult,
    > {
        let slot = slot_of(seen.tail);
        let move_tail = swaps_tail(seen.tail, self.chain[slot as int], seen.swapped);
        match self.plan_force(next, seen.tail) {
            ForcePlan::Fail => Outcome {
                state: self,
                result: ForcePushResult::QueueError,
                accesses: seq![],
            },
            ForcePlan::Requeue => Outcome {
                state: self.requeued(next),
                result: ForcePushResult::Success,
                accesses: seq![self.requeue_access(next)],
            },
            ForcePlan::Advance => Outcome {
                state: self.with_current(next),
                result: ForcePushResult::Success,
                accesses: seq![],
            },
            ForcePlan::MoveTailAgain => if seen.swapped {
                Outcome {
                    state: self.with_current(slot),
                    result: ForcePushResult::SuccessMessageDiscarded,
                    accesses: seq![move_tail],
                }
            } else {
                Outcome {
                    state: self.requeued(next),
                    result: ForcePushResult::Success,
                    accesses: seq![move_tail, self.requeue_access(next)],
                }
            },
            ForcePlan::MoveTail => if seen.swapped {
                Outcome {
                    state: self.with_current(next),
                    result: ForcePushResult::SuccessMessageDiscarded,
                    accesses: seq![move_tail],
                }
            } else {
                let jump = self.jumped(seen.tail | CONSUMED_FLAG, seen.swapped_again);
                Outcome { accesses: seq![move_tail] + jump.accesses, ..jump }
            },
            ForcePlan::Overrun => self.jumped(seen.tail, seen.swapped),
        }
    }

    /// A push that discards the oldest unread message when the queue is full.
    pub open spec fn force_push(self, seen: PushSeen) -> Outcome<ProducerView, ForcePushResult> {
        if self.current >= self.chain.len() {
            Outcome { state: self, result: ForcePushResult::QueueError, accesses: seq![] }
        } else if self.head == INVALID_INDEX {
            Outcome {
                state: self.first_enqueued().with_current(self.next()),
                result: ForcePushResult::Success,
                accesses: self.first_accesses(),
            }
        } else {
            let rest = self.enqueued().settled(self.next(), seen);
            Outcome {
                accesses: self.enqueue_accesses().push(loads(Cell::Tail, seen.tail))
                    + rest.accesses,
                ..rest
            }
        }
    }

    /// A push that adds the message only if there is room.
    pub open spec fn try_push(self, tail: Index) -> Outcome<ProducerView, TryPushResult> {
        if self.current >= self.chain.len() {
            Outcome { state: self, result: TryPushResult::QueueError, accesses: seq![] }
        } else if self.head == INVALID_INDEX {
            Outcome {
                state: self.first_enqueued().with_current(self.next()),
                result: TryPushResult::Success,
                accesses: self.first_accesses(),
            }
        } else {
            let load = seq![loads(Cell::Tail, tail)];
            match self.plan_try(tail) {
                TryPlan::Fail => Outcome {
                    state: self,
                    result: TryPushResult::QueueError,
                    accesses: load,
                },
                TryPlan::Full => Outcome {
                    state: self,
                    result: TryPushResult::QueueFull,
                    accesses: load,
                },
                TryPlan::Advance => Outcome {
                    state: self.enqueued().with_current(self.next()),
                    result: TryPushResult::Success,
                    accesses: load + self.enqueue_accesses(),
                },
                TryPlan::Requeue => Outcome {
                    state: self.enqueued().requeued(self.next()),
                    result: TryPushResult::Success,
                    accesses: (load + self.enqueue_accesses()).push(
                        self.requeue_access(self.next()),
                    ),
                },
            }
        }
    }

    /// Whether a push that must not discard would find no room; the tail is only read once
    /// there has been a message.
    pub open spec fn full(self, tail: Index) -> Outcome<ProducerView, bool> {
        if self.current >= self.chain.len() || self.head == INVALID_INDEX {
            Outcome { state: self, result: false, accesses: seq![] }
        } else {
            Outcome {
                state: self,
                result: self.plan_try(tail) == TryPlan::Full,
                accesses: seq![loads(Cell::Tail, tail)],
            }
        }
    }
}

/// The local state of the consumer.
pub struct ConsumerView {
    /// The slot of the message that the consumer last took.
    pub current: Index,
    /// Whether that slot holds a message.
    pub available: bool,
}

/// What a popping consumer saw in shared memory: the tail word, the successor of its message,
/// whether its exchange of the tail word went through, and the tail word after a failed one.
pub struct PopSeen {
    pub tail: Index,
    pub next: Index,
    pub swapped: bool,
    pub tail_again: Index,
}

/// What one round of a flush saw: the tail word, the head word, the successor of the message under
/// the tail, the head word at a second look, and whether the exchange of the tail word went
/// through.
pub struct FlushSeen {
    pub tail: Index,
    pub head: Index,
    pub next: Index,
    pub head_again: Index,
    pub swapped: bool,
}

/// What is to be done about a pop once the tail word was read and marked as consumed.
#[derive(Clone, Copy, Debug, PartialEq, Eq, Structural)]
pub enum PopPlan {
    /// Nothing has been produced yet.
    Empty,
    /// The tail names no slot.
    Fail,
    /// The tail is on a message that was not taken yet: take it.
    Take,
    /// The message under the tail was taken before: go on to its successor.
    Follow,
}

impl ConsumerView {
    pub open spec fn initial() -> ConsumerView {
        ConsumerView { current: 0, available: false }
    }

    pub open spec fn took(self, slot: Index) -> ConsumerView {
        ConsumerView { current: slot, available: true }
    }

    pub open spec fn has(self, available: bool) -> ConsumerView {
        ConsumerView { available, ..self }
    }

    /// What a pop does once it has read `tail`.
    pub open spec fn plan_pop(len: nat, tail: Index) -> PopPlan {
        if tail == INVALID_INDEX {
            PopPlan::Empty
        } else if !is_slot(len, slot_of(tail)) {
            PopPlan::Fail
        } else if !is_consumed(tail) {
            PopPlan::Take
        } else {
            PopPlan::Follow
        }
    }

    /// A pop of a consumer that has marked the tail before: on to the successor of its message.
    pub open spec fn followed(self, len: nat, seen: PopSeen) -> Outcome<ConsumerView, PopResult> {
        let load = loads(Cell::Link(self.current as int), seen.next);
        let swap = swaps_tail(seen.tail, seen.next | CONSUMED_FLAG, seen.swapped);
        let again = consumes_tail(seen.tail_again);
        if seen.next == INVALID_INDEX {
            Outcome {
                state: self.has(true),
                result: PopResult::NoNewMessage,
                accesses: seq![load],
            }
        } else if !is_slot(len, seen.next) {
            Outcome { state: self, result: PopResult::QueueError, accesses: seq![load] }
        } else if seen.swapped {
            Outcome {
                state: self.took(seen.next),
                result: PopResult::Success,
                accesses: seq![load, swap],
            }
        } else if !is_slot(len, seen.tail_again) {
            Outcome {
                state: self,
                result: PopResult::QueueError,
                accesses: seq![load, swap, again],
            }
        } else {
            Outcome {
                state: self.took(seen.tail_again),
                result: PopResult::SuccessMessagesDiscarded,
                accesses: seq![load, swap, again],
            }
        }
    }

    /// Takes the oldest message that was not taken yet.
    pub open spec fn pop(self, len: nat, seen: PopSeen) -> Outcome<ConsumerView, PopResult> {
        let consume = seq![consumes_tail(seen.tail)];
        match ConsumerView::plan_pop(len, seen.tail) {
            PopPlan::Empty => Outcome {
                state: self.has(false),
                result: PopResult::NoMessage,
                accesses: consume,
            },
            PopPlan::Fail => Outcome {
                state: self,
                result: PopResult::QueueError,
                accesses: consume,
            },
            PopPlan::Take => Outcome {
                state: self.took(slot_of(seen.tail)),
                result: if is_first(seen.tail) {
                    PopResult::Success
                } else {
                    PopResult::SuccessMessagesDiscarded
                },
                accesses: consume,
            },
            PopPlan::Follow => {
                let rest = self.followed(len, seen);
                Outcome { accesses: consume + rest.accesses, ..rest }
            },
        }
    }

    /// Whether a flush goes on with the head that it read: there may be none yet.
    pub open spec fn accepts_head(len: nat, head: Index) -> bool {
        is_slot(len, head) || head == INVALID_INDEX
    }

    /// Where a flush goes that has marked a tail of the queue, if it can tell.
    ///
    /// It goes to the head. But the head is stored after its message was linked in, so one that
    /// is not under the tail may be behind it. It is if the message under the tail has no
    /// successor, and the flush stays there then; otherwise a second look at the head finds it at
    /// the tail or in front of it.
    pub open spec fn flush_target(len: nat, seen: FlushSeen) -> Option<Index> {
        if !ConsumerView::accepts_head(len, seen.head) {
            None
        } else if seen.head == slot_of(seen.tail) || seen.next == INVALID_INDEX {
            Some(slot_of(seen.tail))
        } else if is_slot(len, seen.head_again) {
            Some(seen.head_again)
        } else {
            None
        }
    }

    /// What such a flush looks at before it exchanges the tail word.
    pub open spec fn flush_looks(len: nat, seen: FlushSeen) -> Seq<CellAccess> {
        let head = loads(Cell::Head, seen.head);
        let link = loads(Cell::Link(slot_of(seen.tail) as int), seen.next);
        let again = loads(Cell::Head, seen.head_again);
        if !ConsumerView::accepts_head(len, seen.head) || seen.head == slot_of(seen.tail) {
            seq![head]
        } else if seen.next == INVALID_INDEX {
            seq![head, link]
        } else {
            seq![head, link, again]
        }
    }

    /// The tail word that a flush wants to leave behind. One that stays where it is keeps its
    /// first flag: to the producer a changed tail word means that its slot was given up.
    pub open spec fn flush_word(tail: Index, target: Index) -> Index {
        if target == slot_of(tail) {
            tail | CONSUMED_FLAG
        } else {
            target | CONSUMED_FLAG
        }
    }

    /// Whether a flush from `tail` to `target` stays on the message that the consumer has.
    pub open spec fn stays(self, tail: Index, target: Index) -> bool {
        &&& is_consumed(tail)
        &&& target == slot_of(tail)
        &&& target == self.current
        &&& self.available
    }

    /// What a flush from `tail` to `target` found.
    pub open spec fn flush_result(self, tail: Index, target: Index) -> PopResult {
        if self.stays(tail, target) {
            PopResult::NoNewMessage
        } else {
            PopResult::Success
        }
    }

    /// One round of a flush. It ends without a result when the producer moved the tail; the
    /// consumer has no message then until it takes the next one.
    pub open spec fn flush_round(self, len: nat, seen: FlushSeen) -> Outcome<
        ConsumerView,
        Option<PopResult>,
    > {
        let marked = seq![consumes_tail(seen.tail)];
        let looked = marked + ConsumerView::flush_looks(len, seen);
        if seen.tail == INVALID_INDEX {
            Outcome {
                state: self.has(false),
                result: Some(PopResult::NoMessage),
                accesses: marked,
            }
        } else if !is_slot(len, slot_of(seen.tail)) {
            Outcome { state: self, result: Some(PopResult::QueueError), accesses: marked }
        } else {
            match ConsumerView::flush_target(len, seen) {
                None => Outcome {
                    state: self,
                    result: Some(PopResult::QueueError),
                    accesses: looked,
                },
                Some(target) => Outcome {
                    state: if seen.swapped {
                        self.took(target)
                    } else {
                        self.has(false)
                    },
                    result: if seen.swapped {
                        Some(self.flush_result(seen.tail, target))
                    } else {
                        None
                    },
                    accesses: looked.push(
                        swaps_tail(
                            seen.tail | CONSUMED_FLAG,
                            ConsumerView::flush_word(seen.tail, target),
                            seen.swapped,
                        ),
                    ),
                },
            }
        }
    }

    /// A flush over the rounds that were seen: it goes on until a round ends with a result.
    pub open spec fn flush(self, len: nat, seen: Seq<FlushSeen>) -> Outcome<
        ConsumerView,
        Option<PopResult>,
    >
        decreases seen.len(),
    {
        if seen.len() == 0 {
            Outcome { state: self, result: None, accesses: seq![] }
        } else {
            let before = self.flush(len, seen.drop_last());
            if before.result is Some {
                before
            } else {
                let round = before.state.flush_round(len, seen.last());
                Outcome { accesses: before.accesses + round.accesses, ..round }
            }
        }
    }
}

} // verus!
