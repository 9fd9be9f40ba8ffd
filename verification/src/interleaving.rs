//! A producer and a consumer at work on the same queue, one atomic access at a time.
//!
//! `ProducerThread` and `ConsumerThread` cut the calls of both ends into single accesses. A
//! `World` is the shared memory with both threads; a step of it is one access of either thread.
use crate::index::{
    is_first, is_slot, max_slots, slot_of, Index, CONSUMED_FLAG, FIRST_FLAG, INVALID_INDEX,
};
use crate::memory::Op;
use crate::queue_spec::{
    consumes_tail, loads, stores, swaps_tail, Cell, CellAccess, ConsumerView, ForcePlan,
    ForcePushResult, PopPlan, PopResult, ProducerView, TryPlan, TryPushResult,
};
use vstd::prelude::*;

verus! {

/// The words of a queue.
pub struct Memory {
    pub tail: Index,
    pub head: Index,
    pub links: Seq<Index>,
}

impl Memory {
    pub open spec fn read(self, cell: Cell) -> Index {
        match cell {
            Cell::Tail => self.tail,
            Cell::Head => self.head,
            Cell::Link(slot) => self.links[slot],
        }
    }

    pub open spec fn write(self, cell: Cell, value: Index) -> Memory {
        match cell {
            Cell::Tail => Memory { tail: value, ..self },
            Cell::Head => Memory { head: value, ..self },
            Cell::Link(slot) => Memory { links: self.links.update(slot, value), ..self },
        }
    }

    /// Whether the access came back with what the memory holds.
    pub open spec fn answers(self, access: CellAccess) -> bool {
        match access.op {
            Op::Load { value } => value == self.read(access.cell),
            Op::Store { value } => true,
            Op::FetchOr { mask, previous } => previous == self.read(access.cell),
            Op::CompareExchange { expected, new, swapped } => swapped == (self.read(access.cell)
                == expected),
        }
    }

    /// The memory after the access.
    pub open spec fn after(self, access: CellAccess) -> Memory {
        match access.op {
            Op::Load { value } => self,
            Op::Store { value } => self.write(access.cell, value),
            Op::FetchOr { mask, previous } => self.write(access.cell, previous | mask),
            Op::CompareExchange { expected, new, swapped } => if swapped {
                self.write(access.cell, new)
            } else {
                self
            },
        }
    }

    /// The memory after a row of accesses.
    pub open spec fn after_all(self, accesses: Seq<CellAccess>) -> Memory
        decreases accesses.len(),
    {
        if accesses.len() == 0 {
            self
        } else {
            self.after_all(accesses.drop_last()).after(accesses.last())
        }
    }
}

/// The calls of a producer.
pub enum PushCall {
    Force,
    Try,
    Full,
}

/// What a call of a producer returned.
pub enum PushReturn {
    Force(ForcePushResult),
    Try(TryPushResult),
    Full(bool),
}

/// Why a message is being linked in, and what comes afterwards.
pub enum LinkReason {
    Force,
    TryAdvance,
    TryRequeue,
}

/// Where a producer is within its call: the access it makes next.
pub enum ProducerPc {
    /// Between calls.
    Idle,
    /// First message: store the tail word.
    FirstTail { next: Index },
    /// First message: store the head word.
    FirstHead { next: Index },
    /// A push that must not discard found room: clear the link of its message.
    Clear { next: Index, reason: LinkReason },
    /// Link the message behind the head.
    Link { next: Index, reason: LinkReason },
    /// Store the head word.
    Publish { next: Index, reason: LinkReason },
    /// Read the tail word.
    Observe { next: Index },
    /// Exchange the tail word to discard the oldest message.
    MoveTail { next: Index, tail: Index },
    /// The same while a slot is overrun.
    MoveTailAgain { next: Index, tail: Index },
    /// Exchange the tail word to jump over the message that the consumer keeps.
    Jump { next: Index, tail: Index },
    /// Put the overrun slot back in front.
    Requeue { next: Index },
}

/// A producer within a call.
pub struct ProducerThread {
    pub view: ProducerView,
    pub pc: ProducerPc,
    /// The call it is in, or the last one.
    pub call: PushCall,
    /// What the last finished call returned.
    pub returned: Option<PushReturn>,
}

impl ProducerThread {
    pub open spec fn at(self, view: ProducerView, pc: ProducerPc) -> ProducerThread {
        ProducerThread { view, pc, ..self }
    }

    pub open spec fn done(self, view: ProducerView, returned: PushReturn) -> ProducerThread {
        ProducerThread { view, pc: ProducerPc::Idle, returned: Some(returned), ..self }
    }

    /// Whether the access is the one that the thread makes next, whatever comes back of it.
    pub open spec fn issues(self, call: PushCall, access: CellAccess) -> bool {
        let v = self.view;
        match self.pc {
            ProducerPc::Idle => {
                &&& v.current < v.chain.len()
                &&& match call {
                    PushCall::Force => access == stores(
                        Cell::Link(v.current as int),
                        INVALID_INDEX,
                    ),
                    PushCall::Try => if v.head == INVALID_INDEX {
                        access == stores(Cell::Link(v.current as int), INVALID_INDEX)
                    } else {
                        access.cell is Tail && access.op is Load
                    },
                    PushCall::Full => v.head != INVALID_INDEX && access.cell is Tail
                        && access.op is Load,
                }
            },
            ProducerPc::FirstTail { next } => access == stores(Cell::Tail, v.current | FIRST_FLAG),
            ProducerPc::FirstHead { next } => access == stores(Cell::Head, v.current),
            ProducerPc::Clear { next, reason } => access == stores(
                Cell::Link(v.current as int),
                INVALID_INDEX,
            ),
            ProducerPc::Link { next, reason } => access == stores(
                Cell::Link(v.head as int),
                v.current,
            ),
            ProducerPc::Publish { next, reason } => access == stores(Cell::Head, v.current),
            ProducerPc::Observe { next } => access.cell is Tail && access.op is Load,
            ProducerPc::MoveTail { next, tail } => {
                ||| access == swaps_tail(tail, v.chain[slot_of(tail) as int], true)
                ||| access == swaps_tail(tail, v.chain[slot_of(tail) as int], false)
            },
            ProducerPc::MoveTailAgain { next, tail } => {
                ||| access == swaps_tail(tail, v.chain[slot_of(tail) as int], true)
                ||| access == swaps_tail(tail, v.chain[slot_of(tail) as int], false)
            },
            ProducerPc::Jump { next, tail } => {
                let target = v.chain[v.chain[slot_of(tail) as int] as int];
                ||| access == swaps_tail(tail, target, true)
                ||| access == swaps_tail(tail, target, false)
            },
            ProducerPc::Requeue { next } => access == stores(Cell::Link(v.overrun as int), next),
        }
    }

    /// The thread before its jump over the slot of `tail`; it gives up when that slot has no
    /// successor.
    pub open spec fn before_jump(self, next: Index, tail: Index) -> ProducerThread {
        if self.view.chain[slot_of(tail) as int] >= self.view.chain.len() {
            self.done(self.view, PushReturn::Force(ForcePushResult::QueueError))
        } else {
            self.at(self.view, ProducerPc::Jump { next, tail })
        }
    }

    /// The thread once it has read `tail` after linking its message.
    pub open spec fn observed(self, next: Index, tail: Index) -> ProducerThread {
        let v = self.view;
        match v.plan_force(next, tail) {
            ForcePlan::Fail => self.done(v, PushReturn::Force(ForcePushResult::QueueError)),
            ForcePlan::Requeue => self.at(v, ProducerPc::Requeue { next }),
            ForcePlan::Advance => self.done(
                v.with_current(next),
                PushReturn::Force(ForcePushResult::Success),
            ),
            ForcePlan::MoveTail => self.at(v, ProducerPc::MoveTail { next, tail }),
            ForcePlan::MoveTailAgain => self.at(v, ProducerPc::MoveTailAgain { next, tail }),
            ForcePlan::Overrun => self.before_jump(next, tail),
        }
    }

    /// The thread after the access.
    pub open spec fn after(self, call: PushCall, access: CellAccess) -> ProducerThread {
        let v = self.view;
        let cleared = ProducerView {
            chain: v.chain.update(v.current as int, INVALID_INDEX),
            ..v
        };
        match self.pc {
            ProducerPc::Idle => if v.head == INVALID_INDEX {
                ProducerThread { call, ..self }.at(
                    cleared,
                    ProducerPc::FirstTail { next: v.next() },
                )
            } else {
                let called = ProducerThread { call, ..self };
                match call {
                    PushCall::Force => called.at(
                        cleared,
                        ProducerPc::Link { next: v.next(), reason: LinkReason::Force },
                    ),
                    PushCall::Try => match v.plan_try(access.op->Load_value) {
                        TryPlan::Fail => called.done(v, PushReturn::Try(TryPushResult::QueueError)),
                        TryPlan::Full => called.done(v, PushReturn::Try(TryPushResult::QueueFull)),
                        TryPlan::Advance => called.at(
                            v,
                            ProducerPc::Clear { next: v.next(), reason: LinkReason::TryAdvance },
                        ),
                        TryPlan::Requeue => called.at(
                            v,
                            ProducerPc::Clear { next: v.next(), reason: LinkReason::TryRequeue },
                        ),
                    },
                    PushCall::Full => called.done(
                        v,
                        PushReturn::Full(v.plan_try(access.op->Load_value) == TryPlan::Full),
                    ),
                }
            },
            ProducerPc::FirstTail { next } => self.at(
                ProducerView { head: v.current, ..v },
                ProducerPc::FirstHead { next },
            ),
            ProducerPc::FirstHead { next } => self.done(
                v.with_current(next),
                match self.call {
                    PushCall::Try => PushReturn::Try(TryPushResult::Success),
                    _ => PushReturn::Force(ForcePushResult::Success),
                },
            ),
            ProducerPc::Clear { next, reason } => self.at(
                cleared,
                ProducerPc::Link { next, reason },
            ),
            ProducerPc::Link { next, reason } => self.at(
                ProducerView {
                    chain: v.chain.update(v.head as int, v.current),
                    head: v.current,
                    ..v
                },
                ProducerPc::Publish { next, reason },
            ),
            ProducerPc::Publish { next, reason } => match reason {
                LinkReason::Force => self.at(v, ProducerPc::Observe { next }),
                LinkReason::TryAdvance => self.done(
                    v.with_current(next),
                    PushReturn::Try(TryPushResult::Success),
                ),
                LinkReason::TryRequeue => self.at(v, ProducerPc::Requeue { next }),
            },
            ProducerPc::Observe { next } => self.observed(next, access.op->Load_value),
            ProducerPc::MoveTail { next, tail } => if access.op->swapped {
                self.done(
                    v.with_current(next),
                    PushReturn::Force(ForcePushResult::SuccessMessageDiscarded),
                )
            } else {
                self.before_jump(next, tail | CONSUMED_FLAG)
            },
            ProducerPc::MoveTailAgain { next, tail } => if access.op->swapped {
                self.done(
                    v.with_current(slot_of(tail)),
                    PushReturn::Force(ForcePushResult::SuccessMessageDiscarded),
                )
            } else {
                self.at(v, ProducerPc::Requeue { next })
            },
            ProducerPc::Jump { next, tail } => {
                let kept = slot_of(tail);
                if access.op->swapped {
                    self.done(
                        ProducerView { overrun: kept, current: v.chain[kept as int], ..v },
                        PushReturn::Force(ForcePushResult::SuccessMessageDiscarded),
                    )
                } else {
                    self.done(
                        v.with_current(kept),
                        PushReturn::Force(ForcePushResult::Success),
                    )
                }
            },
            ProducerPc::Requeue { next } => self.done(
                v.requeued(next),
                match self.call {
                    PushCall::Try => PushReturn::Try(TryPushResult::Success),
                    _ => PushReturn::Force(ForcePushResult::Success),
                },
            ),
        }
    }

    /// The thread after a row of accesses, or nothing when it would not make them.
    pub open spec fn run(self, call: PushCall, accesses: Seq<CellAccess>) -> Option<ProducerThread>
        decreases accesses.len(),
    {
        if accesses.len() == 0 {
            Some(self)
        } else {
            match self.run(call, accesses.drop_last()) {
                Some(thread) => if thread.issues(call, accesses.last()) {
                    Some(thread.after(call, accesses.last()))
                } else {
                    None
                },
                None => None,
            }
        }
    }
}

/// The calls of a consumer.
pub enum PopCall {
    Pop,
    Flush,
}

/// Where a consumer is within its call: the access it makes next.
pub enum ConsumerPc {
    /// Between calls.
    Idle,
    /// Read the successor of its message.
    Follow { tail: Index },
    /// Exchange the tail word for that successor.
    Advance { tail: Index, next: Index },
    /// The producer moved the tail: mark it again and take what it names.
    Catch,
    /// Flush: read the head word.
    FlushHead { tail: Index },
    /// Flush: read the successor of the message under the tail.
    FlushLink { tail: Index },
    /// Flush: read the head word once more.
    FlushHeadAgain { tail: Index },
    /// Flush: exchange the tail word for that of the target.
    FlushSwap { tail: Index, target: Index },
}

/// A consumer within a call.
pub struct ConsumerThread {
    pub view: ConsumerView,
    pub pc: ConsumerPc,
    /// What the last finished call returned; nothing for a flush that is to be taken up again.
    pub returned: Option<PopResult>,
}

impl ConsumerThread {
    pub open spec fn at(self, pc: ConsumerPc) -> ConsumerThread {
        ConsumerThread { pc, ..self }
    }

    pub open spec fn done(self, view: ConsumerView, returned: PopResult) -> ConsumerThread {
        ConsumerThread { view, pc: ConsumerPc::Idle, returned: Some(returned) }
    }

    /// A flush whose round ended without a result, because the producer moved the tail.
    pub open spec fn undecided(self) -> ConsumerThread {
        ConsumerThread { view: self.view.has(false), pc: ConsumerPc::Idle, returned: None }
    }

    /// Whether the access is the one that the thread makes next, whatever comes back of it.
    pub open spec fn issues(self, access: CellAccess) -> bool {
        match self.pc {
            ConsumerPc::Idle | ConsumerPc::Catch => access
                == consumes_tail(access.op->previous),
            ConsumerPc::Follow { tail } => access == loads(
                Cell::Link(self.view.current as int),
                access.op->Load_value,
            ),
            ConsumerPc::Advance { tail, next } => {
                ||| access == swaps_tail(tail, next | CONSUMED_FLAG, true)
                ||| access == swaps_tail(tail, next | CONSUMED_FLAG, false)
            },
            ConsumerPc::FlushHead { tail } => access == loads(Cell::Head, access.op->Load_value),
            ConsumerPc::FlushLink { tail } => access == loads(
                Cell::Link(slot_of(tail) as int),
                access.op->Load_value,
            ),
            ConsumerPc::FlushHeadAgain { tail } => access == loads(
                Cell::Head,
                access.op->Load_value,
            ),
            ConsumerPc::FlushSwap { tail, target } => {
                let word = ConsumerView::flush_word(tail, target);
                ||| access == swaps_tail(tail | CONSUMED_FLAG, word, true)
                ||| access == swaps_tail(tail | CONSUMED_FLAG, word, false)
            },
        }
    }

    /// A flush once it has marked the tail word and got `tail`.
    pub open spec fn flushing(self, len: nat, tail: Index) -> ConsumerThread {
        if tail == INVALID_INDEX {
            self.done(self.view.has(false), PopResult::NoMessage)
        } else if !is_slot(len, slot_of(tail)) {
            self.done(self.view, PopResult::QueueError)
        } else {
            self.at(ConsumerPc::FlushHead { tail })
        }
    }

    /// The thread after the access, in a queue of `len` slots.
    pub open spec fn after(self, len: nat, call: PopCall, access: CellAccess) -> ConsumerThread {
        let v = self.view;
        match self.pc {
            ConsumerPc::Idle => {
                let tail = access.op->previous;
                match call {
                    PopCall::Pop => match ConsumerView::plan_pop(len, tail) {
                        PopPlan::Empty => self.done(v.has(false), PopResult::NoMessage),
                        PopPlan::Fail => self.done(v, PopResult::QueueError),
                        PopPlan::Take => self.done(
                            v.took(slot_of(tail)),
                            if is_first(tail) {
                                PopResult::Success
                            } else {
                                PopResult::SuccessMessagesDiscarded
                            },
                        ),
                        PopPlan::Follow => self.at(ConsumerPc::Follow { tail }),
                    },
                    PopCall::Flush => self.flushing(len, tail),
                }
            },
            ConsumerPc::Follow { tail } => {
                let next = access.op->Load_value;
                if next == INVALID_INDEX {
                    self.done(v.has(true), PopResult::NoNewMessage)
                } else if !is_slot(len, next) {
                    self.done(v, PopResult::QueueError)
                } else {
                    self.at(ConsumerPc::Advance { tail, next })
                }
            },
            ConsumerPc::Advance { tail, next } => if access.op->swapped {
                self.done(v.took(next), PopResult::Success)
            } else {
                self.at(ConsumerPc::Catch)
            },
            ConsumerPc::Catch => {
                let tail = access.op->previous;
                if !is_slot(len, tail) {
                    self.done(v, PopResult::QueueError)
                } else {
                    self.done(v.took(tail), PopResult::SuccessMessagesDiscarded)
                }
            },
            ConsumerPc::FlushHead { tail } => {
                let head = access.op->Load_value;
                if !ConsumerView::accepts_head(len, head) {
                    self.done(v, PopResult::QueueError)
                } else if head == slot_of(tail) {
                    self.at(ConsumerPc::FlushSwap { tail, target: slot_of(tail) })
                } else {
                    self.at(ConsumerPc::FlushLink { tail })
                }
            },
            ConsumerPc::FlushLink { tail } => if access.op->Load_value == INVALID_INDEX {
                self.at(ConsumerPc::FlushSwap { tail, target: slot_of(tail) })
            } else {
                self.at(ConsumerPc::FlushHeadAgain { tail })
            },
            ConsumerPc::FlushHeadAgain { tail } => {
                let head = access.op->Load_value;
                if !is_slot(len, head) {
                    self.done(v, PopResult::QueueError)
                } else {
                    self.at(ConsumerPc::FlushSwap { tail, target: head })
                }
            },
            ConsumerPc::FlushSwap { tail, target } => if access.op->swapped {
                self.done(v.took(target), v.flush_result(tail, target))
            } else {
                self.undecided()
            },
        }
    }

    /// The thread after a row of accesses, or nothing when it would not make them.
    pub open spec fn run(self, len: nat, call: PopCall, accesses: Seq<CellAccess>) -> Option<
        ConsumerThread,
    >
        decreases accesses.len(),
    {
        if accesses.len() == 0 {
            Some(self)
        } else {
            match self.run(len, call, accesses.drop_last()) {
                Some(thread) => if thread.issues(accesses.last()) {
                    Some(thread.after(len, call, accesses.last()))
                } else {
                    None
                },
                None => None,
            }
        }
    }
}

/// A queue in use. Beside the memory and the threads it numbers the messages: `pushed` counts
/// those that became visible, `numbers` gives for each slot the number of the message put there
/// last, and `held` is the number of the message that the consumer last took.
pub struct World {
    pub memory: Memory,
    pub producer: ProducerThread,
    pub consumer: ConsumerThread,
    pub pushed: int,
    pub numbers: Seq<int>,
    pub held: int,
}

impl World {
    pub open spec fn len(self) -> nat {
        self.memory.links.len()
    }

    /// A queue as it is set up: no message, both ends between calls.
    pub open spec fn initial(self) -> bool {
        let len = self.len();
        &&& 3 <= len <= max_slots()
        &&& self.memory.tail == INVALID_INDEX
        &&& self.memory.head == INVALID_INDEX
        &&& self.memory.links == ProducerView::initial(len).chain
        &&& self.producer.view == ProducerView::initial(len)
        &&& self.producer.pc is Idle
        &&& self.producer.returned is None
        &&& self.consumer.view == ConsumerView::initial()
        &&& self.consumer.pc is Idle
        &&& self.consumer.returned is None
        &&& self.pushed == 0
        &&& self.numbers == Seq::new(len, |i: int| -1int)
        &&& self.held == -1
    }

    /// The world after an access of the producer. A message gets its number with the access
    /// that makes it visible.
    pub open spec fn producer_after(self, call: PushCall, access: CellAccess) -> World {
        let shows = self.producer.pc is FirstTail || self.producer.pc is Link;
        World {
            memory: self.memory.after(access),
            producer: self.producer.after(call, access),
            pushed: if shows {
                self.pushed + 1
            } else {
                self.pushed
            },
            numbers: if shows {
                self.numbers.update(self.producer.view.current as int, self.pushed)
            } else {
                self.numbers
            },
            ..self
        }
    }

    pub open spec fn producer_steps(
        self,
        call: PushCall,
        access: CellAccess,
        after: World,
    ) -> bool {
        &&& self.producer.issues(call, access)
        &&& self.memory.answers(access)
        &&& after == self.producer_after(call, access)
    }

    /// The world after an access of the consumer.
    pub open spec fn consumer_after(self, call: PopCall, access: CellAccess) -> World {
        let consumer = self.consumer.after(self.len(), call, access);
        let takes = consumer.pc is Idle && (consumer.returned == Some(PopResult::Success)
            || consumer.returned == Some(PopResult::SuccessMessagesDiscarded));
        World {
            memory: self.memory.after(access),
            consumer,
            held: if takes {
                self.numbers[consumer.view.current as int]
            } else {
                self.held
            },
            ..self
        }
    }

    pub open spec fn consumer_steps(self, call: PopCall, access: CellAccess, after: World) -> bool {
        &&& self.consumer.issues(access)
        &&& self.memory.answers(access)
        &&& after == self.consumer_after(call, access)
    }

    /// One access of either end.
    pub open spec fn steps_to(self, after: World) -> bool {
        ||| exists|call: PushCall, access: CellAccess|
            #[trigger] self.producer_steps(call, access, after)
        ||| exists|call: PopCall, access: CellAccess|
            #[trigger] self.consumer_steps(call, access, after)
    }
}

/// A word is what was last put there. A load leaves it and tells its value; a store puts its value
/// there; setting bits tells the old value and adds the bits; an exchange that goes through found
/// the expected value and leaves the new one, one that does not found another and leaves it. The
/// other words stay as they are.
pub proof fn law_accesses_change_their_word(memory: Memory, access: CellAccess, other: Cell)
    requires
        memory.answers(access),
        access.cell matches Cell::Link(slot) ==> 0 <= slot < memory.links.len(),
        other matches Cell::Link(slot) ==> 0 <= slot < memory.links.len(),
    ensures
        ({
            let before = memory.read(access.cell);
            let after = memory.after(access).read(access.cell);
            match access.op {
                Op::Load { value } => value == before && after == before,
                Op::Store { value } => after == value,
                Op::FetchOr { mask, previous } => previous == before && after == before | mask,
                Op::CompareExchange { expected, new, swapped } => if swapped {
                    before == expected && after == new
                } else {
                    before != expected && after == before
                },
            }
        }),
        other != access.cell ==> memory.after(access).read(other) == memory.read(other),
        memory.after(access).links.len() == memory.links.len(),
{
}

} // verus!
