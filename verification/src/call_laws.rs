//! The calls of both ends are runs of the threads that the queue laws speak of.
use crate::attr::QueueAttrView;
use crate::index::{
    is_slot, law_slots, law_tail_word, max_slots, slot_of, Index, CONSUMED_FLAG, FIRST_FLAG,
    INVALID_INDEX,
};
use crate::interleaving::{
    ConsumerPc, ConsumerThread, Memory, PopCall, ProducerPc, ProducerThread, PushCall, PushReturn,
};
use crate::queue::{init_accesses, ring_accesses};
use crate::queue_spec::{
    consumes_tail, loads, stores, swaps_tail, Cell, CellAccess, ConsumerView, FlushSeen,
    ForcePlan, ForcePushResult, PopPlan, PopResult, PopSeen, ProducerView, PushSeen, TryPlan,
    TryPushResult,
};
use vstd::prelude::*;

verus! {

/// One more access of a producer.
proof fn lemma_producer_run_push(
    thread: ProducerThread,
    call: PushCall,
    accesses: Seq<CellAccess>,
    access: CellAccess,
)
    ensures
        thread.run(call, accesses.push(access)) == match thread.run(call, accesses) {
            Some(t) => if t.issues(call, access) {
                Some(t.after(call, access))
            } else {
                None
            },
            None => None,
        },
{
    assert(accesses.push(access).drop_last() =~= accesses);
}

/// A push from the moment on when it reads the tail: `before` are its accesses up to then, and
/// `e` is the state with the message linked in.
proof fn lemma_settling_is_a_run(
    thread: ProducerThread,
    before: Seq<CellAccess>,
    observing: ProducerThread,
    next: Index,
    seen: PushSeen,
)
    requires
        thread.run(PushCall::Force, before) == Some(observing),
        observing.pc == (ProducerPc::Observe { next }),
        observing.call is Force,
    ensures
        ({
            let rest = observing.view.settled(next, seen);
            thread.run(
                PushCall::Force,
                before.push(loads(Cell::Tail, seen.tail)) + rest.accesses,
            ) == Some(
                ProducerThread {
                    view: rest.state,
                    pc: ProducerPc::Idle,
                    call: PushCall::Force,
                    returned: Some(PushReturn::Force(rest.result)),
                },
            )
        }),
{
    let call = PushCall::Force;
    let e = observing.view;
    let rest = e.settled(next, seen);
    let load = loads(Cell::Tail, seen.tail);
    let done = before.push(load);
    lemma_producer_run_push(thread, call, before, load);
    let moves = swaps_tail(seen.tail, e.chain[slot_of(seen.tail) as int], seen.swapped);
    let requeues = e.requeue_access(next);
    match e.plan_force(next, seen.tail) {
        ForcePlan::Fail | ForcePlan::Advance => {
            assert(done + rest.accesses =~= done);
        },
        ForcePlan::Requeue => {
            lemma_producer_run_push(thread, call, done, requeues);
            assert(done + rest.accesses =~= done.push(requeues));
        },
        ForcePlan::MoveTailAgain => {
            lemma_producer_run_push(thread, call, done, moves);
            if seen.swapped {
                assert(done + rest.accesses =~= done.push(moves));
            } else {
                lemma_producer_run_push(thread, call, done.push(moves), requeues);
                assert(done + rest.accesses =~= done.push(moves).push(requeues));
            }
        },
        ForcePlan::MoveTail => {
            lemma_producer_run_push(thread, call, done, moves);
            if seen.swapped {
                assert(done + rest.accesses =~= done.push(moves));
            } else {
                let jump = e.jumped(seen.tail | CONSUMED_FLAG, seen.swapped_again);
                if jump.accesses.len() == 0 {
                    assert(done + rest.accesses =~= done.push(moves));
                } else {
                    lemma_producer_run_push(thread, call, done.push(moves), jump.accesses[0]);
                    assert(done + rest.accesses =~= done.push(moves).push(jump.accesses[0]));
                }
            }
        },
        ForcePlan::Overrun => {
            let jump = e.jumped(seen.tail, seen.swapped);
            if jump.accesses.len() == 0 {
                assert(done + rest.accesses =~= done);
            } else {
                lemma_producer_run_push(thread, call, done, jump.accesses[0]);
                assert(done + rest.accesses =~= done.push(jump.accesses[0]));
            }
        },
    }
}

/// The accesses of a push that may discard, with what came back of them, are those that the
/// producer thread makes, and it ends with the same state and result.
pub proof fn law_force_push_is_a_run(thread: ProducerThread, seen: PushSeen)
    requires
        thread.pc is Idle,
        thread.view.current < thread.view.chain.len(),
    ensures
        ({
            let outcome = thread.view.force_push(seen);
            thread.run(PushCall::Force, outcome.accesses) == Some(
                ProducerThread {
                    view: outcome.state,
                    pc: ProducerPc::Idle,
                    call: PushCall::Force,
                    returned: Some(PushReturn::Force(outcome.result)),
                },
            )
        }),
{
    let call = PushCall::Force;
    let v = thread.view;
    let outcome = v.force_push(seen);
    let s0 = Seq::<CellAccess>::empty();
    let a1 = stores(Cell::Link(v.current as int), INVALID_INDEX);
    let s1 = s0.push(a1);
    let a3 = stores(Cell::Head, v.current);
    lemma_producer_run_push(thread, call, s0, a1);
    if v.head == INVALID_INDEX {
        let a2 = stores(Cell::Tail, v.current | FIRST_FLAG);
        lemma_producer_run_push(thread, call, s1, a2);
        lemma_producer_run_push(thread, call, s1.push(a2), a3);
        assert(outcome.accesses =~= s1.push(a2).push(a3));
    } else {
        let next = v.next();
        let a2 = stores(Cell::Link(v.head as int), v.current);
        lemma_producer_run_push(thread, call, s1, a2);
        lemma_producer_run_push(thread, call, s1.push(a2), a3);
        let observing = ProducerThread {
            view: v.enqueued(),
            pc: ProducerPc::Observe { next },
            call,
            ..thread
        };
        lemma_settling_is_a_run(thread, s1.push(a2).push(a3), observing, next, seen);
        assert(v.enqueue_accesses() =~= s1.push(a2).push(a3));
    }
}

/// The same of a push that never discards.
pub proof fn law_try_push_is_a_run(thread: ProducerThread, tail: Index)
    requires
        thread.pc is Idle,
        thread.view.current < thread.view.chain.len(),
    ensures
        ({
            let outcome = thread.view.try_push(tail);
            thread.run(PushCall::Try, outcome.accesses) == Some(
                ProducerThread {
                    view: outcome.state,
                    pc: ProducerPc::Idle,
                    call: PushCall::Try,
                    returned: Some(PushReturn::Try(outcome.result)),
                },
            )
        }),
{
    let call = PushCall::Try;
    let v = thread.view;
    let outcome = v.try_push(tail);
    let s0 = Seq::<CellAccess>::empty();
    let clear = stores(Cell::Link(v.current as int), INVALID_INDEX);
    let publish = stores(Cell::Head, v.current);
    if v.head == INVALID_INDEX {
        let a2 = stores(Cell::Tail, v.current | FIRST_FLAG);
        lemma_producer_run_push(thread, call, s0, clear);
        lemma_producer_run_push(thread, call, s0.push(clear), a2);
        lemma_producer_run_push(thread, call, s0.push(clear).push(a2), publish);
        assert(outcome.accesses =~= s0.push(clear).push(a2).push(publish));
    } else {
        let next = v.next();
        let a1 = loads(Cell::Tail, tail);
        let s1 = s0.push(a1);
        lemma_producer_run_push(thread, call, s0, a1);
        let link = stores(Cell::Link(v.head as int), v.current);
        let s4 = s1.push(clear).push(link).push(publish);
        match v.plan_try(tail) {
            TryPlan::Fail => {
                assert(outcome.accesses =~= s1);
            },
            TryPlan::Full => {
                assert(outcome.accesses =~= s1);
            },
            _ => {
                lemma_producer_run_push(thread, call, s1, clear);
                lemma_producer_run_push(thread, call, s1.push(clear), link);
                lemma_producer_run_push(thread, call, s1.push(clear).push(link), publish);
                if v.plan_try(tail) == TryPlan::Advance {
                    assert(outcome.accesses =~= s4);
                } else {
                    let requeues = v.enqueued().requeue_access(next);
                    lemma_producer_run_push(thread, call, s4, requeues);
                    assert(v.requeue_access(next) == requeues);
                    assert(outcome.accesses =~= s4.push(requeues));
                }
            },
        }
    }
}

/// The same of the query whether the queue is full, once there was a message.
pub proof fn law_full_is_a_run(thread: ProducerThread, tail: Index)
    requires
        thread.pc is Idle,
        thread.view.current < thread.view.chain.len(),
        thread.view.head != INVALID_INDEX,
    ensures
        ({
            let outcome = thread.view.full(tail);
            thread.run(PushCall::Full, outcome.accesses) == Some(
                ProducerThread {
                    view: outcome.state,
                    pc: ProducerPc::Idle,
                    call: PushCall::Full,
                    returned: Some(PushReturn::Full(outcome.result)),
                },
            )
        }),
{
    let s0 = Seq::<CellAccess>::empty();
    let a1 = loads(Cell::Tail, tail);
    lemma_producer_run_push(thread, PushCall::Full, s0, a1);
    assert(thread.view.full(tail).accesses =~= s0.push(a1));
}

/// One more access of a consumer.
proof fn lemma_consumer_run_push(
    thread: ConsumerThread,
    len: nat,
    call: PopCall,
    accesses: Seq<CellAccess>,
    access: CellAccess,
)
    ensures
        thread.run(len, call, accesses.push(access)) == match thread.run(len, call, accesses) {
            Some(t) => if t.issues(access) {
                Some(t.after(len, call, access))
            } else {
                None
            },
            None => None,
        },
{
    assert(accesses.push(access).drop_last() =~= accesses);
}

/// The accesses of a pop, with what came back of them, are those that the consumer thread makes,
/// and it ends with the same state and result.
pub proof fn law_pop_is_a_run(thread: ConsumerThread, len: nat, seen: PopSeen)
    requires
        thread.pc is Idle,
    ensures
        ({
            let outcome = thread.view.pop(len, seen);
            thread.run(len, PopCall::Pop, outcome.accesses) == Some(
                ConsumerThread {
                    view: outcome.state,
                    pc: ConsumerPc::Idle,
                    returned: Some(outcome.result),
                },
            )
        }),
{
    let call = PopCall::Pop;
    let v = thread.view;
    let outcome = v.pop(len, seen);
    let s0 = Seq::<CellAccess>::empty();
    let a1 = consumes_tail(seen.tail);
    let s1 = s0.push(a1);
    lemma_consumer_run_push(thread, len, call, s0, a1);
    if ConsumerView::plan_pop(len, seen.tail) == PopPlan::Follow {
        let a2 = loads(Cell::Link(v.current as int), seen.next);
        let a3 = swaps_tail(seen.tail, seen.next | CONSUMED_FLAG, seen.swapped);
        let a4 = consumes_tail(seen.tail_again);
        let s2 = s1.push(a2);
        lemma_consumer_run_push(thread, len, call, s1, a2);
        if seen.next == INVALID_INDEX || !is_slot(len, seen.next) {
            assert(outcome.accesses =~= s2);
        } else {
            lemma_consumer_run_push(thread, len, call, s2, a3);
            if seen.swapped {
                assert(outcome.accesses =~= s2.push(a3));
            } else {
                lemma_consumer_run_push(thread, len, call, s2.push(a3), a4);
                assert(outcome.accesses =~= s2.push(a3).push(a4));
            }
        }
    } else {
        assert(outcome.accesses =~= s1);
    }
}

/// The same of a flush, over any number of rounds.
pub proof fn law_flush_is_a_run(thread: ConsumerThread, len: nat, seen: Seq<FlushSeen>)
    requires
        thread.pc is Idle,
        seen.len() > 0,
    ensures
        ({
            let outcome = thread.view.flush(len, seen);
            thread.run(len, PopCall::Flush, outcome.accesses) == Some(
                ConsumerThread {
                    view: outcome.state,
                    pc: ConsumerPc::Idle,
                    returned: outcome.result,
                },
            )
        }),
    decreases seen.len(),
{
    let call = PopCall::Flush;
    let before = thread.view.flush(len, seen.drop_last());
    let outcome = thread.view.flush(len, seen);
    let last = seen.last();
    let s0 = before.accesses;
    if seen.len() > 1 {
        law_flush_is_a_run(thread, len, seen.drop_last());
    }
    if before.result is None {
        let round = before.state.flush_round(len, last);
        let a1 = consumes_tail(last.tail);
        let a2 = loads(Cell::Head, last.head);
        let a3 = loads(Cell::Link(slot_of(last.tail) as int), last.next);
        let a4 = loads(Cell::Head, last.head_again);
        let s1 = s0.push(a1);
        lemma_consumer_run_push(thread, len, call, s0, a1);
        if last.tail == INVALID_INDEX || !is_slot(len, slot_of(last.tail)) {
            assert(outcome.accesses =~= s1);
        } else {
            let looks = ConsumerView::flush_looks(len, last);
            lemma_consumer_run_push(thread, len, call, s1, a2);
            lemma_consumer_run_push(thread, len, call, s1.push(a2), a3);
            lemma_consumer_run_push(thread, len, call, s1.push(a2).push(a3), a4);
            assert(s1 + looks =~= if looks.len() == 1 {
                s1.push(a2)
            } else if looks.len() == 2 {
                s1.push(a2).push(a3)
            } else {
                s1.push(a2).push(a3).push(a4)
            });
            match ConsumerView::flush_target(len, last) {
                None => {
                    assert(outcome.accesses =~= s1 + looks);
                },
                Some(target) => {
                    let swap = swaps_tail(
                        last.tail | CONSUMED_FLAG,
                        ConsumerView::flush_word(last.tail, target),
                        last.swapped,
                    );
                    lemma_consumer_run_push(thread, len, call, s1 + looks, swap);
                    assert(outcome.accesses =~= (s1 + looks).push(swap));
                },
            }
        }
    }
}

/// What a pop or a flush reports tells whether there is a message: none after `NoMessage`, the old
/// one after `NoNewMessage`, and the new one after a success. An error leaves all as it was.
pub proof fn law_result_tells_message(v: ConsumerView, len: nat, pop: PopSeen, round: FlushSeen)
    ensures
        ({
            let outcome = v.pop(len, pop);
            match outcome.result {
                PopResult::QueueError => outcome.state == v,
                PopResult::NoMessage => !outcome.state.available,
                PopResult::NoNewMessage => outcome.state.available && outcome.state.current
                    == v.current,
                PopResult::Success | PopResult::SuccessMessagesDiscarded => {
                    outcome.state.available
                },
            }
        }),
        ({
            let outcome = v.flush_round(len, round);
            match outcome.result {
                Some(PopResult::QueueError) => outcome.state == v,
                Some(PopResult::Success) => outcome.state.available,
                Some(PopResult::NoNewMessage) => outcome.state == v && v.available,
                Some(PopResult::NoMessage) | None => !outcome.state.available,
                _ => false,
            }
        }),
{
}

/// Before the first push nothing is said to be full, and both kinds of push add the message
/// whatever the tail word holds.
pub proof fn law_first_push_always_succeeds(v: ProducerView, seen: PushSeen)
    requires
        v.head == INVALID_INDEX,
        v.current < v.chain.len(),
    ensures
        !v.full(seen.tail).result,
        v.force_push(seen).result == ForcePushResult::Success,
        v.try_push(seen.tail).result == TryPushResult::Success,
        v.force_push(seen).accesses == v.try_push(seen.tail).accesses,
        v.force_push(seen).state == v.try_push(seen.tail).state,
{
}

/// The query whether the queue is full foretells a push that must not discard: it reports a full
/// queue exactly if the query, seeing the same tail word, said so.
pub proof fn law_full_foretells_try_push(v: ProducerView, tail: Index)
    ensures
        v.full(tail).result <==> v.try_push(tail).result == TryPushResult::QueueFull,
        v.full(tail).state == v,
        v.try_push(tail).result != TryPushResult::Success ==> v.try_push(tail).state == v,
{
}

/// A push that must not discard never moves the tail once there has been a message: it only reads
/// the tail word.
pub proof fn law_try_push_leaves_tail(v: ProducerView, tail: Index, i: int)
    requires
        v.head != INVALID_INDEX,
        0 <= i < v.try_push(tail).accesses.len(),
        v.try_push(tail).accesses[i].cell is Tail,
    ensures
        v.try_push(tail).accesses[i] == loads(Cell::Tail, tail),
{
}

/// Storing the links one by one.
proof fn lemma_ring_stored(memory: Memory, len: nat, count: nat)
    requires
        memory.links.len() == len,
        len <= max_slots(),
        count <= len,
    ensures
        ({
            let ring = ProducerView::initial(len).chain;
            let after = memory.after_all(ring_accesses(len).take(count as int));
            &&& after.tail == memory.tail
            &&& after.head == memory.head
            &&& after.links.len() == len
            &&& forall|i: int| 0 <= i < count ==> after.links[i] == ring[i]
        }),
    decreases count,
{
    let all = ring_accesses(len);
    if count > 0 {
        lemma_ring_stored(memory, len, (count - 1) as nat);
        assert(all.take(count as int).drop_last() =~= all.take(count - 1));
        assert(all.take(count as int).last() == all[count - 1]);
        assert(((count - 1) as Index) as int == count - 1);
    }
}

/// A row of accesses in two parts.
proof fn lemma_after_all_splits(memory: Memory, first: Seq<CellAccess>, second: Seq<CellAccess>)
    ensures
        memory.after_all(first + second) == memory.after_all(first).after_all(second),
    decreases second.len(),
{
    if second.len() == 0 {
        assert(first + second =~= first);
    } else {
        lemma_after_all_splits(memory, first, second.drop_last());
        assert((first + second).drop_last() =~= first + second.drop_last());
    }
}

/// Setting up the producer and marking the queue as empty, in either order, leaves the memory as
/// an initial queue has it, whatever it held before.
pub proof fn law_setup(memory: Memory, len: nat)
    requires
        memory.links.len() == len,
        3 <= len <= max_slots(),
    ensures
        ({
            let initial = Memory {
                tail: INVALID_INDEX,
                head: INVALID_INDEX,
                links: ProducerView::initial(len).chain,
            };
            &&& memory.after_all(ring_accesses(len) + init_accesses()) == initial
            &&& memory.after_all(init_accesses() + ring_accesses(len)) == initial
        }),
{
    let ring = ring_accesses(len);
    let init = init_accesses();
    assert(ring.take(len as int) =~= ring);
    lemma_after_all_splits(memory, ring, init);
    lemma_after_all_splits(memory, init, ring);
    lemma_ring_stored(memory, len, len);
    assert forall|m: Memory| #[trigger]
        m.after_all(init) == (Memory { tail: INVALID_INDEX, head: INVALID_INDEX, ..m }) by {
        assert(init.drop_last() =~= seq![stores(Cell::Tail, INVALID_INDEX)]);
        assert(init.drop_last().drop_last() =~= Seq::<CellAccess>::empty());
        reveal_with_fuel(Memory::after_all, 3);
    }
    lemma_ring_stored(memory.after_all(init), len, len);
    assert(memory.after_all(ring).links =~= ProducerView::initial(len).chain);
    assert(memory.after_all(init).after_all(ring).links =~= ProducerView::initial(len).chain);
}

/// A queue as pushes leave it that must not discard, while nothing is popped, and what the last of
/// them reported.
pub struct Filling {
    pub memory: Memory,
    pub view: ProducerView,
    pub result: Option<TryPushResult>,
}

/// A fresh queue of `len` slots after `count` such pushes, each of which sees the tail that the
/// memory has.
pub open spec fn filled(len: nat, count: nat) -> Filling
    decreases count,
{
    if count == 0 {
        Filling {
            memory: Memory {
                tail: INVALID_INDEX,
                head: INVALID_INDEX,
                links: ProducerView::initial(len).chain,
            },
            view: ProducerView::initial(len),
            result: None,
        }
    } else {
        let before = filled(len, (count - 1) as nat);
        let outcome = before.view.try_push(before.memory.tail);
        Filling {
            memory: before.memory.after_all(outcome.accesses),
            view: outcome.state,
            result: Some(outcome.result),
        }
    }
}

/// The tail word after a push onto a queue that has had a message.
proof fn lemma_try_push_keeps_tail(memory: Memory, v: ProducerView, count: nat)
    requires
        v.head != INVALID_INDEX,
        count <= v.try_push(memory.tail).accesses.len(),
    ensures
        memory.after_all(v.try_push(memory.tail).accesses.take(count as int)).tail == memory.tail,
    decreases count,
{
    let accesses = v.try_push(memory.tail).accesses;
    if count > 0 {
        let last = accesses[count - 1];
        lemma_try_push_keeps_tail(memory, v, (count - 1) as nat);
        assert(accesses.take(count as int).drop_last() =~= accesses.take(count - 1));
        assert(accesses.take(count as int).last() == last);
        if last.cell is Tail && v.current < v.chain.len() {
            law_try_push_leaves_tail(v, memory.tail, count - 1);
        }
    }
}

/// The tail word after the first push.
proof fn lemma_first_push_stores_tail(memory: Memory, v: ProducerView)
    requires
        v.head == INVALID_INDEX,
        v.current < v.chain.len(),
    ensures
        memory.after_all(v.try_push(memory.tail).accesses).tail == v.current | FIRST_FLAG,
{
    let accesses = v.try_push(memory.tail).accesses;
    assert(accesses == v.first_accesses());
    assert(accesses.drop_last() =~= seq![accesses[0], accesses[1]]);
    assert(accesses.drop_last().drop_last() =~= seq![accesses[0]]);
    reveal_with_fuel(Memory::after_all, 4);
}

/// A queue that is being filled: the messages are in the first slots, one behind the other.
proof fn lemma_filled(len: nat, count: nat)
    requires
        3 <= len < INVALID_INDEX,
        1 <= count < len,
    ensures
        ({
            let f = filled(len, count);
            &&& f.result == Some(TryPushResult::Success)
            &&& f.memory.tail == FIRST_FLAG
            &&& f.view.head == count - 1
            &&& f.view.current == count
            &&& f.view.overrun == INVALID_INDEX
            &&& f.view.chain.len() == len
            &&& forall|i: int| count <= i < len ==> f.view.chain[i] == ProducerView::initial(
                len,
            ).chain[i]
        }),
    decreases count,
{
    let before = filled(len, (count - 1) as nat);
    let accesses = before.view.try_push(before.memory.tail).accesses;
    assert(0u32 | 0x4000_0000u32 == 0x4000_0000u32 && 0x4000_0000u32 & 0x3fff_ffff == 0u32)
        by (bit_vector);
    if count == 1 {
        lemma_first_push_stores_tail(before.memory, before.view);
    } else {
        lemma_filled(len, (count - 1) as nat);
        lemma_try_push_keeps_tail(before.memory, before.view, accesses.len());
        assert(accesses.take(accesses.len() as int) =~= accesses);
    }
}

/// All pushes after the queue is full.
proof fn lemma_filled_up(len: nat, count: nat)
    requires
        3 <= len < INVALID_INDEX,
        len <= count,
    ensures
        filled(len, count).result == Some(TryPushResult::QueueFull),
        filled(len, count).view == filled(len, (len - 1) as nat).view,
        filled(len, count).memory.tail == FIRST_FLAG,
    decreases count,
{
    let before = filled(len, (count - 1) as nat);
    let accesses = before.view.try_push(before.memory.tail).accesses;
    lemma_filled(len, (len - 1) as nat);
    if count > len {
        lemma_filled_up(len, (count - 1) as nat);
    }
    assert(0x4000_0000u32 & 0x3fff_ffff == 0u32) by (bit_vector);
    lemma_try_push_keeps_tail(before.memory, before.view, accesses.len());
    assert(accesses.take(accesses.len() as int) =~= accesses);
}

/// One slot always stays with the producer: while nothing is popped, two pushes more than there
/// are additional messages succeed on a fresh queue, and every later one finds it full.
pub proof fn law_fresh_queue_takes_all_but_one(attr: QueueAttrView, count: nat)
    requires
        attr.slots() < INVALID_INDEX,
        1 <= count,
    ensures
        filled(attr.slots(), count).result == Some(
            if count <= attr.additional_messages + 2 {
                TryPushResult::Success
            } else {
                TryPushResult::QueueFull
            },
        ),
{
    if count < attr.slots() {
        lemma_filled(attr.slots(), count);
    } else {
        lemma_filled_up(attr.slots(), count);
    }
}

/// Every access of a row came back with what the memory held, so that no one else has changed it
/// in between.
pub open spec fn answered(memory: Memory, accesses: Seq<CellAccess>) -> bool
    decreases accesses.len(),
{
    accesses.len() == 0 || (answered(memory, accesses.drop_last()) && memory.after_all(
        accesses.drop_last(),
    ).answers(accesses.last()))
}

/// One access more.
proof fn lemma_answered_push(memory: Memory, accesses: Seq<CellAccess>, access: CellAccess)
    ensures
        memory.after_all(accesses.push(access)) == memory.after_all(accesses).after(access),
        answered(memory, accesses.push(access)) <==> answered(memory, accesses)
            && memory.after_all(accesses).answers(access),
{
    assert(accesses.push(access).drop_last() =~= accesses);
}

/// The first accesses of a row that was answered.
proof fn lemma_answered_first(memory: Memory, accesses: Seq<CellAccess>, count: int)
    requires
        answered(memory, accesses),
        0 <= count <= accesses.len(),
    ensures
        answered(memory, accesses.take(count)),
    decreases accesses.len(),
{
    if count == accesses.len() {
        assert(accesses.take(count) =~= accesses);
    } else {
        lemma_answered_first(memory, accesses.drop_last(), count);
        assert(accesses.drop_last().take(count) =~= accesses.take(count));
    }
}

/// The memory after a message was linked in.
spec fn with_message(memory: Memory, v: ProducerView) -> Memory {
    Memory {
        links: memory.links.update(v.current as int, INVALID_INDEX).update(
            v.head as int,
            v.current,
        ),
        head: v.current,
        ..memory
    }
}

/// Linking a message in, behind other accesses.
proof fn lemma_enqueues(memory: Memory, v: ProducerView, before: Seq<CellAccess>)
    ensures
        memory.after_all(before + v.enqueue_accesses()) == with_message(
            memory.after_all(before),
            v,
        ),
{
    let a = v.enqueue_accesses();
    lemma_answered_push(memory, before, a[0]);
    lemma_answered_push(memory, before.push(a[0]), a[1]);
    lemma_answered_push(memory, before.push(a[0]).push(a[1]), a[2]);
    assert(before + a =~= before.push(a[0]).push(a[1]).push(a[2]));
}

/// What an undisturbed push that may discard sees: the tail that the memory has, and its first
/// exchange of it goes through.
proof fn lemma_undisturbed_force_push(memory: Memory, v: ProducerView, seen: PushSeen)
    requires
        v.current < v.chain.len(),
        v.head != INVALID_INDEX,
        answered(memory, v.force_push(seen).accesses),
    ensures
        seen.tail == memory.tail,
        ({
            let rest = v.enqueued().settled(v.next(), seen).accesses;
            rest.len() > 0 && rest[0].cell is Tail ==> seen.swapped
        }),
        ({
            let rest = v.enqueued().settled(v.next(), seen).accesses;
            rest == seq![v.enqueued().requeue_access(v.next())] ==> memory.after_all(
                v.force_push(seen).accesses,
            ) == with_message(memory, v).after(rest[0])
        }),
        v.enqueued().settled(v.next(), seen).accesses.len() == 0 ==> memory.after_all(
            v.force_push(seen).accesses,
        ) == with_message(memory, v),
{
    let accesses = v.force_push(seen).accesses;
    let rest = v.enqueued().settled(v.next(), seen).accesses;
    let load = loads(Cell::Tail, seen.tail);
    let none = Seq::<CellAccess>::empty();
    let linked = v.enqueue_accesses();
    assert(none + linked =~= linked);
    lemma_enqueues(memory, v, none);
    lemma_answered_first(memory, accesses, 4);
    assert(accesses.take(4) =~= linked.push(load));
    lemma_answered_push(memory, linked, load);
    if rest.len() > 0 {
        lemma_answered_first(memory, accesses, 5);
        assert(accesses.take(5) =~= linked.push(load).push(rest[0]));
        lemma_answered_push(memory, linked.push(load), rest[0]);
        if rest.len() == 1 {
            assert(accesses =~= linked.push(load).push(rest[0]));
        }
    } else {
        assert(accesses =~= linked.push(load));
    }
}

/// A push that may discard, if nothing disturbs it, discards a message exactly where one that must
/// not discard would find the queue full. Where it would not, both leave the same state and the
/// same memory.
pub proof fn law_force_push_discards_where_try_push_is_full(
    memory: Memory,
    v: ProducerView,
    seen: PushSeen,
    tail: Index,
)
    requires
        v.current < v.chain.len(),
        v.head == INVALID_INDEX || v.head < v.chain.len(),
        answered(memory, v.force_push(seen).accesses),
        answered(memory, v.try_push(tail).accesses),
        v.force_push(seen).result != ForcePushResult::QueueError,
    ensures
        v.force_push(seen).result == ForcePushResult::SuccessMessageDiscarded <==> v.try_push(
            tail,
        ).result == TryPushResult::QueueFull,
        v.force_push(seen).result == ForcePushResult::Success <==> v.try_push(tail).result
            == TryPushResult::Success,
        v.try_push(tail).result == TryPushResult::Success ==> {
            &&& v.force_push(seen).state == v.try_push(tail).state
            &&& memory.after_all(v.force_push(seen).accesses) == memory.after_all(
                v.try_push(tail).accesses,
            )
        },
{
    if v.head == INVALID_INDEX {
        law_first_push_always_succeeds(v, seen);
    } else {
        let tries = v.try_push(tail).accesses;
        let none = Seq::<CellAccess>::empty();
        let load = loads(Cell::Tail, tail);
        let first = none.push(load);
        lemma_undisturbed_force_push(memory, v, seen);
        lemma_answered_first(memory, tries, 1);
        assert(tries.take(1) =~= first);
        lemma_answered_push(memory, none, load);
        lemma_enqueues(memory, v, first);
        let linked = first + v.enqueue_accesses();
        match v.plan_try(tail) {
            TryPlan::Advance => {
                assert(tries =~= linked);
            },
            TryPlan::Requeue => {
                let requeue = v.requeue_access(v.next());
                assert(requeue == v.enqueued().requeue_access(v.next()));
                assert(tries =~= linked.push(requeue));
                lemma_answered_push(memory, linked, requeue);
            },
            _ => {},
        }
    }
}

/// A producer that reads a tail word which names no slot of the queue says so, and a push that
/// must not discard then leaves all as it was. It fails for no other reason.
pub proof fn law_producer_reports_a_damaged_tail(v: ProducerView, seen: PushSeen)
    requires
        v.chain.len() <= u32::MAX,
        v.current < v.chain.len(),
        v.head < v.chain.len(),
    ensures
        ({
            let damaged = seen.tail as int % 0x4000_0000 >= v.chain.len();
            let pushed = v.try_push(seen.tail);
            &&& pushed.result == TryPushResult::QueueError <==> damaged
            &&& damaged ==> pushed.state == v && pushed.accesses == seq![
                loads(Cell::Tail, seen.tail),
            ]
            &&& damaged ==> v.force_push(seen).result == ForcePushResult::QueueError
            &&& damaged ==> v.force_push(seen).accesses.len() == 4
            &&& damaged ==> !v.full(seen.tail).result
        }),
{
    law_tail_word(seen.tail);
    law_slots(v.chain.len(), slot_of(seen.tail));
    assert(v.enqueued().chain.len() == v.chain.len());
}

/// A producer that has no slot to fill reports an error and touches nothing.
pub proof fn law_producer_without_slot_fails(v: ProducerView, seen: PushSeen)
    requires
        v.current >= v.chain.len(),
    ensures
        v.force_push(seen).result == ForcePushResult::QueueError,
        v.force_push(seen).state == v,
        v.force_push(seen).accesses.len() == 0,
        v.try_push(seen.tail).result == TryPushResult::QueueError,
        v.try_push(seen.tail).state == v,
        v.try_push(seen.tail).accesses.len() == 0,
        !v.full(seen.tail).result,
        v.full(seen.tail).accesses.len() == 0,
{
}

/// A pop reports that there is no message exactly if the tail word says so, and an error exactly
/// if a word that it goes by names no slot of the queue. It takes the message under a tail that is
/// not marked as consumed. Behind a marked tail it stays if its message has no successor; it takes
/// the successor if the tail was still there, or else the message under the new tail.
pub proof fn law_pop_goes_by_what_it_sees(v: ConsumerView, len: nat, seen: PopSeen)
    requires
        len <= u32::MAX,
    ensures
        ({
            let popped = v.pop(len, seen);
            let slot = seen.tail as int % 0x4000_0000;
            let marked = seen.tail >= 0x8000_0000;
            let first = seen.tail as int / 0x4000_0000 % 2 == 1;
            if seen.tail == u32::MAX {
                popped.result == PopResult::NoMessage
            } else if slot >= len {
                popped.result == PopResult::QueueError
            } else if !marked {
                &&& popped.result == if first {
                    PopResult::Success
                } else {
                    PopResult::SuccessMessagesDiscarded
                }
                &&& popped.state.current == slot
            } else if seen.next == u32::MAX {
                popped.result == PopResult::NoNewMessage
            } else if seen.next >= len || (!seen.swapped && seen.tail_again >= len) {
                popped.result == PopResult::QueueError
            } else if seen.swapped {
                popped.result == PopResult::Success && popped.state.current == seen.next
            } else {
                &&& popped.result == PopResult::SuccessMessagesDiscarded
                &&& popped.state.current == seen.tail_again
            }
        }),
{
    law_tail_word(seen.tail);
    law_slots(len, slot_of(seen.tail));
    law_slots(len, seen.next);
    law_slots(len, seen.tail_again);
}

/// A round of a flush reports that there is no message exactly if the tail word says so, and an
/// error exactly if a word that it goes by names no slot of the queue. If the tail is still there
/// at its end it takes the message under the tail, if that is the head or has no successor, and
/// otherwise the head.
pub proof fn law_flush_goes_by_what_it_sees(v: ConsumerView, len: nat, seen: FlushSeen)
    requires
        len <= u32::MAX,
    ensures
        ({
            let flushed = v.flush_round(len, seen);
            let slot = seen.tail as int % 0x4000_0000;
            let stays = seen.head == slot || seen.next == u32::MAX;
            let error = Some(PopResult::QueueError);
            if seen.tail == u32::MAX {
                flushed.result == Some(PopResult::NoMessage)
            } else if slot >= len || (seen.head >= len && seen.head != u32::MAX) {
                flushed.result == error
            } else if !stays && seen.head_again >= len {
                flushed.result == error
            } else if !seen.swapped {
                flushed.result is None
            } else {
                &&& flushed.result == Some(PopResult::Success) || flushed.result == Some(
                    PopResult::NoNewMessage,
                )
                &&& flushed.state.current == if stays {
                    slot
                } else {
                    seen.head_again as int
                }
                &&& flushed.result == Some(PopResult::NoNewMessage) <==> {
                    &&& v.available
                    &&& seen.tail >= 0x8000_0000
                    &&& v.current == slot == flushed.state.current
                }
            }
        }),
{
    law_tail_word(seen.tail);
    law_slots(len, slot_of(seen.tail));
    law_slots(len, seen.head);
    law_slots(len, seen.head_again);
}

} // verus!
