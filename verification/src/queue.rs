//! A queue of messages in shared memory, with one producer and one consumer.
use crate::attr::{lemma_sizes, QueueAttr, QueueAttrView};
use crate::error::ShmMapError;
use crate::host::{Host, HostView, NonZeroSize};
use crate::index::{
    is_slot, slot_of, Index, CONSUMED_FLAG, FIRST_FLAG, INDEX_MASK, INDEX_SIZE,
    INVALID_INDEX, MIN_MSGS,
};
use crate::memory::{performed, Access, Op, SharedWords};
use crate::queue_spec::{
    loads, stores, swaps_tail, Cell, CellAccess, ConsumerView, FlushSeen,
    ForcePlan, ForcePushResult, Outcome, PopPlan, PopResult, PopSeen, ProducerView, PushSeen,
    TryPlan, TryPushResult,
};
use crate::shm::{Chunk, ChunkView, Span};
use std::sync::atomic::AtomicU32;
use vstd::prelude::*;

verus! {

/// Which word of a queue is at a position of shared memory, for a tail at `tail`.
pub open spec fn cell_at(tail: int, at: int) -> Cell {
    if at == tail {
        Cell::Tail
    } else if at == tail + 1 {
        Cell::Head
    } else {
        Cell::Link(at - tail - 2)
    }
}

/// The operations on words as operations on a queue.
pub open spec fn cell_accesses(history: Seq<Access>, tail: int) -> Seq<CellAccess> {
    history.map_values(|a: Access| CellAccess { cell: cell_at(tail, a.at as int), op: a.op })
}

proof fn lemma_cell_accesses_push(history: Seq<Access>, access: Access, tail: int)
    ensures
        cell_accesses(history.push(access), tail) == cell_accesses(history, tail).push(
            CellAccess { cell: cell_at(tail, access.at as int), op: access.op },
        ),
{
    assert(cell_accesses(history.push(access), tail) =~= cell_accesses(history, tail).push(
        CellAccess { cell: cell_at(tail, access.at as int), op: access.op },
    ));
}

/// Where a queue lies in shared memory: the byte offset at which it starts, the position of its
/// tail word, and the byte offset of its first message slot with the distance from one slot to the
/// next.
pub struct QueueShape {
    pub slots: nat,
    pub message_size: nat,
    pub offset: nat,
    pub tail: nat,
    pub data: nat,
    pub stride: nat,
}

impl QueueShape {
    /// Whether the queue starts on a word. Only then are its words its own, and only then may they
    /// be accessed.
    pub open spec fn on_word(self) -> bool {
        self.offset % INDEX_SIZE as nat == 0
    }

    /// The position of a word of the queue among the words of shared memory.
    pub open spec fn position(self, cell: Cell) -> int {
        match cell {
            Cell::Tail => self.tail as int,
            Cell::Head => self.tail as int + 1,
            Cell::Link(slot) => self.tail + 2 + slot,
        }
    }

    /// The byte offset of a message slot in shared memory.
    pub open spec fn message(self, slot: int) -> int {
        self.data + slot * self.stride
    }
}

/// The shared words of a queue and the places of its messages.
struct Queue<'a> {
    words: SharedWords<'a>,
    message_size: NonZeroSize,
    offset: Ghost<nat>,
    head: usize,
    tail: usize,
    chain: Vec<usize>,
    messages: Vec<usize>,
}

/// The shape of a queue of these attributes that starts at a byte offset of shared memory.
pub open spec fn shape_at(offset: nat, attr: QueueAttrView, host: HostView) -> QueueShape {
    QueueShape {
        slots: attr.slots(),
        message_size: attr.message_size,
        offset,
        tail: offset / INDEX_SIZE as nat,
        data: offset + attr.queue_size(host),
        stride: attr.stride(host),
    }
}

/// Why a chunk cannot hold a queue of these attributes, if it cannot.
pub open spec fn misfit(chunk: ChunkView, attr: QueueAttrView, host: HostView) -> Option<
    ShmMapError,
> {
    if chunk.size < attr.shm_size(host) {
        Some(ShmMapError::OutOfBounds)
    } else {
        None
    }
}

impl<'a> Queue<'a> {
    spec fn memory(&self) -> Seq<AtomicU32> {
        self.words.words()
    }

    spec fn shape(&self) -> QueueShape {
        QueueShape {
            slots: self.chain@.len(),
            message_size: self.message_size@ as nat,
            offset: self.offset@,
            tail: self.tail as nat,
            data: self.messages@[0] as nat,
            stride: (self.messages@[1] - self.messages@[0]) as nat,
        }
    }

    spec fn wf(&self) -> bool {
        &&& self.chain@.len() >= MIN_MSGS
        &&& self.messages@.len() == self.chain@.len()
        &&& self.tail < self.memory().len()
        &&& self.head == self.tail + 1
        &&& self.head < self.memory().len()
        &&& forall|i: int|
            #![trigger self.chain@[i]]
            0 <= i < self.chain@.len() ==> self.chain@[i] == self.tail + 2 + i && self.chain@[i]
                < self.memory().len()
        &&& self.words.is_faithful()
        &&& self.messages@[0] <= self.messages@[1]
        &&& forall|i: int|
            #![trigger self.messages@[i]]
            0 <= i < self.messages@.len() ==> self.messages@[i] == self.shape().message(i)
    }

    spec fn accesses(&self) -> Seq<CellAccess> {
        cell_accesses(self.words.history(), self.tail as int)
    }

    /// The queue after one access more.
    spec fn accessed(&self, before: &Queue<'a>, cell: Cell, op: Op) -> bool {
        &&& self.wf()
        &&& self.shape() == before.shape()
        &&& self.memory() == before.memory()
        &&& self.messages == before.messages
        &&& self.accesses() == before.accesses().push(CellAccess { cell, op })
    }

    fn new(chunk: Chunk<'a>, attr: &QueueAttr, host: &Host) -> (queue: Result<
        Queue<'a>,
        ShmMapError,
    >)
        requires
            attr@.shm_size(host@) <= usize::MAX,
        ensures
            match queue {
                Ok(q) => {
                    &&& misfit(chunk@, attr@, host@) is None
                    &&& q.wf()
                    &&& q.shape() == shape_at(chunk@.offset, attr@, host@)
                    &&& q.memory() == chunk@.words
                    &&& q.accesses() == Seq::<CellAccess>::empty()
                },
                Err(e) => misfit(chunk@, attr@, host@) == Some(e),
            },
    {
        let cacheline_size: u16 = host.cacheline_size();
        proof {
            lemma_sizes(attr@, host@);
        }
        let queue_len: usize = attr.additional_messages + MIN_MSGS;
        let message_size: usize = attr.message_size.get();
        let stride: usize = host.cacheline_aligned(message_size);
        let message_size_aligned: NonZeroSize = NonZeroSize::new(stride).unwrap();
        let data: usize = attr.queue_size(host);

        let tail: usize = match chunk.get_word(0) {
            Ok(at) => at,
            Err(e) => return Err(e),
        };
        let head: usize = match chunk.get_word(INDEX_SIZE) {
            Ok(at) => at,
            Err(e) => return Err(e),
        };
        let mut chain: Vec<usize> = Vec::new();
        let mut messages: Vec<usize> = Vec::new();
        let mut offset: usize = data;
        let mut i: usize = 0;
        while i < queue_len
            invariant
                i <= queue_len,
                queue_len == attr@.slots(),
                stride == attr@.stride(host@),
                data == attr@.queue_size(host@),
                message_size_aligned@ == stride,
                attr@.shm_size(host@) <= usize::MAX,
                (2 + attr@.slots()) * INDEX_SIZE <= data,
                chunk@.size >= 2 * INDEX_SIZE,
                chunk@.offset / INDEX_SIZE as nat == tail,
                offset == data + i * stride,
                i > 0 ==> offset <= chunk@.size,
                chain@.len() == i,
                messages@.len() == i,
                forall|k: int|
                    #![trigger chain@[k]]
                    0 <= k < i ==> chain@[k] == tail + 2 + k && chain@[k] < chunk@.words.len(),
                forall|k: int|
                    #![trigger messages@[k]]
                    0 <= k < i ==> messages@[k] == chunk@.offset + data + k * stride,
            decreases queue_len - i,
        {
            proof {
                assert(data + (i + 1) * stride == data + i * stride + stride) by (nonlinear_arith);
                assert((i + 1) * stride <= queue_len * stride) by (nonlinear_arith)
                    requires
                        i + 1 <= queue_len,
                ;
            }
            let index: usize = match chunk.get_word((2 + i) * INDEX_SIZE) {
                Ok(at) => at,
                Err(e) => return Err(e),
            };
            let span: Span = Span { offset, size: message_size_aligned };
            let message: usize = match chunk.get_span(&span) {
                Ok(place) => place,
                Err(e) => return Err(e),
            };
            chain.push(index);
            messages.push(message);
            offset = offset + stride;
            i = i + 1;
        }
        let queue = Queue {
            words: SharedWords::over(chunk.words()),
            message_size: attr.message_size,
            offset: Ghost(chunk@.offset),
            head,
            tail,
            chain,
            messages,
        };
        proof {
            assert(queue.messages@[1] == chunk@.offset + data + 1 * stride);
            assert(queue.messages@[0] == chunk@.offset + data + 0 * stride);
            assert(0 * stride == 0 && 1 * stride == stride);
            assert(queue.accesses() =~= Seq::<CellAccess>::empty());
        }
        Ok(queue)
    }
}

impl<'a> Queue<'a> {
    fn len(&self) -> (slots: usize)
        ensures
            slots == self.shape().slots,
    {
        self.chain.len()
    }

    fn is_valid_index(&self, idx: Index) -> (valid: bool)
        ensures
            valid == is_slot(self.shape().slots, idx),
    {
        idx < self.len() as u32
    }

    /// Every access was made, on the word of its cell.
    proof fn lemma_performed(&self, i: int)
        requires
            self.wf(),
            0 <= i < self.accesses().len(),
        ensures
            0 <= self.shape().position(self.accesses()[i].cell) < self.memory().len(),
            performed(
                self.memory()[self.shape().position(self.accesses()[i].cell)],
                self.accesses()[i].op,
            ),
    {
        let access = self.words.history()[i];
        assert(self.shape().position(cell_at(self.tail as int, access.at as int)) == access.at);
    }

    /// The operation just made on the word at `at`.
    proof fn lemma_accessed(&self, history: Seq<Access>, access: Access)
        requires
            self.words.history() == history.push(access),
        ensures
            self.accesses() == cell_accesses(history, self.tail as int).push(
                CellAccess { cell: cell_at(self.tail as int, access.at as int), op: access.op },
            ),
    {
        lemma_cell_accesses_push(history, access, self.tail as int);
    }

    fn tail_load(&mut self) -> (value: Index)
        requires
            old(self).wf(),
        ensures
            final(self).accessed(old(self), Cell::Tail, (Op::Load { value })),
    {
        let ghost history = self.words.history();
        let at: usize = self.tail;
        let value: Index = self.words.load(at);
        proof {
            self.lemma_accessed(history, Access { at, op: Op::Load { value } });
        }
        value
    }

    fn tail_store(&mut self, value: Index)
        requires
            old(self).wf(),
        ensures
            final(self).accessed(old(self), Cell::Tail, (Op::Store { value })),
    {
        let ghost history = self.words.history();
        let at: usize = self.tail;
        self.words.store(at, value);
        proof {
            self.lemma_accessed(history, Access { at, op: Op::Store { value } });
        }
    }

    fn tail_fetch_or(&mut self, mask: Index) -> (previous: Index)
        requires
            old(self).wf(),
        ensures
            final(self).accessed(old(self), Cell::Tail, (Op::FetchOr { mask, previous })),
    {
        let ghost history = self.words.history();
        let at: usize = self.tail;
        let previous: Index = self.words.fetch_or(at, mask);
        proof {
            self.lemma_accessed(history, Access { at, op: Op::FetchOr { mask, previous } });
        }
        previous
    }

    fn tail_compare_exchange(&mut self, expected: Index, new: Index) -> (swapped: bool)
        requires
            old(self).wf(),
        ensures
            final(self).accessed(
                old(self),
                Cell::Tail,
                (Op::CompareExchange { expected, new, swapped }),
            ),
    {
        let ghost history = self.words.history();
        let at: usize = self.tail;
        let swapped: bool = self.words.compare_exchange(at, expected, new);
        proof {
            let op = Op::CompareExchange { expected, new, swapped };
            self.lemma_accessed(history, Access { at, op });
        }
        swapped
    }

    fn head_load(&mut self) -> (value: Index)
        requires
            old(self).wf(),
        ensures
            final(self).accessed(old(self), Cell::Head, (Op::Load { value })),
    {
        let ghost history = self.words.history();
        let at: usize = self.head;
        let value: Index = self.words.load(at);
        proof {
            self.lemma_accessed(history, Access { at, op: Op::Load { value } });
        }
        value
    }

    fn head_store(&mut self, value: Index)
        requires
            old(self).wf(),
        ensures
            final(self).accessed(old(self), Cell::Head, (Op::Store { value })),
    {
        let ghost history = self.words.history();
        let at: usize = self.head;
        self.words.store(at, value);
        proof {
            self.lemma_accessed(history, Access { at, op: Op::Store { value } });
        }
    }

    fn chain_load(&mut self, idx: Index) -> (value: Index)
        requires
            old(self).wf(),
            idx < old(self).shape().slots,
        ensures
            final(self).accessed(old(self), Cell::Link(idx as int), (Op::Load { value })),
    {
        let ghost history = self.words.history();
        let at: usize = self.chain[idx as usize];
        let value: Index = self.words.load(at);
        proof {
            self.lemma_accessed(history, Access { at, op: Op::Load { value } });
        }
        value
    }

    fn queue_store(&mut self, idx: Index, value: Index)
        requires
            old(self).wf(),
            idx < old(self).shape().slots,
        ensures
            final(self).accessed(old(self), Cell::Link(idx as int), (Op::Store { value })),
    {
        let ghost history = self.words.history();
        let at: usize = self.chain[idx as usize];
        self.words.store(at, value);
        proof {
            self.lemma_accessed(history, Access { at, op: Op::Store { value } });
        }
    }

    /// Marks the queue as one without messages.
    fn init_shm(&mut self)
        requires
            old(self).wf(),
        ensures
            final(self).wf(),
            final(self).shape() == old(self).shape(),
            final(self).memory() == old(self).memory(),
            final(self).accesses() == old(self).accesses() + init_accesses(),
    {
        self.tail_store(INVALID_INDEX);
        self.head_store(INVALID_INDEX);
        assert(self.accesses() =~= old(self).accesses() + init_accesses());
    }

    /// The byte offset of the message in a slot.
    fn message(&self, slot: Index) -> (offset: Option<usize>)
        requires
            self.wf(),
        ensures
            offset is Some <==> slot < self.shape().slots,
            offset matches Some(o) ==> o == self.shape().message(slot as int),
    {
        if (slot as usize) < self.messages.len() {
            Some(self.messages[slot as usize])
        } else {
            None
        }
    }
}

/// What marking a queue as one without messages does to its words.
pub open spec fn init_accesses() -> Seq<CellAccess> {
    seq![stores(Cell::Tail, INVALID_INDEX), stores(Cell::Head, INVALID_INDEX)]
}

/// The end of a queue that adds messages.
pub struct ProducerQueue<'a> {
    queue: Queue<'a>,
    /// A copy of the links: those in shared memory are only written here, never read.
    chain: Vec<Index>,
    /// The newest message; its link is always "no slot".
    head: Index,
    /// The slot that the producer fills; it becomes the head.
    current: Index,
    /// The slot that the consumer kept when the tail moved past it; it becomes current again
    /// once the consumer lets go of it.
    overrun: Index,
}

/// What setting up a producer does to the words of a queue of `len` slots: all links are stored.
pub open spec fn ring_accesses(len: nat) -> Seq<CellAccess> {
    Seq::new(
        len,
        |i: int|
            stores(Cell::Link((i as Index) as int), ProducerView::initial(len).chain[i]),
    )
}

impl<'a> View for ProducerQueue<'a> {
    type V = ProducerView;

    closed spec fn view(&self) -> ProducerView {
        ProducerView {
            chain: self.chain@,
            head: self.head,
            current: self.current,
            overrun: self.overrun,
        }
    }
}

impl<'a> ProducerQueue<'a> {
    pub closed spec fn wf(&self) -> bool {
        &&& self.queue.wf()
        &&& self.chain@.len() == self.queue.shape().slots
        &&& self.head == INVALID_INDEX || self.head < self.chain@.len()
        &&& self.overrun == INVALID_INDEX || self.overrun < self.chain@.len()
    }

    /// The words of the shared memory that the queue is in.
    pub closed spec fn memory(&self) -> Seq<AtomicU32> {
        self.queue.memory()
    }

    /// Where the queue lies in shared memory.
    pub closed spec fn shape(&self) -> QueueShape {
        self.queue.shape()
    }

    /// The accesses to the words of the queue so far.
    pub closed spec fn accesses(&self) -> Seq<CellAccess> {
        self.queue.accesses()
    }

    /// Every access that the producer has made so far is a call on the word of its cell, with the
    /// values that the access names.
    pub proof fn law_accesses_were_made(&self, i: int)
        requires
            self.wf(),
            0 <= i < self.accesses().len(),
        ensures
            0 <= self.shape().position(self.accesses()[i].cell) < self.memory().len(),
            performed(
                self.memory()[self.shape().position(self.accesses()[i].cell)],
                self.accesses()[i].op,
            ),
    {
        self.queue.lemma_performed(i);
    }

    /// A call made `before` this ended so.
    pub open spec fn ended<R>(
        &self,
        before: &ProducerQueue<'a>,
        outcome: Outcome<ProducerView, R>,
        result: R,
    ) -> bool {
        &&& self.wf()
        &&& self.shape() == before.shape()
        &&& self.memory() == before.memory()
        &&& self@ == outcome.state
        &&& result == outcome.result
        &&& self.accesses() == before.accesses() + outcome.accesses
    }

    /// A producer for the queue in a chunk, which is to start on a word. It links the slots to a
    /// ring.
    pub fn new(chunk: Chunk<'a>, attr: &QueueAttr, host: &Host) -> (producer: Result<
        ProducerQueue<'a>,
        ShmMapError,
    >)
        requires
            attr@.shm_size(host@) <= usize::MAX,
            misfit(chunk@, attr@, host@) is None ==> shape_at(
                chunk@.offset,
                attr@,
                host@,
            ).on_word(),
        ensures
            match producer {
                Ok(p) => {
                    &&& misfit(chunk@, attr@, host@) is None
                    &&& p.wf()
                    &&& p.shape() == shape_at(chunk@.offset, attr@, host@)
                    &&& p.memory() == chunk@.words
                    &&& p@ == ProducerView::initial(attr@.slots())
                    &&& p.accesses() == ring_accesses(attr@.slots())
                },
                Err(e) => misfit(chunk@, attr@, host@) == Some(e),
            },
    {
        let mut queue: Queue<'a> = match Queue::new(chunk, attr, host) {
            Ok(queue) => queue,
            Err(e) => return Err(e),
        };
        let queue_len: usize = queue.len();
        let ghost shape = queue.shape();
        let ghost ring = ProducerView::initial(queue_len as nat).chain;
        let ghost all = ring_accesses(queue_len as nat);
        let mut chain: Vec<Index> = Vec::new();
        let mut i: usize = 0;
        while i < queue_len
            invariant
                i <= queue_len,
                queue.wf(),
                queue.shape() == shape,
                queue.memory() == chunk@.words,
                shape.slots == queue_len,
                ring == ProducerView::initial(queue_len as nat).chain,
                all == ring_accesses(queue_len as nat),
                queue.accesses() =~= all.take(i as int),
                chain@ =~= ring.take(i as int),
            decreases queue_len - i,
        {
            let next: usize = if i + 1 < queue_len {
                i + 1
            } else {
                0
            };
            queue.queue_store(i as Index, next as Index);
            chain.push(next as Index);
            i = i + 1;
        }
        proof {
            assert(all.take(queue_len as int) =~= all);
            assert(ring.take(queue_len as int) =~= ring);
        }
        Ok(
            ProducerQueue {
                queue,
                head: INVALID_INDEX,
                chain,
                current: 0,
                overrun: INVALID_INDEX,
            },
        )
    }

    pub fn message_size(&self) -> (size: NonZeroSize)
        ensures
            size@ == self.shape().message_size,
    {
        self.queue.message_size
    }

    /// Marks the queue as one without messages.
    pub fn init_shm(&mut self)
        requires
            old(self).wf(),
            old(self).shape().on_word(),
        ensures
            final(self).wf(),
            final(self).shape() == old(self).shape(),
            final(self).memory() == old(self).memory(),
            final(self)@ == old(self)@,
            final(self).accesses() == old(self).accesses() + init_accesses(),
    {
        self.queue.init_shm();
    }

    /// The byte offset in shared memory of the slot that the producer fills. There is none after
    /// a tail was read that leads out of the queue.
    pub fn current_message(&self) -> (offset: Option<usize>)
        requires
            self.wf(),
        ensures
            offset is Some <==> self@.current < self.shape().slots,
            offset matches Some(o) ==> o == self.shape().message(self@.current as int),
    {
        self.queue.message(self.current)
    }

    fn queue_store(&mut self, idx: Index, value: Index)
        requires
            old(self).wf(),
            idx < old(self)@.chain.len(),
        ensures
            final(self).wf(),
            final(self).shape() == old(self).shape(),
            final(self).memory() == old(self).memory(),
            final(self)@ == (ProducerView {
                chain: old(self)@.chain.update(idx as int, value),
                ..old(self)@
            }),
            final(self).accesses() == old(self).accesses().push(
                stores(Cell::Link(idx as int), value),
            ),
    {
        self.chain.set(idx as usize, value);
        self.queue.queue_store(idx, value);
    }

    /// Tries to discard the oldest message.
    fn move_tail(&mut self, tail: Index) -> (swapped: bool)
        requires
            old(self).wf(),
            is_slot(old(self)@.chain.len(), slot_of(tail)),
        ensures
            final(self).wf(),
            final(self).shape() == old(self).shape(),
            final(self).memory() == old(self).memory(),
            final(self)@ == old(self)@,
            final(self).accesses() == old(self).accesses().push(
                swaps_tail(tail, old(self)@.chain[slot_of(tail) as int], swapped),
            ),
    {
        proof {
            lemma_slot_below(self.chain.len() as nat, slot_of(tail));
        }
        let next: Index = self.chain[(tail & INDEX_MASK) as usize];
        self.queue.tail_compare_exchange(tail, next)
    }

    fn enqueue_first_message(&mut self)
        requires
            old(self).wf(),
            old(self)@.current < old(self)@.chain.len(),
        ensures
            final(self).wf(),
            final(self).shape() == old(self).shape(),
            final(self).memory() == old(self).memory(),
            final(self)@ == old(self)@.first_enqueued(),
            final(self).accesses() == old(self).accesses() + old(self)@.first_accesses(),
    {
        self.queue_store(self.current, INVALID_INDEX);
        self.queue.tail_store(self.current | FIRST_FLAG);
        self.head = self.current;
        self.queue.head_store(self.head);
        assert(self.accesses() =~= old(self).accesses() + old(self)@.first_accesses());
    }

    fn enqueue_message(&mut self)
        requires
            old(self).wf(),
            old(self)@.current < old(self)@.chain.len(),
            old(self)@.head != INVALID_INDEX,
        ensures
            final(self).wf(),
            final(self).shape() == old(self).shape(),
            final(self).memory() == old(self).memory(),
            final(self)@ == old(self)@.enqueued(),
            final(self).accesses() == old(self).accesses() + old(self)@.enqueue_accesses(),
    {
        self.queue_store(self.current, INVALID_INDEX);
        self.queue_store(self.head, self.current);
        self.head = self.current;
        self.queue.head_store(self.head);
        assert(self.accesses() =~= old(self).accesses() + old(self)@.enqueue_accesses());
    }

    /// Puts the slot that the consumer has let go of back in front.
    fn requeue_overrun(&mut self, next: Index)
        requires
            old(self).wf(),
            old(self)@.overrun != INVALID_INDEX,
        ensures
            final(self).wf(),
            final(self).shape() == old(self).shape(),
            final(self).memory() == old(self).memory(),
            final(self)@ == old(self)@.requeued(next),
            final(self).accesses() == old(self).accesses().push(old(self)@.requeue_access(next)),
    {
        self.queue_store(self.overrun, next);
        self.current = self.overrun;
        self.overrun = INVALID_INDEX;
    }

    /// Tries to jump over the tail, which the consumer keeps.
    fn overrun(&mut self, tail: Index) -> (result: ForcePushResult)
        requires
            old(self).wf(),
            is_slot(old(self)@.chain.len(), slot_of(tail)),
        ensures
            exists|swapped: bool|
                final(self).ended(old(self), #[trigger] old(self)@.jumped(tail, swapped), result),
    {
        proof {
            lemma_slot_below(self.chain.len() as nat, slot_of(tail));
        }
        let kept: Index = tail & INDEX_MASK;
        let new_current: Index = self.chain[kept as usize];
        if new_current as usize >= self.chain.len() {
            let ghost outcome = self@.jumped(tail, false);
            assert(self.accesses() =~= old(self).accesses() + outcome.accesses);
            return ForcePushResult::QueueError;
        }
        let new_tail: Index = self.chain[new_current as usize];
        let swapped: bool = self.queue.tail_compare_exchange(tail, new_tail);
        let ghost outcome = old(self)@.jumped(tail, swapped);
        assert(self.accesses() =~= old(self).accesses() + outcome.accesses);
        if swapped {
            self.overrun = kept;
            self.current = new_current;
            ForcePushResult::SuccessMessageDiscarded
        } else {
            /* the consumer has just let go of the tail, so use it */
            self.current = kept;
            ForcePushResult::Success
        }
    }

    /// What a push that may discard does next, once its message is linked in and it has read
    /// `tail`; `next` followed the message before.
    pub fn plan_force(&self, next: Index, tail: Index) -> (plan: ForcePlan)
        requires
            self.wf(),
        ensures
            plan == self@.plan_force(next, tail),
    {
        let slot: Index = tail & INDEX_MASK;
        let consumed: bool = (tail & CONSUMED_FLAG) != 0;
        if !self.queue.is_valid_index(slot) {
            ForcePlan::Fail
        } else if self.overrun != INVALID_INDEX {
            if consumed {
                ForcePlan::Requeue
            } else {
                ForcePlan::MoveTailAgain
            }
        } else if next != slot {
            ForcePlan::Advance
        } else if !consumed {
            ForcePlan::MoveTail
        } else {
            ForcePlan::Overrun
        }
    }

    /// What a push that must not discard does once it has read `tail`.
    pub fn plan_try(&self, tail: Index) -> (plan: TryPlan)
        requires
            self.wf(),
            self@.current < self@.chain.len(),
        ensures
            plan == self@.plan_try(tail),
    {
        let slot: Index = tail & INDEX_MASK;
        let consumed: bool = (tail & CONSUMED_FLAG) != 0;
        if !self.queue.is_valid_index(slot) {
            TryPlan::Fail
        } else if self.overrun != INVALID_INDEX {
            if consumed {
                TryPlan::Requeue
            } else {
                TryPlan::Full
            }
        } else if self.chain[self.current as usize] == slot {
            TryPlan::Full
        } else {
            TryPlan::Advance
        }
    }
}

impl<'a> ProducerQueue<'a> {
    /// Deals with the tail after the message was linked in.
    fn settle(&mut self, next: Index) -> (result: ForcePushResult)
        requires
            old(self).wf(),
        ensures
            exists|seen: PushSeen|
                {
                    &&& final(self).wf()
                    &&& final(self).shape() == old(self).shape()
                    &&& final(self).memory() == old(self).memory()
                    &&& final(self)@ == (#[trigger] old(self)@.settled(next, seen)).state
                    &&& result == old(self)@.settled(next, seen).result
                    &&& final(self).accesses() == old(self).accesses().push(
                        loads(Cell::Tail, seen.tail),
                    ) + old(self)@.settled(next, seen).accesses
                },
    {
        let ghost v = self@;
        let tail: Index = self.queue.tail_load();
        let ghost mut seen = PushSeen { tail, swapped: false, swapped_again: false };
        let ghost loaded = self.accesses();
        let result: ForcePushResult = match self.plan_force(next, tail) {
            ForcePlan::Fail => ForcePushResult::QueueError,
            ForcePlan::Requeue => {
                /* the consumer has let go of the overrun message, so it can be used */
                self.requeue_overrun(next);
                ForcePushResult::Success
            },
            ForcePlan::Advance => {
                self.current = next;
                ForcePushResult::Success
            },
            ForcePlan::MoveTailAgain => {
                /* the consumer still keeps the overrun message: move the tail again, because the
                   queue is still full */
                let swapped: bool = self.move_tail(tail);
                proof {
                    seen = PushSeen { swapped, ..seen };
                }
                if swapped {
                    self.current = tail & INDEX_MASK;
                    ForcePushResult::SuccessMessageDiscarded
                } else {
                    /* the consumer has just let go of the overrun message */
                    self.requeue_overrun(next);
                    ForcePushResult::Success
                }
            },
            ForcePlan::MoveTail => {
                /* the queue is full, but the oldest message is not taken yet */
                let swapped: bool = self.move_tail(tail);
                proof {
                    seen = PushSeen { swapped, ..seen };
                }
                if swapped {
                    self.current = next;
                    ForcePushResult::SuccessMessageDiscarded
                } else {
                    /* the consumer has just taken the oldest message; if it has already moved on
                       as well, the exchange fails and the message is free */
                    let ghost before = *self;
                    proof {
                        crate::index::lemma_consume(tail);
                    }
                    let result: ForcePushResult = self.overrun(tail | CONSUMED_FLAG);
                    proof {
                        let again = choose|again: bool|
                            self.ended(
                                &before,
                                #[trigger] before@.jumped(tail | CONSUMED_FLAG, again),
                                result,
                            );
                        seen = PushSeen { swapped_again: again, ..seen };
                    }
                    result
                }
            },
            ForcePlan::Overrun => {
                let ghost before = *self;
                let result: ForcePushResult = self.overrun(tail);
                proof {
                    let swapped = choose|swapped: bool|
                        self.ended(&before, #[trigger] before@.jumped(tail, swapped), result);
                    seen = PushSeen { swapped, ..seen };
                }
                result
            },
        };
        proof {
            let rest = v.settled(next, seen);
            assert(self.accesses() =~= loaded + rest.accesses);
            assert(self@ == rest.state);
            assert(result == rest.result);
        }
        result
    }

    /// Adds the current message. If the queue is full, the oldest message that the consumer does
    /// not keep is discarded.
    pub fn force_push(&mut self) -> (result: ForcePushResult)
        requires
            old(self).wf(),
            old(self).shape().on_word(),
        ensures
            exists|seen: PushSeen|
                final(self).ended(old(self), #[trigger] old(self)@.force_push(seen), result),
    {
        let ghost v = self@;
        if self.current as usize >= self.chain.len() {
            let ghost none = PushSeen { tail: 0, swapped: false, swapped_again: false };
            assert(self.accesses() =~= old(self).accesses() + v.force_push(none).accesses);
            return ForcePushResult::QueueError;
        }
        let next: Index = self.chain[self.current as usize];
        if self.head == INVALID_INDEX {
            let ghost none = PushSeen { tail: 0, swapped: false, swapped_again: false };
            self.enqueue_first_message();
            self.current = next;
            assert(self.ended(old(self), v.force_push(none), ForcePushResult::Success));
            return ForcePushResult::Success;
        }
        self.enqueue_message();
        let ghost linked = *self;
        let result: ForcePushResult = self.settle(next);
        proof {
            let seen = choose|seen: PushSeen|
                {
                    &&& self.wf()
                    &&& self.shape() == linked.shape()
                    &&& self.memory() == linked.memory()
                    &&& self@ == (#[trigger] linked@.settled(next, seen)).state
                    &&& result == linked@.settled(next, seen).result
                    &&& self.accesses() == linked.accesses().push(loads(Cell::Tail, seen.tail))
                        + linked@.settled(next, seen).accesses
                };
            let outcome = v.force_push(seen);
            assert(self.accesses() =~= old(self).accesses() + outcome.accesses);
            assert(self.ended(old(self), outcome, result));
        }
        result
    }

    /// Adds the current message if there is room.
    pub fn try_push(&mut self) -> (result: TryPushResult)
        requires
            old(self).wf(),
            old(self).shape().on_word(),
        ensures
            exists|tail: Index|
                final(self).ended(old(self), #[trigger] old(self)@.try_push(tail), result),
    {
        let ghost v = self@;
        if self.current as usize >= self.chain.len() {
            assert(self.accesses() =~= old(self).accesses() + v.try_push(0).accesses);
            return TryPushResult::QueueError;
        }
        let next: Index = self.chain[self.current as usize];
        if self.head == INVALID_INDEX {
            self.enqueue_first_message();
            self.current = next;
            assert(self.ended(old(self), v.try_push(0), TryPushResult::Success));
            return TryPushResult::Success;
        }
        let tail: Index = self.queue.tail_load();
        let result: TryPushResult = match self.plan_try(tail) {
            TryPlan::Fail => TryPushResult::QueueError,
            TryPlan::Full => TryPushResult::QueueFull,
            TryPlan::Advance => {
                self.enqueue_message();
                self.current = next;
                TryPushResult::Success
            },
            TryPlan::Requeue => {
                self.enqueue_message();
                self.requeue_overrun(next);
                TryPushResult::Success
            },
        };
        proof {
            let outcome = v.try_push(tail);
            assert(self.accesses() =~= old(self).accesses() + outcome.accesses);
            assert(self.ended(old(self), outcome, result));
        }
        result
    }

    /// Whether there is no room for a message. While the tail leads nowhere there is said to be
    /// room, so that the push goes on and reports the error.
    pub fn full(&mut self) -> (full: bool)
        requires
            old(self).wf(),
            old(self).shape().on_word(),
        ensures
            exists|tail: Index|
                final(self).ended(old(self), #[trigger] old(self)@.full(tail), full),
    {
        let ghost v = self@;
        if self.current as usize >= self.chain.len() || self.head == INVALID_INDEX {
            assert(self.accesses() =~= old(self).accesses() + v.full(0).accesses);
            return false;
        }
        let tail: Index = self.queue.tail_load();
        let full: bool = self.plan_try(tail) == TryPlan::Full;
        proof {
            assert(self.accesses() =~= old(self).accesses() + v.full(tail).accesses);
            assert(self.ended(old(self), v.full(tail), full));
        }
        full
    }
}

/// The end of a queue that takes messages.
pub struct ConsumerQueue<'a> {
    queue: Queue<'a>,
    current: Index,
    available: bool,
}

impl<'a> View for ConsumerQueue<'a> {
    type V = ConsumerView;

    closed spec fn view(&self) -> ConsumerView {
        ConsumerView { current: self.current, available: self.available }
    }
}

impl<'a> ConsumerQueue<'a> {
    pub closed spec fn wf(&self) -> bool {
        &&& self.queue.wf()
        &&& self.current < self.queue.shape().slots
    }

    /// The words of the shared memory that the queue is in.
    pub closed spec fn memory(&self) -> Seq<AtomicU32> {
        self.queue.memory()
    }

    /// Where the queue lies in shared memory.
    pub closed spec fn shape(&self) -> QueueShape {
        self.queue.shape()
    }

    /// The accesses to the words of the queue so far.
    pub closed spec fn accesses(&self) -> Seq<CellAccess> {
        self.queue.accesses()
    }

    /// Every access that the consumer has made so far is a call on the word of its cell, with the
    /// values that the access names.
    pub proof fn law_accesses_were_made(&self, i: int)
        requires
            self.wf(),
            0 <= i < self.accesses().len(),
        ensures
            0 <= self.shape().position(self.accesses()[i].cell) < self.memory().len(),
            performed(
                self.memory()[self.shape().position(self.accesses()[i].cell)],
                self.accesses()[i].op,
            ),
    {
        self.queue.lemma_performed(i);
    }

    /// A call made `before` this ended so.
    pub open spec fn ended<R>(
        &self,
        before: &ConsumerQueue<'a>,
        outcome: Outcome<ConsumerView, R>,
        result: R,
    ) -> bool {
        &&& self.wf()
        &&& self.shape() == before.shape()
        &&& self.memory() == before.memory()
        &&& self@ == outcome.state
        &&& result == outcome.result
        &&& self.accesses() == before.accesses() + outcome.accesses
    }

    /// A consumer for the queue in a chunk.
    pub fn new(chunk: Chunk<'a>, attr: &QueueAttr, host: &Host) -> (consumer: Result<
        ConsumerQueue<'a>,
        ShmMapError,
    >)
        requires
            attr@.shm_size(host@) <= usize::MAX,
        ensures
            match consumer {
                Ok(c) => {
                    &&& misfit(chunk@, attr@, host@) is None
                    &&& c.wf()
                    &&& c.shape() == shape_at(chunk@.offset, attr@, host@)
                    &&& c.memory() == chunk@.words
                    &&& c@ == ConsumerView::initial()
                    &&& c.accesses() == Seq::<CellAccess>::empty()
                },
                Err(e) => misfit(chunk@, attr@, host@) == Some(e),
            },
    {
        match Queue::new(chunk, attr, host) {
            Ok(queue) => Ok(ConsumerQueue { queue, current: 0, available: false }),
            Err(e) => Err(e),
        }
    }

    /// The byte offset in shared memory of the message that was last taken; none before the
    /// first one.
    pub fn current_message(&self) -> (offset: Option<usize>)
        requires
            self.wf(),
        ensures
            self@.current < self.shape().slots,
            offset is Some <==> self@.available,
            offset matches Some(o) ==> o == self.shape().message(self@.current as int),
    {
        if self.available {
            self.queue.message(self.current)
        } else {
            None
        }
    }

    pub fn message_size(&self) -> (size: NonZeroSize)
        ensures
            size@ == self.shape().message_size,
    {
        self.queue.message_size
    }

    /// Marks the queue as one without messages.
    pub fn init_shm(&mut self)
        requires
            old(self).wf(),
            old(self).shape().on_word(),
        ensures
            final(self).wf(),
            final(self).shape() == old(self).shape(),
            final(self).memory() == old(self).memory(),
            final(self)@ == old(self)@,
            final(self).accesses() == old(self).accesses() + init_accesses(),
    {
        self.queue.init_shm();
    }

    /// Where a flush goes that has marked a tail of the queue.
    fn flush_look(&mut self, tail: Index) -> (target: Option<Index>)
        requires
            old(self).wf(),
            is_slot(old(self).shape().slots, slot_of(tail)),
        ensures
            final(self).wf(),
            final(self).shape() == old(self).shape(),
            final(self).memory() == old(self).memory(),
            final(self)@ == old(self)@,
            exists|seen: FlushSeen|
                {
                    &&& seen.tail == tail
                    &&& target == #[trigger] ConsumerView::flush_target(
                        old(self).shape().slots,
                        seen,
                    )
                    &&& final(self).accesses() == old(self).accesses() + ConsumerView::flush_looks(
                        old(self).shape().slots,
                        seen,
                    )
                },
    {
        let ghost slots = self.shape().slots;
        let ghost mut seen = FlushSeen { tail, head: 0, next: 0, head_again: 0, swapped: false };
        let slot: Index = tail & INDEX_MASK;
        let head: Index = self.queue.head_load();
        proof {
            seen = FlushSeen { head, ..seen };
            lemma_slot_below(self.queue.chain.len() as nat, slot);
        }
        let target: Option<Index> = if !self.queue.is_valid_index(head) && head != INVALID_INDEX {
            None
        } else if head == slot {
            Some(slot)
        } else {
            /* the head is stored after its message was linked in: without a successor the message
               under the tail is the newest one, and the head is behind it */
            let next: Index = self.queue.chain_load(slot);
            proof {
                seen = FlushSeen { next, ..seen };
            }
            if next == INVALID_INDEX {
                Some(slot)
            } else {
                /* from now on the head is not behind the tail */
                let head_again: Index = self.queue.head_load();
                proof {
                    seen = FlushSeen { head_again, ..seen };
                }
                if self.queue.is_valid_index(head_again) {
                    Some(head_again)
                } else {
                    None
                }
            }
        };
        proof {
            assert(target == ConsumerView::flush_target(slots, seen));
            assert(self.accesses() =~= old(self).accesses() + ConsumerView::flush_looks(
                slots,
                seen,
            ));
        }
        target
    }

    /// One round of a flush; without a result when the producer moved the tail.
    fn flush_round(&mut self) -> (result: Option<PopResult>)
        requires
            old(self).wf(),
        ensures
            exists|seen: FlushSeen|
                final(self).ended(
                    old(self),
                    #[trigger] old(self)@.flush_round(old(self).shape().slots, seen),
                    result,
                ),
    {
        let ghost v = self@;
        let ghost slots = self.shape().slots;
        let tail: Index = self.queue.tail_fetch_or(CONSUMED_FLAG);
        let ghost mut seen = FlushSeen { tail, head: 0, next: 0, head_again: 0, swapped: false };
        let slot: Index = tail & INDEX_MASK;
        let result: Option<PopResult> = if tail == INVALID_INDEX {
            /* marking "no slot" as consumed does not change it */
            self.available = false;
            Some(PopResult::NoMessage)
        } else if !self.queue.is_valid_index(slot) {
            Some(PopResult::QueueError)
        } else {
            let ghost marked = *self;
            let looked: Option<Index> = self.flush_look(tail);
            proof {
                seen =
                choose|seen: FlushSeen|
                    {
                        &&& seen.tail == tail
                        &&& looked == #[trigger] ConsumerView::flush_target(slots, seen)
                        &&& self.accesses() == marked.accesses() + ConsumerView::flush_looks(
                            slots,
                            seen,
                        )
                    };
            }
            match looked {
                None => Some(PopResult::QueueError),
                Some(target) => {
                    /* a tail that stays keeps its first flag */
                    let new_tail: Index = if target == slot {
                        tail | CONSUMED_FLAG
                    } else {
                        target | CONSUMED_FLAG
                    };
                    let swapped: bool = self.queue.tail_compare_exchange(
                        tail | CONSUMED_FLAG,
                        new_tail,
                    );
                    proof {
                        seen = FlushSeen { swapped, ..seen };
                        lemma_slot_below(self.queue.chain.len() as nat, target);
                    }
                    if swapped {
                        /* the target is only accepted if the producer did not move the tail:
                           otherwise it could have filled the whole queue and be filling that
                           slot */
                        let consumed: bool = (tail & CONSUMED_FLAG) != 0;
                        let stays: bool = consumed && target == slot && target == self.current
                            && self.available;
                        self.current = target;
                        self.available = true;
                        if stays {
                            Some(PopResult::NoNewMessage)
                        } else {
                            Some(PopResult::Success)
                        }
                    } else {
                        self.available = false;
                        None
                    }
                },
            }
        };
        proof {
            let outcome = v.flush_round(slots, seen);
            assert(self.accesses() =~= old(self).accesses() + outcome.accesses);
            assert(self.ended(old(self), outcome, result));
        }
        result
    }

    /// Takes the newest message and drops the others; if the consumer has that one already, there
    /// is no new message. Gives up after `rounds` attempts at each of which the producer moved the
    /// tail; the consumer has no message then, and may flush or pop again.
    pub fn flush(&mut self, rounds: usize) -> (result: Option<PopResult>)
        requires
            old(self).wf(),
            old(self).shape().on_word(),
        ensures
            exists|seen: Seq<FlushSeen>|
                {
                    &&& seen.len() <= rounds
                    &&& result is None ==> seen.len() == rounds
                    &&& final(self).ended(
                        old(self),
                        #[trigger] old(self)@.flush(old(self).shape().slots, seen),
                        result,
                    )
                },
    {
        let ghost v = self@;
        let ghost slots = self.shape().slots;
        let ghost mut seen = Seq::<FlushSeen>::empty();
        let mut result: Option<PopResult> = None;
        let mut round: usize = 0;
        assert(self.accesses() =~= old(self).accesses() + v.flush(slots, seen).accesses);
        while round < rounds && result.is_none()
            invariant
                round <= rounds,
                self.wf(),
                seen.len() == round,
                v == old(self)@,
                slots == old(self).shape().slots,
                self.ended(old(self), v.flush(slots, seen), result),
            decreases rounds - round,
        {
            let ghost before = *self;
            let ghost earlier = seen;
            result = self.flush_round();
            round = round + 1;
            proof {
                let last = choose|last: FlushSeen|
                    self.ended(&before, #[trigger] before@.flush_round(slots, last), result);
                seen = earlier.push(last);
                assert(seen.drop_last() =~= earlier);
                assert(self.accesses() =~= old(self).accesses() + v.flush(slots, seen).accesses);
            }
        }
        result
    }

    /// What a pop does once it has read `tail`.
    pub fn plan_pop(&self, tail: Index) -> (plan: PopPlan)
        ensures
            plan == ConsumerView::plan_pop(self.shape().slots, tail),
    {
        if tail == INVALID_INDEX {
            PopPlan::Empty
        } else if !self.queue.is_valid_index(tail & INDEX_MASK) {
            PopPlan::Fail
        } else if tail & CONSUMED_FLAG == 0 {
            PopPlan::Take
        } else {
            PopPlan::Follow
        }
    }

    /// Takes the oldest message that was not taken yet.
    pub fn pop(&mut self) -> (result: PopResult)
        requires
            old(self).wf(),
            old(self).shape().on_word(),
        ensures
            exists|seen: PopSeen|
                final(self).ended(
                    old(self),
                    #[trigger] old(self)@.pop(old(self).shape().slots, seen),
                    result,
                ),
    {
        let ghost v = self@;
        let ghost slots = self.shape().slots;
        let tail: Index = self.queue.tail_fetch_or(CONSUMED_FLAG);
        let ghost mut seen = PopSeen { tail, next: 0, swapped: false, tail_again: 0 };
        let result: PopResult = match self.plan_pop(tail) {
            PopPlan::Empty => {
                self.available = false;
                PopResult::NoMessage
            },
            PopPlan::Fail => PopResult::QueueError,
            PopPlan::Take => {
                /* the producer moved the tail, use it */
                proof {
                    lemma_slot_below(self.queue.chain.len() as nat, slot_of(tail));
                }
                self.current = tail & INDEX_MASK;
                self.available = true;
                if (tail & FIRST_FLAG) == FIRST_FLAG {
                    PopResult::Success
                } else {
                    PopResult::SuccessMessagesDiscarded
                }
            },
            PopPlan::Follow => {
                /* try to get the next message */
                let next: Index = self.queue.chain_load(self.current);
                proof {
                    seen = PopSeen { next, ..seen };
                }
                if next == INVALID_INDEX {
                    self.available = true;
                    PopResult::NoNewMessage
                } else if !self.queue.is_valid_index(next) {
                    PopResult::QueueError
                } else {
                    let swapped: bool = self.queue.tail_compare_exchange(
                        tail,
                        next | CONSUMED_FLAG,
                    );
                    proof {
                        seen = PopSeen { swapped, ..seen };
                        lemma_slot_below(self.queue.chain.len() as nat, next);
                    }
                    if swapped {
                        self.current = next;
                        self.available = true;
                        PopResult::Success
                    } else {
                        /* the producer just moved the tail, use it */
                        let current: Index = self.queue.tail_fetch_or(CONSUMED_FLAG);
                        proof {
                            seen = PopSeen { tail_again: current, ..seen };
                        }
                        if !self.queue.is_valid_index(current) {
                            PopResult::QueueError
                        } else {
                            proof {
                                lemma_slot_below(self.queue.chain.len() as nat, current);
                            }
                            self.current = current;
                            self.available = true;
                            PopResult::SuccessMessagesDiscarded
                        }
                    }
                }
            },
        };
        proof {
            let outcome = v.pop(slots, seen);
            assert(self.accesses() =~= old(self).accesses() + outcome.accesses);
            assert(self.ended(old(self), outcome, result));
        }
        result
    }
}

/// An index that the consumer could have written and that names a slot is below the length.
proof fn lemma_slot_below(len: nat, slot: Index)
    requires
        is_slot(len, slot),
        len <= usize::MAX,
    ensures
        slot < len,
{
    let n = len as usize;
    assert((n as u32) <= n) by (bit_vector);
}

} // verus!
