//! Channels: a queue with, on demand, an event that signals pushes.
use crate::attr::{lemma_sizes, ChannelAttr, QueueAttr, QueueAttrView};
use crate::error::{ResourceError, ShmMapError};
use crate::host::{Host, HostView};
use crate::index::Index;
use crate::queue::{
    init_accesses, misfit, ring_accesses, shape_at, ConsumerQueue, ProducerQueue,
};
use crate::queue_spec::{
    CellAccess, ConsumerView, FlushSeen, ForcePushResult, PopResult, PopSeen, ProducerView,
    PushSeen, TryPushResult,
};
use crate::shm::{Chunk, ChunkView, SharedMemory};
use nix::sys::eventfd::EventFd;
use std::marker::PhantomData;
use std::sync::atomic::AtomicU32;
use vstd::prelude::*;

verus! {

/// An event that signals pushes, as the `nix` crate has it. It is only carried along.
#[verifier::external_type_specification]
#[verifier::external_body]
pub struct ExEventFd(nix::sys::eventfd::EventFd);

/// Why a queue of these attributes cannot be at an offset of a memory of `size` bytes, if it
/// cannot.
pub open spec fn misplaced(size: nat, offset: nat, attr: QueueAttrView, host: HostView) -> Option<
    ShmMapError,
> {
    if offset + attr.shm_size(host) > size {
        Some(ShmMapError::OutOfBounds)
    } else {
        None
    }
}

/// The words of a queue at this offset may be accessed, if it can be there at all.
pub open spec fn accessible(size: nat, offset: nat, attr: QueueAttrView, host: HostView) -> bool {
    misplaced(size, offset, attr, host) is None ==> shape_at(offset, attr, host).on_word()
}

/// The part of shared memory for a queue at an offset.
fn place_queue<'a>(
    attr: &QueueAttr,
    shm: &SharedMemory<'a>,
    offset: usize,
    host: &Host,
) -> (chunk: Result<Chunk<'a>, ShmMapError>)
    ensures
        match chunk {
            Ok(c) => {
                &&& offset + attr@.shm_size(host@) <= shm@
                &&& shm@ <= usize::MAX
                &&& c@.offset == offset
                &&& c@.words == shm.words()
                &&& misfit(c@, attr@, host@) == misplaced(shm@, offset as nat, attr@, host@)
            },
            Err(e) => misplaced(shm@, offset as nat, attr@, host@) == Some(e),
        },
{
    let cacheline_size: u16 = host.cacheline_size();
    proof {
        lemma_sizes(attr@, host@);
    }
    match attr.checked_shm_size(host) {
        Some(size) => shm.allocate(offset, size),
        None => {
            proof {
                shm.lemma_size();
            }
            Err(ShmMapError::OutOfBounds)
        },
    }
}

/// The end of a channel that adds messages.
pub struct ProducerChannel<'a> {
    queue: ProducerQueue<'a>,
    eventfd: Option<EventFd>,
}

impl<'a> ProducerChannel<'a> {
    pub closed spec fn queue(&self) -> ProducerQueue<'a> {
        self.queue
    }

    pub closed spec fn event(&self) -> Option<EventFd> {
        self.eventfd
    }

    /// The channel was just set up for a queue at `offset` of these words of shared memory; with
    /// `init` the queue was also marked as one without messages.
    pub open spec fn is_new(
        &self,
        memory: Seq<AtomicU32>,
        offset: nat,
        attr: QueueAttrView,
        host: HostView,
        init: bool,
    ) -> bool {
        &&& self.queue().wf()
        &&& self.queue().memory() == memory
        &&& self.queue().shape() == shape_at(offset, attr, host)
        &&& self.queue()@ == ProducerView::initial(attr.slots())
        &&& self.queue().accesses() == if init {
            ring_accesses(attr.slots()) + init_accesses()
        } else {
            ring_accesses(attr.slots())
        }
    }

    /// A channel whose queue is at `shm_offset`, which is moved behind the queue.
    pub fn new(
        attr: &QueueAttr,
        eventfd: Option<EventFd>,
        shm: &SharedMemory<'a>,
        shm_offset: &mut usize,
        host: &Host,
    ) -> (channel: Result<ProducerChannel<'a>, ResourceError>)
        requires
            accessible(shm@, *old(shm_offset) as nat, attr@, host@),
        ensures
            match channel {
                Ok(c) => {
                    &&& misplaced(shm@, *old(shm_offset) as nat, attr@, host@) is None
                    &&& *final(shm_offset) == *old(shm_offset) + attr@.shm_size(host@)
                    &&& c.is_new(shm.words(), *old(shm_offset) as nat, attr@, host@, false)
                    &&& c.event() == eventfd
                },
                Err(e) => {
                    &&& *final(shm_offset) == *old(shm_offset)
                    &&& misplaced(shm@, *old(shm_offset) as nat, attr@, host@) matches Some(fault)
                    &&& e == ResourceError::ShmMapError(fault)
                },
            },
    {
        let chunk = match place_queue(attr, shm, *shm_offset, host) {
            Ok(chunk) => chunk,
            Err(e) => return Err(ResourceError::from(e)),
        };
        let queue: ProducerQueue<'a> = match ProducerQueue::new(chunk, attr, host) {
            Ok(queue) => queue,
            Err(e) => return Err(ResourceError::from(e)),
        };
        *shm_offset = *shm_offset + attr.shm_size(host).get();
        Ok(ProducerChannel { queue, eventfd })
    }

    /// As `new`, for the end that creates the queue: the queue is marked as one without messages.
    /// The channel has an event if its attributes say so.
    pub fn allocate(
        attr: &ChannelAttr,
        eventfd: Option<EventFd>,
        shm: &SharedMemory<'a>,
        shm_offset: &mut usize,
        host: &Host,
    ) -> (channel: Result<ProducerChannel<'a>, ResourceError>)
        requires
            eventfd is Some <==> attr@.eventfd,
            accessible(shm@, *old(shm_offset) as nat, attr@.queue_attr(), host@),
        ensures
            match channel {
                Ok(c) => {
                    &&& misplaced(
                        shm@,
                        *old(shm_offset) as nat,
                        attr@.queue_attr(),
                        host@,
                    ) is None
                    &&& *final(shm_offset) == *old(shm_offset) + attr@.queue_attr().shm_size(host@)
                    &&& c.is_new(
                        shm.words(),
                        *old(shm_offset) as nat,
                        attr@.queue_attr(),
                        host@,
                        true,
                    )
                    &&& c.event() == eventfd
                },
                Err(e) => {
                    &&& *final(shm_offset) == *old(shm_offset)
                    &&& misplaced(
                        shm@,
                        *old(shm_offset) as nat,
                        attr@.queue_attr(),
                        host@,
                    ) matches Some(fault)
                    &&& e == ResourceError::ShmMapError(fault)
                },
            },
    {
        let mut channel: ProducerChannel<'a> = match ProducerChannel::new(
            &attr.to_queue_attr(),
            eventfd,
            shm,
            shm_offset,
            host,
        ) {
            Ok(channel) => channel,
            Err(e) => return Err(e),
        };
        channel.queue.init_shm();
        Ok(channel)
    }

    /// The event that signals pushes.
    pub(crate) fn eventfd(&self) -> (eventfd: Option<&EventFd>)
        ensures
            match eventfd {
                Some(e) => self.event() == Some(*e),
                None => self.event() is None,
            },
    {
        self.eventfd.as_ref()
    }
}

/// The end of a channel that takes messages.
pub struct ConsumerChannel<'a> {
    queue: ConsumerQueue<'a>,
    eventfd: Option<EventFd>,
}

impl<'a> ConsumerChannel<'a> {
    pub closed spec fn queue(&self) -> ConsumerQueue<'a> {
        self.queue
    }

    pub closed spec fn event(&self) -> Option<EventFd> {
        self.eventfd
    }

    /// The channel was just set up for a queue at `offset` of these words of shared memory; with
    /// `init` the queue was also marked as one without messages.
    pub open spec fn is_new(
        &self,
        memory: Seq<AtomicU32>,
        offset: nat,
        attr: QueueAttrView,
        host: HostView,
        init: bool,
    ) -> bool {
        &&& self.queue().wf()
        &&& self.queue().memory() == memory
        &&& self.queue().shape() == shape_at(offset, attr, host)
        &&& self.queue()@ == ConsumerView::initial()
        &&& self.queue().accesses() == if init {
            Seq::<CellAccess>::empty() + init_accesses()
        } else {
            Seq::<CellAccess>::empty()
        }
    }

    /// A channel whose queue is at `shm_offset`, which is moved behind the queue.
    pub fn new(
        attr: &QueueAttr,
        eventfd: Option<EventFd>,
        shm: &SharedMemory<'a>,
        shm_offset: &mut usize,
        host: &Host,
    ) -> (channel: Result<ConsumerChannel<'a>, ResourceError>)
        ensures
            match channel {
                Ok(c) => {
                    &&& misplaced(shm@, *old(shm_offset) as nat, attr@, host@) is None
                    &&& *final(shm_offset) == *old(shm_offset) + attr@.shm_size(host@)
                    &&& c.is_new(shm.words(), *old(shm_offset) as nat, attr@, host@, false)
                    &&& c.event() == eventfd
                },
                Err(e) => {
                    &&& *final(shm_offset) == *old(shm_offset)
                    &&& misplaced(shm@, *old(shm_offset) as nat, attr@, host@) matches Some(fault)
                    &&& e == ResourceError::ShmMapError(fault)
                },
            },
    {
        let chunk = match place_queue(attr, shm, *shm_offset, host) {
            Ok(chunk) => chunk,
            Err(e) => return Err(ResourceError::from(e)),
        };
        let queue: ConsumerQueue<'a> = match ConsumerQueue::new(chunk, attr, host) {
            Ok(queue) => queue,
            Err(e) => return Err(ResourceError::from(e)),
        };
        *shm_offset = *shm_offset + attr.shm_size(host).get();
        Ok(ConsumerChannel { queue, eventfd })
    }

    /// As `new`, for the end that creates the queue: the queue is marked as one without messages.
    /// The channel has an event if its attributes say so.
    pub fn allocate(
        attr: &ChannelAttr,
        eventfd: Option<EventFd>,
        shm: &SharedMemory<'a>,
        shm_offset: &mut usize,
        host: &Host,
    ) -> (channel: Result<ConsumerChannel<'a>, ResourceError>)
        requires
            eventfd is Some <==> attr@.eventfd,
            accessible(shm@, *old(shm_offset) as nat, attr@.queue_attr(), host@),
        ensures
            match channel {
                Ok(c) => {
                    &&& misplaced(
                        shm@,
                        *old(shm_offset) as nat,
                        attr@.queue_attr(),
                        host@,
                    ) is None
                    &&& *final(shm_offset) == *old(shm_offset) + attr@.queue_attr().shm_size(host@)
                    &&& c.is_new(
                        shm.words(),
                        *old(shm_offset) as nat,
                        attr@.queue_attr(),
                        host@,
                        true,
                    )
                    &&& c.event() == eventfd
                },
                Err(e) => {
                    &&& *final(shm_offset) == *old(shm_offset)
                    &&& misplaced(
                        shm@,
                        *old(shm_offset) as nat,
                        attr@.queue_attr(),
                        host@,
                    ) matches Some(fault)
                    &&& e == ResourceError::ShmMapError(fault)
                },
            },
    {
        let mut channel: ConsumerChannel<'a> = match ConsumerChannel::new(
            &attr.to_queue_attr(),
            eventfd,
            shm,
            shm_offset,
            host,
        ) {
            Ok(channel) => channel,
            Err(e) => return Err(e),
        };
        channel.queue.init_shm();
        Ok(channel)
    }

    /// The event that signals pushes.
    pub(crate) fn eventfd(&self) -> (eventfd: Option<&EventFd>)
        ensures
            match eventfd {
                Some(e) => self.event() == Some(*e),
                None => self.event() is None,
            },
    {
        self.eventfd.as_ref()
    }
}

/// A message that is to be copied to a byte offset of shared memory.
pub struct Staged<T> {
    pub offset: usize,
    pub message: T,
}

/// What a push that must not discard has to do first.
pub enum TryPushStart<T> {
    /// The queue is full: the message is not to be added.
    Full,
    /// The message is to be copied to its slot, if it is not there yet, and to be pushed.
    Push(Option<Staged<T>>),
}

/// The end of a channel that adds messages of type `T`. The message that is pushed next is in its
/// slot in shared memory or, while there is a cache, in the cache.
pub struct Producer<'a, T: Copy> {
    channel: ProducerChannel<'a>,
    cache: Option<T>,
}

impl<'a, T: Copy> Producer<'a, T> {
    pub closed spec fn queue(&self) -> ProducerQueue<'a> {
        self.channel.queue
    }

    pub closed spec fn event(&self) -> Option<EventFd> {
        self.channel.eventfd
    }

    pub closed spec fn cached(&self) -> Option<T> {
        self.cache
    }

    /// The byte offset of the slot of the message that is pushed next, if there is one.
    pub open spec fn slot(&self) -> Option<int> {
        if self.queue()@.current < self.queue().shape().slots {
            Some(self.queue().shape().message(self.queue()@.current as int))
        } else {
            None
        }
    }

    /// The message of the cache is to be copied to the slot, if there are both.
    pub open spec fn stages(&self, staged: Option<Staged<T>>) -> bool {
        match staged {
            Some(s) => self.cached() == Some(s.message) && self.slot() == Some(s.offset as int),
            None => self.cached() is None || self.slot() is None,
        }
    }

    /// A producer of the channel, unless its messages are too small for `T`.
    pub(crate) fn new(channel: ProducerChannel<'a>) -> (producer: Result<Self, ShmMapError>)
        ensures
            match producer {
                Ok(p) => {
                    &&& vstd::layout::size_of::<T>() <= channel.queue().shape().message_size
                    &&& p.queue() == channel.queue()
                    &&& p.event() == channel.event()
                    &&& p.cached() is None
                },
                Err(e) => {
                    &&& vstd::layout::size_of::<T>() > channel.queue().shape().message_size
                    &&& e == ShmMapError::OutOfBounds
                },
            },
    {
        if core::mem::size_of::<T>() > channel.queue.message_size().get() {
            return Err(ShmMapError::OutOfBounds);
        }
        Ok(Producer { channel, cache: None })
    }

    /// The byte offset of the slot of the message that is pushed next. There is none after a tail
    /// was read that leads out of the queue.
    pub fn current_slot(&self) -> (offset: Option<usize>)
        requires
            self.queue().wf(),
        ensures
            match offset {
                Some(o) => self.slot() == Some(o as int),
                None => self.slot() is None,
            },
    {
        self.channel.queue.current_message()
    }

    /// The message that is pushed next, while there is a cache.
    pub fn current_message(&mut self) -> (message: Option<&mut T>)
        ensures
            final(self).queue() == old(self).queue(),
            final(self).event() == old(self).event(),
            match message {
                Some(m) => {
                    &&& old(self).cached() == Some(*m)
                    &&& final(self).cached() == Some(*final(m))
                },
                None => old(self).cached() is None && final(self).cached() is None,
            },
    {
        match &mut self.cache {
            Some(message) => Some(message),
            None => None,
        }
    }

    /// What is to be copied to shared memory before the message is pushed.
    pub fn stage(&self) -> (staged: Option<Staged<T>>)
        requires
            self.queue().wf(),
        ensures
            self.stages(staged),
    {
        match self.cache {
            Some(message) => match self.current_slot() {
                Some(offset) => Some(Staged { offset, message }),
                None => None,
            },
            None => None,
        }
    }
}

/// How a push ended, and whether its event is to be signalled.
#[derive(Debug, PartialEq, Eq)]
pub struct Pushed<R> {
    pub result: R,
    pub signal: bool,
}

impl<'a, T: Copy> Producer<'a, T> {
    /// Adds the message that is in the slot, after `stage`. If the queue is full, the oldest
    /// message that the consumer does not keep is discarded. Only a push that discards nothing is
    /// signalled: one that does leaves as many messages as there were.
    pub fn force_push(&mut self) -> (pushed: Pushed<ForcePushResult>)
        requires
            old(self).queue().wf(),
            old(self).queue().shape().on_word(),
        ensures
            final(self).event() == old(self).event(),
            final(self).cached() == old(self).cached(),
            exists|seen: PushSeen|
                final(self).queue().ended(
                    &old(self).queue(),
                    #[trigger] old(self).queue()@.force_push(seen),
                    pushed.result,
                ),
            pushed.signal <==> {
                &&& pushed.result == ForcePushResult::Success
                &&& old(self).event() is Some
            },
    {
        let result: ForcePushResult = self.channel.queue.force_push();
        let signal: bool = result == ForcePushResult::Success && self.channel.eventfd.is_some();
        Pushed { result, signal }
    }

    /// Starts a push that must not discard. With a cache, the slot is only written to if the
    /// queue is not full.
    pub fn start_try_push(&mut self) -> (start: TryPushStart<T>)
        requires
            old(self).queue().wf(),
            old(self).cached() is Some ==> old(self).queue().shape().on_word(),
        ensures
            final(self).event() == old(self).event(),
            final(self).cached() == old(self).cached(),
            old(self).cached() is None ==> {
                &&& start == TryPushStart::<T>::Push(None)
                &&& final(self).queue() == old(self).queue()
            },
            old(self).cached() is Some ==> exists|tail: Index|
                final(self).queue().ended(
                    &old(self).queue(),
                    #[trigger] old(self).queue()@.full(tail),
                    start is Full,
                ),
            start matches TryPushStart::Push(staged) ==> final(self).stages(staged),
    {
        if self.cache.is_some() && self.channel.queue.full() {
            return TryPushStart::Full;
        }
        TryPushStart::Push(self.stage())
    }

    /// Adds the message that is in the slot, after `start_try_push`, if there is room.
    pub fn try_push(&mut self) -> (pushed: Pushed<TryPushResult>)
        requires
            old(self).queue().wf(),
            old(self).queue().shape().on_word(),
        ensures
            final(self).event() == old(self).event(),
            final(self).cached() == old(self).cached(),
            exists|tail: Index|
                final(self).queue().ended(
                    &old(self).queue(),
                    #[trigger] old(self).queue()@.try_push(tail),
                    pushed.result,
                ),
            pushed.signal <==> {
                &&& pushed.result == TryPushResult::Success
                &&& old(self).event() is Some
            },
    {
        let result: TryPushResult = self.channel.queue.try_push();
        let signal: bool = result == TryPushResult::Success && self.channel.eventfd.is_some();
        Pushed { result, signal }
    }

    /// The event that signals pushes.
    pub fn eventfd(&self) -> (eventfd: Option<&EventFd>)
        ensures
            match eventfd {
                Some(e) => self.event() == Some(*e),
                None => self.event() is None,
            },
    {
        self.channel.eventfd()
    }

    /// Takes the event away; pushes are not signalled any more.
    pub fn take_eventfd(&mut self) -> (eventfd: Option<EventFd>)
        ensures
            eventfd == old(self).event(),
            final(self).event() is None,
            final(self).queue() == old(self).queue(),
            final(self).cached() == old(self).cached(),
    {
        self.channel.eventfd.take()
    }

    /// From now on the message that is pushed next is in a cache; at first that is `message`, the
    /// one that is in the slot. A cache that is there stays as it is.
    pub fn enable_cache(&mut self, message: T)
        ensures
            final(self).queue() == old(self).queue(),
            final(self).event() == old(self).event(),
            final(self).cached() == if old(self).cached() is None {
                Some(message)
            } else {
                old(self).cached()
            },
    {
        if self.cache.is_none() {
            self.cache = Some(message);
        }
    }

    /// Drops the cache. What was in it is to be copied to the slot.
    pub fn disable_cache(&mut self) -> (staged: Option<Staged<T>>)
        requires
            old(self).queue().wf(),
        ensures
            old(self).stages(staged),
            final(self).cached() is None,
            final(self).queue() == old(self).queue(),
            final(self).event() == old(self).event(),
    {
        let staged: Option<Staged<T>> = self.stage();
        self.cache = None;
        staged
    }
}

/// The end of a channel that takes messages of type `T`.
pub struct Consumer<'a, T: Copy> {
    channel: ConsumerChannel<'a>,
    message: PhantomData<T>,
}

impl<'a, T: Copy> Consumer<'a, T> {
    pub closed spec fn queue(&self) -> ConsumerQueue<'a> {
        self.channel.queue
    }

    pub closed spec fn event(&self) -> Option<EventFd> {
        self.channel.eventfd
    }

    /// A consumer of the channel, unless its messages are too small for `T`.
    pub(crate) fn new(channel: ConsumerChannel<'a>) -> (consumer: Result<Self, ShmMapError>)
        ensures
            match consumer {
                Ok(c) => {
                    &&& vstd::layout::size_of::<T>() <= channel.queue().shape().message_size
                    &&& c.queue() == channel.queue()
                    &&& c.event() == channel.event()
                },
                Err(e) => {
                    &&& vstd::layout::size_of::<T>() > channel.queue().shape().message_size
                    &&& e == ShmMapError::OutOfBounds
                },
            },
    {
        if core::mem::size_of::<T>() > channel.queue.message_size().get() {
            return Err(ShmMapError::OutOfBounds);
        }
        Ok(Consumer { channel, message: PhantomData })
    }

    /// The byte offset in shared memory of the message that was last taken; none before the
    /// first one.
    pub fn current_message(&self) -> (offset: Option<usize>)
        requires
            self.queue().wf(),
        ensures
            self.queue()@.current < self.queue().shape().slots,
            offset is Some <==> self.queue()@.available,
            offset matches Some(o) ==> o == self.queue().shape().message(
                self.queue()@.current as int,
            ),
    {
        self.channel.queue.current_message()
    }

    /// Takes the oldest message that was not taken yet. `signalled` says of a channel with an
    /// event whether a push was signalled; if none was, the queue is not looked at.
    pub fn pop(&mut self, signalled: bool) -> (result: PopResult)
        requires
            old(self).queue().wf(),
            old(self).event() is None || signalled ==> old(self).queue().shape().on_word(),
        ensures
            final(self).event() == old(self).event(),
            old(self).event() is Some && !signalled ==> {
                &&& final(self).queue() == old(self).queue()
                &&& result == unsignalled(old(self).queue()@)
            },
            old(self).event() is None || signalled ==> exists|seen: PopSeen|
                final(self).queue().ended(
                    &old(self).queue(),
                    #[trigger] old(self).queue()@.pop(old(self).queue().shape().slots, seen),
                    result,
                ),
    {
        if self.channel.eventfd.is_some() && !signalled {
            if self.channel.queue.current_message().is_some() {
                return PopResult::NoNewMessage;
            } else {
                return PopResult::NoMessage;
            }
        }
        self.channel.queue.pop()
    }

    /// Takes the newest message and drops the others, on a channel without an event. Gives up
    /// after `rounds` attempts at each of which the producer moved the tail. On a channel with an
    /// event, `EventFlush` says how to go on: no event may be left behind.
    pub fn flush(&mut self, rounds: usize) -> (result: Option<PopResult>)
        requires
            old(self).queue().wf(),
            old(self).queue().shape().on_word(),
            old(self).event() is None,
        ensures
            final(self).event() is None,
            exists|seen: Seq<FlushSeen>|
                {
                    &&& seen.len() <= rounds
                    &&& result is None ==> seen.len() == rounds
                    &&& final(self).queue().ended(
                        &old(self).queue(),
                        #[trigger] old(self).queue()@.flush(
                            old(self).queue().shape().slots,
                            seen,
                        ),
                        result,
                    )
                },
    {
        self.channel.queue.flush(rounds)
    }

    /// The event that signals pushes.
    pub fn eventfd(&self) -> (eventfd: Option<&EventFd>)
        ensures
            match eventfd {
                Some(e) => self.event() == Some(*e),
                None => self.event() is None,
            },
    {
        self.channel.eventfd()
    }

    /// Takes the event away; from now on the queue is always looked at.
    pub fn take_eventfd(&mut self) -> (eventfd: Option<EventFd>)
        ensures
            eventfd == old(self).event(),
            final(self).event() is None,
            final(self).queue() == old(self).queue(),
    {
        self.channel.eventfd.take()
    }
}

/// What a pop reports that was not signalled: there is no new message, or none at all.
pub open spec fn unsignalled(view: ConsumerView) -> PopResult {
    if view.available {
        PopResult::NoNewMessage
    } else {
        PopResult::NoMessage
    }
}

/// What the pops of a flush amount to so far, after one more: whether messages were taken, and
/// whether the producer has discarded some. A pop that takes none changes nothing.
pub open spec fn flushed_after(flushed: Option<PopResult>, popped: PopResult) -> Option<PopResult> {
    if popped == PopResult::SuccessMessagesDiscarded || (popped == PopResult::Success
        && flushed is None) {
        Some(popped)
    } else {
        flushed
    }
}

/// How a flush ends with a pop: not yet if that has taken a message, as there may be more. A flush
/// that has taken messages ends with a success, another one as its only pop did.
pub open spec fn flush_end(flushed: Option<PopResult>, popped: PopResult) -> Option<PopResult> {
    if popped == PopResult::Success || popped == PopResult::SuccessMessagesDiscarded {
        None
    } else if flushed is Some {
        flushed
    } else {
        Some(popped)
    }
}

/// A flush of a channel with an event: messages are popped one by one, so that each takes its
/// event with it.
pub struct EventFlush {
    flushed: Option<PopResult>,
}

impl EventFlush {
    /// What the pops amount to so far, once they have taken a message.
    pub closed spec fn flushed(&self) -> Option<PopResult> {
        self.flushed
    }

    /// No message was popped yet.
    pub fn new() -> (flush: EventFlush)
        ensures
            flush.flushed() is None,
    {
        EventFlush { flushed: None }
    }

    /// What a pop makes of the flush: nothing yet if it is to go on, or else how the flush ended.
    pub fn popped(&mut self, result: PopResult) -> (ended: Option<PopResult>)
        ensures
            final(self).flushed() == flushed_after(old(self).flushed(), result),
            ended == flush_end(old(self).flushed(), result),
    {
        match result {
            PopResult::Success => {
                if self.flushed.is_none() {
                    self.flushed = Some(result);
                }
                None
            },
            PopResult::SuccessMessagesDiscarded => {
                self.flushed = Some(result);
                None
            },
            _ => match self.flushed {
                Some(flushed) => Some(flushed),
                None => Some(result),
            },
        }
    }
}

/// What a row of pops amounts to: messages were discarded if one of them said so, none were
/// discarded if they only took messages, and nothing was taken if none of them was a success. The
/// next pop ends the flush, with that or, if nothing was taken, with its own result, unless it
/// takes a message itself.
pub proof fn law_flush_sums_up(pops: Seq<PopResult>, next: PopResult)
    ensures
        ({
            let flushed = pops.fold_left(
                None,
                |flushed: Option<PopResult>, popped: PopResult| flushed_after(flushed, popped),
            );
            let sum = if pops.contains(PopResult::SuccessMessagesDiscarded) {
                Some(PopResult::SuccessMessagesDiscarded)
            } else if pops.contains(PopResult::Success) {
                Some(PopResult::Success)
            } else {
                None
            };
            &&& flushed == sum
            &&& flush_end(flushed, next) == match next {
                PopResult::Success | PopResult::SuccessMessagesDiscarded => None,
                _ => if sum is Some {
                    sum
                } else {
                    Some(next)
                },
            }
        }),
    decreases pops.len(),
{
    if pops.len() > 0 {
        let fewer = pops.drop_last();
        law_flush_sums_up(fewer, next);
        assert(pops =~= fewer.push(pops.last()));
        assert forall|r: PopResult| pops.contains(r) <==> fewer.contains(r) || r
            == pops.last() by {
            if fewer.contains(r) {
                let i = choose|i: int| 0 <= i < fewer.len() && fewer[i] == r;
                assert(pops[i] == r);
            }
            if pops.contains(r) {
                let i = choose|i: int| 0 <= i < pops.len() && pops[i] == r;
                assert(i < fewer.len() ==> fewer[i] == r);
            }
            assert(pops[pops.len() - 1] == pops.last());
        }
    }
}

/// Without a signal a consumer stays on the message that it has, if it has one.
pub proof fn law_unsignalled_pop_takes_nothing(view: ConsumerView)
    ensures
        unsignalled(view) == PopResult::NoNewMessage <==> view.available,
        unsignalled(view) == PopResult::NoMessage <==> !view.available,
{
}

/// A queue fits in a chunk, and at an offset of shared memory, if and only if its last byte does.
pub proof fn law_queue_fits(
    chunk: ChunkView,
    size: nat,
    offset: nat,
    attr: QueueAttrView,
    host: HostView,
)
    ensures
        misfit(chunk, attr, host) is None <==> attr.shm_size(host) <= chunk.size,
        misfit(chunk, attr, host) matches Some(e) ==> e == ShmMapError::OutOfBounds,
        misplaced(size, offset, attr, host) is None <==> offset + attr.shm_size(host) <= size,
        misplaced(size, offset, attr, host) matches Some(e) ==> e == ShmMapError::OutOfBounds,
{
}

/// The message that is pushed next has its slot as long as the queue has one of its index. What is
/// copied there is the message of the cache, and it is copied if there are both.
pub proof fn law_cached_message_goes_to_its_slot<T: Copy>(
    producer: Producer<'_, T>,
    staged: Option<Staged<T>>,
)
    ensures
        ({
            let shape = producer.queue().shape();
            let current = producer.queue()@.current as int;
            &&& producer.slot() is Some <==> current < shape.slots
            &&& producer.slot() matches Some(o) ==> o == shape.data + current * shape.stride
            &&& producer.stages(staged) ==> {
                &&& staged is Some <==> producer.cached() is Some && producer.slot() is Some
                &&& staged matches Some(s) ==> {
                    &&& s.message == producer.cached()->0
                    &&& s.offset == producer.slot()->0
                }
            }
        }),
{
}

} // verus!
