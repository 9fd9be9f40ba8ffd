//! Groups of channels that two ends share, and how each end sets up its part.
use crate::attr::{
    channel_views, count_events, lemma_first_channels, total_size, ChannelAttr, ChannelAttrView,
    GroupAttr, GroupAttrView,
};
use crate::channel::{misplaced, Consumer, ConsumerChannel, Producer, ProducerChannel};
use crate::error::{RequestError, ResourceError, TransferError};
use crate::group_laws::law_queues_start_on_words;
use crate::host::{Host, HostView, NonZeroSize};
use crate::protocol::{create_request, parse_request};
use crate::protocol_spec::{parsed, request_bytes, request_size};
use crate::queue::shape_at;
use crate::shm::SharedMemory;
use nix::errno::Errno;
use nix::sys::eventfd::EventFd;
use std::collections::VecDeque;
use std::sync::atomic::AtomicU32;
use vstd::prelude::*;

verus! {

/// The two ends of a group: the one that creates the shared memory, and the one that receives it.
#[derive(Clone, Copy, Debug, PartialEq, Eq, Structural)]
pub enum Side {
    Creator,
    Receiver,
}

/// What an end does with a channel.
#[derive(Clone, Copy, Debug, PartialEq, Eq, Structural)]
pub enum Role {
    Producer,
    Consumer,
}

impl GroupAttrView {
    /// The channels of a group in the order in which they are in shared memory: first those that
    /// the creator pushes to.
    pub open spec fn order(self, side: Side) -> Seq<ChannelAttrView> {
        match side {
            Side::Creator => self.producers + self.consumers,
            Side::Receiver => self.consumers + self.producers,
        }
    }

    /// The position of a channel in that order.
    pub open spec fn position(self, side: Side, role: Role, index: int) -> int {
        match (side, role) {
            (Side::Creator, Role::Producer) => index,
            (Side::Creator, Role::Consumer) => self.producers.len() + index,
            (Side::Receiver, Role::Consumer) => index,
            (Side::Receiver, Role::Producer) => self.consumers.len() + index,
        }
    }
}

/// The byte offset of the queue of a channel in shared memory: behind those in front of it.
pub open spec fn place(order: Seq<ChannelAttrView>, k: int, host: HostView) -> nat {
    total_size(order.take(k), host)
}

/// The event of a channel: the events are those of the channels that have one, in their order.
pub open spec fn event_of(
    order: Seq<ChannelAttrView>,
    k: int,
    events: Seq<Result<EventFd, Errno>>,
) -> Option<EventFd> {
    if order[k].eventfd {
        Some(events[count_events(order.take(k)) as int]->Ok_0)
    } else {
        None
    }
}

/// Why a channel cannot be set up.
pub enum SetupFault {
    /// There is no event left for it.
    MissingEvent,
    /// Its event could not be had, or its queue has no place in shared memory.
    Resource(ResourceError),
}

/// Why a channel cannot be set up at an offset of shared memory with the next of the events, if
/// it cannot.
pub open spec fn fault_of(
    channel: ChannelAttrView,
    offset: nat,
    shm_size: nat,
    events: Seq<Result<EventFd, Errno>>,
    host: HostView,
) -> Option<SetupFault> {
    if channel.eventfd && events.len() == 0 {
        Some(SetupFault::MissingEvent)
    } else if channel.eventfd && events[0] is Err {
        Some(SetupFault::Resource(ResourceError::Errno(events[0]->Err_0)))
    } else {
        match misplaced(shm_size, offset, channel.queue_attr(), host) {
            Some(e) => Some(SetupFault::Resource(ResourceError::ShmMapError(e))),
            None => None,
        }
    }
}

/// Why the first `count` channels of a group cannot be set up, if they cannot: what is wrong with
/// the first one that cannot.
pub open spec fn group_fault(
    order: Seq<ChannelAttrView>,
    shm_size: nat,
    events: Seq<Result<EventFd, Errno>>,
    host: HostView,
    count: nat,
) -> Option<SetupFault>
    decreases count,
{
    if count == 0 {
        None
    } else {
        let k = count - 1;
        match group_fault(order, shm_size, events, host, k as nat) {
            Some(fault) => Some(fault),
            None => fault_of(
                order[k],
                place(order, k, host),
                shm_size,
                events.skip(count_events(order.take(k)) as int),
                host,
            ),
        }
    }
}

/// What is wrong with one of the first channels is wrong with the group.
proof fn lemma_fault_stays(
    order: Seq<ChannelAttrView>,
    shm_size: nat,
    events: Seq<Result<EventFd, Errno>>,
    host: HostView,
    count: nat,
    more: nat,
    fault: SetupFault,
)
    requires
        count <= more,
        group_fault(order, shm_size, events, host, count) == Some(fault),
    ensures
        group_fault(order, shm_size, events, host, more) == Some(fault),
    decreases more,
{
    if count < more {
        lemma_fault_stays(order, shm_size, events, host, count, (more - 1) as nat, fault);
    }
}

/// The channel at position `k` of a group was just set up for the end that pushes to it, by the
/// creator if `init`.
pub open spec fn is_new_producer(
    channel: Option<ProducerChannel<'_>>,
    memory: Seq<AtomicU32>,
    order: Seq<ChannelAttrView>,
    k: int,
    events: Seq<Result<EventFd, Errno>>,
    host: HostView,
    init: bool,
) -> bool {
    &&& channel matches Some(c)
    &&& c.is_new(memory, place(order, k, host), order[k].queue_attr(), host, init)
    &&& c.queue().shape().on_word()
    &&& c.event() == event_of(order, k, events)
}

/// The channel at position `k` of a group was just set up for the end that pops from it, by the
/// creator if `init`.
pub open spec fn is_new_consumer(
    channel: Option<ConsumerChannel<'_>>,
    memory: Seq<AtomicU32>,
    order: Seq<ChannelAttrView>,
    k: int,
    events: Seq<Result<EventFd, Errno>>,
    host: HostView,
    init: bool,
) -> bool {
    &&& channel matches Some(c)
    &&& c.is_new(memory, place(order, k, host), order[k].queue_attr(), host, init)
    &&& c.queue().shape().on_word()
    &&& c.event() == event_of(order, k, events)
}

/// The first `count` channels of a group were set up: where the next one goes, and what is left of
/// all events.
spec fn is_set_up(
    order: Seq<ChannelAttrView>,
    count: int,
    shm_size: nat,
    all: Seq<Result<EventFd, Errno>>,
    host: HostView,
    offset: usize,
    events: Seq<Result<EventFd, Errno>>,
) -> bool {
    &&& group_fault(order, shm_size, all, host, count as nat) is None
    &&& offset == place(order, count, host)
    &&& count_events(order.take(count)) <= all.len()
    &&& events == all.skip(count_events(order.take(count)) as int)
}

/// The next event, for a channel that has one.
fn take_event(wanted: bool, events: &mut VecDeque<Result<EventFd, Errno>>) -> (event: Result<
    Option<EventFd>,
    SetupFault,
>)
    ensures
        wanted ==> match event {
            Ok(e) => {
                &&& old(events)@.len() > 0
                &&& old(events)@[0] is Ok
                &&& e == Some(old(events)@[0]->Ok_0)
                &&& final(events)@ == old(events)@.skip(1)
            },
            Err(f) => if old(events)@.len() == 0 {
                f == SetupFault::MissingEvent
            } else {
                old(events)@[0] is Err && f == SetupFault::Resource(
                    ResourceError::Errno(old(events)@[0]->Err_0),
                )
            },
        },
        !wanted ==> {
            &&& event == Ok::<Option<EventFd>, SetupFault>(None)
            &&& final(events)@ == old(events)@
        },
{
    if !wanted {
        return Ok(None);
    }
    match events.pop_front() {
        Some(Ok(event)) => Ok(Some(event)),
        Some(Err(e)) => Err(SetupFault::Resource(ResourceError::from(e))),
        None => Err(SetupFault::MissingEvent),
    }
}

/// Sets up the next channel that this end pushes to.
fn set_up_producer<'a>(
    attr: &ChannelAttr,
    side: Side,
    shm: &SharedMemory<'a>,
    shm_offset: &mut usize,
    events: &mut VecDeque<Result<EventFd, Errno>>,
    host: &Host,
) -> (channel: Result<ProducerChannel<'a>, SetupFault>)
    requires
        shape_at(*old(shm_offset) as nat, attr@.queue_attr(), host@).on_word(),
    ensures
        match channel {
            Ok(c) => {
                &&& fault_of(attr@, *old(shm_offset) as nat, shm@, old(events)@, host@) is None
                &&& *final(shm_offset) == *old(shm_offset) + attr@.queue_attr().shm_size(host@)
                &&& final(events)@ == if attr@.eventfd {
                    old(events)@.skip(1)
                } else {
                    old(events)@
                }
                &&& c.is_new(
                    shm.words(),
                    *old(shm_offset) as nat,
                    attr@.queue_attr(),
                    host@,
                    side == Side::Creator,
                )
                &&& c.event() == if attr@.eventfd {
                    Some(old(events)@[0]->Ok_0)
                } else {
                    None
                }
            },
            Err(f) => fault_of(attr@, *old(shm_offset) as nat, shm@, old(events)@, host@) == Some(
                f,
            ),
        },
{
    let eventfd: Option<EventFd> = match take_event(attr.eventfd, events) {
        Ok(eventfd) => eventfd,
        Err(fault) => return Err(fault),
    };
    let channel: Result<ProducerChannel<'a>, ResourceError> = match side {
        Side::Creator => ProducerChannel::allocate(attr, eventfd, shm, shm_offset, host),
        Side::Receiver => ProducerChannel::new(
            &attr.to_queue_attr(),
            eventfd,
            shm,
            shm_offset,
            host,
        ),
    };
    match channel {
        Ok(channel) => Ok(channel),
        Err(e) => Err(SetupFault::Resource(e)),
    }
}

/// Sets up all channels that this end pushes to; `start` channels of the group are in front of
/// them.
fn set_up_producers<'a>(
    attrs: &Vec<ChannelAttr>,
    side: Side,
    shm: &SharedMemory<'a>,
    shm_offset: &mut usize,
    events: &mut VecDeque<Result<EventFd, Errno>>,
    host: &Host,
    Ghost(order): Ghost<Seq<ChannelAttrView>>,
    Ghost(start): Ghost<int>,
    Ghost(all): Ghost<Seq<Result<EventFd, Errno>>>,
) -> (channels: Result<Vec<Option<ProducerChannel<'a>>>, SetupFault>)
    requires
        0 <= start,
        start + attrs@.len() <= order.len(),
        order.subrange(start, start + attrs@.len()) == channel_views(attrs@),
        is_set_up(order, start, shm@, all, host@, *old(shm_offset), old(events)@),
    ensures
        match channels {
            Ok(c) => {
                &&& c@.len() == attrs@.len()
                &&& forall|i: int|
                    #![trigger c@[i]]
                    0 <= i < c@.len() ==> is_new_producer(
                        c@[i],
                        shm.words(),
                        order,
                        start + i,
                        all,
                        host@,
                        side == Side::Creator,
                    )
                &&& is_set_up(
                    order,
                    start + attrs@.len(),
                    shm@,
                    all,
                    host@,
                    *final(shm_offset),
                    final(events)@,
                )
            },
            Err(f) => group_fault(order, shm@, all, host@, order.len()) == Some(f),
        },
{
    let mut channels: Vec<Option<ProducerChannel<'a>>> = Vec::new();
    let cacheline_size: u16 = host.cacheline_size();
    let mut i: usize = 0;
    while i < attrs.len()
        invariant
            i <= attrs@.len(),
            0 <= start,
            start + attrs@.len() <= order.len(),
            order.subrange(start, start + attrs@.len()) == channel_views(attrs@),
            host@.is_valid(),
            is_set_up(order, start + i, shm@, all, host@, *shm_offset, events@),
            channels@.len() == i,
            forall|k: int|
                #![trigger channels@[k]]
                0 <= k < i ==> is_new_producer(
                    channels@[k],
                    shm.words(),
                    order,
                    start + k,
                    all,
                    host@,
                    side == Side::Creator,
                ),
        decreases attrs@.len() - i,
    {
        let ghost k = start + i;
        proof {
            assert(order[k] == order.subrange(start, start + attrs@.len())[i as int]);
            lemma_first_channels(order, k, host@);
            law_queues_start_on_words(order, k, host@);
        }
        let channel: ProducerChannel<'a> = match set_up_producer(
            &attrs[i],
            side,
            shm,
            shm_offset,
            events,
            host,
        ) {
            Ok(channel) => channel,
            Err(fault) => {
                proof {
                    lemma_fault_stays(
                        order,
                        shm@,
                        all,
                        host@,
                        (k + 1) as nat,
                        order.len(),
                        fault,
                    );
                }
                return Err(fault);
            },
        };
        channels.push(Some(channel));
        i = i + 1;
        assert(events@ =~= all.skip(count_events(order.take(k + 1)) as int));
    }
    Ok(channels)
}

/// Sets up the next channel that this end pops from.
fn set_up_consumer<'a>(
    attr: &ChannelAttr,
    side: Side,
    shm: &SharedMemory<'a>,
    shm_offset: &mut usize,
    events: &mut VecDeque<Result<EventFd, Errno>>,
    host: &Host,
) -> (channel: Result<ConsumerChannel<'a>, SetupFault>)
    requires
        shape_at(*old(shm_offset) as nat, attr@.queue_attr(), host@).on_word(),
    ensures
        match channel {
            Ok(c) => {
                &&& fault_of(attr@, *old(shm_offset) as nat, shm@, old(events)@, host@) is None
                &&& *final(shm_offset) == *old(shm_offset) + attr@.queue_attr().shm_size(host@)
                &&& final(events)@ == if attr@.eventfd {
                    old(events)@.skip(1)
                } else {
                    old(events)@
                }
                &&& c.is_new(
                    shm.words(),
                    *old(shm_offset) as nat,
                    attr@.queue_attr(),
                    host@,
                    side == Side::Creator,
                )
                &&& c.event() == if attr@.eventfd {
                    Some(old(events)@[0]->Ok_0)
                } else {
                    None
                }
            },
            Err(f) => fault_of(attr@, *old(shm_offset) as nat, shm@, old(events)@, host@) == Some(
                f,
            ),
        },
{
    let eventfd: Option<EventFd> = match take_event(attr.eventfd, events) {
        Ok(eventfd) => eventfd,
        Err(fault) => return Err(fault),
    };
    let channel: Result<ConsumerChannel<'a>, ResourceError> = match side {
        Side::Creator => ConsumerChannel::allocate(attr, eventfd, shm, shm_offset, host),
        Side::Receiver => ConsumerChannel::new(
            &attr.to_queue_attr(),
            eventfd,
            shm,
            shm_offset,
            host,
        ),
    };
    match channel {
        Ok(channel) => Ok(channel),
        Err(e) => Err(SetupFault::Resource(e)),
    }
}

/// Sets up all channels that this end pops from; `start` channels of the group are in front of
/// them.
fn set_up_consumers<'a>(
    attrs: &Vec<ChannelAttr>,
    side: Side,
    shm: &SharedMemory<'a>,
    shm_offset: &mut usize,
    events: &mut VecDeque<Result<EventFd, Errno>>,
    host: &Host,
    Ghost(order): Ghost<Seq<ChannelAttrView>>,
    Ghost(start): Ghost<int>,
    Ghost(all): Ghost<Seq<Result<EventFd, Errno>>>,
) -> (channels: Result<Vec<Option<ConsumerChannel<'a>>>, SetupFault>)
    requires
        0 <= start,
        start + attrs@.len() <= order.len(),
        order.subrange(start, start + attrs@.len()) == channel_views(attrs@),
        is_set_up(order, start, shm@, all, host@, *old(shm_offset), old(events)@),
    ensures
        match channels {
            Ok(c) => {
                &&& c@.len() == attrs@.len()
                &&& forall|i: int|
                    #![trigger c@[i]]
                    0 <= i < c@.len() ==> is_new_consumer(
                        c@[i],
                        shm.words(),
                        order,
                        start + i,
                        all,
                        host@,
                        side == Side::Creator,
                    )
                &&& is_set_up(
                    order,
                    start + attrs@.len(),
                    shm@,
                    all,
                    host@,
                    *final(shm_offset),
                    final(events)@,
                )
            },
            Err(f) => group_fault(order, shm@, all, host@, order.len()) == Some(f),
        },
{
    let mut channels: Vec<Option<ConsumerChannel<'a>>> = Vec::new();
    let cacheline_size: u16 = host.cacheline_size();
    let mut i: usize = 0;
    while i < attrs.len()
        invariant
            i <= attrs@.len(),
            0 <= start,
            start + attrs@.len() <= order.len(),
            order.subrange(start, start + attrs@.len()) == channel_views(attrs@),
            host@.is_valid(),
            is_set_up(order, start + i, shm@, all, host@, *shm_offset, events@),
            channels@.len() == i,
            forall|k: int|
                #![trigger channels@[k]]
                0 <= k < i ==> is_new_consumer(
                    channels@[k],
                    shm.words(),
                    order,
                    start + k,
                    all,
                    host@,
                    side == Side::Creator,
                ),
        decreases attrs@.len() - i,
    {
        let ghost k = start + i;
        proof {
            assert(order[k] == order.subrange(start, start + attrs@.len())[i as int]);
            lemma_first_channels(order, k, host@);
            law_queues_start_on_words(order, k, host@);
        }
        let channel: ConsumerChannel<'a> = match set_up_consumer(
            &attrs[i],
            side,
            shm,
            shm_offset,
            events,
            host,
        ) {
            Ok(channel) => channel,
            Err(fault) => {
                proof {
                    lemma_fault_stays(
                        order,
                        shm@,
                        all,
                        host@,
                        (k + 1) as nat,
                        order.len(),
                        fault,
                    );
                }
                return Err(fault);
            },
        };
        channels.push(Some(channel));
        i = i + 1;
        assert(events@ =~= all.skip(count_events(order.take(k + 1)) as int));
    }
    Ok(channels)
}

/// A group of channels. Each channel is there until it is acquired.
pub struct ChannelGroup<'a> {
    attr: GroupAttr,
    producers: Vec<Option<ProducerChannel<'a>>>,
    consumers: Vec<Option<ConsumerChannel<'a>>>,
}

/// The fault of an end that creates its events itself.
pub open spec fn as_resource_error(fault: SetupFault) -> ResourceError {
    match fault {
        SetupFault::MissingEvent => ResourceError::InvalidArgument,
        SetupFault::Resource(e) => e,
    }
}

/// The fault of an end that was sent its events.
pub open spec fn as_transfer_error(fault: SetupFault) -> TransferError {
    match fault {
        SetupFault::MissingEvent => TransferError::MissingFileDescriptor,
        SetupFault::Resource(e) => TransferError::ResourceError(e),
    }
}

/// What an option holds.
pub open spec fn events_in(event: Option<EventFd>) -> Seq<EventFd> {
    match event {
        Some(e) => seq![e],
        None => seq![],
    }
}

/// The events of the channels that are there, in their order.
pub open spec fn producer_events(channels: Seq<Option<ProducerChannel<'_>>>) -> Seq<EventFd>
    decreases channels.len(),
{
    if channels.len() == 0 {
        seq![]
    } else {
        producer_events(channels.drop_last()) + match channels.last() {
            Some(channel) => events_in(channel.event()),
            None => seq![],
        }
    }
}

/// The events of the channels that are there, in their order.
pub open spec fn consumer_events(channels: Seq<Option<ConsumerChannel<'_>>>) -> Seq<EventFd>
    decreases channels.len(),
{
    if channels.len() == 0 {
        seq![]
    } else {
        consumer_events(channels.drop_last()) + match channels.last() {
            Some(channel) => events_in(channel.event()),
            None => seq![],
        }
    }
}

/// The events that are referred to.
pub open spec fn plain(eventfds: Seq<&EventFd>) -> Seq<EventFd> {
    eventfds.map_values(|e: &EventFd| *e)
}

impl<'a> ChannelGroup<'a> {
    pub closed spec fn attr(&self) -> GroupAttrView {
        self.attr@
    }

    pub closed spec fn producers(&self) -> Seq<Option<ProducerChannel<'a>>> {
        self.producers@
    }

    pub closed spec fn consumers(&self) -> Seq<Option<ConsumerChannel<'a>>> {
        self.consumers@
    }

    /// The group was just set up at one end, in these words of shared memory and with these events.
    pub open spec fn is_new(
        &self,
        attr: GroupAttrView,
        side: Side,
        memory: Seq<AtomicU32>,
        events: Seq<Result<EventFd, Errno>>,
        host: HostView,
    ) -> bool {
        &&& self.attr() == attr
        &&& self.producers().len() == attr.producers.len()
        &&& self.consumers().len() == attr.consumers.len()
        &&& forall|i: int|
            #![trigger self.producers()[i]]
            0 <= i < attr.producers.len() ==> is_new_producer(
                self.producers()[i],
                memory,
                attr.order(side),
                attr.position(side, Role::Producer, i),
                events,
                host,
                side == Side::Creator,
            )
        &&& forall|i: int|
            #![trigger self.consumers()[i]]
            0 <= i < attr.consumers.len() ==> is_new_consumer(
                self.consumers()[i],
                memory,
                attr.order(side),
                attr.position(side, Role::Consumer, i),
                events,
                host,
                side == Side::Creator,
            )
    }

    /// Sets up the channels in their order in shared memory.
    fn set_up(
        attr: GroupAttr,
        side: Side,
        shm: &SharedMemory<'a>,
        events: VecDeque<Result<EventFd, Errno>>,
        host: &Host,
    ) -> (group: Result<ChannelGroup<'a>, SetupFault>)
        ensures
            match group {
                Ok(g) => {
                    &&& group_fault(
                        attr@.order(side),
                        shm@,
                        events@,
                        host@,
                        attr@.order(side).len(),
                    ) is None
                    &&& g.is_new(attr@, side, shm.words(), events@, host@)
                },
                Err(f) => group_fault(
                    attr@.order(side),
                    shm@,
                    events@,
                    host@,
                    attr@.order(side).len(),
                ) == Some(f),
            },
    {
        let ghost order = attr@.order(side);
        let ghost all = events@;
        let mut events: VecDeque<Result<EventFd, Errno>> = events;
        let mut shm_offset: usize = 0;
        proof {
            let p = attr@.producers.len() as int;
            let c = attr@.consumers.len() as int;
            assert(order.take(0) =~= Seq::<ChannelAttrView>::empty());
            assert(events@ =~= all.skip(0));
            match side {
                Side::Creator => {
                    assert(order.subrange(0, p) =~= attr@.producers);
                    assert(order.subrange(p, p + c) =~= attr@.consumers);
                },
                Side::Receiver => {
                    assert(order.subrange(0, c) =~= attr@.consumers);
                    assert(order.subrange(c, c + p) =~= attr@.producers);
                },
            }
        }
        let producers: Vec<Option<ProducerChannel<'a>>>;
        let consumers: Vec<Option<ConsumerChannel<'a>>>;
        match side {
            Side::Creator => {
                producers =
                match set_up_producers(
                    &attr.producers,
                    side,
                    shm,
                    &mut shm_offset,
                    &mut events,
                    host,
                    Ghost(order),
                    Ghost(0int),
                    Ghost(all),
                ) {
                    Ok(channels) => channels,
                    Err(fault) => return Err(fault),
                };
                consumers =
                match set_up_consumers(
                    &attr.consumers,
                    side,
                    shm,
                    &mut shm_offset,
                    &mut events,
                    host,
                    Ghost(order),
                    Ghost(attr@.producers.len() as int),
                    Ghost(all),
                ) {
                    Ok(channels) => channels,
                    Err(fault) => return Err(fault),
                };
            },
            Side::Receiver => {
                consumers =
                match set_up_consumers(
                    &attr.consumers,
                    side,
                    shm,
                    &mut shm_offset,
                    &mut events,
                    host,
                    Ghost(order),
                    Ghost(0int),
                    Ghost(all),
                ) {
                    Ok(channels) => channels,
                    Err(fault) => return Err(fault),
                };
                producers =
                match set_up_producers(
                    &attr.producers,
                    side,
                    shm,
                    &mut shm_offset,
                    &mut events,
                    host,
                    Ghost(order),
                    Ghost(attr@.consumers.len() as int),
                    Ghost(all),
                ) {
                    Ok(channels) => channels,
                    Err(fault) => return Err(fault),
                };
            },
        }
        Ok(ChannelGroup { attr, producers, consumers })
    }

    /// Bytes of shared memory that a group needs. A group without channels cannot be created, nor
    /// one that needs more bytes than can be counted.
    pub fn memory_size(attr: &GroupAttr, host: &Host) -> (size: Result<NonZeroSize, ResourceError>)
        ensures
            match size {
                Ok(s) => s@ == attr@.shm_size(host@) && attr@.shm_size(host@) > 0,
                Err(e) => {
                    &&& attr@.shm_size(host@) == 0 || attr@.shm_size(host@) > usize::MAX
                    &&& e == ResourceError::InvalidArgument
                },
            },
    {
        let size: usize = match attr.checked_shm_size(host) {
            Some(size) => size,
            None => return Err(ResourceError::InvalidArgument),
        };
        match NonZeroSize::new(size) {
            Some(size) => Ok(size),
            None => Err(ResourceError::InvalidArgument),
        }
    }

    /// Creates a group in shared memory, of `memory_size`, that no one else uses yet. A group
    /// without channels cannot be created. There is to be one event, or what kept it from being
    /// created, for each channel that has one.
    pub fn from_attr(
        attr: &GroupAttr,
        shm: &SharedMemory<'a>,
        events: VecDeque<Result<EventFd, Errno>>,
        host: &Host,
    ) -> (group: Result<ChannelGroup<'a>, ResourceError>)
        ensures
            ({
                let order = attr@.order(Side::Creator);
                let fault = group_fault(order, shm@, events@, host@, order.len());
                match group {
                    Ok(g) => {
                        &&& attr@.shm_size(host@) > 0
                        &&& fault is None
                        &&& g.is_new(attr@, Side::Creator, shm.words(), events@, host@)
                    },
                    Err(e) => if attr@.shm_size(host@) == 0 {
                        e == ResourceError::InvalidArgument
                    } else {
                        fault matches Some(f) && e == as_resource_error(f)
                    },
                }
            }),
    {
        if let Some(0) = attr.checked_shm_size(host) {
            return Err(ResourceError::InvalidArgument);
        }
        match ChannelGroup::set_up(attr.clone(), Side::Creator, shm, events, host) {
            Ok(group) => Ok(group),
            Err(SetupFault::MissingEvent) => Err(ResourceError::InvalidArgument),
            Err(SetupFault::Resource(e)) => Err(e),
        }
    }

    /// Reads a request that came with `fds` file descriptors, before the first of them is mapped.
    pub fn read_request(request: &[u8], fds: usize, host: &Host) -> (attr: Result<
        GroupAttr,
        TransferError,
    >)
        ensures
            match parsed(host@, request@) {
                Ok(group) => if fds <= count_events(group.consumers) {
                    attr == Err::<GroupAttr, TransferError>(TransferError::MissingFileDescriptor)
                } else {
                    attr matches Ok(a) && a@ == group
                },
                Err(e) => attr == Err::<GroupAttr, TransferError>(TransferError::RequestError(e)),
            },
    {
        let attr: GroupAttr = match parse_request(request, host) {
            Ok(attr) => attr,
            Err(e) => return Err(TransferError::from(e)),
        };
        if fds <= attr.count_consumer_eventfds() {
            return Err(TransferError::MissingFileDescriptor);
        }
        Ok(attr)
    }

    /// Takes over a group that the other end has created in shared memory. The events, or what
    /// keeps them from being used, are those that were sent behind the shared memory.
    pub fn deserialize(
        attr: GroupAttr,
        shm: &SharedMemory<'a>,
        events: VecDeque<Result<EventFd, Errno>>,
        host: &Host,
    ) -> (group: Result<ChannelGroup<'a>, TransferError>)
        ensures
            ({
                let order = attr@.order(Side::Receiver);
                let fault = group_fault(order, shm@, events@, host@, order.len());
                match group {
                    Ok(g) => {
                        &&& fault is None
                        &&& g.is_new(attr@, Side::Receiver, shm.words(), events@, host@)
                    },
                    Err(e) => fault matches Some(f) && e == as_transfer_error(f),
                }
            }),
    {
        match ChannelGroup::set_up(attr, Side::Receiver, shm, events, host) {
            Ok(group) => Ok(group),
            Err(SetupFault::MissingEvent) => Err(TransferError::MissingFileDescriptor),
            Err(SetupFault::Resource(e)) => Err(TransferError::from(e)),
        }
    }

    /// Takes a channel that this end pushes to out of the group. There is none at other positions
    /// and after it was taken. If its messages are too small for `T` there is none either, and the
    /// channel is lost.
    pub fn acquire_producer<T: Copy>(&mut self, index: usize) -> (producer: Option<Producer<'a, T>>)
        ensures
            final(self).attr() == old(self).attr(),
            final(self).consumers() == old(self).consumers(),
            final(self).producers() == if index < old(self).producers().len() {
                old(self).producers().update(index as int, None)
            } else {
                old(self).producers()
            },
            match producer {
                Some(c) => {
                    &&& index < old(self).producers().len()
                    &&& old(self).producers()[index as int] matches Some(channel)
                    &&& vstd::layout::size_of::<T>() <= channel.queue().shape().message_size
                    &&& c.queue() == channel.queue()
                    &&& c.event() == channel.event()
                    &&& c.cached() is None
                },
                None => {
                    ||| index >= old(self).producers().len()
                    ||| old(self).producers()[index as int] is None
                    ||| old(self).producers()[index as int]->0.queue().shape().message_size
                        < vstd::layout::size_of::<T>()
                },
            },
    {
        if index >= self.producers.len() {
            return None;
        }
        let mut channel: Option<ProducerChannel<'a>> = None;
        self.producers.set_and_swap(index, &mut channel);
        match channel {
            Some(channel) => match Producer::new(channel) {
                Ok(producer) => Some(producer),
                Err(_) => None,
            },
            None => None,
        }
    }

    /// Takes a channel that this end pops from out of the group. There is none at other positions
    /// and after it was taken. If its messages are too small for `T` there is none either, and the
    /// channel is lost.
    pub fn acquire_consumer<T: Copy>(&mut self, index: usize) -> (consumer: Option<Consumer<'a, T>>)
        ensures
            final(self).attr() == old(self).attr(),
            final(self).producers() == old(self).producers(),
            final(self).consumers() == if index < old(self).consumers().len() {
                old(self).consumers().update(index as int, None)
            } else {
                old(self).consumers()
            },
            match consumer {
                Some(c) => {
                    &&& index < old(self).consumers().len()
                    &&& old(self).consumers()[index as int] matches Some(channel)
                    &&& vstd::layout::size_of::<T>() <= channel.queue().shape().message_size
                    &&& c.queue() == channel.queue()
                    &&& c.event() == channel.event()
                },
                None => {
                    ||| index >= old(self).consumers().len()
                    ||| old(self).consumers()[index as int] is None
                    ||| old(self).consumers()[index as int]->0.queue().shape().message_size
                        < vstd::layout::size_of::<T>()
                },
            },
    {
        if index >= self.consumers.len() {
            return None;
        }
        let mut channel: Option<ConsumerChannel<'a>> = None;
        self.consumers.set_and_swap(index, &mut channel);
        match channel {
            Some(channel) => match Consumer::new(channel) {
                Ok(consumer) => Some(consumer),
                Err(_) => None,
            },
            None => None,
        }
    }

    pub fn get_attr(&self) -> (attr: &GroupAttr)
        ensures
            attr@ == self.attr(),
    {
        &self.attr
    }

    /// The events of the channels that were not acquired: first of those that this end pushes to,
    /// then of those that it pops from.
    fn collect_eventfds(&self) -> (eventfds: Vec<&EventFd>)
        ensures
            plain(eventfds@) == producer_events(self.producers()) + consumer_events(
                self.consumers(),
            ),
    {
        let mut eventfds: Vec<&EventFd> = Vec::new();
        let mut i: usize = 0;
        let ghost before = eventfds@;
        assert(producer_events(self.producers@.take(0)) =~= Seq::<EventFd>::empty());
        while i < self.producers.len()
            invariant
                i <= self.producers@.len(),
                plain(eventfds@) =~= plain(before) + producer_events(
                    self.producers@.take(i as int),
                ),
            decreases self.producers@.len() - i,
        {
            let ghost earlier = plain(eventfds@);
            assert(self.producers@.take(i + 1).drop_last() =~= self.producers@.take(i as int));
            if let Some(channel) = &self.producers[i] {
                if let Some(eventfd) = channel.eventfd() {
                    eventfds.push(eventfd);
                }
            }
            assert(plain(eventfds@) =~= earlier + match self.producers@[i as int] {
                Some(channel) => events_in(channel.event()),
                None => seq![],
            });
            i = i + 1;
        }
        assert(self.producers@.take(i as int) =~= self.producers@);
        i = 0;
        let ghost before = eventfds@;
        assert(consumer_events(self.consumers@.take(0)) =~= Seq::<EventFd>::empty());
        while i < self.consumers.len()
            invariant
                i <= self.consumers@.len(),
                plain(eventfds@) =~= plain(before) + consumer_events(
                    self.consumers@.take(i as int),
                ),
            decreases self.consumers@.len() - i,
        {
            let ghost earlier = plain(eventfds@);
            assert(self.consumers@.take(i + 1).drop_last() =~= self.consumers@.take(i as int));
            if let Some(channel) = &self.consumers[i] {
                if let Some(eventfd) = channel.eventfd() {
                    eventfds.push(eventfd);
                }
            }
            assert(plain(eventfds@) =~= earlier + match self.consumers@[i as int] {
                Some(channel) => events_in(channel.event()),
                None => seq![],
            });
            i = i + 1;
        }
        assert(self.consumers@.take(i as int) =~= self.consumers@);
        eventfds
    }

    /// The request that offers this group to the other end, and the events that are to be sent
    /// behind the shared memory.
    pub fn serialize(&self, host: &Host) -> (message: (Vec<u8>, Vec<&EventFd>))
        requires
            request_size(self.attr()) <= isize::MAX,
        ensures
            message.0@ == request_bytes(host@, self.attr()),
            plain(message.1@) == producer_events(self.producers()) + consumer_events(
                self.consumers(),
            ),
    {
        let request: Vec<u8> = create_request(&self.attr, host);
        (request, self.collect_eventfds())
    }
}

} // verus!
