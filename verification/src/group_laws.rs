//! What holds of groups of channels at both ends.
use crate::attr::{
    count_events, lemma_first_channels, lemma_sizes, total_size, ChannelAttrView, GroupAttrView,
    QueueAttrView,
};
use crate::channel::{ConsumerChannel, ProducerChannel};
use crate::error::{RequestError, ResourceError, ShmMapError, TransferError};
use crate::group::{
    as_resource_error, as_transfer_error, consumer_events, event_of, events_in, group_fault,
    is_new_consumer, is_new_producer, place, producer_events, ChannelGroup, Role, SetupFault, Side,
};
use crate::host::{law_round_up, HostView};
use crate::index::INDEX_SIZE;
use crate::protocol_laws::{group_fits, law_request_round_trip};
use crate::protocol_spec::{parsed, request_bytes};
use crate::queue::shape_at;
use nix::errno::Errno;
use nix::sys::eventfd::EventFd;
use std::sync::atomic::AtomicU32;
use vstd::prelude::*;

verus! {

/// Both ends put the channels of a group in the same order.
pub proof fn law_ends_agree_on_order(group: GroupAttrView, index: int)
    ensures
        group.mirrored().order(Side::Receiver) == group.order(Side::Creator),
        group.mirrored().position(Side::Receiver, Role::Consumer, index) == group.position(
            Side::Creator,
            Role::Producer,
            index,
        ),
        group.mirrored().position(Side::Receiver, Role::Producer, index) == group.position(
            Side::Creator,
            Role::Consumer,
            index,
        ),
{
}

/// A channel that one end pushes to is, at the other end, one that is popped from, and its queue
/// is at the same place in the memory that each has mapped.
pub proof fn law_ends_share_queues(
    creator: ChannelGroup<'_>,
    receiver: ChannelGroup<'_>,
    group: GroupAttrView,
    memory: Seq<AtomicU32>,
    mapped: Seq<AtomicU32>,
    events: Seq<Result<EventFd, Errno>>,
    received: Seq<Result<EventFd, Errno>>,
    host: HostView,
    index: int,
)
    requires
        creator.is_new(group, Side::Creator, memory, events, host),
        receiver.is_new(group.mirrored(), Side::Receiver, mapped, received, host),
    ensures
        0 <= index < group.producers.len() ==> creator.producers()[index]->0.queue().shape()
            == receiver.consumers()[index]->0.queue().shape(),
        0 <= index < group.consumers.len() ==> creator.consumers()[index]->0.queue().shape()
            == receiver.producers()[index]->0.queue().shape(),
{
    law_ends_agree_on_order(group, index);
    if 0 <= index < group.producers.len() {
        let p = creator.producers()[index];
        let c = receiver.consumers()[index];
        assert(p is Some && c is Some);
    }
    if 0 <= index < group.consumers.len() {
        let c = creator.consumers()[index];
        let p = receiver.producers()[index];
        assert(p is Some && c is Some);
    }
}

/// The queues of a group are next to each other, in the memory that the group asks for.
pub proof fn law_queues_are_apart(order: Seq<ChannelAttrView>, j: int, k: int, host: HostView)
    requires
        0 <= j < k < order.len(),
    ensures
        place(order, j, host) + order[j].queue_attr().shm_size(host) <= place(order, k, host),
        place(order, k, host) + order[k].queue_attr().shm_size(host) <= total_size(order, host),
{
    lemma_first_channels(order, j, host);
    lemma_first_channels(order, k, host);
    lemma_first_channels(order.take(k), j + 1, host);
    assert(order.take(k).take(j + 1) =~= order.take(j + 1));
}

/// The parts of a queue do not overlap, and they lie in the bytes that the queue takes: first the
/// words, then the message slots.
pub proof fn law_slots_are_apart(
    offset: nat,
    attr: QueueAttrView,
    host: HostView,
    i: int,
    j: int,
)
    requires
        host.is_valid(),
        offset % INDEX_SIZE as nat == 0,
        0 <= i < j < attr.slots(),
    ensures
        ({
            let shape = shape_at(offset, attr, host);
            &&& offset == shape.tail * INDEX_SIZE
            &&& (shape.tail + 2 + shape.slots) * INDEX_SIZE <= shape.message(0)
            &&& shape.message(0) <= shape.message(i)
            &&& shape.message(i) + shape.message_size <= shape.message(j)
            &&& shape.message(j) + shape.message_size <= offset + attr.shm_size(host)
        }),
{
    let shape = shape_at(offset, attr, host);
    lemma_sizes(attr, host);
    let stride = shape.stride as int;
    let slots = attr.slots() as int;
    assert(i * stride + stride <= j * stride) by (nonlinear_arith)
        requires
            i < j,
            stride >= 0,
    ;
    assert(j * stride + stride <= slots * stride) by (nonlinear_arith)
        requires
            j < slots,
            stride >= 0,
    ;
    assert(0 * stride <= i * stride) by (nonlinear_arith)
        requires
            0 <= i,
            stride >= 0,
    ;
}

/// Multiples of a number add up to a multiple of it.
proof fn lemma_multiples_add(a: nat, b: nat, n: nat)
    requires
        n > 0,
        a % n == 0,
        b % n == 0,
    ensures
        (a + b) % n == 0,
{
    vstd::arithmetic::div_mod::lemma_add_mod_noop(a as int, b as int, n as int);
    vstd::arithmetic::div_mod::lemma_small_mod(0, n);
}

/// The bytes of a queue are whole cachelines.
proof fn lemma_queue_is_aligned(attr: QueueAttrView, host: HostView)
    requires
        host.is_valid(),
    ensures
        attr.stride(host) % host.cacheline_size == 0,
        attr.queue_size(host) % host.cacheline_size == 0,
        attr.shm_size(host) % host.cacheline_size == 0,
{
    let n = host.cacheline_size;
    law_round_up(attr.message_size, n);
    law_round_up((2 + attr.slots()) * INDEX_SIZE as nat, n);
    let slots = attr.slots();
    vstd::arithmetic::div_mod::lemma_mul_mod_noop_right(
        slots as int,
        attr.stride(host) as int,
        n as int,
    );
    assert(attr.data_size(host) % n == 0) by {
        assert(slots * 0 == 0);
        vstd::arithmetic::div_mod::lemma_small_mod(0, n);
    }
    lemma_multiples_add(attr.queue_size(host), attr.data_size(host), n);
}

/// Every queue of a group, and every message slot in it, starts on a cacheline of its own.
pub proof fn law_places_are_aligned(order: Seq<ChannelAttrView>, k: int, slot: int, host: HostView)
    requires
        host.is_valid(),
        0 <= k < order.len(),
        0 <= slot,
    ensures
        place(order, k, host) % host.cacheline_size == 0,
        shape_at(place(order, k, host), order[k].queue_attr(), host).message(slot)
            % host.cacheline_size as int == 0,
    decreases k,
{
    let n = host.cacheline_size;
    let attr = order[k].queue_attr();
    if k == 0 {
        assert(order.take(0) =~= Seq::<ChannelAttrView>::empty());
    } else {
        law_places_are_aligned(order, k - 1, slot, host);
        lemma_first_channels(order, k - 1, host);
        lemma_queue_is_aligned(order[k - 1].queue_attr(), host);
        lemma_multiples_add(
            place(order, k - 1, host),
            order[k - 1].queue_attr().shm_size(host),
            n,
        );
    }
    lemma_queue_is_aligned(attr, host);
    let stride = attr.stride(host);
    vstd::arithmetic::div_mod::lemma_mul_mod_noop_right(slot, stride as int, n as int);
    assert((slot * stride) as nat % n == 0) by {
        assert(slot * 0 == 0);
        vstd::arithmetic::div_mod::lemma_small_mod(0, n);
        assert(slot * stride >= 0) by (nonlinear_arith)
            requires
                slot >= 0,
                stride >= 0,
        ;
    }
    lemma_multiples_add(place(order, k, host), attr.queue_size(host), n);
    lemma_multiples_add(
        place(order, k, host) + attr.queue_size(host),
        (slot * stride) as nat,
        n,
    );
}

/// What is a multiple of a cacheline is a multiple of a word, if a cacheline is.
proof fn lemma_word_aligned(a: nat, n: nat)
    requires
        n > 0,
        n % INDEX_SIZE as nat == 0,
        a % n == 0,
    ensures
        a % INDEX_SIZE as nat == 0,
{
    vstd::arithmetic::div_mod::lemma_fundamental_div_mod(a as int, n as int);
    vstd::arithmetic::div_mod::lemma_mul_mod_noop_left(
        n as int,
        a as int / n as int,
        INDEX_SIZE as int,
    );
    assert(0 * (a as int / n as int) == 0);
}

/// Every queue of a group starts on a word.
pub proof fn law_queues_start_on_words(order: Seq<ChannelAttrView>, k: int, host: HostView)
    requires
        host.is_valid(),
        0 <= k < order.len(),
    ensures
        shape_at(place(order, k, host), order[k].queue_attr(), host).on_word(),
{
    law_places_are_aligned(order, k, 0, host);
    lemma_word_aligned(place(order, k, host), host.cacheline_size);
}

/// With an event for each channel that has one, and at least as much memory as the group asks
/// for, all channels of a group can be set up.
pub proof fn law_group_can_be_set_up(
    order: Seq<ChannelAttrView>,
    shm_size: nat,
    events: Seq<Result<EventFd, Errno>>,
    host: HostView,
    count: nat,
)
    requires
        total_size(order, host) <= shm_size,
        count_events(order) <= events.len(),
        forall|n: int| 0 <= n < events.len() ==> #[trigger] events[n] is Ok,
        count <= order.len(),
    ensures
        group_fault(order, shm_size, events, host, count) is None,
    decreases count,
{
    if count > 0 {
        let k = count - 1;
        law_group_can_be_set_up(order, shm_size, events, host, k as nat);
        lemma_first_channels(order, k, host);
        lemma_first_channels(order, k + 1, host);
        let left = events.skip(count_events(order.take(k)) as int);
        if order[k].eventfd {
            assert(left[0] == events[count_events(order.take(k)) as int]);
        }
    }
}

/// Counting and adding up over two rows of channels.
pub(crate) proof fn lemma_joined(
    first: Seq<ChannelAttrView>,
    second: Seq<ChannelAttrView>,
    host: HostView,
)
    ensures
        count_events(first + second) == count_events(first) + count_events(second),
        total_size(first + second, host) == total_size(first, host) + total_size(second, host),
    decreases second.len(),
{
    if second.len() == 0 {
        assert(first + second =~= first);
    } else {
        lemma_joined(first, second.drop_last(), host);
        assert((first + second).drop_last() =~= first + second.drop_last());
    }
}

/// The first `count` of the events that could be had.
pub open spec fn first_events(events: Seq<Result<EventFd, Errno>>, count: nat) -> Seq<EventFd> {
    Seq::new(count, |n: int| events[n]->Ok_0)
}

/// The events that arrive when these are sent.
pub open spec fn arrived(sent: Seq<EventFd>) -> Seq<Result<EventFd, Errno>> {
    Seq::new(sent.len(), |n: int| Ok::<EventFd, Errno>(sent[n]))
}

/// The events of the first channels that the creator pushes to.
proof fn lemma_producer_events(
    creator: ChannelGroup<'_>,
    group: GroupAttrView,
    memory: Seq<AtomicU32>,
    events: Seq<Result<EventFd, Errno>>,
    host: HostView,
    count: int,
)
    requires
        creator.is_new(group, Side::Creator, memory, events, host),
        0 <= count <= group.producers.len(),
    ensures
        producer_events(creator.producers().take(count)) == first_events(
            events,
            count_events(group.order(Side::Creator).take(count)),
        ),
    decreases count,
{
    let order = group.order(Side::Creator);
    let some = creator.producers().take(count);
    if count == 0 {
        assert(order.take(0) =~= Seq::<ChannelAttrView>::empty());
        assert(producer_events(some) =~= first_events(events, 0));
    } else {
        let i = count - 1;
        lemma_producer_events(creator, group, memory, events, host, i);
        lemma_first_channels(order, i, host);
        assert(some.drop_last() =~= creator.producers().take(i));
        assert(some.last() == creator.producers()[i]);
        assert(is_new_producer(creator.producers()[i], memory, order, i, events, host, true));
        assert(producer_events(some) =~= first_events(events, count_events(order.take(count))));
    }
}

/// The events of all channels that the creator pushes to, and of the first that it pops from.
proof fn lemma_consumer_events(
    creator: ChannelGroup<'_>,
    group: GroupAttrView,
    memory: Seq<AtomicU32>,
    events: Seq<Result<EventFd, Errno>>,
    host: HostView,
    count: int,
)
    requires
        creator.is_new(group, Side::Creator, memory, events, host),
        0 <= count <= group.consumers.len(),
    ensures
        producer_events(creator.producers()) + consumer_events(creator.consumers().take(count))
            == first_events(
            events,
            count_events(group.order(Side::Creator).take(group.producers.len() + count)),
        ),
    decreases count,
{
    let order = group.order(Side::Creator);
    let producers = group.producers.len() as int;
    let pushed = producer_events(creator.producers());
    let some = creator.consumers().take(count);
    if count == 0 {
        lemma_producer_events(creator, group, memory, events, host, producers);
        assert(creator.producers().take(producers) =~= creator.producers());
        assert(pushed + consumer_events(some) =~= pushed);
    } else {
        let i = count - 1;
        let k = producers + i;
        lemma_consumer_events(creator, group, memory, events, host, i);
        lemma_first_channels(order, k, host);
        assert(some.drop_last() =~= creator.consumers().take(i));
        assert(some.last() == creator.consumers()[i]);
        assert(is_new_consumer(creator.consumers()[i], memory, order, k, events, host, true));
        let last = events_in(event_of(order, k, events));
        assert(consumer_events(some) == consumer_events(some.drop_last()) + last);
        assert(pushed + consumer_events(some) =~= (pushed + consumer_events(some.drop_last()))
            + last);
        assert(pushed + consumer_events(some) =~= first_events(
            events,
            count_events(order.take(k + 1)),
        ));
    }
}

/// The creator sends the events of its channels in the order of the channels.
pub proof fn law_events_are_sent_in_order(
    creator: ChannelGroup<'_>,
    group: GroupAttrView,
    memory: Seq<AtomicU32>,
    events: Seq<Result<EventFd, Errno>>,
    host: HostView,
)
    requires
        creator.is_new(group, Side::Creator, memory, events, host),
    ensures
        producer_events(creator.producers()) + consumer_events(creator.consumers())
            == first_events(events, count_events(group.order(Side::Creator))),
{
    let order = group.order(Side::Creator);
    let consumers = group.consumers.len() as int;
    lemma_consumer_events(creator, group, memory, events, host, consumers);
    assert(creator.consumers().take(consumers) =~= creator.consumers());
    assert(order.take(group.producers.len() + consumers) =~= order);
}

/// Both ends of a channel have the same event, if the creator's events are what the receiver
/// gets.
pub proof fn law_ends_share_events(
    creator: ChannelGroup<'_>,
    receiver: ChannelGroup<'_>,
    group: GroupAttrView,
    memory: Seq<AtomicU32>,
    mapped: Seq<AtomicU32>,
    events: Seq<Result<EventFd, Errno>>,
    host: HostView,
    index: int,
)
    requires
        creator.is_new(group, Side::Creator, memory, events, host),
        receiver.is_new(
            group.mirrored(),
            Side::Receiver,
            mapped,
            arrived(
                producer_events(creator.producers()) + consumer_events(creator.consumers()),
            ),
            host,
        ),
    ensures
        0 <= index < group.producers.len() ==> creator.producers()[index]->0.event()
            == receiver.consumers()[index]->0.event(),
        0 <= index < group.consumers.len() ==> creator.consumers()[index]->0.event()
            == receiver.producers()[index]->0.event(),
{
    let order = group.order(Side::Creator);
    law_ends_agree_on_order(group, index);
    law_events_are_sent_in_order(creator, group, memory, events, host);
    if 0 <= index < group.producers.len() {
        lemma_first_channels(order, index, host);
        lemma_first_channels(order, index + 1, host);
        let p = creator.producers()[index];
        let c = receiver.consumers()[index];
        assert(p is Some && c is Some);
    }
    if 0 <= index < group.consumers.len() {
        let k = group.producers.len() + index;
        lemma_first_channels(order, k, host);
        lemma_first_channels(order, k + 1, host);
        let c = creator.consumers()[index];
        let p = receiver.producers()[index];
        assert(p is Some && c is Some);
    }
}

/// A group that one end creates, in the memory it asks for and with its events, can be read from
/// the request and be set up by the other end.
pub proof fn law_group_can_be_handed_over(
    group: GroupAttrView,
    shm_size: nat,
    events: Seq<Result<EventFd, Errno>>,
    host: HostView,
)
    requires
        host.is_valid(),
        group_fits(group),
        group.shm_size(host) <= shm_size,
        events.len() == count_events(group.producers) + count_events(group.consumers),
        forall|n: int| 0 <= n < events.len() ==> #[trigger] events[n] is Ok,
    ensures
        ({
            let order = group.order(Side::Creator);
            let mirrored = group.mirrored();
            let sent = arrived(first_events(events, count_events(order)));
            &&& group_fault(order, shm_size, events, host, order.len()) is None
            &&& parsed(host, request_bytes(host, group)) == Ok::<GroupAttrView, RequestError>(
                mirrored,
            )
            &&& sent == events
            &&& count_events(mirrored.consumers) < 1 + sent.len()
            &&& group_fault(
                mirrored.order(Side::Receiver),
                shm_size,
                sent,
                host,
                mirrored.order(Side::Receiver).len(),
            ) is None
        }),
{
    let order = group.order(Side::Creator);
    lemma_joined(group.producers, group.consumers, host);
    law_request_round_trip(host, group, seq![]);
    assert(request_bytes(host, group) + Seq::<u8>::empty() =~= request_bytes(host, group));
    assert forall|n: int| 0 <= n < events.len() implies Ok::<EventFd, Errno>(events[n]->Ok_0)
        == events[n] by {
        assert(events[n] is Ok);
    }
    assert(arrived(first_events(events, count_events(order))) =~= events);
    law_group_can_be_set_up(order, shm_size, events, host, order.len());
}

/// Whether the channel at position `k` has its event, if it has one, and whether its queue is in
/// shared memory as a whole.
pub open spec fn has_all(
    order: Seq<ChannelAttrView>,
    k: int,
    shm_size: nat,
    events: Seq<Result<EventFd, Errno>>,
    host: HostView,
) -> bool {
    let n = count_events(order.take(k)) as int;
    &&& order[k].eventfd ==> n < events.len() && events[n] is Ok
    &&& place(order, k + 1, host) <= shm_size
}

/// What a group lacks is what the first channel lacks that does not have all: its event, for which
/// there is none or which could not be had, or else its place in shared memory.
pub proof fn law_first_fault_is_reported(
    order: Seq<ChannelAttrView>,
    shm_size: nat,
    events: Seq<Result<EventFd, Errno>>,
    host: HostView,
    count: nat,
) -> (k: int)
    requires
        count <= order.len(),
    ensures
        match group_fault(order, shm_size, events, host, count) {
            None => {
                &&& k == count
                &&& count_events(order.take(k)) <= events.len()
            },
            Some(fault) => {
                let n = count_events(order.take(k)) as int;
                &&& 0 <= k < count
                &&& !has_all(order, k, shm_size, events, host)
                &&& n <= events.len()
                &&& if order[k].eventfd && n == events.len() {
                    fault == SetupFault::MissingEvent
                } else if order[k].eventfd && events[n] is Err {
                    fault == SetupFault::Resource(ResourceError::Errno(events[n]->Err_0))
                } else {
                    fault == SetupFault::Resource(
                        ResourceError::ShmMapError(ShmMapError::OutOfBounds),
                    )
                }
            },
        },
        forall|j: int| 0 <= j < k ==> #[trigger] has_all(order, j, shm_size, events, host),
    decreases count,
{
    if count == 0 {
        assert(order.take(0) =~= Seq::<ChannelAttrView>::empty());
        0
    } else {
        let last = count - 1;
        let k = law_first_fault_is_reported(order, shm_size, events, host, last as nat);
        if group_fault(order, shm_size, events, host, last as nat) is Some {
            k
        } else {
            lemma_first_channels(order, last, host);
            let n = count_events(order.take(last)) as int;
            let left = events.skip(n);
            if order[last].eventfd && left.len() > 0 {
                assert(left[0] == events[n]);
            }
            if group_fault(order, shm_size, events, host, count) is Some {
                last
            } else {
                count as int
            }
        }
    }
}

/// The end that creates a group is told of a missing event as of an invalid argument, the end that
/// receives one as of a missing file descriptor. What else is lacking is reported as it is.
pub proof fn law_faults_are_told_apart(error: ResourceError)
    ensures
        as_resource_error(SetupFault::MissingEvent) == ResourceError::InvalidArgument,
        as_resource_error(SetupFault::Resource(error)) == error,
        as_transfer_error(SetupFault::MissingEvent) == TransferError::MissingFileDescriptor,
        as_transfer_error(SetupFault::Resource(error)) == TransferError::ResourceError(error),
{
}

/// A channel has an event if it asks for one: the one behind those of the channels in front of it.
pub proof fn law_events_go_in_order(
    order: Seq<ChannelAttrView>,
    k: int,
    events: Seq<Result<EventFd, Errno>>,
)
    requires
        0 <= k < order.len(),
    ensures
        event_of(order, k, events) is Some <==> order[k].eventfd,
        event_of(order, k, events) matches Some(event) ==> {
            let n = count_events(order.take(k)) as int;
            events[n] is Ok ==> events[n] == Ok::<EventFd, Errno>(event)
        },
{
}

/// Of further channels, those that are there and have an event add it behind the others.
pub proof fn law_events_of_channels_that_are_there(
    producers: Seq<Option<ProducerChannel<'_>>>,
    producer: ProducerChannel<'_>,
    consumers: Seq<Option<ConsumerChannel<'_>>>,
    consumer: ConsumerChannel<'_>,
)
    ensures
        producer_events(seq![]) == Seq::<EventFd>::empty(),
        producer_events(producers.push(None)) == producer_events(producers),
        producer_events(producers.push(Some(producer))) == match producer.event() {
            Some(event) => producer_events(producers).push(event),
            None => producer_events(producers),
        },
        consumer_events(seq![]) == Seq::<EventFd>::empty(),
        consumer_events(consumers.push(None)) == consumer_events(consumers),
        consumer_events(consumers.push(Some(consumer))) == match consumer.event() {
            Some(event) => consumer_events(consumers).push(event),
            None => consumer_events(consumers),
        },
{
    assert(producers.push(None).drop_last() =~= producers);
    assert(producers.push(Some(producer)).drop_last() =~= producers);
    assert(consumers.push(None).drop_last() =~= consumers);
    assert(consumers.push(Some(consumer)).drop_last() =~= consumers);
}

} // verus!
