//! Where things are: the parts of a queue in shared memory, the queues of a group, and the numbers
//! of a request and of a response.
use crate::attr::{
    count_events, lemma_first_channels, total_size, ChannelAttrView, GroupAttrView, QueueAttrView,
};
use crate::bytes::{
    law_u16_round_trip, law_u32_round_trip, u16_bytes, u16_value, u32_bytes, u32_value,
};
use crate::error::{HeaderError, RequestError};
use crate::group::{place, Role, Side};
use crate::group_laws::lemma_joined;
use crate::header::{header_bytes, header_fault};
use crate::host::{law_round_up, ByteOrder, HostView};
use crate::memory::Op;
use crate::protocol::{is_acceptance, response_bytes};
use crate::protocol_laws::{
    lemma_entry_in_table, lemma_preamble, lemma_request_parts,
};
use crate::protocol_spec::{
    channels_of, entry_bytes, info_bytes, parsed, read_table, request_bytes, request_size,
};
use crate::queue::{init_accesses, ring_accesses, shape_at};
use crate::queue_spec::{Cell, CellAccess, ConsumerView, ProducerView};
use vstd::prelude::*;

verus! {

/// A message slot takes whole cachelines, and no more of them than its message needs; so do the
/// words of a queue, which are two more than its slots. A queue has three slots more than its
/// attributes ask for, and takes its words and its slots.
pub proof fn law_queue_sizes(attr: QueueAttrView, host: HostView)
    requires
        host.is_valid(),
    ensures
        attr.stride(host) % host.cacheline_size == 0,
        attr.message_size <= attr.stride(host) < attr.message_size + host.cacheline_size,
        attr.queue_size(host) % host.cacheline_size == 0,
        4 * (5 + attr.additional_messages) <= attr.queue_size(host) < 4 * (5
            + attr.additional_messages) + host.cacheline_size,
        attr.data_size(host) == (3 + attr.additional_messages) * attr.stride(host),
        attr.shm_size(host) == attr.queue_size(host) + attr.data_size(host),
        attr.slots() == 3 + attr.additional_messages,
{
    law_round_up(attr.message_size, host.cacheline_size);
    law_round_up((2 + attr.slots()) * 4, host.cacheline_size);
}

/// A queue that starts on a word begins with its tail, its head and the links of its slots, each
/// four bytes; behind the words are the slots, one stride apart.
pub proof fn law_queue_layout(offset: nat, attr: QueueAttrView, host: HostView, slot: int)
    requires
        offset % 4 == 0,
    ensures
        ({
            let shape = shape_at(offset, attr, host);
            &&& shape.on_word()
            &&& shape.slots == 3 + attr.additional_messages
            &&& shape.message_size == attr.message_size
            &&& 4 * shape.position(Cell::Tail) == offset
            &&& 4 * shape.position(Cell::Head) == offset + 4
            &&& 4 * shape.position(Cell::Link(slot)) == offset + 8 + 4 * slot
            &&& shape.message(0) == offset + attr.queue_size(host)
            &&& shape.message(slot + 1) == shape.message(slot) + attr.stride(host)
        }),
{
    let stride = attr.stride(host);
    assert(0 * stride == 0);
    assert((slot + 1) * stride == slot * stride + stride) by (nonlinear_arith);
}

/// The slots of a queue without messages form a ring: from each slot to the next one, and from the
/// last to the first. The producer fills the first one first. Nothing is the newest message and
/// nothing is overrun.
pub proof fn law_initial_queue(len: nat, i: int)
    requires
        0 <= i < len <= u32::MAX,
    ensures
        ({
            let initial = ProducerView::initial(len);
            &&& initial.chain.len() == len
            &&& initial.chain[i] == if i == len - 1 {
                0
            } else {
                i + 1
            }
            &&& initial.current == 0
            &&& initial.head == u32::MAX
            &&& initial.overrun == u32::MAX
            &&& ring_accesses(len).len() == len
            &&& ring_accesses(len)[i] == (CellAccess {
                cell: Cell::Link(i),
                op: Op::Store { value: initial.chain[i] },
            })
            &&& init_accesses() == seq![
                CellAccess { cell: Cell::Tail, op: Op::Store { value: u32::MAX } },
                CellAccess { cell: Cell::Head, op: Op::Store { value: u32::MAX } },
            ]
            &&& !ConsumerView::initial().available
        }),
{
}

/// The first queue of a group is at the start of shared memory, each further one right behind the
/// one in front of it, and all of them take the memory that the group asks for.
pub proof fn law_queues_follow_each_other(order: Seq<ChannelAttrView>, k: int, host: HostView)
    requires
        0 <= k < order.len(),
    ensures
        place(order, 0, host) == 0,
        place(order, k + 1, host) == place(order, k, host) + order[k].queue_attr().shm_size(host),
        place(order, order.len() as int, host) == total_size(order, host),
{
    assert(order.take(0) =~= Seq::<ChannelAttrView>::empty());
    assert(order.take(order.len() as int) =~= order);
    lemma_first_channels(order, k, host);
}

/// The queue of a channel has the slots and the message size that the channel asks for.
pub proof fn law_channels_have_their_queues(channel: ChannelAttrView)
    ensures
        channel.queue_attr().additional_messages == channel.additional_messages,
        channel.queue_attr().message_size == channel.message_size,
{
}

/// In shared memory the channels that the creator pushes to come first, in their order, and then
/// those that it pops from; the receiver finds them there.
pub proof fn law_creator_pushes_to_the_first(group: GroupAttrView, i: int)
    ensures
        ({
            let created = group.order(Side::Creator);
            let received = group.order(Side::Receiver);
            let producers = group.producers.len();
            let consumers = group.consumers.len();
            &&& created.len() == received.len() == producers + consumers
            &&& group.position(Side::Creator, Role::Producer, i) == i
            &&& group.position(Side::Creator, Role::Consumer, i) == producers + i
            &&& group.position(Side::Receiver, Role::Consumer, i) == i
            &&& group.position(Side::Receiver, Role::Producer, i) == consumers + i
            &&& 0 <= i < producers ==> created[i] == group.producers[i]
            &&& 0 <= i < consumers ==> created[producers + i] == group.consumers[i]
            &&& 0 <= i < consumers ==> received[i] == group.consumers[i]
            &&& 0 <= i < producers ==> received[consumers + i] == group.producers[i]
        }),
{
}

/// The other end pushes to what this end pops from, and the other way round.
pub proof fn law_mirrored(group: GroupAttrView)
    ensures
        group.mirrored().producers == group.consumers,
        group.mirrored().consumers == group.producers,
        group.mirrored().info == group.info,
        group.mirrored().mirrored() == group,
{
}

/// A further channel adds the bytes of its queue, and one event if it has one; a group asks for
/// what its channels ask for.
pub proof fn law_channels_add_up(
    channels: Seq<ChannelAttrView>,
    one: ChannelAttrView,
    group: GroupAttrView,
    host: HostView,
)
    ensures
        total_size(seq![], host) == 0,
        total_size(channels.push(one), host) == total_size(channels, host)
            + one.queue_attr().shm_size(host),
        count_events(seq![]) == 0,
        count_events(channels.push(one)) == if one.eventfd {
            count_events(channels) + 1
        } else {
            count_events(channels)
        },
        group.shm_size(host) == total_size(group.order(Side::Creator), host),
        group.shm_size(host) == total_size(group.order(Side::Receiver), host),
{
    assert(channels.push(one).drop_last() =~= channels);
    lemma_joined(group.producers, group.consumers, host);
    lemma_joined(group.consumers, group.producers, host);
}

/// A header holds, two bytes each, the magic, the version, the cacheline size of the machine and
/// the size of an index.
pub proof fn law_header_layout(host: HostView)
    requires
        host.is_valid(),
    ensures
        ({
            let header = header_bytes(host);
            let order = host.byte_order;
            &&& header.len() == 8
            &&& u16_value(order, header.subrange(0, 2)) == 0x1f0c
            &&& u16_value(order, header.subrange(2, 4)) == 1
            &&& u16_value(order, header.subrange(4, 6)) == host.cacheline_size
            &&& u16_value(order, header.subrange(6, 8)) == 4
        }),
{
    let header = header_bytes(host);
    let order = host.byte_order;
    law_u16_round_trip(order, 0x1f0c);
    law_u16_round_trip(order, 1);
    law_u16_round_trip(order, host.cacheline_size as u16);
    law_u16_round_trip(order, 4);
    assert(header.subrange(0, 2) =~= u16_bytes(order, 0x1f0c));
    assert(header.subrange(2, 4) =~= u16_bytes(order, 1));
    assert(header.subrange(4, 6) =~= u16_bytes(order, host.cacheline_size as u16));
    assert(header.subrange(6, 8) =~= u16_bytes(order, 4));
}

/// A header is refused for the first of its numbers that is not that of the machine, and for
/// nothing else.
pub proof fn law_header_verdict(host: HostView, header: Seq<u8>)
    ensures
        ({
            let order = host.byte_order;
            let magic = u16_value(order, header.subrange(0, 2));
            let version = u16_value(order, header.subrange(2, 4));
            let cacheline = u16_value(order, header.subrange(4, 6));
            let index = u16_value(order, header.subrange(6, 8));
            let fault = header_fault(host, header);
            &&& fault == Some(HeaderError::SizeExceedsRequest) <==> header.len() < 8
            &&& header.len() >= 8 ==> {
                &&& fault == Some(HeaderError::MagicMismatch) <==> magic != 0x1f0c
                &&& fault == Some(HeaderError::VersionMismatch) <==> magic == 0x1f0c && version != 1
                &&& fault == Some(HeaderError::CachelineSizeMismatch) <==> magic == 0x1f0c
                    && version == 1 && cacheline != host.cacheline_size
                &&& fault == Some(HeaderError::AtomicSizeMismatch) <==> magic == 0x1f0c && version
                    == 1 && cacheline == host.cacheline_size && index != 4
                &&& fault is None <==> magic == 0x1f0c && version == 1 && cacheline
                    == host.cacheline_size && index == 4
            }
        }),
{
}

/// An entry of the channel table holds, four bytes each, the additional messages, the message
/// size, whether there is an event, and the size of the info.
pub proof fn law_entry_layout(order: ByteOrder, channel: ChannelAttrView)
    ensures
        ({
            let entry = entry_bytes(order, channel);
            &&& entry.len() == 16
            &&& u32_value(order, entry.subrange(0, 4)) == channel.additional_messages as u32
            &&& u32_value(order, entry.subrange(4, 8)) == channel.message_size as u32
            &&& u32_value(order, entry.subrange(8, 12)) == if channel.eventfd {
                1int
            } else {
                0int
            }
            &&& u32_value(order, entry.subrange(12, 16)) == channel.info.len() as u32
        }),
{
    let entry = entry_bytes(order, channel);
    let flag: u32 = if channel.eventfd {
        1
    } else {
        0
    };
    law_u32_round_trip(order, channel.additional_messages as u32);
    law_u32_round_trip(order, channel.message_size as u32);
    law_u32_round_trip(order, flag);
    law_u32_round_trip(order, channel.info.len() as u32);
    assert(entry.subrange(0, 4) =~= u32_bytes(order, channel.additional_messages as u32));
    assert(entry.subrange(4, 8) =~= u32_bytes(order, channel.message_size as u32));
    assert(entry.subrange(8, 12) =~= u32_bytes(order, flag));
    assert(entry.subrange(12, 16) =~= u32_bytes(order, channel.info.len() as u32));
}

/// A request starts with the header. Four bytes each, the size of the group info and the numbers of
/// channels that its sender pushes to and pops from follow.
pub proof fn law_request_preamble(host: HostView, group: GroupAttrView)
    requires
        host.is_valid(),
    ensures
        ({
            let request = request_bytes(host, group);
            let order = host.byte_order;
            &&& request.len() >= 20
            &&& request.subrange(0, 8) == header_bytes(host)
            &&& u32_value(order, request.subrange(8, 12)) == group.info.len() as u32
            &&& u32_value(order, request.subrange(12, 16)) == group.producers.len() as u32
            &&& u32_value(order, request.subrange(16, 20)) == group.consumers.len() as u32
        }),
{
    let request = request_bytes(host, group);
    let order = host.byte_order;
    lemma_request_parts(host, group);
    lemma_preamble(host, group);
    law_u32_round_trip(order, group.info.len() as u32);
    law_u32_round_trip(order, group.producers.len() as u32);
    law_u32_round_trip(order, group.consumers.len() as u32);
    let preamble = request.subrange(0, 20);
    assert(request.subrange(0, 8) =~= preamble.subrange(0, 8));
    assert(request.subrange(8, 12) =~= preamble.subrange(8, 12));
    assert(request.subrange(12, 16) =~= preamble.subrange(12, 16));
    assert(request.subrange(16, 20) =~= preamble.subrange(16, 20));
}

/// Behind these numbers is the table: first the entries of the channels that the sender pushes to,
/// then of those that it pops from.
pub proof fn law_request_table(host: HostView, group: GroupAttrView, i: int)
    requires
        host.is_valid(),
    ensures
        ({
            let request = request_bytes(host, group);
            let order = host.byte_order;
            let rest = 20 + 16 * group.producers.len();
            &&& 0 <= i < group.producers.len() ==> {
                &&& request.len() >= 36 + 16 * i
                &&& request.subrange(20 + 16 * i, 36 + 16 * i) == entry_bytes(
                    order,
                    group.producers[i],
                )
            }
            &&& 0 <= i < group.consumers.len() ==> {
                &&& request.len() >= rest + 16 + 16 * i
                &&& request.subrange(rest + 16 * i, rest + 16 + 16 * i) == entry_bytes(
                    order,
                    group.consumers[i],
                )
            }
        }),
{
    let request = request_bytes(host, group);
    let all = channels_of(group);
    let producers = group.producers.len() as int;
    let end = 20 + 16 * all.len() as int;
    lemma_request_parts(host, group);
    let table = request.subrange(20, end);
    if 0 <= i < producers {
        lemma_entry_in_table(host.byte_order, all, i);
        assert(request.subrange(20 + 16 * i, 36 + 16 * i) =~= table.subrange(i * 16, (i + 1) * 16));
    }
    if 0 <= i < group.consumers.len() {
        let k = producers + i;
        lemma_entry_in_table(host.byte_order, all, k);
        assert(request.subrange(20 + 16 * k, 36 + 16 * k) =~= table.subrange(k * 16, (k + 1) * 16));
    }
}

/// The infos of channels are joined in the order of the channels.
pub proof fn law_infos_are_joined(channels: Seq<ChannelAttrView>, one: ChannelAttrView)
    ensures
        info_bytes(seq![]) == Seq::<u8>::empty(),
        info_bytes(channels.push(one)) == info_bytes(channels) + one.info,
{
    assert(channels.push(one).drop_last() =~= channels);
}

/// Behind the table are the info of the group and the infos of the channels, and nothing else: so
/// many bytes does a request have.
pub proof fn law_request_infos(host: HostView, group: GroupAttrView)
    requires
        host.is_valid(),
    ensures
        ({
            let request = request_bytes(host, group);
            let all = group.producers + group.consumers;
            &&& request.skip(20 + 16 * all.len() as int) == group.info + info_bytes(all)
            &&& request.len() == 20 + 16 * all.len() + group.info.len() + info_bytes(all).len()
            &&& request_size(group) == request.len()
        }),
{
    let request = request_bytes(host, group);
    let all = channels_of(group);
    let end = 20 + 16 * all.len() as int;
    let infos = end + group.info.len();
    lemma_request_parts(host, group);
    assert(request.skip(end) =~= request.subrange(end, infos) + request.subrange(
        infos,
        request.len() as int,
    ));
}

/// The sizes of the first infos, as the entries of a request have them.
pub open spec fn info_sizes(order: ByteOrder, request: Seq<u8>, count: int) -> int
    decreases count,
{
    if count <= 0 {
        0
    } else {
        let entry = 20 + 16 * (count - 1);
        info_sizes(order, request, count - 1) + u32_value(
            order,
            request.subrange(entry + 12, entry + 16),
        )
    }
}

/// Whether the channel whose entry is the one behind `k` others is what the request says of it,
/// its info `info` bytes behind the start.
pub open spec fn is_as_requested(
    order: ByteOrder,
    request: Seq<u8>,
    k: int,
    info: int,
    channel: ChannelAttrView,
) -> bool {
    let entry = 20 + 16 * k;
    let size = u32_value(order, request.subrange(entry + 12, entry + 16));
    &&& channel.additional_messages == u32_value(order, request.subrange(entry, entry + 4))
    &&& channel.message_size == u32_value(order, request.subrange(entry + 4, entry + 8))
    &&& channel.message_size > 0
    &&& channel.eventfd <==> u32_value(order, request.subrange(entry + 8, entry + 12)) != 0
    &&& channel.info == request.subrange(info, info + size)
}

/// Whether that channel asks for messages without bytes, or for an info that the request is too
/// short for; `infos` is where the infos start.
pub open spec fn is_unreadable(order: ByteOrder, request: Seq<u8>, infos: int, k: int) -> bool {
    let entry = 20 + 16 * k;
    ||| u32_value(order, request.subrange(entry + 4, entry + 8)) == 0
    ||| infos + info_sizes(order, request, k + 1) > request.len()
}

/// The four bytes of a number are not negative.
proof fn lemma_number(order: ByteOrder, bytes: Seq<u8>)
    requires
        bytes.len() == 4,
    ensures
        u32_value(order, bytes) >= 0,
{
}

/// A table that can be read, or not.
proof fn lemma_table(order: ByteOrder, request: Seq<u8>, info: int, count: nat)
    requires
        0 <= info <= request.len(),
        20 + 16 * count <= info,
    ensures
        match read_table(order, request, info, count) {
            Ok((channels, end)) => {
                &&& channels.len() == count
                &&& end == info + info_sizes(order, request, count as int) <= request.len()
                &&& end >= info
                &&& forall|k: int|
                    #![trigger channels[k]]
                    0 <= k < count ==> is_as_requested(
                        order,
                        request,
                        k,
                        info + info_sizes(order, request, k),
                        channels[k],
                    )
            },
            Err(e) => {
                &&& e == RequestError::OutOfBounds
                &&& exists|k: int| 0 <= k < count && is_unreadable(order, request, info, k)
            },
        },
    decreases count,
{
    if count > 0 {
        let before = count - 1;
        let entry = 20 + 16 * before;
        lemma_table(order, request, info, before as nat);
        lemma_number(order, request.subrange(entry + 12, entry + 16));
        if read_table(order, request, info, count) is Err {
            if read_table(order, request, info, before as nat) is Err {
                let k = choose|k: int| 0 <= k < before && is_unreadable(order, request, info, k);
                assert(0 <= k < count && is_unreadable(order, request, info, k));
            } else {
                assert(is_unreadable(order, request, info, before));
            }
        }
    }
}

/// An accepted request has the header of the machine and is read number by number: the group has
/// as many channels as it says, each with the numbers of its entry; what its sender pushes to comes
/// first, and is popped from here. The infos follow each other behind the table.
pub proof fn law_accepted_request(host: HostView, request: Seq<u8>, i: int)
    requires
        parsed(host, request) is Ok,
    ensures
        ({
            let group = parsed(host, request)->Ok_0;
            let order = host.byte_order;
            let consumers = u32_value(order, request.subrange(12, 16));
            let producers = u32_value(order, request.subrange(16, 20));
            let table_end = 20 + 16 * (consumers + producers);
            let infos = table_end + u32_value(order, request.subrange(8, 12));
            &&& header_fault(host, request.take(8)) is None
            &&& request.len() >= infos
            &&& group.consumers.len() == consumers
            &&& group.producers.len() == producers
            &&& group.info == request.subrange(table_end, infos)
            &&& 0 <= i < consumers ==> is_as_requested(
                order,
                request,
                i,
                infos + info_sizes(order, request, i),
                group.consumers[i],
            )
            &&& 0 <= i < producers ==> is_as_requested(
                order,
                request,
                consumers + i,
                infos + info_sizes(order, request, consumers + i),
                group.producers[i],
            )
            &&& infos + info_sizes(order, request, consumers + producers) <= request.len()
        }),
{
    let group = parsed(host, request)->Ok_0;
    let order = host.byte_order;
    let consumers = u32_value(order, request.subrange(12, 16));
    let producers = u32_value(order, request.subrange(16, 20));
    let count = (consumers + producers) as nat;
    lemma_number(order, request.subrange(8, 12));
    lemma_number(order, request.subrange(12, 16));
    lemma_number(order, request.subrange(16, 20));
    let infos = 20 + 16 * count + u32_value(order, request.subrange(8, 12));
    lemma_table(order, request, infos, count);
    let channels = (read_table(order, request, infos, count)->Ok_0).0;
    if 0 <= i < consumers {
        assert(group.consumers[i] == channels[i]);
    }
    if 0 <= i < producers {
        assert(group.producers[i] == channels[consumers + i]);
    }
}

/// A request is refused for its header if it has one that is not that of the machine, and for its
/// bounds if it ends before the header, the table or the infos that its numbers ask for do, or if
/// a message size is zero.
pub proof fn law_refused_request(host: HostView, request: Seq<u8>)
    requires
        parsed(host, request) is Err,
    ensures
        ({
            let error = parsed(host, request)->Err_0;
            let order = host.byte_order;
            let count = u32_value(order, request.subrange(12, 16)) + u32_value(
                order,
                request.subrange(16, 20),
            );
            let infos = 20 + 16 * count + u32_value(order, request.subrange(8, 12));
            if request.len() < 8 {
                error == RequestError::OutOfBounds
            } else {
                match header_fault(host, request.take(8)) {
                    Some(fault) => error == RequestError::HeaderError(fault),
                    None => {
                        &&& error == RequestError::OutOfBounds
                        &&& {
                            ||| request.len() < 20
                            ||| request.len() < infos
                            ||| exists|k: int|
                                0 <= k < count && is_unreadable(order, request, infos, k)
                        }
                    },
                }
            }
        }),
{
    let order = host.byte_order;
    if request.len() >= 20 {
        lemma_number(order, request.subrange(8, 12));
        lemma_number(order, request.subrange(12, 16));
        lemma_number(order, request.subrange(16, 20));
        let count = u32_value(order, request.subrange(12, 16)) + u32_value(
            order,
            request.subrange(16, 20),
        );
        let infos = 20 + 16 * count + u32_value(order, request.subrange(8, 12));
        if infos <= request.len() {
            lemma_table(order, request, infos, count as nat);
        }
    }
}

/// A response has four bytes: all zero for an acceptance, all ones for a refusal. Nothing but four
/// zero bytes is an acceptance.
pub proof fn law_response_layout(response: Seq<u8>, i: int)
    requires
        0 <= i < 4,
    ensures
        response_bytes(true).len() == 4,
        response_bytes(true)[i] == 0,
        response_bytes(false).len() == 4,
        response_bytes(false)[i] == 0xff,
        is_acceptance(response) <==> response.len() == 4 && response[0] == 0 && response[1] == 0
            && response[2] == 0 && response[3] == 0,
{
    if response.len() == 4 && response[0] == 0 && response[1] == 0 && response[2] == 0
        && response[3] == 0 {
        assert(response =~= response_bytes(true));
    }
}

} // verus!
