//! The bytes of a request, and how they are read.
use crate::attr::{ChannelAttrView, GroupAttrView};
use crate::bytes::{u32_bytes, u32_value};
use crate::error::RequestError;
use crate::header::{header_bytes, header_fault, HEADER_SIZE};
use crate::host::{ByteOrder, HostView};
use vstd::prelude::*;

verus! {

/// Bytes of an entry of the channel table: four 32 bit integers.
pub const ENTRY_SIZE: usize = 16;

/// Where the channel table starts: behind the header, the size of the group info and the numbers
/// of channels.
pub const TABLE_OFFSET: usize = 20;

/// The entry of a channel: the additional messages, the message size, whether there is an event,
/// and the size of the info. What does not fit in 32 bits is cut off.
pub open spec fn entry_bytes(order: ByteOrder, channel: ChannelAttrView) -> Seq<u8> {
    u32_bytes(order, channel.additional_messages as u32) + u32_bytes(
        order,
        channel.message_size as u32,
    ) + u32_bytes(
        order,
        if channel.eventfd {
            1
        } else {
            0
        },
    ) + u32_bytes(order, channel.info.len() as u32)
}

/// The entries of several channels, one after the other.
pub open spec fn table_bytes(order: ByteOrder, channels: Seq<ChannelAttrView>) -> Seq<u8>
    decreases channels.len(),
{
    if channels.len() == 0 {
        seq![]
    } else {
        table_bytes(order, channels.drop_last()) + entry_bytes(order, channels.last())
    }
}

/// The infos of several channels, one after the other.
pub open spec fn info_bytes(channels: Seq<ChannelAttrView>) -> Seq<u8>
    decreases channels.len(),
{
    if channels.len() == 0 {
        seq![]
    } else {
        info_bytes(channels.drop_last()) + channels.last().info
    }
}

/// What stands in front of the channel table.
pub open spec fn preamble_bytes(host: HostView, group: GroupAttrView) -> Seq<u8> {
    header_bytes(host) + u32_bytes(host.byte_order, group.info.len() as u32) + u32_bytes(
        host.byte_order,
        group.producers.len() as u32,
    ) + u32_bytes(host.byte_order, group.consumers.len() as u32)
}

/// The channels of a group in the order of a request.
pub open spec fn channels_of(group: GroupAttrView) -> Seq<ChannelAttrView> {
    group.producers + group.consumers
}

/// The request that offers a group: what stands in front of the table, the table, the info of the
/// group and the infos of the channels.
pub open spec fn request_bytes(host: HostView, group: GroupAttrView) -> Seq<u8> {
    preamble_bytes(host, group) + table_bytes(host.byte_order, channels_of(group)) + group.info
        + info_bytes(channels_of(group))
}

/// Bytes of that request.
pub open spec fn request_size(group: GroupAttrView) -> nat {
    TABLE_OFFSET as nat + channels_of(group).len() * ENTRY_SIZE as nat + group.info.len()
        + info_bytes(channels_of(group)).len()
}

/// The bytes of `request` with `bytes` written at `at`.
pub open spec fn overwritten(request: Seq<u8>, at: int, bytes: Seq<u8>) -> Seq<u8> {
    request.take(at) + bytes + request.skip(at + bytes.len())
}

/// The 32 bit integer at an offset.
pub open spec fn u32_at(order: ByteOrder, request: Seq<u8>, offset: int) -> int {
    u32_value(order, request.subrange(offset, offset + 4))
}

/// A request after the entry of a channel was written at `entry` and its info at `info`.
pub open spec fn channel_written(
    order: ByteOrder,
    request: Seq<u8>,
    channel: ChannelAttrView,
    entry: int,
    info: int,
) -> Seq<u8> {
    overwritten(
        overwritten(request, entry, entry_bytes(order, channel)),
        info,
        channel.info,
    )
}

/// The channel whose entry is at `entry` and whose info is at `info`, with the offset behind that
/// info.
pub open spec fn read_entry(order: ByteOrder, request: Seq<u8>, entry: int, info: int) -> Result<
    (ChannelAttrView, int),
    RequestError,
> {
    let info_end = info + u32_at(order, request, entry + 12);
    if entry + ENTRY_SIZE > request.len() || u32_at(order, request, entry + 4) == 0 || info_end
        > request.len() {
        Err(RequestError::OutOfBounds)
    } else {
        Ok(
            (
                ChannelAttrView {
                    additional_messages: u32_at(order, request, entry) as nat,
                    message_size: u32_at(order, request, entry + 4) as nat,
                    eventfd: u32_at(order, request, entry + 8) != 0,
                    info: request.subrange(info, info_end),
                },
                info_end,
            ),
        )
    }
}

/// The first `count` channels of a table at `TABLE_OFFSET`, their infos from `info` on.
pub open spec fn read_table(order: ByteOrder, request: Seq<u8>, info: int, count: nat) -> Result<
    (Seq<ChannelAttrView>, int),
    RequestError,
>
    decreases count,
{
    if count == 0 {
        Ok((seq![], info))
    } else {
        match read_table(order, request, info, (count - 1) as nat) {
            Ok((channels, at)) => match read_entry(
                order,
                request,
                TABLE_OFFSET + (count - 1) * ENTRY_SIZE,
                at,
            ) {
                Ok((channel, end)) => Ok((channels.push(channel), end)),
                Err(e) => Err(e),
            },
            Err(e) => Err(e),
        }
    }
}

/// The group that a request offers, from the point of view of the end that reads it: what the
/// other end pushes to is popped from here.
pub open spec fn parsed(host: HostView, request: Seq<u8>) -> Result<GroupAttrView, RequestError> {
    let order = host.byte_order;
    let consumers = u32_at(order, request, 12);
    let producers = u32_at(order, request, 16);
    let group_info = TABLE_OFFSET + (consumers + producers) * ENTRY_SIZE;
    let channel_infos = group_info + u32_at(order, request, 8);
    if request.len() < HEADER_SIZE {
        Err(RequestError::OutOfBounds)
    } else if header_fault(host, request.take(HEADER_SIZE as int)) is Some {
        Err(
            RequestError::HeaderError(
                header_fault(host, request.take(HEADER_SIZE as int))->Some_0,
            ),
        )
    } else if request.len() < TABLE_OFFSET || channel_infos > request.len() {
        Err(RequestError::OutOfBounds)
    } else {
        match read_table(order, request, channel_infos, (consumers + producers) as nat) {
            Ok((channels, end)) => Ok(
                GroupAttrView {
                    consumers: channels.take(consumers),
                    producers: channels.skip(consumers),
                    info: request.subrange(group_info, channel_infos),
                },
            ),
            Err(e) => Err(e),
        }
    }
}

} // verus!
