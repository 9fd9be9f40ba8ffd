//! What both ends can rely on when one reads what the other wrote.
use crate::attr::{ChannelAttrView, GroupAttrView};
use crate::bytes::{law_u32_round_trip, u32_bytes};
use crate::error::{HeaderError, RequestError};
use crate::header::{
    header_bytes, header_fault, law_header_tells_byte_orders_apart,
    law_header_tells_machines_apart, HEADER_SIZE,
};
use crate::host::{ByteOrder, HostView};
use crate::protocol::{lemma_info_grows, lemma_table_size};
use crate::protocol_spec::{
    channel_written, channels_of, entry_bytes, info_bytes, parsed, preamble_bytes, read_entry,
    read_table, request_bytes, request_size, table_bytes, u32_at, ENTRY_SIZE, TABLE_OFFSET,
};
use vstd::prelude::*;

verus! {

/// Whether all numbers of a channel fit into its entry; a message has at least one byte.
pub open spec fn channel_fits(channel: ChannelAttrView) -> bool {
    &&& channel.additional_messages <= u32::MAX
    &&& 0 < channel.message_size <= u32::MAX
    &&& channel.info.len() <= u32::MAX
}

/// Whether all numbers of a group fit into a request.
pub open spec fn group_fits(group: GroupAttrView) -> bool {
    &&& group.producers.len() <= u32::MAX
    &&& group.consumers.len() <= u32::MAX
    &&& group.info.len() <= u32::MAX
    &&& forall|i: int|
        0 <= i < channels_of(group).len() ==> channel_fits(#[trigger] channels_of(group)[i])
}

/// The offsets of the group info and of the channel infos in a request.
pub open spec fn group_info_offset(group: GroupAttrView) -> int {
    TABLE_OFFSET + channels_of(group).len() * ENTRY_SIZE
}

pub open spec fn channel_infos_offset(group: GroupAttrView) -> int {
    group_info_offset(group) + group.info.len()
}

/// An entry within the table.
pub(crate) proof fn lemma_entry_in_table(order: ByteOrder, channels: Seq<ChannelAttrView>, i: int)
    requires
        0 <= i < channels.len(),
    ensures
        table_bytes(order, channels).len() == channels.len() * ENTRY_SIZE,
        table_bytes(order, channels).subrange(i * ENTRY_SIZE, (i + 1) * ENTRY_SIZE) == entry_bytes(
            order,
            channels[i],
        ),
    decreases channels.len(),
{
    let table = table_bytes(order, channels);
    let fewer = channels.drop_last();
    lemma_table_size(order, channels);
    lemma_table_size(order, fewer);
    if i < fewer.len() {
        lemma_entry_in_table(order, fewer, i);
        assert(table.subrange(i * ENTRY_SIZE, (i + 1) * ENTRY_SIZE) =~= table_bytes(
            order,
            fewer,
        ).subrange(i * ENTRY_SIZE, (i + 1) * ENTRY_SIZE));
    } else {
        assert(entry_bytes(order, channels[i]).len() == ENTRY_SIZE);
        assert(table.subrange(i * ENTRY_SIZE, (i + 1) * ENTRY_SIZE) =~= entry_bytes(
            order,
            channels[i],
        ));
    }
}

/// An info among the infos.
proof fn lemma_info_in_infos(channels: Seq<ChannelAttrView>, i: int)
    requires
        0 <= i < channels.len(),
    ensures
        info_bytes(channels.take(i)).len() + channels[i].info.len() <= info_bytes(channels).len(),
        info_bytes(channels).subrange(
            info_bytes(channels.take(i)).len() as int,
            (info_bytes(channels.take(i)).len() + channels[i].info.len()) as int,
        ) == channels[i].info,
    decreases channels.len(),
{
    let infos = info_bytes(channels);
    let fewer = channels.drop_last();
    let start = info_bytes(channels.take(i)).len() as int;
    let end = start + channels[i].info.len();
    if i < fewer.len() {
        lemma_info_in_infos(fewer, i);
        assert(fewer.take(i) =~= channels.take(i));
        assert(infos.subrange(start, end) =~= info_bytes(fewer).subrange(start, end));
    } else {
        assert(channels.take(i) =~= fewer);
        assert(infos.subrange(start, end) =~= channels[i].info);
    }
}

/// The numbers of an entry.
proof fn lemma_entry_numbers(
    order: ByteOrder,
    request: Seq<u8>,
    at: int,
    channel: ChannelAttrView,
)
    requires
        0 <= at,
        at + ENTRY_SIZE <= request.len(),
        request.subrange(at, at + ENTRY_SIZE) == entry_bytes(order, channel),
        channel_fits(channel),
    ensures
        u32_at(order, request, at) == channel.additional_messages,
        u32_at(order, request, at + 4) == channel.message_size,
        u32_at(order, request, at + 8) == if channel.eventfd {
            1int
        } else {
            0int
        },
        u32_at(order, request, at + 12) == channel.info.len(),
{
    let flag: u32 = if channel.eventfd {
        1
    } else {
        0
    };
    let entry = request.subrange(at, at + ENTRY_SIZE);
    law_u32_round_trip(order, channel.additional_messages as u32);
    law_u32_round_trip(order, channel.message_size as u32);
    law_u32_round_trip(order, flag);
    law_u32_round_trip(order, channel.info.len() as u32);
    assert(request.subrange(at, at + 4) =~= entry.subrange(0, 4));
    assert(request.subrange(at + 4, at + 8) =~= entry.subrange(4, 8));
    assert(request.subrange(at + 8, at + 12) =~= entry.subrange(8, 12));
    assert(request.subrange(at + 12, at + 16) =~= entry.subrange(12, 16));
    assert(entry.subrange(0, 4) =~= u32_bytes(order, channel.additional_messages as u32));
    assert(entry.subrange(4, 8) =~= u32_bytes(order, channel.message_size as u32));
    assert(entry.subrange(8, 12) =~= u32_bytes(order, flag));
    assert(entry.subrange(12, 16) =~= u32_bytes(order, channel.info.len() as u32));
}

/// A channel that was written to a request is read back, wherever its entry and its info are, as
/// long as they are apart; reading ends at the offsets at which writing ended.
pub proof fn law_entry_round_trip(
    order: ByteOrder,
    request: Seq<u8>,
    channel: ChannelAttrView,
    entry: int,
    info: int,
)
    requires
        channel_fits(channel),
        0 <= entry,
        entry + ENTRY_SIZE <= request.len(),
        0 <= info,
        info + channel.info.len() <= request.len(),
        entry + ENTRY_SIZE <= info || info + channel.info.len() <= entry,
    ensures
        read_entry(
            order,
            channel_written(order, request, channel, entry, info),
            entry,
            info,
        ) == Ok::<(ChannelAttrView, int), RequestError>((channel, info + channel.info.len())),
{
    let written = channel_written(order, request, channel, entry, info);
    lemma_table_size(order, seq![channel]);
    assert(entry_bytes(order, seq![channel][0]).len() == ENTRY_SIZE);
    assert(written.subrange(entry, entry + ENTRY_SIZE) =~= entry_bytes(order, channel));
    lemma_entry_numbers(order, written, entry, channel);
    assert(written.subrange(info, info + channel.info.len()) =~= channel.info);
}

/// The parts of a request at their offsets, in any bytes that agree with it up to there.
pub(crate) proof fn lemma_request_parts(writer: HostView, group: GroupAttrView)
    requires
        writer.is_valid(),
    ensures
        ({
            let request = request_bytes(writer, group);
            let order = writer.byte_order;
            let all = channels_of(group);
            let group_info = group_info_offset(group);
            let channel_infos = channel_infos_offset(group);
            &&& request.len() == request_size(group)
            &&& request.subrange(0, TABLE_OFFSET as int) == preamble_bytes(writer, group)
            &&& request.subrange(TABLE_OFFSET as int, group_info) == table_bytes(order, all)
            &&& request.subrange(group_info, channel_infos) == group.info
            &&& request.subrange(channel_infos, request.len() as int) == info_bytes(all)
        }),
{
    let request = request_bytes(writer, group);
    let order = writer.byte_order;
    let all = channels_of(group);
    let group_info = group_info_offset(group);
    let channel_infos = channel_infos_offset(group);
    lemma_table_size(order, all);
    lemma_preamble(writer, group);
    assert(request.subrange(0, TABLE_OFFSET as int) =~= preamble_bytes(writer, group));
    assert(request.subrange(TABLE_OFFSET as int, group_info) =~= table_bytes(order, all));
    assert(request.subrange(group_info, channel_infos) =~= group.info);
    assert(request.subrange(channel_infos, request.len() as int) =~= info_bytes(all));
}

/// The parts of a preamble.
pub(crate) proof fn lemma_preamble(writer: HostView, group: GroupAttrView)
    requires
        writer.is_valid(),
    ensures
        ({
            let preamble = preamble_bytes(writer, group);
            let order = writer.byte_order;
            &&& preamble.len() == TABLE_OFFSET
            &&& preamble.subrange(0, 8) == header_bytes(writer)
            &&& preamble.subrange(8, 12) == u32_bytes(order, group.info.len() as u32)
            &&& preamble.subrange(12, 16) == u32_bytes(order, group.producers.len() as u32)
            &&& preamble.subrange(16, 20) == u32_bytes(order, group.consumers.len() as u32)
        }),
{
    let preamble = preamble_bytes(writer, group);
    let order = writer.byte_order;
    law_u32_round_trip(order, group.info.len() as u32);
    law_u32_round_trip(order, group.producers.len() as u32);
    law_u32_round_trip(order, group.consumers.len() as u32);
    crate::bytes::law_u16_round_trip(order, crate::header::MAGIC);
    crate::bytes::law_u16_round_trip(order, crate::header::VERSION);
    crate::bytes::law_u16_round_trip(order, writer.cacheline_size as u16);
    crate::bytes::law_u16_round_trip(order, crate::index::INDEX_SIZE as u16);
    assert(header_bytes(writer).len() == 8);
    assert(preamble.subrange(0, 8) =~= header_bytes(writer));
    assert(preamble.subrange(8, 12) =~= u32_bytes(order, group.info.len() as u32));
    assert(preamble.subrange(12, 16) =~= u32_bytes(order, group.producers.len() as u32));
    assert(preamble.subrange(16, 20) =~= u32_bytes(order, group.consumers.len() as u32));
}

/// Whether `request` holds the first `len` bytes of the request for the group, at least its
/// preamble.
spec fn agrees(request: Seq<u8>, writer: HostView, group: GroupAttrView, len: int) -> bool {
    &&& TABLE_OFFSET <= len <= request.len()
    &&& len <= request_bytes(writer, group).len()
    &&& request.take(len) == request_bytes(writer, group).take(len)
}

/// The numbers in the preamble of a request.
proof fn lemma_preamble_numbers(
    request: Seq<u8>,
    writer: HostView,
    group: GroupAttrView,
    len: int,
)
    requires
        writer.is_valid(),
        group_fits(group),
        agrees(request, writer, group, len),
    ensures
        request.take(HEADER_SIZE as int).subrange(0, HEADER_SIZE as int) == header_bytes(writer),
        u32_at(writer.byte_order, request, 8) == group.info.len(),
        u32_at(writer.byte_order, request, 12) == group.producers.len(),
        u32_at(writer.byte_order, request, 16) == group.consumers.len(),
{
    let order = writer.byte_order;
    let whole = request_bytes(writer, group);
    let preamble = preamble_bytes(writer, group);
    lemma_request_parts(writer, group);
    lemma_preamble(writer, group);
    law_u32_round_trip(order, group.info.len() as u32);
    law_u32_round_trip(order, group.producers.len() as u32);
    law_u32_round_trip(order, group.consumers.len() as u32);
    assert forall|i: int| 0 <= i < len implies request[i] == whole[i] by {
        assert(request.take(len)[i] == whole.take(len)[i]);
    }
    assert forall|i: int| 0 <= i < TABLE_OFFSET implies whole[i] == preamble[i] by {
        assert(whole.subrange(0, TABLE_OFFSET as int)[i] == whole[i]);
    }
    assert(request.take(8).subrange(0, 8) =~= preamble.subrange(0, 8));
    assert(request.subrange(8, 12) =~= preamble.subrange(8, 12));
    assert(request.subrange(12, 16) =~= preamble.subrange(12, 16));
    assert(request.subrange(16, 20) =~= preamble.subrange(16, 20));
}

/// Whether `request` is the request for the group with bytes behind it, or the first `len` bytes
/// of it, its channel table among them.
spec fn agrees_on_table(
    request: Seq<u8>,
    writer: HostView,
    group: GroupAttrView,
    len: int,
) -> bool {
    &&& agrees(request, writer, group, len)
    &&& channel_infos_offset(group) <= len
    &&& len == request.len() || len == request_bytes(writer, group).len()
}

/// A channel of a request: it comes back, unless its info is cut off.
proof fn lemma_entry_comes_back(
    request: Seq<u8>,
    writer: HostView,
    group: GroupAttrView,
    len: int,
    i: int,
)
    requires
        writer.is_valid(),
        group_fits(group),
        agrees_on_table(request, writer, group, len),
        0 <= i < channels_of(group).len(),
    ensures
        ({
            let channel = channels_of(group)[i];
            let at = TABLE_OFFSET + i * ENTRY_SIZE;
            let info = channel_infos_offset(group) + info_bytes(channels_of(group).take(i)).len();
            let end = info + channel.info.len();
            read_entry(writer.byte_order, request, at, info) == if end <= len {
                Ok::<(ChannelAttrView, int), RequestError>((channel, end))
            } else {
                Err::<(ChannelAttrView, int), RequestError>(RequestError::OutOfBounds)
            }
        }),
{
    let order = writer.byte_order;
    let whole = request_bytes(writer, group);
    let all = channels_of(group);
    let table = TABLE_OFFSET as int;
    let group_info = group_info_offset(group);
    let infos = channel_infos_offset(group);
    let channel = all[i];
    let at = table + i * ENTRY_SIZE;
    let info = infos + info_bytes(all.take(i)).len();
    let end = info + channel.info.len();
    assert(channel_fits(channel));
    lemma_request_parts(writer, group);
    lemma_entry_in_table(order, all, i);
    lemma_info_in_infos(all, i);
    assert forall|k: int| 0 <= k < len implies request[k] == whole[k] by {
        assert(request.take(len)[k] == whole.take(len)[k]);
    }
    assert(request.subrange(at, at + ENTRY_SIZE) =~= whole.subrange(table, group_info).subrange(
        i * ENTRY_SIZE,
        (i + 1) * ENTRY_SIZE,
    ));
    lemma_entry_numbers(order, request, at, channel);
    if end <= len {
        assert(request.subrange(info, end) =~= whole.subrange(infos, whole.len() as int).subrange(
            info - infos,
            end - infos,
        ));
    }
}

/// The table of a request: the channels come back, with the offset behind their infos, unless an
/// info is cut off.
proof fn lemma_table_comes_back(
    request: Seq<u8>,
    writer: HostView,
    group: GroupAttrView,
    len: int,
    count: nat,
)
    requires
        writer.is_valid(),
        group_fits(group),
        agrees_on_table(request, writer, group, len),
        count <= channels_of(group).len(),
    ensures
        ({
            let all = channels_of(group);
            let infos = channel_infos_offset(group);
            let end = infos + info_bytes(all.take(count as int)).len();
            read_table(writer.byte_order, request, infos, count) == if end <= len {
                Ok::<(Seq<ChannelAttrView>, int), RequestError>((all.take(count as int), end))
            } else {
                Err::<(Seq<ChannelAttrView>, int), RequestError>(RequestError::OutOfBounds)
            }
        }),
    decreases count,
{
    let all = channels_of(group);
    let n = count as int;
    if count == 0 {
        assert(all.take(0) =~= Seq::<ChannelAttrView>::empty());
    } else {
        lemma_table_comes_back(request, writer, group, len, (count - 1) as nat);
        lemma_entry_comes_back(request, writer, group, len, n - 1);
        lemma_info_grows(all, n - 1);
        assert(all.take(n - 1).push(all[n - 1]) =~= all.take(n));
    }
}

/// Reading gives back what was written: the end that reads the request for a group gets the same
/// group, seen from its side. Bytes behind the request do not matter.
pub proof fn law_request_round_trip(host: HostView, group: GroupAttrView, rest: Seq<u8>)
    requires
        host.is_valid(),
        group_fits(group),
    ensures
        parsed(host, request_bytes(host, group) + rest) == Ok::<GroupAttrView, RequestError>(
            group.mirrored(),
        ),
{
    let whole = request_bytes(host, group);
    let request = whole + rest;
    let len = whole.len() as int;
    let all = channels_of(group);
    let infos = channel_infos_offset(group);
    lemma_request_parts(host, group);
    assert(request.take(len) =~= whole.take(len));
    lemma_preamble_numbers(request, host, group, len);
    law_header_tells_machines_apart(host, host, request.take(HEADER_SIZE as int));
    lemma_table_comes_back(request, host, group, len, all.len());
    assert(all.take(all.len() as int) =~= all);
    assert(all.take(group.producers.len() as int) =~= group.producers);
    assert(all.skip(group.producers.len() as int) =~= group.consumers);
    assert(request.subrange(group_info_offset(group), infos) =~= whole.subrange(
        group_info_offset(group),
        infos,
    ));
}

/// A number that ends within a request does not depend on what comes behind it.
proof fn lemma_number_in_front(order: ByteOrder, request: Seq<u8>, rest: Seq<u8>, at: int)
    requires
        0 <= at,
        at + 4 <= request.len(),
    ensures
        u32_at(order, request + rest, at) == u32_at(order, request, at),
{
    assert((request + rest).subrange(at, at + 4) =~= request.subrange(at, at + 4));
}

/// Nor does a table that could be read.
proof fn lemma_table_in_front(
    order: ByteOrder,
    request: Seq<u8>,
    rest: Seq<u8>,
    info: int,
    count: nat,
)
    requires
        0 <= info,
        read_table(order, request, info, count) is Ok,
    ensures
        read_table(order, request + rest, info, count) == read_table(order, request, info, count),
        (read_table(order, request, info, count)->Ok_0).1 >= info,
    decreases count,
{
    if count > 0 {
        let before = (count - 1) as nat;
        let entry = TABLE_OFFSET + before * ENTRY_SIZE;
        lemma_table_in_front(order, request, rest, info, before);
        let at = (read_table(order, request, info, before)->Ok_0).1;
        lemma_number_in_front(order, request, rest, entry);
        lemma_number_in_front(order, request, rest, entry + 4);
        lemma_number_in_front(order, request, rest, entry + 8);
        lemma_number_in_front(order, request, rest, entry + 12);
        let size = u32_at(order, request, entry + 12);
        assert((request + rest).subrange(at, at + size) =~= request.subrange(at, at + size));
    }
}

/// Bytes behind a request that is accepted are not looked at, whoever wrote it.
pub proof fn law_bytes_behind_a_request_are_ignored(
    host: HostView,
    request: Seq<u8>,
    rest: Seq<u8>,
)
    requires
        parsed(host, request) is Ok,
    ensures
        parsed(host, request + rest) == parsed(host, request),
{
    let order = host.byte_order;
    let more = request + rest;
    let count = u32_at(order, request, 12) + u32_at(order, request, 16);
    let group_info = TABLE_OFFSET + count * ENTRY_SIZE;
    let infos = group_info + u32_at(order, request, 8);
    assert(more.take(HEADER_SIZE as int) =~= request.take(HEADER_SIZE as int));
    lemma_number_in_front(order, request, rest, 8);
    lemma_number_in_front(order, request, rest, 12);
    lemma_number_in_front(order, request, rest, 16);
    lemma_table_in_front(order, request, rest, infos, count as nat);
    assert(more.subrange(group_info, infos) =~= request.subrange(group_info, infos));
}

/// The header of a request that was cut off behind it is that of the machine.
proof fn lemma_cut_header(host: HostView, group: GroupAttrView, len: int)
    requires
        host.is_valid(),
        HEADER_SIZE <= len <= request_bytes(host, group).len(),
    ensures
        header_fault(
            host,
            request_bytes(host, group).take(len).take(HEADER_SIZE as int),
        ) is None,
{
    let whole = request_bytes(host, group);
    let header = whole.take(len).take(HEADER_SIZE as int);
    let preamble = preamble_bytes(host, group);
    lemma_request_parts(host, group);
    lemma_preamble(host, group);
    assert forall|i: int| 0 <= i < TABLE_OFFSET implies whole[i] == preamble[i] by {
        assert(whole.subrange(0, TABLE_OFFSET as int)[i] == whole[i]);
    }
    assert(header.subrange(0, HEADER_SIZE as int) =~= preamble.subrange(0, 8));
    law_header_tells_machines_apart(host, host, header);
}

/// A request that was cut off anywhere is refused.
pub proof fn law_truncated_request_is_refused(host: HostView, group: GroupAttrView, len: int)
    requires
        host.is_valid(),
        group_fits(group),
        0 <= len < request_bytes(host, group).len(),
    ensures
        parsed(host, request_bytes(host, group).take(len)) == Err::<GroupAttrView, RequestError>(
            RequestError::OutOfBounds,
        ),
{
    let whole = request_bytes(host, group);
    let request = whole.take(len);
    let all = channels_of(group);
    assert(whole.len() == request_size(group)) by {
        lemma_request_parts(host, group);
    }
    if len >= HEADER_SIZE {
        lemma_cut_header(host, group, len);
    }
    if len >= TABLE_OFFSET {
        assert(request.take(len) =~= whole.take(len));
        lemma_preamble_numbers(request, host, group, len);
        if channel_infos_offset(group) <= len {
            assert(all.take(all.len() as int) =~= all);
            lemma_table_comes_back(request, host, group, len, all.len());
        }
    }
}

/// A request of a machine with another cacheline size, or with the other byte order, is refused
/// for its header.
pub proof fn law_foreign_request_is_refused(
    reader: HostView,
    writer: HostView,
    group: GroupAttrView,
)
    requires
        reader.is_valid(),
        writer.is_valid(),
        reader != writer,
    ensures
        parsed(reader, request_bytes(writer, group)) == Err::<GroupAttrView, RequestError>(
            RequestError::HeaderError(
                if reader.byte_order != writer.byte_order {
                    HeaderError::MagicMismatch
                } else {
                    HeaderError::CachelineSizeMismatch
                },
            ),
        ),
{
    let whole = request_bytes(writer, group);
    let header = whole.take(HEADER_SIZE as int);
    lemma_request_parts(writer, group);
    lemma_preamble(writer, group);
    assert(header.subrange(0, HEADER_SIZE as int) =~= preamble_bytes(writer, group).subrange(
        0,
        8,
    )) by {
        assert forall|i: int| 0 <= i < TABLE_OFFSET implies whole[i] == preamble_bytes(
            writer,
            group,
        )[i] by {
            assert(whole.subrange(0, TABLE_OFFSET as int)[i] == whole[i]);
        }
    }
    if reader.byte_order == writer.byte_order {
        law_header_tells_machines_apart(reader, writer, header);
    } else {
        law_header_tells_byte_orders_apart(reader, writer, header);
    }
}

} // verus!
