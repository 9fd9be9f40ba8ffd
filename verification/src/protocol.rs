//! Requests that offer a group of channels to the other end, and the responses to them.
use crate::attr::{channel_views, ChannelAttr, ChannelAttrView, GroupAttr, GroupAttrView};
use crate::bytes::{decode_u32, encode_u32, law_u32_round_trip, u32_bytes};
use crate::error::{RequestError, TransferError};
use crate::header::{verify_header, write_header, HEADER_SIZE};
use crate::host::{ByteOrder, Host, NonZeroSize};
use crate::protocol_spec::{
    channel_written, channels_of, entry_bytes, info_bytes, overwritten, parsed, preamble_bytes,
    read_entry, read_table, request_bytes, request_size, table_bytes, u32_at, ENTRY_SIZE,
    TABLE_OFFSET,
};
use vstd::prelude::*;

verus! {

/// An entry of the channel table.
struct ChannelEntry {
    additional_messages: u32,
    message_size: u32,
    eventfd: u32,
    info_size: u32,
}

impl ChannelEntry {
    spec fn bytes(&self, order: ByteOrder) -> Seq<u8> {
        u32_bytes(order, self.additional_messages) + u32_bytes(order, self.message_size)
            + u32_bytes(order, self.eventfd) + u32_bytes(order, self.info_size)
    }

    fn from_attr(attr: &ChannelAttr) -> (entry: ChannelEntry)
        ensures
            forall|order: ByteOrder| #[trigger]
                entry.bytes(order) == entry_bytes(order, attr@),
    {
        ChannelEntry {
            additional_messages: attr.additional_messages as u32,
            message_size: attr.message_size.get() as u32,
            eventfd: if attr.eventfd {
                1
            } else {
                0
            },
            info_size: attr.info.len() as u32,
        }
    }
}

/// Reads a 32 bit integer of a request.
fn request_read(order: ByteOrder, request: &[u8], offset: usize) -> (value: Result<
    u32,
    RequestError,
>)
    ensures
        match value {
            Ok(v) => offset + 4 <= request@.len() && v == u32_at(order, request@, offset as int),
            Err(e) => offset + 4 > request@.len() && e == RequestError::OutOfBounds,
        },
{
    if request.len() < 4 || offset > request.len() - 4 {
        return Err(RequestError::OutOfBounds);
    }
    Ok(decode_u32(order, request, offset))
}

/// Writes a 32 bit integer to a request.
fn request_write(order: ByteOrder, request: &mut Vec<u8>, offset: usize, value: u32) -> (result:
    Result<(), RequestError>)
    ensures
        match result {
            Ok(_) => {
                &&& offset + 4 <= old(request)@.len()
                &&& final(request)@ == overwritten(
                    old(request)@,
                    offset as int,
                    u32_bytes(order, value),
                )
            },
            Err(e) => {
                &&& offset + 4 > old(request)@.len()
                &&& e == RequestError::OutOfBounds
                &&& final(request)@ == old(request)@
            },
        },
{
    if request.len() < 4 || offset > request.len() - 4 {
        return Err(RequestError::OutOfBounds);
    }
    let bytes: [u8; 4] = encode_u32(order, value);
    proof {
        law_u32_round_trip(order, value);
    }
    request.set(offset, bytes[0]);
    request.set(offset + 1, bytes[1]);
    request.set(offset + 2, bytes[2]);
    request.set(offset + 3, bytes[3]);
    assert(request@ =~= overwritten(old(request)@, offset as int, u32_bytes(order, value)));
    Ok(())
}

/// Writes bytes to a request.
fn request_write_bytes(request: &mut Vec<u8>, offset: usize, bytes: &Vec<u8>)
    requires
        offset + bytes@.len() <= old(request)@.len(),
    ensures
        final(request)@ == overwritten(old(request)@, offset as int, bytes@),
{
    let size: usize = request.len();
    let mut i: usize = 0;
    assert(request@ =~= overwritten(old(request)@, offset as int, bytes@.take(0)));
    while i < bytes.len()
        invariant
            i <= bytes@.len(),
            size == old(request)@.len(),
            offset + bytes@.len() <= size,
            request@ == overwritten(old(request)@, offset as int, bytes@.take(i as int)),
        decreases bytes@.len() - i,
    {
        request.set(offset + i, bytes[i]);
        i = i + 1;
        assert(request@ =~= overwritten(old(request)@, offset as int, bytes@.take(i as int)));
    }
    assert(bytes@.take(i as int) =~= bytes@);
}

/// Where the parts of a request are.
struct Layout {
    group_info_size: usize,
    num_channels: [usize; 2],
    channel_table: usize,
    group_info: usize,
    channel_infos: usize,
    size: usize,
}

/// The infos of some of the channels are not longer than those of all.
pub proof fn lemma_info_grows(channels: Seq<ChannelAttrView>, count: int)
    requires
        0 <= count <= channels.len(),
    ensures
        info_bytes(channels.take(count)).len() <= info_bytes(channels).len(),
        count < channels.len() ==> info_bytes(channels.take(count + 1)) == info_bytes(
            channels.take(count),
        ) + channels[count].info && info_bytes(channels.take(count + 1)).len() <= info_bytes(
            channels,
        ).len(),
    decreases channels.len() - count,
{
    if count == channels.len() {
        assert(channels.take(count) =~= channels);
    } else {
        assert(channels.take(count + 1).drop_last() =~= channels.take(count));
        lemma_info_grows(channels, count + 1);
    }
}

/// The lengths of a table and of its entries.
pub proof fn lemma_table_size(order: ByteOrder, channels: Seq<ChannelAttrView>)
    ensures
        table_bytes(order, channels).len() == channels.len() * ENTRY_SIZE,
        forall|i: int|
            0 <= i < channels.len() ==> #[trigger] entry_bytes(order, channels[i]).len()
                == ENTRY_SIZE,
    decreases channels.len(),
{
    assert forall|c: ChannelAttrView| #[trigger]
        entry_bytes(order, c).len() == ENTRY_SIZE by {
        law_u32_round_trip(order, c.additional_messages as u32);
        law_u32_round_trip(order, c.message_size as u32);
        law_u32_round_trip(
            order,
            if c.eventfd {
                1
            } else {
                0
            },
        );
        law_u32_round_trip(order, c.info.len() as u32);
    }
    if channels.len() > 0 {
        lemma_table_size(order, channels.drop_last());
    }
}

/// Adds the lengths of the infos of channels to `offset`.
fn add_info_sizes(
    offset: usize,
    channels: &Vec<ChannelAttr>,
    Ghost(all): Ghost<Seq<ChannelAttrView>>,
    Ghost(start): Ghost<int>,
) -> (end: usize)
    requires
        0 <= start,
        start + channels@.len() <= all.len(),
        all.subrange(start, start + channels@.len()) == channel_views(channels@),
        offset + info_bytes(all).len() - info_bytes(all.take(start)).len() <= usize::MAX,
    ensures
        end == offset + info_bytes(all.take(start + channels@.len())).len() - info_bytes(
            all.take(start),
        ).len(),
{
    let mut end: usize = offset;
    let mut i: usize = 0;
    while i < channels.len()
        invariant
            i <= channels@.len(),
            0 <= start,
            start + channels@.len() <= all.len(),
            all.subrange(start, start + channels@.len()) == channel_views(channels@),
            offset + info_bytes(all).len() - info_bytes(all.take(start)).len() <= usize::MAX,
            end == offset + info_bytes(all.take(start + i)).len() - info_bytes(
                all.take(start),
            ).len(),
        decreases channels@.len() - i,
    {
        proof {
            lemma_info_grows(all, start + i);
            assert(all[start + i] == all.subrange(start, start + channels@.len())[i as int]);
        }
        end = end + channels[i].info.len();
        i = i + 1;
    }
    end
}

impl Layout {
    spec fn fits(&self, group: GroupAttrView) -> bool {
        &&& self.group_info_size == HEADER_SIZE
        &&& self.num_channels@ == seq![(HEADER_SIZE + 4) as usize, (HEADER_SIZE + 8) as usize]
        &&& self.channel_table == TABLE_OFFSET
        &&& self.group_info == TABLE_OFFSET + channels_of(group).len() * ENTRY_SIZE
        &&& self.channel_infos == self.group_info + group.info.len()
        &&& self.size == request_size(group)
    }

    fn calc(config: &GroupAttr) -> (layout: Layout)
        requires
            request_size(config@) <= usize::MAX,
        ensures
            layout.fits(config@),
    {
        let ghost all = channels_of(config@);
        let mut offset: usize = HEADER_SIZE;
        let group_info_size: usize = offset;
        offset = offset + 4;
        let num_channels: [usize; 2] = [offset, offset + 4];
        offset = offset + 8;
        let channel_table: usize = offset;
        offset = offset + (config.producers.len() + config.consumers.len()) * ENTRY_SIZE;
        let group_info: usize = offset;
        offset = offset + config.info.len();
        let channel_infos: usize = offset;
        proof {
            let producers = config.producers@.len() as int;
            assert(all.subrange(0, producers) =~= config@.producers);
            assert(all.subrange(producers, all.len() as int) =~= config@.consumers);
            assert(all.take(0) =~= Seq::<ChannelAttrView>::empty());
            assert(all.take(all.len() as int) =~= all);
            lemma_info_grows(all, producers);
        }
        offset = add_info_sizes(offset, &config.producers, Ghost(all), Ghost(0int));
        offset = add_info_sizes(
            offset,
            &config.consumers,
            Ghost(all),
            Ghost(config.producers@.len() as int),
        );
        assert(num_channels@ =~= seq![(HEADER_SIZE + 4) as usize, (HEADER_SIZE + 8) as usize]);
        Layout {
            group_info_size,
            num_channels,
            channel_table,
            group_info,
            channel_infos,
            size: offset,
        }
    }
}

/// Writing next to what was just written.
proof fn lemma_overwritten_on(request: Seq<u8>, at: int, first: Seq<u8>, second: Seq<u8>)
    requires
        0 <= at,
        at + first.len() + second.len() <= request.len(),
    ensures
        overwritten(overwritten(request, at, first), at + first.len(), second) == overwritten(
            request,
            at,
            first + second,
        ),
{
    assert(overwritten(overwritten(request, at, first), at + first.len(), second)
        =~= overwritten(request, at, first + second));
}

/// What writing leaves alone, and what it leaves behind.
proof fn lemma_overwritten(request: Seq<u8>, at: int, bytes: Seq<u8>)
    requires
        0 <= at,
        at + bytes.len() <= request.len(),
    ensures
        overwritten(request, at, bytes).len() == request.len(),
        overwritten(request, at, bytes).subrange(at, at + bytes.len()) == bytes,
        forall|i: int, j: int|
            #![trigger overwritten(request, at, bytes).subrange(i, j)]
            0 <= i <= j <= request.len() && (j <= at || at + bytes.len() <= i) ==> overwritten(
                request,
                at,
                bytes,
            ).subrange(i, j) == request.subrange(i, j),
{
    let after = overwritten(request, at, bytes);
    assert(after.subrange(at, at + bytes.len()) =~= bytes);
    assert forall|i: int, j: int|
        #![trigger after.subrange(i, j)]
        0 <= i <= j <= request.len() && (j <= at || at + bytes.len() <= i) implies after.subrange(
        i,
        j,
    ) == request.subrange(i, j) by {
        assert(after.subrange(i, j) =~= request.subrange(i, j));
    }
}

/// Writes the entry and the info of a channel, and moves both offsets behind them.
fn request_write_channel(
    order: ByteOrder,
    request: &mut Vec<u8>,
    attr: &ChannelAttr,
    entry_offset: &mut usize,
    info_offset: &mut usize,
)
    requires
        *old(entry_offset) + ENTRY_SIZE <= old(request)@.len(),
        *old(info_offset) + attr@.info.len() <= old(request)@.len(),
    ensures
        *final(entry_offset) == *old(entry_offset) + ENTRY_SIZE,
        *final(info_offset) == *old(info_offset) + attr@.info.len(),
        final(request)@ == channel_written(
            order,
            old(request)@,
            attr@,
            *old(entry_offset) as int,
            *old(info_offset) as int,
        ),
{
    let entry: ChannelEntry = ChannelEntry::from_attr(attr);
    let at: usize = *entry_offset;
    let size: usize = request.len();
    let ghost start = request@;
    proof {
        law_u32_round_trip(order, entry.additional_messages);
        law_u32_round_trip(order, entry.message_size);
        law_u32_round_trip(order, entry.eventfd);
        law_u32_round_trip(order, entry.info_size);
        let b0 = u32_bytes(order, entry.additional_messages);
        let b1 = u32_bytes(order, entry.message_size);
        let b2 = u32_bytes(order, entry.eventfd);
        let b3 = u32_bytes(order, entry.info_size);
        lemma_overwritten_on(start, at as int, b0, b1);
        lemma_overwritten_on(start, at as int, b0 + b1, b2);
        lemma_overwritten_on(start, at as int, b0 + b1 + b2, b3);
        assert(entry.bytes(order) == entry_bytes(order, attr@));
    }
    let _ = request_write(order, request, at, entry.additional_messages);
    let _ = request_write(order, request, at + 4, entry.message_size);
    let _ = request_write(order, request, at + 8, entry.eventfd);
    let _ = request_write(order, request, at + 12, entry.info_size);
    assert(request@ == overwritten(start, at as int, entry_bytes(order, attr@)));
    request_write_bytes(request, *info_offset, &attr.info);
    *info_offset = *info_offset + attr.info.len();
    *entry_offset = at + ENTRY_SIZE;
}

/// The request has its preamble, its group info and the first `count` channels.
spec fn written(request: Seq<u8>, host: Host, group: GroupAttrView, count: int) -> bool {
    let all = channels_of(group);
    let group_info = TABLE_OFFSET + all.len() * ENTRY_SIZE;
    let channel_infos = group_info + group.info.len();
    &&& request.len() == request_size(group)
    &&& request.subrange(0, TABLE_OFFSET as int) == preamble_bytes(host@, group)
    &&& request.subrange(TABLE_OFFSET as int, TABLE_OFFSET + count * ENTRY_SIZE) == table_bytes(
        host@.byte_order,
        all.take(count),
    )
    &&& request.subrange(group_info, channel_infos) == group.info
    &&& request.subrange(
        channel_infos,
        channel_infos + info_bytes(all.take(count)).len(),
    ) == info_bytes(all.take(count))
}

/// One channel more.
proof fn lemma_written_one_more(
    request: Seq<u8>,
    host: Host,
    group: GroupAttrView,
    count: int,
)
    requires
        written(request, host, group, count),
        0 <= count < channels_of(group).len(),
    ensures
        ({
            let all = channels_of(group);
            let entry = TABLE_OFFSET + count * ENTRY_SIZE;
            let channel_infos = TABLE_OFFSET + all.len() * ENTRY_SIZE + group.info.len();
            let info = channel_infos + info_bytes(all.take(count)).len();
            let after = overwritten(
                overwritten(request, entry, entry_bytes(host@.byte_order, all[count])),
                info,
                all[count].info,
            );
            &&& written(after, host, group, count + 1)
            &&& entry + ENTRY_SIZE <= request.len()
            &&& info + all[count].info.len() <= request.len()
            &&& info + all[count].info.len() == channel_infos + info_bytes(
                all.take(count + 1),
            ).len()
        }),
{
    let all = channels_of(group);
    let order = host@.byte_order;
    let entry = TABLE_OFFSET + count * ENTRY_SIZE;
    let group_info = TABLE_OFFSET + all.len() * ENTRY_SIZE;
    let channel_infos = group_info + group.info.len();
    let info = channel_infos + info_bytes(all.take(count)).len();
    let channel = all[count];
    lemma_info_grows(all, count);
    lemma_table_size(order, all.take(count));
    lemma_table_size(order, all);
    assert(entry_bytes(order, all[count]).len() == ENTRY_SIZE);
    let middle = overwritten(request, entry, entry_bytes(order, channel));
    let after = overwritten(middle, info, channel.info);
    lemma_overwritten(request, entry, entry_bytes(order, channel));
    lemma_overwritten(middle, info, channel.info);
    assert(all.take(count + 1).drop_last() =~= all.take(count));
    let table = TABLE_OFFSET as int;
    assert(after.subrange(0, table) == middle.subrange(0, table));
    assert(after.subrange(table, entry) == middle.subrange(table, entry));
    assert(after.subrange(entry, entry + ENTRY_SIZE) == middle.subrange(entry, entry + ENTRY_SIZE));
    assert(after.subrange(table, entry + ENTRY_SIZE) =~= after.subrange(table, entry)
        + after.subrange(entry, entry + ENTRY_SIZE));
    assert(after.subrange(group_info, channel_infos) == middle.subrange(group_info, channel_infos));
    assert(after.subrange(channel_infos, info) == middle.subrange(channel_infos, info));
    let end = info + channel.info.len();
    assert(after.subrange(channel_infos, end) =~= after.subrange(channel_infos, info)
        + after.subrange(info, end));
}

/// Writes channels, from that one of the request on which has `start` in front of it.
fn request_write_channels(
    host: &Host,
    request: &mut Vec<u8>,
    channels: &Vec<ChannelAttr>,
    entry_offset: &mut usize,
    info_offset: &mut usize,
    Ghost(group): Ghost<GroupAttrView>,
    Ghost(start): Ghost<int>,
)
    requires
        0 <= start,
        start + channels@.len() <= channels_of(group).len(),
        channels_of(group).subrange(start, start + channels@.len()) == channel_views(channels@),
        written(old(request)@, *host, group, start),
        *old(entry_offset) == TABLE_OFFSET + start * ENTRY_SIZE,
        *old(info_offset) == TABLE_OFFSET + channels_of(group).len() * ENTRY_SIZE
            + group.info.len() + info_bytes(channels_of(group).take(start)).len(),
    ensures
        ({
            let end = start + channels@.len();
            &&& written(final(request)@, *host, group, end)
            &&& *final(entry_offset) == TABLE_OFFSET + end * ENTRY_SIZE
            &&& *final(info_offset) == TABLE_OFFSET + channels_of(group).len() * ENTRY_SIZE
                + group.info.len() + info_bytes(channels_of(group).take(end)).len()
        }),
{
    let order = host.byte_order();
    let ghost all = channels_of(group);
    let mut i: usize = 0;
    while i < channels.len()
        invariant
            i <= channels@.len(),
            order == host@.byte_order,
            all == channels_of(group),
            0 <= start,
            start + channels@.len() <= all.len(),
            all.subrange(start, start + channels@.len()) == channel_views(channels@),
            written(request@, *host, group, start + i),
            *entry_offset == TABLE_OFFSET + (start + i) * ENTRY_SIZE,
            *info_offset == TABLE_OFFSET + all.len() * ENTRY_SIZE + group.info.len() + info_bytes(
                all.take(start + i),
            ).len(),
        decreases channels@.len() - i,
    {
        proof {
            lemma_written_one_more(request@, *host, group, start + i);
            assert(all[start + i] == all.subrange(start, start + channels@.len())[i as int]);
        }
        request_write_channel(order, request, &channels[i], entry_offset, info_offset);
        i = i + 1;
    }
}

/// A request that has all of its parts.
proof fn lemma_written_all(request: Seq<u8>, host: Host, group: GroupAttrView)
    requires
        written(request, host, group, channels_of(group).len() as int),
    ensures
        request == request_bytes(host@, group),
{
    let all = channels_of(group);
    let table = TABLE_OFFSET as int;
    let group_info = table + all.len() * ENTRY_SIZE;
    let channel_infos = group_info + group.info.len();
    assert(all.take(all.len() as int) =~= all);
    assert(request =~= request.subrange(0, table) + request.subrange(table, group_info)
        + request.subrange(group_info, channel_infos) + request.subrange(
        channel_infos,
        request.len() as int,
    ));
}

/// Writes what stands in front of the channel table.
fn request_write_preamble(
    host: &Host,
    request: &mut Vec<u8>,
    config: &GroupAttr,
    layout: &Layout,
)
    requires
        old(request)@.len() >= TABLE_OFFSET,
        layout.fits(config@),
    ensures
        final(request)@.len() == old(request)@.len(),
        final(request)@.subrange(0, TABLE_OFFSET as int) == preamble_bytes(host@, config@),
{
    let order = host.byte_order();
    let ghost group = config@;
    write_header(host, request);
    let ghost b0 = crate::header::header_bytes(host@);
    let ghost b1 = u32_bytes(order, group.info.len() as u32);
    let ghost b2 = u32_bytes(order, group.producers.len() as u32);
    let ghost b3 = u32_bytes(order, group.consumers.len() as u32);
    let ghost start = request@;
    let _ = request_write(order, request, layout.group_info_size, config.info.len() as u32);
    let _ = request_write(order, request, layout.num_channels[0], config.producers.len() as u32);
    let _ = request_write(order, request, layout.num_channels[1], config.consumers.len() as u32);
    proof {
        law_u32_round_trip(order, group.info.len() as u32);
        law_u32_round_trip(order, group.producers.len() as u32);
        law_u32_round_trip(order, group.consumers.len() as u32);
        assert(start =~= overwritten(start, 0, b0));
        assert(b0.len() == HEADER_SIZE);
        lemma_overwritten_on(start, 0, b0, b1);
        lemma_overwritten_on(start, 0, b0 + b1, b2);
        lemma_overwritten_on(start, 0, b0 + b1 + b2, b3);
        lemma_overwritten(start, 0, b0 + b1 + b2 + b3);
    }
}

/// Adds the sizes of the infos of channels to `size`, unless the sum is more than a request can
/// have.
fn checked_add_info_sizes(
    size: usize,
    channels: &Vec<ChannelAttr>,
    Ghost(all): Ghost<Seq<ChannelAttrView>>,
    Ghost(start): Ghost<int>,
) -> (sum: Option<usize>)
    requires
        0 <= start,
        start + channels@.len() <= all.len(),
        all.subrange(start, start + channels@.len()) == channel_views(channels@),
    ensures
        ({
            let end = start + channels@.len();
            let added = info_bytes(all.take(end)).len() - info_bytes(all.take(start)).len();
            &&& sum is Some <==> size + added <= usize::MAX
            &&& sum matches Some(s) ==> s == size + added
        }),
{
    let ghost end = start + channels@.len();
    let mut sum: usize = size;
    let mut i: usize = 0;
    while i < channels.len()
        invariant
            i <= channels@.len(),
            0 <= start,
            end == start + channels@.len(),
            end <= all.len(),
            all.subrange(start, end) == channel_views(channels@),
            sum == size + info_bytes(all.take(start + i)).len() - info_bytes(
                all.take(start),
            ).len(),
        decreases channels@.len() - i,
    {
        proof {
            lemma_info_grows(all, start + i);
            lemma_info_grows(all.take(end), start + i + 1);
            assert(all.take(end).take(start + i + 1) =~= all.take(start + i + 1));
            assert(all[start + i] == all.subrange(start, end)[i as int]);
        }
        sum = match sum.checked_add(channels[i].info.len()) {
            Some(sum) => sum,
            None => return None,
        };
        i = i + 1;
    }
    Some(sum)
}

/// Whether the request for a group is small enough to be created.
pub fn request_fits(config: &GroupAttr) -> (fits: bool)
    ensures
        fits == (request_size(config@) <= isize::MAX),
{
    let ghost all = channels_of(config@);
    let producers: usize = config.producers.len();
    let consumers: usize = config.consumers.len();
    let limit: usize = isize::MAX as usize;
    proof {
        assert(all.subrange(0, producers as int) =~= config@.producers);
        assert(all.subrange(producers as int, all.len() as int) =~= config@.consumers);
        assert(all.take(0) =~= Seq::<ChannelAttrView>::empty());
        assert(all.take(all.len() as int) =~= all);
        lemma_info_grows(all, producers as int);
    }
    if producers > limit / ENTRY_SIZE || consumers > limit / ENTRY_SIZE || config.info.len()
        > limit {
        return false;
    }
    let entries: usize = (producers + consumers) * ENTRY_SIZE;
    if entries > limit - TABLE_OFFSET || config.info.len() > limit - TABLE_OFFSET - entries {
        return false;
    }
    let size: usize = TABLE_OFFSET + entries + config.info.len();
    match checked_add_info_sizes(size, &config.producers, Ghost(all), Ghost(0int)) {
        Some(size) => match checked_add_info_sizes(
            size,
            &config.consumers,
            Ghost(all),
            Ghost(producers as int),
        ) {
            Some(size) => size <= limit,
            None => false,
        },
        None => false,
    }
}

/// The request that offers a group of channels to the other end.
pub fn create_request(config: &GroupAttr, host: &Host) -> (request: Vec<u8>)
    requires
        request_size(config@) <= isize::MAX,
    ensures
        request@ == request_bytes(host@, config@),
        request@.len() == request_size(config@),
{
    let ghost group = config@;
    let ghost all = channels_of(group);
    let layout: Layout = Layout::calc(config);
    let mut request: Vec<u8> = vec![0; layout.size];
    request_write_preamble(host, &mut request, config, &layout);
    let ghost begun = request@;
    request_write_bytes(&mut request, layout.group_info, &config.info);
    proof {
        lemma_overwritten(begun, layout.group_info as int, group.info);
        assert(all.take(0) =~= Seq::<ChannelAttrView>::empty());
        assert(request@.subrange(TABLE_OFFSET as int, TABLE_OFFSET as int) =~= Seq::<u8>::empty());
        assert(request@.subrange(layout.channel_infos as int, layout.channel_infos as int)
            =~= Seq::<u8>::empty());
        assert(written(request@, *host, group, 0));
        let producers = config.producers@.len() as int;
        assert(all.subrange(0, producers) =~= group.producers);
        assert(all.subrange(producers, all.len() as int) =~= group.consumers);
    }
    let mut entry_offset: usize = layout.channel_table;
    let mut info_offset: usize = layout.channel_infos;
    request_write_channels(
        host,
        &mut request,
        &config.producers,
        &mut entry_offset,
        &mut info_offset,
        Ghost(group),
        Ghost(0int),
    );
    request_write_channels(
        host,
        &mut request,
        &config.consumers,
        &mut entry_offset,
        &mut info_offset,
        Ghost(group),
        Ghost(config.producers@.len() as int),
    );
    proof {
        lemma_written_all(request@, *host, group);
    }
    request
}

/// Reads the entry and the info of a channel, and moves both offsets behind them. They stay where
/// they are if it cannot be read.
fn request_read_entry(
    order: ByteOrder,
    request: &[u8],
    entry_offset: &mut usize,
    info_offset: &mut usize,
) -> (channel: Result<ChannelAttr, RequestError>)
    ensures
        match channel {
            Ok(c) => {
                &&& read_entry(
                    order,
                    request@,
                    *old(entry_offset) as int,
                    *old(info_offset) as int,
                ) == Ok::<(ChannelAttrView, int), RequestError>(
                    (c@, *final(info_offset) as int),
                )
                &&& *final(entry_offset) == *old(entry_offset) + ENTRY_SIZE
                &&& *final(info_offset) <= request@.len()
            },
            Err(e) => {
                &&& read_entry(
                    order,
                    request@,
                    *old(entry_offset) as int,
                    *old(info_offset) as int,
                ) == Err::<(ChannelAttrView, int), RequestError>(e)
                &&& *final(entry_offset) == *old(entry_offset)
                &&& *final(info_offset) == *old(info_offset)
            },
        },
{
    let entry: usize = *entry_offset;
    let info: usize = *info_offset;
    if request.len() < ENTRY_SIZE || entry > request.len() - ENTRY_SIZE {
        return Err(RequestError::OutOfBounds);
    }
    let additional_messages: u32 = decode_u32(order, request, entry);
    let entry_message_size: u32 = decode_u32(order, request, entry + 4);
    let eventfd: u32 = decode_u32(order, request, entry + 8);
    let info_size: u32 = decode_u32(order, request, entry + 12);
    let message_size: NonZeroSize = match NonZeroSize::new(entry_message_size as usize) {
        Some(size) => size,
        None => return Err(RequestError::OutOfBounds),
    };
    if info > request.len() || info_size as usize > request.len() - info {
        return Err(RequestError::OutOfBounds);
    }
    let info_end: usize = info + info_size as usize;
    let channel_info: Vec<u8> = vstd::slice::slice_to_vec(
        vstd::slice::slice_subrange(request, info, info_end),
    );
    *entry_offset = entry + ENTRY_SIZE;
    *info_offset = info_end;
    Ok(
        ChannelAttr {
            additional_messages: additional_messages as usize,
            message_size,
            eventfd: eventfd != 0,
            info: channel_info,
        },
    )
}

/// Once an entry cannot be read, the table cannot be read.
proof fn lemma_table_fails(
    order: ByteOrder,
    request: Seq<u8>,
    info: int,
    count: nat,
    all: nat,
    error: RequestError,
)
    requires
        count <= all,
        read_table(order, request, info, count) == Err::<(Seq<ChannelAttrView>, int), RequestError>(
            error,
        ),
    ensures
        read_table(order, request, info, all) == Err::<(Seq<ChannelAttrView>, int), RequestError>(
            error,
        ),
    decreases all,
{
    if count < all {
        lemma_table_fails(order, request, info, count, (all - 1) as nat, error);
    }
}

/// Reads a request of the other end: the group that it offers, seen from this end.
pub fn parse_request(request: &[u8], host: &Host) -> (group: Result<GroupAttr, RequestError>)
    ensures
        match group {
            Ok(g) => parsed(host@, request@) == Ok::<GroupAttrView, RequestError>(g@),
            Err(e) => parsed(host@, request@) == Err::<GroupAttrView, RequestError>(e),
        },
{
    if request.len() < HEADER_SIZE {
        return Err(RequestError::OutOfBounds);
    }
    let header: &[u8] = vstd::slice::slice_subrange(request, 0, HEADER_SIZE);
    assert(header@ =~= request@.take(HEADER_SIZE as int));
    match verify_header(host, header) {
        Ok(_) => {},
        Err(e) => return Err(RequestError::from(e)),
    }
    let order = host.byte_order();
    let group_info_size: u32 = match request_read(order, request, HEADER_SIZE) {
        Ok(size) => size,
        Err(e) => return Err(e),
    };
    let num_consumers: u32 = match request_read(order, request, HEADER_SIZE + 4) {
        Ok(count) => count,
        Err(e) => return Err(e),
    };
    let num_producers: u32 = match request_read(order, request, HEADER_SIZE + 8) {
        Ok(count) => count,
        Err(e) => return Err(e),
    };
    let num_channels: u64 = num_consumers as u64 + num_producers as u64;
    let table_end: u64 = TABLE_OFFSET as u64 + num_channels * ENTRY_SIZE as u64;
    if table_end + group_info_size as u64 > request.len() as u64 {
        return Err(RequestError::OutOfBounds);
    }
    let group_info_offset: usize = table_end as usize;
    let channel_infos: usize = group_info_offset + group_info_size as usize;
    let info: Vec<u8> = vstd::slice::slice_to_vec(
        vstd::slice::slice_subrange(request, group_info_offset, channel_infos),
    );
    let mut offset: usize = TABLE_OFFSET;
    let mut channel_info_offset: usize = channel_infos;
    let mut consumers: Vec<ChannelAttr> = Vec::new();
    let mut producers: Vec<ChannelAttr> = Vec::new();
    let mut i: u64 = 0;
    assert(channel_views(consumers@) + channel_views(producers@) =~= Seq::<
        ChannelAttrView,
    >::empty());
    while i < num_channels
        invariant
            i <= num_channels,
            num_channels == num_consumers + num_producers,
            request@.len() <= usize::MAX,
            offset == TABLE_OFFSET + i * ENTRY_SIZE,
            TABLE_OFFSET + num_channels * ENTRY_SIZE <= request@.len(),
            channel_info_offset <= request@.len(),
            consumers@.len() == if i < num_consumers {
                i
            } else {
                num_consumers as u64
            },
            producers@.len() == i - consumers@.len(),
            read_table(order, request@, channel_infos as int, i as nat) == Ok::<
                (Seq<ChannelAttrView>, int),
                RequestError,
            >(
                (
                    channel_views(consumers@) + channel_views(producers@),
                    channel_info_offset as int,
                ),
            ),
            order == host@.byte_order,
            parsed(host@, request@) == match read_table(
                order,
                request@,
                channel_infos as int,
                num_channels as nat,
            ) {
                Ok((channels, end)) => Ok::<GroupAttrView, RequestError>(
                    GroupAttrView {
                        consumers: channels.take(num_consumers as int),
                        producers: channels.skip(num_consumers as int),
                        info: info@,
                    },
                ),
                Err(e) => Err::<GroupAttrView, RequestError>(e),
            },
        decreases num_channels - i,
    {
        let ghost before = channel_views(consumers@) + channel_views(producers@);
        let ghost info_before = channel_info_offset as int;
        let attr: ChannelAttr = match request_read_entry(
            order,
            request,
            &mut offset,
            &mut channel_info_offset,
        ) {
            Ok(attr) => attr,
            Err(e) => {
                proof {
                    lemma_table_fails(
                        order,
                        request@,
                        channel_infos as int,
                        (i + 1) as nat,
                        num_channels as nat,
                        e,
                    );
                }
                return Err(e);
            },
        };
        let ghost view = attr@;
        if i < num_consumers as u64 {
            consumers.push(attr);
        } else {
            producers.push(attr);
        }
        i = i + 1;
        assert(channel_views(consumers@) + channel_views(producers@) =~= before.push(view));
    }
    proof {
        let all = channel_views(consumers@) + channel_views(producers@);
        assert(all.take(num_consumers as int) =~= channel_views(consumers@));
        assert(all.skip(num_consumers as int) =~= channel_views(producers@));
    }
    Ok(GroupAttr { consumers, producers, info })
}

/// The response to a request.
pub open spec fn response_bytes(success: bool) -> Seq<u8> {
    if success {
        seq![0u8, 0, 0, 0]
    } else {
        seq![0xffu8, 0xff, 0xff, 0xff]
    }
}

/// The response to a request that was or was not accepted.
pub fn create_response(success: bool) -> (response: Vec<u8>)
    ensures
        response@ == response_bytes(success),
{
    let response: Vec<u8> = if success {
        vec![0, 0, 0, 0]
    } else {
        vec![0xff, 0xff, 0xff, 0xff]
    };
    assert(response@ =~= response_bytes(success));
    response
}

/// Whether a response says that the request was accepted.
pub open spec fn is_acceptance(response: Seq<u8>) -> bool {
    response == response_bytes(true)
}

/// Reads the response to a request: anything but an acceptance is an error.
pub fn parse_response(response: &[u8]) -> (result: Result<(), TransferError>)
    ensures
        match result {
            Ok(_) => is_acceptance(response@),
            Err(e) => !is_acceptance(response@) && e == TransferError::ResponseError,
        },
{
    if response.len() == 4 && response[0] == 0 && response[1] == 0 && response[2] == 0
        && response[3] == 0 {
        assert(response@ =~= response_bytes(true));
        Ok(())
    } else {
        Err(TransferError::ResponseError)
    }
}

/// The end that asked learns from the response whether its request was accepted.
pub proof fn law_response_round_trip(success: bool)
    ensures
        is_acceptance(response_bytes(success)) <==> success,
{
    if !success {
        assert(response_bytes(false)[0] != response_bytes(true)[0]);
    }
}

} // verus!
