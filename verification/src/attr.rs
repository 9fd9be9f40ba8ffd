//! What a queue, a channel and a group of channels are to look like.
use crate::host::{law_round_up, Host, HostView, NonZeroSize};
use crate::index::{INDEX_SIZE, MIN_MSGS};
use vstd::prelude::*;

verus! {

/// The shape of a queue.
#[derive(Clone, Copy)]
pub struct QueueAttr {
    pub additional_messages: usize,
    pub message_size: NonZeroSize,
}

/// The shape of a queue.
pub struct QueueAttrView {
    pub additional_messages: nat,
    pub message_size: nat,
}

impl View for QueueAttr {
    type V = QueueAttrView;

    open spec fn view(&self) -> QueueAttrView {
        QueueAttrView {
            additional_messages: self.additional_messages as nat,
            message_size: self.message_size@ as nat,
        }
    }
}

impl QueueAttrView {
    /// How many message slots the queue has.
    pub open spec fn slots(self) -> nat {
        MIN_MSGS as nat + self.additional_messages
    }

    /// Bytes from one message slot to the next.
    pub open spec fn stride(self, host: HostView) -> nat {
        host.aligned(self.message_size)
    }

    /// Bytes of all message slots.
    pub open spec fn data_size(self, host: HostView) -> nat {
        self.slots() * self.stride(host)
    }

    /// Bytes of the tail, the head and the links.
    pub open spec fn queue_size(self, host: HostView) -> nat {
        host.aligned((2 + self.slots()) * INDEX_SIZE as nat)
    }

    /// Bytes of shared memory that the queue takes.
    pub open spec fn shm_size(self, host: HostView) -> nat {
        self.queue_size(host) + self.data_size(host)
    }
}

/// Each part of a queue is at least as large as what it holds.
pub proof fn lemma_sizes(attr: QueueAttrView, host: HostView)
    requires
        host.is_valid(),
    ensures
        attr.message_size <= attr.stride(host),
        attr.stride(host) <= attr.data_size(host),
        (2 + attr.slots()) * INDEX_SIZE <= attr.queue_size(host),
        attr.shm_size(host) > 0,
{
    law_round_up(attr.message_size, host.cacheline_size);
    law_round_up((2 + attr.slots()) * INDEX_SIZE as nat, host.cacheline_size);
    assert(attr.stride(host) <= attr.slots() * attr.stride(host)) by (nonlinear_arith)
        requires
            attr.slots() >= 1,
    ;
}

/// There is at least one byte for each slot, and each slot takes its stride.
proof fn lemma_slots_fit(attr: QueueAttrView, host: HostView)
    requires
        host.is_valid(),
        attr.message_size > 0,
    ensures
        attr.slots() <= attr.data_size(host),
        3 * attr.stride(host) <= attr.data_size(host),
{
    lemma_sizes(attr, host);
    assert(attr.slots() <= attr.slots() * attr.stride(host)) by (nonlinear_arith)
        requires
            attr.stride(host) >= 1,
    ;
    assert(3 * attr.stride(host) <= attr.slots() * attr.stride(host)) by (nonlinear_arith)
        requires
            attr.slots() >= 3,
    ;
}

impl QueueAttr {
    /// Bytes of all message slots.
    pub fn data_size(&self, host: &Host) -> (size: usize)
        requires
            self@.data_size(host@) <= usize::MAX,
        ensures
            size == self@.data_size(host@),
    {
        let message_size: usize = self.message_size.get();
        let cacheline_size: u16 = host.cacheline_size();
        proof {
            lemma_sizes(self@, host@);
            lemma_slots_fit(self@, host@);
        }
        let n: usize = MIN_MSGS + self.additional_messages;
        n * host.cacheline_aligned(message_size)
    }

    /// Bytes of the tail, the head and the links.
    pub fn queue_size(&self, host: &Host) -> (size: usize)
        requires
            self@.queue_size(host@) <= usize::MAX,
        ensures
            size == self@.queue_size(host@),
    {
        let cacheline_size: u16 = host.cacheline_size();
        proof {
            lemma_sizes(self@, host@);
        }
        let n: usize = 2 + MIN_MSGS + self.additional_messages;
        host.cacheline_aligned(n * INDEX_SIZE)
    }

    /// Bytes of shared memory that the queue takes.
    pub fn shm_size(&self, host: &Host) -> (size: NonZeroSize)
        requires
            self@.shm_size(host@) <= usize::MAX,
        ensures
            size@ == self@.shm_size(host@),
    {
        let cacheline_size: u16 = host.cacheline_size();
        proof {
            lemma_sizes(self@, host@);
        }
        NonZeroSize::new(self.queue_size(host) + self.data_size(host)).unwrap()
    }

    /// Bytes of shared memory that the queue takes, unless they are more than can be counted.
    pub fn checked_shm_size(&self, host: &Host) -> (size: Option<NonZeroSize>)
        ensures
            size is Some <==> self@.shm_size(host@) <= usize::MAX,
            size matches Some(s) ==> s@ == self@.shm_size(host@),
    {
        let message_size: usize = self.message_size.get();
        let cacheline_size: usize = host.cacheline_size() as usize;
        proof {
            lemma_sizes(self@, host@);
            lemma_slots_fit(self@, host@);
            law_round_up(self@.message_size, host@.cacheline_size);
            law_round_up((2 + self@.slots()) * INDEX_SIZE as nat, host@.cacheline_size);
        }
        if message_size > usize::MAX - cacheline_size || self.additional_messages > usize::MAX / 4
            - cacheline_size - 16 {
            proof {
                assert(self@.data_size(host@) >= 3 * self@.stride(host@)) by (nonlinear_arith)
                    requires
                        self@.data_size(host@) == self@.slots() * self@.stride(host@),
                        self@.slots() >= 3,
                ;
            }
            return None;
        }
        let slots: usize = MIN_MSGS + self.additional_messages;
        let stride: usize = host.cacheline_aligned(message_size);
        match slots.checked_mul(stride) {
            Some(data_size) => match self.queue_size(host).checked_add(data_size) {
                Some(size) => NonZeroSize::new(size),
                None => None,
            },
            None => None,
        }
    }
}

/// The shape of a channel: that of its queue, whether its pushes are signalled by an event, and
/// what its user says of it.
pub struct ChannelAttr {
    pub additional_messages: usize,
    pub message_size: NonZeroSize,
    pub eventfd: bool,
    pub info: Vec<u8>,
}

/// The shape of a channel.
pub struct ChannelAttrView {
    pub additional_messages: nat,
    pub message_size: nat,
    pub eventfd: bool,
    pub info: Seq<u8>,
}

impl View for ChannelAttr {
    type V = ChannelAttrView;

    open spec fn view(&self) -> ChannelAttrView {
        ChannelAttrView {
            additional_messages: self.additional_messages as nat,
            message_size: self.message_size@ as nat,
            eventfd: self.eventfd,
            info: self.info@,
        }
    }
}

impl ChannelAttrView {
    pub open spec fn queue_attr(self) -> QueueAttrView {
        QueueAttrView {
            additional_messages: self.additional_messages,
            message_size: self.message_size,
        }
    }
}

impl Clone for ChannelAttr {
    fn clone(&self) -> (copy: Self)
        ensures
            copy@ == self@,
    {
        let info: Vec<u8> = self.info.clone();
        assert(info@ =~= self.info@);
        ChannelAttr {
            additional_messages: self.additional_messages,
            message_size: self.message_size,
            eventfd: self.eventfd,
            info,
        }
    }
}

impl ChannelAttr {
    pub fn to_queue_attr(&self) -> (attr: QueueAttr)
        ensures
            attr@ == self@.queue_attr(),
    {
        QueueAttr {
            additional_messages: self.additional_messages,
            message_size: self.message_size,
        }
    }
}

/// The shape of a group of channels, from the point of view of one end: `producers` are the
/// channels it pushes to, `consumers` those it pops from.
pub struct GroupAttr {
    pub producers: Vec<ChannelAttr>,
    pub consumers: Vec<ChannelAttr>,
    pub info: Vec<u8>,
}

/// The shape of a group of channels.
#[verifier::ext_equal]
pub struct GroupAttrView {
    pub producers: Seq<ChannelAttrView>,
    pub consumers: Seq<ChannelAttrView>,
    pub info: Seq<u8>,
}

/// The shapes of several channels.
pub open spec fn channel_views(channels: Seq<ChannelAttr>) -> Seq<ChannelAttrView> {
    channels.map_values(|c: ChannelAttr| c@)
}

impl View for GroupAttr {
    type V = GroupAttrView;

    open spec fn view(&self) -> GroupAttrView {
        GroupAttrView {
            producers: channel_views(self.producers@),
            consumers: channel_views(self.consumers@),
            info: self.info@,
        }
    }
}

/// How many of the channels signal their pushes.
pub open spec fn count_events(channels: Seq<ChannelAttrView>) -> nat
    decreases channels.len(),
{
    if channels.len() == 0 {
        0
    } else {
        count_events(channels.drop_last()) + if channels.last().eventfd {
            1nat
        } else {
            0nat
        }
    }
}

/// Bytes of shared memory that the queues of the channels take.
pub open spec fn total_size(channels: Seq<ChannelAttrView>, host: HostView) -> nat
    decreases channels.len(),
{
    if channels.len() == 0 {
        0
    } else {
        total_size(channels.drop_last(), host) + channels.last().queue_attr().shm_size(host)
    }
}

impl GroupAttrView {
    /// The same group from the point of view of the other end.
    pub open spec fn mirrored(self) -> GroupAttrView {
        GroupAttrView { producers: self.consumers, consumers: self.producers, info: self.info }
    }

    /// Bytes of shared memory that the queues of the group take.
    pub open spec fn shm_size(self, host: HostView) -> nat {
        total_size(self.producers, host) + total_size(self.consumers, host)
    }
}

/// The first channels of a row signal at most as many pushes, and take at most as many bytes, as
/// all of them.
pub proof fn lemma_first_channels(channels: Seq<ChannelAttrView>, count: int, host: HostView)
    requires
        0 <= count <= channels.len(),
    ensures
        count_events(channels.take(count)) <= count_events(channels),
        count_events(channels) <= channels.len(),
        total_size(channels.take(count), host) <= total_size(channels, host),
        count < channels.len() ==> {
            &&& count_events(channels.take(count + 1)) == count_events(channels.take(count))
                + if channels[count].eventfd {
                1nat
            } else {
                0nat
            }
            &&& total_size(channels.take(count + 1), host) == total_size(
                channels.take(count),
                host,
            ) + channels[count].queue_attr().shm_size(host)
            &&& total_size(channels.take(count + 1), host) <= total_size(channels, host)
        },
    decreases channels.len() - count, channels.len(),
{
    if count == channels.len() {
        assert(channels.take(count) =~= channels);
        if channels.len() > 0 {
            let fewer = channels.drop_last();
            lemma_first_channels(fewer, fewer.len() as int, host);
        }
    } else {
        assert(channels.take(count + 1).drop_last() =~= channels.take(count));
        lemma_first_channels(channels, count + 1, host);
    }
}

/// Counts the channels that signal their pushes.
fn count_eventfds(channels: &Vec<ChannelAttr>) -> (count: usize)
    ensures
        count == count_events(channel_views(channels@)),
{
    let ghost views = channel_views(channels@);
    let mut count: usize = 0;
    let mut i: usize = 0;
    assert(views.take(0) =~= Seq::<ChannelAttrView>::empty());
    while i < channels.len()
        invariant
            i <= channels@.len(),
            views == channel_views(channels@),
            count == count_events(views.take(i as int)),
            count <= i,
        decreases channels@.len() - i,
    {
        proof {
            assert(views.take(i + 1).drop_last() =~= views.take(i as int));
        }
        if channels[i].eventfd {
            count = count + 1;
        }
        i = i + 1;
    }
    assert(views.take(i as int) =~= views);
    count
}

/// Adds up the bytes of shared memory that the queues of the channels take.
fn sum_shm_sizes(channels: &Vec<ChannelAttr>, host: &Host) -> (size: usize)
    requires
        total_size(channel_views(channels@), host@) <= usize::MAX,
    ensures
        size == total_size(channel_views(channels@), host@),
{
    let ghost views = channel_views(channels@);
    let mut size: usize = 0;
    let mut i: usize = 0;
    assert(views.take(0) =~= Seq::<ChannelAttrView>::empty());
    while i < channels.len()
        invariant
            i <= channels@.len(),
            views == channel_views(channels@),
            size == total_size(views.take(i as int), host@),
            total_size(views, host@) <= usize::MAX,
        decreases channels@.len() - i,
    {
        proof {
            lemma_first_channels(views, i as int, host@);
        }
        size = size + channels[i].to_queue_attr().shm_size(host).get();
        i = i + 1;
    }
    assert(views.take(i as int) =~= views);
    size
}

/// Adds the bytes of shared memory that the queues of the channels take to `size`, unless they
/// are more than can be counted.
fn checked_add_shm_sizes(size: usize, channels: &Vec<ChannelAttr>, host: &Host) -> (sum: Option<
    usize,
>)
    ensures
        sum is Some <==> size + total_size(channel_views(channels@), host@) <= usize::MAX,
        sum matches Some(s) ==> s == size + total_size(channel_views(channels@), host@),
{
    let ghost views = channel_views(channels@);
    let mut sum: usize = size;
    let mut i: usize = 0;
    assert(views.take(0) =~= Seq::<ChannelAttrView>::empty());
    while i < channels.len()
        invariant
            i <= channels@.len(),
            views == channel_views(channels@),
            sum == size + total_size(views.take(i as int), host@),
        decreases channels@.len() - i,
    {
        proof {
            lemma_first_channels(views, i as int, host@);
        }
        sum = match channels[i].to_queue_attr().checked_shm_size(host) {
            Some(one) => match sum.checked_add(one.get()) {
                Some(sum) => sum,
                None => return None,
            },
            None => return None,
        };
        i = i + 1;
    }
    assert(views.take(i as int) =~= views);
    Some(sum)
}

impl Clone for GroupAttr {
    fn clone(&self) -> (copy: Self)
        ensures
            copy@ == self@,
    {
        let copy = GroupAttr {
            producers: self.producers.clone(),
            consumers: self.consumers.clone(),
            info: self.info.clone(),
        };
        assert(copy@ =~= self@) by {
            assert(copy@.producers =~= self@.producers);
            assert(copy@.consumers =~= self@.consumers);
            assert(copy@.info =~= self@.info);
        }
        copy
    }
}

impl GroupAttr {
    pub fn count_producer_eventfds(&self) -> (count: usize)
        ensures
            count == count_events(self@.producers),
    {
        count_eventfds(&self.producers)
    }

    pub fn count_consumer_eventfds(&self) -> (count: usize)
        ensures
            count == count_events(self@.consumers),
    {
        count_eventfds(&self.consumers)
    }

    /// Bytes of shared memory that the queues of the group take.
    pub fn calc_shm_size(&self, host: &Host) -> (size: usize)
        requires
            self@.shm_size(host@) <= usize::MAX,
        ensures
            size == self@.shm_size(host@),
    {
        let producers_size: usize = sum_shm_sizes(&self.producers, host);
        let consumers_size: usize = sum_shm_sizes(&self.consumers, host);
        producers_size + consumers_size
    }

    /// Bytes of shared memory that the queues of the group take, unless they are more than can be
    /// counted.
    pub fn checked_shm_size(&self, host: &Host) -> (size: Option<usize>)
        ensures
            size is Some <==> self@.shm_size(host@) <= usize::MAX,
            size matches Some(s) ==> s == self@.shm_size(host@),
    {
        match checked_add_shm_sizes(0, &self.producers, host) {
            Some(size) => checked_add_shm_sizes(size, &self.consumers, host),
            None => None,
        }
    }
}

/// Attributes mean what their fields hold.
pub proof fn law_attributes_are_plain(
    queue: QueueAttr,
    channel: ChannelAttr,
    group: GroupAttr,
    i: int,
)
    ensures
        queue@.additional_messages == queue.additional_messages,
        queue@.message_size == queue.message_size@,
        channel@.additional_messages == channel.additional_messages,
        channel@.message_size == channel.message_size@,
        channel@.eventfd == channel.eventfd,
        channel@.info == channel.info@,
        group@.producers.len() == group.producers@.len(),
        group@.consumers.len() == group.consumers@.len(),
        0 <= i < group.producers@.len() ==> group@.producers[i] == group.producers@[i]@,
        0 <= i < group.consumers@.len() ==> group@.consumers[i] == group.consumers@[i]@,
        group@.info == group.info@,
{
}

} // verus!
