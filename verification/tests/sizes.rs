use rtipc::{
    index_size, mem_align, ByteOrder, ChannelAttr, GroupAttr, Host, NonZeroSize, QueueAttr,
};

fn host(cacheline_size: u16) -> Host {
    Host::new(cacheline_size, ByteOrder::Little).unwrap()
}

fn queue(additional_messages: usize, message_size: usize) -> QueueAttr {
    QueueAttr { additional_messages, message_size: NonZeroSize::new(message_size).unwrap() }
}

fn channel(additional_messages: usize, message_size: usize, eventfd: bool) -> ChannelAttr {
    ChannelAttr {
        additional_messages,
        message_size: NonZeroSize::new(message_size).unwrap(),
        eventfd,
        info: vec![],
    }
}

#[test]
fn an_index_takes_four_bytes() {
    assert_eq!(index_size(), 4);
}

#[test]
fn sizes_are_rounded_up_to_the_alignment() {
    assert_eq!(mem_align(0, 64), 0);
    assert_eq!(mem_align(1, 64), 64);
    assert_eq!(mem_align(64, 64), 64);
    assert_eq!(mem_align(65, 64), 128);
    assert_eq!(mem_align(17, 1), 17);
}

#[test]
fn an_alignment_that_is_no_power_of_two_masks_bits() {
    assert_eq!(mem_align(7, 6), 8);
}

#[test]
fn a_size_is_not_zero() {
    assert!(NonZeroSize::new(0).is_none());
    assert_eq!(NonZeroSize::new(5).unwrap().get(), 5);
}

#[test]
fn a_cacheline_size_is_a_power_of_two_and_holds_words() {
    assert!(Host::new(0, ByteOrder::Little).is_none());
    assert!(Host::new(48, ByteOrder::Little).is_none());
    assert!(Host::new(2, ByteOrder::Little).is_none());
    assert!(Host::new(4, ByteOrder::Big).is_some());
    let host = Host::new(32768, ByteOrder::Big).unwrap();
    assert_eq!(host.cacheline_size(), 32768);
    assert_eq!(host.byte_order(), ByteOrder::Big);
}

#[test]
fn whole_cachelines() {
    assert_eq!(host(64).cacheline_aligned(20), 64);
    assert_eq!(host(32).cacheline_aligned(33), 64);
    assert_eq!(host(4).cacheline_aligned(33), 36);
}

#[test]
fn sizes_of_the_smallest_queue() {
    let attr = queue(0, 16);
    assert_eq!(attr.queue_size(&host(64)), 64);
    assert_eq!(attr.data_size(&host(64)), 192);
    assert_eq!(attr.shm_size(&host(64)).get(), 256);
}

#[test]
fn sizes_of_a_longer_queue() {
    let attr = queue(12, 65);
    assert_eq!(attr.queue_size(&host(64)), 128);
    assert_eq!(attr.data_size(&host(64)), 15 * 128);
    assert_eq!(attr.shm_size(&host(64)).get(), 128 + 15 * 128);
}

#[test]
fn sizes_that_cannot_be_counted() {
    assert_eq!(queue(0, 16).checked_shm_size(&host(64)).unwrap().get(), 256);
    assert!(queue(usize::MAX, 16).checked_shm_size(&host(64)).is_none());
    assert!(queue(0, usize::MAX).checked_shm_size(&host(64)).is_none());
    assert!(queue(usize::MAX / 64, 64).checked_shm_size(&host(64)).is_none());
}

#[test]
fn a_channel_has_the_shape_of_its_queue() {
    let attr = channel(4, 9, true).to_queue_attr();
    assert_eq!(attr.additional_messages, 4);
    assert_eq!(attr.message_size.get(), 9);
}

#[test]
fn a_group_counts_its_events_and_bytes() {
    let group = GroupAttr {
        producers: vec![channel(0, 16, true), channel(0, 65, false)],
        consumers: vec![channel(1, 4, true), channel(0, 4, true)],
        info: vec![],
    };
    assert_eq!(group.count_producer_eventfds(), 1);
    assert_eq!(group.count_consumer_eventfds(), 2);
    let bytes: usize = 256 + (64 + 3 * 128) + (64 + 4 * 64) + 256;
    assert_eq!(group.calc_shm_size(&host(64)), bytes);
    assert_eq!(group.checked_shm_size(&host(64)), Some(bytes));
}

#[test]
fn a_group_without_channels_takes_nothing() {
    let group = GroupAttr { producers: vec![], consumers: vec![], info: vec![1] };
    assert_eq!(group.calc_shm_size(&host(64)), 0);
    assert_eq!(group.count_producer_eventfds(), 0);
    assert_eq!(group.count_consumer_eventfds(), 0);
}

#[test]
fn a_group_that_is_too_large_has_no_size() {
    let large = channel(usize::MAX / 256, 64, false);
    let group = GroupAttr {
        producers: vec![large.clone(), large.clone(), large.clone(), large.clone()],
        consumers: vec![large],
        info: vec![],
    };
    assert_eq!(group.checked_shm_size(&host(64)), None);
}

#[test]
fn a_clone_has_all_parts() {
    let mut attr = channel(2, 3, true);
    attr.info = vec![7, 8];
    let group = GroupAttr { producers: vec![attr], consumers: vec![], info: vec![9] };
    let copy = group.clone();
    assert_eq!(copy.producers.len(), 1);
    assert_eq!(copy.producers[0].additional_messages, 2);
    assert_eq!(copy.producers[0].message_size.get(), 3);
    assert!(copy.producers[0].eventfd);
    assert_eq!(copy.producers[0].info, vec![7, 8]);
    assert!(copy.consumers.is_empty());
    assert_eq!(copy.info, vec![9]);
}
