use rtipc::{
    accept_response, answer_request, parse_request, ByteOrder, ChannelAttr, ChannelGroup,
    Consumer, Errno,
    EventFd, EventFlush, ForcePushResult, GroupAttr, Host, NonZeroSize, PopResult, Producer,
    RequestError, ResourceError, SharedMemory, ShmMapError, TransferError, TryPushResult,
    TryPushStart,
};
use std::collections::VecDeque;
use std::sync::atomic::AtomicU32;

fn words(count: usize) -> Vec<AtomicU32> {
    (0..count).map(|_| AtomicU32::new(0)).collect()
}

fn size(bytes: usize) -> NonZeroSize {
    NonZeroSize::new(bytes).unwrap()
}

fn host() -> Host {
    Host::new(64, ByteOrder::Little).unwrap()
}

fn channel(message_size: usize, eventfd: bool) -> ChannelAttr {
    ChannelAttr {
        additional_messages: 0,
        message_size: size(message_size),
        eventfd,
        info: vec![],
    }
}

/// Events that hold the given counts.
fn events(counts: &[u32]) -> VecDeque<Result<EventFd, Errno>> {
    counts.iter().map(|count| EventFd::from_value(*count)).collect()
}

fn counts(events: &[&EventFd]) -> Vec<u64> {
    events.iter().map(|event| event.read().unwrap()).collect()
}

/// Two channels to push to and one to pop from; each takes 256 bytes.
fn attr() -> GroupAttr {
    GroupAttr {
        producers: vec![channel(8, true), channel(8, false)],
        consumers: vec![channel(4, true)],
        info: vec![5],
    }
}

fn one_channel(eventfd: bool) -> GroupAttr {
    GroupAttr { producers: vec![channel(4, eventfd)], consumers: vec![], info: vec![] }
}

/// The producer of the only channel of a group, and the group at the other end.
fn pair<'a>(words: &'a [AtomicU32], eventfd: bool) -> (Producer<'a, u32>, ChannelGroup<'a>) {
    let attr = one_channel(eventfd);
    let memory = SharedMemory::new(words, size(256));
    let counts: &[u32] = if eventfd { &[1] } else { &[] };
    let mut group = ChannelGroup::from_attr(&attr, &memory, events(counts), &host()).unwrap();
    let (request, _) = group.serialize(&host());
    let read = parse_request(&request, &host()).unwrap();
    let other = ChannelGroup::deserialize(read, &memory, events(counts), &host()).unwrap();
    (group.acquire_producer(0).unwrap(), other)
}

#[test]
fn a_group_asks_for_the_bytes_of_its_queues() {
    assert_eq!(ChannelGroup::memory_size(&attr(), &host()).unwrap().get(), 768);
}

#[test]
fn a_group_without_channels_cannot_be_created() {
    let empty = GroupAttr { producers: vec![], consumers: vec![], info: vec![] };
    assert!(matches!(
        ChannelGroup::memory_size(&empty, &host()),
        Err(ResourceError::InvalidArgument)
    ));
    let memory = SharedMemory::new(&[], size(1));
    assert!(matches!(
        ChannelGroup::from_attr(&empty, &memory, events(&[]), &host()),
        Err(ResourceError::InvalidArgument)
    ));
}

#[test]
fn a_group_that_is_too_large_cannot_be_created() {
    let mut large = attr();
    large.producers[0].additional_messages = usize::MAX;
    assert!(matches!(
        ChannelGroup::memory_size(&large, &host()),
        Err(ResourceError::InvalidArgument)
    ));
}

#[test]
fn a_group_needs_its_memory() {
    let words = words(191);
    let memory = SharedMemory::new(&words, size(767));
    assert!(matches!(
        ChannelGroup::from_attr(&attr(), &memory, events(&[1, 2]), &host()),
        Err(ResourceError::ShmMapError(ShmMapError::OutOfBounds))
    ));
}

#[test]
fn a_group_needs_its_events() {
    let words = words(192);
    let memory = SharedMemory::new(&words, size(768));
    assert!(matches!(
        ChannelGroup::from_attr(&attr(), &memory, events(&[1]), &host()),
        Err(ResourceError::InvalidArgument)
    ));
    let mut failed = events(&[1]);
    failed.push_back(Err(Errno::EMFILE));
    assert!(matches!(
        ChannelGroup::from_attr(&attr(), &memory, failed, &host()),
        Err(ResourceError::Errno(Errno::EMFILE))
    ));
}

#[test]
fn with_the_smallest_cachelines_all_queues_start_on_words() {
    let words = words(64);
    let memory = SharedMemory::new(&words, size(256));
    let host = Host::new(4, ByteOrder::Little).unwrap();
    let attr = GroupAttr {
        producers: vec![channel(1, false), channel(5, false)],
        consumers: vec![],
        info: vec![],
    };
    let mut group = ChannelGroup::from_attr(&attr, &memory, events(&[]), &host).unwrap();
    assert_eq!(group.acquire_producer::<u8>(0).unwrap().current_slot(), Some(20));
    assert_eq!(group.acquire_producer::<u32>(1).unwrap().current_slot(), Some(32 + 20));
}

#[test]
fn a_channel_is_acquired_once() {
    let words = words(192);
    let memory = SharedMemory::new(&words, size(768));
    let mut group = ChannelGroup::from_attr(&attr(), &memory, events(&[1, 2]), &host()).unwrap();
    assert_eq!(group.get_attr().info, vec![5]);
    assert!(group.acquire_producer::<u64>(2).is_none());
    assert!(group.acquire_producer::<u64>(1).is_some());
    assert!(group.acquire_producer::<u64>(1).is_none());
    assert!(group.acquire_consumer::<u32>(0).is_some());
    assert!(group.acquire_consumer::<u32>(0).is_none());
    assert!(group.acquire_consumer::<u32>(1).is_none());
}

#[test]
fn a_message_that_is_too_large_loses_its_channel() {
    let words = words(192);
    let memory = SharedMemory::new(&words, size(768));
    let mut group = ChannelGroup::from_attr(&attr(), &memory, events(&[1, 2]), &host()).unwrap();
    assert!(group.acquire_producer::<[u64; 2]>(1).is_none());
    assert!(group.acquire_producer::<u64>(1).is_none());
    assert!(group.acquire_consumer::<u64>(0).is_none());
}

#[test]
fn the_events_are_sent_in_the_order_of_the_channels() {
    let words = words(192);
    let memory = SharedMemory::new(&words, size(768));
    let mut group = ChannelGroup::from_attr(&attr(), &memory, events(&[11, 22]), &host()).unwrap();
    let (request, sent) = group.serialize(&host());
    assert_eq!(counts(&sent), vec![11, 22]);
    assert_eq!(request[8..20], [1, 0, 0, 0, 2, 0, 0, 0, 1, 0, 0, 0]);
    let _taken = group.acquire_producer::<u64>(0);
    let (_, sent) = group.serialize(&host());
    assert_eq!(sent.len(), 1);
}

#[test]
fn both_ends_of_a_group_find_their_channels() {
    let words = words(192);
    let memory = SharedMemory::new(&words, size(768));
    let mut client = ChannelGroup::from_attr(&attr(), &memory, events(&[11, 22]), &host()).unwrap();
    let (request, _) = client.serialize(&host());
    let read = ChannelGroup::read_request(&request, 3, &host()).unwrap();
    let mut server = ChannelGroup::deserialize(read, &memory, events(&[11, 22]), &host()).unwrap();
    assert_eq!(server.get_attr().info, vec![5]);

    let mut to_server = client.acquire_producer::<u64>(1).unwrap();
    let mut at_server = server.acquire_consumer::<u64>(1).unwrap();
    assert_eq!(at_server.pop(false), PopResult::NoMessage);
    let place = to_server.current_slot();
    assert_eq!(place, Some(256 + 64));
    assert_eq!(to_server.force_push().result, ForcePushResult::Success);
    assert_eq!(at_server.pop(false), PopResult::Success);
    assert_eq!(at_server.current_message(), place);

    let mut to_client = server.acquire_producer::<u32>(0).unwrap();
    let mut at_client = client.acquire_consumer::<u32>(0).unwrap();
    let place = to_client.current_slot();
    assert_eq!(place, Some(512 + 64));
    assert_eq!(to_client.try_push().result, TryPushResult::Success);
    assert_eq!(at_client.pop(true), PopResult::Success);
    assert_eq!(at_client.current_message(), place);
    assert_eq!(to_client.eventfd().unwrap().read(), Ok(22));
    assert_eq!(at_client.take_eventfd().unwrap().read(), Ok(22));

    let pushes = client.acquire_producer::<u64>(0).unwrap();
    let pops = server.acquire_consumer::<u64>(0).unwrap();
    assert_eq!(pushes.eventfd().unwrap().read(), Ok(11));
    assert_eq!(pops.eventfd().unwrap().read(), Ok(11));
}

#[test]
fn a_request_without_its_file_descriptors_is_refused() {
    let words = words(192);
    let memory = SharedMemory::new(&words, size(768));
    let group = ChannelGroup::from_attr(&attr(), &memory, events(&[1, 2]), &host()).unwrap();
    let (request, _) = group.serialize(&host());
    assert!(matches!(
        ChannelGroup::read_request(&request, 0, &host()),
        Err(TransferError::MissingFileDescriptor)
    ));
    assert!(matches!(
        ChannelGroup::read_request(&request, 1, &host()),
        Err(TransferError::MissingFileDescriptor)
    ));
    let read = ChannelGroup::read_request(&request, 2, &host()).unwrap();
    assert!(matches!(
        ChannelGroup::deserialize(read, &memory, events(&[1]), &host()),
        Err(TransferError::MissingFileDescriptor)
    ));
}

#[test]
fn a_request_that_cannot_be_read_is_refused() {
    assert!(matches!(
        ChannelGroup::read_request(&[], 5, &host()),
        Err(TransferError::RequestError(RequestError::OutOfBounds))
    ));
}

#[test]
fn an_event_that_is_none_is_refused() {
    let words = words(192);
    let memory = SharedMemory::new(&words, size(768));
    let mut failed = events(&[1]);
    failed.push_back(Err(Errno::EINVAL));
    assert!(matches!(
        ChannelGroup::deserialize(attr(), &memory, failed, &host()),
        Err(TransferError::ResourceError(ResourceError::Errno(Errno::EINVAL)))
    ));
}

#[test]
fn memory_that_is_too_small_is_refused() {
    let words = words(64);
    let memory = SharedMemory::new(&words, size(256));
    assert!(matches!(
        ChannelGroup::deserialize(attr(), &memory, events(&[1, 2]), &host()),
        Err(TransferError::ResourceError(ResourceError::ShmMapError(ShmMapError::OutOfBounds)))
    ));
}

#[test]
fn a_push_that_discards_nothing_is_signalled() {
    let words = words(64);
    let (mut producer, _other) = pair(&words, true);
    assert!(producer.force_push().signal);
    assert!(producer.try_push().signal);
    let full = producer.try_push();
    assert_eq!(full.result, TryPushResult::QueueFull);
    assert!(!full.signal);
    let discarding = producer.force_push();
    assert_eq!(discarding.result, ForcePushResult::SuccessMessageDiscarded);
    assert!(!discarding.signal);
}

#[test]
fn a_push_without_an_event_is_not_signalled() {
    let words = words(64);
    let (mut producer, _other) = pair(&words, true);
    assert!(producer.take_eventfd().is_some());
    assert!(producer.eventfd().is_none());
    assert!(!producer.force_push().signal);
    assert!(!producer.try_push().signal);
}

#[test]
fn a_pop_waits_for_the_signal() {
    let words = words(64);
    let (mut producer, mut other) = pair(&words, true);
    let mut consumer = other.acquire_consumer::<u32>(0).unwrap();
    producer.force_push();
    assert_eq!(consumer.pop(false), PopResult::NoMessage);
    assert_eq!(consumer.pop(true), PopResult::Success);
    producer.force_push();
    assert_eq!(consumer.pop(false), PopResult::NoNewMessage);
    assert_eq!(consumer.pop(true), PopResult::Success);
}

#[test]
fn without_an_event_a_pop_waits_for_nothing() {
    let words = words(64);
    let (mut producer, mut other) = pair(&words, false);
    let mut consumer = other.acquire_consumer::<u32>(0).unwrap();
    producer.force_push();
    producer.force_push();
    assert_eq!(consumer.pop(false), PopResult::Success);
    assert_eq!(consumer.flush(1), Some(PopResult::Success));
    assert_eq!(consumer.current_message(), Some(128));
}

#[test]
fn a_flush_with_an_event_pops_all_messages() {
    let mut flush = EventFlush::new();
    assert_eq!(flush.popped(PopResult::Success), None);
    assert_eq!(flush.popped(PopResult::Success), None);
    assert_eq!(flush.popped(PopResult::NoNewMessage), Some(PopResult::Success));
}

#[test]
fn a_flush_with_an_event_goes_on_after_discarded_messages() {
    let mut flush = EventFlush::new();
    assert_eq!(flush.popped(PopResult::SuccessMessagesDiscarded), None);
    assert_eq!(flush.popped(PopResult::Success), None);
    assert_eq!(
        flush.popped(PopResult::NoNewMessage),
        Some(PopResult::SuccessMessagesDiscarded)
    );
}

#[test]
fn a_flush_with_an_event_that_takes_nothing_ends_as_its_pop() {
    for result in [PopResult::NoMessage, PopResult::NoNewMessage, PopResult::QueueError] {
        assert_eq!(EventFlush::new().popped(result), Some(result));
    }
}

/// A pop as the owner of an event makes it: it takes one signal, if there is one.
fn pop_signalled(consumer: &mut Consumer<u32>, count: &mut u32) -> PopResult {
    let signalled = *count > 0;
    if signalled {
        *count -= 1;
    }
    consumer.pop(signalled)
}

fn flush_signalled(consumer: &mut Consumer<u32>, count: &mut u32) -> PopResult {
    let mut flush = EventFlush::new();
    loop {
        let popped = pop_signalled(consumer, count);
        if let Some(result) = flush.popped(popped) {
            return result;
        }
    }
}

#[test]
fn a_flush_after_a_discarded_message_leaves_no_signal_behind() {
    let words = words(64);
    let (mut producer, mut other) = pair(&words, true);
    let mut consumer = other.acquire_consumer::<u32>(0).unwrap();
    let mut count: u32 = 0;
    assert_eq!(flush_signalled(&mut consumer, &mut count), PopResult::NoMessage);
    for _ in 0..3 {
        if producer.force_push().signal {
            count += 1;
        }
    }
    assert_eq!(count, 2);
    assert_eq!(
        flush_signalled(&mut consumer, &mut count),
        PopResult::SuccessMessagesDiscarded
    );
    assert_eq!(count, 0);
    assert_eq!(consumer.current_message(), Some(64 + 2 * 64));
    assert_eq!(flush_signalled(&mut consumer, &mut count), PopResult::NoNewMessage);
}

#[test]
fn the_event_counts_the_unread_messages() {
    let words = words(64);
    let (mut producer, mut other) = pair(&words, true);
    let mut consumer = other.acquire_consumer::<u32>(0).unwrap();
    let mut count: u32 = 0;
    let mut unread: u32 = 0;
    let mut seed: u32 = 5;
    for _ in 0..2000 {
        seed = seed.wrapping_mul(1664525).wrapping_add(1013904223);
        match seed >> 30 {
            0 => {
                let pushed = producer.force_push();
                if pushed.result == ForcePushResult::Success {
                    unread += 1;
                }
                count += u32::from(pushed.signal);
            }
            1 => {
                let pushed = producer.try_push();
                if pushed.result == TryPushResult::Success {
                    unread += 1;
                }
                count += u32::from(pushed.signal);
            }
            _ => match pop_signalled(&mut consumer, &mut count) {
                PopResult::Success | PopResult::SuccessMessagesDiscarded => unread -= 1,
                PopResult::NoMessage | PopResult::NoNewMessage => assert_eq!(unread, 0),
                PopResult::QueueError => panic!("damaged"),
            },
        }
        assert_eq!(count, unread);
    }
}

#[test]
fn without_a_cache_nothing_is_copied() {
    let words = words(64);
    let (mut producer, _other) = pair(&words, false);
    assert!(producer.current_message().is_none());
    assert!(producer.stage().is_none());
    assert!(matches!(producer.start_try_push(), TryPushStart::Push(None)));
    assert!(producer.disable_cache().is_none());
}

#[test]
fn the_cached_message_is_copied_to_the_slot_that_is_pushed() {
    let words = words(64);
    let (mut producer, mut other) = pair(&words, false);
    let mut consumer = other.acquire_consumer::<u32>(0).unwrap();
    producer.enable_cache(1);
    producer.enable_cache(2);
    assert_eq!(producer.current_message().map(|message| *message), Some(1));
    *producer.current_message().unwrap() = 33;
    let staged = producer.stage().unwrap();
    assert_eq!(staged.offset, 64);
    assert_eq!(staged.message, 33);
    producer.force_push();
    consumer.pop(false);
    assert_eq!(consumer.current_message(), Some(64));
    assert_eq!(producer.stage().unwrap().offset, 128);
    assert_eq!(producer.current_message().map(|message| *message), Some(33));
    let left = producer.disable_cache().unwrap();
    assert_eq!(left.offset, 128);
    assert_eq!(left.message, 33);
    assert!(producer.current_message().is_none());
}

#[test]
fn the_cached_message_of_a_full_queue_is_not_copied() {
    let words = words(64);
    let (mut producer, _other) = pair(&words, false);
    producer.enable_cache(7);
    match producer.start_try_push() {
        TryPushStart::Push(Some(staged)) => assert_eq!(staged.offset, 64),
        _ => panic!("full"),
    }
    producer.try_push();
    producer.try_push();
    assert!(matches!(producer.start_try_push(), TryPushStart::Full));
    assert_eq!(producer.try_push().result, TryPushResult::QueueFull);
}

#[test]
fn a_group_that_passes_is_kept_by_both_ends() {
    let (kept, response) = answer_request(Ok(7), |group: &i32| *group == 7);
    assert_eq!(kept.unwrap(), 7);
    assert_eq!(accept_response(8, &response).unwrap(), 8);
}

#[test]
fn a_group_that_does_not_pass_is_rejected() {
    let (kept, response) = answer_request(Ok(7), |group: &i32| *group == 8);
    assert!(matches!(kept, Err(TransferError::Rejected)));
    assert!(matches!(accept_response(8, &response), Err(TransferError::ResponseError)));
}

#[test]
fn every_failure_is_answered() {
    let failed: Result<i32, TransferError> = Err(TransferError::MissingFileDescriptor);
    let (kept, response) = answer_request(failed, |_| true);
    assert!(matches!(kept, Err(TransferError::MissingFileDescriptor)));
    assert!(matches!(accept_response(8, &response), Err(TransferError::ResponseError)));
}

#[test]
fn system_errors_become_errors_of_the_library() {
    assert!(matches!(ResourceError::from(Errno::EIO), ResourceError::Errno(Errno::EIO)));
    assert!(matches!(
        TransferError::from(Errno::EIO),
        TransferError::ResourceError(ResourceError::Errno(Errno::EIO))
    ));
}

fn can_be_sent<T: Send>(_: &T) {}

#[test]
fn the_ends_of_a_channel_can_go_to_other_threads() {
    let words = words(64);
    let (producer, mut other) = pair(&words, true);
    can_be_sent(&producer);
    can_be_sent(&other.acquire_consumer::<u32>(0));
    can_be_sent(&other);
}
