use rtipc::{
    ByteOrder, ConsumerQueue, ForcePushResult, Host, NonZeroSize, PopResult, ProducerQueue,
    QueueAttr, SharedMemory, ShmMapError, TryPushResult,
};
use std::sync::atomic::{AtomicU32, Ordering};

const NONE: u32 = 0xffff_ffff;
const CONSUMED: u32 = 0x8000_0000;
const FIRST: u32 = 0x4000_0000;

fn words(count: usize) -> Vec<AtomicU32> {
    (0..count).map(|_| AtomicU32::new(0)).collect()
}

fn size(bytes: usize) -> NonZeroSize {
    NonZeroSize::new(bytes).unwrap()
}

fn host() -> Host {
    Host::new(64, ByteOrder::Little).unwrap()
}

fn read(words: &[AtomicU32], at: usize) -> u32 {
    words[at].load(Ordering::SeqCst)
}

fn write(words: &[AtomicU32], at: usize, value: u32) {
    words[at].store(value, Ordering::SeqCst)
}

/// Both ends of a queue with `additional` slots more than three, in memory of its own.
fn both_ends<'a>(
    words: &'a [AtomicU32],
    additional: usize,
) -> (ProducerQueue<'a>, ConsumerQueue<'a>) {
    let attr = QueueAttr { additional_messages: additional, message_size: size(16) };
    let bytes = attr.shm_size(&host());
    let memory = SharedMemory::new(words, bytes);
    let chunk = memory.allocate(0, bytes).unwrap();
    let mut producer = ProducerQueue::new(chunk, &attr, &host()).unwrap();
    producer.init_shm();
    let chunk = memory.allocate(0, bytes).unwrap();
    let consumer = ConsumerQueue::new(chunk, &attr, &host()).unwrap();
    (producer, consumer)
}

fn slot(index: usize) -> Option<usize> {
    Some(64 + 64 * index)
}

#[test]
fn a_queue_needs_all_of_its_bytes() {
    let words = words(64);
    let attr = QueueAttr { additional_messages: 0, message_size: size(16) };
    let memory = SharedMemory::new(&words, size(256));
    let chunk = memory.allocate(0, size(255)).unwrap();
    assert!(matches!(ConsumerQueue::new(chunk, &attr, &host()), Err(ShmMapError::OutOfBounds)));
    let chunk = memory.allocate(0, size(3)).unwrap();
    assert!(matches!(ProducerQueue::new(chunk, &attr, &host()), Err(ShmMapError::OutOfBounds)));
    let chunk = memory.allocate(0, size(256)).unwrap();
    assert!(ConsumerQueue::new(chunk, &attr, &host()).is_ok());
}

#[test]
fn a_consumer_can_be_anywhere_until_it_is_used() {
    let words = words(80);
    let attr = QueueAttr { additional_messages: 0, message_size: size(16) };
    let memory = SharedMemory::new(&words, size(320));
    let chunk = memory.allocate(2, size(256)).unwrap();
    let consumer = ConsumerQueue::new(chunk, &attr, &host()).unwrap();
    assert_eq!(consumer.current_message(), None);
    assert_eq!(consumer.message_size().get(), 16);
}

#[test]
fn a_producer_links_the_slots_to_a_ring() {
    let words = words(128);
    let (producer, consumer) = both_ends(&words, 1);
    assert_eq!(read(&words, 0), NONE);
    assert_eq!(read(&words, 1), NONE);
    assert_eq!(read(&words, 2), 1);
    assert_eq!(read(&words, 3), 2);
    assert_eq!(read(&words, 4), 3);
    assert_eq!(read(&words, 5), 0);
    assert_eq!(producer.message_size().get(), 16);
    assert_eq!(consumer.message_size().get(), 16);
    assert_eq!(producer.current_message(), slot(0));
    assert_eq!(consumer.current_message(), None);
}

#[test]
fn nothing_is_popped_before_the_first_push() {
    let words = words(64);
    let (_producer, mut consumer) = both_ends(&words, 0);
    assert_eq!(consumer.pop(), PopResult::NoMessage);
    assert_eq!(consumer.current_message(), None);
    assert_eq!(consumer.flush(1), Some(PopResult::NoMessage));
    assert_eq!(consumer.current_message(), None);
    assert_eq!(read(&words, 0), NONE);
}

#[test]
fn the_first_message_goes_through() {
    let words = words(64);
    let (mut producer, mut consumer) = both_ends(&words, 0);
    assert_eq!(producer.force_push(), ForcePushResult::Success);
    assert_eq!(read(&words, 0), FIRST);
    assert_eq!(read(&words, 1), 0);
    assert_eq!(read(&words, 2), NONE);
    assert_eq!(producer.current_message(), slot(1));
    assert_eq!(consumer.pop(), PopResult::Success);
    assert_eq!(read(&words, 0), FIRST | CONSUMED);
    assert_eq!(consumer.current_message(), slot(0));
}

#[test]
fn an_old_message_stays_until_there_is_a_new_one() {
    let words = words(64);
    let (mut producer, mut consumer) = both_ends(&words, 0);
    producer.force_push();
    assert_eq!(consumer.pop(), PopResult::Success);
    assert_eq!(consumer.pop(), PopResult::NoNewMessage);
    assert_eq!(consumer.current_message(), slot(0));
    producer.force_push();
    assert_eq!(consumer.pop(), PopResult::Success);
    assert_eq!(consumer.current_message(), slot(1));
}

#[test]
fn messages_come_out_in_the_order_in_which_they_went_in() {
    let words = words(160);
    let (mut producer, mut consumer) = both_ends(&words, 2);
    let mut pushed = vec![];
    for _ in 0..4 {
        pushed.push(producer.current_message());
        assert_eq!(producer.try_push(), TryPushResult::Success);
    }
    for expected in pushed {
        assert_eq!(consumer.pop(), PopResult::Success);
        assert_eq!(consumer.current_message(), expected);
    }
    assert_eq!(consumer.pop(), PopResult::NoNewMessage);
}

#[test]
fn the_ends_never_have_the_same_slot() {
    let words = words(128);
    let (mut producer, mut consumer) = both_ends(&words, 1);
    let mut seed: u32 = 7;
    for _ in 0..2000 {
        seed = seed.wrapping_mul(1664525).wrapping_add(1013904223);
        match seed >> 30 {
            0 => assert_ne!(producer.force_push(), ForcePushResult::QueueError),
            1 => assert_ne!(producer.try_push(), TryPushResult::QueueError),
            2 => assert_ne!(consumer.pop(), PopResult::QueueError),
            _ => assert_ne!(consumer.flush(1), Some(PopResult::QueueError)),
        }
        assert!(producer.current_message().is_some());
        assert_ne!(producer.current_message(), consumer.current_message());
    }
}

#[test]
fn a_full_queue_takes_no_message() {
    let words = words(64);
    let (mut producer, mut consumer) = both_ends(&words, 0);
    assert!(!producer.full());
    assert_eq!(producer.try_push(), TryPushResult::Success);
    assert!(!producer.full());
    assert_eq!(producer.try_push(), TryPushResult::Success);
    assert!(producer.full());
    assert_eq!(producer.try_push(), TryPushResult::QueueFull);
    assert_eq!(producer.current_message(), slot(2));
    assert_eq!(consumer.pop(), PopResult::Success);
    assert_eq!(consumer.current_message(), slot(0));
    assert!(producer.full());
    assert_eq!(consumer.pop(), PopResult::Success);
    assert!(!producer.full());
    assert_eq!(producer.try_push(), TryPushResult::Success);
}

#[test]
fn a_full_queue_discards_its_oldest_message() {
    let words = words(64);
    let (mut producer, mut consumer) = both_ends(&words, 0);
    assert_eq!(producer.force_push(), ForcePushResult::Success);
    assert_eq!(producer.force_push(), ForcePushResult::Success);
    assert_eq!(producer.force_push(), ForcePushResult::SuccessMessageDiscarded);
    assert_eq!(producer.current_message(), slot(0));
    assert_eq!(consumer.pop(), PopResult::SuccessMessagesDiscarded);
    assert_eq!(consumer.current_message(), slot(1));
    assert_eq!(consumer.pop(), PopResult::Success);
    assert_eq!(consumer.current_message(), slot(2));
}

#[test]
fn a_message_that_the_consumer_keeps_is_not_discarded() {
    let words = words(64);
    let (mut producer, mut consumer) = both_ends(&words, 0);
    producer.force_push();
    assert_eq!(consumer.pop(), PopResult::Success);
    assert_eq!(producer.force_push(), ForcePushResult::Success);
    assert_eq!(producer.force_push(), ForcePushResult::SuccessMessageDiscarded);
    assert_eq!(read(&words, 0), 2);
    assert_eq!(consumer.current_message(), slot(0));
    assert_eq!(producer.current_message(), slot(1));
    assert!(producer.full());
    assert_eq!(producer.try_push(), TryPushResult::QueueFull);
    assert_eq!(producer.force_push(), ForcePushResult::SuccessMessageDiscarded);
    assert_eq!(consumer.current_message(), slot(0));
    assert_eq!(producer.current_message(), slot(2));
    assert_eq!(consumer.pop(), PopResult::SuccessMessagesDiscarded);
    assert_eq!(consumer.current_message(), slot(1));
    assert_eq!(producer.force_push(), ForcePushResult::Success);
    assert_eq!(producer.current_message(), slot(0));
}

#[test]
fn an_overrun_slot_comes_back_with_a_push_that_must_not_discard() {
    let words = words(64);
    let (mut producer, mut consumer) = both_ends(&words, 0);
    producer.force_push();
    consumer.pop();
    producer.force_push();
    producer.force_push();
    consumer.pop();
    assert_eq!(consumer.current_message(), slot(2));
    assert!(!producer.full());
    assert_eq!(producer.try_push(), TryPushResult::Success);
    assert_eq!(producer.current_message(), slot(0));
    assert_eq!(consumer.pop(), PopResult::Success);
    assert_eq!(consumer.current_message(), slot(1));
}

#[test]
fn a_flush_takes_the_newest_message() {
    let words = words(160);
    let (mut producer, mut consumer) = both_ends(&words, 2);
    producer.force_push();
    producer.force_push();
    producer.force_push();
    assert_eq!(consumer.flush(1), Some(PopResult::Success));
    assert_eq!(consumer.current_message(), slot(2));
    assert_eq!(consumer.pop(), PopResult::NoNewMessage);
    assert_eq!(consumer.flush(3), Some(PopResult::NoNewMessage));
    assert_eq!(consumer.current_message(), slot(2));
}

#[test]
fn a_flush_without_a_new_message_keeps_the_old_one() {
    let words = words(64);
    let (mut producer, mut consumer) = both_ends(&words, 0);
    producer.force_push();
    assert_eq!(consumer.flush(1), Some(PopResult::Success));
    assert_eq!(consumer.current_message(), slot(0));
    assert_eq!(consumer.flush(1), Some(PopResult::NoNewMessage));
    assert_eq!(consumer.current_message(), slot(0));
    producer.force_push();
    assert_eq!(consumer.flush(1), Some(PopResult::Success));
    assert_eq!(consumer.current_message(), slot(1));
}

#[test]
fn a_flush_that_stays_keeps_the_first_flag() {
    let words = words(64);
    let (mut producer, mut consumer) = both_ends(&words, 0);
    producer.force_push();
    assert_eq!(consumer.flush(1), Some(PopResult::Success));
    assert_eq!(read(&words, 0), FIRST | CONSUMED);
    producer.force_push();
    assert_eq!(consumer.flush(1), Some(PopResult::Success));
    assert_eq!(read(&words, 0), 1 | CONSUMED);
}

#[test]
fn a_flush_needs_no_head_for_the_first_message() {
    let words = words(64);
    let (mut producer, mut consumer) = both_ends(&words, 0);
    producer.force_push();
    write(&words, 1, NONE);
    assert_eq!(consumer.flush(1), Some(PopResult::Success));
    assert_eq!(consumer.current_message(), slot(0));
    producer.force_push();
    write(&words, 1, NONE);
    assert_eq!(consumer.flush(1), Some(PopResult::QueueError));
}

#[test]
fn a_flush_does_not_go_back_to_an_older_head() {
    let words = words(128);
    let (mut producer, mut consumer) = both_ends(&words, 1);
    producer.force_push();
    producer.force_push();
    consumer.pop();
    consumer.pop();
    write(&words, 1, 0);
    assert_eq!(consumer.flush(1), Some(PopResult::NoNewMessage));
    assert_eq!(consumer.current_message(), slot(1));
    assert_eq!(read(&words, 0), 1 | CONSUMED);
}

#[test]
fn a_flush_of_no_rounds_does_nothing() {
    let words = words(64);
    let (mut producer, mut consumer) = both_ends(&words, 0);
    producer.force_push();
    assert_eq!(consumer.flush(0), None);
    assert_eq!(read(&words, 0), FIRST);
    assert_eq!(consumer.pop(), PopResult::Success);
}

#[test]
fn a_tail_that_names_no_slot_is_an_error() {
    let words = words(64);
    let (mut producer, mut consumer) = both_ends(&words, 0);
    producer.force_push();
    write(&words, 0, 3);
    assert_eq!(consumer.pop(), PopResult::QueueError);
    assert_eq!(consumer.flush(5), Some(PopResult::QueueError));
    assert_eq!(producer.try_push(), TryPushResult::QueueError);
    assert!(!producer.full());
    assert_eq!(producer.force_push(), ForcePushResult::QueueError);
}

#[test]
fn a_head_that_names_no_slot_is_an_error() {
    let words = words(64);
    let (mut producer, mut consumer) = both_ends(&words, 0);
    producer.force_push();
    write(&words, 1, 9);
    assert_eq!(consumer.flush(5), Some(PopResult::QueueError));
}

#[test]
fn a_link_that_names_no_slot_is_an_error() {
    let words = words(64);
    let (mut producer, mut consumer) = both_ends(&words, 0);
    producer.force_push();
    consumer.pop();
    write(&words, 2, 3);
    assert_eq!(consumer.pop(), PopResult::QueueError);
    assert_eq!(consumer.current_message(), slot(0));
}

#[test]
fn plans_follow_the_tail() {
    let words = words(64);
    let (mut producer, consumer) = both_ends(&words, 0);
    producer.force_push();
    assert_eq!(format!("{:?}", producer.plan_force(2, 7)), "Fail");
    assert_eq!(format!("{:?}", producer.plan_force(2, 0)), "Advance");
    assert_eq!(format!("{:?}", producer.plan_force(2, 2)), "MoveTail");
    assert_eq!(format!("{:?}", producer.plan_force(2, 2 | CONSUMED)), "Overrun");
    assert_eq!(format!("{:?}", producer.plan_try(7)), "Fail");
    assert_eq!(format!("{:?}", producer.plan_try(2)), "Full");
    assert_eq!(format!("{:?}", producer.plan_try(0)), "Advance");
    assert_eq!(format!("{:?}", consumer.plan_pop(NONE)), "Empty");
    assert_eq!(format!("{:?}", consumer.plan_pop(5)), "Fail");
    assert_eq!(format!("{:?}", consumer.plan_pop(2)), "Take");
    assert_eq!(format!("{:?}", consumer.plan_pop(2 | CONSUMED)), "Follow");
}

#[test]
fn what_is_read_is_what_was_written() {
    let words = words(160);
    let (mut producer, mut consumer) = both_ends(&words, 2);
    let mut contents: Vec<i64> = vec![-1; 6 * 64];
    let mut pushed: i64 = 0;
    let mut held: i64 = -1;
    let mut seed: u32 = 99;
    for _ in 0..5000 {
        seed = seed.wrapping_mul(1664525).wrapping_add(1013904223);
        contents[producer.current_message().unwrap()] = pushed;
        match seed >> 30 {
            0 => {
                assert_ne!(producer.force_push(), ForcePushResult::QueueError);
                pushed += 1;
            }
            1 => {
                if producer.try_push() == TryPushResult::Success {
                    pushed += 1;
                }
            }
            2 => match consumer.pop() {
                PopResult::Success => held += 1,
                PopResult::SuccessMessagesDiscarded => {
                    let read = contents[consumer.current_message().unwrap()];
                    assert!(read >= held + 2);
                    held = read;
                }
                PopResult::NoNewMessage => assert_eq!(held, pushed - 1),
                PopResult::NoMessage => assert_eq!(pushed, 0),
                PopResult::QueueError => panic!("damaged"),
            },
            _ => match consumer.flush(1) {
                Some(PopResult::Success) => {
                    assert!(held < pushed - 1);
                    held = pushed - 1;
                }
                Some(PopResult::NoNewMessage) => assert_eq!(held, pushed - 1),
                other => assert_eq!((other, pushed), (Some(PopResult::NoMessage), 0)),
            },
        }
        if let Some(place) = consumer.current_message() {
            assert_eq!(contents[place], held);
        }
    }
    assert!(pushed > 1000);
}

#[test]
fn a_push_discards_exactly_one_message() {
    let words = words(128);
    let (mut producer, mut consumer) = both_ends(&words, 1);
    for _ in 0..3 {
        assert_eq!(producer.force_push(), ForcePushResult::Success);
    }
    assert_eq!(producer.force_push(), ForcePushResult::SuccessMessageDiscarded);
    assert_eq!(consumer.pop(), PopResult::SuccessMessagesDiscarded);
    assert_eq!(consumer.current_message(), slot(1));
    assert_eq!(consumer.pop(), PopResult::Success);
    assert_eq!(consumer.pop(), PopResult::Success);
    assert_eq!(consumer.pop(), PopResult::NoNewMessage);
}

#[test]
fn one_slot_always_stays_with_the_producer() {
    for additional in 0..5 {
        let words = words(200);
        let (mut producer, _consumer) = both_ends(&words, additional);
        for _ in 0..additional + 2 {
            assert_eq!(producer.try_push(), TryPushResult::Success);
        }
        for _ in 0..3 {
            assert_eq!(producer.try_push(), TryPushResult::QueueFull);
        }
    }
}

#[test]
fn a_push_discards_exactly_where_the_other_finds_the_queue_full() {
    for pushes in 0..8 {
        for pops in 0..4 {
            let words = words(128);
            let (mut producer, mut consumer) = both_ends(&words, 1);
            for _ in 0..pushes {
                producer.force_push();
            }
            for _ in 0..pops {
                consumer.pop();
            }
            let full = producer.full();
            let tried = producer.try_push() == TryPushResult::QueueFull;
            assert_eq!(full, tried);
            let full = producer.full();
            let discarded = producer.force_push() == ForcePushResult::SuccessMessageDiscarded;
            assert_eq!(full, discarded);
        }
    }
}

#[test]
fn a_flush_of_several_messages_takes_the_last() {
    let words = words(200);
    let (mut producer, mut consumer) = both_ends(&words, 4);
    producer.force_push();
    producer.force_push();
    consumer.pop();
    producer.force_push();
    assert_eq!(consumer.flush(1), Some(PopResult::Success));
    assert_eq!(consumer.current_message(), slot(2));
    assert_eq!(consumer.pop(), PopResult::NoNewMessage);
}
