use rtipc::{NonZeroSize, SharedMemory, ShmMapError, Span};
use std::sync::atomic::AtomicU32;

fn words(count: usize) -> Vec<AtomicU32> {
    (0..count).map(|_| AtomicU32::new(0)).collect()
}

fn size(bytes: usize) -> NonZeroSize {
    NonZeroSize::new(bytes).unwrap()
}

#[test]
fn an_empty_file_cannot_be_mapped() {
    assert!(SharedMemory::mapping_size(0).is_none());
    assert_eq!(SharedMemory::mapping_size(4096).unwrap().get(), 4096);
}

#[test]
fn a_part_of_memory_ends_within_it() {
    let words = words(16);
    let memory = SharedMemory::new(&words, size(64));
    assert!(memory.allocate(0, size(64)).is_ok());
    assert!(memory.allocate(32, size(32)).is_ok());
    assert!(matches!(memory.allocate(32, size(33)), Err(ShmMapError::OutOfBounds)));
    assert!(matches!(memory.allocate(65, size(1)), Err(ShmMapError::OutOfBounds)));
    assert!(matches!(memory.allocate(usize::MAX, size(2)), Err(ShmMapError::OutOfBounds)));
}

#[test]
fn a_span_ends_within_its_chunk() {
    let words = words(16);
    let memory = SharedMemory::new(&words, size(64));
    let chunk = memory.allocate(16, size(32)).unwrap();
    assert_eq!(chunk.get_span(&Span { offset: 8, size: size(24) }), Ok(24));
    assert_eq!(
        chunk.get_span(&Span { offset: 8, size: size(25) }),
        Err(ShmMapError::OutOfBounds)
    );
    assert_eq!(
        chunk.get_span(&Span { offset: usize::MAX, size: size(1) }),
        Err(ShmMapError::OutOfBounds)
    );
}

#[test]
fn a_word_is_within_its_chunk() {
    let words = words(16);
    let memory = SharedMemory::new(&words, size(64));
    let chunk = memory.allocate(16, size(32)).unwrap();
    assert_eq!(chunk.get_word(0), Ok(4));
    assert_eq!(chunk.get_word(28), Ok(11));
    assert_eq!(chunk.get_word(29), Err(ShmMapError::OutOfBounds));
    let odd = memory.allocate(17, size(32)).unwrap();
    assert_eq!(odd.get_word(3), Ok(5));
    assert_eq!(odd.get_word(0), Ok(4));
}

#[test]
fn a_chunk_smaller_than_a_word_has_none() {
    let words = words(16);
    let memory = SharedMemory::new(&words, size(64));
    let chunk = memory.allocate(0, size(3)).unwrap();
    assert_eq!(chunk.get_word(0), Err(ShmMapError::OutOfBounds));
}
