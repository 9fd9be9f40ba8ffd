//! Shared memory, and the parts of it that are handed out.
use crate::error::ShmMapError;
use crate::host::NonZeroSize;
use crate::index::INDEX_SIZE;
use crate::row::Words;
use std::sync::atomic::AtomicU32;
use vstd::prelude::*;

verus! {

/// A stretch of bytes within a chunk.
#[derive(Clone, Copy, Debug)]
pub struct Span {
    pub offset: usize,
    pub size: NonZeroSize,
}

/// A part of shared memory that belongs to one queue.
pub struct Chunk<'a> {
    words: Words<'a, AtomicU32>,
    offset: usize,
    size: NonZeroSize,
}

/// Where a chunk is, in bytes, and the words of the whole memory.
pub struct ChunkView {
    pub offset: nat,
    pub size: nat,
    pub words: Seq<AtomicU32>,
}

impl<'a> View for Chunk<'a> {
    type V = ChunkView;

    closed spec fn view(&self) -> ChunkView {
        ChunkView {
            offset: self.offset as nat,
            size: self.size@ as nat,
            words: self.words@,
        }
    }
}

impl<'a> Chunk<'a> {
    #[verifier::type_invariant]
    spec fn is_inside(self) -> bool {
        &&& self.offset + self.size@ <= usize::MAX
        &&& (self.offset + self.size@) / INDEX_SIZE as int <= self.words@.len()
    }

    /// The words of the memory that the chunk is part of.
    pub(crate) fn words(&self) -> (words: Words<'a, AtomicU32>)
        ensures
            words@ == self@.words,
    {
        self.words
    }

    /// The offset in shared memory of a stretch of the chunk.
    pub fn get_span(&self, span: &Span) -> (offset: Result<usize, ShmMapError>)
        ensures
            offset == if span.offset + span.size@ > self@.size {
                Err::<usize, ShmMapError>(ShmMapError::OutOfBounds)
            } else {
                Ok::<usize, ShmMapError>((self@.offset + span.offset) as usize)
            },
            offset is Ok ==> self@.offset + span.offset <= usize::MAX,
    {
        proof {
            use_type_invariant(self);
        }
        let size: usize = self.size.get();
        if span.size.get() > size || span.offset > size - span.size.get() {
            return Err(ShmMapError::OutOfBounds);
        }
        Ok(self.offset + span.offset)
    }

    /// The position in shared memory of the word at an offset of the chunk; that of the word in
    /// which the offset is, if no word starts there.
    pub fn get_word(&self, offset: usize) -> (at: Result<usize, ShmMapError>)
        ensures
            match at {
                Ok(a) => {
                    &&& offset + INDEX_SIZE <= self@.size
                    &&& a == (self@.offset + offset) / INDEX_SIZE as int
                    &&& a < self@.words.len()
                },
                Err(e) => offset + INDEX_SIZE > self@.size && e == ShmMapError::OutOfBounds,
            },
    {
        proof {
            use_type_invariant(self);
        }
        let size: usize = self.size.get();
        if INDEX_SIZE > size || offset > size - INDEX_SIZE {
            return Err(ShmMapError::OutOfBounds);
        }
        Ok((self.offset + offset) / INDEX_SIZE)
    }
}

/// Memory that is mapped by two processes, seen as words. A size that is not a whole number of
/// words has bytes behind the last word.
#[derive(Clone, Copy)]
pub struct SharedMemory<'a> {
    words: Words<'a, AtomicU32>,
    size: NonZeroSize,
}

/// The size of shared memory, in bytes.
impl<'a> View for SharedMemory<'a> {
    type V = nat;

    closed spec fn view(&self) -> nat {
        self.size@ as nat
    }
}

impl<'a> SharedMemory<'a> {
    #[verifier::type_invariant]
    spec fn is_covered(self) -> bool {
        self.words@.len() == self.size@ / INDEX_SIZE
    }

    /// The words of the memory.
    pub closed spec fn words(&self) -> Seq<AtomicU32> {
        self.words@
    }

    /// The size of the memory can be counted.
    pub proof fn lemma_size(&self)
        ensures
            self@ <= usize::MAX,
    {
    }

    /// The size of the mapping of a file, by the size that the system reports of it; an empty
    /// file cannot be mapped.
    pub fn mapping_size(file_size: i64) -> (size: Option<NonZeroSize>)
        ensures
            size is Some <==> (file_size as usize) != 0,
            size matches Some(s) ==> s@ == file_size as usize,
    {
        NonZeroSize::new(file_size as usize)
    }

    /// Memory of `size` bytes that consists of these words.
    pub fn new(words: &'a [AtomicU32], size: NonZeroSize) -> (memory: Self)
        requires
            words@.len() == size@ / INDEX_SIZE,
        ensures
            memory@ == size@,
            memory.words() == words@,
    {
        SharedMemory { words: Words::new(words), size }
    }

    /// The part of the memory that starts at `offset`.
    pub fn allocate(&self, offset: usize, size: NonZeroSize) -> (chunk: Result<
        Chunk<'a>,
        ShmMapError,
    >)
        ensures
            match chunk {
                Ok(c) => {
                    &&& offset + size@ <= self@
                    &&& self@ <= usize::MAX
                    &&& c@ == (ChunkView {
                        offset: offset as nat,
                        size: size@ as nat,
                        words: self.words(),
                    })
                },
                Err(e) => offset + size@ > self@ && e == ShmMapError::OutOfBounds,
            },
    {
        proof {
            use_type_invariant(self);
        }
        let all: usize = self.size.get();
        if size.get() > all || offset > all - size.get() {
            return Err(ShmMapError::OutOfBounds);
        }
        Ok(Chunk { words: self.words, offset, size })
    }
}

} // verus!
