//! Slot indices and the flags that travel with them in the tail word.
use vstd::prelude::*;

verus! {

/// Names a message slot of a queue.
pub type Index = u32;

/// The smallest number of slots a queue can work with: one for the consumer, one for the
/// producer and one for the newest message.
pub const MIN_MSGS: usize = 3;

/// Bytes that one index takes in shared memory.
pub const INDEX_SIZE: usize = 4;

/// Stands for "no slot".
pub const INVALID_INDEX: Index = 0xffff_ffff;

/// Set in the tail word by the consumer when it takes the message under the tail.
pub const CONSUMED_FLAG: Index = 0x8000_0000;

/// Set in the tail word by the producer with the very first message.
pub const FIRST_FLAG: Index = 0x4000_0000;

/// The bits of the tail word that name a slot.
pub const INDEX_MASK: Index = 0x3fff_ffff;

/// The slot that a tail word names.
pub open spec fn slot_of(tail: Index) -> Index {
    tail & INDEX_MASK
}

/// Whether the consumer has taken the message under the tail.
pub open spec fn is_consumed(tail: Index) -> bool {
    tail & CONSUMED_FLAG != 0
}

/// Whether the message under the tail is the first one of the queue.
pub open spec fn is_first(tail: Index) -> bool {
    tail & FIRST_FLAG == FIRST_FLAG
}

/// Whether a queue of `len` slots has a slot of this index.
pub open spec fn is_slot(len: nat, index: Index) -> bool {
    index < (len as u32)
}

/// How many slots an index can name beside the flags and "no slot".
pub open spec fn max_slots() -> nat {
    0x3fff_ffff
}

/// The size of an index in shared memory, in bytes.
pub fn index_size() -> (size: usize)
    ensures
        size == 4,
{
    INDEX_SIZE
}

/// Setting the consumed flag keeps the slot and the first flag.
pub proof fn lemma_consume(tail: Index)
    ensures
        slot_of(tail | CONSUMED_FLAG) == slot_of(tail),
        is_consumed(tail | CONSUMED_FLAG),
        is_first(tail | CONSUMED_FLAG) == is_first(tail),
        is_consumed(tail) ==> tail | CONSUMED_FLAG == tail,
        tail | CONSUMED_FLAG == INVALID_INDEX ==> slot_of(tail) == 0x3fff_ffff,
{
    assert((tail | 0x8000_0000u32) & 0x3fff_ffff == tail & 0x3fff_ffff
        && (tail | 0x8000_0000u32) & 0x8000_0000 != 0
        && ((tail | 0x8000_0000u32) & 0x4000_0000 == 0x4000_0000) == (tail & 0x4000_0000
        == 0x4000_0000) && (tail & 0x8000_0000 != 0 ==> tail | 0x8000_0000 == tail) && (tail
        | 0x8000_0000 == 0xffff_ffffu32 ==> tail & 0x3fff_ffff == 0x3fff_ffff)) by (bit_vector);
}

/// A bare index below the flags carries neither flag and names itself.
pub proof fn lemma_plain(index: Index)
    requires
        index < 0x4000_0000,
    ensures
        slot_of(index) == index,
        !is_consumed(index),
        !is_first(index),
        slot_of(index | FIRST_FLAG) == index,
        !is_consumed(index | FIRST_FLAG),
        is_first(index | FIRST_FLAG),
        slot_of(index | CONSUMED_FLAG) == index,
        is_consumed(index | CONSUMED_FLAG),
        !is_first(index | CONSUMED_FLAG),
{
    assert(index < 0x4000_0000u32 ==> index & 0x3fff_ffff == index && index & 0x8000_0000 == 0
        && index & 0x4000_0000 == 0 && (index | 0x4000_0000) & 0x3fff_ffff == index && (index
        | 0x4000_0000) & 0x8000_0000 == 0 && (index | 0x4000_0000) & 0x4000_0000 == 0x4000_0000
        && (index | 0x8000_0000) & 0x3fff_ffff == index && (index | 0x8000_0000) & 0x8000_0000
        != 0 && (index | 0x8000_0000) & 0x4000_0000 == 0) by (bit_vector);
}

/// "No slot" has every bit set.
pub proof fn lemma_invalid()
    ensures
        slot_of(INVALID_INDEX) == 0x3fff_ffff,
        is_consumed(INVALID_INDEX),
        is_first(INVALID_INDEX),
        INVALID_INDEX | CONSUMED_FLAG == INVALID_INDEX,
{
    assert(0xffff_ffffu32 & 0x3fff_ffff == 0x3fff_ffff && 0xffff_ffffu32 & 0x8000_0000 != 0
        && 0xffff_ffffu32 & 0x4000_0000 == 0x4000_0000 && 0xffff_ffffu32 | 0x8000_0000
        == 0xffff_ffffu32) by (bit_vector);
}

/// A tail word is its slot and its two flags.
pub proof fn lemma_same_word(a: Index, b: Index)
    requires
        slot_of(a) == slot_of(b),
        is_consumed(a) == is_consumed(b),
        is_first(a) == is_first(b),
    ensures
        a == b,
{
    assert(a & 0x3fff_ffff == b & 0x3fff_ffff && (a & 0x8000_0000 != 0) == (b & 0x8000_0000
        != 0) && (a & 0x4000_0000 == 0x4000_0000) == (b & 0x4000_0000 == 0x4000_0000) ==> a
        == b) by (bit_vector);
}

/// A tail word names the slot by its low 30 bits, is marked as the first by the bit above them and
/// as consumed by its highest bit.
pub proof fn law_tail_word(tail: Index)
    ensures
        slot_of(tail) == tail % 0x4000_0000,
        is_first(tail) <==> tail / 0x4000_0000 % 2 == 1,
        is_consumed(tail) <==> tail / 0x8000_0000 == 1,
{
    assert(tail & 0x3fff_ffff == tail % 0x4000_0000 && ((tail & 0x4000_0000 == 0x4000_0000)
        == (tail / 0x4000_0000 % 2 == 1)) && ((tail & 0x8000_0000 != 0) == (tail / 0x8000_0000
        == 1))) by (bit_vector);
}

/// The words that the ends of a queue write to the tail: a slot by itself, as the first one or as
/// a consumed one, and the mark of a consumer on any word.
pub proof fn law_tail_words_written(slot: Index, tail: Index)
    ensures
        slot < 0x4000_0000 ==> slot | FIRST_FLAG == slot + 0x4000_0000,
        slot < 0x4000_0000 ==> slot | CONSUMED_FLAG == slot + 0x8000_0000,
        tail < 0x8000_0000 ==> tail | CONSUMED_FLAG == tail + 0x8000_0000,
        tail >= 0x8000_0000 ==> tail | CONSUMED_FLAG == tail,
        INVALID_INDEX == u32::MAX,
{
    assert((slot < 0x4000_0000 ==> slot | 0x4000_0000 == slot + 0x4000_0000) && (slot
        < 0x4000_0000 ==> slot | 0x8000_0000 == slot + 0x8000_0000) && (tail < 0x8000_0000 ==> tail
        | 0x8000_0000 == tail + 0x8000_0000) && (tail >= 0x8000_0000 ==> tail | 0x8000_0000
        == tail)) by (bit_vector);
}

/// A queue has a slot for every index below its length.
pub proof fn law_slots(len: nat, index: Index)
    requires
        len <= u32::MAX,
    ensures
        is_slot(len, index) <==> index < len,
{
}

} // verus!
