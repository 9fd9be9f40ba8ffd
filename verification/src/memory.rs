//! Shared memory as a row of atomic words, and the operations made on them.
use crate::row::{Row, Words};
use std::sync::atomic::{AtomicU32, Ordering};
use vstd::prelude::*;

verus! {

/// One atomic operation on a shared word, with what came back of it.
pub enum Op {
    Load { value: u32 },
    Store { value: u32 },
    FetchOr { mask: u32, previous: u32 },
    CompareExchange { expected: u32, new: u32, swapped: bool },
}

/// The operation is a call of the method of `AtomicU32` that it is named after, on this word and
/// with these values, all sequentially consistent, and this is what the call has returned.
pub open spec fn performed(word: AtomicU32, op: Op) -> bool {
    match op {
        Op::Load { value } => call_ensures(AtomicU32::load, (&word, Ordering::SeqCst), value),
        Op::Store { value } => call_ensures(
            AtomicU32::store,
            (&word, value, Ordering::SeqCst),
            (),
        ),
        Op::FetchOr { mask, previous } => call_ensures(
            AtomicU32::fetch_or,
            (&word, mask, Ordering::SeqCst),
            previous,
        ),
        Op::CompareExchange { expected, new, swapped } => exists|exchange: Result<u32, u32>|
            {
                &&& #[trigger] call_ensures(
                    AtomicU32::compare_exchange,
                    (&word, expected, new, Ordering::SeqCst, Ordering::SeqCst),
                    exchange,
                )
                &&& swapped == (exchange is Ok)
            },
    }
}

/// An atomic operation and the position of the word it was made on.
pub struct Access {
    pub at: usize,
    pub op: Op,
}

/// The words of a shared memory mapping, as one of its users sees them.
///
/// Another process may change any word at any time, so nothing is known of what a word holds.
/// What is known is which operations went through this handle, and in which order: `history`
/// is the record of them. Only the four operations below add to it, each makes the call that it
/// records, and no word can be reached otherwise.
pub struct SharedWords<'a> {
    row: Row<'a, AtomicU32>,
}

impl<'a> SharedWords<'a> {
    /// The words of the mapping.
    pub closed spec fn words(&self) -> Seq<AtomicU32> {
        self.row.words()
    }

    /// The word at a position.
    pub open spec fn word(&self, at: usize) -> AtomicU32 {
        self.words()[at as int]
    }

    /// The operations made through this handle so far, oldest first.
    pub closed spec fn history(&self) -> Seq<Access> {
        self.row.history()
    }

    /// Every operation of the record was made, on the word and with the values that it names.
    pub open spec fn is_faithful(&self) -> bool {
        forall|i: int|
            #![trigger self.history()[i]]
            0 <= i < self.history().len() ==> self.history()[i].at < self.words().len()
                && performed(self.word(self.history()[i].at), self.history()[i].op)
    }

    /// A handle that has made no operation yet.
    pub fn new(words: &'a [AtomicU32]) -> (handle: Self)
        ensures
            handle.words() == words@,
            handle.history() == Seq::<Access>::empty(),
            handle.is_faithful(),
    {
        SharedWords::over(Words::new(words))
    }

    /// The same for words that were passed on.
    pub(crate) fn over(words: Words<'a, AtomicU32>) -> (handle: Self)
        ensures
            handle.words() == words@,
            handle.history() == Seq::<Access>::empty(),
            handle.is_faithful(),
    {
        SharedWords { row: Row::new(words) }
    }

    /// Loads the word at `at`, sequentially consistent. What it holds is up to every process that
    /// has the memory mapped, so the value is open; the record takes it down.
    pub(crate) fn load(&mut self, at: usize) -> (value: u32)
        requires
            at < old(self).words().len(),
        ensures
            final(self).words() == old(self).words(),
            final(self).history() == old(self).history().push(
                Access { at, op: Op::Load { value } },
            ),
            performed(old(self).word(at), (Op::Load { value })),
            old(self).is_faithful() ==> final(self).is_faithful(),
    {
        self.row.load(at, Ordering::SeqCst, AtomicU32::load)
    }

    /// Stores `value` to the word at `at`, sequentially consistent.
    pub(crate) fn store(&mut self, at: usize, value: u32)
        requires
            at < old(self).words().len(),
        ensures
            final(self).words() == old(self).words(),
            final(self).history() == old(self).history().push(
                Access { at, op: Op::Store { value } },
            ),
            performed(old(self).word(at), (Op::Store { value })),
            old(self).is_faithful() ==> final(self).is_faithful(),
    {
        self.row.store(at, value, Ordering::SeqCst, AtomicU32::store);
    }

    /// Sets the bits of `mask` in the word at `at`, sequentially consistent. What the word held
    /// before is open, as in `load`.
    pub(crate) fn fetch_or(&mut self, at: usize, mask: u32) -> (previous: u32)
        requires
            at < old(self).words().len(),
        ensures
            final(self).words() == old(self).words(),
            final(self).history() == old(self).history().push(
                Access { at, op: Op::FetchOr { mask, previous } },
            ),
            performed(old(self).word(at), (Op::FetchOr { mask, previous })),
            old(self).is_faithful() ==> final(self).is_faithful(),
    {
        self.row.fetch_or(at, mask, Ordering::SeqCst, AtomicU32::fetch_or)
    }

    /// Exchanges `expected` for `new` in the word at `at`, sequentially consistent whether or not
    /// it goes through. Whether it does is open, as in `load`.
    pub(crate) fn compare_exchange(&mut self, at: usize, expected: u32, new: u32) -> (swapped: bool)
        requires
            at < old(self).words().len(),
        ensures
            final(self).words() == old(self).words(),
            final(self).history() == old(self).history().push(
                Access { at, op: Op::CompareExchange { expected, new, swapped } },
            ),
            performed(old(self).word(at), (Op::CompareExchange { expected, new, swapped })),
            old(self).is_faithful() ==> final(self).is_faithful(),
    {
        let exchange: Result<u32, u32> = self.row.compare_exchange(
            at,
            expected,
            new,
            Ordering::SeqCst,
            AtomicU32::compare_exchange,
        );
        exchange.is_ok()
    }
}

/// A load that was recorded has called `load` on the word, and its value is what came back.
pub proof fn law_load_gives_what_was_loaded(word: AtomicU32, value: u32)
    requires
        performed(word, (Op::Load { value })),
    ensures
        call_ensures(AtomicU32::load, (&word, Ordering::SeqCst), value),
{
}

/// A store that was recorded has called `store` on the word with its value.
pub proof fn law_store_stores_its_value(word: AtomicU32, value: u32)
    requires
        performed(word, (Op::Store { value })),
    ensures
        call_ensures(AtomicU32::store, (&word, value, Ordering::SeqCst), ()),
{
}

/// An operation that sets bits and was recorded has called `fetch_or` on the word with its mask,
/// and what came back is the previous value.
pub proof fn law_fetch_or_sets_its_mask(word: AtomicU32, mask: u32, previous: u32)
    requires
        performed(word, (Op::FetchOr { mask, previous })),
    ensures
        call_ensures(AtomicU32::fetch_or, (&word, mask, Ordering::SeqCst), previous),
{
}

/// An exchange that was recorded has called `compare_exchange` on the word with the expected and
/// the new value, and it was swapped if and only if the call came back with `Ok`.
pub proof fn law_exchange_exchanges_its_values(
    word: AtomicU32,
    expected: u32,
    new: u32,
    swapped: bool,
) -> (exchange: Result<u32, u32>)
    requires
        performed(word, (Op::CompareExchange { expected, new, swapped })),
    ensures
        call_ensures(
            AtomicU32::compare_exchange,
            (&word, expected, new, Ordering::SeqCst, Ordering::SeqCst),
            exchange,
        ),
        swapped <==> exchange is Ok,
{
    choose|exchange: Result<u32, u32>|
        {
            &&& #[trigger] call_ensures(
                AtomicU32::compare_exchange,
                (&word, expected, new, Ordering::SeqCst, Ordering::SeqCst),
                exchange,
            )
            &&& swapped == (exchange is Ok)
        }
}

} // verus!
