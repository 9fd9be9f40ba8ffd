//! A row of words that can only be reached by calls which are recorded.
use crate::memory::{Access, Op};
use vstd::prelude::*;

verus! {

/// Words that can be passed on, but that only a row can reach.
pub struct Words<'a, W> {
    words: &'a [W],
}

impl<'a, W> View for Words<'a, W> {
    type V = Seq<W>;

    closed spec fn view(&self) -> Seq<W> {
        self.words@
    }
}

impl<'a, W> Clone for Words<'a, W> {
    fn clone(&self) -> (copy: Self)
        ensures
            copy == *self,
    {
        *self
    }
}

impl<'a, W> Copy for Words<'a, W> {

}

impl<'a, W> Words<'a, W> {
    pub fn new(words: &'a [W]) -> (all: Self)
        ensures
            all@ == words@,
    {
        Words { words }
    }
}

/// A row of words, and the operations made on them through this handle.
///
/// What a word is stays open here, so there is nothing that could be done to one but to hand it to
/// a call that the caller brings along. Each operation is given one such call, which can be made
/// only once, and records it.
pub struct Row<'a, W> {
    words: &'a [W],
    history: Ghost<Seq<Access>>,
}

impl<'a, W> Row<'a, W> {
    /// The words of the row.
    pub closed spec fn words(&self) -> Seq<W> {
        self.words@
    }

    /// The operations made through this handle so far, oldest first.
    pub closed spec fn history(&self) -> Seq<Access> {
        self.history@
    }

    /// A handle that has made no operation yet.
    pub fn new(words: Words<'a, W>) -> (row: Self)
        ensures
            row.words() == words@,
            row.history() == Seq::<Access>::empty(),
    {
        Row { words: words.words, history: Ghost(Seq::empty()) }
    }

    /// Makes the call, which loads, on the word at `at`.
    pub fn load<O, F: FnOnce(&W, O) -> u32>(&mut self, at: usize, order: O, call: F) -> (value: u32)
        requires
            at < old(self).words().len(),
            call_requires(call, (&old(self).words()[at as int], order)),
        ensures
            final(self).words() == old(self).words(),
            final(self).history() == old(self).history().push(
                Access { at, op: Op::Load { value } },
            ),
            call_ensures(call, (&old(self).words()[at as int], order), value),
    {
        let value: u32 = call(&self.words[at], order);
        self.history = Ghost(self.history@.push(Access { at, op: Op::Load { value } }));
        value
    }

    /// Makes the call, which stores `value`, on the word at `at`.
    pub fn store<O, F: FnOnce(&W, u32, O)>(&mut self, at: usize, value: u32, order: O, call: F)
        requires
            at < old(self).words().len(),
            call_requires(call, (&old(self).words()[at as int], value, order)),
        ensures
            final(self).words() == old(self).words(),
            final(self).history() == old(self).history().push(
                Access { at, op: Op::Store { value } },
            ),
            call_ensures(call, (&old(self).words()[at as int], value, order), ()),
    {
        call(&self.words[at], value, order);
        self.history = Ghost(self.history@.push(Access { at, op: Op::Store { value } }));
    }

    /// Makes the call, which sets the bits of `mask`, on the word at `at`.
    pub fn fetch_or<O, F: FnOnce(&W, u32, O) -> u32>(
        &mut self,
        at: usize,
        mask: u32,
        order: O,
        call: F,
    ) -> (previous: u32)
        requires
            at < old(self).words().len(),
            call_requires(call, (&old(self).words()[at as int], mask, order)),
        ensures
            final(self).words() == old(self).words(),
            final(self).history() == old(self).history().push(
                Access { at, op: Op::FetchOr { mask, previous } },
            ),
            call_ensures(call, (&old(self).words()[at as int], mask, order), previous),
    {
        let previous: u32 = call(&self.words[at], mask, order);
        self.history = Ghost(self.history@.push(Access { at, op: Op::FetchOr { mask, previous } }));
        previous
    }

    /// Makes the call, which exchanges `expected` for `new`, on the word at `at`.
    pub fn compare_exchange<O: Copy, F: FnOnce(&W, u32, u32, O, O) -> Result<u32, u32>>(
        &mut self,
        at: usize,
        expected: u32,
        new: u32,
        order: O,
        call: F,
    ) -> (exchange: Result<u32, u32>)
        requires
            at < old(self).words().len(),
            call_requires(call, (&old(self).words()[at as int], expected, new, order, order)),
        ensures
            final(self).words() == old(self).words(),
            final(self).history() == old(self).history().push(
                Access { at, op: Op::CompareExchange { expected, new, swapped: exchange is Ok } },
            ),
            call_ensures(
                call,
                (&old(self).words()[at as int], expected, new, order, order),
                exchange,
            ),
    {
        let exchange: Result<u32, u32> = call(&self.words[at], expected, new, order, order);
        self.history =
        Ghost(
            self.history@.push(
                Access { at, op: Op::CompareExchange { expected, new, swapped: exchange is Ok } },
            ),
        );
        exchange
    }
}

} // verus!
