//! What the layout of shared data depends on: sizes, alignment and byte order.
use crate::index::INDEX_SIZE;
use vstd::arithmetic::power::pow;
use vstd::arithmetic::power2::{
    is_pow2, is_pow2_equiv, lemma_pow2_pos, lemma_pow2_strictly_increases, pow2,
};
use vstd::bits::{low_bits_mask, lemma_usize_low_bits_mask_is_mod};
use vstd::prelude::*;

verus! {

/// The smallest multiple of `alignment` that is not below `size`.
pub open spec fn round_up(size: nat, alignment: nat) -> nat {
    ((size + alignment - 1) / alignment as int * alignment) as nat
}

/// Rounding up reaches a multiple of the alignment by less than one alignment.
pub proof fn law_round_up(size: nat, alignment: nat)
    requires
        alignment > 0,
    ensures
        round_up(size, alignment) % alignment == 0,
        size <= round_up(size, alignment) < size + alignment,
{
    let sum = size + alignment - 1;
    let a = alignment as int;
    vstd::arithmetic::div_mod::lemma_fundamental_div_mod(sum, a);
    vstd::arithmetic::div_mod::lemma_mod_multiples_basic(sum / a, a);
    vstd::arithmetic::mul::lemma_mul_is_commutative(sum / a, a);
}

/// Clearing the low bits takes off the remainder by a power of two.
proof fn lemma_clear_low_bits(x: usize, alignment: usize)
    requires
        is_pow2(alignment as int),
    ensures
        alignment > 0,
        x & !((alignment - 1) as usize) == x - x % alignment,
{
    is_pow2_equiv(alignment as int);
    let k: nat = choose|k: nat| pow(2, k) == alignment;
    assert(pow2(k) == alignment);
    lemma_pow2_pos(k);
    let mask = (alignment - 1) as usize;
    assert(k < usize::BITS) by {
        if k >= usize::BITS {
            vstd::arithmetic::power2::lemma2_to64();
            vstd::arithmetic::power2::lemma2_to64_rest();
            if k > usize::BITS {
                lemma_pow2_strictly_increases(usize::BITS as nat, k);
            }
        }
    }
    lemma_usize_low_bits_mask_is_mod(x, k);
    assert(low_bits_mask(k) == mask);
    assert(x & !mask == x - (x & mask)) by (bit_vector);
}

/// What fits once rounded up also fits with a whole alignment, but for one, on top.
proof fn lemma_room_to_align(size: usize, alignment: u16)
    requires
        is_pow2(alignment as int),
        alignment > 0,
        round_up(size as nat, alignment as nat) <= usize::MAX,
    ensures
        size + alignment - 1 <= usize::MAX,
{
    let a = alignment as int;
    let up = round_up(size as nat, alignment as nat) as int;
    let end = usize::MAX + 1;
    assert(end % a == 0) by {
        is_pow2_equiv(a);
        let k: nat = choose|k: nat| pow(2, k) == a;
        assert(pow2(k) == a);
        let bits = usize::BITS as nat;
        vstd::arithmetic::power2::lemma2_to64();
        vstd::arithmetic::power2::lemma2_to64_rest();
        if k > 16 {
            lemma_pow2_strictly_increases(16, k);
        }
        assert(pow2(bits) == end);
        vstd::arithmetic::power2::lemma_pow2_adds(k, (bits - k) as nat);
        vstd::arithmetic::mul::lemma_mul_is_commutative(a, pow2((bits - k) as nat) as int);
        vstd::arithmetic::div_mod::lemma_mod_multiples_basic(pow2((bits - k) as nat) as int, a);
    }
    law_round_up(size as nat, alignment as nat);
    assert(up <= end - a) by {
        vstd::arithmetic::div_mod::lemma_fundamental_div_mod(end, a);
        vstd::arithmetic::div_mod::lemma_fundamental_div_mod(up, a);
        assert(up == a * (up / a));
        assert(end == a * (end / a));
        assert(up / a < end / a) by (nonlinear_arith)
            requires
                up == a * (up / a),
                end == a * (end / a),
                up < end,
                a > 0,
        ;
        assert(a * (up / a) + a <= a * (end / a)) by (nonlinear_arith)
            requires
                up / a < end / a,
                a > 0,
        ;
    }
}

/// Rounds `size` up to a multiple of `alignment`, which is meant to be a power of two.
pub fn mem_align(size: usize, alignment: usize) -> (aligned: usize)
    requires
        alignment > 0,
        size + alignment - 1 <= usize::MAX,
    ensures
        aligned == ((size + alignment - 1) as usize) & !((alignment - 1) as usize),
        is_pow2(alignment as int) ==> aligned == round_up(size as nat, alignment as nat),
{
    proof {
        if is_pow2(alignment as int) {
            let sum = (size + alignment - 1) as usize;
            lemma_clear_low_bits(sum, alignment);
            vstd::arithmetic::div_mod::lemma_fundamental_div_mod(sum as int, alignment as int);
            vstd::arithmetic::mul::lemma_mul_is_commutative(
                sum as int / alignment as int,
                alignment as int,
            );
        }
    }
    (size + (alignment - 1)) & !(alignment - 1)
}

/// A size in bytes that is not zero.
#[derive(Clone, Copy, Debug)]
pub struct NonZeroSize {
    bytes: usize,
}

impl View for NonZeroSize {
    type V = usize;

    closed spec fn view(&self) -> usize {
        self.bytes
    }
}

impl NonZeroSize {
    #[verifier::type_invariant]
    spec fn is_not_zero(self) -> bool {
        self.bytes > 0
    }

    pub fn new(bytes: usize) -> (size: Option<NonZeroSize>)
        ensures
            size is Some <==> bytes > 0,
            size matches Some(s) ==> s@ == bytes,
    {
        if bytes > 0 {
            Some(NonZeroSize { bytes })
        } else {
            None
        }
    }

    pub fn get(&self) -> (bytes: usize)
        ensures
            bytes == self@,
            bytes > 0,
    {
        proof {
            use_type_invariant(self);
        }
        self.bytes
    }
}

/// The order in which a machine lays out the bytes of an integer.
#[derive(Clone, Copy, Debug, PartialEq, Eq, Structural)]
pub enum ByteOrder {
    Little,
    Big,
}

/// The machine that two ends share: both lay out the shared data by it.
#[derive(Clone, Copy, Debug)]
pub struct Host {
    cacheline_size: u16,
    byte_order: ByteOrder,
}

/// What the layout depends on.
pub struct HostView {
    pub cacheline_size: nat,
    pub byte_order: ByteOrder,
}

impl View for Host {
    type V = HostView;

    closed spec fn view(&self) -> HostView {
        HostView { cacheline_size: self.cacheline_size as nat, byte_order: self.byte_order }
    }
}

impl HostView {
    pub open spec fn is_valid(self) -> bool {
        &&& 0 < self.cacheline_size <= u16::MAX
        &&& is_pow2(self.cacheline_size as int)
        &&& self.cacheline_size % INDEX_SIZE as nat == 0
    }

    /// A size rounded up to whole cachelines.
    pub open spec fn aligned(self, size: nat) -> nat {
        round_up(size, self.cacheline_size)
    }
}

impl Host {
    #[verifier::type_invariant]
    spec fn is_valid(self) -> bool {
        self@.is_valid()
    }

    /// A machine with the given largest cacheline size and byte order; there is none unless the
    /// size is a power of two and cachelines are made of words.
    pub fn new(cacheline_size: u16, byte_order: ByteOrder) -> (host: Option<Host>)
        ensures
            host is Some <==> is_pow2(cacheline_size as int) && cacheline_size % 4 == 0,
            host matches Some(h) ==> {
                &&& h@ == (HostView { cacheline_size: cacheline_size as nat, byte_order })
                &&& h@.is_valid()
            },
    {
        if is_power_of_two(cacheline_size) && cacheline_size % 4 == 0 {
            proof {
                reveal(is_pow2);
            }
            Some(Host { cacheline_size, byte_order })
        } else {
            None
        }
    }

    pub fn cacheline_size(&self) -> (size: u16)
        ensures
            size == self@.cacheline_size,
            self@.is_valid(),
    {
        proof {
            use_type_invariant(self);
        }
        self.cacheline_size
    }

    pub fn byte_order(&self) -> (order: ByteOrder)
        ensures
            order == self@.byte_order,
    {
        self.byte_order
    }

    /// Rounds a size up to whole cachelines.
    pub fn cacheline_aligned(&self, size: usize) -> (aligned: usize)
        requires
            self@.aligned(size as nat) <= usize::MAX,
        ensures
            aligned == self@.aligned(size as nat),
    {
        let alignment: usize = self.cacheline_size() as usize;
        proof {
            lemma_room_to_align(size, alignment as u16);
        }
        mem_align(size, alignment)
    }
}

/// Whether a number is a power of two.
fn is_power_of_two(number: u16) -> (result: bool)
    ensures
        result == is_pow2(number as int),
{
    proof {
        reveal(is_pow2);
    }
    if number == 0 {
        return false;
    }
    let mut rest: u16 = number;
    while rest % 2 == 0
        invariant
            rest > 0,
            is_pow2(rest as int) == is_pow2(number as int),
        decreases rest,
    {
        proof {
            reveal(is_pow2);
        }
        rest = rest / 2;
    }
    proof {
        reveal(is_pow2);
    }
    rest == 1
}

} // verus!
