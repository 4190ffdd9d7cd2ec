use vstd::arithmetic::div_mod::{lemma_fundamental_div_mod, lemma_mod_bound};
use vstd::arithmetic::power2::{lemma_pow2_pos, pow2};
use vstd::bits::{low_bits_mask, lemma_u64_low_bits_mask_is_mod};
use vstd::prelude::*;

verus! {

/// `a` is a power of two that fits in a `u64`.
pub open spec fn is_power_of_two(a: u64) -> bool {
    exists|n: nat| n < 64 && a as nat == pow2(n)
}

/// The least multiple of `alignment` that is at least `value`.
pub open spec fn is_aligned_up(r: int, value: int, alignment: int) -> bool {
    &&& r % alignment == 0
    &&& value <= r
    &&& r < value + alignment
}

/// Rounds `value` up to the next multiple of `alignment`.
pub fn aligned_size(value: u64, alignment: u64) -> (r: u64)
    requires
        is_power_of_two(alignment),
        value + alignment - 1 <= u64::MAX,
    ensures
        is_aligned_up(r as int, value as int, alignment as int),
{
    let ghost n = choose|n: nat| n < 64 && alignment as nat == pow2(n);
    proof {
        lemma_pow2_pos(n);
    }
    let m: u64 = alignment - 1;
    let x: u64 = value + m;
    let r: u64 = x & !m;
    proof {
        lemma_u64_low_bits_mask_is_mod(x, n);
        assert(low_bits_mask(n) as u64 == m);
        assert(x & !m == x - (x & m)) by (bit_vector);
        lemma_mod_bound(x as int, alignment as int);
        lemma_fundamental_div_mod(x as int, alignment as int);
        assert(r as int == alignment * (x as int / alignment as int));
        vstd::arithmetic::div_mod::lemma_mod_multiples_basic(x as int / alignment as int, alignment as int);
    }
    r
}

/// An owned value that must be taken out by hand before it is dropped.
pub struct MaybeThere<T> {
    value: Option<T>,
}

impl<T> MaybeThere<T> {
    /// The value held, if it has not been taken out yet.
    pub closed spec fn view_value(&self) -> Option<T> {
        self.value
    }

    pub fn new(value: T) -> (r: Self)
        ensures
            r.view_value() == Some(value),
    {
        MaybeThere { value: Some(value) }
    }

    /// Whether the value is still held.
    pub fn is_there(&self) -> (r: bool)
        ensures
            r == self.view_value().is_some(),
    {
        self.value.is_some()
    }

    /// Takes the value out; afterwards nothing is held.
    pub fn manually_drop(&mut self) -> (r: T)
        requires
            old(self).view_value().is_some(),
        ensures
            Some(r) == old(self).view_value(),
            final(self).view_value().is_none(),
    {
        self.value.take().unwrap()
    }

    /// Borrows the held value.
    pub fn get(&self) -> (r: &T)
        requires
            self.view_value().is_some(),
        ensures
            Some(*r) == self.view_value(),
    {
        self.value.as_ref().unwrap()
    }
}

} // verus!
