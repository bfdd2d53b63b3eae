//! Bit index utilities: single-bit get/set, interleaving of two bit
//! streams under a selector mask, and row-major flat matrix indexing.

use vstd::prelude::*;

verus! {

/// Bit `bit_index` of `num`, with bit 0 the least significant.
pub open spec fn spec_get_bit(num: u64, bit_index: u64) -> bool {
    (num >> bit_index) & 1 != 0
}

/// `num` with bit `bit_index` forced to `value` and every other bit kept.
pub open spec fn spec_set_bit(num: u64, bit_index: u64, value: bool) -> u64 {
    if value {
        num | (1u64 << bit_index)
    } else {
        num & !(1u64 << bit_index)
    }
}

/// Read bit `bit_index` (0 = least significant) of `num`.
pub fn get_bit(num: u64, bit_index: u64) -> (r: bool)
    requires
        bit_index < 64,
    ensures
        r == spec_get_bit(num, bit_index),
{
    ((num >> bit_index) & 1) != 0
}

/// Return `num` with bit `bit_index` set to `value`; all other bits are
/// left untouched.
pub fn set_bit(num: u64, bit_index: u64, value: bool) -> (r: u64)
    requires
        bit_index < 64,
    ensures
        r == spec_set_bit(num, bit_index, value),
        spec_get_bit(r, bit_index) == value,
        forall|k: u64| k < 64 && k != bit_index ==> spec_get_bit(r, k) == spec_get_bit(num, k),
{
    let v = 1u64 << bit_index;
    let r = if value {
        num | v
    } else {
        num & !v
    };
    proof {
        lemma_set_bit_reads_back(num, bit_index, value);
    }
    r
}

/// Setting a bit makes exactly that bit read back, leaving the rest.
pub proof fn lemma_set_bit_reads_back(num: u64, bit_index: u64, value: bool)
    requires
        bit_index < 64,
    ensures
        spec_get_bit(spec_set_bit(num, bit_index, value), bit_index) == value,
        forall|k: u64|
            k < 64 && k != bit_index ==> spec_get_bit(spec_set_bit(num, bit_index, value), k)
                == spec_get_bit(num, k),
{
    if value {
        assert(((num | (1u64 << bit_index)) >> bit_index) & 1 != 0) by (bit_vector)
            requires
                bit_index < 64,
        ;
        assert(forall|k: u64|
            k < 64 && k != bit_index ==> (((num | (1u64 << bit_index)) >> k) & 1) == ((num >> k)
                & 1)) by (bit_vector)
            requires
                bit_index < 64,
        ;
    } else {
        assert(((num & !(1u64 << bit_index)) >> bit_index) & 1 == 0) by (bit_vector)
            requires
                bit_index < 64,
        ;
        assert(forall|k: u64|
            k < 64 && k != bit_index ==> (((num & !(1u64 << bit_index)) >> k) & 1) == ((num >> k)
                & 1)) by (bit_vector)
            requires
                bit_index < 64,
        ;
    }
}

/// Setting a bit and then clearing it again leaves the number with that
/// bit masked off, whatever it held before.
pub proof fn lemma_set_then_clear_bit(x: u64, n: u64)
    requires
        n < 64,
    ensures
        spec_set_bit(spec_set_bit(x, n, true), n, false) == x & !(1u64 << n),
{
    assert((x | (1u64 << n)) & !(1u64 << n) == x & !(1u64 << n)) by (bit_vector)
        requires
            n < 64,
    ;
}

/// Reading back a bit just written yields the written value.
pub proof fn lemma_get_bit_of_set_bit(x: u64, n: u64, b: bool)
    requires
        n < 64,
    ensures
        spec_get_bit(spec_set_bit(x, n, b), n) == b,
{
    lemma_set_bit_reads_back(x, n, b);
}

/// The n-bit interleave of `off_bits` and `on_bits` under `selector`:
/// bit position i of the result takes the next unconsumed bit of
/// `off_bits` when selector bit i is 0, of `on_bits` when it is 1.
pub open spec fn spec_entwine(n: u64, selector: u64, off_bits: u64, on_bits: u64) -> u64
    decreases n,
{
    if n == 0 {
        0u64
    } else if selector & 1 == 0 {
        (off_bits & 1) | (spec_entwine((n - 1) as u64, selector >> 1, off_bits >> 1, on_bits) << 1)
    } else {
        (on_bits & 1) | (spec_entwine((n - 1) as u64, selector >> 1, off_bits, on_bits >> 1) << 1)
    }
}

/// With an all-zero selector the interleave consumes only `off_bits`:
/// the result is its low `n` bits unchanged.
pub proof fn lemma_entwine_all_off(n: u64, off_bits: u64, on_bits: u64)
    requires
        n < 64,
    ensures
        spec_entwine(n, 0, off_bits, on_bits) == off_bits & (((1u64 << n) - 1) as u64),
    decreases n,
{
    assert(0u64 & 1 == 0) by (bit_vector);
    assert(0u64 >> 1 == 0) by (bit_vector);
    if n == 0 {
        assert(off_bits & (((1u64 << 0) - 1) as u64) == 0) by (bit_vector);
    } else {
        lemma_entwine_all_off((n - 1) as u64, off_bits >> 1, on_bits);
        assert((off_bits & 1) | (((off_bits >> 1) & (((1u64 << ((n - 1) as u64)) - 1) as u64))
            << 1) == off_bits & (((1u64 << n) - 1) as u64)) by (bit_vector)
            requires
                0 < n < 64,
        ;
    }
}

/// With an all-one selector over the low `n` bits the interleave
/// consumes only `on_bits`: the result is its low `n` bits unchanged.
pub proof fn lemma_entwine_all_on(n: u64, off_bits: u64, on_bits: u64)
    requires
        n < 64,
    ensures
        spec_entwine(n, ((1u64 << n) - 1) as u64, off_bits, on_bits) == on_bits & (((1u64 << n)
            - 1) as u64),
    decreases n,
{
    if n == 0 {
        assert(((1u64 << 0) - 1) as u64 == 0) by (bit_vector);
        assert(on_bits & (((1u64 << 0) - 1) as u64) == 0) by (bit_vector);
    } else {
        lemma_entwine_all_on((n - 1) as u64, off_bits, on_bits >> 1);
        assert((((1u64 << n) - 1) as u64) & 1 == 1) by (bit_vector)
            requires
                0 < n < 64,
        ;
        assert((((1u64 << n) - 1) as u64) >> 1 == ((1u64 << ((n - 1) as u64)) - 1) as u64)
            by (bit_vector)
            requires
                0 < n < 64,
        ;
        assert((on_bits & 1) | (((on_bits >> 1) & (((1u64 << ((n - 1) as u64)) - 1) as u64))
            << 1) == on_bits & (((1u64 << n) - 1) as u64)) by (bit_vector)
            requires
                0 < n < 64,
        ;
    }
}

/// Mix the two bit streams `off_bits` and `on_bits` into one n-bit value.
/// For each position from bit 0 upward, the corresponding `selector` bit
/// picks which stream supplies the next bit: 0 consumes the lowest
/// remaining bit of `off_bits`, 1 the lowest remaining bit of `on_bits`;
/// the consumed bit lands at that position of the result.
pub fn entwine_bits(n: u64, selector: u64, off_bits: u64, on_bits: u64) -> (r: u64)
    requires
        n <= 64,
    ensures
        r == spec_entwine(n, selector, off_bits, on_bits),
    decreases n,
{
    if n == 0 {
        0
    } else if selector & 1 == 0 {
        let bit = off_bits & 1;
        let rest = entwine_bits(n - 1, selector >> 1, off_bits >> 1, on_bits);
        bit | (rest << 1u64)
    } else {
        let bit = on_bits & 1;
        let rest = entwine_bits(n - 1, selector >> 1, off_bits, on_bits >> 1);
        bit | (rest << 1u64)
    }
}

/// Row-major index of entry (i, j) in a dense operator matrix over
/// `nindices` qubit indices: the matrix side is 2^nindices, and the entry
/// sits at `i * 2^nindices + j`.
pub fn get_flat_index(nindices: u64, i: u64, j: u64) -> (r: u64)
    requires
        nindices < 64,
        i * (1u64 << nindices) + j <= u64::MAX,
    ensures
        r == i * (1u64 << nindices) + j,
{
    let mat_side = 1u64 << nindices;
    i * mat_side + j
}

} // verus!
