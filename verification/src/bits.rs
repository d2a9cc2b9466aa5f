//! Square-indexed reading of 64-bit masks: one bit per board square,
//! bit `s` standing for the square with index `s`.

use vstd::prelude::*;

verus! {

/// True when bit `s` of the mask `bb` is set, i.e. when `bb` marks the
/// board square with index `s` as occupied.
pub open spec fn sq_bit(bb: u64, s: u64) -> bool
    recommends
        s < 64,
{
    (bb >> s) & 1 == 1
}

/// True when `m` has exactly one bit set, i.e. when it denotes a single
/// board square.
pub open spec fn is_single_bit(m: u64) -> bool {
    exists|s: u64| s < 64 && m == (1u64 << s)
}

/// The index of the one square that a single-bit mask denotes.
pub open spec fn square_of(m: u64) -> u64
    recommends
        is_single_bit(m),
{
    choose|s: u64| s < 64 && m == (1u64 << s)
}

/// Intersecting a mask with a single-bit mask reads exactly that bit,
/// whichever side of the `&` the single bit stands on.
pub proof fn lemma_mask_test(m: u64, s: u64)
    by (bit_vector)
    requires
        s < 64,
    ensures
        ((m & (1u64 << s)) != 0) == sq_bit(m, s),
        (((1u64 << s) & m) != 0) == sq_bit(m, s),
{
}

/// `1 << s` is a single-bit mask, and `square_of` recovers `s` from it.
pub proof fn lemma_square_mask(s: u64)
    requires
        s < 64,
    ensures
        is_single_bit(1u64 << s),
        square_of(1u64 << s) == s,
{
    assert(is_single_bit(1u64 << s));
    let j = square_of(1u64 << s);
    assert(j < 64 && (1u64 << s) == (1u64 << j));
    assert(s == j) by (bit_vector)
        requires
            s < 64,
            j < 64,
            (1u64 << s) == (1u64 << j),
    ;
}

/// The index of the one set bit of a single-bit mask.
pub fn square_index(m: u64) -> (s: u64)
    requires
        is_single_bit(m),
    ensures
        s == square_of(m),
        s < 64,
        m == (1u64 << s),
{
    let mut i: u64 = 0;
    while i < 64
        invariant
            i <= 64,
            is_single_bit(m),
            forall|j: u64| j < i ==> m != (1u64 << j),
        decreases 64 - i,
    {
        if m == (1u64 << i) {
            proof {
                lemma_square_mask(i);
            }
            return i;
        }
        i = i + 1;
    }
    proof {
        let s = square_of(m);
        assert(s < 64 && m == (1u64 << s));
        assert(false);
    }
    0
}

} // verus!
