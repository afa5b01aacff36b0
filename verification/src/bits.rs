//! Sets of squares as bits of a `u64`: bit `s` stands for square `s`.

use vstd::prelude::*;

verus! {

/// Whether bit `s` of `x` is set.
pub open spec fn bit(x: u64, s: int) -> bool {
    0 <= s < 64 && (x >> (s as u64)) & 1 == 1
}

/// The number of set bits of `x` below bit `n`.
pub open spec fn ones_below(x: u64, n: nat) -> nat
    decreases n,
{
    if n == 0 {
        0
    } else {
        ones_below(x, (n - 1) as nat) + if bit(x, n - 1) {
            1nat
        } else {
            0nat
        }
    }
}

/// The number of set bits of `x`.
pub open spec fn ones(x: u64) -> nat {
    ones_below(x, 64)
}

/// The mask of the squares below `n` of which `f` holds.
pub open spec fn mask_below(f: spec_fn(int) -> bool, n: nat) -> u64
    decreases n,
{
    if n == 0 {
        0
    } else if f(n - 1) {
        mask_below(f, (n - 1) as nat) | (1u64 << ((n - 1) as u64))
    } else {
        mask_below(f, (n - 1) as nat)
    }
}

/// The mask of the squares of the board of which `f` holds.
pub open spec fn mask_of(f: spec_fn(int) -> bool) -> u64 {
    mask_below(f, 64)
}

/// The number of squares below `n` of which `f` holds.
pub open spec fn count_below(f: spec_fn(int) -> bool, n: nat) -> nat
    decreases n,
{
    if n == 0 {
        0
    } else {
        count_below(f, (n - 1) as nat) + if f(n - 1) {
            1nat
        } else {
            0nat
        }
    }
}

/// The number of squares of the board of which `f` holds.
pub open spec fn count_of(f: spec_fn(int) -> bool) -> nat {
    count_below(f, 64)
}

/// `f` holds of no more squares below `n` than `n`.
pub proof fn lemma_count_below_bound(f: spec_fn(int) -> bool, n: nat)
    ensures
        count_below(f, n) <= n,
    decreases n,
{
    if n > 0 {
        lemma_count_below_bound(f, (n - 1) as nat);
    }
}

/// Bit `s` of the mask of `f` below `n` is set where `s` is below `n` and `f`
/// holds of it, and nowhere else.
pub proof fn lemma_mask_bits(f: spec_fn(int) -> bool, n: nat, s: int)
    requires
        n <= 64,
    ensures
        bit(mask_below(f, n), s) == (0 <= s < n && f(s)),
    decreases n,
{
    if 0 <= s < 64 {
        let t = s as u64;
        if n == 0 {
            assert((0u64 >> t) & 1 == 0) by (bit_vector)
                requires
                    t < 64,
            ;
        } else {
            lemma_mask_bits(f, (n - 1) as nat, s);
            let below = mask_below(f, (n - 1) as nat);
            let k = (n - 1) as u64;
            assert(((below | (1u64 << k)) >> t) & 1 == 1 <==> ((below >> t) & 1 == 1 || t == k))
                by (bit_vector)
                requires
                    t < 64,
                    k < 64,
            ;
        }
    }
}

/// A number whose bits below `n` are set where `f` holds has as many set
/// bits below `n` as there are squares below `n` of which `f` holds.
pub proof fn lemma_ones_count(x: u64, f: spec_fn(int) -> bool, n: nat)
    requires
        n <= 64,
        forall|s: int| 0 <= s < n ==> bit(x, s) == f(s),
    ensures
        ones_below(x, n) == count_below(f, n),
    decreases n,
{
    if n > 0 {
        lemma_ones_count(x, f, (n - 1) as nat);
    }
}

/// The mask of `f` has as many set bits as there are squares of which `f`
/// holds.
pub proof fn lemma_mask_ones(f: spec_fn(int) -> bool)
    ensures
        ones(mask_of(f)) == count_of(f),
{
    assert forall|s: int| 0 <= s < 64 implies bit(mask_of(f), s) == f(s) by {
        lemma_mask_bits(f, 64, s);
    }
    lemma_ones_count(mask_of(f), f, 64);
}

/// Two numbers with the same bits are the same number.
pub proof fn lemma_same_bits(x: u64, y: u64)
    requires
        forall|s: int| 0 <= s < 64 ==> bit(x, s) == bit(y, s),
    ensures
        x == y,
{
    if x != y {
        let d = x ^ y;
        assert(d >> 0 != 0) by (bit_vector)
            requires
                d == x ^ y,
                x != y,
        ;
        let t = lowest_set(d, 0);
        assert(((x >> t) & 1 == 1) != ((y >> t) & 1 == 1)) by (bit_vector)
            requires
                t < 64,
                ((x ^ y) >> t) & 1 == 1,
        ;
        assert(bit(x, t as int) != bit(y, t as int));
    }
}

/// The least bit from `from` up that is set in `d`.
proof fn lowest_set(d: u64, from: u64) -> (t: u64)
    requires
        from < 64,
        d >> from != 0,
    ensures
        t < 64,
        (d >> t) & 1 == 1,
    decreases 64 - from,
{
    if (d >> from) & 1 == 1 {
        from
    } else {
        assert(from < 63 && d >> ((from + 1) as u64) != 0) by (bit_vector)
            requires
                from < 64,
                d >> from != 0,
                (d >> from) & 1 != 1,
        ;
        lowest_set(d, (from + 1) as u64)
    }
}

/// A bit is set in two numbers combined by AND where it is set in both.
pub proof fn lemma_and_bits(x: u64, y: u64, s: int)
    ensures
        bit(x & y, s) == (bit(x, s) && bit(y, s)),
{
    if 0 <= s < 64 {
        let t = s as u64;
        assert((((x & y) >> t) & 1 == 1) <==> (((x >> t) & 1 == 1) && ((y >> t) & 1 == 1)))
            by (bit_vector)
            requires
                t < 64,
        ;
    }
}

/// The number of set bits, as `BitBoard::popcnt` of the `chess` crate counts
/// them.
pub fn popcnt(x: u64) -> (n: u32)
    ensures
        n == ones(x),
        n <= 64,
{
    let mut n: u32 = 0;
    let mut i: u32 = 0;
    while i < 64
        invariant
            i <= 64,
            n == ones_below(x, i as nat),
            n <= i,
        decreases 64 - i,
    {
        if (x >> i) & 1 == 1 {
            n += 1;
        }
        i += 1;
    }
    n
}

} // verus!
