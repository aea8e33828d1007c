//! Alignment and padding arithmetic: rounding lengths up to multiples of 4
//! or 8, and padding an image length to a power of two.

use vstd::prelude::*;
use vstd::arithmetic::power2::{
    pow2, lemma_pow2_adds, lemma_pow2_pos, lemma_pow2_strictly_increases, lemma2_to64,
};

verus! {

/// `x` rounded up to the next multiple of 4.
pub open spec fn spec_align4(x: int) -> int {
    x + ((4 - (x % 4)) % 4)
}

/// `x` rounded up to the next multiple of 8.
pub open spec fn spec_align8(x: int) -> int {
    x + ((8 - (x % 8)) % 8)
}

pub fn align4_u32(x: u32) -> (r: u32)
    requires
        spec_align4(x as int) <= u32::MAX,
    ensures
        r == spec_align4(x as int),
{
    x + ((4 - (x % 4)) % 4)
}

pub fn align8_u32(x: u32) -> (r: u32)
    requires
        spec_align8(x as int) <= u32::MAX,
    ensures
        r == spec_align8(x as int),
{
    x + ((8 - (x % 8)) % 8)
}

pub fn align4_usize(x: usize) -> (r: usize)
    requires
        spec_align4(x as int) <= usize::MAX,
    ensures
        r == spec_align4(x as int),
{
    x + ((4 - (x % 4)) % 4)
}

/// `x` is an exact power of two.
pub open spec fn is_power_of_two(x: int) -> bool {
    exists|e: nat| x == pow2(e)
}

/// What the padded total image size must satisfy for an unpadded length `n`:
/// a length that is already an exact power of two receives no padding at
/// all; any other length is padded up to the smallest power of two that is
/// at least 512 and at least `n`.
pub open spec fn padded_total_props(n: int, r: int) -> bool {
    &&& is_power_of_two(r)
    &&& r >= n
    &&& if is_power_of_two(n) {
            r == n
        } else {
            r >= 512 && (r == 512 || r < 2 * n)
        }
}

/// The padded total image size for an unpadded length `n`.  Well defined
/// because `padded_total_props` pins the result down uniquely
/// (`lemma_padded_total_unique`).
pub open spec fn spec_padded_total(n: int) -> int {
    choose|r: int| padded_total_props(n, r)
}

/// If `pow2(e1) < pow2(e2)` then `e1 < e2`.
proof fn lemma_pow2_lt_exponents(e1: nat, e2: nat)
    requires
        pow2(e1) < pow2(e2),
    ensures
        e1 < e2,
{
    if e1 > e2 {
        lemma_pow2_strictly_increases(e2, e1);
    }
}

/// A smaller power of two is at most half of a larger one.
proof fn lemma_pow2_lt_half(r1: int, r2: int)
    requires
        is_power_of_two(r1),
        is_power_of_two(r2),
        r1 < r2,
    ensures
        2 * r1 <= r2,
{
    let e1 = choose|e: nat| r1 == pow2(e);
    let e2 = choose|e: nat| r2 == pow2(e);
    lemma_pow2_lt_exponents(e1, e2);
    lemma_pow2_adds(e1, 1);
    assert(pow2(1) == 2) by {
        lemma2_to64();
    }
    if e1 + 1 < e2 {
        lemma_pow2_strictly_increases((e1 + 1) as nat, e2);
    }
}

/// The padding rule determines the total uniquely.
pub proof fn lemma_padded_total_unique(n: int, r1: int, r2: int)
    requires
        padded_total_props(n, r1),
        padded_total_props(n, r2),
    ensures
        r1 == r2,
{
    if !is_power_of_two(n) && r1 != r2 {
        if r1 < r2 {
            lemma_pow2_lt_half(r1, r2);
        } else {
            lemma_pow2_lt_half(r2, r1);
        }
    }
}

proof fn lemma_find_pow2(n: int, e: nat) -> (f: nat)
    requires
        1 <= n,
        pow2(e) < n,
        e < 31,
        n <= pow2(31),
    ensures
        1 <= f <= 31,
        pow2(f) >= n,
        pow2((f - 1) as nat) < n,
    decreases 31 - e,
{
    lemma_pow2_strictly_increases(e, e + 1);
    if pow2(e + 1) >= n {
        e + 1
    } else {
        lemma_pow2_lt_exponents(e + 1, 31);
        lemma_find_pow2(n, e + 1)
    }
}

/// For any unpadded length in range, the padding rule has a solution, so
/// `spec_padded_total` satisfies it.
pub proof fn lemma_padded_total_exists(n: int)
    requires
        1 <= n <= 0x8000_0000,
    ensures
        padded_total_props(n, spec_padded_total(n)),
{
    assert(pow2(0) == 1 && pow2(9) == 512 && pow2(31) == 0x8000_0000) by {
        lemma2_to64();
    }
    if is_power_of_two(n) {
        assert(padded_total_props(n, n));
    } else {
        assert(n >= 2);
        let f = lemma_find_pow2(n, 0);
        let p = pow2(f);
        let r: int = if p < 512 {
            512
        } else {
            p as int
        };
        lemma_pow2_adds((f - 1) as nat, 1);
        assert(pow2(1) == 2) by {
            lemma2_to64();
        }
        assert(padded_total_props(n, r));
    }
    let chosen = spec_padded_total(n);
    assert(padded_total_props(n, chosen)) by {
        assert(exists|r: int| padded_total_props(n, r));
    }
}

/// Whatever the padding rule yields is an exact power of two; and it is at
/// least 512 whenever the unpadded length is not itself a power of two
/// below 512.
pub proof fn lemma_padded_total_power_of_two(n: int, r: int)
    requires
        padded_total_props(n, r),
    ensures
        is_power_of_two(r),
        !is_power_of_two(n) ==> r >= 512,
        n >= 512 ==> r >= 512,
{
}

/// The total image size for an unpadded length `n`: `n` itself when `n` is
/// already a power of two, otherwise the smallest power of two that is at
/// least `max(n, 512)`.
pub fn padded_total_size(n: u32) -> (r: u32)
    requires
        1 <= n <= 0x8000_0000,
    ensures
        padded_total_props(n as int, r as int),
        r == spec_padded_total(n as int),
        n <= r <= 0x8000_0000,
{
    let mut p: u32 = 1;
    let ghost mut e: nat = 0;
    proof {
        assert(pow2(0) == 1 && pow2(9) == 512 && pow2(31) == 0x8000_0000) by {
            lemma2_to64();
        }
    }
    while p < n
        invariant
            1 <= n <= 0x8000_0000,
            p == pow2(e),
            1 <= p,
            e > 0 ==> pow2((e - 1) as nat) < n,
            p < 2 * n,
        decreases 2 * n - p,
    {
        proof {
            lemma_pow2_adds(e, 1);
            assert(pow2(1) == 2) by {
                lemma2_to64();
            }
            e = e + 1;
        }
        p = p * 2;
    }
    let r: u32 = if p == n {
        n
    } else if p < 512 {
        512
    } else {
        p
    };
    proof {
        assert(pow2(9) == 512 && pow2(31) == 0x8000_0000) by {
            lemma2_to64();
        }
        if p == n {
            assert(is_power_of_two(n as int));
        } else {
            // The loop overshot: pow2(e - 1) < n < pow2(e), so n is not a
            // power of two.
            assert(e > 0);
            if is_power_of_two(n as int) {
                let f = choose|f: nat| n as int == pow2(f);
                lemma_pow2_lt_exponents((e - 1) as nat, f);
                lemma_pow2_lt_exponents(f, e);
                assert(false);
            }
            if p > 0x8000_0000 {
                lemma_pow2_lt_exponents(31, e);
                lemma_pow2_strictly_increases(31, (e - 1) as nat);
            }
        }
        let chosen = spec_padded_total(n as int);
        assert(padded_total_props(n as int, chosen)) by {
            assert(padded_total_props(n as int, r as int));
        }
        lemma_padded_total_unique(n as int, r as int, chosen);
    }
    r
}

} // verus!
