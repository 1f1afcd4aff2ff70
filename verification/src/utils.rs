//! Bit-reversed index arithmetic.
//!
//! A length-`2^n` column in bit-reversed order stores at position `j` the
//! value belonging to natural position `bit_rev(j, n)`.

use vstd::prelude::*;
use vstd::arithmetic::power2::{pow2, lemma_pow2_unfold, lemma_pow2_pos, lemma2_to64};
use vstd::arithmetic::div_mod::{
    lemma_small_mod, lemma_mod_mod, lemma_mod_breakdown, lemma_mod_bound,
    lemma_fundamental_div_mod_converse_div, lemma_fundamental_div_mod,
};

verus! {

/// The reversal of the low `bits` bits of `i`: the most significant of those
/// bits becomes the least significant of the result.
pub open spec fn bit_rev(i: int, bits: nat) -> int
    decreases bits,
{
    if bits == 0 {
        0
    } else {
        2 * bit_rev(i % (pow2((bits - 1) as nat) as int), (bits - 1) as nat) + i / (pow2(
            (bits - 1) as nat,
        ) as int)
    }
}

/// A quotient by `d` of a value below `2 * d` is zero or one.
proof fn lemma_div_lt_two(x: int, d: int)
    requires
        0 <= x < 2 * d,
        0 < d,
    ensures
        0 <= x / d < 2,
{
    lemma_fundamental_div_mod(x, d);
    lemma_mod_bound(x, d);
    if x / d >= 2 {
        vstd::arithmetic::mul::lemma_mul_inequality(2, x / d, d);
        vstd::arithmetic::mul::lemma_mul_is_commutative(d, x / d);
    }
    if x / d < 0 {
        vstd::arithmetic::mul::lemma_mul_inequality(x / d, -1, d);
        vstd::arithmetic::mul::lemma_mul_is_commutative(d, x / d);
    }
}

/// Powers of two up to `2^31` fit in 32 bits.
pub proof fn lemma_pow2_le31(e: nat)
    requires
        e <= 31,
    ensures
        pow2(e) <= 0x8000_0000,
        pow2(e) >= 1,
{
    lemma2_to64();
    lemma_pow2_pos(e);
    if e < 31 {
        vstd::arithmetic::power2::lemma_pow2_strictly_increases(e, 31);
    }
}

/// A reversed index of `bits` bits stays below `2^bits`.
pub proof fn lemma_bit_rev_range(i: int, bits: nat)
    requires
        0 <= i < pow2(bits),
    ensures
        0 <= bit_rev(i, bits) < pow2(bits),
    decreases bits,
{
    if bits > 0 {
        let h = (bits - 1) as nat;
        lemma_pow2_unfold(bits);
        lemma_pow2_pos(h);
        lemma_mod_bound(i, pow2(h) as int);
        lemma_bit_rev_range(i % (pow2(h) as int), h);
        lemma_div_lt_two(i, pow2(h) as int);
    }
}

/// Setting the lowest bit of an even index sets the top bit of the
/// reversal.
pub proof fn lemma_bit_rev_plus1(j: int, n: nat)
    requires
        n >= 1,
        0 <= j,
        j % 2 == 0,
        j + 1 < pow2(n),
    ensures
        bit_rev(j + 1, n) == bit_rev(j, n) + pow2((n - 1) as nat),
    decreases n,
{
    lemma_pow2_pos((n - 1) as nat);
    let h = pow2((n - 1) as nat) as int;
    if n == 1 {
        lemma2_to64();
        lemma_small_mod(0, 1);
        vstd::arithmetic::div_mod::lemma_basic_div_specific_divisor(1);
        assert(j == 0);
        assert(bit_rev(1, 1) == 2 * bit_rev(1int % 1, 0) + 1int / 1);
        assert(1int % 1 == 0 && 1int / 1 == 1) by {
            lemma_small_mod(0, 1);
            lemma_fundamental_div_mod_converse_div(1, 1, 1, 0);
        }
    } else {
        lemma_pow2_unfold(n);
        lemma_pow2_unfold((n - 1) as nat);
        lemma_fundamental_div_mod(j, h);
        lemma_mod_bound(j, h);
        // The low part is even, so adding one stays within the half block.
        assert((j % h) % 2 == j % 2) by {
            lemma_pow2_pos((n - 2) as nat);
            lemma_mod_mod(j, 2, pow2((n - 2) as nat) as int);
        }
        assert(h % 2 == 0) by {
            vstd::arithmetic::div_mod::lemma_mod_multiples_basic(pow2((n - 2) as nat) as int, 2);
            vstd::arithmetic::mul::lemma_mul_is_commutative(pow2((n - 2) as nat) as int, 2);
        }
        assert(j % h + 1 < h) by {
            if j % h + 1 == h {
                lemma_mod_mod(h, 2, pow2((n - 2) as nat) as int);
            }
        }
        vstd::arithmetic::mul::lemma_mul_is_commutative(h, j / h);
        lemma_fundamental_div_mod_converse_div(j + 1, h, j / h, j % h + 1);
        vstd::arithmetic::div_mod::lemma_fundamental_div_mod_converse_mod(
            j + 1,
            h,
            j / h,
            j % h + 1,
        );
        lemma_bit_rev_plus1(j % h, (n - 1) as nat);
    }
}

/// Setting bit one of an index divisible by four sets the second-highest
/// bit of the reversal.
pub proof fn lemma_bit_rev_plus2(j: int, n: nat)
    requires
        n >= 2,
        0 <= j,
        j % 4 == 0,
        j + 2 < pow2(n),
    ensures
        bit_rev(j + 2, n) == bit_rev(j, n) + pow2((n - 2) as nat),
    decreases n,
{
    lemma_pow2_pos((n - 1) as nat);
    let h = pow2((n - 1) as nat) as int;
    if n == 2 {
        lemma2_to64();
        assert(j == 0);
        lemma_small_mod(0, 2);
        lemma_small_mod(0, 1);
        vstd::arithmetic::div_mod::lemma_basic_div_specific_divisor(2);
        vstd::arithmetic::div_mod::lemma_basic_div_specific_divisor(1);
        assert(2int % 2 == 0 && 2int / 2 == 1) by {
            lemma_fundamental_div_mod_converse_div(2, 2, 1, 0);
            vstd::arithmetic::div_mod::lemma_fundamental_div_mod_converse_mod(2, 2, 1, 0);
        }
        assert(bit_rev(2, 2) == 2 * bit_rev(0, 1) + 1);
        assert(bit_rev(0, 1) == 2 * bit_rev(0, 0) + 0);
        assert(bit_rev(0, 2) == 2 * bit_rev(0, 1) + 0);
    } else {
        lemma_pow2_unfold(n);
        lemma_pow2_unfold((n - 1) as nat);
        lemma_fundamental_div_mod(j, h);
        lemma_mod_bound(j, h);
        assert((j % h) % 4 == j % 4) by {
            lemma_pow2_pos((n - 3) as nat);
            vstd::arithmetic::power2::lemma_pow2_adds(2, (n - 3) as nat);
            lemma2_to64();
            lemma_mod_mod(j, 4, pow2((n - 3) as nat) as int);
        }
        assert(h % 4 == 0) by {
            lemma_pow2_pos((n - 3) as nat);
            vstd::arithmetic::power2::lemma_pow2_adds(2, (n - 3) as nat);
            lemma2_to64();
            vstd::arithmetic::div_mod::lemma_mod_multiples_basic(pow2((n - 3) as nat) as int, 4);
            vstd::arithmetic::mul::lemma_mul_is_commutative(pow2((n - 3) as nat) as int, 4);
        }
        assert(j % h + 2 < h) by {
            lemma_pow2_pos((n - 3) as nat);
            if j % h + 2 >= h {
                lemma_mod_mod(h, 4, pow2((n - 3) as nat) as int);
                vstd::arithmetic::div_mod::lemma_mod_bound(j % h, 4);
                vstd::arithmetic::div_mod::lemma_fundamental_div_mod(j % h, 4);
                vstd::arithmetic::div_mod::lemma_fundamental_div_mod(h, 4);
                vstd::arithmetic::mul::lemma_mul_is_distributive_sub(4, h / 4, (j % h) / 4);
            }
        }
        lemma_pow2_unfold((n - 2) as nat);
        vstd::arithmetic::mul::lemma_mul_is_commutative(h, j / h);
        lemma_fundamental_div_mod_converse_div(j + 2, h, j / h, j % h + 2);
        vstd::arithmetic::div_mod::lemma_fundamental_div_mod_converse_mod(
            j + 2,
            h,
            j / h,
            j % h + 2,
        );
        lemma_bit_rev_plus2(j % h, (n - 1) as nat);
    }
}

/// The reversal of an index divisible by four has its top two bits clear.
pub proof fn lemma_bit_rev_mult4(j: int, n: nat)
    requires
        n >= 2,
        0 <= j < pow2(n),
        j % 4 == 0,
    ensures
        0 <= bit_rev(j, n) < pow2((n - 2) as nat),
    decreases n,
{
    lemma_pow2_pos((n - 1) as nat);
    let h = pow2((n - 1) as nat) as int;
    if n == 2 {
        lemma2_to64();
        assert(j == 0);
        lemma_small_mod(0, 2);
        lemma_small_mod(0, 1);
        vstd::arithmetic::div_mod::lemma_basic_div_specific_divisor(2);
        vstd::arithmetic::div_mod::lemma_basic_div_specific_divisor(1);
        assert(bit_rev(0, 2) == 2 * bit_rev(0, 1) + 0);
        assert(bit_rev(0, 1) == 2 * bit_rev(0, 0) + 0);
    } else {
        lemma_pow2_unfold(n);
        lemma_pow2_unfold((n - 1) as nat);
        lemma_mod_bound(j, h);
        assert((j % h) % 4 == j % 4) by {
            lemma_pow2_pos((n - 3) as nat);
            vstd::arithmetic::power2::lemma_pow2_adds(2, (n - 3) as nat);
            lemma2_to64();
            lemma_mod_mod(j, 4, pow2((n - 3) as nat) as int);
        }
        lemma_bit_rev_mult4(j % h, (n - 1) as nat);
        lemma_div_lt_two(j, h);
        lemma_pow2_unfold((n - 2) as nat);
    }
}

/// Computes `bit_rev(i, log_size)`.
pub fn bit_reverse_index(i: usize, log_size: u32) -> (r: usize)
    requires
        log_size <= 31,
        i < pow2(log_size as nat),
    ensures
        r == bit_rev(i as int, log_size as nat),
        r < pow2(log_size as nat),
{
    let mut r: usize = 0;
    let mut p: usize = 1;
    let mut k: u32 = 0;
    proof {
        lemma2_to64();
    }
    while k < log_size
        invariant
            k <= log_size,
            log_size <= 31,
            i < pow2(log_size as nat),
            p == pow2(k as nat),
            p <= 0x8000_0000usize,
            r == bit_rev(i as int % (p as int), k as nat),
            0 <= r < p,
        decreases log_size - k,
    {
        proof {
            lemma_pow2_pos(k as nat);
            lemma_pow2_unfold((k + 1) as nat);
            lemma_pow2_le31((k + 1) as nat);
            let pi = p as int;
            let ii = i as int;
            lemma_mod_mod(ii, pi, 2);
            lemma_mod_breakdown(ii, pi, 2);
            lemma_mod_bound(ii, pi * 2);
            lemma_mod_bound(ii, pi);
            lemma_mod_bound(ii / pi, 2);
            lemma_fundamental_div_mod_converse_div(ii % (pi * 2), pi, (ii / pi) % 2, ii % pi);
            lemma_bit_rev_range(ii % pi, k as nat);
        }
        let bit = (i / p) % 2;
        r = 2 * r + bit;
        p = 2 * p;
        k = k + 1;
    }
    proof {
        lemma_small_mod(i as nat, pow2(log_size as nat));
        lemma_bit_rev_range(i as int, log_size as nat);
    }
    r
}

/// Computes `2^e` for exponents up to 31.
pub fn pow2_usize(e: u32) -> (r: usize)
    requires
        e <= 31,
    ensures
        r == pow2(e as nat),
{
    let mut r: usize = 1;
    let mut k: u32 = 0;
    proof {
        lemma2_to64();
    }
    while k < e
        invariant
            k <= e,
            e <= 31,
            r == pow2(k as nat),
            r <= 0x8000_0000usize,
        decreases e - k,
    {
        proof {
            lemma_pow2_unfold((k + 1) as nat);
            lemma_pow2_le31((k + 1) as nat);
        }
        r = 2 * r;
        k = k + 1;
    }
    r
}

/// The exponent of a power of two.
pub open spec fn log_of(n: int) -> nat {
    choose|k: nat| k <= 31 && pow2(k) == n
}

/// When `n` is a power of two with exponent at most 31, `log_of` names it.
pub proof fn lemma_log_of(n: int, k: nat)
    requires
        k <= 31,
        pow2(k) == n,
    ensures
        log_of(n) == k,
        pow2(log_of(n)) == n,
{
    assert(exists|j: nat| j <= 31 && pow2(j) == n) by {
        assert(k <= 31 && pow2(k) == n);
    }
    let j = log_of(n);
    if j != k {
        if j < k {
            vstd::arithmetic::power2::lemma_pow2_strictly_increases(j, k);
        } else {
            vstd::arithmetic::power2::lemma_pow2_strictly_increases(k, j);
        }
    }
}

/// Computes the exponent of a power of two.
pub fn ilog2_exact(n: usize) -> (r: u32)
    requires
        exists|k: nat| k <= 31 && pow2(k) == n,
    ensures
        r <= 31,
        pow2(r as nat) == n,
        log_of(n as int) == r,
{
    let ghost gk = choose|k: nat| k <= 31 && pow2(k) == n;
    let mut r: u32 = 0;
    let mut p: usize = 1;
    proof {
        lemma2_to64();
    }
    while p < n
        invariant
            r <= 31,
            p == pow2(r as nat),
            1 <= p <= n,
            gk <= 31,
            pow2(gk) == n,
            r <= gk,
        decreases n - p,
    {
        proof {
            assert((r as nat) < gk) by {
                if (r as nat) > gk {
                    vstd::arithmetic::power2::lemma_pow2_strictly_increases(gk, r as nat);
                }
            }
            lemma_pow2_unfold((r + 1) as nat);
            if ((r + 1) as nat) < gk {
                vstd::arithmetic::power2::lemma_pow2_strictly_increases((r + 1) as nat, gk);
            }
        }
        p = 2 * p;
        r = r + 1;
    }
    proof {
        if (r as nat) < gk {
            vstd::arithmetic::power2::lemma_pow2_strictly_increases(r as nat, gk);
        }
        lemma_log_of(n as int, r as nat);
    }
    r
}

/// Returns `v` permuted into (or out of) bit-reversed order: position `j` of
/// the result holds position `bit_rev(j, log_size)` of the input.
pub fn bit_reverse<T: Copy>(v: &Vec<T>, log_size: u32) -> (r: Vec<T>)
    requires
        log_size <= 31,
        v.len() == pow2(log_size as nat),
    ensures
        r.len() == v.len(),
        forall|j: int| 0 <= j < r.len() ==> r[j] == v[bit_rev(j, log_size as nat)],
{
    let n = v.len();
    let mut r: Vec<T> = Vec::new();
    let mut j: usize = 0;
    while j < n
        invariant
            j <= n,
            log_size <= 31,
            n == v.len(),
            v.len() == pow2(log_size as nat),
            r.len() == j,
            forall|t: int| 0 <= t < j ==> r[t] == v[bit_rev(t, log_size as nat)],
        decreases n - j,
    {
        let idx = bit_reverse_index(j, log_size);
        r.push(v[idx]);
        j = j + 1;
    }
    r
}

} // verus!
