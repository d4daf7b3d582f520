//! Alignment arithmetic: rounding an address up to a power-of-two boundary,
//! and the power-of-two facts that the arena's placement proofs rest on.

use vstd::prelude::*;
use vstd::arithmetic::div_mod::lemma_fundamental_div_mod;
use vstd::arithmetic::div_mod::lemma_mod_division_less_than_divisor;
use vstd::arithmetic::div_mod::lemma_mod_multiples_basic;
use vstd::arithmetic::div_mod::lemma_mod_multiples_vanish;
use vstd::arithmetic::power::lemma_pow_positive;
use vstd::arithmetic::power::pow;
use vstd::arithmetic::power2::is_pow2;
use vstd::arithmetic::power2::is_pow2_equiv;
use vstd::arithmetic::power2::lemma_pow2_adds;
use vstd::arithmetic::power2::lemma_pow2_pos;
use vstd::arithmetic::power2::lemma_pow2_strictly_increases;
use vstd::arithmetic::power2::pow2;
use vstd::bits::lemma_usize_low_bits_mask_is_mod;
use vstd::bits::low_bits_mask;
use vstd::layout::unsigned_int_max_values;

verus! {

/// The smallest multiple of `align` that is at least `num`.
pub open spec fn align_up_spec(num: int, align: int) -> int {
    ((num + align - 1) / align) * align
}

/// A power of two that fits in a `usize` has an exponent below the word width.
pub proof fn lemma_pow2_exponent(a: usize)
    requires
        is_pow2(a as int),
    ensures
        exists|k: nat| k < usize::BITS && a == pow2(k),
        a >= 1,
{
    is_pow2_equiv(a as int);
    let i = choose|i: nat| pow(2, i) == a as int;
    assert(pow2(i) == a);
    lemma_pow2_pos(i);
    unsigned_int_max_values();
    if i >= usize::BITS as nat {
        if i > usize::BITS as nat {
            lemma_pow2_strictly_increases(usize::BITS as nat, i);
        }
        assert(pow2(i) >= pow2(usize::BITS as nat));
        assert(false);
    }
    assert(i < usize::BITS && a == pow2(i));
}

/// A smaller power of two divides a larger one.
pub proof fn lemma_pow2_divides(a: int, b: int)
    requires
        is_pow2(a),
        is_pow2(b),
        a <= b,
    ensures
        b % a == 0,
{
    is_pow2_equiv(a);
    is_pow2_equiv(b);
    let i = choose|i: nat| pow(2, i) == a;
    let j = choose|j: nat| pow(2, j) == b;
    lemma_pow_positive(2, i);
    lemma_pow_positive(2, j);
    assert(pow2(i) == a && pow2(j) == b);
    lemma_pow2_pos(i);
    lemma_pow2_pos(j);
    if j < i {
        lemma_pow2_strictly_increases(j, i);
        assert(false);
    }
    lemma_pow2_adds(i, (j - i) as nat);
    assert(b == pow2(i) * pow2((j - i) as nat));
    lemma_mod_multiples_basic(pow2((j - i) as nat) as int, a);
    assert((pow2((j - i) as nat) * a) % a == 0);
    assert(b == pow2((j - i) as nat) * a) by (nonlinear_arith)
        requires
            b == pow2(i) * pow2((j - i) as nat),
            a == pow2(i),
    ;
}

/// Two numbers congruent modulo `m` are congruent modulo any divisor of `m`.
pub proof fn lemma_congruent_mod_divisor(x: int, y: int, a: int, m: int)
    requires
        a > 0,
        m > 0,
        m % a == 0,
        0 <= x,
        0 <= y,
        x % m == y % m,
    ensures
        x % a == y % a,
{
    lemma_fundamental_div_mod(x, m);
    lemma_fundamental_div_mod(y, m);
    lemma_fundamental_div_mod(m, a);
    let qx = x / m;
    let qy = y / m;
    let s = m / a;
    let r = x % m;
    assert(x % a == r % a) by {
        assert(x == a * (qx * s) + r) by (nonlinear_arith)
            requires
                x == m * qx + r,
                m == a * s,
        ;
        lemma_mod_multiples_vanish(qx * s, r, a);
    }
    assert(y % a == r % a) by {
        assert(y == a * (qy * s) + r) by (nonlinear_arith)
            requires
                y == m * qy + r,
                m == a * s,
        ;
        lemma_mod_multiples_vanish(qy * s, r, a);
    }
}

/// A multiple of `align` in the half-open window `[num, num + align)` is
/// exactly the rounded-up value.
pub proof fn lemma_align_up_unique(num: int, align: int, r: int)
    requires
        align >= 1,
        r % align == 0,
        num <= r < num + align,
    ensures
        r == align_up_spec(num, align),
{
    let s = align_up_spec(num, align);
    let w = num + align - 1;
    lemma_fundamental_div_mod(w, align);
    lemma_mod_division_less_than_divisor(w, align);
    assert(s == w - w % align);
    assert(s % align == 0) by {
        lemma_mod_multiples_basic(w / align, align);
        assert(s == (w / align) * align);
    }
    assert(num <= s < num + align);
    lemma_fundamental_div_mod(r, align);
    lemma_fundamental_div_mod(s, align);
    let qr = r / align;
    let qs = s / align;
    assert(qr == qs) by (nonlinear_arith)
        requires
            align >= 1,
            r == align * qr,
            s == align * qs,
            num <= r < num + align,
            num <= s < num + align,
    ;
}

/// Law: the rounded-up value is the smallest multiple of `align` that is at
/// least `num` — it is a multiple of `align`, it is at least `num`, and any
/// multiple of `align` at least `num` is at least it.
pub proof fn lemma_align_up_is_least(num: int, align: int, m: int)
    requires
        align >= 1,
        num >= 0,
        m % align == 0,
        m >= num,
    ensures
        align_up_spec(num, align) % align == 0,
        num <= align_up_spec(num, align) < num + align,
        m >= align_up_spec(num, align),
{
    let s = align_up_spec(num, align);
    let w = num + align - 1;
    lemma_fundamental_div_mod(w, align);
    lemma_mod_division_less_than_divisor(w, align);
    assert(s == w - w % align);
    assert(s % align == 0) by {
        lemma_mod_multiples_basic(w / align, align);
        assert(s == (w / align) * align);
    }
    assert(num <= s < num + align);
    lemma_fundamental_div_mod(m, align);
    lemma_fundamental_div_mod(s, align);
    let qm = m / align;
    let qs = s / align;
    assert(m >= s) by (nonlinear_arith)
        requires
            align >= 1,
            m == align * qm,
            s == align * qs,
            m > s - align,
    ;
}

/// Rounds `num` up to the nearest multiple of `align`, by bit masking.
///
/// `align` must be a power of two; the result is the smallest multiple of
/// `align` that is at least `num`.
pub fn align_up(num: usize, align: usize) -> (r: usize)
    requires
        is_pow2(align as int),
        num + align - 1 <= usize::MAX,
    ensures
        r == align_up_spec(num as int, align as int),
        r as int % align as int == 0,
        num <= r < num + align,
{
    proof {
        lemma_pow2_exponent(align);
    }
    let mask: usize = align - 1;
    let bumped: usize = num + mask;
    let r: usize = bumped & !mask;
    proof {
        let k = choose|k: nat| k < usize::BITS && align == pow2(k);
        assert(mask == low_bits_mask(k));
        lemma_usize_low_bits_mask_is_mod(bumped, k);
        assert(bumped & mask == bumped % align);
        assert(bumped & !mask == bumped - (bumped & mask)) by (bit_vector);
        let rem = bumped as int % align as int;
        let q = bumped as int / align as int;
        lemma_fundamental_div_mod(bumped as int, align as int);
        lemma_mod_division_less_than_divisor(bumped as int, align as int);
        assert(r == bumped - rem);
        assert(bumped as int == align as int * q + rem);
        assert(r == align as int * q);
        lemma_mod_multiples_basic(q, align as int);
        assert((q * align as int) % align as int == 0);
        assert(r as int % align as int == 0);
        assert(num <= r < num + align);
        lemma_align_up_unique(num as int, align as int, r as int);
    }
    r
}

} // verus!
