//! Address and alignment arithmetic.
//!
//! Pure functions that compute aligned offsets and padded allocation sizes.
//! An address is a plain machine-word integer naming a byte offset inside a
//! managed memory range; it is never a real pointer.

use vstd::prelude::*;

verus! {

use vstd::arithmetic::div_mod::{
    lemma_fundamental_div_mod,
    lemma_mod_bound,
    lemma_mod_multiples_basic,
};

/// The smallest multiple of `align` that is at least `addr`.
pub open spec fn spec_align_up(addr: int, align: int) -> int
    recommends
        0 <= addr,
        1 <= align,
{
    if addr % align == 0 {
        addr
    } else {
        addr + (align - addr % align)
    }
}

/// Rounding an address up to an alignment moves it forward by less than one
/// alignment step and lands on a multiple of the alignment.
pub proof fn lemma_align_up(addr: int, align: int)
    requires
        0 <= addr,
        1 <= align,
    ensures
        addr <= spec_align_up(addr, align) < addr + align,
        spec_align_up(addr, align) % align == 0,
{
    lemma_mod_bound(addr, align);
    let r = addr % align;
    if r != 0 {
        lemma_fundamental_div_mod(addr, align);
        let q = addr / align;
        assert(addr == align * q + r);
        assert(addr + (align - r) == (q + 1) * align) by (nonlinear_arith)
            requires
                addr == align * q + r,
        ;
        lemma_mod_multiples_basic(q + 1, align);
    }
}

/// Divisibility carries through a divisor: if `b` divides `a` and `c`
/// divides `b`, then `c` divides `a`.
pub proof fn lemma_mod_transitive(a: int, b: int, c: int)
    requires
        1 <= c,
        1 <= b,
        a % b == 0,
        b % c == 0,
    ensures
        a % c == 0,
{
    lemma_fundamental_div_mod(a, b);
    lemma_fundamental_div_mod(b, c);
    let k = a / b;
    let m = b / c;
    assert(a == b * k);
    assert(b == c * m);
    assert(a == (m * k) * c) by (nonlinear_arith)
        requires
            a == b * k,
            b == c * m,
    ;
    lemma_mod_multiples_basic(m * k, c);
}

/// A sum of two multiples of `d` is a multiple of `d`.
pub proof fn lemma_mod_add_zero(a: int, b: int, d: int)
    requires
        1 <= d,
        a % d == 0,
        b % d == 0,
    ensures
        (a + b) % d == 0,
{
    lemma_fundamental_div_mod(a, d);
    lemma_fundamental_div_mod(b, d);
    let p = a / d;
    let q = b / d;
    assert(a + b == (p + q) * d) by (nonlinear_arith)
        requires
            a == d * p,
            b == d * q,
    ;
    lemma_mod_multiples_basic(p + q, d);
}

/// A difference of two multiples of `d` is a multiple of `d`.
pub proof fn lemma_mod_sub_zero(a: int, b: int, d: int)
    requires
        1 <= d,
        a % d == 0,
        b % d == 0,
    ensures
        (a - b) % d == 0,
{
    lemma_fundamental_div_mod(a, d);
    lemma_fundamental_div_mod(b, d);
    let p = a / d;
    let q = b / d;
    assert(a - b == (p - q) * d) by (nonlinear_arith)
        requires
            a == d * p,
            b == d * q,
    ;
    lemma_mod_multiples_basic(p - q, d);
}

/// Whether `n` is a power of two.  Rust layouts only ever request such
/// alignments.
pub open spec fn is_pow2(n: int) -> bool
    decreases n,
{
    if n <= 0 {
        false
    } else if n == 1 {
        true
    } else {
        n % 2 == 0 && is_pow2(n / 2)
    }
}

/// A power of two is positive.
pub proof fn lemma_pow2_pos(n: int)
    requires
        is_pow2(n),
    ensures
        n >= 1,
    decreases n,
{
}

/// Two powers of two divide each other in one direction or the other.
pub proof fn lemma_pow2_divides(a: int, b: int)
    requires
        is_pow2(a),
        is_pow2(b),
        a <= b,
    ensures
        b % a == 0,
    decreases b,
{
    lemma_pow2_pos(a);
    lemma_pow2_pos(b);
    if a == b {
        lemma_mod_multiples_basic(1, a);
        assert(1 * a == a) by (nonlinear_arith);
    } else if a == 1 {
        lemma_mod_multiples_basic(b, 1);
        assert(b * 1 == b) by (nonlinear_arith);
    } else {
        assert(a < b);
        assert(b != 1);
        assert(b % 2 == 0 && is_pow2(b / 2));
        assert(a % 2 == 0 && is_pow2(a / 2));
        let a2 = a / 2;
        let b2 = b / 2;
        lemma_fundamental_div_mod(a, 2);
        lemma_fundamental_div_mod(b, 2);
        assert(a == 2 * a2);
        assert(b == 2 * b2);
        lemma_pow2_pos(a2);
        lemma_pow2_pos(b2);
        assert(a2 <= b2);
        lemma_pow2_divides(a2, b2);
        lemma_fundamental_div_mod(b2, a2);
        let t = b2 / a2;
        assert(b2 == a2 * t);
        assert(b == t * a) by (nonlinear_arith)
            requires
                b == 2 * b2,
                b2 == a2 * t,
                a == 2 * a2,
        ;
        lemma_mod_multiples_basic(t, a);
    }
}

/// The smallest multiple of `align` that is at least `addr`, computed on
/// machine words; `None` when the rounded address does not fit in one.
pub fn checked_align_up(addr: usize, align: usize) -> (r: Option<usize>)
    requires
        1 <= align,
    ensures
        match r {
            Some(v) => v as int == spec_align_up(addr as int, align as int),
            None => spec_align_up(addr as int, align as int) > usize::MAX,
        },
{
    let remainder: usize = addr % align;
    if remainder == 0 {
        Some(addr)
    } else {
        addr.checked_add(align - remainder)
    }
}

} // verus!
