//! Weights as a ring: multiplication with wrap-around commutes, and
//! distributes over addition with wrap-around.

use crate::monoid::{wadd, wmul};
use vstd::arithmetic::div_mod::{
    lemma_add_mod_noop, lemma_mod_bound, lemma_mod_multiples_vanish, lemma_mod_twice,
    lemma_mul_mod_noop_left, lemma_small_mod,
};
use vstd::prelude::*;
use vstd::wrapping::isize_specs::signed_crop;

verus! {

/// The number of weights there are.
pub open spec fn range() -> int {
    usize::MAX - usize::MIN + 1
}

/// The weight of an integer is congruent to it.
pub proof fn lemma_crop_residue(x: int)
    ensures
        (signed_crop(x) as int) % range() == x % range(),
{
    let r = range();
    lemma_mod_bound(x, r);
    lemma_mod_twice(x, r);
    if (x % r) > isize::MAX {
        lemma_mod_multiples_vanish(-1, x % r, r);
        assert(r * (-1) + x % r == x % r - r);
    }
}

/// An integer that is a weight is its own weight.
pub proof fn lemma_crop_in_range(w: int)
    requires
        isize::MIN <= w <= isize::MAX,
    ensures
        signed_crop(w) == w,
{
    let r = range();
    if w >= 0 {
        lemma_small_mod(w as nat, r as nat);
    } else {
        lemma_small_mod((w + r) as nat, r as nat);
        lemma_mod_multiples_vanish(1, w, r);
        assert(r * 1 + w == w + r);
    }
}

/// Integers that are congruent have the same weight.
pub proof fn lemma_crop_congruent(x: int, y: int)
    requires
        x % range() == y % range(),
    ensures
        signed_crop(x) == signed_crop(y),
{
}

/// The sum of two weights is the weight of their sum as integers.
pub proof fn lemma_wadd_is_crop(a: isize, b: isize)
    ensures
        wadd(a, b) == signed_crop(a + b),
{
    let r = range();
    let s = a + b;
    if s > isize::MAX {
        lemma_crop_in_range(s - r);
        lemma_mod_multiples_vanish(-1, s, r);
        assert(r * (-1) + s == s - r);
        lemma_crop_congruent(s - r, s);
    } else if s < isize::MIN {
        lemma_crop_in_range(s + r);
        lemma_mod_multiples_vanish(1, s, r);
        assert(r * 1 + s == s + r);
        lemma_crop_congruent(s + r, s);
    } else {
        lemma_crop_in_range(s);
    }
}

pub proof fn lemma_wmul_commutes(a: isize, b: isize)
    ensures
        wmul(a, b) == wmul(b, a),
{
    assert(a * b == b * a) by (nonlinear_arith);
}

pub proof fn lemma_wmul_zero(a: isize)
    ensures
        wmul(a, 0) == 0,
        wmul(0, a) == 0,
{
    assert(a * 0 == 0) by (nonlinear_arith);
    assert(0 * a == 0) by (nonlinear_arith);
    lemma_crop_in_range(0);
}

/// Multiplication distributes over addition.
pub proof fn lemma_wmul_distributes(a: isize, b: isize, c: isize)
    ensures
        wmul(wadd(a, b), c) == wadd(wmul(a, c), wmul(b, c)),
        wmul(c, wadd(a, b)) == wadd(wmul(c, a), wmul(c, b)),
{
    let r = range();
    let s = wadd(a, b);
    lemma_wadd_is_crop(a, b);
    lemma_crop_residue(a + b);
    // the left side is the weight of (a + b) * c
    lemma_mul_mod_noop_left(s as int, c as int, r);
    lemma_mul_mod_noop_left(a + b, c as int, r);
    assert((s * c) % r == ((a + b) * c) % r);
    lemma_crop_congruent(s * c, (a + b) * c);
    // the right side is the weight of a * c + b * c
    let p = wmul(a, c);
    let q = wmul(b, c);
    lemma_wadd_is_crop(p, q);
    lemma_crop_residue(a * c);
    lemma_crop_residue(b * c);
    lemma_add_mod_noop(p as int, q as int, r);
    lemma_add_mod_noop(a * c, b * c, r);
    assert((p + q) % r == (a * c + b * c) % r);
    lemma_crop_congruent(p + q, a * c + b * c);
    assert((a + b) * c == a * c + b * c) by (nonlinear_arith);
    lemma_wmul_commutes(c, s);
    lemma_wmul_commutes(c, a);
    lemma_wmul_commutes(c, b);
}

/// What a step adds to a product: where both factors grow, the product grows
/// by the growth of the first times the second as it was, and the first as
/// it is then times the growth of the second.
pub proof fn lemma_product_grows(l: isize, dl: isize, r: isize, dr: isize)
    ensures
        wadd(wmul(l, r), wadd(wmul(dl, r), wmul(wadd(l, dl), dr))) == wmul(
            wadd(l, dl),
            wadd(r, dr),
        ),
{
    lemma_wmul_distributes(r, dr, wadd(l, dl));
    lemma_wmul_distributes(l, dl, r);
    let a = wmul(l, r);
    let b = wmul(dl, r);
    let c = wmul(wadd(l, dl), dr);
    crate::monoid::lemma_wadd_associates(a, b, c);
}

} // verus!
