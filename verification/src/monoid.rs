//! The weight algebra: multiplicities with wrap-around arithmetic.

use vstd::prelude::*;

verus! {

/// Anything that can be empty, and whose default is.
pub trait Emptyable: Sized {
    spec fn empty_spec(&self) -> bool;

    fn is_empty(&self) -> (b: bool)
        ensures
            b == self.empty_spec(),
    ;
}

/// A weight: an element of a commutative group that can tell its zero.
pub trait Monoid: Emptyable {
    spec fn plus_spec(self, other: Self) -> Self;

    spec fn negated_spec(self) -> Self;

    fn plus(self, other: Self) -> (r: Self)
        ensures
            r == self.plus_spec(other),
    ;

    fn negated(self) -> (r: Self)
        ensures
            r == self.negated_spec(),
    ;

    fn minus(self, other: Self) -> (r: Self)
        ensures
            r == self.plus_spec(other.negated_spec()),
    ;

    fn is_zero(&self) -> (b: bool)
        ensures
            b == self.empty_spec(),
    ;
}

/// The sum of two weights.
pub open spec fn wadd(a: isize, b: isize) -> isize {
    a.wrapping_add(b)
}

/// The weight that cancels the given one.
pub open spec fn wneg(a: isize) -> isize {
    0isize.wrapping_sub(a)
}

/// The difference of two weights.
pub open spec fn wsub(a: isize, b: isize) -> isize {
    a.wrapping_sub(b)
}

/// The product of two weights.
pub open spec fn wmul(a: isize, b: isize) -> isize {
    a.wrapping_mul(b)
}

pub proof fn lemma_wadd_commutes(a: isize, b: isize)
    ensures
        wadd(a, b) == wadd(b, a),
{
}

pub proof fn lemma_wadd_zero(a: isize)
    ensures
        wadd(a, 0) == a,
        wadd(0, a) == a,
{
}

pub proof fn lemma_wadd_associates(a: isize, b: isize, c: isize)
    ensures
        wadd(wadd(a, b), c) == wadd(a, wadd(b, c)),
{
}

pub proof fn lemma_wneg_cancels(a: isize)
    ensures
        wadd(a, wneg(a)) == 0,
        wadd(wneg(a), a) == 0,
        wneg(wneg(a)) == a,
{
}

pub proof fn lemma_wsub_is_add_neg(a: isize, b: isize)
    ensures
        wsub(a, b) == wadd(a, wneg(b)),
        wsub(a, a) == 0,
        wsub(a, 0) == a,
        (wsub(a, b) == 0) == (a == b),
{
}

impl Emptyable for isize {
    open spec fn empty_spec(&self) -> bool {
        *self == 0
    }

    fn is_empty(&self) -> (b: bool) {
        *self == 0
    }
}

impl Monoid for isize {
    open spec fn plus_spec(self, other: Self) -> Self {
        wadd(self, other)
    }

    open spec fn negated_spec(self) -> Self {
        wneg(self)
    }

    fn plus(self, other: Self) -> (r: Self) {
        self.wrapping_add(other)
    }

    fn negated(self) -> (r: Self) {
        0isize.wrapping_sub(self)
    }

    fn minus(self, other: Self) -> (r: Self) {
        proof {
            lemma_wsub_is_add_neg(self, other);
        }
        self.wrapping_sub(other)
    }

    fn is_zero(&self) -> (b: bool) {
        *self == 0
    }
}

} // verus!
