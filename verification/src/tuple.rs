//! The components of pairs.

use vstd::prelude::*;

verus! {

pub fn fst<A, B>(p: (A, B)) -> (a: A)
    ensures
        a == p.0,
{
    p.0
}

pub fn snd<A, B>(p: (A, B)) -> (b: B)
    ensures
        b == p.1,
{
    p.1
}

pub fn swap<A, B>(p: (A, B)) -> (q: (B, A))
    ensures
        q == (p.1, p.0),
{
    (p.1, p.0)
}

} // verus!
