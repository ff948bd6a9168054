//! What a record needs to be a key: it can be copied, and compared with
//! another.

use crate::value::Value;
use vstd::prelude::*;

verus! {

pub trait Key: Sized {
    fn same(&self, other: &Self) -> (b: bool)
        ensures
            b == (*self == *other),
    ;

    fn copy(&self) -> (c: Self)
        ensures
            c == *self,
    ;
}

impl Key for Value {
    fn same(&self, other: &Self) -> (b: bool) {
        self.equals(other)
    }

    fn copy(&self) -> (c: Self) {
        self.clone()
    }
}

impl Key for usize {
    fn same(&self, other: &Self) -> (b: bool) {
        *self == *other
    }

    fn copy(&self) -> (c: Self) {
        *self
    }
}

} // verus!
