//! A value that is either borrowed or, where there was nothing to borrow,
//! made on the spot.

use crate::map::WeightMap;
use crate::value::Value;
use vstd::prelude::*;

verus! {

pub enum MBorrowed<'a, T> {
    Borrowed(&'a T),
    Owned(T),
}

impl<'a, T> MBorrowed<'a, T> {
    /// The value that is held, borrowed or owned.
    pub open spec fn target(&self) -> T {
        match self {
            MBorrowed::Borrowed(r) => **r,
            MBorrowed::Owned(r) => *r,
        }
    }

    pub fn get<'b>(&'b self) -> (r: &'b T)
        ensures
            *r == self.target(),
    {
        match self {
            MBorrowed::Borrowed(r) => r,
            MBorrowed::Owned(r) => r,
        }
    }
}

/// What may be there to borrow, and has a default where it is not.
pub trait BorrowOrDefault<'a, T> {
    /// What there is to borrow, if anything.
    spec fn borrowed_spec(self) -> Option<T>;

    /// What is there, borrowed; else the default, owned.
    fn borrow_or_default(self) -> (r: MBorrowed<'a, T>)
        ensures
            self.borrowed_spec().is_some() ==> r.target() == self.borrowed_spec().unwrap(),
    ;
}

impl<'a> BorrowOrDefault<'a, WeightMap> for Option<&'a WeightMap> {
    open spec fn borrowed_spec(self) -> Option<WeightMap> {
        match self {
            Some(m) => Some(*m),
            None => None,
        }
    }

    fn borrow_or_default(self) -> (r: MBorrowed<'a, WeightMap>)
        ensures
            self.is_none() ==> r.target()@ == Seq::<(Value, isize)>::empty() && r.target().wf(),
    {
        match self {
            Some(m) => MBorrowed::Borrowed(m),
            None => MBorrowed::Owned(WeightMap::new()),
        }
    }
}

} // verus!
