//! Pairing every element of a sequence with one second component.

use crate::value::Value;
use vstd::prelude::*;

verus! {

/// The elements of a sequence that are still to come, each to be paired with
/// the same weight.
pub struct TupleWith {
    items: Vec<Value>,
    at: usize,
    snd: isize,
}

impl TupleWith {
    /// The pairs that are still to come.
    pub closed spec fn rest(&self) -> Seq<(Value, isize)> {
        Seq::new(
            (self.items@.len() - self.at) as nat,
            |j: int| (self.items@[self.at + j], self.snd),
        )
    }

    pub closed spec fn wf(&self) -> bool {
        self.at <= self.items@.len()
    }

    /// The next pair, none when all have come.
    pub fn next(&mut self) -> (r: Option<(Value, isize)>)
        requires
            old(self).wf(),
        ensures
            final(self).wf(),
            match r {
                Some(p) => old(self).rest().len() > 0 && p == old(self).rest()[0] && final(self).rest() == old(self).rest().drop_first(),
                None => old(self).rest().len() == 0 && final(self).rest() == old(self).rest(),
            },
    {
        if self.at < self.items.len() {
            let x = self.items[self.at].clone();
            self.at = self.at + 1;
            proof {
                assert(self.rest() =~= old(self).rest().drop_first());
            }
            Some((x, self.snd))
        } else {
            None
        }
    }
}

pub trait TupleableWith {
    spec fn elements_spec(self) -> Seq<Value>;

    /// Pairs every element with the given weight.
    fn tuple_with(self, snd: isize) -> (t: TupleWith)
        ensures
            t.wf(),
            t.rest() == self.elements_spec().map_values(|x: Value| (x, snd)),
    ;
}

impl TupleableWith for Vec<Value> {
    open spec fn elements_spec(self) -> Seq<Value> {
        self@
    }

    fn tuple_with(self, snd: isize) -> (t: TupleWith) {
        let t = TupleWith { items: self, at: 0, snd };
        proof {
            assert(t.rest() =~= self@.map_values(|x: Value| (x, snd)));
        }
        t
    }
}

} // verus!
