//! A stepper: what the relation that a variable was set to has delivered,
//! in buckets by step value, waiting to be fed back into the variable.

use crate::function::min_key_of;
use crate::map::{group_add_all, group_of, groups_wf, lifted, remove_items, Batch, GroupMap, Groups};
use crate::value::Value;
use vstd::prelude::*;

verus! {

pub struct Stepper {
    pub pending: GroupMap,
    /// The variable that is fed.
    pub input: usize,
    /// The relation that the variable was set to.
    pub output: usize,
}

pub struct StepperView {
    pub pending: Groups,
    pub input: usize,
    pub output: usize,
}

impl View for Stepper {
    type V = StepperView;

    open spec fn view(&self) -> StepperView {
        StepperView { pending: self.pending@, input: self.input, output: self.output }
    }
}

impl StepperView {
    pub open spec fn wf(self) -> bool {
        groups_wf(self.pending)
    }

    pub open spec fn fresh(input: usize, output: usize) -> StepperView {
        StepperView { pending: Seq::empty(), input, output }
    }

    /// The stepper after it has taken a batch in: every record goes into the
    /// bucket of its first component.
    pub open spec fn after(self, batch: Seq<(Value, isize)>) -> StepperView {
        StepperView { pending: group_add_all(self.pending, batch), ..self }
    }

    /// The least step value that has a bucket.
    pub open spec fn min_key(self) -> Option<Value> {
        if self.pending.len() == 0 {
            None
        } else {
            Some(min_key_of(self.pending))
        }
    }

    /// What the bucket of a step value feeds back.
    pub open spec fn popped(self, key: Value) -> Seq<(Value, isize)> {
        lifted(key, group_of(self.pending, key))
    }

    /// The stepper without the bucket of a step value.
    pub open spec fn without(self, key: Value) -> StepperView {
        StepperView { pending: remove_items(self.pending, key), ..self }
    }
}

impl Stepper {
    pub open spec fn wf(&self) -> bool {
        self@.wf()
    }

    pub fn new(input: usize, output: usize) -> (s: Self)
        ensures
            s@ == StepperView::fresh(input, output),
            s.wf(),
    {
        Stepper { pending: GroupMap::new(), input, output }
    }

    /// Takes in what the relation delivered.
    pub fn flow(&mut self, batch: &Batch)
        requires
            old(self).wf(),
        ensures
            final(self).wf(),
            final(self)@ == old(self)@.after(batch@),
    {
        self.pending.add_batch(batch);
    }

    pub fn min_key(&self) -> (r: Option<Value>)
        ensures
            r == self@.min_key(),
    {
        let r = self.pending.min_key();
        proof {
            if r.is_some() {
                crate::function::lemma_extreme_key_unique(self.pending@, r.unwrap());
            }
        }
        r
    }

    /// Takes the bucket of a step value out and returns what it feeds back.
    pub fn propagate(&mut self, key: &Value) -> (out: Batch)
        requires
            old(self).wf(),
        ensures
            final(self).wf(),
            out@ == old(self)@.popped(*key),
            final(self)@ == old(self)@.without(*key),
    {
        match self.pending.remove(key) {
            Some(bucket) => bucket.lift(key),
            None => {
                proof {
                    assert(old(self)@.popped(*key) =~= Seq::empty());
                }
                Vec::new()
            },
        }
    }
}

} // verus!
