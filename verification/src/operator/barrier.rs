//! Barrier: a gate that lets its upstream be pulled once per step, and only
//! where an input above it was changed since.

use crate::operator::Op;
use crate::step::{step_lt, Step};
use vstd::prelude::*;

verus! {

/// The state of a barrier: the step at which it last pulled.
pub struct Barrier {
    pub inner: usize,
    pub step: Step,
}

impl Barrier {
    /// A barrier that has not pulled yet.
    pub open spec fn new_spec(inner: usize) -> Barrier {
        Barrier { inner, step: Step::Last(0) }
    }

    pub fn new(inner: usize) -> (b: Self)
        ensures
            b == Barrier::new_spec(inner),
    {
        Barrier { inner, step: Step::Last(0) }
    }

    /// Whether the barrier has not pulled at the step yet.
    pub fn dirty(&self, step: &Step) -> (b: bool)
        ensures
            b == step_lt(self.step, *step),
    {
        self.step.before(step)
    }
}

impl Op for Barrier {
    open spec fn hideable_spec() -> bool {
        true
    }

    open spec fn op_name_spec() -> Seq<char> {
        "barrier"@
    }

    fn hideable() -> (b: bool) {
        true
    }

    fn default_op_name() -> (name: &'static str) {
        "barrier"
    }
}

} // verus!
