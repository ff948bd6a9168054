//! The registrar of a subgraph: its steppers, and the count of its rounds.

use crate::operator::subgraph::stepper::{Stepper, StepperView};
use crate::operator::Op;
use crate::step::Step;
use crate::value::{value_lt, Value};
use vstd::prelude::*;

verus! {

pub struct RegistrarInner {
    pub steppers: Vec<Stepper>,
    pub inner_step: usize,
    /// The step of the context at which the subgraph last ran.
    pub last: Step,
}

pub struct RegistrarView {
    pub steppers: Seq<StepperView>,
    pub inner_step: usize,
    pub last: Step,
}

impl View for RegistrarInner {
    type V = RegistrarView;

    open spec fn view(&self) -> RegistrarView {
        RegistrarView {
            steppers: Seq::new(self.steppers@.len(), |i: int| self.steppers@[i]@),
            inner_step: self.inner_step,
            last: self.last,
        }
    }
}

/// The lesser of two step values that may be missing.
pub open spec fn lesser(l: Option<Value>, r: Option<Value>) -> Option<Value> {
    match (l, r) {
        (Some(a), Some(b)) => if value_lt(b, a) {
            Some(b)
        } else {
            Some(a)
        },
        (Some(a), None) => Some(a),
        (None, b) => b,
    }
}

/// The least step value that any of the steppers has a bucket for.
pub open spec fn least_key(steppers: Seq<StepperView>) -> Option<Value>
    decreases steppers.len(),
{
    if steppers.len() == 0 {
        None
    } else {
        lesser(least_key(steppers.drop_last()), steppers.last().min_key())
    }
}

impl RegistrarView {
    pub open spec fn wf(self) -> bool {
        forall|i: int| 0 <= i < self.steppers.len() ==> (#[trigger] self.steppers[i]).wf()
    }

    pub open spec fn fresh() -> RegistrarView {
        RegistrarView { steppers: Seq::empty(), inner_step: 0, last: Step::Last(0) }
    }

    pub open spec fn with_stepper(self, s: StepperView) -> RegistrarView {
        RegistrarView { steppers: self.steppers.push(s), ..self }
    }
}

impl RegistrarInner {
    pub open spec fn wf(&self) -> bool {
        self@.wf()
    }

    pub fn new() -> (r: Self)
        ensures
            r@ == RegistrarView::fresh(),
            r.wf(),
    {
        let r = RegistrarInner { steppers: Vec::new(), inner_step: 0, last: Step::Last(0) };
        proof {
            assert(r@.steppers =~= Seq::empty());
        }
        r
    }

    pub fn add_stepper(&mut self, stepper: Stepper)
        requires
            old(self).wf(),
            stepper.wf(),
        ensures
            final(self).wf(),
            final(self)@ == old(self)@.with_stepper(stepper@),
    {
        self.steppers.push(stepper);
        proof {
            assert(self@.steppers =~= old(self)@.steppers.push(stepper@));
            assert forall|i: int| 0 <= i < self@.steppers.len() implies (
            #[trigger] self@.steppers[i]).wf() by {
                if i < old(self)@.steppers.len() {
                    assert(self@.steppers[i] == old(self)@.steppers[i]);
                }
            }
        }
    }

    pub fn get_inner_step(&self) -> (n: usize)
        ensures
            n == self.inner_step,
    {
        self.inner_step
    }

    /// The least step value that any stepper has a bucket for.
    pub fn min_key(&self) -> (r: Option<Value>)
        ensures
            r == least_key(self@.steppers),
    {
        let mut best: Option<Value> = None;
        let mut i: usize = 0;
        while i < self.steppers.len()
            invariant
                0 <= i <= self.steppers.len(),
                best == least_key(self@.steppers.take(i as int)),
            decreases self.steppers.len() - i,
        {
            proof {
                assert(self@.steppers.take(i as int + 1).drop_last() =~= self@.steppers.take(
                    i as int,
                ));
            }
            let next = self.steppers[i].min_key();
            best = match (best, next) {
                (Some(a), Some(b)) => if b.less(&a) {
                    Some(b)
                } else {
                    Some(a)
                },
                (Some(a), None) => Some(a),
                (None, b) => b,
            };
            i += 1;
        }
        proof {
            assert(self@.steppers.take(self.steppers.len() as int) =~= self@.steppers);
        }
        best
    }
}

impl Op for RegistrarInner {
    open spec fn hideable_spec() -> bool {
        true
    }

    open spec fn op_name_spec() -> Seq<char> {
        "subgraph"@
    }

    fn hideable() -> (b: bool) {
        true
    }

    fn default_op_name() -> (name: &'static str) {
        "subgraph"
    }
}

} // verus!
