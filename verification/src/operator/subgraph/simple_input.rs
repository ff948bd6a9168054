//! The read side of a variable: a buffer that the subgraph's steppers fill.

use crate::map::{add_all, items_wf, Batch, WeightMap};
use crate::operator::Op;
use crate::step::Step;
use crate::value::Value;
use vstd::prelude::*;

verus! {

/// The state of a variable: what waits to be read, and the timestamp at which
/// something was last put there.
pub struct SimpleInput {
    pub pending: WeightMap,
    pub updated: Option<Step>,
}

pub struct SimpleInputView {
    pub pending: Seq<(Value, isize)>,
    pub updated: Option<Step>,
}

impl View for SimpleInput {
    type V = SimpleInputView;

    open spec fn view(&self) -> SimpleInputView {
        SimpleInputView { pending: self.pending@, updated: self.updated }
    }
}

impl SimpleInputView {
    pub open spec fn wf(self) -> bool {
        items_wf(self.pending)
    }

    pub open spec fn fresh() -> SimpleInputView {
        SimpleInputView { pending: Seq::empty(), updated: None }
    }

    /// The variable after a batch was put into it at a timestamp. An empty
    /// batch leaves no trace.
    pub open spec fn fed(self, batch: Seq<(Value, isize)>, at: Step) -> SimpleInputView {
        if batch.len() == 0 {
            self
        } else {
            SimpleInputView { pending: add_all(self.pending, batch), updated: Some(at) }
        }
    }

    pub open spec fn drained(self) -> SimpleInputView {
        SimpleInputView { pending: Seq::empty(), updated: self.updated }
    }
}

impl SimpleInput {
    pub open spec fn wf(&self) -> bool {
        self@.wf()
    }

    pub fn new() -> (v: Self)
        ensures
            v@ == SimpleInputView::fresh(),
            v.wf(),
    {
        SimpleInput { pending: WeightMap::new(), updated: None }
    }

    /// Puts a batch into the variable at a timestamp.
    pub fn feed(&mut self, batch: &Batch, at: &Step)
        requires
            old(self).wf(),
        ensures
            final(self).wf(),
            final(self)@ == old(self)@.fed(batch@, *at),
    {
        if batch.len() > 0 {
            self.pending.add_batch(batch);
            self.updated = Some(at.clone());
        }
    }

    /// Hands on what waits.
    pub fn flow(&mut self) -> (out: Batch)
        requires
            old(self).wf(),
        ensures
            final(self).wf(),
            out@ == old(self)@.pending,
            final(self)@ == old(self)@.drained(),
    {
        self.pending.steal()
    }
}

impl Op for SimpleInput {
    open spec fn hideable_spec() -> bool {
        false
    }

    open spec fn op_name_spec() -> Seq<char> {
        "variable"@
    }

    fn hideable() -> (b: bool) {
        false
    }

    fn default_op_name() -> (name: &'static str) {
        "variable"
    }
}

} // verus!
