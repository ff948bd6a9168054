//! What the handles of the host program do to the graph: write an input,
//! take changes back, read a map.

use crate::arrangement::{Arranged, ArrangedView};
use crate::error::Error;
use crate::function::Function;
use crate::graph::{
    inputs_within, kinds_kept, lemma_set_same, lemma_set_twice, Graph, GraphView,
};
use crate::map::{GroupMap, Groups};
use crate::node::{Operation, OperationView};
use crate::operator::dynamic::DynOp;
use crate::operator::subgraph::stepper::{Stepper, StepperView};
use crate::output::IsReduce;
use crate::value::Value;
use vstd::prelude::*;

verus! {

/// The kinds of nodes that handles of the host program stand for.
#[derive(Clone, Copy, PartialEq, Eq, Structural, Debug)]
pub enum Kind {
    Input,
    /// An arrangement with a flat map.
    Arrangement,
    /// An arrangement with a map that is grouped by key.
    Grouped,
    Reduce,
    Receiver,
    Source,
    Registrar,
    Variable,
}

/// The kind of an operator, where a handle can stand for its node.
pub open spec fn kind_of_op<F>(op: OperationView<F>) -> Option<Kind> {
    match op {
        OperationView::Input(_) => Some(Kind::Input),
        OperationView::Arrangement(a) => match a.value {
            ArrangedView::Flat(_) => Some(Kind::Arrangement),
            ArrangedView::Grouped(_) => Some(Kind::Grouped),
        },
        OperationView::Reduce(_) => Some(Kind::Reduce),
        OperationView::Receiver(_) => Some(Kind::Receiver),
        OperationView::Source(_) => Some(Kind::Source),
        OperationView::Registrar(_) => Some(Kind::Registrar),
        OperationView::Variable(_) => Some(Kind::Variable),
        _ => None,
    }
}

/// The kind of a node, where a handle can stand for it.
pub open spec fn kind_of<F>(g: GraphView<F>, id: usize) -> Option<Kind> {
    match g.op(id) {
        Some(op) => kind_of_op(op),
        None => None,
    }
}

/// Whether a node is an input that has not passed the step: whether it takes
/// a change at that step.
pub open spec fn accepts<F>(g: GraphView<F>, id: usize, step: usize) -> bool {
    match g.op(id) {
        Some(OperationView::Input(v)) => step >= v.adding_step,
        _ => false,
    }
}

/// The graph after a change was written to an input at a step, and whether
/// it was taken: a node that is no input takes none, and an input does not
/// go back to an earlier step.
pub open spec fn update_input<F>(
    g: GraphView<F>,
    id: usize,
    step: usize,
    tracking: Option<usize>,
    x: Value,
    r: isize,
) -> (GraphView<F>, Result<(), Error>) {
    match g.op(id) {
        Some(OperationView::Input(v)) => if step < v.adding_step {
            (g, Err(Error::NotMonotone))
        } else {
            (g.set_op(id, OperationView::Input(v.updated(step, tracking, x, r))), Ok(()))
        },
        _ => (g, Err(Error::ContextMismatch)),
    }
}

/// The graph after the changes that were made to an input under a tracking id
/// were taken back at a step.
pub open spec fn undo_input<F>(g: GraphView<F>, id: usize, step: usize, tracking_id: usize) -> (
    GraphView<F>,
    Result<(), Error>,
) {
    match g.op(id) {
        Some(OperationView::Input(v)) => if step < v.adding_step {
            (g, Err(Error::NotMonotone))
        } else {
            (g.set_op(id, OperationView::Input(v.undone(step, tracking_id))), Ok(()))
        },
        _ => (g, Err(Error::ContextMismatch)),
    }
}

/// The map of an arrangement.
pub open spec fn arranged_of<F>(g: GraphView<F>, id: usize) -> Option<ArrangedView> {
    match g.op(id) {
        Some(OperationView::Arrangement(a)) => Some(a.value),
        _ => None,
    }
}

/// The outputs of a reduce, by key.
pub open spec fn outputs_of<F>(g: GraphView<F>, id: usize) -> Option<Groups> {
    match g.op(id) {
        Some(OperationView::Reduce(r)) => Some(r.output_maps),
        _ => None,
    }
}

/// The graph with one more listener at a source, whose buffer starts with a
/// copy of what waits for the given listener.
pub open spec fn with_listener<F>(g: GraphView<F>, source: usize, like: usize) -> GraphView<F> {
    match g.op(source) {
        Some(OperationView::Source(s)) => g.set_op(
            source,
            OperationView::Source(s.with_listener(s.waiting(like))),
        ),
        _ => g,
    }
}

/// The number of listeners of a source.
pub open spec fn listeners_of<F>(g: GraphView<F>, source: usize) -> nat {
    match g.op(source) {
        Some(OperationView::Source(s)) => s.listeners.len(),
        _ => 0,
    }
}

/// The graph with one more stepper at a registrar.
pub open spec fn with_stepper<F>(g: GraphView<F>, registrar: usize, input: usize, output: usize) -> GraphView<
    F,
> {
    match g.op(registrar) {
        Some(OperationView::Registrar(reg)) => g.set_op(
            registrar,
            OperationView::Registrar(reg.with_stepper(StepperView::fresh(input, output))),
        ),
        _ => g,
    }
}

impl<F: Function> Graph<F> {
    /// Whether a node is an input that has not passed the step.
    pub fn accepts(&self, id: usize, step: usize) -> (b: bool)
        ensures
            b == accepts(self@, id, step),
    {
        if id >= self.nodes.len() {
            return false;
        }
        match &self.nodes[id].inner {
            Operation::Input(inp) => step >= inp.adding_step,
            _ => false,
        }
    }

    /// Writes a change to an input at a step that the input has not passed.
    pub fn update_input(&mut self, id: usize, step: usize, tracking: Option<usize>, x: Value, r: isize)
        requires
            old(self).wf(),
            accepts(old(self)@, id, step),
        ensures
            final(self)@ == update_input(old(self)@, id, step, tracking, x, r).0,
            final(self).wf(),
            inputs_within(old(self)@, step) ==> inputs_within(final(self)@, step),
            kinds_kept(old(self)@, final(self)@),
            final(self)@.nodes.len() == old(self)@.nodes.len(),
    {
        let ghost g = self@;
        let ghost ph = OperationView::<F>::Dynamic(DynOp { inner: 0 });
        let op = self.take_op(id);
        match op {
            Operation::Input(mut inp) => {
                inp.update(step, tracking, x, r);
                let ghost iv = inp@;
                self.put_op(id, Operation::Input(inp));
                proof {
                    lemma_set_twice(g, id, ph, OperationView::Input(iv));
                }
            },
            other => {
                self.put_op(id, other);
            },
        }
    }

    /// Takes back, at a step that the input has not passed, the changes that
    /// were made to an input under a tracking id.
    pub fn undo_input(&mut self, id: usize, step: usize, tracking_id: usize)
        requires
            old(self).wf(),
            accepts(old(self)@, id, step),
        ensures
            final(self)@ == undo_input(old(self)@, id, step, tracking_id).0,
            final(self).wf(),
            inputs_within(old(self)@, step) ==> inputs_within(final(self)@, step),
            kinds_kept(old(self)@, final(self)@),
            final(self)@.nodes.len() == old(self)@.nodes.len(),
    {
        let ghost g = self@;
        let ghost ph = OperationView::<F>::Dynamic(DynOp { inner: 0 });
        let op = self.take_op(id);
        match op {
            Operation::Input(mut inp) => {
                inp.undo_changes(step, tracking_id);
                let ghost iv = inp@;
                self.put_op(id, Operation::Input(inp));
                proof {
                    lemma_set_twice(g, id, ph, OperationView::Input(iv));
                }
            },
            other => {
                self.put_op(id, other);
            },
        }
    }

    /// The map of an arrangement.
    pub fn arranged(&self, id: usize) -> (r: Option<&Arranged>)
        requires
            self.wf(),
        ensures
            match r {
                Some(m) => arranged_of(self@, id) == Some(m@) && m.wf(),
                None => arranged_of(self@, id).is_none(),
            },
    {
        if id >= self.nodes.len() {
            return None;
        }
        proof {
            assert(self@.nodes[id as int].inner.wf());
        }
        match &self.nodes[id].inner {
            Operation::Arrangement(a) => Some(&a.value),
            _ => None,
        }
    }

    /// The outputs of a reduce, by key.
    pub fn outputs(&self, id: usize) -> (r: Option<&GroupMap>)
        requires
            self.wf(),
        ensures
            match r {
                Some(m) => outputs_of(self@, id) == Some(m@) && m.wf(),
                None => outputs_of(self@, id).is_none(),
            },
    {
        if id >= self.nodes.len() {
            return None;
        }
        proof {
            assert(self@.nodes[id as int].inner.wf());
        }
        match &self.nodes[id].inner {
            Operation::Reduce(r) => Some(r.get_ref()),
            _ => None,
        }
    }

    /// Whether a node is of the given kind.
    pub fn is_kind(&self, id: usize, kind: Kind) -> (b: bool)
        ensures
            b == (kind_of(self@, id) == Some(kind)),
    {
        if id >= self.nodes.len() {
            return false;
        }
        match (&self.nodes[id].inner, kind) {
            (Operation::Input(_), Kind::Input) => true,
            (Operation::Arrangement(a), Kind::Arrangement) => match &a.value {
                Arranged::Flat(_) => true,
                Arranged::Grouped(_) => false,
            },
            (Operation::Arrangement(a), Kind::Grouped) => match &a.value {
                Arranged::Flat(_) => false,
                Arranged::Grouped(_) => true,
            },
            (Operation::Reduce(_), Kind::Reduce) => true,
            (Operation::Receiver(_), Kind::Receiver) => true,
            (Operation::Source(_), Kind::Source) => true,
            (Operation::Registrar(_), Kind::Registrar) => true,
            (Operation::Variable(_), Kind::Variable) => true,
            _ => false,
        }
    }

    /// The source and the listener of a receiver.
    pub fn receiver_of(&self, id: usize) -> (r: Option<(usize, usize)>)
        ensures
            r == match self@.op(id) {
                Some(OperationView::Receiver(x)) => Some((x.source, x.listener)),
                _ => None,
            },
    {
        if id >= self.nodes.len() {
            return None;
        }
        match &self.nodes[id].inner {
            Operation::Receiver(x) => Some((x.source, x.listener)),
            _ => None,
        }
    }

    /// Adds a listener to a source, whose buffer starts with a copy of what
    /// waits for the given listener. Returns the new listener.
    pub fn add_listener(&mut self, source: usize, like: usize) -> (listener: usize)
        requires
            old(self).wf(),
        ensures
            final(self)@ == with_listener(old(self)@, source, like),
            listener == listeners_of(old(self)@, source),
            final(self).wf(),
            forall|s: usize| #[trigger] inputs_within(old(self)@, s) ==> inputs_within(final(self)@, s),
            kinds_kept(old(self)@, final(self)@),
            final(self)@.nodes.len() == old(self)@.nodes.len(),
    {
        if source >= self.nodes.len() {
            return 0;
        }
        let ghost g = self@;
        let ghost ph = OperationView::<F>::Dynamic(DynOp { inner: 0 });
        let op = self.take_op(source);
        match op {
            Operation::Source(mut s) => {
                let data = s.peek(like);
                let listener = s.add_listener(data);
                let ghost sv = s@;
                self.put_op(source, Operation::Source(s));
                proof {
                    lemma_set_twice(g, source, ph, OperationView::Source(sv));
                }
                listener
            },
            other => {
                let ghost ov = other@;
                self.put_op(source, other);
                proof {
                    lemma_set_twice(g, source, ph, ov);
                    lemma_set_same(g, source);
                }
                0
            },
        }
    }

    /// Adds a stepper to a registrar: it feeds the given variable from the
    /// given relation.
    pub fn add_stepper(&mut self, registrar: usize, input: usize, output: usize)
        requires
            old(self).wf(),
        ensures
            final(self)@ == with_stepper(old(self)@, registrar, input, output),
            final(self).wf(),
            forall|s: usize| #[trigger] inputs_within(old(self)@, s) ==> inputs_within(final(self)@, s),
            kinds_kept(old(self)@, final(self)@),
            final(self)@.nodes.len() == old(self)@.nodes.len(),
    {
        if registrar >= self.nodes.len() {
            return ;
        }
        let ghost g = self@;
        let ghost ph = OperationView::<F>::Dynamic(DynOp { inner: 0 });
        let op = self.take_op(registrar);
        match op {
            Operation::Registrar(mut reg) => {
                reg.add_stepper(Stepper::new(input, output));
                let ghost rv = reg@;
                self.put_op(registrar, Operation::Registrar(reg));
                proof {
                    lemma_set_twice(g, registrar, ph, OperationView::Registrar(rv));
                }
            },
            other => {
                let ghost ov = other@;
                self.put_op(registrar, other);
                proof {
                    lemma_set_twice(g, registrar, ph, ov);
                    lemma_set_same(g, registrar);
                }
            },
        }
    }
}

} // verus!
