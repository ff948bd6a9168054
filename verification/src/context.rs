//! Contexts: the creation context, in which the graph is built, and the
//! execution context, which owns the clock and in which only data changes.

use crate::access::{arranged_of, kind_of, update_input, Kind};
use crate::arrangement::{Arranged, ArrangedView};
use crate::builder::with_new_input;
use crate::error::Error;
use crate::function::Function;
use crate::graph::{
    fault_kept, flow, full_fuel, inputs_within, kinds_kept, lemma_within_at, lemma_within_later,
    Graph, GraphView,
};
use crate::maker::NodeMaker;
use crate::map::{
    group_add, group_of, groups_wf, has_key, remove_items, weight_of, GroupMap, Groups,
};
use crate::relation::Relation;
use crate::step::Step;
use crate::value::Value;
use vstd::prelude::*;

verus! {

/// The handle of an input: what the host program writes changes to.
#[derive(Clone, Copy, PartialEq, Eq, Structural, Debug)]
pub struct Input {
    pub context_id: usize,
    pub id: usize,
}

/// The context in which the graph is built.
pub struct CreationContext<F> {
    pub context_id: usize,
    pub node_maker: NodeMaker<F>,
}

impl<F: Function> CreationContext<F> {
    /// The graph as it is built so far.
    pub open spec fn graph(self) -> GraphView<F> {
        self.node_maker.graph@
    }

    /// The graph is well formed, and none of its inputs was written to.
    pub open spec fn wf(self) -> bool {
        self.node_maker.graph.wf() && inputs_within(self.node_maker.graph@, 0)
    }

    /// Whether a node with the given context id and number is one of this
    /// context.
    pub open spec fn owns(self, context_id: usize, id: usize) -> bool {
        context_id == self.context_id && id < self.graph().nodes.len()
    }

    /// A context with an empty graph. Contexts are told apart by their ids:
    /// the host program gives each its own.
    pub fn new(context_id: usize) -> (c: Self)
        ensures
            c.context_id == context_id,
            c.graph().nodes.len() == 0,
            c.graph().fault.is_none(),
            c.graph().round_limit == usize::MAX,
            c.wf(),
    {
        CreationContext { context_id, node_maker: NodeMaker::new() }
    }

    /// Sets the number of rounds that a subgraph may take when it runs. A
    /// subgraph that needs more is a fault of the graph: what is fed back in
    /// it is not tiered by its step values.
    pub fn set_round_limit(&mut self, limit: usize)
        requires
            old(self).wf(),
        ensures
            final(self).wf(),
            kinds_kept(old(self).graph(), final(self).graph()),
            final(self).context_id == old(self).context_id,
            final(self).graph() == (GraphView { round_limit: limit, ..old(self).graph() }),
    {
        self.node_maker.graph.round_limit = limit;
        proof {
            crate::graph::lemma_within_same(old(self).graph(), self.graph(), 0);
        }
    }

    /// Ends the building of the graph: the graph goes over to an execution
    /// context whose clock stands at zero.
    pub fn begin(self) -> (e: ExecutionContext<F>)
        requires
            self.wf(),
        ensures
            e@ == (ExecView {
                step: 0,
                context_id: self.context_id,
                graph: self.graph(),
                tracking_id: None,
                watched: Seq::empty(),
            }),
            e.wf(),
    {
        proof {
            lemma_watched_none(self.graph());
        }
        ExecutionContext {
            step: 0,
            context_id: self.context_id,
            graph: self.node_maker.graph,
            tracking_id: None,
            watched: GroupMap::new(),
        }
    }

    /// Makes an input: the handle to write it, and the relation that reads
    /// it.
    pub fn create_input(&mut self) -> (r: (Input, Relation))
        requires
            old(self).wf(),
        ensures
            final(self).wf(),
            kinds_kept(old(self).graph(), final(self).graph()),
            final(self).context_id == old(self).context_id,
            final(self).graph() == with_new_input(old(self).graph()),
            r.0 == (Input { context_id: old(self).context_id, id: old(self).graph().nodes.len() as usize }),
            kind_of(final(self).graph(), r.0.id) == Some(Kind::Input),
            r.1 == (Relation {
                context_id: old(self).context_id,
                id: old(self).graph().nodes.len() as usize,
                depth: 0,
            }),
    {
        let id = self.node_maker.graph.add_input_node();
        (
            Input { context_id: self.context_id, id },
            Relation { context_id: self.context_id, id, depth: 0 },
        )
    }
}

/// The context in which the graph runs: it owns the clock, and keeps track of
/// the inputs that were changed under a tracking id.
pub struct ExecutionContext<F> {
    pub step: usize,
    pub context_id: usize,
    pub graph: Graph<F>,
    pub tracking_id: Option<usize>,
    pub watched: GroupMap,
}

pub struct ExecView<F> {
    pub step: usize,
    pub context_id: usize,
    pub graph: GraphView<F>,
    pub tracking_id: Option<usize>,
    pub watched: Groups,
}

impl<F> View for ExecutionContext<F> {
    type V = ExecView<F>;

    open spec fn view(&self) -> ExecView<F> {
        ExecView {
            step: self.step,
            context_id: self.context_id,
            graph: self.graph@,
            tracking_id: self.tracking_id,
            watched: self.watched@,
        }
    }
}

/// The watched inputs after an input was changed: under a tracking id the
/// input joins those that are watched for the id.
pub open spec fn watch(w: Groups, tracking: Option<usize>, input: usize) -> Groups {
    match tracking {
        Some(t) => if has_key(group_of(w, Value::Nat(t)), Value::Nat(input)) {
            w
        } else {
            group_add(w, Value::Nat(t), Value::Nat(input), 1)
        },
        None => w,
    }
}

/// What is watched under a tracking id is an input of the graph.
#[verifier::opaque]
pub open spec fn watched_inputs<F>(w: Groups, g: GraphView<F>) -> bool {
    forall|t: Value, n: Value| #[trigger]
        weight_of(group_of(w, t), n) != 0 ==> n is Nat && kind_of(g, n->Nat_0) == Some(
            Kind::Input,
        )
}

/// What is watched stays watched inputs in a graph that keeps the kinds of
/// its nodes.
pub proof fn lemma_watched_kept<F>(w: Groups, g: GraphView<F>, h: GraphView<F>)
    requires
        watched_inputs(w, g),
        kinds_kept(g, h),
    ensures
        watched_inputs(w, h),
{
    reveal(watched_inputs);
    assert forall|t: Value, n: Value| #[trigger]
        weight_of(group_of(w, t), n) != 0 implies n is Nat && kind_of(h, n->Nat_0) == Some(
        Kind::Input,
    ) by {
        assert(kind_of(g, n->Nat_0) == Some(Kind::Input));
    }
}

/// One more input may be watched.
pub proof fn lemma_watched_more<F>(w: Groups, g: GraphView<F>, tracking: Option<usize>, input: usize)
    requires
        groups_wf(w),
        watched_inputs(w, g),
        kind_of(g, input) == Some(Kind::Input),
    ensures
        watched_inputs(watch(w, tracking, input), g),
{
    reveal(watched_inputs);
    let w2 = watch(w, tracking, input);
    assert forall|t: Value, n: Value| #[trigger]
        weight_of(group_of(w2, t), n) != 0 implies n is Nat && kind_of(g, n->Nat_0) == Some(
        Kind::Input,
    ) by {
        match tracking {
            Some(id) => {
                crate::laws::lemma_group_add_weight(w, Value::Nat(id), Value::Nat(input), 1, t, n);
                if !(t == Value::Nat(id) && n == Value::Nat(input)) {
                    assert(weight_of(group_of(w, t), n) != 0);
                }
            },
            None => {},
        }
    }
}

/// What is left when a tracking id is forgotten is watched inputs still.
pub proof fn lemma_watched_less<F>(w: Groups, g: GraphView<F>, k: Value)
    requires
        groups_wf(w),
        watched_inputs(w, g),
    ensures
        watched_inputs(remove_items(w, k), g),
{
    reveal(watched_inputs);
    let w2 = remove_items(w, k);
    assert forall|t: Value, n: Value| #[trigger]
        weight_of(group_of(w2, t), n) != 0 implies n is Nat && kind_of(g, n->Nat_0) == Some(
        Kind::Input,
    ) by {
        crate::laws::lemma_remove_group(w, k, t);
        if t != k {
            assert(weight_of(group_of(w, t), n) != 0);
        }
    }
}

/// Where nothing is watched, nothing but inputs is.
pub proof fn lemma_watched_none<F>(g: GraphView<F>)
    ensures
        watched_inputs(Seq::empty(), g),
{
    reveal(watched_inputs);
}

/// What is watched under a tracking id is an input.
pub proof fn lemma_watched_is_input<F>(w: Groups, g: GraphView<F>, t: Value, n: Value)
    requires
        watched_inputs(w, g),
        weight_of(group_of(w, t), n) != 0,
    ensures
        n is Nat,
        kind_of(g, n->Nat_0) == Some(Kind::Input),
{
    reveal(watched_inputs);
}

impl<F: Function> ExecView<F> {
    /// The graph is well formed, no input is ahead of the clock, and what is
    /// watched under a tracking id is an input.
    pub open spec fn wf(self) -> bool {
        self.graph.wf() && groups_wf(self.watched) && inputs_within(self.graph, self.step)
            && watched_inputs(self.watched, self.graph)
    }

    /// The context one step later.
    pub open spec fn committed(self) -> ExecView<F> {
        ExecView { step: (self.step + 1) as usize, ..self }
    }

    /// Why a change to the input would not be taken, if it would not: the
    /// handle is of another context, or the input has passed the step of the
    /// context.
    pub open spec fn rejection(self, input: Input) -> Option<Error> {
        if input.context_id != self.context_id {
            Some(Error::ContextMismatch)
        } else {
            match self.graph.op(input.id) {
                Some(crate::node::OperationView::Input(v)) => if self.step < v.adding_step {
                    Some(Error::NotMonotone)
                } else {
                    None
                },
                _ => Some(Error::ContextMismatch),
            }
        }
    }

    /// Whether the context has made the input.
    pub open spec fn has_input(self, input: Input) -> bool {
        input.context_id == self.context_id && kind_of(self.graph, input.id) == Some(Kind::Input)
    }

    /// Whether a handle stands for an arrangement of the context.
    pub open spec fn has_arrangement(self, context_id: usize, id: usize) -> bool {
        context_id == self.context_id && (kind_of(self.graph, id) == Some(Kind::Arrangement)
            || kind_of(self.graph, id) == Some(Kind::Grouped))
    }

    /// Whether a handle stands for an arrangement of the context whose map
    /// is flat.
    pub open spec fn has_flat_arrangement(self, context_id: usize, id: usize) -> bool {
        context_id == self.context_id && kind_of(self.graph, id) == Some(Kind::Arrangement)
    }

    /// The context after a change was written to an input, and whether it
    /// was taken. A handle of another context is rejected.
    pub open spec fn updated(self, input: Input, x: Value, r: isize) -> (
        ExecView<F>,
        Result<(), Error>,
    ) {
        if input.context_id != self.context_id {
            (self, Err(Error::ContextMismatch))
        } else {
            let (g, res) = update_input(self.graph, input.id, self.step, self.tracking_id, x, r);
            match res {
                Ok(_) => (
                    ExecView {
                        graph: g,
                        watched: watch(self.watched, self.tracking_id, input.id),
                        ..self
                    },
                    Ok(()),
                ),
                Err(e) => (self, Err(e)),
            }
        }
    }

    /// The context after an arrangement was read, and what the reader gets:
    /// the arrangement is brought to the step of the context, and its map is
    /// handed out unless the graph has met a fault. A handle of another
    /// context is rejected.
    pub open spec fn read(self, context_id: usize, id: usize) -> (
        ExecView<F>,
        Result<ArrangedView, Error>,
    ) {
        if context_id != self.context_id || arranged_of(self.graph, id).is_none() {
            (self, Err(Error::ContextMismatch))
        } else {
            let g = flow(self.graph, id, Step::Last(self.step), full_fuel(self.graph) as nat).0;
            (
                ExecView { graph: g, ..self },
                match g.fault {
                    Some(e) => Err(e),
                    None => match arranged_of(g, id) {
                        Some(m) => Ok(m),
                        None => Err(Error::ContextMismatch),
                    },
                },
            )
        }
    }
}

/// In a well-formed context no input is ahead of the clock: a change to an
/// input of the context is never rejected.
pub proof fn lemma_input_takes_changes<F: Function>(c: ExecView<F>, input: Input)
    requires
        c.wf(),
        c.has_input(input),
    ensures
        c.rejection(input).is_none(),
        crate::access::accepts(c.graph, input.id, c.step),
        c.updated(input, Value::Unit, 0).1.is_ok(),
{
    lemma_within_at(c.graph, input.id, c.step);
}

impl<F: Function> ExecutionContext<F> {
    pub open spec fn wf(&self) -> bool {
        self@.wf()
    }

    /// Advances the clock by one step. Nothing else does.
    pub fn commit(&mut self) -> (r: Result<(), Error>)
        requires
            old(self).wf(),
        ensures
            final(self).wf(),
            match r {
                Ok(_) => old(self).step < usize::MAX && final(self)@ == old(self)@.committed(),
                Err(e) => old(self).step == usize::MAX && e == Error::ClockExhausted
                    && final(self)@ == old(self)@,
            },
    {
        if self.step == usize::MAX {
            return Err(Error::ClockExhausted);
        }
        proof {
            lemma_within_later(self@.graph, self.step, (self.step + 1) as usize);
        }
        self.step = self.step + 1;
        Ok(())
    }

    /// The current step.
    pub fn step(&self) -> (s: usize)
        ensures
            s == self.step,
    {
        self.step
    }

    /// The first fault that a pull has met, if any.
    pub fn fault(&self) -> (e: Option<Error>)
        ensures
            e == self@.graph.fault,
    {
        self.graph.fault
    }

    /// Why the context would not take a change to the input, if it would
    /// not.
    pub fn rejection(&self, input: &Input) -> (e: Option<Error>)
        ensures
            e == self@.rejection(*input),
    {
        if input.context_id != self.context_id {
            Some(Error::ContextMismatch)
        } else if self.graph.accepts(input.id, self.step) {
            None
        } else if self.graph.is_kind(input.id, Kind::Input) {
            Some(Error::NotMonotone)
        } else {
            Some(Error::ContextMismatch)
        }
    }

    /// Whether the context has made the input.
    pub fn has_input(&self, input: &Input) -> (b: bool)
        ensures
            b == self@.has_input(*input),
    {
        input.context_id == self.context_id && self.graph.is_kind(
            input.id,
            Kind::Input,
        )
    }

    /// Whether the handle stands for an arrangement of the context.
    pub fn has_arrangement(&self, context_id: usize, id: usize) -> (b: bool)
        ensures
            b == self@.has_arrangement(context_id, id),
    {
        context_id == self.context_id && (self.graph.is_kind(id, Kind::Arrangement)
            || self.graph.is_kind(id, Kind::Grouped))
    }

    /// Whether the handle stands for an arrangement of the context whose map
    /// is flat.
    pub fn has_flat_arrangement(&self, context_id: usize, id: usize) -> (b: bool)
        ensures
            b == self@.has_flat_arrangement(context_id, id),
    {
        context_id == self.context_id && self.graph.is_kind(id, Kind::Arrangement)
    }

    /// Writes a change to an input of the context.
    pub fn update(&mut self, input: &Input, x: Value, r: isize)
        requires
            old(self).wf(),
            old(self)@.has_input(*input),
        ensures
            final(self).wf(),
            final(self)@ == old(self)@.updated(*input, x, r).0,
            final(self)@.graph == update_input(
                old(self)@.graph,
                input.id,
                old(self).step,
                old(self).tracking_id,
                x,
                r,
            ).0,
            kinds_kept(old(self)@.graph, final(self)@.graph),
    {
        proof {
            lemma_input_takes_changes(self@, *input);
        }
        self.graph.update_input(input.id, self.step, self.tracking_id, x, r);
        proof {
            lemma_watched_kept(old(self)@.watched, old(self)@.graph, self@.graph);
            assert(kind_of(self@.graph, input.id) == Some(Kind::Input));
            lemma_watched_more(old(self)@.watched, self@.graph, self.tracking_id, input.id);
        }
        match self.tracking_id {
            Some(t) => {
                let key = Value::Nat(t);
                let member = Value::Nat(input.id);
                let known = match self.watched.get(&key) {
                    Some(m) => m.contains_key(&member),
                    None => false,
                };
                if !known {
                    self.watched.add(key, member, 1);
                }
            },
            None => {},
        }
    }

    /// Brings an arrangement of the context to the current step and hands
    /// out its map, unless the graph has met a fault: then it hands out the
    /// fault.
    pub fn read_node<'a>(&'a mut self, context_id: usize, id: usize) -> (r: Result<
        &'a Arranged,
        Error,
    >)
        requires
            old(self).wf(),
            old(self)@.has_arrangement(context_id, id),
        ensures
            final(self).wf(),
            final(self)@ == old(self)@.read(context_id, id).0,
            match r {
                Ok(m) => old(self)@.read(context_id, id).1 == Ok::<ArrangedView, Error>(m@)
                    && m.wf() && final(self)@.graph.fault.is_none(),
                Err(e) => old(self)@.read(context_id, id).1 == Err::<ArrangedView, Error>(e)
                    && final(self)@.graph.fault == Some(e),
            },
            kinds_kept(old(self)@.graph, final(self)@.graph),
            fault_kept(old(self)@.graph, final(self)@.graph),
            kind_of(final(self)@.graph, id) == kind_of(old(self)@.graph, id),
    {
        let step = Step::Last(self.step);
        let fuel = self.graph.fuel();
        let _ = self.graph.flow(id, &step, fuel);
        proof {
            assert(kind_of(self@.graph, id) == kind_of(old(self)@.graph, id));
            lemma_watched_kept(old(self)@.watched, old(self)@.graph, self@.graph);
        }
        match self.graph.fault {
            Some(e) => {
                return Err(e);
            },
            None => {},
        }
        match self.graph.arranged(id) {
            Some(m) => Ok(m),
            None => Err(Error::ContextMismatch),
        }
    }
}

impl Input {
    /// Writes a change to the input: the record gets the weight added at the
    /// current step. The context has to be the one that made the input.
    pub fn update<F: Function>(&self, context: &mut ExecutionContext<F>, x: Value, r: isize)
        requires
            old(context).wf(),
            old(context)@.has_input(*self),
        ensures
            final(context).wf(),
            final(context)@ == old(context)@.updated(*self, x, r).0,
            kinds_kept(old(context)@.graph, final(context)@.graph),
    {
        context.update(self, x, r)
    }

    /// Adds the record once.
    pub fn insert<F: Function>(&self, context: &mut ExecutionContext<F>, x: Value)
        requires
            old(context).wf(),
            old(context)@.has_input(*self),
        ensures
            final(context).wf(),
            final(context)@ == old(context)@.updated(*self, x, 1isize).0,
            kinds_kept(old(context)@.graph, final(context)@.graph),
    {
        context.update(self, x, 1)
    }

    /// Takes the record away once.
    pub fn delete<F: Function>(&self, context: &mut ExecutionContext<F>, x: Value)
        requires
            old(context).wf(),
            old(context)@.has_input(*self),
        ensures
            final(context).wf(),
            final(context)@ == old(context)@.updated(*self, x, -1isize).0,
            kinds_kept(old(context)@.graph, final(context)@.graph),
    {
        context.update(self, x, -1)
    }

    pub fn get_id(&self) -> (id: usize)
        ensures
            id == self.id,
    {
        self.id
    }
}

} // verus!
