//! Reduce outputs: readers of the outputs that a reduce keeps, by key,
//! without a copy of them.

use crate::access::outputs_of;
use crate::builder::{with_barrier, with_reduce, with_split};
use crate::context::{CreationContext, ExecView, ExecutionContext};
use crate::convenience_operators::next_id;
use crate::error::Error;
use crate::function::{Function, Reduction};
use crate::graph::{flow, full_fuel, kinds_kept, propagate, GraphView};
use crate::map::{GroupMap, Groups};
use crate::node::{Operation, OperationView};
use crate::operator::reduce::Reduce;
use crate::relation::Relation;
use crate::step::{step_lt, Step};
use vstd::prelude::*;

verus! {

/// What gives access to the outputs of a reduce.
pub trait IsReduce {
    spec fn outputs_spec(&self) -> Groups;

    fn get_ref(&self) -> (m: &GroupMap)
        ensures
            m@ == self.outputs_spec(),
    ;
}

impl<F: Function> IsReduce for Reduce<F> {
    open spec fn outputs_spec(&self) -> Groups {
        self.output_maps@
    }

    fn get_ref(&self) -> (m: &GroupMap) {
        &self.output_maps
    }
}

/// The reader of a reduce behind a barrier.
#[derive(Clone, Copy, Debug)]
pub struct ReduceOutputImpl {
    pub context_id: usize,
    pub inner: usize,
    pub reduce: usize,
}

/// The reader of a reduce behind a split, whose receivers see what the reduce
/// sends on.
#[derive(Clone, Copy, Debug)]
pub struct SplitReduceOutputImpl {
    pub context_id: usize,
    pub inner: usize,
    pub reduce: usize,
}

/// What the reader of a reduce gets after the graph was brought up to date:
/// the outputs, unless the graph has met a fault.
pub open spec fn outputs_read<F>(g: GraphView<F>, reduce: usize) -> Result<Groups, Error> {
    match g.fault {
        Some(e) => Err(e),
        None => match outputs_of(g, reduce) {
            Some(m) => Ok(m),
            None => Err(Error::ContextMismatch),
        },
    }
}

/// The graph after the barrier of a reader was brought to a step: where the
/// barrier has not pulled at the step, it is pulled, and what comes is
/// dropped.
pub open spec fn barrier_read<F: Function>(g: GraphView<F>, barrier: usize, step: usize) -> GraphView<
    F,
> {
    match g.op(barrier) {
        Some(OperationView::Barrier(b)) => if step_lt(b.step, Step::Last(step)) {
            flow(g, barrier, Step::Last(step), full_fuel(g) as nat).0
        } else {
            g
        },
        _ => g,
    }
}

/// A reader of the outputs of a reduce.
pub trait ReduceOutput<F: Function> {
    /// The context after the outputs were read, and what the reader gets.
    spec fn read_spec(&self, c: ExecView<F>) -> (ExecView<F>, Result<Groups, Error>);

    /// Whether the reader is one of the context: whether the context has
    /// made it.
    spec fn valid_spec(&self, c: ExecView<F>) -> bool;

    /// Whether the context has made the reader.
    fn check(&self, context: &ExecutionContext<F>) -> (b: bool)
        ensures
            b == self.valid_spec(context@),
    ;

    /// The outputs of the reduce, by key, as of the current step, or the
    /// fault that the graph has met. The context has to be the one that
    /// made the reader.
    fn read<'a>(&self, context: &'a mut ExecutionContext<F>) -> (r: Result<&'a GroupMap, Error>)
        requires
            old(context).wf(),
            self.valid_spec(old(context)@),
        ensures
            final(context).wf(),
            final(context)@ == self.read_spec(old(context)@).0,
            match r {
                Ok(m) => self.read_spec(old(context)@).1 == Ok::<Groups, Error>(m@) && m.wf()
                    && final(context)@.graph.fault.is_none(),
                Err(e) => self.read_spec(old(context)@).1 == Err::<Groups, Error>(e)
                    && final(context)@.graph.fault == Some(e),
            },
            kinds_kept(old(context)@.graph, final(context)@.graph),
    ;
}

impl<F: Function> ReduceOutput<F> for ReduceOutputImpl {
    open spec fn valid_spec(&self, c: ExecView<F>) -> bool {
        self.context_id == c.context_id && crate::access::kind_of(c.graph, self.reduce) == Some(
            crate::access::Kind::Reduce,
        )
    }

    fn check(&self, context: &ExecutionContext<F>) -> (b: bool) {
        self.context_id == context.context_id && context.graph.is_kind(
            self.reduce,
            crate::access::Kind::Reduce,
        )
    }

    open spec fn read_spec(&self, c: ExecView<F>) -> (ExecView<F>, Result<Groups, Error>) {
        if self.context_id != c.context_id || outputs_of(c.graph, self.reduce).is_none() {
            (c, Err(Error::ContextMismatch))
        } else {
            let g = barrier_read(c.graph, self.inner, c.step);
            (ExecView { graph: g, ..c }, outputs_read(g, self.reduce))
        }
    }

    fn read<'a>(&self, context: &'a mut ExecutionContext<F>) -> (r: Result<&'a GroupMap, Error>) {
        let step = Step::Last(context.step);
        let dirty = if self.inner < context.graph.nodes.len() {
            match &context.graph.nodes[self.inner].inner {
                Operation::Barrier(b) => b.dirty(&step),
                _ => false,
            }
        } else {
            false
        };
        if dirty {
            let fuel = context.graph.fuel();
            let _ = context.graph.flow(self.inner, &step, fuel);
        }
        proof {
            assert(crate::access::kind_of(old(context)@.graph, self.reduce) == Some(
                crate::access::Kind::Reduce,
            ));
            assert(crate::access::kind_of(context@.graph, self.reduce) == Some(
                crate::access::Kind::Reduce,
            ));
            crate::context::lemma_watched_kept(
                old(context)@.watched,
                old(context)@.graph,
                context@.graph,
            );
        }
        match context.graph.fault {
            Some(e) => {
                return Err(e);
            },
            None => {},
        }
        match context.graph.outputs(self.reduce) {
            Some(m) => Ok(m),
            None => Err(Error::ContextMismatch),
        }
    }
}

impl<F: Function> ReduceOutput<F> for SplitReduceOutputImpl {
    open spec fn valid_spec(&self, c: ExecView<F>) -> bool {
        self.context_id == c.context_id && crate::access::kind_of(c.graph, self.reduce) == Some(
            crate::access::Kind::Reduce,
        )
    }

    fn check(&self, context: &ExecutionContext<F>) -> (b: bool) {
        self.context_id == context.context_id && context.graph.is_kind(
            self.reduce,
            crate::access::Kind::Reduce,
        )
    }

    open spec fn read_spec(&self, c: ExecView<F>) -> (ExecView<F>, Result<Groups, Error>) {
        if self.context_id != c.context_id || outputs_of(c.graph, self.reduce).is_none() {
            (c, Err(Error::ContextMismatch))
        } else {
            let g = propagate(c.graph, self.inner, Step::Last(c.step), full_fuel(c.graph) as nat);
            (ExecView { graph: g, ..c }, outputs_read(g, self.reduce))
        }
    }

    fn read<'a>(&self, context: &'a mut ExecutionContext<F>) -> (r: Result<&'a GroupMap, Error>) {
        let step = Step::Last(context.step);
        let fuel = context.graph.fuel();
        context.graph.propagate(self.inner, &step, fuel);
        proof {
            assert(crate::access::kind_of(old(context)@.graph, self.reduce) == Some(
                crate::access::Kind::Reduce,
            ));
            assert(crate::access::kind_of(context@.graph, self.reduce) == Some(
                crate::access::Kind::Reduce,
            ));
            crate::context::lemma_watched_kept(
                old(context)@.watched,
                old(context)@.graph,
                context@.graph,
            );
        }
        match context.graph.fault {
            Some(e) => {
                return Err(e);
            },
            None => {},
        }
        match context.graph.outputs(self.reduce) {
            Some(m) => Ok(m),
            None => Err(Error::ContextMismatch),
        }
    }
}

/// Whether the relation is a reduce of the context.
pub open spec fn is_reduce<F: Function>(rel: Relation, ctx: CreationContext<F>) -> bool {
    rel.owned_by(ctx) && ctx.graph().op(rel.id).unwrap() is Reduce
}

/// The graph with a reduce that demands one record of weight one for every
/// key, hidden, behind a split.
pub open spec fn with_one_to_one<F>(g: GraphView<F>, up: usize, depth: usize) -> GraphView<F> {
    with_split(
        with_reduce(g, up, Reduction::OneToOne, Some("assert_1to1"@), true, depth),
        next_id(g),
        depth,
    )
}

impl Relation {
    /// Whether the relation is a reduce of the context.
    pub fn is_reduce<F: Function>(&self, context: &CreationContext<F>) -> (b: bool)
        ensures
            b == is_reduce(*self, *context),
    {
        self.check(context) && context.node_maker.graph.is_kind(
            self.id,
            crate::access::Kind::Reduce,
        )
    }

    /// A reader of the outputs of this reduce, behind a barrier.
    pub fn reduce_output<F: Function>(self, context: &mut CreationContext<F>) -> (h:
        ReduceOutputImpl)
        requires
            old(context).wf(),
            is_reduce(self, *old(context)),
        ensures
            final(context).wf(),
            kinds_kept(old(context).graph(), final(context).graph()),
            final(context).context_id == old(context).context_id,
            final(context).graph() == with_barrier(old(context).graph(), self.id, self.depth),
            h.context_id == self.context_id,
            h.inner == next_id(old(context).graph()),
            h.reduce == self.id,
            crate::access::kind_of(final(context).graph(), h.reduce) == Some(
                crate::access::Kind::Reduce,
            ),
    {
        let inner = context.node_maker.graph.add_barrier(self.id, self.depth);
        ReduceOutputImpl { context_id: self.context_id, inner, reduce: self.id }
    }

    /// As `reduce_output`.
    pub fn get_dyn_reduce_output<F: Function>(self, context: &mut CreationContext<F>) -> (h:
        ReduceOutputImpl)
        requires
            old(context).wf(),
            is_reduce(self, *old(context)),
        ensures
            final(context).wf(),
            kinds_kept(old(context).graph(), final(context).graph()),
            final(context).context_id == old(context).context_id,
            final(context).graph() == with_barrier(old(context).graph(), self.id, self.depth),
            h.context_id == self.context_id,
            h.inner == next_id(old(context).graph()),
            h.reduce == self.id,
            crate::access::kind_of(final(context).graph(), h.reduce) == Some(
                crate::access::Kind::Reduce,
            ),
    {
        self.reduce_output(context)
    }

    /// This reduce behind a split, and a reader of its outputs that pulls
    /// through the split: the relation and the reader see the same state.
    pub fn split_reduce_output<F: Function>(self, context: &mut CreationContext<F>) -> (p: (
        Relation,
        SplitReduceOutputImpl,
    ))
        requires
            old(context).wf(),
            is_reduce(self, *old(context)),
        ensures
            final(context).wf(),
            final(context).context_id == old(context).context_id,
            final(context).graph() == with_split(old(context).graph(), self.id, self.depth),
            p.0 == (Relation {
                context_id: self.context_id,
                id: (final(context).graph().nodes.len() - 1) as usize,
                depth: self.depth,
            }),
            p.1.context_id == self.context_id,
            p.1.inner == next_id(old(context).graph()),
            p.1.reduce == self.id,
            crate::access::kind_of(final(context).graph(), p.1.reduce) == Some(
                crate::access::Kind::Reduce,
            ),
    {
        let source = context.node_maker.graph.len();
        let id = context.node_maker.graph.add_split(self.id, self.depth);
        (
            Relation { context_id: self.context_id, id, depth: self.depth },
            SplitReduceOutputImpl { context_id: self.context_id, inner: source, reduce: self.id },
        )
    }

    /// The relation with the demand that every key has one record, of weight
    /// one: as a relation, and as a reader that gives for every key its
    /// record. A group that breaks the demand is a fault of the graph.
    pub fn assert_1to1_with_output<F: Function>(self, context: &mut CreationContext<F>) -> (p: (
        Relation,
        SplitReduceOutputImpl,
    ))
        requires
            old(context).wf(),
            self.owned_by(*old(context)),
        ensures
            final(context).wf(),
            final(context).context_id == old(context).context_id,
            final(context).graph() == with_one_to_one(old(context).graph(), self.id, self.depth),
            p.0 == (Relation {
                context_id: self.context_id,
                id: (final(context).graph().nodes.len() - 1) as usize,
                depth: self.depth,
            }),
            p.1.context_id == self.context_id,
            p.1.reduce == next_id(old(context).graph()),
            p.1.inner == p.1.reduce + 1,
            crate::access::kind_of(final(context).graph(), p.1.reduce) == Some(
                crate::access::Kind::Reduce,
            ),
    {
        let reduce = context.node_maker.graph.add_reduce(
            self.id,
            Reduction::OneToOne,
            Some("assert_1to1"),
            true,
            self.depth,
        );
        let source = context.node_maker.graph.len();
        let id = context.node_maker.graph.add_split(reduce, self.depth);
        (
            Relation { context_id: self.context_id, id, depth: self.depth },
            SplitReduceOutputImpl { context_id: self.context_id, inner: source, reduce },
        )
    }
}

} // verus!
