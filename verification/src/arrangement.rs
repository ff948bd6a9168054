//! Arrangements: the materialized result of a relation, brought up to date
//! when it is read.

use crate::builder::{with_arrangement, with_dynamic};
use crate::context::{CreationContext, ExecutionContext};
use crate::error::Error;
use crate::function::Function;
use crate::graph::{kinds_kept, GraphView};
use crate::map::{add_all, group_add_all, groups_wf, items_wf, Batch, GroupMap, Groups, WeightMap};
use crate::relation::Relation;
use crate::step::Step;
use crate::value::Value;
use vstd::prelude::*;

verus! {

/// The map that an arrangement keeps: flat, from records to weights, or
/// grouped by the first component of the records.
#[derive(Debug)]
pub enum Arranged {
    Flat(WeightMap),
    Grouped(GroupMap),
}

pub enum ArrangedView {
    Flat(Seq<(Value, isize)>),
    Grouped(Groups),
}

impl View for Arranged {
    type V = ArrangedView;

    open spec fn view(&self) -> ArrangedView {
        match self {
            Arranged::Flat(m) => ArrangedView::Flat(m@),
            Arranged::Grouped(m) => ArrangedView::Grouped(m@),
        }
    }
}

impl ArrangedView {
    pub open spec fn wf(self) -> bool {
        match self {
            ArrangedView::Flat(m) => items_wf(m),
            ArrangedView::Grouped(m) => groups_wf(m),
        }
    }

    /// The map after a batch was added to it.
    pub open spec fn after(self, batch: Seq<(Value, isize)>) -> ArrangedView {
        match self {
            ArrangedView::Flat(m) => ArrangedView::Flat(add_all(m, batch)),
            ArrangedView::Grouped(m) => ArrangedView::Grouped(group_add_all(m, batch)),
        }
    }

    pub open spec fn is_empty(self) -> bool {
        match self {
            ArrangedView::Flat(m) => m.len() == 0,
            ArrangedView::Grouped(m) => m.len() == 0,
        }
    }

    /// The records of the map with their weights: of a grouped map those of
    /// all groups, each paired with its group's key.
    pub open spec fn records(self) -> Seq<(Value, isize)> {
        match self {
            ArrangedView::Flat(m) => m,
            ArrangedView::Grouped(m) => crate::map::flattened(m),
        }
    }
}

impl Arranged {
    pub open spec fn wf(&self) -> bool {
        self@.wf()
    }

    pub fn add_batch(&mut self, batch: &Batch)
        requires
            old(self).wf(),
        ensures
            final(self).wf(),
            final(self)@ == old(self)@.after(batch@),
    {
        match self {
            Arranged::Flat(m) => {
                m.add_batch(batch);
            },
            Arranged::Grouped(m) => {
                m.add_batch(batch);
            },
        }
    }

    /// A copy of the records of the map with their weights.
    pub fn to_vec(&self) -> (out: Batch)
        ensures
            out@ == self@.records(),
    {
        match self {
            Arranged::Flat(m) => m.to_vec(),
            Arranged::Grouped(m) => m.flatten(),
        }
    }

    pub fn is_empty(&self) -> (b: bool)
        ensures
            b == self@.is_empty(),
    {
        match self {
            Arranged::Flat(m) => m.len() == 0,
            Arranged::Grouped(m) => m.len() == 0,
        }
    }
}

/// The state of an arrangement: the relation it reads, its map, and the step
/// at which the map was last brought up to date.
pub struct ArrangementInner {
    pub from: usize,
    pub value: Arranged,
    pub step: Step,
}

pub struct ArrangementView {
    pub from: usize,
    pub value: ArrangedView,
    pub step: Step,
}

impl View for ArrangementInner {
    type V = ArrangementView;

    open spec fn view(&self) -> ArrangementView {
        ArrangementView { from: self.from, value: self.value@, step: self.step }
    }
}

impl ArrangementView {
    pub open spec fn wf(self) -> bool {
        self.value.wf()
    }

    pub open spec fn fresh(from: usize, grouped: bool) -> ArrangementView {
        ArrangementView {
            from,
            value: if grouped {
                ArrangedView::Grouped(Seq::empty())
            } else {
                ArrangedView::Flat(Seq::empty())
            },
            step: Step::Last(0),
        }
    }

    /// The arrangement after it took a batch in.
    pub open spec fn after(self, batch: Seq<(Value, isize)>) -> ArrangementView {
        ArrangementView { value: self.value.after(batch), ..self }
    }
}

impl ArrangementInner {
    pub open spec fn wf(&self) -> bool {
        self@.wf()
    }

    pub fn new(from: usize, grouped: bool) -> (a: Self)
        ensures
            a@ == ArrangementView::fresh(from, grouped),
            a.wf(),
    {
        ArrangementInner {
            from,
            value: if grouped {
                Arranged::Grouped(GroupMap::new())
            } else {
                Arranged::Flat(WeightMap::new())
            },
            step: Step::Last(0),
        }
    }

    /// Adds what the relation delivered to the map.
    pub fn flow(&mut self, batch: &Batch)
        requires
            old(self).wf(),
        ensures
            final(self).wf(),
            final(self)@ == old(self)@.after(batch@),
    {
        self.value.add_batch(batch);
    }
}

impl crate::operator::Op for ArrangementInner {
    open spec fn hideable_spec() -> bool {
        true
    }

    open spec fn op_name_spec() -> Seq<char> {
        "arrangement"@
    }

    fn hideable() -> (b: bool) {
        true
    }

    fn default_op_name() -> (name: &'static str) {
        "arrangement"
    }
}

/// The handle of an arrangement with a map of either kind. Copies of the
/// handle read the same map.
#[derive(Clone, Copy, PartialEq, Eq, Structural, Debug)]
pub struct ArrangementG {
    pub context_id: usize,
    pub id: usize,
}

/// The handle of an arrangement with a flat map, from records to weights.
#[derive(Clone, Copy, PartialEq, Eq, Structural, Debug)]
pub struct Arrangement {
    pub context_id: usize,
    pub id: usize,
}

impl ArrangementG {
    /// The map of the relation as of the current step: every change that
    /// was written to the inputs before the last commit is in it. The
    /// context has to be the one that the arrangement was made in; what
    /// comes back is the map, or the fault that the graph has met.
    pub fn read<'a, F: Function>(&self, context: &'a mut ExecutionContext<F>) -> (r: Result<
        &'a Arranged,
        Error,
    >)
        requires
            old(context).wf(),
            old(context)@.has_arrangement(self.context_id, self.id),
        ensures
            final(context).wf(),
            final(context)@ == old(context)@.read(self.context_id, self.id).0,
            match r {
                Ok(m) => old(context)@.read(self.context_id, self.id).1 == Ok::<
                    ArrangedView,
                    Error,
                >(m@) && m.wf(),
                Err(e) => old(context)@.read(self.context_id, self.id).1 == Err::<
                    ArrangedView,
                    Error,
                >(e) && final(context)@.graph.fault == Some(e),
            },
            kinds_kept(old(context)@.graph, final(context)@.graph),
    {
        context.read_node(self.context_id, self.id)
    }
}

impl Arrangement {
    /// The map of the relation as of the current step: every change that
    /// was written to the inputs before the last commit is in it. The
    /// context has to be the one that the arrangement was made in; what
    /// comes back is the map, or the fault that the graph has met.
    pub fn read<'a, F: Function>(&self, context: &'a mut ExecutionContext<F>) -> (r: Result<
        &'a WeightMap,
        Error,
    >)
        requires
            old(context).wf(),
            old(context)@.has_flat_arrangement(self.context_id, self.id),
        ensures
            final(context).wf(),
            final(context)@ == old(context)@.read(self.context_id, self.id).0,
            match r {
                Ok(m) => old(context)@.read(self.context_id, self.id).1 == Ok::<
                    ArrangedView,
                    Error,
                >(ArrangedView::Flat(m@)) && m.wf() && final(context)@.graph.fault.is_none(),
                Err(e) => old(context)@.read(self.context_id, self.id).1 == Err::<
                    ArrangedView,
                    Error,
                >(e) && final(context)@.graph.fault == Some(e),
            },
            kinds_kept(old(context)@.graph, final(context)@.graph),
    {
        match context.read_node(self.context_id, self.id) {
            Ok(Arranged::Flat(m)) => Ok(m),
            Ok(Arranged::Grouped(_)) => Err(Error::ContextMismatch),
            Err(e) => Err(e),
        }
    }
}

/// What making an arrangement comes to: the graph of the context becomes
/// the given one, and the arrangement is the last node of it.
pub open spec fn arranged<F: Function>(
    before: CreationContext<F>,
    after: CreationContext<F>,
    handle: (usize, usize),
    graph: GraphView<F>,
) -> bool {
    &&& after.context_id == before.context_id
    &&& after.graph() == graph
    &&& handle == (before.context_id, (graph.nodes.len() - 1) as usize)
}

impl Relation {
    /// An arrangement of the relation: flat, or grouped by the first
    /// component of the records.
    pub fn get_arrangement<F: Function>(self, context: &mut CreationContext<F>, grouped: bool) -> (r:
        ArrangementG)
        requires
            old(context).wf(),
            self.owned_by(*old(context)),
        ensures
            final(context).wf(),
            kinds_kept(old(context).graph(), final(context).graph()),
            arranged(
                *old(context),
                *final(context),
                (r.context_id, r.id),
                with_arrangement(old(context).graph(), self.id, grouped, self.depth),
            ),
            crate::access::kind_of(final(context).graph(), r.id) == Some(
                if grouped {
                    crate::access::Kind::Grouped
                } else {
                    crate::access::Kind::Arrangement
                },
            ),
    {
        let id = context.node_maker.graph.add_arrangement(self.id, grouped, self.depth);
        ArrangementG { context_id: self.context_id, id }
    }

    /// A flat arrangement of the relation behind a dynamic node.
    pub fn get_dyn_arrangement<F: Function>(self, context: &mut CreationContext<F>) -> (r:
        Arrangement)
        requires
            old(context).wf(),
            self.owned_by(*old(context)),
        ensures
            final(context).wf(),
            kinds_kept(old(context).graph(), final(context).graph()),
            arranged(
                *old(context),
                *final(context),
                (r.context_id, r.id),
                with_arrangement(
                    with_dynamic(old(context).graph(), self.id, self.depth),
                    old(context).graph().nodes.len() as usize,
                    false,
                    self.depth,
                ),
            ),
            crate::access::kind_of(final(context).graph(), r.id) == Some(
                crate::access::Kind::Arrangement,
            ),
    {
        let dynamic = context.node_maker.graph.add_dynamic(self.id, self.depth);
        let id = context.node_maker.graph.add_arrangement(dynamic, false, self.depth);
        Arrangement { context_id: self.context_id, id }
    }
}

} // verus!
