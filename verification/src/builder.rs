//! The nodes that each kind of relation adds to the graph.

use crate::arrangement::{ArrangementInner, ArrangementView};
use crate::function::{Function, MapFn, Reduction};
use crate::graph::{inputs_within, kinds_kept, Graph, GraphView};
use crate::maker::made;
use crate::node::{Operation, OperationView};
use crate::operator::barrier::Barrier;
use crate::operator::concat::Concat;
use crate::operator::consolidate::Consolidate;
use crate::operator::dynamic::DynOp;
use crate::operator::input::{InputInner, InputView};
use crate::operator::join::{AntiJoin, AntiJoinView, Join, JoinView};
use crate::operator::map::FlatMap;
use crate::operator::reduce::{Reduce, ReduceView};
use crate::operator::split::{Receiver, Source, SourceView};
use crate::operator::triangles::{BiMapView, Triangles, TrianglesView};
use vstd::prelude::*;

verus! {

/// The graph with one more node, which may get another operator name than
/// that of its kind, and may be hidden from the start.
pub open spec fn added<F>(
    g: GraphView<F>,
    deps: Seq<usize>,
    op: OperationView<F>,
    name: Option<Seq<char>>,
    hidden: bool,
    depth: usize,
) -> GraphView<F> {
    let id = g.nodes.len() as usize;
    let g1 = made(g, deps, op, depth);
    let g2 = match name {
        Some(n) => g1.op_named(id, n),
        None => g1,
    };
    if hidden {
        g2.with_shown(id, false)
    } else {
        g2
    }
}

/// The name of an operator, where one is given.
pub open spec fn name_of(name: Option<&'static str>) -> Option<Seq<char>> {
    match name {
        Some(n) => Some(n@),
        None => None,
    }
}

/// The graph with a flat-map node over a node.
pub open spec fn with_flat_map<F>(g: GraphView<F>, up: usize, op: MapFn<F>, name: Option<Seq<char>>, hidden: bool, depth: usize) -> GraphView<
    F,
> {
    added(g, seq![up], OperationView::FlatMap(FlatMap { inner: up, op }), name, hidden, depth)
}

/// The graph with a reduce node over a node.
pub open spec fn with_reduce<F>(g: GraphView<F>, up: usize, proc: Reduction<F>, name: Option<Seq<char>>, hidden: bool, depth: usize) -> GraphView<
    F,
> {
    added(
        g,
        seq![up],
        OperationView::Reduce(
            ReduceView {
                inner: up,
                input_maps: Seq::empty(),
                output_maps: Seq::empty(),
                proc,
            },
        ),
        name,
        hidden,
        depth,
    )
}

/// The graph with a join node over two nodes.
pub open spec fn with_join<F>(g: GraphView<F>, left: usize, right: usize, name: Option<Seq<char>>, depth: usize) -> GraphView<
    F,
> {
    added(
        g,
        seq![left, right],
        OperationView::Join(
            JoinView { left, right, left_map: Seq::empty(), right_map: Seq::empty() },
        ),
        name,
        false,
        depth,
    )
}

/// The graph with an antijoin node over two nodes.
pub open spec fn with_antijoin<F>(g: GraphView<F>, left: usize, right: usize, name: Option<Seq<char>>, depth: usize) -> GraphView<
    F,
> {
    added(
        g,
        seq![left, right],
        OperationView::AntiJoin(
            AntiJoinView { left, right, left_map: Seq::empty(), right_map: Seq::empty() },
        ),
        name,
        false,
        depth,
    )
}

/// The graph with a concat node over two nodes.
pub open spec fn with_concat<F>(g: GraphView<F>, left: usize, right: usize, depth: usize) -> GraphView<F> {
    added(g, seq![left, right], OperationView::Concat(Concat { left, right }), None, false, depth)
}

/// The graph with a triangle join over three nodes.
pub open spec fn with_triangles<F>(g: GraphView<F>, xy: usize, xz: usize, yz: usize, depth: usize) -> GraphView<
    F,
> {
    added(
        g,
        seq![xy, xz, yz],
        OperationView::Triangles(
            TrianglesView {
                mxy: BiMapView::fresh(xy),
                mxz: BiMapView::fresh(xz),
                myz: BiMapView::fresh(yz),
            },
        ),
        None,
        false,
        depth,
    )
}

/// The graph with a hidden barrier over a node.
pub open spec fn with_barrier<F>(g: GraphView<F>, up: usize, depth: usize) -> GraphView<F> {
    added(g, seq![up], OperationView::Barrier(Barrier::new_spec(up)), None, true, depth)
}

/// The graph with a hidden dynamic node over a node.
pub open spec fn with_dynamic<F>(g: GraphView<F>, up: usize, depth: usize) -> GraphView<F> {
    added(g, seq![up], OperationView::Dynamic(DynOp { inner: up }), None, true, depth)
}

/// The graph with a consolidate node over a node.
pub open spec fn with_consolidate<F>(g: GraphView<F>, up: usize, depth: usize) -> GraphView<F> {
    added(g, seq![up], OperationView::Consolidate(Consolidate { inner: up }), None, false, depth)
}

/// The graph with a source over a node and its first receiver, both hidden.
/// The receiver is the last node.
pub open spec fn with_split<F>(g: GraphView<F>, up: usize, depth: usize) -> GraphView<F> {
    let source = g.nodes.len() as usize;
    let g1 = added(
        g,
        seq![up],
        OperationView::Source(
            SourceView { inner: Barrier::new_spec(up), listeners: seq![Seq::empty()] },
        ),
        None,
        true,
        depth,
    );
    added(
        g1,
        seq![source],
        OperationView::Receiver(Receiver { source, listener: 0 }),
        None,
        true,
        depth,
    )
}

/// The graph with an arrangement over a node. The arrangement is hidden: it
/// reads a relation and is no part of the picture of the graph.
pub open spec fn with_arrangement<F>(g: GraphView<F>, from: usize, grouped: bool, depth: usize) -> GraphView<
    F,
> {
    added(
        g,
        seq![from],
        OperationView::Arrangement(ArrangementView::fresh(from, grouped)),
        None,
        true,
        depth,
    )
}

/// The graph with an input, which is its own source of changes.
pub open spec fn with_new_input<F>(g: GraphView<F>) -> GraphView<F> {
    let id = g.nodes.len() as usize;
    made(g, Seq::empty(), OperationView::Input(InputView::fresh()), 0).with_input(id, id)
}

/// The sequence of one number.
pub fn one(x: usize) -> (v: Vec<usize>)
    ensures
        v@ == seq![x],
{
    let mut v: Vec<usize> = Vec::new();
    v.push(x);
    proof {
        assert(v@ =~= seq![x]);
    }
    v
}

impl<F: Function> Graph<F> {
    /// Adds a node, which may get another operator name than that of its
    /// kind, and may be hidden from the start.
    pub fn add_node(
        &mut self,
        deps: Vec<usize>,
        op: Operation<F>,
        name: Option<&'static str>,
        hidden: bool,
        depth: usize,
    ) -> (id: usize)
        requires
            old(self).wf(),
            op.wf(),
        ensures
            final(self)@ == added(old(self)@, deps@, op@, name_of(name), hidden, depth),
            final(self).wf(),
            forall|s: usize| #[trigger]
                inputs_within(old(self)@, s) && (op@ is Input ==> op@->Input_0.adding_step <= s)
                    ==> inputs_within(final(self)@, s),
            kinds_kept(old(self)@, final(self)@),
            id == old(self)@.nodes.len(),
            final(self)@.nodes.len() == old(self)@.nodes.len() + 1,
    {
        let id = self.make_node(deps, op, depth);
        match name {
            Some(n) => {
                self.set_op_name(id, n.to_owned());
            },
            None => {},
        }
        if hidden {
            self.set_shown(id, false);
        }
        id
    }

    pub fn add_flat_map(&mut self, up: usize, op: MapFn<F>, name: Option<&'static str>, hidden: bool, depth: usize) -> (id: usize)
        requires
            old(self).wf(),
        ensures
            final(self)@ == with_flat_map(old(self)@, up, op, name_of(name), hidden, depth),
            final(self).wf(),
            forall|s: usize| #[trigger] inputs_within(old(self)@, s) ==> inputs_within(final(self)@, s),
            kinds_kept(old(self)@, final(self)@),
            id == old(self)@.nodes.len(),
            final(self)@.nodes.len() == old(self)@.nodes.len() + 1,
    {
        self.add_node(one(up), Operation::FlatMap(FlatMap::new(up, op)), name, hidden, depth)
    }

    pub fn add_reduce(&mut self, up: usize, proc: Reduction<F>, name: Option<&'static str>, hidden: bool, depth: usize) -> (id: usize)
        requires
            old(self).wf(),
        ensures
            final(self)@ == with_reduce(old(self)@, up, proc, name_of(name), hidden, depth),
            final(self).wf(),
            forall|s: usize| #[trigger] inputs_within(old(self)@, s) ==> inputs_within(final(self)@, s),
            kinds_kept(old(self)@, final(self)@),
            id == old(self)@.nodes.len(),
            final(self)@.nodes.len() == old(self)@.nodes.len() + 1,
    {
        self.add_node(one(up), Operation::Reduce(Reduce::new(up, proc)), name, hidden, depth)
    }

    pub fn add_join(&mut self, left: usize, right: usize, name: Option<&'static str>, depth: usize) -> (id: usize)
        requires
            old(self).wf(),
        ensures
            final(self)@ == with_join(old(self)@, left, right, name_of(name), depth),
            final(self).wf(),
            forall|s: usize| #[trigger] inputs_within(old(self)@, s) ==> inputs_within(final(self)@, s),
            kinds_kept(old(self)@, final(self)@),
            id == old(self)@.nodes.len(),
            final(self)@.nodes.len() == old(self)@.nodes.len() + 1,
    {
        self.add_node(vec![left, right], Operation::Join(Join::new(left, right)), name, false, depth)
    }

    pub fn add_antijoin(&mut self, left: usize, right: usize, name: Option<&'static str>, depth: usize) -> (id: usize)
        requires
            old(self).wf(),
        ensures
            final(self)@ == with_antijoin(old(self)@, left, right, name_of(name), depth),
            final(self).wf(),
            forall|s: usize| #[trigger] inputs_within(old(self)@, s) ==> inputs_within(final(self)@, s),
            kinds_kept(old(self)@, final(self)@),
            id == old(self)@.nodes.len(),
            final(self)@.nodes.len() == old(self)@.nodes.len() + 1,
    {
        self.add_node(
            vec![left, right],
            Operation::AntiJoin(AntiJoin::new(left, right)),
            name,
            false,
            depth,
        )
    }

    pub fn add_concat(&mut self, left: usize, right: usize, depth: usize) -> (id: usize)
        requires
            old(self).wf(),
        ensures
            final(self)@ == with_concat(old(self)@, left, right, depth),
            final(self).wf(),
            forall|s: usize| #[trigger] inputs_within(old(self)@, s) ==> inputs_within(final(self)@, s),
            kinds_kept(old(self)@, final(self)@),
            id == old(self)@.nodes.len(),
            final(self)@.nodes.len() == old(self)@.nodes.len() + 1,
    {
        self.add_node(vec![left, right], Operation::Concat(Concat { left, right }), None, false, depth)
    }

    pub fn add_triangles(&mut self, xy: usize, xz: usize, yz: usize, depth: usize) -> (id: usize)
        requires
            old(self).wf(),
        ensures
            final(self)@ == with_triangles(old(self)@, xy, xz, yz, depth),
            final(self).wf(),
            forall|s: usize| #[trigger] inputs_within(old(self)@, s) ==> inputs_within(final(self)@, s),
            kinds_kept(old(self)@, final(self)@),
            id == old(self)@.nodes.len(),
            final(self)@.nodes.len() == old(self)@.nodes.len() + 1,
    {
        self.add_node(
            vec![xy, xz, yz],
            Operation::Triangles(Triangles::new(xy, xz, yz)),
            None,
            false,
            depth,
        )
    }

    pub fn add_barrier(&mut self, up: usize, depth: usize) -> (id: usize)
        requires
            old(self).wf(),
        ensures
            final(self)@ == with_barrier(old(self)@, up, depth),
            final(self).wf(),
            forall|s: usize| #[trigger] inputs_within(old(self)@, s) ==> inputs_within(final(self)@, s),
            kinds_kept(old(self)@, final(self)@),
            id == old(self)@.nodes.len(),
            final(self)@.nodes.len() == old(self)@.nodes.len() + 1,
    {
        self.add_node(one(up), Operation::Barrier(Barrier::new(up)), None, true, depth)
    }

    pub fn add_dynamic(&mut self, up: usize, depth: usize) -> (id: usize)
        requires
            old(self).wf(),
        ensures
            final(self)@ == with_dynamic(old(self)@, up, depth),
            final(self).wf(),
            forall|s: usize| #[trigger] inputs_within(old(self)@, s) ==> inputs_within(final(self)@, s),
            kinds_kept(old(self)@, final(self)@),
            id == old(self)@.nodes.len(),
            final(self)@.nodes.len() == old(self)@.nodes.len() + 1,
    {
        self.add_node(one(up), Operation::Dynamic(DynOp { inner: up }), None, true, depth)
    }

    pub fn add_consolidate(&mut self, up: usize, depth: usize) -> (id: usize)
        requires
            old(self).wf(),
        ensures
            final(self)@ == with_consolidate(old(self)@, up, depth),
            final(self).wf(),
            forall|s: usize| #[trigger] inputs_within(old(self)@, s) ==> inputs_within(final(self)@, s),
            kinds_kept(old(self)@, final(self)@),
            id == old(self)@.nodes.len(),
            final(self)@.nodes.len() == old(self)@.nodes.len() + 1,
    {
        self.add_node(one(up), Operation::Consolidate(Consolidate { inner: up }), None, false, depth)
    }

    /// Adds a source over a node and its first receiver, and returns the
    /// receiver.
    pub fn add_split(&mut self, up: usize, depth: usize) -> (id: usize)
        requires
            old(self).wf(),
        ensures
            final(self)@ == with_split(old(self)@, up, depth),
            final(self).wf(),
            forall|s: usize| #[trigger] inputs_within(old(self)@, s) ==> inputs_within(final(self)@, s),
            kinds_kept(old(self)@, final(self)@),
            id == old(self)@.nodes.len() + 1,
            final(self)@.nodes.len() == old(self)@.nodes.len() + 2,
    {
        let source = self.add_node(one(up), Operation::Source(Source::new(up)), None, true, depth);
        self.add_node(
            one(source),
            Operation::Receiver(Receiver { source, listener: 0 }),
            None,
            true,
            depth,
        )
    }

    pub fn add_arrangement(&mut self, from: usize, grouped: bool, depth: usize) -> (id: usize)
        requires
            old(self).wf(),
        ensures
            final(self)@ == with_arrangement(old(self)@, from, grouped, depth),
            final(self).wf(),
            forall|s: usize| #[trigger] inputs_within(old(self)@, s) ==> inputs_within(final(self)@, s),
            kinds_kept(old(self)@, final(self)@),
            id == old(self)@.nodes.len(),
            final(self)@.nodes.len() == old(self)@.nodes.len() + 1,
    {
        self.add_node(
            one(from),
            Operation::Arrangement(ArrangementInner::new(from, grouped)),
            None,
            true,
            depth,
        )
    }

    pub fn add_input_node(&mut self) -> (id: usize)
        requires
            old(self).wf(),
        ensures
            final(self)@ == with_new_input(old(self)@),
            final(self).wf(),
            forall|s: usize| #[trigger] inputs_within(old(self)@, s) ==> inputs_within(final(self)@, s),
            kinds_kept(old(self)@, final(self)@),
            id == old(self)@.nodes.len(),
            final(self)@.nodes.len() == old(self)@.nodes.len() + 1,
    {
        let id = self.make_node(Vec::new(), Operation::Input(InputInner::new()), 0);
        self.add_input(id, id);
        id
    }
}

} // verus!
