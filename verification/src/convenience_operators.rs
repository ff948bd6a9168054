//! Convenience operators: the common relational operators, each put
//! together from the operators of the core.

use crate::access::{listeners_of, with_listener};
use crate::builder::{
    added, with_antijoin, with_barrier, with_concat, with_dynamic, with_flat_map, with_join,
    with_reduce, with_split,
};
use crate::context::CreationContext;
use crate::function::{Function, MapFn, Reduction};
use crate::graph::{inputs_within, kinds_kept, Graph, GraphView};
use crate::node::{Operation, OperationView};
use crate::operator::split::Receiver;
use crate::relation::{built, deeper, Relation};
use vstd::prelude::*;

verus! {

/// The number that the next node of a graph gets.
pub open spec fn next_id<F>(g: GraphView<F>) -> usize {
    g.nodes.len() as usize
}

/// The graph with a hidden map node over a node.
pub open spec fn with_hmap<F>(g: GraphView<F>, up: usize, op: MapFn<F>, depth: usize) -> GraphView<F> {
    with_flat_map(g, up, op, Some("map"@), true, depth)
}

/// The graph with the records of a node that have a key in another: the
/// other node's records are paired with `Unit`, a join under the given name
/// follows, and `(k, (x, ()))` becomes `(k, x)` again.
pub open spec fn with_semijoin<F>(g: GraphView<F>, left: usize, right: usize, name: Seq<char>, depth: usize) -> GraphView<
    F,
> {
    let g1 = with_hmap(g, right, MapFn::WithUnit, depth);
    let g2 = with_join(g1, left, next_id(g), Some(name), depth);
    with_hmap(g2, next_id(g1), MapFn::SemiKey, depth)
}

/// The graph with a node that counts: the records are paired with `Unit`,
/// and a reduce gives for every record its weight, once.
pub open spec fn with_counts<F>(g: GraphView<F>, up: usize, depth: usize) -> GraphView<F> {
    let g1 = with_hmap(g, up, MapFn::WithUnit, depth);
    with_reduce(g1, next_id(g), Reduction::Count, Some("counts"@), false, depth)
}

/// The graph with the distinct records of a node: the records are paired
/// with `Unit`, a reduce gives `Unit` once for every record that is there, and
/// the `Unit` is dropped again.
pub open spec fn with_distinct<F>(g: GraphView<F>, up: usize, depth: usize) -> GraphView<F> {
    let g1 = with_hmap(g, up, MapFn::WithUnit, depth);
    let g2 = with_reduce(g1, next_id(g), Reduction::Distinct, Some("distinct"@), false, depth);
    with_hmap(g2, next_id(g1), MapFn::First, depth)
}

/// The graph with a node on top of a semijoin or antijoin of a node whose
/// records were first sent through a hidden map: the join is renamed, and a
/// second hidden map follows.
pub open spec fn with_keyed<F>(
    g: GraphView<F>,
    left: usize,
    right: usize,
    before: MapFn<F>,
    anti: bool,
    name: Seq<char>,
    after: MapFn<F>,
    depth: usize,
) -> GraphView<F> {
    let g1 = with_hmap(g, left, before, depth);
    let g2 = if anti {
        with_antijoin(g1, next_id(g), right, None, depth)
    } else {
        with_semijoin(g1, next_id(g), right, "semijoin"@, depth)
    };
    let top = (g2.nodes.len() - 1) as usize;
    with_hmap(g2.op_named(top, name), top, after, depth)
}

/// The graph with one more receiver at a source, made as a copy of the
/// receiver that has the given listener: the new receiver starts with a copy
/// of what waits for that one.
pub open spec fn with_clone<F>(g: GraphView<F>, source: usize, like: usize, depth: usize) -> GraphView<
    F,
> {
    added(
        with_listener(g, source, like),
        seq![source],
        OperationView::Receiver(
            Receiver { source, listener: listeners_of(g, source) as usize },
        ),
        None,
        true,
        depth,
    )
}

/// The graph with a histogram: both nodes are concatenated and counted, and
/// one is taken off every count.
pub open spec fn with_hist<F>(g: GraphView<F>, up: usize, keys: usize, depth: usize) -> GraphView<F> {
    let g1 = with_concat(g, up, keys, depth);
    let g2 = with_counts(g1, next_id(g), depth);
    with_hmap(g2, (g2.nodes.len() - 1) as usize, MapFn::Decrement, depth)
}

impl<F: Function> Graph<F> {
    pub fn add_hmap(&mut self, up: usize, op: MapFn<F>, depth: usize) -> (id: usize)
        requires
            old(self).wf(),
        ensures
            final(self)@ == with_hmap(old(self)@, up, op, depth),
            final(self).wf(),
            forall|s: usize| #[trigger] inputs_within(old(self)@, s) ==> inputs_within(final(self)@, s),
            kinds_kept(old(self)@, final(self)@),
            id == final(self)@.nodes.len() - 1,
            final(self)@.nodes.len() == old(self)@.nodes.len() + 1,
    {
        self.add_flat_map(up, op, Some("map"), true, depth)
    }

    pub fn add_semijoin(&mut self, left: usize, right: usize, name: &'static str, depth: usize) -> (id:
        usize)
        requires
            old(self).wf(),
        ensures
            final(self)@ == with_semijoin(old(self)@, left, right, name@, depth),
            final(self).wf(),
            forall|s: usize| #[trigger] inputs_within(old(self)@, s) ==> inputs_within(final(self)@, s),
            kinds_kept(old(self)@, final(self)@),
            id == final(self)@.nodes.len() - 1,
            final(self)@.nodes.len() == old(self)@.nodes.len() + 3,
    {
        let keyed = self.add_hmap(right, MapFn::WithUnit, depth);
        let joined = self.add_join(left, keyed, Some(name), depth);
        self.add_hmap(joined, MapFn::SemiKey, depth)
    }

    pub fn add_counts(&mut self, up: usize, depth: usize) -> (id: usize)
        requires
            old(self).wf(),
        ensures
            final(self)@ == with_counts(old(self)@, up, depth),
            final(self).wf(),
            forall|s: usize| #[trigger] inputs_within(old(self)@, s) ==> inputs_within(final(self)@, s),
            kinds_kept(old(self)@, final(self)@),
            id == final(self)@.nodes.len() - 1,
            final(self)@.nodes.len() == old(self)@.nodes.len() + 2,
    {
        let keyed = self.add_hmap(up, MapFn::WithUnit, depth);
        self.add_reduce(keyed, Reduction::Count, Some("counts"), false, depth)
    }

    pub fn add_distinct(&mut self, up: usize, depth: usize) -> (id: usize)
        requires
            old(self).wf(),
        ensures
            final(self)@ == with_distinct(old(self)@, up, depth),
            final(self).wf(),
            forall|s: usize| #[trigger] inputs_within(old(self)@, s) ==> inputs_within(final(self)@, s),
            kinds_kept(old(self)@, final(self)@),
            id == final(self)@.nodes.len() - 1,
            final(self)@.nodes.len() == old(self)@.nodes.len() + 3,
    {
        let keyed = self.add_hmap(up, MapFn::WithUnit, depth);
        let reduced = self.add_reduce(keyed, Reduction::Distinct, Some("distinct"), false, depth);
        self.add_hmap(reduced, MapFn::First, depth)
    }

    pub fn add_keyed(
        &mut self,
        left: usize,
        right: usize,
        before: MapFn<F>,
        anti: bool,
        name: &'static str,
        after: MapFn<F>,
        depth: usize,
    ) -> (id: usize)
        requires
            old(self).wf(),
        ensures
            final(self)@ == with_keyed(old(self)@, left, right, before, anti, name@, after, depth),
            final(self).wf(),
            forall|s: usize| #[trigger] inputs_within(old(self)@, s) ==> inputs_within(final(self)@, s),
            kinds_kept(old(self)@, final(self)@),
            id == final(self)@.nodes.len() - 1,
            final(self)@.nodes.len() > old(self)@.nodes.len(),
    {
        let keyed = self.add_hmap(left, before, depth);
        let top = if anti {
            self.add_antijoin(keyed, right, None, depth)
        } else {
            self.add_semijoin(keyed, right, "semijoin", depth)
        };
        self.set_op_name(top, name.to_owned());
        self.add_hmap(top, after, depth)
    }

    /// Adds a receiver at a source as a copy of the receiver that has the
    /// given listener.
    pub fn add_clone(&mut self, source: usize, like: usize, depth: usize) -> (id: usize)
        requires
            old(self).wf(),
        ensures
            final(self)@ == with_clone(old(self)@, source, like, depth),
            final(self).wf(),
            forall|s: usize| #[trigger] inputs_within(old(self)@, s) ==> inputs_within(final(self)@, s),
            kinds_kept(old(self)@, final(self)@),
            id == final(self)@.nodes.len() - 1,
            final(self)@.nodes.len() == old(self)@.nodes.len() + 1,
    {
        let fresh = self.add_listener(source, like);
        self.add_node(
            crate::builder::one(source),
            Operation::Receiver(Receiver { source, listener: fresh }),
            None,
            true,
            depth,
        )
    }

    pub fn add_hist(&mut self, up: usize, keys: usize, depth: usize) -> (id: usize)
        requires
            old(self).wf(),
        ensures
            final(self)@ == with_hist(old(self)@, up, keys, depth),
            final(self).wf(),
            forall|s: usize| #[trigger] inputs_within(old(self)@, s) ==> inputs_within(final(self)@, s),
            kinds_kept(old(self)@, final(self)@),
            id == final(self)@.nodes.len() - 1,
            final(self)@.nodes.len() > old(self)@.nodes.len(),
    {
        let both = self.add_concat(up, keys, depth);
        let counted = self.add_counts(both, depth);
        self.add_hmap(counted, MapFn::Decrement, depth)
    }
}

impl Relation {
    /// The relation behind a dynamic node and a split: it can be used in more
    /// than one place, whatever its operator is.
    pub fn collect<F: Function>(self, ctx: &mut CreationContext<F>) -> (r: Relation)
        requires
            old(ctx).wf(),
            self.owned_by(*old(ctx)),
        ensures
            final(ctx).wf(),
            kinds_kept(old(ctx).graph(), final(ctx).graph()),
            built(
                *old(ctx),
                *final(ctx),
                r,
                with_split(
                    with_dynamic(old(ctx).graph(), self.id, self.depth),
                    next_id(old(ctx).graph()),
                    self.depth,
                ),
                self.depth,
            ),
    {
        let id = ctx.node_maker.graph.add_dynamic(self.id, self.depth);
        let id = ctx.node_maker.graph.add_split(id, self.depth);
        Relation { context_id: self.context_id, id, depth: self.depth }
    }

    /// Every record is replaced by the elements of the list that the function
    /// returns for it, each with the weight of the record.
    pub fn flat_map<F: Function>(self, ctx: &mut CreationContext<F>, f: F) -> (r: Relation)
        requires
            old(ctx).wf(),
            self.owned_by(*old(ctx)),
        ensures
            final(ctx).wf(),
            kinds_kept(old(ctx).graph(), final(ctx).graph()),
            built(
                *old(ctx),
                *final(ctx),
                r,
                with_flat_map(old(ctx).graph(), self.id, MapFn::Flat(f), Some("flat_map"@), false, self.depth),
                self.depth,
            ),
    {
        let id = ctx.node_maker.graph.add_flat_map(self.id, MapFn::Flat(f), Some("flat_map"), false, self.depth);
        Relation { context_id: self.context_id, id, depth: self.depth }
    }

    /// Every record is replaced by what the function returns for it.
    pub fn map<F: Function>(self, ctx: &mut CreationContext<F>, f: F) -> (r: Relation)
        requires
            old(ctx).wf(),
            self.owned_by(*old(ctx)),
        ensures
            final(ctx).wf(),
            kinds_kept(old(ctx).graph(), final(ctx).graph()),
            built(
                *old(ctx),
                *final(ctx),
                r,
                with_flat_map(old(ctx).graph(), self.id, MapFn::Call(f), Some("map"@), false, self.depth),
                self.depth,
            ),
    {
        let id = ctx.node_maker.graph.add_flat_map(self.id, MapFn::Call(f), Some("map"), false, self.depth);
        Relation { context_id: self.context_id, id, depth: self.depth }
    }

    /// As `map`, hidden in a picture of the graph.
    pub fn hmap<F: Function>(self, ctx: &mut CreationContext<F>, f: F) -> (r: Relation)
        requires
            old(ctx).wf(),
            self.owned_by(*old(ctx)),
        ensures
            final(ctx).wf(),
            kinds_kept(old(ctx).graph(), final(ctx).graph()),
            built(
                *old(ctx),
                *final(ctx),
                r,
                with_hmap(old(ctx).graph(), self.id, MapFn::Call(f), self.depth),
                self.depth,
            ),
    {
        let id = ctx.node_maker.graph.add_hmap(self.id, MapFn::Call(f), self.depth);
        Relation { context_id: self.context_id, id, depth: self.depth }
    }

    /// The records for which the function returns `Bool(true)`.
    pub fn filter<F: Function>(self, ctx: &mut CreationContext<F>, f: F) -> (r: Relation)
        requires
            old(ctx).wf(),
            self.owned_by(*old(ctx)),
        ensures
            final(ctx).wf(),
            kinds_kept(old(ctx).graph(), final(ctx).graph()),
            built(
                *old(ctx),
                *final(ctx),
                r,
                with_flat_map(old(ctx).graph(), self.id, MapFn::Filter(f), Some("filter"@), false, self.depth),
                self.depth,
            ),
    {
        let id = ctx.node_maker.graph.add_flat_map(self.id, MapFn::Filter(f), Some("filter"), false, self.depth);
        Relation { context_id: self.context_id, id, depth: self.depth }
    }

    /// Every weight is replaced by the integer that the function returns for
    /// it.
    pub fn map_r<F: Function>(self, ctx: &mut CreationContext<F>, f: F) -> (r: Relation)
        requires
            old(ctx).wf(),
            self.owned_by(*old(ctx)),
        ensures
            final(ctx).wf(),
            kinds_kept(old(ctx).graph(), final(ctx).graph()),
            built(
                *old(ctx),
                *final(ctx),
                r,
                with_flat_map(old(ctx).graph(), self.id, MapFn::Weight(f), Some("map_r"@), false, self.depth),
                self.depth,
            ),
    {
        let id = ctx.node_maker.graph.add_flat_map(self.id, MapFn::Weight(f), Some("map_r"), false, self.depth);
        Relation { context_id: self.context_id, id, depth: self.depth }
    }

    /// Every weight is replaced by the one that cancels it.
    pub fn negate<F: Function>(self, ctx: &mut CreationContext<F>) -> (r: Relation)
        requires
            old(ctx).wf(),
            self.owned_by(*old(ctx)),
        ensures
            final(ctx).wf(),
            kinds_kept(old(ctx).graph(), final(ctx).graph()),
            built(
                *old(ctx),
                *final(ctx),
                r,
                with_flat_map(old(ctx).graph(), self.id, MapFn::Negate, Some("negate"@), false, self.depth),
                self.depth,
            ),
    {
        let id = ctx.node_maker.graph.add_flat_map(self.id, MapFn::Negate, Some("negate"), false, self.depth);
        Relation { context_id: self.context_id, id, depth: self.depth }
    }

    /// For every record its weight: the record `(x, n)` once, where `x` has
    /// weight `n`.
    pub fn counts<F: Function>(self, ctx: &mut CreationContext<F>) -> (r: Relation)
        requires
            old(ctx).wf(),
            self.owned_by(*old(ctx)),
        ensures
            final(ctx).wf(),
            kinds_kept(old(ctx).graph(), final(ctx).graph()),
            built(
                *old(ctx),
                *final(ctx),
                r,
                with_counts(old(ctx).graph(), self.id, self.depth),
                self.depth,
            ),
    {
        let id = ctx.node_maker.graph.add_counts(self.id, self.depth);
        Relation { context_id: self.context_id, id, depth: self.depth }
    }

    /// The relation behind a barrier, as it is used on the way into a
    /// subgraph.
    pub fn enter<F: Function>(self, ctx: &mut CreationContext<F>) -> (r: Relation)
        requires
            old(ctx).wf(),
            self.owned_by(*old(ctx)),
        ensures
            final(ctx).wf(),
            kinds_kept(old(ctx).graph(), final(ctx).graph()),
            built(
                *old(ctx),
                *final(ctx),
                r,
                with_barrier(old(ctx).graph(), self.id, self.depth),
                self.depth,
            ),
    {
        let id = ctx.node_maker.graph.add_barrier(self.id, self.depth);
        Relation { context_id: self.context_id, id, depth: self.depth }
    }

    /// Every record that the relation holds, once.
    pub fn distinct<F: Function>(self, ctx: &mut CreationContext<F>) -> (r: Relation)
        requires
            old(ctx).wf(),
            self.owned_by(*old(ctx)),
        ensures
            final(ctx).wf(),
            kinds_kept(old(ctx).graph(), final(ctx).graph()),
            built(
                *old(ctx),
                *final(ctx),
                r,
                with_distinct(old(ctx).graph(), self.id, self.depth),
                self.depth,
            ),
    {
        let id = ctx.node_maker.graph.add_distinct(self.id, self.depth);
        Relation { context_id: self.context_id, id, depth: self.depth }
    }

    /// For every key the least of its records, once.
    pub fn group_min<F: Function>(self, ctx: &mut CreationContext<F>) -> (r: Relation)
        requires
            old(ctx).wf(),
            self.owned_by(*old(ctx)),
        ensures
            final(ctx).wf(),
            kinds_kept(old(ctx).graph(), final(ctx).graph()),
            built(
                *old(ctx),
                *final(ctx),
                r,
                with_reduce(old(ctx).graph(), self.id, Reduction::Min, Some("group_min"@), false, self.depth),
                self.depth,
            ),
    {
        let id = ctx.node_maker.graph.add_reduce(self.id, Reduction::Min, Some("group_min"), false, self.depth);
        Relation { context_id: self.context_id, id, depth: self.depth }
    }

    /// For every key the greatest of its records, once.
    pub fn group_max<F: Function>(self, ctx: &mut CreationContext<F>) -> (r: Relation)
        requires
            old(ctx).wf(),
            self.owned_by(*old(ctx)),
        ensures
            final(ctx).wf(),
            kinds_kept(old(ctx).graph(), final(ctx).graph()),
            built(
                *old(ctx),
                *final(ctx),
                r,
                with_reduce(old(ctx).graph(), self.id, Reduction::Max, Some("group_max"@), false, self.depth),
                self.depth,
            ),
    {
        let id = ctx.node_maker.graph.add_reduce(self.id, Reduction::Max, Some("group_max"), false, self.depth);
        Relation { context_id: self.context_id, id, depth: self.depth }
    }

    /// The records `(k, x)` of this relation whose key `k` the other relation
    /// holds, weighted by the product.
    pub fn semijoin<F: Function>(self, ctx: &mut CreationContext<F>, other: Relation) -> (r: Relation)
        requires
            old(ctx).wf(),
            self.owned_by(*old(ctx)) && other.owned_by(*old(ctx)),
        ensures
            final(ctx).wf(),
            kinds_kept(old(ctx).graph(), final(ctx).graph()),
            built(
                *old(ctx),
                *final(ctx),
                r,
                with_semijoin(
                    old(ctx).graph(),
                    self.id,
                    other.id,
                    "semijoin"@,
                    deeper(self.depth, other.depth),
                ),
                deeper(self.depth, other.depth),
            ),
    {
        let depth = if self.depth < other.depth {
            other.depth
        } else {
            self.depth
        };
        let id = ctx.node_maker.graph.add_semijoin(self.id, other.id, "semijoin", depth);
        Relation { context_id: self.context_id, id, depth }
    }

    /// As `semijoin`, under its own name.
    pub fn semijoin_on_fst<F: Function>(self, ctx: &mut CreationContext<F>, other: Relation) -> (r: Relation)
        requires
            old(ctx).wf(),
            self.owned_by(*old(ctx)) && other.owned_by(*old(ctx)),
        ensures
            final(ctx).wf(),
            kinds_kept(old(ctx).graph(), final(ctx).graph()),
            built(
                *old(ctx),
                *final(ctx),
                r,
                with_semijoin(
                    old(ctx).graph(),
                    self.id,
                    other.id,
                    "semijoin_on_fst"@,
                    deeper(self.depth, other.depth),
                ),
                deeper(self.depth, other.depth),
            ),
    {
        let depth = if self.depth < other.depth {
            other.depth
        } else {
            self.depth
        };
        let id = ctx.node_maker.graph.add_semijoin(self.id, other.id, "semijoin_on_fst", depth);
        Relation { context_id: self.context_id, id, depth }
    }

    /// As `antijoin`, under its own name.
    pub fn antijoin_on_fst<F: Function>(self, ctx: &mut CreationContext<F>, other: Relation) -> (r: Relation)
        requires
            old(ctx).wf(),
            self.owned_by(*old(ctx)) && other.owned_by(*old(ctx)),
        ensures
            final(ctx).wf(),
            kinds_kept(old(ctx).graph(), final(ctx).graph()),
            built(
                *old(ctx),
                *final(ctx),
                r,
                with_antijoin(
                    old(ctx).graph(),
                    self.id,
                    other.id,
                    Some("antijoin_on_fst"@),
                    deeper(self.depth, other.depth),
                ),
                deeper(self.depth, other.depth),
            ),
    {
        let depth = if self.depth < other.depth {
            other.depth
        } else {
            self.depth
        };
        let id = ctx.node_maker.graph.add_antijoin(self.id, other.id, Some("antijoin_on_fst"), depth);
        Relation { context_id: self.context_id, id, depth }
    }

    /// The records whose key, which the function gives, the other relation
    /// holds.
    pub fn semijoin_on<F: Function>(self, ctx: &mut CreationContext<F>, other: Relation, f: F) -> (r: Relation)
        requires
            old(ctx).wf(),
            self.owned_by(*old(ctx)) && other.owned_by(*old(ctx)),
        ensures
            final(ctx).wf(),
            kinds_kept(old(ctx).graph(), final(ctx).graph()),
            built(
                *old(ctx),
                *final(ctx),
                r,
                with_keyed(
                    old(ctx).graph(),
                    self.id,
                    other.id,
                    MapFn::KeyBy(f),
                    false,
                    "semijoin_on"@,
                    MapFn::Second,
                    deeper(self.depth, other.depth),
                ),
                deeper(self.depth, other.depth),
            ),
    {
        let depth = if self.depth < other.depth {
            other.depth
        } else {
            self.depth
        };
        let id = ctx.node_maker.graph.add_keyed(self.id, other.id, MapFn::KeyBy(f), false, "semijoin_on", MapFn::Second, depth);
        Relation { context_id: self.context_id, id, depth }
    }

    /// The records whose key, which the function gives, the other relation
    /// does not hold.
    pub fn antijoin_on<F: Function>(self, ctx: &mut CreationContext<F>, other: Relation, f: F) -> (r: Relation)
        requires
            old(ctx).wf(),
            self.owned_by(*old(ctx)) && other.owned_by(*old(ctx)),
        ensures
            final(ctx).wf(),
            kinds_kept(old(ctx).graph(), final(ctx).graph()),
            built(
                *old(ctx),
                *final(ctx),
                r,
                with_keyed(
                    old(ctx).graph(),
                    self.id,
                    other.id,
                    MapFn::KeyBy(f),
                    true,
                    "antijoin_on"@,
                    MapFn::Second,
                    deeper(self.depth, other.depth),
                ),
                deeper(self.depth, other.depth),
            ),
    {
        let depth = if self.depth < other.depth {
            other.depth
        } else {
            self.depth
        };
        let id = ctx.node_maker.graph.add_keyed(self.id, other.id, MapFn::KeyBy(f), true, "antijoin_on", MapFn::Second, depth);
        Relation { context_id: self.context_id, id, depth }
    }

    /// The records that the other relation holds too.
    pub fn intersection<F: Function>(self, ctx: &mut CreationContext<F>, other: Relation) -> (r: Relation)
        requires
            old(ctx).wf(),
            self.owned_by(*old(ctx)) && other.owned_by(*old(ctx)),
        ensures
            final(ctx).wf(),
            kinds_kept(old(ctx).graph(), final(ctx).graph()),
            built(
                *old(ctx),
                *final(ctx),
                r,
                with_keyed(
                    old(ctx).graph(),
                    self.id,
                    other.id,
                    MapFn::WithUnit,
                    false,
                    "intersection"@,
                    MapFn::First,
                    deeper(self.depth, other.depth),
                ),
                deeper(self.depth, other.depth),
            ),
    {
        let depth = if self.depth < other.depth {
            other.depth
        } else {
            self.depth
        };
        let id = ctx.node_maker.graph.add_keyed(self.id, other.id, MapFn::WithUnit, false, "intersection", MapFn::First, depth);
        Relation { context_id: self.context_id, id, depth }
    }

    /// The records that the other relation does not hold.
    pub fn set_minus<F: Function>(self, ctx: &mut CreationContext<F>, other: Relation) -> (r: Relation)
        requires
            old(ctx).wf(),
            self.owned_by(*old(ctx)) && other.owned_by(*old(ctx)),
        ensures
            final(ctx).wf(),
            kinds_kept(old(ctx).graph(), final(ctx).graph()),
            built(
                *old(ctx),
                *final(ctx),
                r,
                with_keyed(
                    old(ctx).graph(),
                    self.id,
                    other.id,
                    MapFn::WithUnit,
                    true,
                    "set_minus"@,
                    MapFn::First,
                    deeper(self.depth, other.depth),
                ),
                deeper(self.depth, other.depth),
            ),
    {
        let depth = if self.depth < other.depth {
            other.depth
        } else {
            self.depth
        };
        let id = ctx.node_maker.graph.add_keyed(self.id, other.id, MapFn::WithUnit, true, "set_minus", MapFn::First, depth);
        Relation { context_id: self.context_id, id, depth }
    }

    /// The records `(x, k)` whose second component the other relation holds.
    pub fn semijoin_on_snd<F: Function>(self, ctx: &mut CreationContext<F>, other: Relation) -> (r: Relation)
        requires
            old(ctx).wf(),
            self.owned_by(*old(ctx)) && other.owned_by(*old(ctx)),
        ensures
            final(ctx).wf(),
            kinds_kept(old(ctx).graph(), final(ctx).graph()),
            built(
                *old(ctx),
                *final(ctx),
                r,
                with_keyed(
                    old(ctx).graph(),
                    self.id,
                    other.id,
                    MapFn::Swap,
                    false,
                    "semijoin_on_snd"@,
                    MapFn::Swap,
                    deeper(self.depth, other.depth),
                ),
                deeper(self.depth, other.depth),
            ),
    {
        let depth = if self.depth < other.depth {
            other.depth
        } else {
            self.depth
        };
        let id = ctx.node_maker.graph.add_keyed(self.id, other.id, MapFn::Swap, false, "semijoin_on_snd", MapFn::Swap, depth);
        Relation { context_id: self.context_id, id, depth }
    }

    /// The records `(x, k)` whose second component the other relation does not
    /// hold.
    pub fn antijoin_on_snd<F: Function>(self, ctx: &mut CreationContext<F>, other: Relation) -> (r: Relation)
        requires
            old(ctx).wf(),
            self.owned_by(*old(ctx)) && other.owned_by(*old(ctx)),
        ensures
            final(ctx).wf(),
            kinds_kept(old(ctx).graph(), final(ctx).graph()),
            built(
                *old(ctx),
                *final(ctx),
                r,
                with_keyed(
                    old(ctx).graph(),
                    self.id,
                    other.id,
                    MapFn::Swap,
                    true,
                    "antijoin_on_snd"@,
                    MapFn::Swap,
                    deeper(self.depth, other.depth),
                ),
                deeper(self.depth, other.depth),
            ),
    {
        let depth = if self.depth < other.depth {
            other.depth
        } else {
            self.depth
        };
        let id = ctx.node_maker.graph.add_keyed(self.id, other.id, MapFn::Swap, true, "antijoin_on_snd", MapFn::Swap, depth);
        Relation { context_id: self.context_id, id, depth }
    }

    /// For every record of either relation, how often this relation holds it:
    /// its count in both together, less one.
    pub fn hist_including<F: Function>(self, ctx: &mut CreationContext<F>, other: Relation) -> (r: Relation)
        requires
            old(ctx).wf(),
            self.owned_by(*old(ctx)) && other.owned_by(*old(ctx)),
        ensures
            final(ctx).wf(),
            kinds_kept(old(ctx).graph(), final(ctx).graph()),
            built(
                *old(ctx),
                *final(ctx),
                r,
                with_hist(old(ctx).graph(), self.id, other.id, deeper(self.depth, other.depth)),
                deeper(self.depth, other.depth),
            ),
    {
        let depth = if self.depth < other.depth {
            other.depth
        } else {
            self.depth
        };
        let id = ctx.node_maker.graph.add_hist(self.id, other.id, depth);
        Relation { context_id: self.context_id, id, depth }
    }

    /// Whether the relation came out of a split of the context, so that it
    /// can be used in more than one place.
    pub open spec fn is_split<F: Function>(self, ctx: CreationContext<F>) -> bool {
        self.owned_by(ctx) && ctx.graph().op(self.id).unwrap() is Receiver
    }

    /// Whether the relation came out of a split of the context.
    pub fn can_clone<F: Function>(&self, ctx: &CreationContext<F>) -> (b: bool)
        ensures
            b == self.is_split(*ctx),
    {
        self.check(ctx) && ctx.node_maker.graph.receiver_of(self.id).is_some()
    }

    /// One more handle of a relation that came out of a split. Each handle
    /// sees every record once; the new one starts with a copy of what waits
    /// for this one.
    pub fn clone<F: Function>(&self, ctx: &mut CreationContext<F>) -> (r: Relation)
        requires
            old(ctx).wf(),
            self.is_split(*old(ctx)),
        ensures
            final(ctx).wf(),
            kinds_kept(old(ctx).graph(), final(ctx).graph()),
            built(
                *old(ctx),
                *final(ctx),
                r,
                with_clone(
                    old(ctx).graph(),
                    old(ctx).graph().op(self.id).unwrap()->Receiver_0.source,
                    old(ctx).graph().op(self.id).unwrap()->Receiver_0.listener,
                    self.depth,
                ),
                self.depth,
            ),
    {
        let (source, listener) = match ctx.node_maker.graph.receiver_of(self.id) {
            Some(found) => found,
            None => (0, 0),
        };
        let id = ctx.node_maker.graph.add_clone(source, listener, self.depth);
        Relation { context_id: self.context_id, id, depth: self.depth }
    }

    /// For every record of the keys, how often this relation holds it. The
    /// keys are used twice, so they have to come out of a split.
    pub fn histogram<F: Function>(self, ctx: &mut CreationContext<F>, keys: Relation) -> (r: Relation)
        requires
            old(ctx).wf(),
            self.owned_by(*old(ctx)),
            keys.is_split(*old(ctx)),
        ensures
            final(ctx).wf(),
            kinds_kept(old(ctx).graph(), final(ctx).graph()),
            built(
                *old(ctx),
                *final(ctx),
                r,
                with_histogram(
                    old(ctx).graph(),
                    self.id,
                    keys.id,
                    old(ctx).graph().op(keys.id).unwrap()->Receiver_0.source,
                    old(ctx).graph().op(keys.id).unwrap()->Receiver_0.listener,
                    deeper(self.depth, keys.depth),
                ),
                deeper(self.depth, keys.depth),
            ),
    {
        let depth = if self.depth < keys.depth {
            keys.depth
        } else {
            self.depth
        };
        let (source, listener) = match ctx.node_maker.graph.receiver_of(keys.id) {
            Some(found) => found,
            None => (0, 0),
        };
        let second = ctx.node_maker.graph.add_clone(source, listener, depth);
        let common = ctx.node_maker.graph.add_keyed(
            self.id,
            second,
            MapFn::WithUnit,
            false,
            "intersection",
            MapFn::First,
            depth,
        );
        let id = ctx.node_maker.graph.add_hist(common, keys.id, depth);
        Relation { context_id: self.context_id, id, depth }
    }
}

/// The graph with a histogram over the keys: a second receiver of the keys
/// is intersected with the node, and the result is counted together with the
/// keys.
pub open spec fn with_histogram<F>(
    g: GraphView<F>,
    up: usize,
    keys: usize,
    source: usize,
    like: usize,
    depth: usize,
) -> GraphView<F> {
    let g1 = with_clone(g, source, like, depth);
    let g2 = with_keyed(g1, up, next_id(g), MapFn::WithUnit, false, "intersection"@, MapFn::First, depth);
    with_hist(g2, (g2.nodes.len() - 1) as usize, keys, depth)
}

/// What a copy of a receiver starts with. The source gets one more listener,
/// which starts with a copy of what waits for the receiver that is copied;
/// what waits for every other listener stays, and the new node is the
/// receiver of the new listener.
pub proof fn lemma_clone_copies_receiver<F>(g: GraphView<F>, of: usize, depth: usize)
    requires
        g.op(of).is_some(),
        g.op(of).unwrap() is Receiver,
        g.op(g.op(of).unwrap()->Receiver_0.source).is_some(),
        g.op(g.op(of).unwrap()->Receiver_0.source).unwrap() is Source,
    ensures
        ({
            let x = g.op(of).unwrap()->Receiver_0;
            let before = g.op(x.source).unwrap()->Source_0;
            let h = with_clone(g, x.source, x.listener, depth);
            let after = h.op(x.source).unwrap()->Source_0;
            &&& h.nodes.len() == g.nodes.len() + 1
            &&& h.op(x.source).unwrap() is Source
            &&& after.listeners.len() == before.listeners.len() + 1
            &&& after.listeners[before.listeners.len() as int] == before.waiting(x.listener)
            &&& forall|l: int|
                0 <= l < before.listeners.len() ==> #[trigger] after.listeners[l]
                    == before.listeners[l]
            &&& h.nodes[g.nodes.len() as int].inner == OperationView::<F>::Receiver(
                Receiver { source: x.source, listener: before.listeners.len() as usize },
            )
        }),
{
    let x = g.op(of).unwrap()->Receiver_0;
    let before = g.op(x.source).unwrap()->Source_0;
    let g1 = with_listener(g, x.source, x.listener);
    assert(g1.nodes[x.source as int].inner == OperationView::<F>::Source(
        before.with_listener(before.waiting(x.listener)),
    ));
    let fresh = OperationView::<F>::Receiver(
        Receiver { source: x.source, listener: listeners_of(g, x.source) as usize },
    );
    let g2 = crate::maker::made(g1, seq![x.source], fresh, depth);
    let h = with_clone(g, x.source, x.listener, depth);
    assert(g2.nodes[x.source as int] == g1.nodes[x.source as int]);
    assert(h.nodes[x.source as int].inner == g2.nodes[x.source as int].inner);
    assert(h.nodes[g.nodes.len() as int].inner == fresh);
}

} // verus!
