//! Relations: the handles that the host program composes the graph with.

use crate::builder::{
    with_antijoin, with_barrier, with_concat, with_consolidate, with_dynamic, with_flat_map,
    with_join, with_reduce, with_split, with_triangles,
};
use crate::context::CreationContext;
use crate::function::{Function, MapFn, Reduction};
use crate::graph::{kinds_kept, GraphView};
use vstd::prelude::*;

verus! {

/// A relation: a node of the graph of a context. It is used up by the
/// operator that is put on top of it; only what comes out of a split can be
/// used more than once.
#[derive(Debug)]
pub struct Relation {
    pub context_id: usize,
    pub id: usize,
    pub depth: usize,
}

/// What a relation depends on.
#[derive(Debug)]
pub struct Dep {
    pub context_id: usize,
    pub node: usize,
}

/// The nodes of the given dependencies.
pub open spec fn dep_nodes(deps: Seq<Dep>) -> Seq<usize> {
    Seq::new(deps.len(), |j: int| deps[j].node)
}

/// The greater of two depths.
pub open spec fn deeper(a: usize, b: usize) -> usize {
    if a < b {
        b
    } else {
        a
    }
}

/// What putting an operator on top of relations comes to: the graph of the
/// context becomes the given one, and the new relation is the last node of
/// it.
pub open spec fn built<F: Function>(
    before: CreationContext<F>,
    after: CreationContext<F>,
    r: Relation,
    graph: GraphView<F>,
    depth: usize,
) -> bool {
    &&& after.context_id == before.context_id
    &&& after.graph() == graph
    &&& r == (Relation {
        context_id: before.context_id,
        id: (graph.nodes.len() - 1) as usize,
        depth,
    })
}

impl Relation {
    /// Whether the context has made this relation.
    pub open spec fn owned_by<F: Function>(self, ctx: CreationContext<F>) -> bool {
        ctx.owns(self.context_id, self.id)
    }

    /// Whether the context has made this relation.
    pub fn check<F: Function>(&self, ctx: &CreationContext<F>) -> (b: bool)
        ensures
            b == self.owned_by(*ctx),
    {
        self.context_id == ctx.context_id && self.id < ctx.node_maker.graph.len()
    }

    /// A relation on top of the given ones, with the given operator. All of
    /// them have to be relations of the context, and an input has to be one
    /// that was not written to.
    pub fn new<F: Function>(
        ctx: &mut CreationContext<F>,
        deps: Vec<Dep>,
        inner: crate::node::Operation<F>,
        depth: usize,
    ) -> (r: Relation)
        requires
            old(ctx).wf(),
            inner.wf(),
            inner@ is Input ==> inner@->Input_0.adding_step == 0,
            forall|j: int|
                0 <= j < deps@.len() ==> old(ctx).owns(
                    (#[trigger] deps@[j]).context_id,
                    deps@[j].node,
                ),
        ensures
            final(ctx).wf(),
            kinds_kept(old(ctx).graph(), final(ctx).graph()),
            built(
                *old(ctx),
                *final(ctx),
                r,
                crate::maker::made(old(ctx).graph(), dep_nodes(deps@), inner@, depth),
                depth,
            ),
    {
        let mut nodes: Vec<usize> = Vec::new();
        let mut j: usize = 0;
        while j < deps.len()
            invariant
                0 <= j <= deps.len(),
                nodes@ == dep_nodes(deps@.take(j as int)),
            decreases deps.len() - j,
        {
            nodes.push(deps[j].node);
            proof {
                assert(dep_nodes(deps@.take(j as int + 1)) =~= dep_nodes(deps@.take(j as int)).push(
                    deps@[j as int].node,
                ));
            }
            j += 1;
        }
        proof {
            assert(deps@.take(deps.len() as int) =~= deps@);
        }
        let id = ctx.node_maker.make_node(nodes, inner, depth);
        Relation { context_id: ctx.context_id, id, depth }
    }

    pub fn dep(&self) -> (d: Dep)
        ensures
            d == (Dep { context_id: self.context_id, node: self.id }),
    {
        Dep { context_id: self.context_id, node: self.id }
    }

    /// Every record, with its weight, is replaced by the weighted records of
    /// the list that the function returns for the pair of them.
    pub fn flat_map_dr<F: Function>(self, ctx: &mut CreationContext<F>, f: F) -> (r: Relation)
        requires
            old(ctx).wf(),
            self.owned_by(*old(ctx)),
        ensures
            final(ctx).wf(),
            kinds_kept(old(ctx).graph(), final(ctx).graph()),
            built(
                *old(ctx),
                *final(ctx),
                r,
                with_flat_map(old(ctx).graph(), self.id, MapFn::Records(f), None, false, self.depth),
                self.depth,
            ),
    {
        let id = ctx.node_maker.graph.add_flat_map(self.id, MapFn::Records(f), None, false, self.depth);
        Relation { context_id: self.context_id, id, depth: self.depth }
    }

    /// What either relation holds.
    pub fn concat<F: Function>(self, ctx: &mut CreationContext<F>, other: Relation) -> (r: Relation)
        requires
            old(ctx).wf(),
            self.owned_by(*old(ctx)) && other.owned_by(*old(ctx)),
        ensures
            final(ctx).wf(),
            kinds_kept(old(ctx).graph(), final(ctx).graph()),
            built(
                *old(ctx),
                *final(ctx),
                r,
                with_concat(old(ctx).graph(), self.id, other.id, deeper(self.depth, other.depth)),
                deeper(self.depth, other.depth),
            ),
    {
        let depth = if self.depth < other.depth {
            other.depth
        } else {
            self.depth
        };
        let id = ctx.node_maker.graph.add_concat(self.id, other.id, depth);
        Relation { context_id: self.context_id, id, depth }
    }

    /// The relation with every batch added up before it is sent on.
    pub fn consolidate<F: Function>(self, ctx: &mut CreationContext<F>) -> (r: Relation)
        requires
            old(ctx).wf(),
            self.owned_by(*old(ctx)),
        ensures
            final(ctx).wf(),
            kinds_kept(old(ctx).graph(), final(ctx).graph()),
            built(
                *old(ctx),
                *final(ctx),
                r,
                with_consolidate(old(ctx).graph(), self.id, self.depth),
                self.depth,
            ),
    {
        let id = ctx.node_maker.graph.add_consolidate(self.id, self.depth);
        Relation { context_id: self.context_id, id, depth: self.depth }
    }

    /// The relation behind a gate that pulls it once per step, and only where
    /// an input above it was changed since.
    pub fn barrier<F: Function>(self, ctx: &mut CreationContext<F>) -> (r: Relation)
        requires
            old(ctx).wf(),
            self.owned_by(*old(ctx)),
        ensures
            final(ctx).wf(),
            kinds_kept(old(ctx).graph(), final(ctx).graph()),
            built(
                *old(ctx),
                *final(ctx),
                r,
                with_barrier(old(ctx).graph(), self.id, self.depth),
                self.depth,
            ),
    {
        let id = ctx.node_maker.graph.add_barrier(self.id, self.depth);
        Relation { context_id: self.context_id, id, depth: self.depth }
    }

    /// The relation without the kind of its operator.
    pub fn dynamic<F: Function>(self, ctx: &mut CreationContext<F>) -> (r: Relation)
        requires
            old(ctx).wf(),
            self.owned_by(*old(ctx)),
        ensures
            final(ctx).wf(),
            kinds_kept(old(ctx).graph(), final(ctx).graph()),
            built(
                *old(ctx),
                *final(ctx),
                r,
                with_dynamic(old(ctx).graph(), self.id, self.depth),
                self.depth,
            ),
    {
        let id = ctx.node_maker.graph.add_dynamic(self.id, self.depth);
        Relation { context_id: self.context_id, id, depth: self.depth }
    }

    /// A version of the relation that can be used in more than one place.
    pub fn split<F: Function>(self, ctx: &mut CreationContext<F>) -> (r: Relation)
        requires
            old(ctx).wf(),
            self.owned_by(*old(ctx)),
        ensures
            final(ctx).wf(),
            kinds_kept(old(ctx).graph(), final(ctx).graph()),
            built(
                *old(ctx),
                *final(ctx),
                r,
                with_split(old(ctx).graph(), self.id, self.depth),
                self.depth,
            ),
    {
        let id = ctx.node_maker.graph.add_split(self.id, self.depth);
        Relation { context_id: self.context_id, id, depth: self.depth }
    }

    /// Join on the first component: for every pair of a record `(k, x)` of
    /// this relation and a record `(k, y)` of the other, the record
    /// `(k, (x, y))`, weighted by the product.
    pub fn join<F: Function>(self, ctx: &mut CreationContext<F>, other: Relation) -> (r: Relation)
        requires
            old(ctx).wf(),
            self.owned_by(*old(ctx)) && other.owned_by(*old(ctx)),
        ensures
            final(ctx).wf(),
            kinds_kept(old(ctx).graph(), final(ctx).graph()),
            built(
                *old(ctx),
                *final(ctx),
                r,
                with_join(old(ctx).graph(), self.id, other.id, None, deeper(self.depth, other.depth)),
                deeper(self.depth, other.depth),
            ),
    {
        let depth = if self.depth < other.depth {
            other.depth
        } else {
            self.depth
        };
        let id = ctx.node_maker.graph.add_join(self.id, other.id, None, depth);
        Relation { context_id: self.context_id, id, depth }
    }

    /// The records `(k, x)` of this relation whose key `k` the other relation
    /// does not hold.
    pub fn antijoin<F: Function>(self, ctx: &mut CreationContext<F>, other: Relation) -> (r: Relation)
        requires
            old(ctx).wf(),
            self.owned_by(*old(ctx)) && other.owned_by(*old(ctx)),
        ensures
            final(ctx).wf(),
            kinds_kept(old(ctx).graph(), final(ctx).graph()),
            built(
                *old(ctx),
                *final(ctx),
                r,
                with_antijoin(
                    old(ctx).graph(),
                    self.id,
                    other.id,
                    None,
                    deeper(self.depth, other.depth),
                ),
                deeper(self.depth, other.depth),
            ),
    {
        let depth = if self.depth < other.depth {
            other.depth
        } else {
            self.depth
        };
        let id = ctx.node_maker.graph.add_antijoin(self.id, other.id, None, depth);
        Relation { context_id: self.context_id, id, depth }
    }

    /// The triangles of a graph in three parts: of this relation over
    /// `(x, y)`, one over `(x, z)` and one over `(y, z)`, the triples
    /// `(x, (y, z))`.
    pub fn triangles<F: Function>(
        self,
        ctx: &mut CreationContext<F>,
        r2: Relation,
        r3: Relation,
    ) -> (r: Relation)
        requires
            old(ctx).wf(),
            self.owned_by(*old(ctx)) && r2.owned_by(*old(ctx)) && r3.owned_by(*old(ctx)),
        ensures
            final(ctx).wf(),
            kinds_kept(old(ctx).graph(), final(ctx).graph()),
            built(
                *old(ctx),
                *final(ctx),
                r,
                with_triangles(old(ctx).graph(), self.id, r2.id, r3.id, self.depth),
                self.depth,
            ),
    {
        let id = ctx.node_maker.graph.add_triangles(self.id, r2.id, r3.id, self.depth);
        Relation { context_id: self.context_id, id, depth: self.depth }
    }

    /// For every key, the output that the function gives for the key's
    /// group: it gets the key paired with the list of the group's weighted
    /// records, and returns the list of the output's.
    pub fn reduce<F: Function>(self, ctx: &mut CreationContext<F>, proc: F) -> (r: Relation)
        requires
            old(ctx).wf(),
            self.owned_by(*old(ctx)),
        ensures
            final(ctx).wf(),
            kinds_kept(old(ctx).graph(), final(ctx).graph()),
            built(
                *old(ctx),
                *final(ctx),
                r,
                with_reduce(old(ctx).graph(), self.id, Reduction::Call(proc), None, false, self.depth),
                self.depth,
            ),
    {
        let id = ctx.node_maker.graph.add_reduce(self.id, Reduction::Call(proc), None, false, self.depth);
        Relation { context_id: self.context_id, id, depth: self.depth }
    }

    /// Gives the relation a name.
    pub fn named<F: Function>(self, ctx: &mut CreationContext<F>, name: &str) -> (r: Relation)
        requires
            old(ctx).wf(),
            self.owned_by(*old(ctx)),
        ensures
            final(ctx).wf(),
            kinds_kept(old(ctx).graph(), final(ctx).graph()),
            final(ctx).context_id == old(ctx).context_id,
            r == self,
            final(ctx).graph() == old(ctx).graph().named(self.id, name@),
    {
        ctx.node_maker.graph.set_name(self.id, name.to_owned());
        self
    }

    /// Gives the operator of the relation a name.
    pub fn op_named<F: Function>(self, ctx: &mut CreationContext<F>, name: &str) -> (r: Relation)
        requires
            old(ctx).wf(),
            self.owned_by(*old(ctx)),
        ensures
            final(ctx).wf(),
            kinds_kept(old(ctx).graph(), final(ctx).graph()),
            final(ctx).context_id == old(ctx).context_id,
            r == self,
            final(ctx).graph() == old(ctx).graph().op_named(self.id, name@),
    {
        ctx.node_maker.graph.set_op_name(self.id, name.to_owned());
        self
    }

    /// Whether the relation may be hidden in the context: the context has
    /// made it, its operator allows it, and it has one dependency.
    pub fn may_hide<F: Function>(&self, ctx: &CreationContext<F>) -> (b: bool)
        ensures
            b == (self.owned_by(*ctx) && ctx.graph().may_hide(self.id)),
    {
        self.check(ctx) && ctx.node_maker.graph.may_hide(self.id)
    }

    /// Hides the relation in a picture of the graph. Only a relation whose
    /// operator allows it, and that has one dependency, can be hidden.
    pub fn hidden<F: Function>(self, ctx: &mut CreationContext<F>) -> (r: Relation)
        requires
            old(ctx).wf(),
            self.owned_by(*old(ctx)),
            old(ctx).graph().may_hide(self.id),
        ensures
            final(ctx).wf(),
            kinds_kept(old(ctx).graph(), final(ctx).graph()),
            final(ctx).context_id == old(ctx).context_id,
            r == self,
            final(ctx).graph() == old(ctx).graph().with_shown(self.id, false),
    {
        ctx.node_maker.graph.set_shown(self.id, false);
        self
    }

    /// Shows the relation in a picture of the graph.
    pub fn shown<F: Function>(self, ctx: &mut CreationContext<F>) -> (r: Relation)
        requires
            old(ctx).wf(),
            self.owned_by(*old(ctx)),
        ensures
            final(ctx).wf(),
            kinds_kept(old(ctx).graph(), final(ctx).graph()),
            final(ctx).context_id == old(ctx).context_id,
            r == self,
            final(ctx).graph() == old(ctx).graph().with_shown(self.id, true),
    {
        ctx.node_maker.graph.set_shown(self.id, true);
        self
    }
}

} // verus!
