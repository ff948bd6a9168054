//! Recursive subgraphs as the host program builds them: a nested scope with
//! variables, which are set to relations of the scope, and from which
//! relations leave to the outside.

use crate::access::with_stepper;
use crate::builder::added;
use crate::context::CreationContext;
use crate::function::Function;
use crate::graph::{inputs_within, kinds_kept, Graph, GraphView};
use crate::maker::made;
use crate::node::{Operation, OperationView};
use crate::operator::subgraph::leave::Leave;
use crate::operator::subgraph::registrar::{RegistrarInner, RegistrarView};
use crate::operator::subgraph::simple_input::{SimpleInput, SimpleInputView};
use crate::relation::{built, Relation};
use vstd::prelude::*;

verus! {

/// What every context has: the id that its handles carry, and the depth at
/// which its relations are nested.
pub trait IsContext {
    spec fn context_id_spec(&self) -> usize;

    spec fn depth_spec(&self) -> usize;

    fn get_context_id(&self) -> (id: usize)
        ensures
            id == self.context_id_spec(),
    ;

    fn get_depth(&self) -> (d: usize)
        ensures
            d == self.depth_spec(),
    ;
}

impl<F: Function> IsContext for CreationContext<F> {
    open spec fn context_id_spec(&self) -> usize {
        self.context_id
    }

    open spec fn depth_spec(&self) -> usize {
        0
    }

    fn get_context_id(&self) -> (id: usize) {
        self.context_id
    }

    fn get_depth(&self) -> (d: usize) {
        0
    }
}

/// A subgraph while it is built.
#[derive(Debug)]
pub struct SubContext {
    pub context_id: usize,
    pub registrar: usize,
    pub depth: usize,
}

/// A subgraph that is complete: relations leave through it.
#[derive(Debug)]
pub struct Finalizer {
    pub context_id: usize,
    pub registrar: usize,
    pub depth: usize,
}

/// The write side of a variable: it is set once, to the relation whose
/// records are fed back.
#[derive(Debug)]
pub struct Variable {
    pub context_id: usize,
    pub node: usize,
    pub registrar: usize,
}

impl IsContext for SubContext {
    open spec fn context_id_spec(&self) -> usize {
        self.context_id
    }

    open spec fn depth_spec(&self) -> usize {
        self.depth
    }

    fn get_context_id(&self) -> (id: usize) {
        self.context_id
    }

    fn get_depth(&self) -> (d: usize) {
        self.depth
    }
}

/// The depth one level further in.
pub open spec fn inner_depth(depth: usize) -> usize {
    if depth == usize::MAX {
        depth
    } else {
        (depth + 1) as usize
    }
}

/// The graph with the registrar of a new subgraph.
pub open spec fn with_registrar<F>(g: GraphView<F>, depth: usize) -> GraphView<F> {
    made(g, Seq::empty(), OperationView::Registrar(RegistrarView::fresh()), depth)
}

/// The graph with a variable of a subgraph, which is its own source of
/// changes.
pub open spec fn with_variable<F>(g: GraphView<F>, registrar: usize, depth: usize) -> GraphView<F> {
    let id = g.nodes.len() as usize;
    made(g, seq![registrar], OperationView::Variable(SimpleInputView::fresh()), depth).with_input(
        id,
        id,
    )
}

/// The graph after a variable was set to a relation: both the variable and
/// the registrar depend on the relation, and the registrar has a stepper that
/// feeds the variable from it.
pub open spec fn with_variable_set<F>(g: GraphView<F>, var: usize, registrar: usize, rel: usize) -> GraphView<
    F,
> {
    with_stepper(g.with_dep(var, rel).with_dep(registrar, rel), registrar, var, rel)
}

/// The graph with a leave of a relation out of a subgraph.
pub open spec fn with_leave<F>(g: GraphView<F>, inner: usize, registrar: usize, depth: usize) -> GraphView<
    F,
> {
    added(
        g,
        seq![registrar, inner],
        OperationView::Leave(Leave { inner, registrar }),
        None,
        false,
        depth,
    )
}

/// Whether a node is the registrar of a subgraph that is shown.
pub open spec fn is_registrar<F>(g: GraphView<F>, id: usize) -> bool {
    id < g.nodes.len() && g.nodes[id as int].inner is Registrar && g.nodes[id as int].info.shown
}

impl<F: Function> Graph<F> {
    pub fn is_registrar(&self, id: usize) -> (b: bool)
        ensures
            b == is_registrar(self@, id),
    {
        self.is_kind(id, crate::access::Kind::Registrar) && self.nodes[id].info.shown
    }

    pub fn add_registrar(&mut self, depth: usize) -> (id: usize)
        requires
            old(self).wf(),
        ensures
            final(self)@ == with_registrar(old(self)@, depth),
            final(self).wf(),
            forall|s: usize| #[trigger] inputs_within(old(self)@, s) ==> inputs_within(final(self)@, s),
            kinds_kept(old(self)@, final(self)@),
            id == old(self)@.nodes.len(),
    {
        self.make_node(Vec::new(), Operation::Registrar(RegistrarInner::new()), depth)
    }

    pub fn add_variable(&mut self, registrar: usize, depth: usize) -> (id: usize)
        requires
            old(self).wf(),
        ensures
            final(self)@ == with_variable(old(self)@, registrar, depth),
            final(self).wf(),
            forall|s: usize| #[trigger] inputs_within(old(self)@, s) ==> inputs_within(final(self)@, s),
            kinds_kept(old(self)@, final(self)@),
            id == old(self)@.nodes.len(),
    {
        let id = self.make_node(
            crate::builder::one(registrar),
            Operation::Variable(SimpleInput::new()),
            depth,
        );
        self.add_input(id, id);
        id
    }

    pub fn set_variable(&mut self, var: usize, registrar: usize, rel: usize)
        requires
            old(self).wf(),
        ensures
            final(self)@ == with_variable_set(old(self)@, var, registrar, rel),
            final(self).wf(),
            forall|s: usize| #[trigger] inputs_within(old(self)@, s) ==> inputs_within(final(self)@, s),
            kinds_kept(old(self)@, final(self)@),
    {
        self.add_dep(var, rel);
        self.add_dep(registrar, rel);
        self.add_stepper(registrar, var, rel);
    }
}

impl<F: Function> CreationContext<F> {
    /// Opens a recursive subgraph. The records that a variable of the
    /// subgraph is set to carry a step value as their first component; what
    /// is fed back must be tiered by it, or the subgraph may not come to
    /// rest.
    pub fn subgraph(&mut self) -> (s: SubContext)
        requires
            old(self).wf(),
        ensures
            final(self).wf(),
            kinds_kept(old(self).graph(), final(self).graph()),
            final(self).context_id == old(self).context_id,
            final(self).graph() == with_registrar(old(self).graph(), 0),
            s == (SubContext {
                context_id: old(self).context_id,
                registrar: old(self).graph().nodes.len() as usize,
                depth: 1,
            }),
    {
        let registrar = self.node_maker.graph.add_registrar(0);
        SubContext { context_id: self.context_id, registrar, depth: 1 }
    }
}

impl SubContext {
    /// Whether the context has made this subgraph.
    pub open spec fn owned_by<F: Function>(self, ctx: CreationContext<F>) -> bool {
        self.context_id == ctx.context_id && is_registrar(ctx.graph(), self.registrar)
    }

    /// Whether the context has made this subgraph.
    pub fn check<F: Function>(&self, ctx: &CreationContext<F>) -> (b: bool)
        ensures
            b == self.owned_by(*ctx),
    {
        self.context_id == ctx.context_id && ctx.node_maker.graph.is_registrar(self.registrar)
    }

    /// Opens a subgraph inside this one.
    pub fn subgraph<F: Function>(&self, ctx: &mut CreationContext<F>) -> (s: SubContext)
        requires
            old(ctx).wf(),
            self.owned_by(*old(ctx)),
        ensures
            final(ctx).wf(),
            final(ctx).context_id == old(ctx).context_id,
            final(ctx).graph() == with_registrar(old(ctx).graph(), self.depth),
            s == (SubContext {
                context_id: self.context_id,
                registrar: old(ctx).graph().nodes.len() as usize,
                depth: inner_depth(self.depth),
            }),
    {
        let registrar = ctx.node_maker.graph.add_registrar(self.depth);
        SubContext {
            context_id: self.context_id,
            registrar,
            depth: if self.depth == usize::MAX {
                self.depth
            } else {
                self.depth + 1
            },
        }
    }

    /// Makes a variable: the handle to set it, and the relation that reads
    /// what is fed back.
    pub fn variable<F: Function>(&self, ctx: &mut CreationContext<F>) -> (p: (Variable, Relation))
        requires
            old(ctx).wf(),
            self.owned_by(*old(ctx)),
        ensures
            final(ctx).wf(),
            final(ctx).context_id == old(ctx).context_id,
            final(ctx).graph() == with_variable(old(ctx).graph(), self.registrar, self.depth),
            p.0 == (Variable {
                context_id: self.context_id,
                node: old(ctx).graph().nodes.len() as usize,
                registrar: self.registrar,
            }),
            p.1 == (Relation {
                context_id: self.context_id,
                id: old(ctx).graph().nodes.len() as usize,
                depth: self.depth,
            }),
    {
        let node = ctx.node_maker.graph.add_variable(self.registrar, self.depth);
        (
            Variable { context_id: self.context_id, node, registrar: self.registrar },
            Relation { context_id: self.context_id, id: node, depth: self.depth },
        )
    }

    /// Closes the subgraph.
    pub fn finish(self) -> (f: Finalizer)
        ensures
            f == (Finalizer {
                context_id: self.context_id,
                registrar: self.registrar,
                depth: if self.depth == 0 {
                    0
                } else {
                    (self.depth - 1) as usize
                },
            }),
    {
        Finalizer {
            context_id: self.context_id,
            registrar: self.registrar,
            depth: if self.depth == 0 {
                0
            } else {
                self.depth - 1
            },
        }
    }
}

impl Variable {
    /// Whether the context has made this variable, and its subgraph is
    /// shown.
    pub open spec fn owned_by<F: Function>(self, ctx: CreationContext<F>) -> bool {
        self.context_id == ctx.context_id && is_registrar(ctx.graph(), self.registrar)
            && ctx.graph().op(self.node).is_some() && ctx.graph().op(self.node).unwrap() is Variable
    }

    /// Whether the context has made this variable.
    pub fn check<F: Function>(&self, ctx: &CreationContext<F>) -> (b: bool)
        ensures
            b == self.owned_by(*ctx),
    {
        self.context_id == ctx.context_id && ctx.node_maker.graph.is_registrar(self.registrar)
            && ctx.node_maker.graph.is_kind(self.node, crate::access::Kind::Variable)
    }

    /// Sets the variable to a relation of its subgraph: in every round of
    /// the subgraph the relation is pulled, and the records of the least step
    /// value are fed back into the variable.
    pub fn set<F: Function>(self, ctx: &mut CreationContext<F>, rel: Relation)
        requires
            old(ctx).wf(),
            self.owned_by(*old(ctx)),
            rel.owned_by(*old(ctx)),
        ensures
            final(ctx).wf(),
            kinds_kept(old(ctx).graph(), final(ctx).graph()),
            final(ctx).context_id == old(ctx).context_id,
            final(ctx).graph() == with_variable_set(
                old(ctx).graph(),
                self.node,
                self.registrar,
                rel.id,
            ),
    {
        ctx.node_maker.graph.set_variable(self.node, self.registrar, rel.id);
    }
}

impl Finalizer {
    /// What a relation that leaves through the subgraph depends on: the
    /// registrar of the subgraph.
    pub fn dep(&self) -> (d: crate::relation::Dep)
        ensures
            d == (crate::relation::Dep { context_id: self.context_id, node: self.registrar }),
    {
        crate::relation::Dep { context_id: self.context_id, node: self.registrar }
    }

    /// Whether the context has made the subgraph.
    pub open spec fn owned_by<F: Function>(self, ctx: CreationContext<F>) -> bool {
        self.context_id == ctx.context_id && is_registrar(ctx.graph(), self.registrar)
    }

    /// Whether the context has made the subgraph.
    pub fn check<F: Function>(&self, ctx: &CreationContext<F>) -> (b: bool)
        ensures
            b == self.owned_by(*ctx),
    {
        self.context_id == ctx.context_id && ctx.node_maker.graph.is_registrar(self.registrar)
    }
}

impl Relation {
    /// The relation as it is seen outside its subgraph: when it is pulled,
    /// the subgraph first runs until nothing is fed back any more.
    pub fn leave<F: Function>(self, ctx: &mut CreationContext<F>, finalizer: &Finalizer) -> (r:
        Relation)
        requires
            old(ctx).wf(),
            self.owned_by(*old(ctx)),
            finalizer.owned_by(*old(ctx)),
        ensures
            final(ctx).wf(),
            kinds_kept(old(ctx).graph(), final(ctx).graph()),
            built(
                *old(ctx),
                *final(ctx),
                r,
                with_leave(old(ctx).graph(), self.id, finalizer.registrar, finalizer.depth),
                finalizer.depth,
            ),
    {
        let id = ctx.node_maker.graph.add_node(
            vec![finalizer.registrar, self.id],
            Operation::Leave(Leave { inner: self.id, registrar: finalizer.registrar }),
            None,
            false,
            finalizer.depth,
        );
        Relation { context_id: self.context_id, id, depth: finalizer.depth }
    }
}

} // verus!
