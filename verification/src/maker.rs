//! Building the graph: making nodes, and naming and hiding them.

use crate::function::Function;
use crate::graph::{
    inputs_within, kinds_kept, lemma_within_empty, lemma_within_grown, lemma_within_same, Graph, GraphView,
};
use crate::node::{default_name, InfoView, Node, NodeInfo, NodeView, Operation, OperationView};
use vstd::prelude::*;

verus! {

/// The sequence with one more element, unless it holds the element already.
pub open spec fn with_member(s: Seq<usize>, x: usize) -> Seq<usize> {
    if s.contains(x) {
        s
    } else {
        s.push(x)
    }
}

/// The sequence with the elements of another added, each once.
pub open spec fn with_members(s: Seq<usize>, more: Seq<usize>) -> Seq<usize>
    decreases more.len(),
{
    if more.len() == 0 {
        s
    } else {
        with_member(with_members(s, more.drop_last()), more.last())
    }
}

/// The inputs that can reach any of the given nodes, each once, in the order
/// in which they are met.
pub open spec fn union_inputs<F>(g: GraphView<F>, deps: Seq<usize>) -> Seq<usize>
    decreases deps.len(),
{
    if deps.len() == 0 {
        Seq::empty()
    } else {
        with_members(union_inputs(g, deps.drop_last()), g.inputs_of(deps.last()))
    }
}

/// What is known about a node when it is made.
pub open spec fn made_info<F>(g: GraphView<F>, deps: Seq<usize>, op: OperationView<F>, depth: usize) -> InfoView {
    InfoView {
        name: None,
        operator_name: default_name(op),
        shown: true,
        message_count: 0,
        relation_id: g.nodes.len() as usize,
        deps,
        hideable: !(op is Variable),
        inputs: union_inputs(g, deps),
        depth,
    }
}

/// The graph with one more node.
pub open spec fn made<F>(g: GraphView<F>, deps: Seq<usize>, op: OperationView<F>, depth: usize) -> GraphView<
    F,
> {
    GraphView {
        nodes: g.nodes.push(NodeView { info: made_info(g, deps, op, depth), inner: op }),
        fault: g.fault,
        round_limit: g.round_limit,
    }
}

/// The node that stands for a node in a picture of the graph: the node
/// itself where it is shown, else what stands for its one dependency.
pub open spec fn shown_ancestor<F>(g: GraphView<F>, id: usize) -> usize
    decreases id,
{
    if id < g.nodes.len() && !g.nodes[id as int].info.shown && g.nodes[id as int].info.deps.len()
        == 1 && g.nodes[id as int].info.deps[0] < id {
        shown_ancestor(g, g.nodes[id as int].info.deps[0])
    } else {
        id
    }
}

impl<F> GraphView<F> {
    /// The graph with what is known about a node replaced.
    pub open spec fn set_info(self, id: usize, info: InfoView) -> GraphView<F> {
        if id < self.nodes.len() {
            GraphView {
                nodes: self.nodes.update(
                    id as int,
                    NodeView { info, inner: self.nodes[id as int].inner },
                ),
                fault: self.fault,
                round_limit: self.round_limit,
            }
        } else {
            self
        }
    }

    /// The graph after the node that stands for the given one was named.
    pub open spec fn named(self, id: usize, name: Seq<char>) -> GraphView<F> {
        let at = shown_ancestor(self, id);
        if at < self.nodes.len() {
            self.set_info(at, InfoView { name: Some(name), ..self.nodes[at as int].info })
        } else {
            self
        }
    }

    /// The graph after the operator of the node that stands for the given one
    /// was named.
    pub open spec fn op_named(self, id: usize, name: Seq<char>) -> GraphView<F> {
        let at = shown_ancestor(self, id);
        if at < self.nodes.len() {
            self.set_info(at, InfoView { operator_name: name, ..self.nodes[at as int].info })
        } else {
            self
        }
    }

    /// The graph after a node was shown or hidden.
    pub open spec fn with_shown(self, id: usize, shown: bool) -> GraphView<F> {
        if id < self.nodes.len() {
            self.set_info(id, InfoView { shown, ..self.nodes[id as int].info })
        } else {
            self
        }
    }

    /// Whether a node may be hidden: its operator allows it, and it has one
    /// dependency.
    pub open spec fn may_hide(self, id: usize) -> bool {
        id < self.nodes.len() && self.nodes[id as int].info.hideable
            && self.nodes[id as int].info.deps.len() == 1
    }

    /// The graph with a source of changes added to those that reach a node.
    pub open spec fn with_input(self, id: usize, input: usize) -> GraphView<F> {
        if id < self.nodes.len() {
            self.set_info(
                id,
                InfoView {
                    inputs: with_member(self.nodes[id as int].info.inputs, input),
                    ..self.nodes[id as int].info
                },
            )
        } else {
            self
        }
    }

    /// The graph with a dependency added to a node.
    pub open spec fn with_dep(self, id: usize, dep: usize) -> GraphView<F> {
        if id < self.nodes.len() {
            self.set_info(
                id,
                InfoView {
                    deps: self.nodes[id as int].info.deps.push(dep),
                    ..self.nodes[id as int].info
                },
            )
        } else {
            self
        }
    }

    /// The number under which a node is shown: that of the node that stands
    /// for it.
    pub open spec fn shown_relation_id(self, id: usize) -> usize {
        let at = shown_ancestor(self, id);
        if at < self.nodes.len() {
            self.nodes[at as int].info.relation_id
        } else {
            0
        }
    }
}

/// Changing what is known about a node keeps every map as it is.
pub proof fn lemma_set_info_wf<F>(g: GraphView<F>, id: usize, info: InfoView)
    requires
        g.wf(),
    ensures
        g.set_info(id, info).wf(),
        g.set_info(id, info).nodes.len() == g.nodes.len(),
{
    let h = g.set_info(id, info);
    assert forall|i: int| 0 <= i < h.nodes.len() implies (#[trigger] h.nodes[i]).inner.wf() by {
        assert(h.nodes[i].inner == g.nodes[i].inner);
    }
}

/// Whether a sequence of numbers holds a number.
pub fn holds(v: &Vec<usize>, x: usize) -> (b: bool)
    ensures
        b == v@.contains(x),
{
    let mut i: usize = 0;
    while i < v.len()
        invariant
            0 <= i <= v.len(),
            forall|j: int| 0 <= j < i ==> v@[j] != x,
        decreases v.len() - i,
    {
        if v[i] == x {
            return true;
        }
        i += 1;
    }
    false
}

/// Adds the numbers of a sequence to another, each once.
pub fn add_members(into: &mut Vec<usize>, more: &Vec<usize>)
    ensures
        final(into)@ == with_members(old(into)@, more@),
{
    let mut i: usize = 0;
    while i < more.len()
        invariant
            0 <= i <= more.len(),
            into@ == with_members(old(into)@, more@.take(i as int)),
        decreases more.len() - i,
    {
        proof {
            assert(more@.take(i as int + 1).drop_last() =~= more@.take(i as int));
        }
        if !holds(into, more[i]) {
            into.push(more[i]);
        }
        i += 1;
    }
    proof {
        assert(more@.take(more.len() as int) =~= more@);
    }
}

impl<F: Function> Graph<F> {
    /// A copy of the numbers of a sequence.
    fn copy_ids(v: &Vec<usize>) -> (out: Vec<usize>)
        ensures
            out@ == v@,
    {
        let mut out: Vec<usize> = Vec::new();
        let mut i: usize = 0;
        while i < v.len()
            invariant
                0 <= i <= v.len(),
                out@ == v@.take(i as int),
            decreases v.len() - i,
        {
            out.push(v[i]);
            proof {
                assert(v@.take(i as int + 1) =~= v@.take(i as int).push(v@[i as int]));
            }
            i += 1;
        }
        proof {
            assert(v@.take(v.len() as int) =~= v@);
        }
        out
    }

    /// Adds a node for an operator that depends on the given nodes.
    pub fn make_node(&mut self, deps: Vec<usize>, inner: Operation<F>, depth: usize) -> (id: usize)
        requires
            old(self).wf(),
            inner.wf(),
        ensures
            final(self)@ == made(old(self)@, deps@, inner@, depth),
            final(self).wf(),
            forall|s: usize| #[trigger]
                inputs_within(old(self)@, s) && (inner@ is Input ==> inner@->Input_0.adding_step <= s)
                    ==> inputs_within(final(self)@, s),
            kinds_kept(old(self)@, final(self)@),
            id == old(self)@.nodes.len(),
    {
        let mut inputs: Vec<usize> = Vec::new();
        let mut i: usize = 0;
        while i < deps.len()
            invariant
                0 <= i <= deps.len(),
                inputs@ == union_inputs(self@, deps@.take(i as int)),
            decreases deps.len() - i,
        {
            proof {
                assert(deps@.take(i as int + 1).drop_last() =~= deps@.take(i as int));
            }
            let more = self.inputs_of(deps[i]);
            add_members(&mut inputs, &more);
            i += 1;
        }
        proof {
            assert(deps@.take(deps.len() as int) =~= deps@);
        }
        let id = self.nodes.len();
        let info = NodeInfo {
            name: None,
            operator_name: inner.default_op_name().to_owned(),
            shown: true,
            message_count: 0,
            relation_id: id,
            deps,
            hideable: inner.hideable(),
            inputs,
            depth,
        };
        let ghost g = self@;
        let ghost node = NodeView { info: info@, inner: inner@ };
        self.nodes.push(Node { info, inner });
        proof {
            assert(self@.nodes =~= g.nodes.push(node));
            assert forall|i: int| 0 <= i < self@.nodes.len() implies (
            #[trigger] self@.nodes[i]).inner.wf() by {
                if i < g.nodes.len() {
                    assert(self@.nodes[i] == g.nodes[i]);
                }
            }
            assert forall|s: usize| #[trigger]
                inputs_within(g, s) && (inner@ is Input ==> inner@->Input_0.adding_step
                    <= s) implies inputs_within(self@, s) by {
                assert forall|i: int| 0 <= i < g.nodes.len() implies (#[trigger] self@.nodes[i]).inner
                    == g.nodes[i].inner by {
                    assert(self@.nodes[i] == g.nodes[i]);
                }
                assert(self@.nodes[g.nodes.len() as int] == node);
                lemma_within_grown(g, self@, s);
            }
        }
        id
    }

    /// The node that stands for a node in a picture of the graph.
    pub fn shown_node(&self, id: usize) -> (at: usize)
        ensures
            at == shown_ancestor(self@, id),
    {
        let mut at = id;
        while at < self.nodes.len() && !self.nodes[at].info.shown && self.nodes[at].info.deps.len()
            == 1 && self.nodes[at].info.deps[0] < at
            invariant
                shown_ancestor(self@, at) == shown_ancestor(self@, id),
            decreases at,
        {
            at = self.nodes[at].info.deps[0];
        }
        at
    }

    /// The number under which a node is shown.
    pub fn shown_relation_id(&self, id: usize) -> (n: usize)
        ensures
            n == self@.shown_relation_id(id),
    {
        let at = self.shown_node(id);
        if at < self.nodes.len() {
            self.nodes[at].info.relation_id
        } else {
            0
        }
    }

    /// Names the node that stands for the given one.
    pub fn set_name(&mut self, id: usize, name: String)
        requires
            old(self).wf(),
        ensures
            final(self)@ == old(self)@.named(id, name@),
            final(self).wf(),
            forall|s: usize| #[trigger] inputs_within(old(self)@, s) ==> inputs_within(final(self)@, s),
            kinds_kept(old(self)@, final(self)@),
            final(self)@.nodes.len() == old(self)@.nodes.len(),
    {
        let at = self.shown_node(id);
        if at < self.nodes.len() {
            proof {
                lemma_set_info_wf(
                    self@,
                    at,
                    InfoView { name: Some(name@), ..self@.nodes[at as int].info },
                );
            }
            let mut held = Some(name);
            std::mem::swap(&mut self.nodes[at].info.name, &mut held);
            proof {
                assert(self@.nodes =~= old(self)@.named(id, name@).nodes);
            }
        }
        proof {
            assert forall|s: usize| #[trigger] inputs_within(old(self)@, s) implies inputs_within(
                self@,
                s,
            ) by {
                lemma_within_same(old(self)@, self@, s);
            }
        }
    }

    /// Names the operator of the node that stands for the given one.
    pub fn set_op_name(&mut self, id: usize, name: String)
        requires
            old(self).wf(),
        ensures
            final(self)@ == old(self)@.op_named(id, name@),
            final(self).wf(),
            forall|s: usize| #[trigger] inputs_within(old(self)@, s) ==> inputs_within(final(self)@, s),
            kinds_kept(old(self)@, final(self)@),
            final(self)@.nodes.len() == old(self)@.nodes.len(),
    {
        let at = self.shown_node(id);
        if at < self.nodes.len() {
            proof {
                lemma_set_info_wf(
                    self@,
                    at,
                    InfoView { operator_name: name@, ..self@.nodes[at as int].info },
                );
            }
            let mut held = name;
            std::mem::swap(&mut self.nodes[at].info.operator_name, &mut held);
            proof {
                assert(self@.nodes =~= old(self)@.op_named(id, name@).nodes);
            }
        }
        proof {
            assert forall|s: usize| #[trigger] inputs_within(old(self)@, s) implies inputs_within(
                self@,
                s,
            ) by {
                lemma_within_same(old(self)@, self@, s);
            }
        }
    }

    /// Shows or hides a node.
    pub fn set_shown(&mut self, id: usize, shown: bool)
        requires
            old(self).wf(),
        ensures
            final(self)@ == old(self)@.with_shown(id, shown),
            final(self).wf(),
            forall|s: usize| #[trigger] inputs_within(old(self)@, s) ==> inputs_within(final(self)@, s),
            kinds_kept(old(self)@, final(self)@),
            final(self)@.nodes.len() == old(self)@.nodes.len(),
    {
        if id < self.nodes.len() {
            proof {
                lemma_set_info_wf(self@, id, InfoView { shown, ..self@.nodes[id as int].info });
            }
            let mut held = shown;
            std::mem::swap(&mut self.nodes[id].info.shown, &mut held);
            proof {
                assert(self@.nodes =~= old(self)@.with_shown(id, shown).nodes);
            }
        }
        proof {
            assert forall|s: usize| #[trigger] inputs_within(old(self)@, s) implies inputs_within(
                self@,
                s,
            ) by {
                lemma_within_same(old(self)@, self@, s);
            }
        }
    }

    /// Whether a node may be hidden.
    pub fn may_hide(&self, id: usize) -> (b: bool)
        ensures
            b == self@.may_hide(id),
    {
        id < self.nodes.len() && self.nodes[id].info.hideable && self.nodes[id].info.deps.len() == 1
    }

    /// Adds a source of changes to those that reach a node.
    pub fn add_input(&mut self, id: usize, input: usize)
        requires
            old(self).wf(),
        ensures
            final(self)@ == old(self)@.with_input(id, input),
            final(self).wf(),
            forall|s: usize| #[trigger] inputs_within(old(self)@, s) ==> inputs_within(final(self)@, s),
            kinds_kept(old(self)@, final(self)@),
            final(self)@.nodes.len() == old(self)@.nodes.len(),
    {
        if id < self.nodes.len() {
            proof {
                lemma_set_info_wf(
                    self@,
                    id,
                    InfoView {
                        inputs: with_member(self@.nodes[id as int].info.inputs, input),
                        ..self@.nodes[id as int].info
                    },
                );
            }
            let mut held: Vec<usize> = Vec::new();
            std::mem::swap(&mut self.nodes[id].info.inputs, &mut held);
            if !holds(&held, input) {
                held.push(input);
            }
            std::mem::swap(&mut self.nodes[id].info.inputs, &mut held);
            proof {
                assert(self@.nodes =~= old(self)@.with_input(id, input).nodes);
            }
        }
        proof {
            assert forall|s: usize| #[trigger] inputs_within(old(self)@, s) implies inputs_within(
                self@,
                s,
            ) by {
                lemma_within_same(old(self)@, self@, s);
            }
        }
    }

    /// Adds a dependency to a node.
    pub fn add_dep(&mut self, id: usize, dep: usize)
        requires
            old(self).wf(),
        ensures
            final(self)@ == old(self)@.with_dep(id, dep),
            final(self).wf(),
            forall|s: usize| #[trigger] inputs_within(old(self)@, s) ==> inputs_within(final(self)@, s),
            kinds_kept(old(self)@, final(self)@),
            final(self)@.nodes.len() == old(self)@.nodes.len(),
    {
        if id < self.nodes.len() {
            proof {
                lemma_set_info_wf(
                    self@,
                    id,
                    InfoView {
                        deps: self@.nodes[id as int].info.deps.push(dep),
                        ..self@.nodes[id as int].info
                    },
                );
            }
            let mut held: Vec<usize> = Vec::new();
            std::mem::swap(&mut self.nodes[id].info.deps, &mut held);
            held.push(dep);
            std::mem::swap(&mut self.nodes[id].info.deps, &mut held);
            proof {
                assert(self@.nodes =~= old(self)@.with_dep(id, dep).nodes);
            }
        }
        proof {
            assert forall|s: usize| #[trigger] inputs_within(old(self)@, s) implies inputs_within(
                self@,
                s,
            ) by {
                lemma_within_same(old(self)@, self@, s);
            }
        }
    }
}

/// The maker of nodes: it holds the graph while it is being built.
pub struct NodeMaker<F> {
    pub graph: Graph<F>,
}

impl<F: Function> NodeMaker<F> {
    pub fn new() -> (m: Self)
        ensures
            m.graph@.nodes.len() == 0,
            m.graph@.fault.is_none(),
            m.graph@.round_limit == usize::MAX,
            m.graph.wf(),
            inputs_within(m.graph@, 0),
    {
        let m = NodeMaker { graph: Graph::new() };
        proof {
            lemma_within_empty(m.graph@, 0);
        }
        m
    }

    /// Adds a node for an operator that depends on the given nodes.
    pub fn make_node(&mut self, deps: Vec<usize>, inner: Operation<F>, depth: usize) -> (id: usize)
        requires
            old(self).graph.wf(),
            inner.wf(),
        ensures
            final(self).graph@ == made(old(self).graph@, deps@, inner@, depth),
            final(self).graph.wf(),
            forall|s: usize| #[trigger]
                inputs_within(old(self).graph@, s) && (inner@ is Input ==> inner@->Input_0.adding_step <= s)
                    ==> inputs_within(final(self).graph@, s),
            kinds_kept(old(self).graph@, final(self).graph@),
            id == old(self).graph@.nodes.len(),
    {
        self.graph.make_node(deps, inner, depth)
    }
}

} // verus!
