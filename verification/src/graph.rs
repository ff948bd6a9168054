//! The graph: all nodes of a context, and the pull that runs them. A reader
//! asks a node for what is new at a step; the node asks its upstream, and
//! only what changed flows.

use crate::arrangement::ArrangementView;
use crate::access::{kind_of, kind_of_op};
use crate::error::Error;
use crate::function::Function;
use crate::map::{add_all, Batch};
use crate::node::{Node, NodeView, Operation, OperationView};
use crate::operator::barrier::Barrier;
use crate::operator::dynamic::DynOp;
use crate::operator::join::{anti_flow, join_flow};
use crate::operator::map::flat_map_all;
use crate::operator::reduce::{reduce_breaks, reduce_flow};
use crate::operator::split::SourceView;
use crate::operator::subgraph::registrar::{least_key, RegistrarView};
use crate::operator::triangles::triangles_flow;
use crate::step::{appended, step_le, step_lt, Step};
use crate::value::Value;
use vstd::prelude::*;

verus! {

/// All nodes of a context, the first fault that a pull has met, and the
/// number of rounds that a subgraph may take when it runs.
pub struct Graph<F> {
    pub nodes: Vec<Node<F>>,
    pub fault: Option<Error>,
    pub round_limit: usize,
}

pub struct GraphView<F> {
    pub nodes: Seq<NodeView<F>>,
    pub fault: Option<Error>,
    pub round_limit: usize,
}

impl<F> View for Graph<F> {
    type V = GraphView<F>;

    open spec fn view(&self) -> GraphView<F> {
        GraphView {
            nodes: Seq::new(self.nodes@.len(), |i: int| self.nodes@[i]@),
            fault: self.fault,
            round_limit: self.round_limit,
        }
    }
}

impl<F> GraphView<F> {
    /// Every map of every node is well formed.
    pub open spec fn wf(self) -> bool {
        forall|i: int| 0 <= i < self.nodes.len() ==> (#[trigger] self.nodes[i]).inner.wf()
    }

    /// The operator of a node, none for a node that the graph does not have.
    pub open spec fn op(self, id: usize) -> Option<OperationView<F>> {
        if id < self.nodes.len() {
            Some(self.nodes[id as int].inner)
        } else {
            None
        }
    }

    /// The graph with the operator of a node replaced.
    pub open spec fn set_op(self, id: usize, op: OperationView<F>) -> GraphView<F> {
        if id < self.nodes.len() {
            GraphView {
                nodes: self.nodes.update(
                    id as int,
                    NodeView { info: self.nodes[id as int].info, inner: op },
                ),
                fault: self.fault,
                round_limit: self.round_limit,
            }
        } else {
            self
        }
    }

    /// The graph after a node sent so many more records.
    pub open spec fn counted(self, id: usize, n: nat) -> GraphView<F> {
        if id < self.nodes.len() {
            GraphView {
                nodes: self.nodes.update(
                    id as int,
                    NodeView {
                        info: self.nodes[id as int].info.counted(n),
                        inner: self.nodes[id as int].inner,
                    },
                ),
                fault: self.fault,
                round_limit: self.round_limit,
            }
        } else {
            self
        }
    }

    /// The graph after a fault; the first fault stays.
    pub open spec fn failed(self, e: Error) -> GraphView<F> {
        GraphView {
            nodes: self.nodes,
            fault: match self.fault {
                Some(first) => Some(first),
                None => Some(e),
            },
            round_limit: self.round_limit,
        }
    }

    /// The inputs that can reach a node.
    pub open spec fn inputs_of(self, id: usize) -> Seq<usize> {
        if id < self.nodes.len() {
            self.nodes[id as int].info.inputs
        } else {
            Seq::empty()
        }
    }
}

/// Whether a change that was last made during the given step, if any, is one
/// that somebody who last pulled at the earlier timestamp has not seen.
pub open spec fn changed_since(prev: Step, last: Option<usize>) -> bool {
    match last {
        Some(t) => step_le(prev, Step::Last(t)),
        None => false,
    }
}

/// The last timestamp at which a source of changes was changed, as it is
/// known at the given timestamp; none for a source that was never changed. An
/// input is first brought to the step of the context. Only inputs and
/// variables are sources of changes.
pub open spec fn latest_update<F>(g: GraphView<F>, i: usize, step: Step) -> (
    GraphView<F>,
    Option<Step>,
) {
    match g.op(i) {
        Some(OperationView::Input(v)) => if step.root_spec() < v.adding_step {
            (g.failed(Error::NotMonotone), None)
        } else {
            let r = v.resolved(step.root_spec());
            (
                g.set_op(i, OperationView::Input(r)),
                match r.pending_step {
                    Some(p) => Some(Step::Last(p)),
                    None => None,
                },
            )
        },
        Some(OperationView::Variable(v)) => (g, v.updated),
        _ => (g, None),
    }
}

/// Whether a node has to pull to get from a timestamp to a later one: whether
/// one of the given sources of changes was changed at the earlier timestamp or
/// after it. Every source is asked, so that every input among them is brought
/// to the step of the context.
pub open spec fn needs_update<F>(g: GraphView<F>, inputs: Seq<usize>, prev: Step, step: Step) -> (
    GraphView<F>,
    bool,
)
    decreases inputs.len(),
{
    if inputs.len() == 0 {
        (g, false)
    } else {
        let (g1, latest) = latest_update(g, inputs.first(), step);
        let (g2, rest) = needs_update(g1, inputs.drop_first(), prev, step);
        (g2, (latest.is_some() && step_le(prev, latest.unwrap())) || rest)
    }
}

/// What waits for a listener at a source, and the graph after it was taken.
pub open spec fn take_listener<F>(g: GraphView<F>, source: usize, listener: usize) -> (
    GraphView<F>,
    Seq<(Value, isize)>,
) {
    match g.op(source) {
        Some(OperationView::Source(s)) => (
            g.set_op(source, OperationView::Source(s.taken(listener))),
            s.waiting(listener),
        ),
        _ => (g, Seq::empty()),
    }
}

/// The graph after a batch was put into a variable at a timestamp.
pub open spec fn feed_variable<F>(g: GraphView<F>, var: usize, batch: Seq<(Value, isize)>, at: Step) -> GraphView<
    F,
> {
    match g.op(var) {
        Some(OperationView::Variable(v)) => g.set_op(var, OperationView::Variable(v.fed(batch, at))),
        _ => g,
    }
}

/// The graph after the steppers of a registrar, from the given one on, each
/// fed the bucket of a step value back into its variable.
pub open spec fn feed_all<F>(
    g: GraphView<F>,
    r: usize,
    key: Value,
    at: Step,
    idx: usize,
    remaining: nat,
) -> GraphView<F>
    decreases remaining,
{
    if remaining == 0 {
        g
    } else {
        match g.op(r) {
            Some(OperationView::Registrar(reg)) => if idx < reg.steppers.len() && idx < usize::MAX {
                let s = reg.steppers[idx as int];
                let g1 = g.set_op(
                    r,
                    OperationView::Registrar(
                        RegistrarView {
                            steppers: reg.steppers.update(idx as int, s.without(key)),
                            ..reg
                        },
                    ),
                );
                feed_all(
                    feed_variable(g1, s.input, s.popped(key), at),
                    r,
                    key,
                    at,
                    (idx + 1) as usize,
                    (remaining - 1) as nat,
                )
            } else {
                g
            },
            _ => g,
        }
    }
}

/// What a node sends on when it is asked at a timestamp, and the graph after
/// that. The fuel bounds how deep the pull may go: a pull that runs out of it
/// is a fault.
pub open spec fn flow<F: Function>(g: GraphView<F>, id: usize, step: Step, fuel: nat) -> (
    GraphView<F>,
    Seq<(Value, isize)>,
)
    decreases fuel, 0nat, 0nat,
{
    if fuel == 0 {
        (g.failed(Error::Divergence), Seq::empty())
    } else if id >= g.nodes.len() {
        (g, Seq::empty())
    } else {
        let (g1, out) = pull(g, id, step, (fuel - 1) as nat);
        (g1.counted(id, out.len()), out)
    }
}

/// The graph after the steppers of a registrar, from the given one on, each
/// pulled the relation of its variable and took in what came.
pub open spec fn steppers_flow<F: Function>(
    g: GraphView<F>,
    r: usize,
    at: Step,
    fuel: nat,
    idx: usize,
    remaining: nat,
) -> GraphView<F>
    decreases fuel, 1nat, remaining,
{
    if remaining == 0 {
        g
    } else {
        match g.op(r) {
            Some(OperationView::Registrar(reg)) => if idx < reg.steppers.len() && idx < usize::MAX {
                let (g1, batch) = flow(g, reg.steppers[idx as int].output, at, fuel);
                let g2 = match g1.op(r) {
                    Some(OperationView::Registrar(reg1)) => if idx < reg1.steppers.len() {
                        g1.set_op(
                            r,
                            OperationView::Registrar(
                                RegistrarView {
                                    steppers: reg1.steppers.update(
                                        idx as int,
                                        reg1.steppers[idx as int].after(batch),
                                    ),
                                    ..reg1
                                },
                            ),
                        )
                    } else {
                        g1
                    },
                    _ => g1,
                };
                steppers_flow(g2, r, at, fuel, (idx + 1) as usize, (remaining - 1) as nat)
            } else {
                g
            },
            _ => g,
        }
    }
}

/// The graph after the rounds of a subgraph. In each round the count of
/// rounds goes up, every stepper pulls, and the bucket of the least step
/// value is fed back; the rounds end when no stepper has a bucket. Running
/// out of rounds is a fault: what is fed back is then not tiered by its step
/// values.
pub open spec fn rounds<F: Function>(g: GraphView<F>, r: usize, step: Step, fuel: nat, budget: nat) -> GraphView<
    F,
>
    decreases fuel, 2nat, budget,
{
    match g.op(r) {
        Some(OperationView::Registrar(reg)) => if budget == 0 || reg.inner_step == usize::MAX {
            g.failed(Error::Divergence)
        } else {
            let round = (reg.inner_step + 1) as usize;
            let at = appended(step, round);
            let g1 = g.set_op(
                r,
                OperationView::Registrar(RegistrarView { inner_step: round, ..reg }),
            );
            let g2 = steppers_flow(g1, r, at, fuel, 0, reg.steppers.len());
            match g2.op(r) {
                Some(OperationView::Registrar(reg2)) => match least_key(reg2.steppers) {
                    Some(key) => rounds(
                        feed_all(g2, r, key, at, 0, reg2.steppers.len()),
                        r,
                        step,
                        fuel,
                        (budget - 1) as nat,
                    ),
                    None => g2,
                },
                _ => g2,
            }
        },
        _ => g,
    }
}

/// The graph after a subgraph ran at a step, which it does once per step.
pub open spec fn run_registrar<F: Function>(g: GraphView<F>, r: usize, step: Step, fuel: nat) -> GraphView<
    F,
>
    decreases fuel, 3nat, 0nat,
{
    match g.op(r) {
        Some(OperationView::Registrar(reg)) => if step_lt(reg.last, step) {
            rounds(
                g.set_op(r, OperationView::Registrar(RegistrarView { last: step, ..reg })),
                r,
                step,
                fuel,
                g.round_limit as nat,
            )
        } else {
            g
        },
        _ => g,
    }
}

/// The graph after a source was brought to a timestamp: where it has not
/// pulled at that timestamp and a change is due, it pulls its upstream and
/// puts what comes into the buffer of every listener.
pub open spec fn propagate<F: Function>(g: GraphView<F>, source: usize, step: Step, fuel: nat) -> GraphView<
    F,
>
    decreases fuel, 3nat, 0nat,
{
    match g.op(source) {
        Some(OperationView::Source(s)) => if step_lt(s.inner.step, step) {
            let (g1, need) = needs_update(g, g.inputs_of(s.inner.inner), s.inner.step, step);
            if need {
                let g2 = g1.set_op(
                    source,
                    OperationView::Source(
                        SourceView {
                            inner: Barrier { inner: s.inner.inner, step },
                            listeners: s.listeners,
                        },
                    ),
                );
                let (g3, batch) = flow(g2, s.inner.inner, step, fuel);
                match g3.op(source) {
                    Some(OperationView::Source(s3)) => g3.set_op(
                        source,
                        OperationView::Source(s3.accepted(batch)),
                    ),
                    _ => g3,
                }
            } else {
                g1
            }
        } else {
            g
        },
        _ => g,
    }
}

/// The graph after an arrangement was brought to a timestamp: where it is
/// behind the timestamp and a change is due, it pulls its relation and adds
/// what comes to its map.
pub open spec fn refresh<F: Function>(g: GraphView<F>, id: usize, step: Step, fuel: nat) -> GraphView<
    F,
>
    decreases fuel, 3nat, 0nat,
{
    match g.op(id) {
        Some(OperationView::Arrangement(a)) => if !step_lt(a.step, step) {
            g
        } else {
            let (g1, need) = needs_update(g, g.inputs_of(a.from), a.step, step);
            if need {
                let g2 = g1.set_op(
                    id,
                    OperationView::Arrangement(ArrangementView { step, ..a }),
                );
                let (g3, batch) = flow(g2, a.from, step, fuel);
                match g3.op(id) {
                    Some(OperationView::Arrangement(a3)) => g3.set_op(
                        id,
                        OperationView::Arrangement(a3.after(batch)),
                    ),
                    _ => g3,
                }
            } else {
                g1
            }
        },
        _ => g,
    }
}

/// What a barrier sends on: what its upstream sends, where a change is due.
pub open spec fn pull_barrier<F: Function>(g: GraphView<F>, id: usize, step: Step, fuel: nat) -> (
    GraphView<F>,
    Seq<(Value, isize)>,
)
    decreases fuel, 4nat, 0nat,
{
    match g.op(id) {
        Some(OperationView::Barrier(b)) => {
            let (g1, need) = needs_update(g, g.inputs_of(b.inner), b.step, step);
            if need {
                flow(
                    g1.set_op(id, OperationView::Barrier(Barrier { inner: b.inner, step })),
                    b.inner,
                    step,
                    fuel,
                )
            } else {
                (g1, Seq::empty())
            }
        },
        _ => (g, Seq::empty()),
    }
}

/// What an operator with two upstreams sends on: it pulls both, the first
/// first, and takes a step with what came.
pub open spec fn pull_binary<F: Function>(g: GraphView<F>, id: usize, step: Step, fuel: nat) -> (
    GraphView<F>,
    Seq<(Value, isize)>,
)
    decreases fuel, 4nat, 0nat,
{
    match g.op(id) {
        Some(OperationView::Concat(c)) => {
            let (g1, left) = flow(g, c.left, step, fuel);
            let (g2, right) = flow(g1, c.right, step, fuel);
            match g2.op(id) {
                Some(OperationView::Concat(_)) => (g2, left + right),
                _ => (g2, Seq::empty()),
            }
        },
        Some(OperationView::Join(j)) => {
            let (g1, left) = flow(g, j.left, step, fuel);
            let (g2, right) = flow(g1, j.right, step, fuel);
            match g2.op(id) {
                Some(OperationView::Join(j2)) => {
                    let (j3, out) = join_flow(j2, left, right);
                    (g2.set_op(id, OperationView::Join(j3)), out)
                },
                _ => (g2, Seq::empty()),
            }
        },
        Some(OperationView::AntiJoin(j)) => {
            let (g1, right) = flow(g, j.right, step, fuel);
            let (g2, left) = flow(g1, j.left, step, fuel);
            match g2.op(id) {
                Some(OperationView::AntiJoin(j2)) => {
                    let (j3, out) = anti_flow(j2, right, left);
                    (g2.set_op(id, OperationView::AntiJoin(j3)), out)
                },
                _ => (g2, Seq::empty()),
            }
        },
        _ => (g, Seq::empty()),
    }
}

/// What a triangle join sends on: it pulls its three sides and takes a step
/// with what came.
pub open spec fn pull_triangles<F: Function>(g: GraphView<F>, id: usize, step: Step, fuel: nat) -> (
    GraphView<F>,
    Seq<(Value, isize)>,
)
    decreases fuel, 4nat, 0nat,
{
    match g.op(id) {
        Some(OperationView::Triangles(t)) => {
            let (g1, bxy) = flow(g, t.mxy.inner, step, fuel);
            let (g2, bxz) = flow(g1, t.mxz.inner, step, fuel);
            let (g3, byz) = flow(g2, t.myz.inner, step, fuel);
            match g3.op(id) {
                Some(OperationView::Triangles(t3)) => {
                    let (t4, out) = triangles_flow(t3, bxy, bxz, byz);
                    (g3.set_op(id, OperationView::Triangles(t4)), out)
                },
                _ => (g3, Seq::empty()),
            }
        },
        _ => (g, Seq::empty()),
    }
}

/// The upstream of an operator that has one.
pub open spec fn upstream_of<F>(op: OperationView<F>) -> Option<usize> {
    match op {
        OperationView::FlatMap(m) => Some(m.inner),
        OperationView::Consolidate(c) => Some(c.inner),
        OperationView::Dynamic(d) => Some(d.inner),
        OperationView::Reduce(r) => Some(r.inner),
        _ => None,
    }
}

/// What an operator with one upstream sends on: it pulls, and takes a step
/// with what came. A batch that leaves a reduce with a group that breaks its
/// reduction is a fault of the graph.
pub open spec fn pull_unary<F: Function>(g: GraphView<F>, id: usize, step: Step, fuel: nat) -> (
    GraphView<F>,
    Seq<(Value, isize)>,
)
    decreases fuel, 4nat, 0nat,
{
    match g.op(id) {
        Some(op) => match upstream_of(op) {
            Some(up) => {
                let (g1, batch) = flow(g, up, step, fuel);
                match g1.op(id) {
                    Some(OperationView::FlatMap(m)) => (g1, flat_map_all(m.op, batch)),
                    Some(OperationView::Consolidate(_)) => (g1, add_all(Seq::empty(), batch)),
                    Some(OperationView::Dynamic(_)) => (g1, batch),
                    Some(OperationView::Reduce(r1)) => {
                        let (r2, out) = reduce_flow(r1, batch);
                        let g2 = g1.set_op(id, OperationView::Reduce(r2));
                        if reduce_breaks(r1, batch) {
                            (g2.failed(Error::ReducerContract), out)
                        } else {
                            (g2, out)
                        }
                    },
                    _ => (g1, Seq::empty()),
                }
            },
            None => (g, Seq::empty()),
        },
        None => (g, Seq::empty()),
    }
}

/// What a node that reads a buffer sends on: an input what waits at the step
/// of the context, a variable what was fed back, a receiver what its source
/// has put aside for it, after the source was brought to the timestamp.
pub open spec fn pull_buffer<F: Function>(g: GraphView<F>, id: usize, step: Step, fuel: nat) -> (
    GraphView<F>,
    Seq<(Value, isize)>,
)
    decreases fuel, 4nat, 0nat,
{
    match g.op(id) {
        Some(OperationView::Input(v)) => if step.root_spec() < v.adding_step {
            (g.failed(Error::NotMonotone), Seq::empty())
        } else {
            (
                g.set_op(id, OperationView::Input(v.drained(step.root_spec()))),
                v.resolved(step.root_spec()).pending,
            )
        },
        Some(OperationView::Variable(v)) => (
            g.set_op(id, OperationView::Variable(v.drained())),
            v.pending,
        ),
        Some(OperationView::Receiver(r)) => take_listener(
            propagate(g, r.source, step, fuel),
            r.source,
            r.listener,
        ),
        _ => (g, Seq::empty()),
    }
}

/// The count of rounds of a subgraph.
pub open spec fn inner_step_of<F>(g: GraphView<F>, r: usize) -> usize {
    match g.op(r) {
        Some(OperationView::Registrar(reg)) => reg.inner_step,
        _ => 0,
    }
}

/// What a node of a subgraph's border sends on. A leave lets the subgraph
/// run, and then pulls its relation at the timestamp of the subgraph's last
/// round. A registrar lets the subgraph run and sends nothing; an arrangement
/// is brought to the timestamp and sends nothing; a source sends nothing.
pub open spec fn pull_scope<F: Function>(g: GraphView<F>, id: usize, step: Step, fuel: nat) -> (
    GraphView<F>,
    Seq<(Value, isize)>,
)
    decreases fuel, 4nat, 0nat,
{
    match g.op(id) {
        Some(OperationView::Leave(l)) => {
            let g1 = run_registrar(g, l.registrar, step, fuel);
            flow(g1, l.inner, appended(step, inner_step_of(g1, l.registrar)), fuel)
        },
        Some(OperationView::Registrar(_)) => (run_registrar(g, id, step, fuel), Seq::empty()),
        Some(OperationView::Arrangement(_)) => (refresh(g, id, step, fuel), Seq::empty()),
        _ => (g, Seq::empty()),
    }
}

/// What a node sends on, by the kind of its operator.
pub open spec fn pull<F: Function>(g: GraphView<F>, id: usize, step: Step, fuel: nat) -> (
    GraphView<F>,
    Seq<(Value, isize)>,
)
    decreases fuel, 5nat, 0nat,
{
    match g.op(id) {
        Some(OperationView::Input(_)) | Some(OperationView::Variable(_)) | Some(
            OperationView::Receiver(_),
        ) => pull_buffer(g, id, step, fuel),
        Some(OperationView::FlatMap(_)) | Some(OperationView::Consolidate(_)) | Some(
            OperationView::Dynamic(_),
        ) | Some(OperationView::Reduce(_)) => pull_unary(g, id, step, fuel),
        Some(OperationView::Concat(_)) | Some(OperationView::Join(_)) | Some(
            OperationView::AntiJoin(_),
        ) => pull_binary(g, id, step, fuel),
        Some(OperationView::Triangles(_)) => pull_triangles(g, id, step, fuel),
        Some(OperationView::Barrier(_)) => pull_barrier(g, id, step, fuel),
        Some(OperationView::Leave(_)) | Some(OperationView::Registrar(_)) | Some(
            OperationView::Arrangement(_),
        ) => pull_scope(g, id, step, fuel),
        Some(OperationView::Source(_)) => (g, Seq::empty()),
        None => (g, Seq::empty()),
    }
}

/// The fuel that lets a pull go as deep as the graph has nodes: a pull that
/// needs more goes in a circle.
pub open spec fn full_fuel<F>(g: GraphView<F>) -> usize {
    if g.nodes.len() + 1 > usize::MAX {
        usize::MAX
    } else {
        (g.nodes.len() + 1) as usize
    }
}

/// Replacing the operator of a node twice is replacing it once.
pub proof fn lemma_set_twice<F>(g: GraphView<F>, id: usize, a: OperationView<F>, b: OperationView<F>)
    ensures
        g.set_op(id, a).set_op(id, b) == g.set_op(id, b),
{
    if id < g.nodes.len() {
        assert(g.set_op(id, a).set_op(id, b).nodes =~= g.set_op(id, b).nodes);
    }
}

/// Replacing the operator of a node by itself changes nothing.
pub proof fn lemma_set_same<F>(g: GraphView<F>, id: usize)
    requires
        id < g.nodes.len(),
    ensures
        g.set_op(id, g.nodes[id as int].inner) == g,
{
    assert(g.set_op(id, g.nodes[id as int].inner).nodes =~= g.nodes);
}

/// Replacing the operator of a node by a well-formed one keeps the graph well
/// formed, and touches no other node.
pub proof fn lemma_set_op_wf<F>(g: GraphView<F>, id: usize, op: OperationView<F>)
    requires
        g.wf(),
        op.wf(),
    ensures
        g.set_op(id, op).wf(),
        g.set_op(id, op).nodes.len() == g.nodes.len(),
{
    let h = g.set_op(id, op);
    assert forall|i: int| 0 <= i < h.nodes.len() implies (#[trigger] h.nodes[i]).inner.wf() by {
        if i != id {
            assert(h.nodes[i] == g.nodes[i]);
        }
    }
}

/// Asking a source of changes touches nothing but inputs, and of those only
/// their buffers.
pub proof fn lemma_latest_update_frame<F>(g: GraphView<F>, i: usize, step: Step)
    requires
        g.wf(),
    ensures
        ({
            let g1 = latest_update(g, i, step).0;
            &&& g1.wf()
            &&& g1.nodes.len() == g.nodes.len()
            &&& forall|id: int|
                0 <= id < g.nodes.len() ==> (#[trigger] g1.nodes[id]).info == g.nodes[id].info
            &&& forall|id: int|
                0 <= id < g.nodes.len() && !(g.nodes[id].inner is Input) ==> (
                #[trigger] g1.nodes[id]) == g.nodes[id]
            &&& forall|id: int|
                0 <= id < g.nodes.len() && g.nodes[id].inner is Input ==> (
                #[trigger] g1.nodes[id]).inner is Input
        }),
{
    match g.op(i) {
        Some(OperationView::Input(v)) => {
            if !(step.root_spec() < v.adding_step) {
                crate::operator::input::lemma_resolved_wf(v, step.root_spec());
                lemma_set_op_wf(g, i, OperationView::Input(v.resolved(step.root_spec())));
            }
        },
        _ => {},
    }
}

/// Asking whether a change is due touches nothing but inputs, and of those
/// only their buffers.
pub proof fn lemma_needs_update_frame<F>(g: GraphView<F>, inputs: Seq<usize>, prev: Step, step: Step)
    requires
        g.wf(),
    ensures
        ({
            let g1 = needs_update(g, inputs, prev, step).0;
            &&& g1.wf()
            &&& g1.nodes.len() == g.nodes.len()
            &&& forall|id: int|
                0 <= id < g.nodes.len() ==> (#[trigger] g1.nodes[id]).info == g.nodes[id].info
            &&& forall|id: int|
                0 <= id < g.nodes.len() && !(g.nodes[id].inner is Input) ==> (
                #[trigger] g1.nodes[id]) == g.nodes[id]
            &&& forall|id: int|
                0 <= id < g.nodes.len() && g.nodes[id].inner is Input ==> (
                #[trigger] g1.nodes[id]).inner is Input
        }),
    decreases inputs.len(),
{
    if inputs.len() > 0 {
        lemma_latest_update_frame(g, inputs.first(), step);
        let (g1, latest) = latest_update(g, inputs.first(), step);
        lemma_needs_update_frame(g1, inputs.drop_first(), prev, step);
    }
}

/// A fault that the first graph has met is still the fault of the second.
pub open spec fn fault_kept<F>(g: GraphView<F>, h: GraphView<F>) -> bool {
    g.fault.is_some() ==> h.fault == g.fault
}

/// Every node that a handle can stand for is of the same kind in the second
/// graph as in the first.
pub open spec fn kinds_kept<F>(g: GraphView<F>, h: GraphView<F>) -> bool {
    forall|a: usize| kind_of(g, a).is_some() ==> #[trigger] kind_of(h, a) == kind_of(g, a)
}

/// No input of the graph has passed the step, and none was ever asked to go
/// back to a step that it had passed.
#[verifier::opaque]
pub open spec fn inputs_within<F>(g: GraphView<F>, s: usize) -> bool {
    &&& g.fault != Some(Error::NotMonotone)
    &&& forall|i: int|
        0 <= i < g.nodes.len() ==> match (#[trigger] g.nodes[i]).inner {
            OperationView::Input(v) => v.adding_step <= s,
            _ => true,
        }
}

/// An operator that is put in the place of a node's keeps the inputs within
/// the step, unless it is an input that has passed it.
pub proof fn lemma_within_set_op<F>(g: GraphView<F>, id: usize, op: OperationView<F>, s: usize)
    requires
        inputs_within(g, s),
        op is Input ==> op->Input_0.adding_step <= s,
    ensures
        inputs_within(g.set_op(id, op), s),
{
    reveal(inputs_within);
    let h = g.set_op(id, op);
    assert forall|i: int| 0 <= i < h.nodes.len() implies match (#[trigger] h.nodes[i]).inner {
        OperationView::Input(v) => v.adding_step <= s,
        _ => true,
    } by {
        if i != id {
            assert(h.nodes[i] == g.nodes[i]);
        }
    }
}

/// A graph with the same operators has its inputs within the same steps.
pub proof fn lemma_within_same<F>(g: GraphView<F>, h: GraphView<F>, s: usize)
    requires
        inputs_within(g, s),
        h.fault == g.fault,
        h.nodes.len() == g.nodes.len(),
        forall|i: int| 0 <= i < g.nodes.len() ==> (#[trigger] h.nodes[i]).inner == g.nodes[i].inner,
    ensures
        inputs_within(h, s),
{
    reveal(inputs_within);
    assert forall|i: int| 0 <= i < h.nodes.len() implies match (#[trigger] h.nodes[i]).inner {
        OperationView::Input(v) => v.adding_step <= s,
        _ => true,
    } by {
        assert(h.nodes[i].inner == g.nodes[i].inner);
    }
}

/// A graph that has the operators of another, and more nodes of which no
/// input has passed the step, has its inputs within the step.
pub proof fn lemma_within_grown<F>(g: GraphView<F>, h: GraphView<F>, s: usize)
    requires
        inputs_within(g, s),
        h.fault == g.fault,
        h.nodes.len() >= g.nodes.len(),
        forall|i: int| 0 <= i < g.nodes.len() ==> (#[trigger] h.nodes[i]).inner == g.nodes[i].inner,
        forall|i: int|
            g.nodes.len() <= i < h.nodes.len() ==> match (#[trigger] h.nodes[i]).inner {
                OperationView::Input(v) => v.adding_step <= s,
                _ => true,
            },
    ensures
        inputs_within(h, s),
{
    reveal(inputs_within);
    assert forall|i: int| 0 <= i < h.nodes.len() implies match (#[trigger] h.nodes[i]).inner {
        OperationView::Input(v) => v.adding_step <= s,
        _ => true,
    } by {
        if i < g.nodes.len() {
            assert(h.nodes[i].inner == g.nodes[i].inner);
        }
    }
}

/// A graph without nodes has its inputs within every step.
pub proof fn lemma_within_empty<F>(g: GraphView<F>, s: usize)
    requires
        g.nodes.len() == 0,
        g.fault.is_none(),
    ensures
        inputs_within(g, s),
{
    reveal(inputs_within);
}

/// An input of a graph whose inputs are within a step has not passed it.
pub proof fn lemma_within_at<F>(g: GraphView<F>, id: usize, s: usize)
    requires
        inputs_within(g, s),
        id < g.nodes.len(),
        g.nodes[id as int].inner is Input,
    ensures
        g.nodes[id as int].inner->Input_0.adding_step <= s,
{
    reveal(inputs_within);
}

/// The inputs of a graph that are within a step are within every later one.
pub proof fn lemma_within_later<F>(g: GraphView<F>, s: usize, t: usize)
    requires
        inputs_within(g, s),
        s <= t,
    ensures
        inputs_within(g, t),
{
    reveal(inputs_within);
}

impl<F: Function> Graph<F> {
    pub open spec fn wf(&self) -> bool {
        self@.wf()
    }

    pub fn new() -> (g: Self)
        ensures
            g@.nodes.len() == 0,
            g@.fault.is_none(),
            g@.round_limit == usize::MAX,
            g.wf(),
    {
        Graph { nodes: Vec::new(), fault: None, round_limit: usize::MAX }
    }

    pub fn len(&self) -> (n: usize)
        ensures
            n == self@.nodes.len(),
    {
        self.nodes.len()
    }

    /// Takes the operator of a node out, leaving a stand-in.
    pub fn take_op(&mut self, id: usize) -> (op: Operation<F>)
        requires
            id < old(self)@.nodes.len(),
            old(self).wf(),
        ensures
            op@ == old(self)@.nodes[id as int].inner,
            op.wf(),
            final(self)@ == old(self)@.set_op(id, OperationView::Dynamic(DynOp { inner: 0 })),
            final(self).wf(),
            forall|s: usize| #[trigger] inputs_within(old(self)@, s) ==> inputs_within(final(self)@, s),
            forall|a: usize| a != id ==> #[trigger] kind_of(final(self)@, a) == kind_of(old(self)@, a),
            kind_of(old(self)@, id) == kind_of_op(op@),
            final(self)@.nodes.len() == old(self)@.nodes.len(),
    {
        let mut held = Operation::Dynamic(DynOp { inner: 0 });
        proof {
            lemma_set_op_wf(self@, id, held@);
            assert(self@.nodes[id as int].inner.wf());
        }
        std::mem::swap(&mut self.nodes[id].inner, &mut held);
        proof {
            assert(self@.nodes =~= old(self)@.set_op(id, OperationView::Dynamic(DynOp { inner: 0 })).nodes);
            assert forall|s: usize| #[trigger] inputs_within(old(self)@, s) implies inputs_within(
                self@,
                s,
            ) by {
                lemma_within_set_op(old(self)@, id, OperationView::Dynamic(DynOp { inner: 0 }), s);
            }
        }
        held
    }

    /// Puts an operator in the place of a node's.
    pub fn put_op(&mut self, id: usize, op: Operation<F>)
        requires
            id < old(self)@.nodes.len(),
            old(self).wf(),
            op.wf(),
        ensures
            final(self)@ == old(self)@.set_op(id, op@),
            final(self).wf(),
            forall|a: usize| #[trigger]
                kind_of(final(self)@, a) == if a == id {
                    kind_of_op(op@)
                } else {
                    kind_of(old(self)@, a)
                },
            forall|s: usize| #[trigger]
                inputs_within(old(self)@, s) && (op@ is Input ==> op@->Input_0.adding_step <= s)
                    ==> inputs_within(final(self)@, s),
            final(self)@.nodes.len() == old(self)@.nodes.len(),
    {
        let mut held = op;
        proof {
            lemma_set_op_wf(self@, id, op@);
        }
        std::mem::swap(&mut self.nodes[id].inner, &mut held);
        proof {
            assert(self@.nodes =~= old(self)@.set_op(id, op@).nodes);
            assert forall|s: usize| #[trigger]
                inputs_within(old(self)@, s) && (op@ is Input ==> op@->Input_0.adding_step
                    <= s) implies inputs_within(self@, s) by {
                lemma_within_set_op(old(self)@, id, op@, s);
            }
        }
    }

    /// Counts the records that a node sent.
    fn count(&mut self, id: usize, n: usize)
        requires
            old(self).wf(),
        ensures
            final(self)@ == old(self)@.counted(id, n as nat),
            final(self).wf(),
            forall|a: usize| #[trigger] kind_of(final(self)@, a) == kind_of(old(self)@, a),
            forall|s: usize| #[trigger] inputs_within(old(self)@, s) ==> inputs_within(final(self)@, s),
            final(self)@.nodes.len() == old(self)@.nodes.len(),
    {
        if id < self.nodes.len() {
            let mut c = self.nodes[id].info.message_count.saturating_add(n);
            std::mem::swap(&mut self.nodes[id].info.message_count, &mut c);
            proof {
                assert(self@.nodes =~= old(self)@.counted(id, n as nat).nodes);
                assert forall|i: int| 0 <= i < self@.nodes.len() implies (
                #[trigger] self@.nodes[i]).inner.wf() by {
                    assert(self@.nodes[i].inner == old(self)@.nodes[i].inner);
                }
                assert forall|s: usize| #[trigger] inputs_within(old(self)@, s) implies inputs_within(
                    self@,
                    s,
                ) by {
                    lemma_within_same(old(self)@, self@, s);
                }
            }
        }
    }

    /// Records a fault, unless one was recorded before.
    pub fn fail(&mut self, e: Error)
        ensures
            final(self)@ == old(self)@.failed(e),
            final(self)@.nodes.len() == old(self)@.nodes.len(),
            forall|a: usize| #[trigger] kind_of(final(self)@, a) == kind_of(old(self)@, a),
            old(self).wf() ==> final(self).wf(),
            e != Error::NotMonotone ==> forall|s: usize| #[trigger]
                inputs_within(old(self)@, s) ==> inputs_within(final(self)@, s),
    {
        if self.fault.is_none() {
            self.fault = Some(e);
        }
        proof {
            if e != Error::NotMonotone {
                assert forall|s: usize| #[trigger]
                    inputs_within(old(self)@, s) implies inputs_within(self@, s) by {
                    reveal(inputs_within);
                }
            }
        }
    }

    /// A copy of the inputs that can reach a node.
    pub fn inputs_of(&self, id: usize) -> (r: Vec<usize>)
        ensures
            r@ == self@.inputs_of(id),
    {
        let mut out: Vec<usize> = Vec::new();
        if id < self.nodes.len() {
            let src = &self.nodes[id].info.inputs;
            let mut i: usize = 0;
            while i < src.len()
                invariant
                    0 <= i <= src.len(),
                    out@ == src@.take(i as int),
                decreases src.len() - i,
            {
                out.push(src[i]);
                proof {
                    assert(src@.take(i as int + 1) =~= src@.take(i as int).push(src@[i as int]));
                }
                i += 1;
            }
            proof {
                assert(src@.take(src.len() as int) =~= src@);
            }
        }
        out
    }

    /// The last timestamp at which a source of changes was changed.
    pub fn latest_update(&mut self, i: usize, step: &Step) -> (r: Option<Step>)
        requires
            old(self).wf(),
        ensures
            (final(self)@, r) == latest_update(old(self)@, i, *step),
            final(self).wf(),
            kinds_kept(old(self)@, final(self)@),
            fault_kept(old(self)@, final(self)@),
            inputs_within(old(self)@, step.root_spec()) ==> inputs_within(final(self)@, step.root_spec()),
            final(self)@.nodes.len() == old(self)@.nodes.len(),
    {
        if i >= self.nodes.len() {
            return None;
        }
        match &self.nodes[i].inner {
            Operation::Variable(v) => {
                return match &v.updated {
                    Some(s) => Some(s.clone()),
                    None => None,
                };
            },
            Operation::Input(_) => {},
            _ => {
                return None;
            },
        }
        let ghost g = self@;
        let op = self.take_op(i);
        match op {
            Operation::Input(mut inp) => {
                if step.root() < inp.adding_step {
                    proof {
                        if inputs_within(g, step.root_spec()) {
                            lemma_within_at(g, i, step.root_spec());
                        }
                    }
                    self.put_op(i, Operation::Input(inp));
                    proof {
                        lemma_set_twice(
                            g,
                            i,
                            OperationView::Dynamic(DynOp { inner: 0 }),
                            OperationView::Input(inp@),
                        );
                        lemma_set_same(g, i);
                    }
                    self.fail(Error::NotMonotone);
                    None
                } else {
                    let r = inp.latest_update(step.root());
                    self.put_op(i, Operation::Input(inp));
                    proof {
                        lemma_set_twice(
                            g,
                            i,
                            OperationView::Dynamic(DynOp { inner: 0 }),
                            OperationView::Input(inp@),
                        );
                    }
                    match r {
                        Some(p) => Some(Step::Last(p)),
                        None => None,
                    }
                }
            },
            other => {
                self.put_op(i, other);
                None
            },
        }
    }

    /// Whether a node has to pull to get from a timestamp to a later one.
    pub fn needs_update(&mut self, up: usize, prev: &Step, step: &Step) -> (b: bool)
        requires
            old(self).wf(),
        ensures
            (final(self)@, b) == needs_update(old(self)@, old(self)@.inputs_of(up), *prev, *step),
            final(self).wf(),
            kinds_kept(old(self)@, final(self)@),
            fault_kept(old(self)@, final(self)@),
            inputs_within(old(self)@, step.root_spec()) ==> inputs_within(final(self)@, step.root_spec()),
            final(self)@.nodes.len() == old(self)@.nodes.len(),
    {
        let inputs = self.inputs_of(up);
        let mut any = false;
        let mut i: usize = 0;
        proof {
            assert(inputs@.skip(0) =~= inputs@);
        }
        while i < inputs.len()
            invariant
                0 <= i <= inputs.len(),
                self.wf(),
                kinds_kept(old(self)@, self@),
                fault_kept(old(self)@, self@),
                inputs_within(old(self)@, step.root_spec()) ==> inputs_within(self@, step.root_spec()),
                self@.nodes.len() == old(self)@.nodes.len(),
                inputs@ == old(self)@.inputs_of(up),
                needs_update(old(self)@, inputs@, *prev, *step) == (
                    needs_update(self@, inputs@.skip(i as int), *prev, *step).0,
                    any || needs_update(self@, inputs@.skip(i as int), *prev, *step).1,
                ),
            decreases inputs.len() - i,
        {
            proof {
                assert(inputs@.skip(i as int).first() == inputs@[i as int]);
                assert(inputs@.skip(i as int).drop_first() =~= inputs@.skip(i as int + 1));
            }
            let latest = self.latest_update(inputs[i], step);
            match latest {
                Some(l) => {
                    if prev.not_after(&l) {
                        any = true;
                    }
                },
                None => {},
            }
            i += 1;
        }
        any
    }

    /// Drains the buffer that a source keeps for a listener.
    fn take_listener(&mut self, source: usize, listener: usize) -> (out: Batch)
        requires
            old(self).wf(),
        ensures
            (final(self)@, out@) == take_listener(old(self)@, source, listener),
            final(self).wf(),
            kinds_kept(old(self)@, final(self)@),
            fault_kept(old(self)@, final(self)@),
            forall|s: usize| #[trigger] inputs_within(old(self)@, s) ==> inputs_within(final(self)@, s),
            final(self)@.nodes.len() == old(self)@.nodes.len(),
    {
        if source >= self.nodes.len() {
            return Vec::new();
        }
        let ghost g = self@;
        let ghost ph = OperationView::<F>::Dynamic(DynOp { inner: 0 });
        let op = self.take_op(source);
        match op {
            Operation::Source(mut s) => {
                let out = s.take(listener);
                let ghost sv = s@;
                self.put_op(source, Operation::Source(s));
                proof {
                    lemma_set_twice(g, source, ph, OperationView::Source(sv));
                }
                out
            },
            other => {
                let ghost ov = other@;
                self.put_op(source, other);
                proof {
                    lemma_set_twice(g, source, ph, ov);
                    lemma_set_same(g, source);
                }
                Vec::new()
            },
        }
    }

    /// Puts a batch into a variable at a timestamp.
    fn feed_variable(&mut self, var: usize, batch: &Batch, at: &Step)
        requires
            old(self).wf(),
        ensures
            final(self)@ == feed_variable(old(self)@, var, batch@, *at),
            final(self).wf(),
            kinds_kept(old(self)@, final(self)@),
            fault_kept(old(self)@, final(self)@),
            forall|s: usize| #[trigger] inputs_within(old(self)@, s) ==> inputs_within(final(self)@, s),
            final(self)@.nodes.len() == old(self)@.nodes.len(),
    {
        if var >= self.nodes.len() {
            return ;
        }
        let ghost g = self@;
        let ghost ph = OperationView::<F>::Dynamic(DynOp { inner: 0 });
        let op = self.take_op(var);
        match op {
            Operation::Variable(mut v) => {
                v.feed(batch, at);
                let ghost vv = v@;
                self.put_op(var, Operation::Variable(v));
                proof {
                    lemma_set_twice(g, var, ph, OperationView::Variable(vv));
                }
            },
            other => {
                let ghost ov = other@;
                self.put_op(var, other);
                proof {
                    lemma_set_twice(g, var, ph, ov);
                    lemma_set_same(g, var);
                }
            },
        }
    }

    /// Lets every stepper of a registrar feed the bucket of a step value back
    /// into its variable.
    #[verifier::rlimit(80)]
    #[verifier::spinoff_prover]
    fn feed_all(&mut self, r: usize, key: &Value, at: &Step, n: usize)
        requires
            old(self).wf(),
        ensures
            final(self)@ == feed_all(old(self)@, r, *key, *at, 0, n as nat),
            final(self).wf(),
            kinds_kept(old(self)@, final(self)@),
            fault_kept(old(self)@, final(self)@),
            forall|s: usize| #[trigger] inputs_within(old(self)@, s) ==> inputs_within(final(self)@, s),
            final(self)@.nodes.len() == old(self)@.nodes.len(),
    {
        let mut idx: usize = 0;
        while idx < n
            invariant
                0 <= idx <= n,
                self.wf(),
                kinds_kept(old(self)@, self@),
                fault_kept(old(self)@, self@),
                forall|s: usize| #[trigger] inputs_within(old(self)@, s) ==> inputs_within(self@, s),
                self@.nodes.len() == old(self)@.nodes.len(),
                feed_all(old(self)@, r, *key, *at, 0, n as nat) == feed_all(
                    self@,
                    r,
                    *key,
                    *at,
                    idx,
                    (n - idx) as nat,
                ),
            decreases n - idx,
        {
            if r >= self.nodes.len() {
                return ;
            }
            let ghost g = self@;
            let ghost ph = OperationView::<F>::Dynamic(DynOp { inner: 0 });
            let op = self.take_op(r);
            match op {
                Operation::Registrar(mut reg) => {
                    if idx < reg.steppers.len() {
                        let ghost before = reg@;
                        proof {
                            assert(before.steppers[idx as int].wf());
                        }
                        let mut st = crate::operator::subgraph::stepper::Stepper::new(0, 0);
                        std::mem::swap(&mut reg.steppers[idx], &mut st);
                        let out = st.propagate(key);
                        let input = st.input;
                        std::mem::swap(&mut reg.steppers[idx], &mut st);
                        proof {
                            assert(reg@.steppers =~= before.steppers.update(
                                idx as int,
                                before.steppers[idx as int].without(*key),
                            ));
                            assert forall|i: int| 0 <= i < reg@.steppers.len() implies (
                            #[trigger] reg@.steppers[i]).wf() by {
                                if i != idx {
                                    assert(reg@.steppers[i] == before.steppers[i]);
                                }
                            }
                        }
                        let ghost rv = reg@;
                        self.put_op(r, Operation::Registrar(reg));
                        proof {
                            lemma_set_twice(g, r, ph, OperationView::Registrar(rv));
                        }
                        self.feed_variable(input, &out, at);
                    } else {
                        let ghost rv = reg@;
                        self.put_op(r, Operation::Registrar(reg));
                        proof {
                            lemma_set_twice(g, r, ph, OperationView::Registrar(rv));
                            lemma_set_same(g, r);
                        }
                        return ;
                    }
                },
                other => {
                    let ghost ov = other@;
                    self.put_op(r, other);
                    proof {
                        lemma_set_twice(g, r, ph, ov);
                        lemma_set_same(g, r);
                    }
                    return ;
                },
            }
            idx += 1;
        }
    }

    /// The fuel that lets a pull go as deep as the graph has nodes.
    pub fn fuel(&self) -> (f: usize)
        ensures
            f == full_fuel(self@),
    {
        self.nodes.len().saturating_add(1)
    }

    /// What a node sends on when it is asked at a timestamp.
    pub fn flow(&mut self, id: usize, step: &Step, fuel: usize) -> (out: Batch)
        requires
            old(self).wf(),
        ensures
            (final(self)@, out@) == flow(old(self)@, id, *step, fuel as nat),
            final(self).wf(),
            kinds_kept(old(self)@, final(self)@),
            fault_kept(old(self)@, final(self)@),
            inputs_within(old(self)@, step.root_spec()) ==> inputs_within(final(self)@, step.root_spec()),
            final(self)@.nodes.len() == old(self)@.nodes.len(),
        decreases fuel, 0nat, 0nat,
    {
        if fuel == 0 {
            self.fail(Error::Divergence);
            return Vec::new();
        }
        if id >= self.nodes.len() {
            return Vec::new();
        }
        let out = self.pull(id, step, fuel - 1);
        self.count(id, out.len());
        out
    }

    /// Lets every stepper of a registrar pull the relation of its variable.
    #[verifier::rlimit(80)]
    #[verifier::spinoff_prover]
    fn steppers_flow(&mut self, r: usize, at: &Step, fuel: usize, n: usize)
        requires
            old(self).wf(),
        ensures
            final(self)@ == steppers_flow(old(self)@, r, *at, fuel as nat, 0, n as nat),
            final(self).wf(),
            kinds_kept(old(self)@, final(self)@),
            fault_kept(old(self)@, final(self)@),
            inputs_within(old(self)@, at.root_spec()) ==> inputs_within(final(self)@, at.root_spec()),
            final(self)@.nodes.len() == old(self)@.nodes.len(),
        decreases fuel, 1nat, 0nat,
    {
        let mut idx: usize = 0;
        while idx < n
            invariant
                0 <= idx <= n,
                self.wf(),
                kinds_kept(old(self)@, self@),
                fault_kept(old(self)@, self@),
                inputs_within(old(self)@, at.root_spec()) ==> inputs_within(self@, at.root_spec()),
                self@.nodes.len() == old(self)@.nodes.len(),
                steppers_flow(old(self)@, r, *at, fuel as nat, 0, n as nat) == steppers_flow(
                    self@,
                    r,
                    *at,
                    fuel as nat,
                    idx,
                    (n - idx) as nat,
                ),
            decreases n - idx,
        {
            if r >= self.nodes.len() {
                return ;
            }
            let output = match &self.nodes[r].inner {
                Operation::Registrar(reg) => {
                    if idx < reg.steppers.len() {
                        Some(reg.steppers[idx].output)
                    } else {
                        None
                    }
                },
                _ => None,
            };
            match output {
                None => {
                    return ;
                },
                Some(output) => {
                    let batch = self.flow(output, at, fuel);
                    let ghost g = self@;
                    let ghost ph = OperationView::<F>::Dynamic(DynOp { inner: 0 });
                    let op = self.take_op(r);
                    match op {
                        Operation::Registrar(mut reg) => {
                            if idx < reg.steppers.len() {
                                let ghost before = reg@;
                                proof {
                                    assert(before.steppers[idx as int].wf());
                                }
                                let mut st = crate::operator::subgraph::stepper::Stepper::new(0, 0);
                                std::mem::swap(&mut reg.steppers[idx], &mut st);
                                st.flow(&batch);
                                std::mem::swap(&mut reg.steppers[idx], &mut st);
                                proof {
                                    assert(reg@.steppers =~= before.steppers.update(
                                        idx as int,
                                        before.steppers[idx as int].after(batch@),
                                    ));
                                    assert forall|i: int|
                                        0 <= i < reg@.steppers.len() implies (
                                    #[trigger] reg@.steppers[i]).wf() by {
                                        if i != idx {
                                            assert(reg@.steppers[i] == before.steppers[i]);
                                        }
                                    }
                                }
                                let ghost rv = reg@;
                                self.put_op(r, Operation::Registrar(reg));
                                proof {
                                    lemma_set_twice(g, r, ph, OperationView::Registrar(rv));
                                }
                            } else {
                                let ghost rv = reg@;
                                self.put_op(r, Operation::Registrar(reg));
                                proof {
                                    lemma_set_twice(g, r, ph, OperationView::Registrar(rv));
                                    lemma_set_same(g, r);
                                }
                            }
                        },
                        other => {
                            let ghost ov = other@;
                            self.put_op(r, other);
                            proof {
                                lemma_set_twice(g, r, ph, ov);
                                lemma_set_same(g, r);
                            }
                        },
                    }
                },
            }
            idx += 1;
        }
    }

    /// Runs the rounds of a subgraph.
    #[verifier::rlimit(80)]
    #[verifier::spinoff_prover]
    fn rounds(&mut self, r: usize, step: &Step, fuel: usize)
        requires
            old(self).wf(),
        ensures
            final(self)@ == rounds(old(self)@, r, *step, fuel as nat, old(self)@.round_limit as nat),
            final(self).wf(),
            kinds_kept(old(self)@, final(self)@),
            fault_kept(old(self)@, final(self)@),
            inputs_within(old(self)@, step.root_spec()) ==> inputs_within(final(self)@, step.root_spec()),
            final(self)@.nodes.len() == old(self)@.nodes.len(),
        decreases fuel, 2nat, 0nat,
    {
        let mut budget: usize = self.round_limit;
        loop
            invariant
                self.wf(),
                kinds_kept(old(self)@, self@),
                fault_kept(old(self)@, self@),
                inputs_within(old(self)@, step.root_spec()) ==> inputs_within(self@, step.root_spec()),
                self@.nodes.len() == old(self)@.nodes.len(),
                rounds(old(self)@, r, *step, fuel as nat, old(self)@.round_limit as nat) == rounds(
                    self@,
                    r,
                    *step,
                    fuel as nat,
                    budget as nat,
                ),
            decreases budget,
        {
            if r >= self.nodes.len() {
                return ;
            }
            let state = match &self.nodes[r].inner {
                Operation::Registrar(reg) => Some((reg.inner_step, reg.steppers.len())),
                _ => None,
            };
            let (inner_step, n) = match state {
                None => {
                    return ;
                },
                Some(p) => p,
            };
            if budget == 0 || inner_step == usize::MAX {
                self.fail(Error::Divergence);
                return ;
            }
            let round = inner_step + 1;
            let at = step.append(round);
            let ghost g = self@;
            let ghost ph = OperationView::<F>::Dynamic(DynOp { inner: 0 });
            let op = self.take_op(r);
            match op {
                Operation::Registrar(mut reg) => {
                    reg.inner_step = round;
                    let ghost rv = reg@;
                    self.put_op(r, Operation::Registrar(reg));
                    proof {
                        lemma_set_twice(g, r, ph, OperationView::Registrar(rv));
                    }
                },
                other => {
                    let ghost ov = other@;
                    self.put_op(r, other);
                    proof {
                        lemma_set_twice(g, r, ph, ov);
                        lemma_set_same(g, r);
                    }
                },
            }
            self.steppers_flow(r, &at, fuel, n);
            let found = match &self.nodes[r].inner {
                Operation::Registrar(reg2) => Some((reg2.min_key(), reg2.steppers.len())),
                _ => None,
            };
            match found {
                Some((Some(key), n2)) => {
                    self.feed_all(r, &key, &at, n2);
                    budget = budget - 1;
                },
                _ => {
                    return ;
                },
            }
        }
    }

    /// Lets a subgraph run at a step, which it does once per step.
    #[verifier::rlimit(80)]
    #[verifier::spinoff_prover]
    fn run_registrar(&mut self, r: usize, step: &Step, fuel: usize)
        requires
            old(self).wf(),
        ensures
            final(self)@ == run_registrar(old(self)@, r, *step, fuel as nat),
            final(self).wf(),
            kinds_kept(old(self)@, final(self)@),
            fault_kept(old(self)@, final(self)@),
            inputs_within(old(self)@, step.root_spec()) ==> inputs_within(final(self)@, step.root_spec()),
            final(self)@.nodes.len() == old(self)@.nodes.len(),
        decreases fuel, 3nat, 0nat,
    {
        if r >= self.nodes.len() {
            return ;
        }
        let due = match &self.nodes[r].inner {
            Operation::Registrar(reg) => reg.last.before(step),
            _ => false,
        };
        if due {
            let ghost g = self@;
            let ghost ph = OperationView::<F>::Dynamic(DynOp { inner: 0 });
            let op = self.take_op(r);
            match op {
                Operation::Registrar(mut reg) => {
                    reg.last = step.clone();
                    let ghost rv = reg@;
                    self.put_op(r, Operation::Registrar(reg));
                    proof {
                        lemma_set_twice(g, r, ph, OperationView::Registrar(rv));
                    }
                },
                other => {
                    let ghost ov = other@;
                    self.put_op(r, other);
                    proof {
                        lemma_set_twice(g, r, ph, ov);
                        lemma_set_same(g, r);
                    }
                },
            }
            self.rounds(r, step, fuel);
        }
    }

    /// Brings a source to a timestamp.
    #[verifier::rlimit(80)]
    #[verifier::spinoff_prover]
    pub fn propagate(&mut self, source: usize, step: &Step, fuel: usize)
        requires
            old(self).wf(),
        ensures
            final(self)@ == propagate(old(self)@, source, *step, fuel as nat),
            final(self).wf(),
            kinds_kept(old(self)@, final(self)@),
            fault_kept(old(self)@, final(self)@),
            inputs_within(old(self)@, step.root_spec()) ==> inputs_within(final(self)@, step.root_spec()),
            final(self)@.nodes.len() == old(self)@.nodes.len(),
        decreases fuel, 3nat, 0nat,
    {
        if source >= self.nodes.len() {
            return ;
        }
        let gate = match &self.nodes[source].inner {
            Operation::Source(s) => Some((s.inner.inner, s.inner.step.clone())),
            _ => None,
        };
        let (up, last) = match gate {
            None => {
                return ;
            },
            Some(p) => p,
        };
        if !last.before(step) {
            return ;
        }
        let ghost g0 = self@;
        let need = self.needs_update(up, &last, step);
        proof {
            lemma_needs_update_frame(g0, g0.inputs_of(up), last, *step);
        }
        if !need {
            return ;
        }
        let ghost g = self@;
        let ghost ph = OperationView::<F>::Dynamic(DynOp { inner: 0 });
        let op = self.take_op(source);
        match op {
            Operation::Source(mut s) => {
                s.inner.step = step.clone();
                let ghost sv = s@;
                self.put_op(source, Operation::Source(s));
                proof {
                    lemma_set_twice(g, source, ph, OperationView::Source(sv));
                }
            },
            other => {
                let ghost ov = other@;
                self.put_op(source, other);
                proof {
                    lemma_set_twice(g, source, ph, ov);
                    lemma_set_same(g, source);
                }
            },
        }
        let batch = self.flow(up, step, fuel);
        let ghost g3 = self@;
        let op = self.take_op(source);
        match op {
            Operation::Source(mut s) => {
                s.accept(&batch);
                let ghost sv = s@;
                self.put_op(source, Operation::Source(s));
                proof {
                    lemma_set_twice(g3, source, ph, OperationView::Source(sv));
                }
            },
            other => {
                let ghost ov = other@;
                self.put_op(source, other);
                proof {
                    lemma_set_twice(g3, source, ph, ov);
                    lemma_set_same(g3, source);
                }
            },
        }
    }

    /// Brings an arrangement to a timestamp.
    #[verifier::rlimit(80)]
    #[verifier::spinoff_prover]
    fn refresh(&mut self, id: usize, step: &Step, fuel: usize)
        requires
            old(self).wf(),
        ensures
            final(self)@ == refresh(old(self)@, id, *step, fuel as nat),
            final(self).wf(),
            kinds_kept(old(self)@, final(self)@),
            fault_kept(old(self)@, final(self)@),
            inputs_within(old(self)@, step.root_spec()) ==> inputs_within(final(self)@, step.root_spec()),
            final(self)@.nodes.len() == old(self)@.nodes.len(),
        decreases fuel, 3nat, 0nat,
    {
        if id >= self.nodes.len() {
            return ;
        }
        let gate = match &self.nodes[id].inner {
            Operation::Arrangement(a) => Some((a.from, a.step.clone())),
            _ => None,
        };
        let (from, last) = match gate {
            None => {
                return ;
            },
            Some(p) => p,
        };
        if !last.before(step) {
            return ;
        }
        let ghost g0 = self@;
        let need = self.needs_update(from, &last, step);
        proof {
            lemma_needs_update_frame(g0, g0.inputs_of(from), last, *step);
        }
        if !need {
            return ;
        }
        let ghost g = self@;
        let ghost ph = OperationView::<F>::Dynamic(DynOp { inner: 0 });
        let op = self.take_op(id);
        match op {
            Operation::Arrangement(mut a) => {
                a.step = step.clone();
                let ghost av = a@;
                self.put_op(id, Operation::Arrangement(a));
                proof {
                    lemma_set_twice(g, id, ph, OperationView::Arrangement(av));
                }
            },
            other => {
                let ghost ov = other@;
                self.put_op(id, other);
                proof {
                    lemma_set_twice(g, id, ph, ov);
                    lemma_set_same(g, id);
                }
            },
        }
        let batch = self.flow(from, step, fuel);
        let ghost g3 = self@;
        let op = self.take_op(id);
        match op {
            Operation::Arrangement(mut a) => {
                a.flow(&batch);
                let ghost av = a@;
                self.put_op(id, Operation::Arrangement(a));
                proof {
                    lemma_set_twice(g3, id, ph, OperationView::Arrangement(av));
                }
            },
            other => {
                let ghost ov = other@;
                self.put_op(id, other);
                proof {
                    lemma_set_twice(g3, id, ph, ov);
                    lemma_set_same(g3, id);
                }
            },
        }
    }

    #[verifier::rlimit(80)]
    #[verifier::spinoff_prover]
    fn pull_barrier(&mut self, id: usize, step: &Step, fuel: usize) -> (out: Batch)
        requires
            old(self).wf(),
            id < old(self)@.nodes.len(),
        ensures
            (final(self)@, out@) == pull_barrier(old(self)@, id, *step, fuel as nat),
            final(self).wf(),
            kinds_kept(old(self)@, final(self)@),
            fault_kept(old(self)@, final(self)@),
            inputs_within(old(self)@, step.root_spec()) ==> inputs_within(final(self)@, step.root_spec()),
            final(self)@.nodes.len() == old(self)@.nodes.len(),
        decreases fuel, 4nat, 0nat,
    {
        let gate = match &self.nodes[id].inner {
            Operation::Barrier(b) => Some((b.inner, b.step.clone())),
            _ => None,
        };
        let (up, last) = match gate {
            None => {
                return Vec::new();
            },
            Some(p) => p,
        };
        let ghost g0 = self@;
        let need = self.needs_update(up, &last, step);
        proof {
            lemma_needs_update_frame(g0, g0.inputs_of(up), last, *step);
        }
        if !need {
            return Vec::new();
        }
        let ghost g = self@;
        let ghost ph = OperationView::<F>::Dynamic(DynOp { inner: 0 });
        let op = self.take_op(id);
        match op {
            Operation::Barrier(mut b) => {
                b.step = step.clone();
                self.put_op(id, Operation::Barrier(b));
                proof {
                    lemma_set_twice(g, id, ph, OperationView::Barrier(b));
                }
            },
            other => {
                let ghost ov = other@;
                self.put_op(id, other);
                proof {
                    lemma_set_twice(g, id, ph, ov);
                    lemma_set_same(g, id);
                }
            },
        }
        self.flow(up, step, fuel)
    }

    #[verifier::rlimit(80)]
    #[verifier::spinoff_prover]
    fn pull_binary(&mut self, id: usize, step: &Step, fuel: usize) -> (out: Batch)
        requires
            old(self).wf(),
            id < old(self)@.nodes.len(),
        ensures
            (final(self)@, out@) == pull_binary(old(self)@, id, *step, fuel as nat),
            final(self).wf(),
            kinds_kept(old(self)@, final(self)@),
            fault_kept(old(self)@, final(self)@),
            inputs_within(old(self)@, step.root_spec()) ==> inputs_within(final(self)@, step.root_spec()),
            final(self)@.nodes.len() == old(self)@.nodes.len(),
        decreases fuel, 4nat, 0nat,
    {
        let ends: Option<(u8, usize, usize)> = match &self.nodes[id].inner {
            Operation::Concat(c) => Some((1, c.left, c.right)),
            Operation::Join(j) => Some((2, j.left, j.right)),
            Operation::AntiJoin(j) => Some((3, j.right, j.left)),
            _ => None,
        };
        let (kind, first, second) = match ends {
            None => {
                return Vec::new();
            },
            Some(p) => p,
        };
        let b1 = self.flow(first, step, fuel);
        let b2 = self.flow(second, step, fuel);
        let ghost g = self@;
        let ghost ph = OperationView::<F>::Dynamic(DynOp { inner: 0 });
        let op = self.take_op(id);
        let same_kind = match &op {
            Operation::Concat(_) => kind == 1,
            Operation::Join(_) => kind == 2,
            Operation::AntiJoin(_) => kind == 3,
            _ => false,
        };
        if !same_kind {
            let ghost ov = op@;
            self.put_op(id, op);
            proof {
                lemma_set_twice(g, id, ph, ov);
                lemma_set_same(g, id);
            }
            return Vec::new();
        }
        match op {
            Operation::Concat(c) => {
                let out = c.flow(b1, b2);
                self.put_op(id, Operation::Concat(c));
                proof {
                    lemma_set_twice(g, id, ph, OperationView::Concat(c));
                    lemma_set_same(g, id);
                }
                out
            },
            Operation::Join(mut j) => {
                let out = j.flow(&b1, &b2);
                let ghost jv = j@;
                self.put_op(id, Operation::Join(j));
                proof {
                    lemma_set_twice(g, id, ph, OperationView::Join(jv));
                }
                out
            },
            Operation::AntiJoin(mut j) => {
                let out = j.flow(&b1, &b2);
                let ghost jv = j@;
                self.put_op(id, Operation::AntiJoin(j));
                proof {
                    lemma_set_twice(g, id, ph, OperationView::AntiJoin(jv));
                }
                out
            },
            other => {
                let ghost ov = other@;
                self.put_op(id, other);
                proof {
                    lemma_set_twice(g, id, ph, ov);
                    lemma_set_same(g, id);
                }
                Vec::new()
            },
        }
    }

    #[verifier::rlimit(80)]
    #[verifier::spinoff_prover]
    fn pull_triangles(&mut self, id: usize, step: &Step, fuel: usize) -> (out: Batch)
        requires
            old(self).wf(),
            id < old(self)@.nodes.len(),
        ensures
            (final(self)@, out@) == pull_triangles(old(self)@, id, *step, fuel as nat),
            final(self).wf(),
            kinds_kept(old(self)@, final(self)@),
            fault_kept(old(self)@, final(self)@),
            inputs_within(old(self)@, step.root_spec()) ==> inputs_within(final(self)@, step.root_spec()),
            final(self)@.nodes.len() == old(self)@.nodes.len(),
        decreases fuel, 4nat, 0nat,
    {
        let ends = match &self.nodes[id].inner {
            Operation::Triangles(t) => Some((t.mxy.inner, t.mxz.inner, t.myz.inner)),
            _ => None,
        };
        let (xy, xz, yz) = match ends {
            None => {
                return Vec::new();
            },
            Some(p) => p,
        };
        let bxy = self.flow(xy, step, fuel);
        let bxz = self.flow(xz, step, fuel);
        let byz = self.flow(yz, step, fuel);
        let ghost g = self@;
        let ghost ph = OperationView::<F>::Dynamic(DynOp { inner: 0 });
        let op = self.take_op(id);
        match op {
            Operation::Triangles(mut t) => {
                let out = t.flow(&bxy, &bxz, &byz);
                let ghost tv = t@;
                self.put_op(id, Operation::Triangles(t));
                proof {
                    lemma_set_twice(g, id, ph, OperationView::Triangles(tv));
                }
                out
            },
            other => {
                let ghost ov = other@;
                self.put_op(id, other);
                proof {
                    lemma_set_twice(g, id, ph, ov);
                    lemma_set_same(g, id);
                }
                Vec::new()
            },
        }
    }

    #[verifier::rlimit(80)]
    #[verifier::spinoff_prover]
    fn pull_unary(&mut self, id: usize, step: &Step, fuel: usize) -> (out: Batch)
        requires
            old(self).wf(),
            id < old(self)@.nodes.len(),
        ensures
            (final(self)@, out@) == pull_unary(old(self)@, id, *step, fuel as nat),
            final(self).wf(),
            kinds_kept(old(self)@, final(self)@),
            fault_kept(old(self)@, final(self)@),
            inputs_within(old(self)@, step.root_spec()) ==> inputs_within(final(self)@, step.root_spec()),
            final(self)@.nodes.len() == old(self)@.nodes.len(),
        decreases fuel, 4nat, 0nat,
    {
        let up = match &self.nodes[id].inner {
            Operation::FlatMap(m) => Some(m.inner),
            Operation::Consolidate(c) => Some(c.inner),
            Operation::Dynamic(d) => Some(d.inner),
            Operation::Reduce(r) => Some(r.inner),
            _ => None,
        };
        let up = match up {
            None => {
                return Vec::new();
            },
            Some(u) => u,
        };
        let batch = self.flow(up, step, fuel);
        let ghost g = self@;
        let ghost ph = OperationView::<F>::Dynamic(DynOp { inner: 0 });
        let op = self.take_op(id);
        match op {
            Operation::FlatMap(m) => {
                let out = m.flow(&batch);
                self.put_op(id, Operation::FlatMap(m));
                proof {
                    lemma_set_twice(g, id, ph, OperationView::FlatMap(m));
                    lemma_set_same(g, id);
                }
                out
            },
            Operation::Consolidate(c) => {
                let out = c.flow(&batch);
                self.put_op(id, Operation::Consolidate(c));
                proof {
                    lemma_set_twice(g, id, ph, OperationView::Consolidate(c));
                    lemma_set_same(g, id);
                }
                out
            },
            Operation::Dynamic(d) => {
                self.put_op(id, Operation::Dynamic(d));
                proof {
                    lemma_set_twice(g, id, ph, OperationView::Dynamic(d));
                    lemma_set_same(g, id);
                }
                batch
            },
            Operation::Reduce(mut r) => {
                let (out, broke) = r.try_flow(&batch);
                let ghost rv = r@;
                self.put_op(id, Operation::Reduce(r));
                proof {
                    lemma_set_twice(g, id, ph, OperationView::Reduce(rv));
                }
                if broke {
                    self.fail(Error::ReducerContract);
                }
                out
            },
            other => {
                let ghost ov = other@;
                self.put_op(id, other);
                proof {
                    lemma_set_twice(g, id, ph, ov);
                    lemma_set_same(g, id);
                }
                Vec::new()
            },
        }
    }

    #[verifier::rlimit(80)]
    #[verifier::spinoff_prover]
    fn pull_buffer(&mut self, id: usize, step: &Step, fuel: usize) -> (out: Batch)
        requires
            old(self).wf(),
            id < old(self)@.nodes.len(),
        ensures
            (final(self)@, out@) == pull_buffer(old(self)@, id, *step, fuel as nat),
            final(self).wf(),
            kinds_kept(old(self)@, final(self)@),
            fault_kept(old(self)@, final(self)@),
            inputs_within(old(self)@, step.root_spec()) ==> inputs_within(final(self)@, step.root_spec()),
            final(self)@.nodes.len() == old(self)@.nodes.len(),
        decreases fuel, 4nat, 0nat,
    {
        let receiver = match &self.nodes[id].inner {
            Operation::Receiver(r) => Some((r.source, r.listener)),
            _ => None,
        };
        match receiver {
            Some((source, listener)) => {
                self.propagate(source, step, fuel);
                self.take_listener(source, listener)
            },
            None => {
                let ghost g = self@;
                let ghost ph = OperationView::<F>::Dynamic(DynOp { inner: 0 });
                let op = self.take_op(id);
                match op {
                    Operation::Input(mut inp) => {
                        if step.root() < inp.adding_step {
                            let ghost iv = inp@;
                            proof {
                                if inputs_within(g, step.root_spec()) {
                                    lemma_within_at(g, id, step.root_spec());
                                }
                            }
                            self.put_op(id, Operation::Input(inp));
                            proof {
                                lemma_set_twice(g, id, ph, OperationView::Input(iv));
                                lemma_set_same(g, id);
                            }
                            self.fail(Error::NotMonotone);
                            Vec::new()
                        } else {
                            let out = inp.flow(step.root());
                            let ghost iv = inp@;
                            self.put_op(id, Operation::Input(inp));
                            proof {
                                lemma_set_twice(g, id, ph, OperationView::Input(iv));
                            }
                            out
                        }
                    },
                    Operation::Variable(mut v) => {
                        let out = v.flow();
                        let ghost vv = v@;
                        self.put_op(id, Operation::Variable(v));
                        proof {
                            lemma_set_twice(g, id, ph, OperationView::Variable(vv));
                        }
                        out
                    },
                    other => {
                        let ghost ov = other@;
                        self.put_op(id, other);
                        proof {
                            lemma_set_twice(g, id, ph, ov);
                            lemma_set_same(g, id);
                        }
                        Vec::new()
                    },
                }
            },
        }
    }

    #[verifier::rlimit(80)]
    #[verifier::spinoff_prover]
    fn pull_scope(&mut self, id: usize, step: &Step, fuel: usize) -> (out: Batch)
        requires
            old(self).wf(),
            id < old(self)@.nodes.len(),
        ensures
            (final(self)@, out@) == pull_scope(old(self)@, id, *step, fuel as nat),
            final(self).wf(),
            kinds_kept(old(self)@, final(self)@),
            fault_kept(old(self)@, final(self)@),
            inputs_within(old(self)@, step.root_spec()) ==> inputs_within(final(self)@, step.root_spec()),
            final(self)@.nodes.len() == old(self)@.nodes.len(),
        decreases fuel, 4nat, 0nat,
    {
        let kind: (u8, usize, usize) = match &self.nodes[id].inner {
            Operation::Leave(l) => (1, l.inner, l.registrar),
            Operation::Registrar(_) => (2, 0, 0),
            Operation::Arrangement(_) => (3, 0, 0),
            _ => (0, 0, 0),
        };
        if kind.0 == 1 {
            let registrar = kind.2;
            self.run_registrar(registrar, step, fuel);
            let round = if registrar < self.nodes.len() {
                match &self.nodes[registrar].inner {
                    Operation::Registrar(reg) => reg.inner_step,
                    _ => 0,
                }
            } else {
                0
            };
            let at = step.append(round);
            self.flow(kind.1, &at, fuel)
        } else if kind.0 == 2 {
            self.run_registrar(id, step, fuel);
            Vec::new()
        } else if kind.0 == 3 {
            self.refresh(id, step, fuel);
            Vec::new()
        } else {
            Vec::new()
        }
    }

    fn pull(&mut self, id: usize, step: &Step, fuel: usize) -> (out: Batch)
        requires
            old(self).wf(),
            id < old(self)@.nodes.len(),
        ensures
            (final(self)@, out@) == pull(old(self)@, id, *step, fuel as nat),
            final(self).wf(),
            kinds_kept(old(self)@, final(self)@),
            fault_kept(old(self)@, final(self)@),
            inputs_within(old(self)@, step.root_spec()) ==> inputs_within(final(self)@, step.root_spec()),
            final(self)@.nodes.len() == old(self)@.nodes.len(),
        decreases fuel, 5nat, 0nat,
    {
        let kind: u8 = match &self.nodes[id].inner {
            Operation::Input(_) | Operation::Variable(_) | Operation::Receiver(_) => 1,
            Operation::FlatMap(_) | Operation::Consolidate(_) | Operation::Dynamic(_)
            | Operation::Reduce(_) => 2,
            Operation::Concat(_) | Operation::Join(_) | Operation::AntiJoin(_) => 3,
            Operation::Triangles(_) => 4,
            Operation::Barrier(_) => 5,
            Operation::Leave(_) | Operation::Registrar(_) | Operation::Arrangement(_) => 6,
            Operation::Source(_) => 0,
        };
        if kind == 1 {
            self.pull_buffer(id, step, fuel)
        } else if kind == 2 {
            self.pull_unary(id, step, fuel)
        } else if kind == 3 {
            self.pull_binary(id, step, fuel)
        } else if kind == 4 {
            self.pull_triangles(id, step, fuel)
        } else if kind == 5 {
            self.pull_barrier(id, step, fuel)
        } else if kind == 6 {
            self.pull_scope(id, step, fuel)
        } else {
            Vec::new()
        }
    }
}

} // verus!
