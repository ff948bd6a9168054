//! Freshness: when a node has to pull. A node that last pulled at one
//! timestamp has to pull to reach a later one exactly where an input above it
//! was changed in between.

use crate::context::ExecView;
use crate::function::Function;
use crate::graph::{latest_update, lemma_set_op_wf, lemma_within_at, needs_update, GraphView};
use crate::node::{NodeView, OperationView};
use crate::operator::input::{lemma_resolved_wf, InputView};
use crate::step::{step_le, Step};
use vstd::prelude::*;

verus! {

/// The last step before the given one during which the input was changed;
/// none for an input that was never changed before that step.
pub open spec fn last_change(v: InputView, s: usize) -> Option<usize> {
    v.resolved(s).pending_step
}

/// Every listed node is an input that has not passed the step.
pub open spec fn inputs_ready<F>(g: GraphView<F>, inputs: Seq<usize>, s: usize) -> bool {
    forall|j: int|
        0 <= j < inputs.len() ==> match g.op(#[trigger] inputs[j]) {
            Some(OperationView::Input(v)) => v.adding_step <= s,
            _ => false,
        }
}

/// Whether the input at a node was changed during a step that is not before
/// the earlier timestamp and is before the given step.
pub open spec fn changed_at<F>(g: GraphView<F>, i: usize, prev: Step, s: usize) -> bool {
    match g.op(i) {
        Some(OperationView::Input(v)) => match last_change(v, s) {
            Some(t) => step_le(prev, Step::Last(t)) && t < s,
            None => false,
        },
        _ => false,
    }
}

/// Whether one of the listed inputs was changed during a step that is not
/// before the earlier timestamp and is before the given step.
pub open spec fn changed_between<F>(g: GraphView<F>, inputs: Seq<usize>, prev: Step, s: usize) -> bool {
    exists|j: int| 0 <= j < inputs.len() && changed_at(g, #[trigger] inputs[j], prev, s)
}

/// Whether the node is one of the listed ones.
pub open spec fn listed(inputs: Seq<usize>, id: int) -> bool {
    exists|j: int| 0 <= j < inputs.len() && #[trigger] inputs[j] == id
}

/// The graph with every listed input brought to the step, and nothing else
/// changed.
pub open spec fn all_resolved<F>(g: GraphView<F>, inputs: Seq<usize>, s: usize) -> GraphView<F> {
    GraphView {
        nodes: Seq::new(
            g.nodes.len(),
            |id: int|
                match g.nodes[id].inner {
                    OperationView::Input(v) => if listed(inputs, id) {
                        NodeView { info: g.nodes[id].info, inner: OperationView::Input(v.resolved(s)) }
                    } else {
                        g.nodes[id]
                    },
                    _ => g.nodes[id],
                },
        ),
        fault: g.fault,
        round_limit: g.round_limit,
    }
}

/// An input that was brought to a step stays as it is when it is brought to
/// that step once more, and what waits in it was last changed before the
/// step.
pub proof fn lemma_resolved_once(v: InputView, s: usize)
    requires
        v.wf(),
        v.adding_step <= s,
    ensures
        v.resolved(s).wf(),
        v.resolved(s).adding_step == s,
        v.resolved(s).resolved(s) == v.resolved(s),
        last_change(v, s).is_some() ==> last_change(v, s).unwrap() < s,
{
    lemma_resolved_wf(v, s);
}

/// The freshness predicate. Where every listed node is an input that has
/// not passed the step of the later timestamp, a node that last pulled at
/// the earlier timestamp has to pull if and only if one of those inputs was
/// changed during a step that is not before the earlier timestamp and is
/// before that step. Asking brings every listed input to the step and
/// changes nothing else.
pub proof fn lemma_freshness<F>(g: GraphView<F>, inputs: Seq<usize>, prev: Step, step: Step)
    requires
        g.wf(),
        inputs_ready(g, inputs, step.root_spec()),
    ensures
        needs_update(g, inputs, prev, step).1 == changed_between(
            g,
            inputs,
            prev,
            step.root_spec(),
        ),
        needs_update(g, inputs, prev, step).0 == all_resolved(g, inputs, step.root_spec()),
    decreases inputs.len(),
{
    let s = step.root_spec();
    if inputs.len() == 0 {
        assert(all_resolved(g, inputs, s).nodes =~= g.nodes);
    } else {
        let i0 = inputs.first();
        let rest = inputs.drop_first();
        assert(inputs[0] == i0);
        let v = g.op(i0)->Some_0->Input_0;
        let r = v.resolved(s);
        lemma_resolved_once(v, s);
        let (g1, latest) = latest_update(g, i0, step);
        assert(g1 == g.set_op(i0, OperationView::Input(r)));
        assert(g.nodes[i0 as int].inner.wf());
        lemma_set_op_wf(g, i0, OperationView::Input(r));
        assert forall|j: int| 0 <= j < rest.len() implies match g1.op(#[trigger] rest[j]) {
            Some(OperationView::Input(w)) => w.adding_step <= s,
            _ => false,
        } by {
            assert(rest[j] == inputs[j + 1]);
        }
        lemma_freshness(g1, rest, prev, step);
        assert forall|j: int| 0 <= j < rest.len() implies changed_at(g1, #[trigger] rest[j], prev, s)
            == changed_at(g, inputs[j + 1], prev, s) by {
            assert(rest[j] == inputs[j + 1]);
        }
        let first = latest.is_some() && step_le(prev, latest.unwrap());
        assert(first == changed_at(g, i0, prev, s));
        if changed_between(g1, rest, prev, s) {
            let j = choose|j: int| 0 <= j < rest.len() && changed_at(g1, #[trigger] rest[j], prev, s);
            assert(changed_at(g, inputs[j + 1], prev, s));
        }
        if changed_between(g, inputs, prev, s) {
            let j = choose|j: int|
                0 <= j < inputs.len() && changed_at(g, #[trigger] inputs[j], prev, s);
            if j > 0 {
                assert(rest[j - 1] == inputs[j]);
                assert(changed_at(g1, rest[j - 1], prev, s));
            }
        }
        let a = all_resolved(g1, rest, s);
        let b = all_resolved(g, inputs, s);
        assert forall|id: int| 0 <= id < g.nodes.len() implies a.nodes[id] == b.nodes[id] by {
            if id == i0 {
                assert(listed(inputs, id));
            } else {
                if listed(rest, id) {
                    let j = choose|j: int| 0 <= j < rest.len() && #[trigger] rest[j] == id;
                    assert(inputs[j + 1] == id);
                }
                if listed(inputs, id) {
                    let j = choose|j: int| 0 <= j < inputs.len() && #[trigger] inputs[j] == id;
                    assert(rest[j - 1] == id);
                }
            }
        }
        assert(a.nodes =~= b.nodes);
    }
}

/// Whether every listed node is an input.
pub open spec fn all_inputs<F>(g: GraphView<F>, inputs: Seq<usize>) -> bool {
    forall|j: int|
        0 <= j < inputs.len() ==> g.op(#[trigger] inputs[j]).is_some() && g.op(
            inputs[j],
        ).unwrap() is Input
}

/// The freshness predicate in a context: no input of a well-formed context
/// is ahead of its clock, so that a node above inputs alone, which last
/// pulled at an earlier timestamp, has to pull at the step of the context if
/// and only if one of those inputs was changed in between.
pub proof fn lemma_freshness_in_context<F: Function>(c: ExecView<F>, inputs: Seq<usize>, prev: Step)
    requires
        c.wf(),
        all_inputs(c.graph, inputs),
    ensures
        needs_update(c.graph, inputs, prev, Step::Last(c.step)).1 == changed_between(
            c.graph,
            inputs,
            prev,
            c.step,
        ),
        needs_update(c.graph, inputs, prev, Step::Last(c.step)).0 == all_resolved(
            c.graph,
            inputs,
            c.step,
        ),
{
    assert forall|j: int| 0 <= j < inputs.len() implies match c.graph.op(#[trigger] inputs[j]) {
        Some(OperationView::Input(v)) => v.adding_step <= c.step,
        _ => false,
    } by {
        lemma_within_at(c.graph, inputs[j], c.step);
    }
    lemma_freshness(c.graph, inputs, prev, Step::Last(c.step));
}

/// A guard that asks at the step at which it last pulled has nothing to pull
/// for: no input can have been changed in between.
pub proof fn lemma_nothing_due_at_own_step<F>(g: GraphView<F>, inputs: Seq<usize>, s: usize)
    requires
        g.wf(),
        inputs_ready(g, inputs, s),
    ensures
        !needs_update(g, inputs, Step::Last(s), Step::Last(s)).1,
{
    lemma_freshness(g, inputs, Step::Last(s), Step::Last(s));
}

} // verus!
