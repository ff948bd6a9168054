//! Consistency of what is read, where an arrangement reads an input
//! directly: after a commit the arrangement holds everything that was written
//! to the input before the commit, no more and no less.

use crate::arrangement::{ArrangedView, ArrangementView};
use crate::function::Function;
use crate::graph::{
    changed_since, flow, latest_update, needs_update, pull, pull_buffer, pull_scope, refresh,
    GraphView,
};
use crate::laws::{held, lemma_drained_hands_on, lemma_resolved_keeps, lemma_updated_adds};
use crate::map::{add_all, lemma_add_all_wf, weight_of};
use crate::monoid::wadd;
use crate::node::OperationView;
use crate::operator::input::InputView;
use crate::step::{step_lt, Step};
use crate::value::Value;
use crate::weights::{batch_weight, lemma_weight_add_all};
use vstd::prelude::*;

verus! {

/// What an input sends when it is asked at a step that it has not passed:
/// what waits after it was brought to the step.
pub proof fn lemma_input_flow<F: Function>(g: GraphView<F>, i: usize, v: InputView, s: usize, fuel: nat)
    requires
        g.op(i) == Some(OperationView::<F>::Input(v)),
        v.adding_step <= s,
        fuel >= 1,
    ensures
        flow(g, i, Step::Last(s), fuel) == (
            g.set_op(i, OperationView::Input(v.drained(s))).counted(
                i,
                v.resolved(s).pending.len(),
            ),
            v.resolved(s).pending,
        ),
{
    reveal_with_fuel(flow, 2);
    reveal_with_fuel(pull, 2);
    reveal_with_fuel(pull_buffer, 2);
}

/// Whether a change is due where the only source of changes is an input: the
/// input is brought to the step, and a change is due where the guard has not
/// pulled since the step during which the input was last changed.
pub proof fn lemma_needs_update_single<F: Function>(
    g: GraphView<F>,
    i: usize,
    v: InputView,
    prev: Step,
    s: usize,
)
    requires
        g.op(i) == Some(OperationView::<F>::Input(v)),
        v.adding_step <= s,
    ensures
        needs_update(g, seq![i], prev, Step::Last(s)) == (
            g.set_op(i, OperationView::Input(v.resolved(s))),
            changed_since(prev, v.resolved(s).pending_step),
        ),
{
    reveal_with_fuel(needs_update, 3);
    let inputs = seq![i];
    assert(inputs.first() == i);
    assert(inputs.drop_first() =~= Seq::<usize>::empty());
    let (g1, latest) = latest_update(g, i, Step::Last(s));
    assert(needs_update(g1, Seq::<usize>::empty(), prev, Step::Last(s)) == (g1, false));
}

/// An arrangement reads an input directly: the input is its own and only
/// source of changes, and the arrangement, with a flat map, reads it.
pub open spec fn reads_directly<F>(g: GraphView<F>, i: usize, a: usize) -> bool {
    &&& i != a
    &&& i < g.nodes.len()
    &&& a < g.nodes.len()
    &&& g.nodes[i as int].inner is Input
    &&& g.nodes[i as int].info.inputs == seq![i]
    &&& g.nodes[a as int].inner is Arrangement
    &&& g.nodes[a as int].inner->Arrangement_0.from == i
    &&& g.nodes[a as int].inner->Arrangement_0.value is Flat
}

/// The input of a graph at a node.
pub open spec fn input_at<F>(g: GraphView<F>, i: usize) -> InputView {
    g.nodes[i as int].inner->Input_0
}

/// The arrangement of a graph at a node.
pub open spec fn arrangement_at<F>(g: GraphView<F>, a: usize) -> ArrangementView {
    g.nodes[a as int].inner->Arrangement_0
}

/// The map of the arrangement of a graph at a node.
pub open spec fn map_at<F>(g: GraphView<F>, a: usize) -> Seq<(Value, isize)> {
    arrangement_at(g, a).value->Flat_0
}

/// What the guard of the arrangement knows of the input is right: nothing
/// that the input holds was written before the arrangement last pulled. As of
/// the given step of the clock.
pub open spec fn guard_sound<F>(g: GraphView<F>, i: usize, a: usize, step: usize) -> bool {
    let v = input_at(g, i);
    let av = arrangement_at(g, a);
    &&& reads_directly(g, i, a)
    &&& g.wf()
    &&& v.adding_step <= step
    &&& av.step is Last
    &&& av.step->Last_0 <= step
    &&& (v.pending.len() > 0 ==> v.pending_step.is_some() && av.step->Last_0
        <= v.pending_step.unwrap() < v.adding_step)
    &&& (v.adding.len() > 0 ==> av.step->Last_0 <= v.adding_step)
}

/// What a read does where an arrangement reads an input directly. Where the
/// arrangement is not behind the step, nothing changes. Else the input is
/// brought to the step; where a change is due, the arrangement adds what
/// waited to its map and the input holds it no longer; where none is due,
/// nothing else changes.
#[verifier::rlimit(100)]
#[verifier::spinoff_prover]
pub proof fn lemma_direct_read<F: Function>(g: GraphView<F>, i: usize, a: usize, s: usize, fuel: nat)
    requires
        reads_directly(g, i, a),
        input_at(g, i).adding_step <= s,
        fuel >= 3,
    ensures
        ({
            let v = input_at(g, i);
            let av = arrangement_at(g, a);
            let r = v.resolved(s);
            let behind = step_lt(av.step, Step::Last(s));
            let due = behind && changed_since(av.step, r.pending_step);
            let g1 = flow(g, a, Step::Last(s), fuel).0;
            &&& reads_directly(g1, i, a)
            &&& g1.fault == g.fault
            &&& g1.nodes.len() == g.nodes.len()
            &&& input_at(g1, i) == if due {
                r.drained(s)
            } else if behind {
                r
            } else {
                v
            }
            &&& arrangement_at(g1, a) == if due {
                ArrangementView {
                    from: i,
                    value: ArrangedView::Flat(add_all(map_at(g, a), r.pending)),
                    step: Step::Last(s),
                }
            } else {
                av
            }
        }),
{
    let v = input_at(g, i);
    let av = arrangement_at(g, a);
    let r = v.resolved(s);
    let step = Step::Last(s);
    let f1 = (fuel - 1) as nat;
    reveal_with_fuel(flow, 2);
    reveal_with_fuel(pull, 2);
    reveal_with_fuel(pull_scope, 2);
    reveal_with_fuel(refresh, 2);
    assert(g.op(a) == Some(OperationView::<F>::Arrangement(av)));
    assert(g.op(i) == Some(OperationView::<F>::Input(v)));
    assert(g.inputs_of(i) == seq![i]);
    lemma_needs_update_single(g, i, v, av.step, s);
    let g1 = g.set_op(i, OperationView::Input(r));
    let behind = step_lt(av.step, step);
    let due = behind && changed_since(av.step, r.pending_step);
    assert(needs_update(g, g.inputs_of(av.from), av.step, step) == (
        g1,
        changed_since(av.step, r.pending_step),
    ));
    if !behind {
        assert(refresh(g, a, step, f1) == g);
        assert(flow(g, a, step, fuel).0 == g.counted(a, 0));
    } else if due {
        let g2 = g1.set_op(a, OperationView::Arrangement(ArrangementView { step, ..av }));
        assert(g2.op(i) == Some(OperationView::<F>::Input(r)));
        assert(r.resolved(s) == r);
        lemma_input_flow(g2, i, r, s, f1);
        let g3 = flow(g2, i, step, f1).0;
        let batch = r.pending;
        assert(flow(g2, i, step, f1).1 == batch);
        assert(g3.op(a) == Some(
            OperationView::<F>::Arrangement(ArrangementView { step, ..av }),
        ));
        let g4 = g3.set_op(
            a,
            OperationView::Arrangement(ArrangementView { step, ..av }.after(batch)),
        );
        assert(refresh(g, a, step, f1) == g4);
        assert(pull(g, a, step, f1) == (g4, Seq::<(Value, isize)>::empty()));
        assert(flow(g, a, step, fuel).0 == g4.counted(a, 0));
    } else {
        assert(refresh(g, a, step, f1) == g1);
        assert(pull(g, a, step, f1) == (g1, Seq::<(Value, isize)>::empty()));
        assert(flow(g, a, step, fuel).0 == g1.counted(a, 0));
    }
}

/// A read loses nothing and makes up nothing: for every record, what the
/// arrangement holds of it and what the input still holds of it is the same
/// after the read as before.
pub proof fn lemma_read_conserves<F: Function>(
    g: GraphView<F>,
    i: usize,
    a: usize,
    s: usize,
    fuel: nat,
    q: Value,
)
    requires
        reads_directly(g, i, a),
        g.wf(),
        input_at(g, i).adding_step <= s,
        fuel >= 3,
    ensures
        ({
            let g1 = flow(g, a, Step::Last(s), fuel).0;
            wadd(weight_of(map_at(g1, a), q), held(input_at(g1, i), q)) == wadd(
                weight_of(map_at(g, a), q),
                held(input_at(g, i), q),
            )
        }),
{
    let v = input_at(g, i);
    let av = arrangement_at(g, a);
    let r = v.resolved(s);
    lemma_direct_read(g, i, a, s, fuel);
    assert(g.nodes[i as int].inner.wf());
    assert(g.nodes[a as int].inner.wf());
    lemma_resolved_keeps(v, s, 0, q);
    lemma_drained_hands_on(r, s, 0, q);
    lemma_weight_add_all(map_at(g, a), r.pending, q);
    assert(r.resolved(s) == r);
    let due = step_lt(av.step, Step::Last(s)) && changed_since(av.step, r.pending_step);
    if due {
        let m = weight_of(map_at(g, a), q);
        let b = batch_weight(r.pending, q);
        let h = held(r.drained(s), q);
        assert(wadd(b, h) == held(v, q));
        crate::monoid::lemma_wadd_associates(m, b, h);
    }
}

/// After a commit a read brings everything over: where the guard is sound and
/// the clock has advanced past the step of the last change, the input holds
/// nothing after the read, so that the arrangement holds all that was written.
/// And the guard stays sound.
pub proof fn lemma_read_after_commit<F: Function>(
    g: GraphView<F>,
    i: usize,
    a: usize,
    s: usize,
    fuel: nat,
    q: Value,
)
    requires
        guard_sound(g, i, a, s),
        fuel >= 3,
    ensures
        guard_sound(flow(g, a, Step::Last(s), fuel).0, i, a, s),
        input_at(g, i).adding_step < s ==> held(
            input_at(flow(g, a, Step::Last(s), fuel).0, i),
            q,
        ) == 0 && weight_of(map_at(flow(g, a, Step::Last(s), fuel).0, a), q) == wadd(
            weight_of(map_at(g, a), q),
            held(input_at(g, i), q),
        ),
{
    let v = input_at(g, i);
    let av = arrangement_at(g, a);
    let r = v.resolved(s);
    let g1 = flow(g, a, Step::Last(s), fuel).0;
    lemma_direct_read(g, i, a, s, fuel);
    lemma_read_conserves(g, i, a, s, fuel, q);
    assert(g.nodes[i as int].inner.wf());
    assert(g.nodes[a as int].inner.wf());
    crate::operator::input::lemma_resolved_wf(v, s);
    lemma_add_all_wf(map_at(g, a), r.pending);
    assert(g1.wf()) by {
        lemma_graph_wf_after_read(g, i, a, s, fuel);
    }
    reveal(held);
    assert(!crate::map::has_key(Seq::<(Value, isize)>::empty(), q));
    if v.adding_step < s {
        crate::monoid::lemma_wadd_zero(weight_of(map_at(g1, a), q));
    }
}

/// A read keeps every map of the graph well formed.
pub proof fn lemma_graph_wf_after_read<F: Function>(g: GraphView<F>, i: usize, a: usize, s: usize, fuel: nat)
    requires
        reads_directly(g, i, a),
        g.wf(),
        input_at(g, i).adding_step <= s,
        fuel >= 3,
    ensures
        flow(g, a, Step::Last(s), fuel).0.wf(),
{
    let v = input_at(g, i);
    let av = arrangement_at(g, a);
    let r = v.resolved(s);
    let g1 = flow(g, a, Step::Last(s), fuel).0;
    lemma_direct_read_frame(g, i, a, s, fuel);
    lemma_direct_read(g, i, a, s, fuel);
    assert(g.nodes[i as int].inner.wf());
    assert(g.nodes[a as int].inner.wf());
    crate::operator::input::lemma_resolved_wf(v, s);
    lemma_add_all_wf(map_at(g, a), r.pending);
    assert forall|n: int| 0 <= n < g1.nodes.len() implies (#[trigger] g1.nodes[n]).inner.wf() by {
        if n != i && n != a {
            assert(g1.nodes[n].inner == g.nodes[n].inner);
            assert(g.nodes[n].inner.wf());
        }
    }
}

/// A read touches the input and the arrangement only.
#[verifier::rlimit(100)]
#[verifier::spinoff_prover]
pub proof fn lemma_direct_read_frame<F: Function>(g: GraphView<F>, i: usize, a: usize, s: usize, fuel: nat)
    requires
        reads_directly(g, i, a),
        input_at(g, i).adding_step <= s,
        fuel >= 3,
    ensures
        flow(g, a, Step::Last(s), fuel).0.nodes.len() == g.nodes.len(),
        forall|n: int|
            0 <= n < g.nodes.len() && n != i && n != a ==> (#[trigger] flow(
                g,
                a,
                Step::Last(s),
                fuel,
            ).0.nodes[n]).inner == g.nodes[n].inner,
{
    let v = input_at(g, i);
    let av = arrangement_at(g, a);
    let r = v.resolved(s);
    let step = Step::Last(s);
    let f1 = (fuel - 1) as nat;
    reveal_with_fuel(flow, 2);
    reveal_with_fuel(pull, 2);
    reveal_with_fuel(pull_scope, 2);
    reveal_with_fuel(refresh, 2);
    assert(g.op(a) == Some(OperationView::<F>::Arrangement(av)));
    assert(g.op(i) == Some(OperationView::<F>::Input(v)));
    lemma_needs_update_single(g, i, v, av.step, s);
    let g1 = g.set_op(i, OperationView::Input(r));
    let behind = step_lt(av.step, step);
    let due = behind && changed_since(av.step, r.pending_step);
    assert(needs_update(g, g.inputs_of(av.from), av.step, step) == (
        g1,
        changed_since(av.step, r.pending_step),
    ));
    if !behind {
        assert(refresh(g, a, step, f1) == g);
        assert(flow(g, a, step, fuel).0 == g.counted(a, 0));
    } else if due {
        let g2 = g1.set_op(a, OperationView::Arrangement(ArrangementView { step, ..av }));
        assert(g2.op(i) == Some(OperationView::<F>::Input(r)));
        lemma_input_flow(g2, i, r, s, f1);
        let g3 = flow(g2, i, step, f1).0;
        let batch = r.pending;
        assert(g3.op(a) == Some(
            OperationView::<F>::Arrangement(ArrangementView { step, ..av }),
        ));
        let g4 = g3.set_op(
            a,
            OperationView::Arrangement(ArrangementView { step, ..av }.after(batch)),
        );
        assert(refresh(g, a, step, f1) == g4);
        assert(flow(g, a, step, fuel).0 == g4.counted(a, 0));
    } else {
        assert(refresh(g, a, step, f1) == g1);
        assert(flow(g, a, step, fuel).0 == g1.counted(a, 0));
    }
}

/// A change keeps the guard sound: it is taken, it adds to what the input
/// holds, and it leaves the arrangement as it is.
pub proof fn lemma_update_keeps_guard<F: Function>(
    g: GraphView<F>,
    i: usize,
    a: usize,
    step: usize,
    tracking: Option<usize>,
    x: Value,
    r: isize,
    q: Value,
)
    requires
        guard_sound(g, i, a, step),
    ensures
        ({
            let (g1, res) = crate::access::update_input(g, i, step, tracking, x, r);
            &&& res.is_ok()
            &&& guard_sound(g1, i, a, step)
            &&& g1.fault == g.fault
            &&& arrangement_at(g1, a) == arrangement_at(g, a)
            &&& held(input_at(g1, i), q) == wadd(
                held(input_at(g, i), q),
                if q == x {
                    r
                } else {
                    0
                },
            )
        }),
{
    let v = input_at(g, i);
    assert(g.op(i) == Some(OperationView::<F>::Input(v)));
    assert(g.nodes[i as int].inner.wf());
    lemma_updated_adds(v, step, tracking, x, r, 0, q);
    let w = v.updated(step, tracking, x, r);
    crate::graph::lemma_set_op_wf(g, i, OperationView::Input(w));
    crate::operator::input::lemma_resolved_wf(v, step);
    let res = v.resolved(step);
    if v.adding_step < step && v.adding.len() > 0 {
        assert(res.pending_step == Some(v.adding_step));
    }
}

/// Consistency, where an arrangement reads an input directly. Changes are
/// written to the input, the clock advances, and the arrangement is read.
/// Then the read succeeds, and for every record the map that the reader gets
/// holds what the arrangement held before, what the input held before, and
/// what the changes give the record: all that was written is in it, and
/// nothing else. The input holds nothing after the read.
pub proof fn lemma_consistency_of_direct_reads<F: Function>(
    c: crate::context::ExecView<F>,
    input: crate::context::Input,
    a: usize,
    writes: Seq<(Value, isize)>,
    q: Value,
)
    requires
        guard_sound(c.graph, input.id, a, c.step),
        input.context_id == c.context_id,
        c.graph.fault.is_none(),
        c.step < usize::MAX,
    ensures
        ({
            let written = crate::feedback::update_all(c, input, writes);
            let (after, found) = written.committed().read(c.context_id, a);
            &&& guard_sound(after.graph, input.id, a, after.step)
            &&& after.graph.fault.is_none()
            &&& after.step == c.step + 1
            &&& found.is_ok()
            &&& found.unwrap() is Flat
            &&& found.unwrap() == arrangement_at(after.graph, a).value
            &&& weight_of(found.unwrap()->Flat_0, q) == wadd(
                wadd(weight_of(map_at(c.graph, a), q), held(input_at(c.graph, input.id), q)),
                batch_weight(writes, q),
            )
            &&& held(input_at(after.graph, input.id), q) == 0
        }),
{
    let i = input.id;
    lemma_writes_keep_guard(c, input, a, writes, q);
    let written = crate::feedback::update_all(c, input, writes);
    let c2 = written.committed();
    let g = c2.graph;
    let fuel = crate::graph::full_fuel(g) as nat;
    assert(fuel >= 3);
    assert(guard_sound(g, i, a, c2.step));
    lemma_read_after_commit(g, i, a, c2.step, fuel, q);
    lemma_direct_read(g, i, a, c2.step, fuel);
    let m = weight_of(map_at(c.graph, a), q);
    let h = held(input_at(c.graph, i), q);
    let b = batch_weight(writes, q);
    crate::monoid::lemma_wadd_associates(m, h, b);
}

/// Changes keep the guard sound, and add to what the input holds what they
/// give in all.
pub proof fn lemma_writes_keep_guard<F: Function>(
    c: crate::context::ExecView<F>,
    input: crate::context::Input,
    a: usize,
    writes: Seq<(Value, isize)>,
    q: Value,
)
    requires
        guard_sound(c.graph, input.id, a, c.step),
        input.context_id == c.context_id,
    ensures
        ({
            let written = crate::feedback::update_all(c, input, writes);
            &&& guard_sound(written.graph, input.id, a, c.step)
            &&& written.step == c.step
            &&& written.context_id == c.context_id
            &&& written.graph.fault == c.graph.fault
            &&& arrangement_at(written.graph, a) == arrangement_at(c.graph, a)
            &&& held(input_at(written.graph, input.id), q) == wadd(
                held(input_at(c.graph, input.id), q),
                batch_weight(writes, q),
            )
        }),
    decreases writes.len(),
{
    if writes.len() == 0 {
        crate::monoid::lemma_wadd_zero(held(input_at(c.graph, input.id), q));
    } else {
        lemma_writes_keep_guard(c, input, a, writes.drop_last(), q);
        let before = crate::feedback::update_all(c, input, writes.drop_last());
        lemma_update_keeps_guard(
            before.graph,
            input.id,
            a,
            before.step,
            before.tracking_id,
            writes.last().0,
            writes.last().1,
            q,
        );
        let d: isize = if q == writes.last().0 {
            writes.last().1
        } else {
            0
        };
        crate::monoid::lemma_wadd_associates(
            held(input_at(c.graph, input.id), q),
            batch_weight(writes.drop_last(), q),
            d,
        );
    }
}

/// In a graph that was just made, the guard of an arrangement that reads an
/// input directly is sound: the input holds nothing, and neither does the
/// arrangement.
pub proof fn lemma_fresh_guard_sound<F: Function>(g: GraphView<F>, i: usize, a: usize, q: Value)
    requires
        reads_directly(g, i, a),
        g.wf(),
        input_at(g, i) == InputView::fresh(),
        arrangement_at(g, a) == ArrangementView::fresh(i, false),
    ensures
        guard_sound(g, i, a, 0),
        held(input_at(g, i), q) == 0,
        weight_of(map_at(g, a), q) == 0,
{
    reveal(held);
    assert(!crate::map::has_key(Seq::<(Value, isize)>::empty(), q));
}

/// Taking back what was recorded under a tracking id keeps the guard
/// sound, where the clock has advanced past the step at which the
/// arrangement last pulled.
pub proof fn lemma_undo_keeps_guard<F: Function>(
    g: GraphView<F>,
    i: usize,
    a: usize,
    step: usize,
    id: usize,
    q: Value,
)
    requires
        guard_sound(g, i, a, step),
    ensures
        ({
            let (g1, res) = crate::access::undo_input(g, i, step, id);
            &&& res.is_ok()
            &&& guard_sound(g1, i, a, step)
            &&& g1.fault == g.fault
            &&& arrangement_at(g1, a) == arrangement_at(g, a)
            &&& held(input_at(g1, i), q) == wadd(
                held(input_at(g, i), q),
                crate::monoid::wneg(crate::laws::mirrored(input_at(g, i), id, q)),
            )
        }),
{
    let v = input_at(g, i);
    assert(g.op(i) == Some(OperationView::<F>::Input(v)));
    assert(g.nodes[i as int].inner.wf());
    crate::laws::lemma_undone_takes_back(v, step, id, q);
    let w = v.undone(step, id);
    crate::graph::lemma_set_op_wf(g, i, OperationView::Input(w));
    crate::operator::input::lemma_resolved_wf(v, step);
}

/// The records and weights of changes.
pub open spec fn written(changes: Seq<crate::temporary::Change>) -> Seq<(Value, isize)> {
    Seq::new(changes.len(), |j: int| (changes[j].record, changes[j].weight))
}

/// Changes under a tracking id keep the guard sound, add to what the input
/// holds what they give in all, record the same under the id, and have the
/// input watched for the id.
pub proof fn lemma_changes_keep_guard<F: Function>(
    c: crate::context::ExecView<F>,
    input: crate::context::Input,
    a: usize,
    changes: Seq<crate::temporary::Change>,
    id: usize,
    q: Value,
)
    requires
        guard_sound(c.graph, input.id, a, c.step),
        crate::map::groups_wf(c.watched),
        input.context_id == c.context_id,
        c.tracking_id == Some(id),
        forall|j: int| 0 <= j < changes.len() ==> (#[trigger] changes[j]).input == input,
    ensures
        ({
            let (after, e) = crate::temporary::apply_changes(c, changes);
            &&& e.is_none()
            &&& guard_sound(after.graph, input.id, a, c.step)
            &&& crate::map::groups_wf(after.watched)
            &&& after.step == c.step
            &&& after.context_id == c.context_id
            &&& after.tracking_id == c.tracking_id
            &&& after.graph.fault == c.graph.fault
            &&& arrangement_at(after.graph, a) == arrangement_at(c.graph, a)
            &&& held(input_at(after.graph, input.id), q) == wadd(
                held(input_at(c.graph, input.id), q),
                batch_weight(written(changes), q),
            )
            &&& crate::laws::mirrored(input_at(after.graph, input.id), id, q) == wadd(
                crate::laws::mirrored(input_at(c.graph, input.id), id, q),
                batch_weight(written(changes), q),
            )
            &&& after.watched == if changes.len() == 0 {
                c.watched
            } else {
                crate::context::watch(c.watched, Some(id), input.id)
            }
        }),
    decreases changes.len(),
{
    let i = input.id;
    if changes.len() == 0 {
        crate::monoid::lemma_wadd_zero(held(input_at(c.graph, i), q));
        crate::monoid::lemma_wadd_zero(crate::laws::mirrored(input_at(c.graph, i), id, q));
        assert(written(changes) =~= Seq::<(Value, isize)>::empty());
    } else {
        let rest = changes.drop_last();
        lemma_changes_keep_guard(c, input, a, rest, id, q);
        let before = crate::temporary::apply_changes(c, rest).0;
        let last = changes.last();
        assert(last.input == input);
        lemma_update_keeps_guard(before.graph, i, a, before.step, Some(id), last.record, last.weight, q);
        let v = input_at(before.graph, i);
        assert(before.graph.nodes[i as int].inner.wf());
        lemma_updated_adds(v, before.step, Some(id), last.record, last.weight, id, q);
        assert(written(changes).drop_last() =~= written(rest));
        assert(written(changes).last() == (last.record, last.weight));
        let d: isize = if q == last.record {
            last.weight
        } else {
            0
        };
        crate::monoid::lemma_wadd_associates(
            held(input_at(c.graph, i), q),
            batch_weight(written(rest), q),
            d,
        );
        crate::monoid::lemma_wadd_associates(
            crate::laws::mirrored(input_at(c.graph, i), id, q),
            batch_weight(written(rest), q),
            d,
        );
        lemma_watch_once(c.watched, id, i);
        crate::map::lemma_group_add_wf(before.watched, Value::Nat(id), Value::Nat(i), 1);
    }
}

/// An input that is watched for a tracking id stays watched once.
pub proof fn lemma_watch_once(w: crate::map::Groups, id: usize, i: usize)
    requires
        crate::map::groups_wf(w),
    ensures
        crate::map::groups_wf(crate::context::watch(w, Some(id), i)),
        crate::map::has_key(
            crate::map::group_of(crate::context::watch(w, Some(id), i), Value::Nat(id)),
            Value::Nat(i),
        ),
        crate::context::watch(crate::context::watch(w, Some(id), i), Some(id), i)
            == crate::context::watch(w, Some(id), i),
        !crate::map::has_key(w, Value::Nat(id)) ==> crate::map::group_of(
            crate::context::watch(w, Some(id), i),
            Value::Nat(id),
        ) == seq![(Value::Nat(i), 1isize)],
{
    let k = Value::Nat(id);
    let m = Value::Nat(i);
    let group = crate::map::group_of(w, k);
    crate::laws::lemma_group_of_wf(w, k);
    if !crate::map::has_key(group, m) {
        crate::map::lemma_add_items_wf(group, m, 1);
        crate::map::lemma_set_group_wf(w, k, crate::map::add_items(group, m, 1));
        crate::laws::lemma_group_add_weight(w, k, m, 1, k, m);
        crate::map::lemma_group_add_wf(w, k, m, 1);
        let w1 = crate::map::group_add(w, k, m, 1);
        crate::laws::lemma_group_of_wf(w1, k);
        crate::weights::lemma_weight_zero(crate::map::group_of(w1, k), m);
        crate::weights::lemma_weight_zero(group, m);
        if !crate::map::has_key(w, k) {
            assert(group =~= Seq::<(Value, isize)>::empty());
            assert(crate::map::add_items(group, m, 1) =~= seq![(m, 1isize)]);
        }
    }
}

/// Temporary changes leave an arrangement as it was, where the arrangement
/// reads an input directly and the changes are written to that input. While
/// the changes are in effect the arrangement is read; afterwards the changes
/// are taken back. Then the next read gives, for every record, the weight
/// that it would give without the changes: what the arrangement held before
/// and what the input held before, and nothing of the changes.
#[verifier::rlimit(100)]
#[verifier::spinoff_prover]
pub proof fn lemma_temp_changes_leave_arrangements<F: Function>(
    c: crate::context::ExecView<F>,
    input: crate::context::Input,
    a: usize,
    changes: Seq<crate::temporary::Change>,
    q: Value,
)
    requires
        guard_sound(c.graph, input.id, a, c.step),
        crate::map::groups_wf(c.watched),
        input.context_id == c.context_id,
        c.graph.fault.is_none(),
        c.step <= usize::MAX - 4,
        forall|j: int| 0 <= j < changes.len() ==> (#[trigger] changes[j]).input == input,
        !crate::map::has_key(c.watched, Value::Nat((c.step + 1) as usize)),
        crate::laws::mirrored(input_at(c.graph, input.id), (c.step + 1) as usize, q) == 0,
    ensures
        ({
            let watch = seq![crate::arrangement::ArrangementG { context_id: c.context_id, id: a }];
            let (after, seen) = c.with_temp_changes(changes, watch);
            let (last, found) = after.read(c.context_id, a);
            &&& seen.is_ok()
            &&& after.step == c.step + 4
            &&& after.tracking_id == c.tracking_id
            &&& guard_sound(after.graph, input.id, a, after.step)
            &&& found.is_ok()
            &&& found.unwrap() is Flat
            &&& weight_of(found.unwrap()->Flat_0, q) == wadd(
                weight_of(map_at(c.graph, a), q),
                held(input_at(c.graph, input.id), q),
            )
        }),
{
    let i = input.id;
    let id = (c.step + 1) as usize;
    let arr = crate::arrangement::ArrangementG { context_id: c.context_id, id: a };
    let watch = seq![arr];
    let c1 = c.begun();
    lemma_changes_keep_guard(c1, input, a, changes, id, q);
    let (c2, e2) = crate::temporary::apply_changes(c1, changes);
    let c3 = c2.ended(c.tracking_id);
    // the arrangement is read while the changes are in effect
    assert(watch.drop_last() =~= Seq::<crate::arrangement::ArrangementG>::empty());
    assert(watch.last() == arr);
    reveal_with_fuel(crate::temporary::read_all, 3);
    let (c4, found4) = c3.read(c.context_id, a);
    let fuel3 = crate::graph::full_fuel(c3.graph) as nat;
    lemma_read_after_commit(c3.graph, i, a, c3.step, fuel3, q);
    lemma_direct_read(c3.graph, i, a, c3.step, fuel3);
    assert(c3.graph.nodes[i as int].inner.wf());
    lemma_resolved_keeps(input_at(c3.graph, i), c3.step, id, q);
    lemma_drained_hands_on(input_at(c3.graph, i).resolved(c3.step), c3.step, id, q);
    assert(crate::temporary::read_all(c3, watch).0 == c4);
    assert(crate::temporary::read_all(c3, watch).2.is_none());
    // the changes are taken back
    let c5 = c4.committed();
    let group = crate::map::group_of(c5.watched, Value::Nat(id));
    lemma_watch_once(c.watched, id, i);
    reveal_with_fuel(crate::temporary::undo_all, 3);
    lemma_undo_keeps_guard(c5.graph, i, a, c5.step, id, q);
    if changes.len() == 0 {
        assert(group =~= Seq::<(Value, isize)>::empty());
    } else {
        assert(group == seq![(Value::Nat(i), 1isize)]);
        assert(group.drop_last() =~= Seq::<(Value, isize)>::empty());
        assert(group.last() == (Value::Nat(i), 1isize));
    }
    let (c6, e6) = c5.rolled_back(id);
    assert(e6.is_none());
    assert(guard_sound(c6.graph, i, a, c6.step));
    // and the next read brings the arrangement back to where it was
    let fuel6 = crate::graph::full_fuel(c6.graph) as nat;
    lemma_read_after_commit(c6.graph, i, a, c6.step, fuel6, q);
    lemma_direct_read(c6.graph, i, a, c6.step, fuel6);
    let m0 = weight_of(map_at(c.graph, a), q);
    let h0 = held(input_at(c.graph, i), q);
    let d = batch_weight(written(changes), q);
    assert(held(input_at(c2.graph, i), q) == wadd(h0, d));
    assert(crate::laws::mirrored(input_at(c2.graph, i), id, q) == wadd(0, d));
    lemma_round_trip_weights(m0, h0, d);
    assert(c.with_temp_changes(changes, watch).0 == c6);
}

/// The sum behind temporary changes that leave an arrangement as it was.
proof fn lemma_round_trip_weights(m: isize, h: isize, d: isize)
    ensures
        wadd(wadd(m, wadd(h, d)), wadd(0, crate::monoid::wneg(wadd(0, d)))) == wadd(m, h),
{
}

/// A graph that was built as an input and an arrangement of it is one in
/// which the arrangement reads the input directly, and its guard is sound
/// from the start: the input and the arrangement hold nothing.
pub proof fn lemma_built_reads_directly<F: Function>(g0: GraphView<F>, q: Value)
    requires
        g0.nodes.len() == 0,
    ensures
        ({
            let g1 = crate::builder::with_new_input(g0);
            let g2 = crate::builder::with_arrangement(g1, 0, false, 0);
            &&& guard_sound(g2, 0, 1, 0)
            &&& held(input_at(g2, 0), q) == 0
            &&& weight_of(map_at(g2, 1), q) == 0
            &&& g2.fault == g0.fault
        }),
{
    let g1 = crate::builder::with_new_input(g0);
    let g2 = crate::builder::with_arrangement(g1, 0, false, 0);
    assert(g1.nodes.len() == 1);
    assert(crate::maker::shown_ancestor(g1, 0) == 0);
    assert(g1.nodes[0].info.inputs =~= seq![0usize]) by {
        assert(!Seq::<usize>::empty().contains(0usize));
    }
    assert(g2.nodes.len() == 2);
    assert(g2.nodes[0] == g1.nodes[0]);
    assert forall|n: int| 0 <= n < g2.nodes.len() implies (#[trigger] g2.nodes[n]).inner.wf() by {}
    lemma_fresh_guard_sound(g2, 0, 1, q);
}

} // verus!
