//! Consistency of what is read, where an arrangement reads an input through
//! a map: after a commit the arrangement holds the image of everything that
//! was written to the input before the commit.

use crate::arrangement::{ArrangedView, ArrangementView};
use crate::function::{Function, MapFn};
use crate::graph::{
    changed_since, flow, needs_update, pull, pull_scope, pull_unary, refresh, GraphView,
};
use crate::image::{
    image_term, image_weight, lemma_image_add_all, lemma_image_add_items, lemma_map_sends_image,
};
use crate::map::{add_all, lemma_add_all_wf, weight_of};
use crate::monoid::wadd;
use crate::node::OperationView;
use crate::operator::input::InputView;
use crate::operator::map::{flat_map_all, FlatMap};
use crate::reading::{
    arrangement_at, input_at, lemma_input_flow, lemma_needs_update_single, map_at,
};
use crate::step::{step_lt, Step};
use crate::value::Value;
use crate::weights::lemma_weight_add_all;
use vstd::prelude::*;

verus! {

/// An arrangement reads an input through a map: the input is its own and
/// only source of changes, the map sends every record of the input to what
/// the function returns for it, and the arrangement, with a flat map, reads
/// the map.
pub open spec fn reads_through_map<F: Function>(g: GraphView<F>, i: usize, m: usize, a: usize, f: F) -> bool {
    &&& i != a
    &&& i != m
    &&& m != a
    &&& i < g.nodes.len()
    &&& m < g.nodes.len()
    &&& a < g.nodes.len()
    &&& g.nodes[i as int].inner is Input
    &&& g.nodes[m as int].inner == OperationView::FlatMap(FlatMap { inner: i, op: MapFn::Call(f) })
    &&& g.nodes[m as int].info.inputs == seq![i]
    &&& g.nodes[a as int].inner is Arrangement
    &&& g.nodes[a as int].inner->Arrangement_0.from == m
    &&& g.nodes[a as int].inner->Arrangement_0.value is Flat
}

/// What the input still holds of the image of a record: the image of what
/// waits and of what is in the open buffer.
pub open spec fn held_image<F: Function>(f: F, v: InputView, q: Value) -> isize {
    wadd(image_weight(f, v.pending, q), image_weight(f, v.adding, q))
}

/// What the arrangement knows of the input is right, as of the given step of
/// the clock: nothing that the input holds was written before the arrangement
/// last pulled.
pub open spec fn guard_sound_map<F: Function>(
    g: GraphView<F>,
    i: usize,
    m: usize,
    a: usize,
    f: F,
    step: usize,
) -> bool {
    let v = input_at(g, i);
    let av = arrangement_at(g, a);
    &&& reads_through_map(g, i, m, a, f)
    &&& g.nodes[i as int].inner.wf()
    &&& g.nodes[a as int].inner.wf()
    &&& v.adding_step <= step
    &&& av.step is Last
    &&& av.step->Last_0 <= step
    &&& (v.pending.len() > 0 ==> v.pending_step.is_some() && av.step->Last_0
        <= v.pending_step.unwrap() < v.adding_step)
    &&& (v.adding.len() > 0 ==> av.step->Last_0 <= v.adding_step)
}

/// What a map over an input sends when it is asked: the image of what waits
/// at the input.
pub proof fn lemma_map_flow<F: Function>(
    g: GraphView<F>,
    i: usize,
    m: usize,
    f: F,
    v: InputView,
    s: usize,
    fuel: nat,
)
    requires
        i != m,
        m < g.nodes.len(),
        g.op(i) == Some(OperationView::<F>::Input(v)),
        g.nodes[m as int].inner == OperationView::FlatMap(FlatMap { inner: i, op: MapFn::Call(f) }),
        v.adding_step <= s,
        fuel >= 2,
    ensures
        flow(g, m, Step::Last(s), fuel).1 == flat_map_all(MapFn::Call(f), v.resolved(s).pending),
        flow(g, m, Step::Last(s), fuel).0 == g.set_op(
            i,
            OperationView::Input(v.drained(s)),
        ).counted(i, v.resolved(s).pending.len()).counted(
            m,
            flat_map_all(MapFn::Call(f), v.resolved(s).pending).len(),
        ),
{
    reveal_with_fuel(flow, 2);
    reveal_with_fuel(pull, 2);
    reveal_with_fuel(pull_unary, 2);
    let f1 = (fuel - 1) as nat;
    lemma_input_flow(g, i, v, s, f1);
    let g1 = flow(g, i, Step::Last(s), f1).0;
    assert(g1.op(m) == Some(
        OperationView::<F>::FlatMap(FlatMap { inner: i, op: MapFn::Call(f) }),
    ));
}

/// What a read does where an arrangement reads an input through a map. Where
/// the arrangement is not behind the step, nothing changes. Else the input is
/// brought to the step; where a change is due, the arrangement adds the image
/// of what waited to its map and the input holds it no longer; where none is
/// due, nothing else changes.
#[verifier::rlimit(100)]
#[verifier::spinoff_prover]
pub proof fn lemma_map_read<F: Function>(
    g: GraphView<F>,
    i: usize,
    m: usize,
    a: usize,
    f: F,
    s: usize,
    fuel: nat,
)
    requires
        reads_through_map(g, i, m, a, f),
        input_at(g, i).adding_step <= s,
        fuel >= 4,
    ensures
        ({
            let v = input_at(g, i);
            let av = arrangement_at(g, a);
            let r = v.resolved(s);
            let behind = step_lt(av.step, Step::Last(s));
            let due = behind && changed_since(av.step, r.pending_step);
            let g1 = flow(g, a, Step::Last(s), fuel).0;
            &&& reads_through_map(g1, i, m, a, f)
            &&& g1.fault == g.fault
            &&& g1.nodes.len() == g.nodes.len()
            &&& input_at(g1, i) == if due {
                r.drained(s)
            } else if behind {
                r
            } else {
                v
            }
            &&& arrangement_at(g1, a) == if due {
                ArrangementView {
                    from: m,
                    value: ArrangedView::Flat(
                        add_all(map_at(g, a), flat_map_all(MapFn::Call(f), r.pending)),
                    ),
                    step: Step::Last(s),
                }
            } else {
                av
            }
        }),
{
    let v = input_at(g, i);
    let av = arrangement_at(g, a);
    let r = v.resolved(s);
    let step = Step::Last(s);
    let f1 = (fuel - 1) as nat;
    reveal_with_fuel(flow, 2);
    reveal_with_fuel(pull, 2);
    reveal_with_fuel(pull_scope, 2);
    reveal_with_fuel(refresh, 2);
    assert(g.op(a) == Some(OperationView::<F>::Arrangement(av)));
    assert(g.op(i) == Some(OperationView::<F>::Input(v)));
    assert(g.inputs_of(m) == seq![i]);
    lemma_needs_update_single(g, i, v, av.step, s);
    let g1 = g.set_op(i, OperationView::Input(r));
    let behind = step_lt(av.step, step);
    let due = behind && changed_since(av.step, r.pending_step);
    assert(needs_update(g, g.inputs_of(av.from), av.step, step) == (
        g1,
        changed_since(av.step, r.pending_step),
    ));
    if !behind {
        assert(refresh(g, a, step, f1) == g);
        assert(flow(g, a, step, fuel).0 == g.counted(a, 0));
    } else if due {
        let g2 = g1.set_op(a, OperationView::Arrangement(ArrangementView { step, ..av }));
        assert(g2.op(i) == Some(OperationView::<F>::Input(r)));
        assert(r.resolved(s) == r);
        lemma_map_flow(g2, i, m, f, r, s, f1);
        let g3 = flow(g2, m, step, f1).0;
        let batch = flat_map_all(MapFn::Call(f), r.pending);
        assert(flow(g2, m, step, f1).1 == batch);
        assert(g3.op(a) == Some(
            OperationView::<F>::Arrangement(ArrangementView { step, ..av }),
        ));
        let g4 = g3.set_op(
            a,
            OperationView::Arrangement(ArrangementView { step, ..av }.after(batch)),
        );
        assert(refresh(g, a, step, f1) == g4);
        assert(flow(g, a, step, fuel).0 == g4.counted(a, 0));
    } else {
        assert(refresh(g, a, step, f1) == g1);
        assert(flow(g, a, step, fuel).0 == g1.counted(a, 0));
    }
}

/// Bringing an input to a step changes nothing of the image of what it
/// holds.
pub proof fn lemma_resolved_keeps_image<F: Function>(f: F, v: InputView, step: usize, q: Value)
    requires
        v.wf(),
    ensures
        v.resolved(step).wf(),
        held_image(f, v.resolved(step), q) == held_image(f, v, q),
{
    crate::operator::input::lemma_resolved_wf(v, step);
    if v.adding_step < step && v.adding.len() > 0 {
        lemma_image_add_all(f, v.pending, v.adding, q);
        crate::monoid::lemma_wadd_zero(image_weight(f, add_all(v.pending, v.adding), q));
    }
}

/// A read through a map keeps the guard sound, and after a commit it brings
/// the image of everything over: the input holds nothing after the read, and
/// the arrangement holds, besides what it held, the image of what the input
/// held.
pub proof fn lemma_map_read_after_commit<F: Function>(
    g: GraphView<F>,
    i: usize,
    m: usize,
    a: usize,
    f: F,
    s: usize,
    fuel: nat,
    q: Value,
)
    requires
        guard_sound_map(g, i, m, a, f, s),
        fuel >= 4,
    ensures
        guard_sound_map(flow(g, a, Step::Last(s), fuel).0, i, m, a, f, s),
        input_at(g, i).adding_step < s ==> held_image(
            f,
            input_at(flow(g, a, Step::Last(s), fuel).0, i),
            q,
        ) == 0 && weight_of(map_at(flow(g, a, Step::Last(s), fuel).0, a), q) == wadd(
            weight_of(map_at(g, a), q),
            held_image(f, input_at(g, i), q),
        ),
{
    let v = input_at(g, i);
    let av = arrangement_at(g, a);
    let r = v.resolved(s);
    let sent = flat_map_all(MapFn::Call(f), r.pending);
    lemma_map_read(g, i, m, a, f, s, fuel);
    lemma_resolved_keeps_image(f, v, s, q);
    lemma_add_all_wf(map_at(g, a), sent);
    lemma_weight_add_all(map_at(g, a), sent, q);
    lemma_map_sends_image(f, r.pending, q);
    if v.adding_step < s {
        crate::monoid::lemma_wadd_zero(image_weight(f, r.pending, q));
        crate::monoid::lemma_wadd_zero(weight_of(map_at(g, a), q));
    }
}

/// A change keeps the guard sound, adds to the image of what the input holds
/// the weight of the change at the record that the function returns for it,
/// and leaves the arrangement as it is.
pub proof fn lemma_update_keeps_guard_map<F: Function>(
    g: GraphView<F>,
    i: usize,
    m: usize,
    a: usize,
    f: F,
    step: usize,
    tracking: Option<usize>,
    x: Value,
    r: isize,
    q: Value,
)
    requires
        guard_sound_map(g, i, m, a, f, step),
    ensures
        ({
            let (g1, res) = crate::access::update_input(g, i, step, tracking, x, r);
            &&& res.is_ok()
            &&& guard_sound_map(g1, i, m, a, f, step)
            &&& g1.fault == g.fault
            &&& g1.nodes.len() == g.nodes.len()
            &&& arrangement_at(g1, a) == arrangement_at(g, a)
            &&& held_image(f, input_at(g1, i), q) == wadd(
                held_image(f, input_at(g, i), q),
                image_term(f, (x, r), q),
            )
        }),
{
    let v = input_at(g, i);
    assert(g.op(i) == Some(OperationView::<F>::Input(v)));
    lemma_resolved_keeps_image(f, v, step, q);
    let res = v.resolved(step);
    crate::laws::lemma_updated_adds(v, step, tracking, x, r, 0, q);
    lemma_image_add_items(f, res.adding, x, r, q);
    crate::monoid::lemma_wadd_associates(
        image_weight(f, res.pending, q),
        image_weight(f, res.adding, q),
        image_term(f, (x, r), q),
    );
}

/// Changes keep the guard sound, and add to the image of what the input
/// holds the image of the changes.
pub proof fn lemma_writes_keep_guard_map<F: Function>(
    c: crate::context::ExecView<F>,
    input: crate::context::Input,
    m: usize,
    a: usize,
    f: F,
    writes: Seq<(Value, isize)>,
    q: Value,
)
    requires
        guard_sound_map(c.graph, input.id, m, a, f, c.step),
        input.context_id == c.context_id,
    ensures
        ({
            let written = crate::feedback::update_all(c, input, writes);
            &&& guard_sound_map(written.graph, input.id, m, a, f, c.step)
            &&& written.step == c.step
            &&& written.context_id == c.context_id
            &&& written.graph.fault == c.graph.fault
            &&& written.graph.nodes.len() == c.graph.nodes.len()
            &&& arrangement_at(written.graph, a) == arrangement_at(c.graph, a)
            &&& held_image(f, input_at(written.graph, input.id), q) == wadd(
                held_image(f, input_at(c.graph, input.id), q),
                image_weight(f, writes, q),
            )
        }),
    decreases writes.len(),
{
    if writes.len() == 0 {
        crate::monoid::lemma_wadd_zero(held_image(f, input_at(c.graph, input.id), q));
    } else {
        lemma_writes_keep_guard_map(c, input, m, a, f, writes.drop_last(), q);
        let before = crate::feedback::update_all(c, input, writes.drop_last());
        lemma_update_keeps_guard_map(
            before.graph,
            input.id,
            m,
            a,
            f,
            before.step,
            before.tracking_id,
            writes.last().0,
            writes.last().1,
            q,
        );
        crate::monoid::lemma_wadd_associates(
            held_image(f, input_at(c.graph, input.id), q),
            image_weight(f, writes.drop_last(), q),
            image_term(f, writes.last(), q),
        );
    }
}

/// Consistency, where an arrangement reads an input through a map. Changes
/// are written to the input, the clock advances, and the arrangement is read.
/// Then the read succeeds, and for every record the map that the reader gets
/// holds what the arrangement held before, the image of what the input held
/// before, and the image of the changes: the sum of the weights of all the
/// records that the function sends to it.
pub proof fn lemma_consistency_of_mapped_reads<F: Function>(
    c: crate::context::ExecView<F>,
    input: crate::context::Input,
    m: usize,
    a: usize,
    f: F,
    writes: Seq<(Value, isize)>,
    q: Value,
)
    requires
        guard_sound_map(c.graph, input.id, m, a, f, c.step),
        input.context_id == c.context_id,
        c.graph.fault.is_none(),
        c.step < usize::MAX,
    ensures
        ({
            let written = crate::feedback::update_all(c, input, writes);
            let (after, found) = written.committed().read(c.context_id, a);
            &&& guard_sound_map(after.graph, input.id, m, a, f, after.step)
            &&& after.graph.fault.is_none()
            &&& found.is_ok()
            &&& found.unwrap() is Flat
            &&& weight_of(found.unwrap()->Flat_0, q) == wadd(
                wadd(
                    weight_of(map_at(c.graph, a), q),
                    held_image(f, input_at(c.graph, input.id), q),
                ),
                image_weight(f, writes, q),
            )
            &&& held_image(f, input_at(after.graph, input.id), q) == 0
        }),
{
    let i = input.id;
    lemma_writes_keep_guard_map(c, input, m, a, f, writes, q);
    let written = crate::feedback::update_all(c, input, writes);
    let c2 = written.committed();
    let g = c2.graph;
    let fuel = crate::graph::full_fuel(g) as nat;
    assert(fuel >= 4);
    lemma_map_read_after_commit(g, i, m, a, f, c2.step, fuel, q);
    lemma_map_read(g, i, m, a, f, c2.step, fuel);
    crate::monoid::lemma_wadd_associates(
        weight_of(map_at(c.graph, a), q),
        held_image(f, input_at(c.graph, i), q),
        image_weight(f, writes, q),
    );
}

/// A graph that was built as an input, a map over it and an arrangement of
/// the map is one in which the arrangement reads the input through the map,
/// and its guard is sound from the start: the input and the arrangement hold
/// nothing.
pub proof fn lemma_built_reads_through_map<F: Function>(g0: GraphView<F>, f: F, q: Value)
    requires
        g0.nodes.len() == 0,
    ensures
        ({
            let g1 = crate::builder::with_new_input(g0);
            let g2 = crate::builder::with_flat_map(g1, 0, MapFn::Call(f), Some("map"@), false, 0);
            let g3 = crate::builder::with_arrangement(g2, 1, false, 0);
            &&& guard_sound_map(g3, 0, 1, 2, f, 0)
            &&& held_image(f, input_at(g3, 0), q) == 0
            &&& weight_of(map_at(g3, 2), q) == 0
            &&& g3.fault == g0.fault
        }),
{
    let g1 = crate::builder::with_new_input(g0);
    let g2 = crate::builder::with_flat_map(g1, 0, MapFn::Call(f), Some("map"@), false, 0);
    let g3 = crate::builder::with_arrangement(g2, 1, false, 0);
    assert(g1.nodes.len() == 1);
    assert(crate::maker::shown_ancestor(g1, 0) == 0);
    assert(g1.nodes[0].info.inputs =~= seq![0usize]) by {
        assert(!Seq::<usize>::empty().contains(0usize));
    }
    let made2 = crate::maker::made(
        g1,
        seq![0usize],
        OperationView::FlatMap(FlatMap { inner: 0, op: MapFn::Call(f) }),
        0,
    );
    assert(made2.nodes.len() == 2);
    assert(crate::maker::shown_ancestor(made2, 1) == 1);
    assert(g2.nodes.len() == 2);
    assert(g2.nodes[0] == g1.nodes[0]);
    assert(g2.nodes[1].info.inputs =~= seq![0usize]) by {
        let one = seq![0usize];
        assert(one.drop_last() =~= Seq::<usize>::empty());
        assert(crate::maker::union_inputs(g1, one.drop_last()) =~= Seq::<usize>::empty());
        assert(g1.inputs_of(0) == seq![0usize]);
        assert(one.last() == 0usize);
        let ins = seq![0usize];
        assert(ins.drop_last() =~= Seq::<usize>::empty());
        assert(crate::maker::with_members(Seq::<usize>::empty(), ins.drop_last()) =~= Seq::<
            usize,
        >::empty());
        assert(!Seq::<usize>::empty().contains(0usize));
        assert(crate::maker::with_members(Seq::<usize>::empty(), ins) =~= seq![0usize]);
    }
    let made3 = crate::maker::made(
        g2,
        seq![1usize],
        OperationView::Arrangement(ArrangementView::fresh(1, false)),
        0,
    );
    assert(made3.nodes.len() == 3);
    assert(g3 == made3.with_shown(2, false));
    assert(g3.nodes.len() == 3);
    assert(g3.nodes[0] == g1.nodes[0]);
    assert(g3.nodes[1] == g2.nodes[1]);
    assert(!crate::map::has_key(Seq::<(Value, isize)>::empty(), q));
}

} // verus!
