//! What holds of the engine whatever it is fed: zeros never stay,
//! changes that cancel leave no trace, nothing flows where nothing changed,
//! and temporary changes are taken back in full.

use crate::map::{
    add_items, group_add, group_of, groups_wf, has_key, index_of, items_wf, lemma_add_all_wf,
    lemma_add_items_wf, lemma_group_add_wf, lemma_set_group_wf, remove_items, set_group, to_map,
    weight_of, Groups,
};
use crate::monoid::{wadd, wneg};
use crate::operator::input::{lemma_resolved_wf, negated, InputView};
use crate::value::Value;
use crate::weights::{
    batch_weight, lemma_batch_weight_negated, lemma_batch_weight_of_items, lemma_equal_weights,
    lemma_weight_add_all, lemma_weight_add_items,
};
use vstd::prelude::*;

verus! {

/// Adding a weight to a record and then the weight that cancels it leaves a
/// map as it was.
pub proof fn lemma_self_cancellation(s: Seq<(Value, isize)>, x: Value, r: isize)
    requires
        items_wf(s),
    ensures
        to_map(add_items(add_items(s, x, r), x, wneg(r))) == to_map(s),
        items_wf(add_items(add_items(s, x, r), x, wneg(r))),
{
    let t = add_items(s, x, r);
    let u = add_items(t, x, wneg(r));
    lemma_add_items_wf(s, x, r);
    lemma_add_items_wf(t, x, wneg(r));
    assert forall|q: Value| weight_of(u, q) == weight_of(s, q) by {
        lemma_weight_add_items(s, x, r, q);
        lemma_weight_add_items(t, x, wneg(r), q);
        lemma_weight_add_items(s, x, r, x);
    }
    lemma_equal_weights(u, s);
}

/// The group under a key of well-formed groups is well formed.
pub proof fn lemma_group_of_wf(g: Groups, k: Value)
    requires
        groups_wf(g),
    ensures
        items_wf(group_of(g, k)),
{
    if has_key(g, k) {
        assert(items_wf(g[index_of(g, k)].1));
    }
}

/// Adding a weight under an outer and an inner key changes the weight of
/// that inner key in that group, and no other weight.
pub proof fn lemma_group_add_weight(g: Groups, k1: Value, k2: Value, v: isize, a: Value, q: Value)
    requires
        groups_wf(g),
    ensures
        weight_of(group_of(group_add(g, k1, k2, v), a), q) == if a == k1 && q == k2 {
            wadd(weight_of(group_of(g, k1), k2), v)
        } else {
            weight_of(group_of(g, a), q)
        },
{
    lemma_group_of_wf(g, k1);
    if v != 0 {
        let items = add_items(group_of(g, k1), k2, v);
        lemma_add_items_wf(group_of(g, k1), k2, v);
        lemma_set_group_wf(g, k1, items);
        lemma_weight_add_items(group_of(g, k1), k2, v, q);
    }
}

/// Taking a group out leaves nothing under its key, and every other group
/// as it was.
pub proof fn lemma_remove_group(g: Groups, k: Value, a: Value)
    requires
        groups_wf(g),
    ensures
        groups_wf(remove_items(g, k)),
        group_of(remove_items(g, k), a) == if a == k {
            Seq::<(Value, isize)>::empty()
        } else {
            group_of(g, a)
        },
{
    lemma_set_group_wf(g, k, Seq::empty());
    assert(remove_items(g, k) == set_group(g, k, Seq::empty()));
}

/// What an input still holds of a record: what waits, and what is in the
/// open buffer.
#[verifier::opaque]
pub open spec fn held(v: InputView, q: Value) -> isize {
    wadd(weight_of(v.pending, q), weight_of(v.adding, q))
}

/// What is recorded for a record under a tracking id.
#[verifier::opaque]
pub open spec fn mirrored(v: InputView, id: usize, q: Value) -> isize {
    weight_of(group_of(v.mirrors, Value::Nat(id)), q)
}

/// Bringing an input to a step changes nothing of what it holds.
pub proof fn lemma_resolved_keeps(v: InputView, step: usize, id: usize, q: Value)
    requires
        v.wf(),
    ensures
        v.resolved(step).wf(),
        held(v.resolved(step), q) == held(v, q),
        mirrored(v.resolved(step), id, q) == mirrored(v, id, q),
        v.resolved(step).resolved(step) == v.resolved(step),
{
    reveal(held);
    reveal(mirrored);
    lemma_resolved_wf(v, step);
    if v.adding_step < step && v.adding.len() > 0 {
        lemma_weight_add_all(v.pending, v.adding, q);
        lemma_batch_weight_of_items(v.adding, q);
    }
}

/// A change adds to what an input holds of the record, and, under a tracking
/// id, to what is recorded for it.
pub proof fn lemma_updated_adds(
    v: InputView,
    step: usize,
    tracking: Option<usize>,
    x: Value,
    r: isize,
    id: usize,
    q: Value,
)
    requires
        v.wf(),
    ensures
        v.updated(step, tracking, x, r).wf(),
        held(v.updated(step, tracking, x, r), q) == wadd(
            held(v, q),
            if q == x {
                r
            } else {
                0
            },
        ),
        mirrored(v.updated(step, tracking, x, r), id, q) == wadd(
            mirrored(v, id, q),
            if q == x && tracking == Some(id) {
                r
            } else {
                0
            },
        ),
{
    reveal(held);
    reveal(mirrored);
    lemma_resolved_keeps(v, step, id, q);
    let w = v.resolved(step);
    lemma_add_items_wf(w.adding, x, r);
    lemma_weight_add_items(w.adding, x, r, q);
    match tracking {
        Some(t) => {
            lemma_group_add_wf(w.mirrors, Value::Nat(t), x, r);
            lemma_group_add_weight(w.mirrors, Value::Nat(t), x, r, Value::Nat(id), q);
        },
        None => {},
    }
}

/// What an input hands on and what it holds afterwards is what it held
/// before.
pub proof fn lemma_drained_hands_on(v: InputView, step: usize, id: usize, q: Value)
    requires
        v.wf(),
    ensures
        v.drained(step).wf(),
        wadd(batch_weight(v.resolved(step).pending, q), held(v.drained(step), q)) == held(v, q),
        mirrored(v.drained(step), id, q) == mirrored(v, id, q),
{
    reveal(held);
    reveal(mirrored);
    lemma_resolved_keeps(v, step, id, q);
    lemma_batch_weight_of_items(v.resolved(step).pending, q);
    assert(!has_key(Seq::<(Value, isize)>::empty(), q));
}

/// Taking back what was recorded under a tracking id takes exactly that off
/// what the input holds, and leaves nothing recorded under the id.
pub proof fn lemma_undone_takes_back(v: InputView, step: usize, id: usize, q: Value)
    requires
        v.wf(),
    ensures
        v.undone(step, id).wf(),
        held(v.undone(step, id), q) == wadd(held(v, q), wneg(mirrored(v, id, q))),
        mirrored(v.undone(step, id), id, q) == 0,
{
    reveal(held);
    reveal(mirrored);
    lemma_resolved_keeps(v, step, id, q);
    let w = v.resolved(step);
    let m = group_of(w.mirrors, Value::Nat(id));
    lemma_group_of_wf(w.mirrors, Value::Nat(id));
    lemma_add_all_wf(w.adding, negated(m));
    lemma_weight_add_all(w.adding, negated(m), q);
    lemma_batch_weight_negated(m, q);
    lemma_batch_weight_of_items(m, q);
    lemma_remove_group(w.mirrors, Value::Nat(id), Value::Nat(id));
    assert(!has_key(Seq::<(Value, isize)>::empty(), q));
}

/// Inserting a record and deleting it again within one step leaves nothing
/// to flow: the open buffer of the input is, as a map, what it would be
/// without the two changes, and what waits is the same.
pub proof fn lemma_insert_then_delete(v: InputView, step: usize, x: Value, r: isize)
    requires
        v.wf(),
    ensures
        ({
            let w = v.updated(step, None, x, r).updated(step, None, x, wneg(r));
            &&& to_map(w.adding) == to_map(v.resolved(step).adding)
            &&& w.pending == v.resolved(step).pending
            &&& w.pending_step == v.resolved(step).pending_step
            &&& w.adding_step == v.resolved(step).adding_step
            &&& w.mirrors == v.resolved(step).mirrors
        }),
{
    lemma_resolved_keeps(v, step, 0, x);
    let a = v.resolved(step);
    let b = v.updated(step, None, x, r);
    assert(b.resolved(step) == b);
    lemma_self_cancellation(a.adding, x, r);
}

/// The input after changes were written one after the other under a
/// tracking id, at one step.
pub open spec fn tracked_updates(v: InputView, step: usize, id: usize, changes: Seq<(Value, isize)>) -> InputView
    decreases changes.len(),
{
    if changes.len() == 0 {
        v
    } else {
        tracked_updates(v, step, id, changes.drop_last()).updated(
            step,
            Some(id),
            changes.last().0,
            changes.last().1,
        )
    }
}

/// Changes under a tracking id add to what the input holds what they give in
/// all, and the same is recorded under the id.
pub proof fn lemma_tracked_updates_add(
    v: InputView,
    step: usize,
    id: usize,
    changes: Seq<(Value, isize)>,
    q: Value,
)
    requires
        v.wf(),
    ensures
        tracked_updates(v, step, id, changes).wf(),
        held(tracked_updates(v, step, id, changes), q) == wadd(
            held(v, q),
            batch_weight(changes, q),
        ),
        mirrored(tracked_updates(v, step, id, changes), id, q) == wadd(
            mirrored(v, id, q),
            batch_weight(changes, q),
        ),
    decreases changes.len(),
{
    if changes.len() > 0 {
        let before = tracked_updates(v, step, id, changes.drop_last());
        lemma_tracked_updates_add(v, step, id, changes.drop_last(), q);
        lemma_updated_adds(before, step, Some(id), changes.last().0, changes.last().1, id, q);
        let d: isize = if q == changes.last().0 {
            changes.last().1
        } else {
            0
        };
        let b = batch_weight(changes.drop_last(), q);
        assert(batch_weight(changes, q) == wadd(b, d));
        crate::monoid::lemma_wadd_associates(held(v, q), b, d);
        crate::monoid::lemma_wadd_associates(mirrored(v, id, q), b, d);
    } else {
        crate::monoid::lemma_wadd_zero(held(v, q));
        crate::monoid::lemma_wadd_zero(mirrored(v, id, q));
    }
}

/// Temporary changes are taken back in full. Changes are written to an
/// input under a tracking id; the input hands on what waits, so that readers
/// see the changes; the changes are taken back, and the input hands on what
/// waits once more. Then, for every record, what was handed on in all and
/// what the input still holds is what the input held before the changes: of
/// the changes themselves nothing is left.
pub proof fn lemma_temp_changes_round_trip(
    v: InputView,
    id: usize,
    changes: Seq<(Value, isize)>,
    step: usize,
    seen_at: usize,
    undone_at: usize,
    after: usize,
    q: Value,
)
    requires
        v.wf(),
        mirrored(v, id, q) == 0,
    ensures
        ({
            let changed = tracked_updates(v, step, id, changes);
            let seen = changed.resolved(seen_at).pending;
            let rolled = changed.drained(seen_at).undone(undone_at, id);
            let rest = rolled.resolved(after).pending;
            wadd(wadd(batch_weight(seen, q), batch_weight(rest, q)), held(rolled.drained(after), q))
                == held(v, q)
        }),
{
    let changed = tracked_updates(v, step, id, changes);
    lemma_tracked_updates_add(v, step, id, changes, q);
    lemma_drained_hands_on(changed, seen_at, id, q);
    let read = changed.drained(seen_at);
    lemma_undone_takes_back(read, undone_at, id, q);
    let rolled = read.undone(undone_at, id);
    lemma_drained_hands_on(rolled, after, id, q);
    let h0 = held(v, q);
    let c = batch_weight(changes, q);
    let s1 = batch_weight(changed.resolved(seen_at).pending, q);
    let h2 = held(read, q);
    let h3 = held(rolled, q);
    let s2 = batch_weight(rolled.resolved(after).pending, q);
    let h4 = held(rolled.drained(after), q);
    let m = mirrored(read, id, q);
    assert(held(changed, q) == wadd(h0, c));
    assert(wadd(s1, h2) == wadd(h0, c));
    assert(m == wadd(0, c));
    assert(h3 == wadd(h2, wneg(m)));
    assert(wadd(s2, h4) == h3);
    lemma_round_trip_sum(h0, c, s1, h2, h3, s2, h4, m);
}

/// The sum behind the round trip of temporary changes.
proof fn lemma_round_trip_sum(
    h0: isize,
    c: isize,
    s1: isize,
    h2: isize,
    h3: isize,
    s2: isize,
    h4: isize,
    m: isize,
)
    requires
        wadd(s1, h2) == wadd(h0, c),
        m == wadd(0, c),
        h3 == wadd(h2, wneg(m)),
        wadd(s2, h4) == h3,
    ensures
        wadd(wadd(s1, s2), h4) == h0,
{
}

} // verus!
