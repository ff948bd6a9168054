//! Incrementality: nothing flows where nothing changed, and what flows is
//! bounded by what changed and the state that the changes meet.

use crate::map::{add_all, add_items, group_of, Groups};
use crate::function::Function;
use crate::function::MapFn;
use crate::operator::join::{anti_flow, anti_left, join_flow, join_pass, AntiJoinView, JoinView};
use crate::operator::map::flat_map_all;
use crate::operator::reduce::{changed_keys, diff_emit, diff_new, reduce_flow, ReduceView};
use crate::operator::triangles::{triangles_flow, TrianglesView};
use crate::value::Value;
use vstd::prelude::*;

verus! {

/// A join that gets nothing sends nothing and stays as it is.
pub proof fn lemma_join_at_rest(v: JoinView)
    ensures
        join_flow(v, Seq::empty(), Seq::empty()) == (v, Seq::<(Value, isize)>::empty()),
{
    assert(join_flow(v, Seq::empty(), Seq::empty()).1 =~= Seq::<(Value, isize)>::empty());
}

/// An antijoin that gets nothing sends nothing and stays as it is.
pub proof fn lemma_antijoin_at_rest(v: AntiJoinView)
    ensures
        anti_flow(v, Seq::empty(), Seq::empty()) == (v, Seq::<(Value, isize)>::empty()),
{
    assert(anti_flow(v, Seq::empty(), Seq::empty()).1 =~= Seq::<(Value, isize)>::empty());
}

/// A reduce that gets nothing sends nothing and stays as it is.
pub proof fn lemma_reduce_at_rest<F: Function>(v: ReduceView<F>)
    ensures
        reduce_flow(v, Seq::empty()) == (v, Seq::<(Value, isize)>::empty()),
{
}

/// A triangle join that gets nothing sends nothing and stays as it is.
pub proof fn lemma_triangles_at_rest(v: TrianglesView)
    ensures
        triangles_flow(v, Seq::empty(), Seq::empty(), Seq::empty()) == (
            v,
            Seq::<(Value, isize)>::empty(),
        ),
{
    assert(triangles_flow(v, Seq::empty(), Seq::empty(), Seq::empty()).1 =~= Seq::<
        (Value, isize),
    >::empty());
}

/// A flat map that gets nothing sends nothing.
pub proof fn lemma_flat_map_at_rest<F: Function>(op: MapFn<F>)
    ensures
        flat_map_all(op, Seq::empty()) == Seq::<(Value, isize)>::empty(),
{
}

/// The number of entries that the records of a batch meet on the other side
/// of a join: for each record the size of the group under its key.
pub open spec fn met(other: Groups, batch: Seq<(Value, isize)>) -> nat
    decreases batch.len(),
{
    if batch.len() == 0 {
        0
    } else {
        met(other, batch.drop_last()) + group_of(other, batch.last().0.first()).len()
    }
}

/// A join sends, for a batch, one record for each entry that a record of the
/// batch meets: no more than the batch and the groups under its keys account
/// for.
pub proof fn lemma_join_pass_len(other: Groups, batch: Seq<(Value, isize)>, left_side: bool)
    ensures
        join_pass(other, batch, left_side).len() == met(other, batch),
    decreases batch.len(),
{
    if batch.len() > 0 {
        lemma_join_pass_len(other, batch.drop_last(), left_side);
    }
}

/// Adding a weight makes a map longer by one entry at most.
pub proof fn lemma_add_items_len(s: Seq<(Value, isize)>, k: Value, v: isize)
    ensures
        add_items(s, k, v).len() <= s.len() + 1,
{
}

/// A batch that is added up has no more records than before.
pub proof fn lemma_consolidate_len(s: Seq<(Value, isize)>, batch: Seq<(Value, isize)>)
    ensures
        add_all(s, batch).len() <= s.len() + batch.len(),
    decreases batch.len(),
{
    if batch.len() > 0 {
        lemma_consolidate_len(s, batch.drop_last());
        lemma_add_items_len(add_all(s, batch.drop_last()), batch.last().0, batch.last().1);
    }
}

/// A reduce brings no more keys up to date than its batch has records.
pub proof fn lemma_changed_keys_len(batch: Seq<(Value, isize)>)
    ensures
        changed_keys(batch).len() <= batch.len(),
    decreases batch.len(),
{
    if batch.len() > 0 {
        lemma_changed_keys_len(batch.drop_last());
    }
}

/// The change of a key's output sends no more records than the new and the
/// old output have entries.
pub proof fn lemma_diff_emit_len(k: Value, new: Seq<(Value, isize)>, old: Seq<(Value, isize)>)
    ensures
        diff_new(k, new, old).0.len() <= old.len(),
        diff_new(k, new, old).1.len() <= new.len(),
        diff_emit(k, new, old).len() <= new.len() + old.len(),
    decreases new.len(),
{
    if new.len() > 0 {
        lemma_diff_emit_len(k, new.drop_last(), old);
    }
}

/// An antijoin sends for a batch of its left side no more records than the
/// batch has.
pub proof fn lemma_anti_left_len(right: Seq<(Value, isize)>, batch: Seq<(Value, isize)>)
    ensures
        anti_left(right, batch).len() <= batch.len(),
    decreases batch.len(),
{
    if batch.len() > 0 {
        lemma_anti_left_len(right, batch.drop_last());
    }
}

} // verus!
