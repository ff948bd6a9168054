//! Consistency of the state that operators keep: what a reduce holds as its
//! outputs is what its reduction gives for the groups it holds, and what it
//! has sent on adds up to those outputs.

use crate::function::{Function, Reduction};
use crate::laws::{lemma_group_of_wf};
use crate::map::{
    add_all, add_items, distinct_keys, group_add_all, group_of, groups_wf, has_key, index_of,
    items_wf, lemma_add_all_wf, lemma_group_add_all_wf, lemma_group_add_wf, lemma_index_unique,
    lemma_remove_at, lemma_set_group_wf, remove_items, weight_of, Groups,
};
use crate::monoid::{wadd, wneg, wsub};
use crate::operator::reduce::{
    changed_keys, diff_emit, diff_new, output_for, reduce_flow, reduce_keys,
    withdraw, ReduceView,
};
use crate::value::Value;
use crate::weights::{
    batch_weight, lemma_batch_weight_concat, lemma_batch_weight_of_items, lemma_weight_at,
    lemma_weight_zero,
};
use vstd::prelude::*;

verus! {

/// A sequence holds an element after a push exactly if it held it before or
/// the element was pushed.
pub proof fn lemma_contains_push<T>(s: Seq<T>, x: T, k: T)
    ensures
        s.push(x).contains(k) == (s.contains(k) || x == k),
{
    let p = s.push(x);
    if s.contains(k) {
        let i = choose|i: int| 0 <= i < s.len() && s[i] == k;
        assert(p[i] == k);
    }
    if x == k {
        assert(p[s.len() as int] == k);
    }
    if p.contains(k) {
        let i = choose|i: int| 0 <= i < p.len() && p[i] == k;
        if i < s.len() {
            assert(s[i] == k);
        }
    }
}

/// The keys that a reduce brings up to date are those of the records of its
/// batch.
pub proof fn lemma_changed_keys_are_keys(batch: Seq<(Value, isize)>, k: Value)
    ensures
        changed_keys(batch).contains(k) == exists|i: int|
            0 <= i < batch.len() && (#[trigger] batch[i]).0.first() == k,
    decreases batch.len(),
{
    if batch.len() == 0 {
        assert(!changed_keys(batch).contains(k));
    } else {
        let rest = batch.drop_last();
        lemma_changed_keys_are_keys(rest, k);
        let keys = changed_keys(rest);
        let kl = batch.last().0.first();
        lemma_contains_push(keys, kl, k);
        if changed_keys(batch).contains(k) {
            if keys.contains(k) {
                let i = choose|i: int| 0 <= i < rest.len() && (#[trigger] rest[i]).0.first() == k;
                assert(batch[i].0.first() == k);
            } else {
                assert(batch[batch.len() - 1].0.first() == k);
            }
        }
        if exists|i: int| 0 <= i < batch.len() && (#[trigger] batch[i]).0.first() == k {
            let i = choose|i: int| 0 <= i < batch.len() && (#[trigger] batch[i]).0.first() == k;
            if i < rest.len() {
                assert(rest[i].0.first() == k);
            }
        }
    }
}

/// A batch changes the groups of the keys of its records only.
pub proof fn lemma_group_add_all_frame(g: Groups, batch: Seq<(Value, isize)>, k: Value)
    requires
        groups_wf(g),
        !changed_keys(batch).contains(k),
    ensures
        group_of(group_add_all(g, batch), k) == group_of(g, k),
    decreases batch.len(),
{
    if batch.len() > 0 {
        let rest = batch.drop_last();
        let kl = batch.last().0.first();
        lemma_contains_push(changed_keys(rest), kl, k);
        lemma_group_add_all_frame(g, rest, k);
        lemma_group_add_all_wf(g, rest);
        let g1 = group_add_all(g, rest);
        if batch.last().1 != 0 {
            lemma_group_of_wf(g1, kl);
            crate::map::lemma_add_items_wf(group_of(g1, kl), batch.last().0.second(), batch.last().1);
            lemma_set_group_wf(
                g1,
                kl,
                add_items(group_of(g1, kl), batch.last().0.second(), batch.last().1),
            );
        }
    }
}

/// The output of a reduction for a key is well formed.
pub proof fn lemma_output_for_wf<F: Function>(proc: Reduction<F>, k: Value, group: Seq<(Value, isize)>)
    ensures
        items_wf(output_for(proc, k, group)),
{
    if group.len() > 0 {
        lemma_add_all_wf(Seq::empty(), proc.apply_spec(k, group));
    }
}

/// Bringing keys up to date sets the output of each of them to what the
/// reduction gives for its group, and leaves every other output as it is.
pub proof fn lemma_reduce_keys_sets<F: Function>(
    proc: Reduction<F>,
    inputs: Groups,
    outputs: Groups,
    keys: Seq<Value>,
    k: Value,
)
    requires
        groups_wf(outputs),
    ensures
        groups_wf(reduce_keys(proc, inputs, outputs, keys).0),
        group_of(reduce_keys(proc, inputs, outputs, keys).0, k) == if keys.contains(k) {
            output_for(proc, k, group_of(inputs, k))
        } else {
            group_of(outputs, k)
        },
    decreases keys.len(),
{
    if keys.len() == 0 {
        assert(!keys.contains(k));
    } else {
        let rest = keys.drop_last();
        let kl = keys.last();
        lemma_reduce_keys_sets(proc, inputs, outputs, rest, k);
        let o1 = reduce_keys(proc, inputs, outputs, rest).0;
        let new = output_for(proc, kl, group_of(inputs, kl));
        lemma_output_for_wf(proc, kl, group_of(inputs, kl));
        lemma_set_group_wf(o1, kl, new);
        assert(keys =~= rest.push(kl));
        lemma_contains_push(rest, kl, k);
    }
}

/// What a reduce holds is consistent: the output under every key is what the
/// reduction gives for the group under that key.
pub open spec fn reduce_consistent<F: Function>(v: ReduceView<F>) -> bool {
    forall|k: Value| #[trigger]
        group_of(v.output_maps, k) == output_for(v.proc, k, group_of(v.input_maps, k))
}

/// A reduce without groups and outputs is consistent.
pub proof fn lemma_fresh_reduce_consistent<F: Function>(v: ReduceView<F>)
    requires
        v.input_maps.len() == 0,
        v.output_maps.len() == 0,
    ensures
        reduce_consistent(v),
{
    assert forall|k: Value| #[trigger]
        group_of(v.output_maps, k) == output_for(v.proc, k, group_of(v.input_maps, k)) by {
        assert(!has_key(v.input_maps, k));
        assert(!has_key(v.output_maps, k));
    }
}

/// A step of a reduce keeps it consistent: after every batch, the output
/// under every key is what the reduction gives for the key's group as it is
/// then.
pub proof fn lemma_reduce_stays_consistent<F: Function>(v: ReduceView<F>, batch: Seq<(Value, isize)>)
    requires
        v.wf(),
        reduce_consistent(v),
    ensures
        reduce_flow(v, batch).0.wf(),
        reduce_consistent(reduce_flow(v, batch).0),
{
    let w = reduce_flow(v, batch).0;
    let inputs = group_add_all(v.input_maps, batch);
    let keys = changed_keys(batch);
    lemma_group_add_all_wf(v.input_maps, batch);
    lemma_reduce_keys_sets(v.proc, inputs, v.output_maps, keys, Value::Unit);
    assert forall|k: Value| #[trigger]
        group_of(w.output_maps, k) == output_for(w.proc, k, group_of(w.input_maps, k)) by {
        lemma_reduce_keys_sets(v.proc, inputs, v.output_maps, keys, k);
        if !keys.contains(k) {
            lemma_group_add_all_frame(v.input_maps, batch, k);
            assert(group_of(v.output_maps, k) == output_for(
                v.proc,
                k,
                group_of(v.input_maps, k),
            ));
        }
    }
}

/// What a consistent distinct holds under a key: `Unit` once where the key
/// has a group, and nothing where it has none.
pub proof fn lemma_distinct_output<F: Function>(v: ReduceView<F>, k: Value)
    requires
        v.proc is Distinct,
        reduce_consistent(v),
    ensures
        group_of(v.output_maps, k) == if group_of(v.input_maps, k).len() > 0 {
            seq![(Value::Unit, 1isize)]
        } else {
            Seq::<(Value, isize)>::empty()
        },
{
    assert(group_of(v.output_maps, k) == output_for(v.proc, k, group_of(v.input_maps, k)));
    if group_of(v.input_maps, k).len() > 0 {
        let one = seq![(Value::Unit, 1isize)];
        assert(one.drop_last() =~= Seq::<(Value, isize)>::empty());
        assert(add_all(Seq::empty(), one.drop_last()) == Seq::<(Value, isize)>::empty());
        assert(!has_key(Seq::<(Value, isize)>::empty(), Value::Unit));
        assert(add_all(Seq::empty(), one) =~= one);
    }
}

/// Distinct is idempotent. Where a second distinct has a group for exactly
/// the keys that a first one has an output for, as it has when it reads the
/// first, both hold the same outputs.
pub proof fn lemma_distinct_idempotent<F: Function>(first: ReduceView<F>, second: ReduceView<F>)
    requires
        first.proc is Distinct,
        second.proc is Distinct,
        reduce_consistent(first),
        reduce_consistent(second),
        forall|k: Value|
            (#[trigger] group_of(second.input_maps, k)).len() > 0 <==> group_of(
                first.output_maps,
                k,
            ).len() > 0,
    ensures
        forall|k: Value| #[trigger]
            group_of(second.output_maps, k) == group_of(first.output_maps, k),
{
    assert forall|k: Value| #[trigger]
        group_of(second.output_maps, k) == group_of(first.output_maps, k) by {
        lemma_distinct_output(first, k);
        lemma_distinct_output(second, k);
        assert(group_of(second.input_maps, k).len() > 0 <==> group_of(first.output_maps, k).len()
            > 0);
    }
}

/// Whether a record is a pair under the given key.
pub open spec fn of_key(q: Value, k: Value) -> bool {
    q is Pair && q.first() == k
}

/// Taking a key out gives it weight zero and leaves every other weight.
pub proof fn lemma_weight_remove(s: Seq<(Value, isize)>, k: Value, q: Value)
    requires
        items_wf(s),
    ensures
        items_wf(remove_items(s, k)),
        weight_of(remove_items(s, k), q) == if q == k {
            0
        } else {
            weight_of(s, q)
        },
{
    if has_key(s, k) {
        let i = index_of(s, k);
        lemma_remove_at(s, i);
        let r = s.remove(i);
        assert forall|a: int| 0 <= a < r.len() implies (#[trigger] r[a]).1 != 0 by {
            assert(r[a] == s[if a < i {
                a
            } else {
                a + 1
            }]);
        }
        if q != k && has_key(s, q) {
            assert(r[index_of(r, q)] == s[index_of(s, q)]);
        }
    }
}

/// The weights of a map in terms of those of the map without its last
/// entry.
pub proof fn lemma_weight_drop_last(s: Seq<(Value, isize)>, q: Value)
    requires
        distinct_keys(s),
        s.len() > 0,
    ensures
        distinct_keys(s.drop_last()),
        !has_key(s.drop_last(), s.last().0),
        has_key(s, q) == (q == s.last().0 || has_key(s.drop_last(), q)),
        weight_of(s, q) == if q == s.last().0 {
            s.last().1
        } else {
            weight_of(s.drop_last(), q)
        },
{
    let r = s.drop_last();
    let n = s.len() - 1;
    assert(distinct_keys(r)) by {
        assert forall|i: int, j: int| 0 <= i < j < r.len() implies (#[trigger] r[i]).0 != (
        #[trigger] r[j]).0 by {
            assert(s[i].0 != s[j].0);
        }
    }
    if has_key(r, s.last().0) {
        let i = index_of(r, s.last().0);
        assert(s[i].0 != s[n].0);
    }
    lemma_weight_at(s, n);
    if has_key(r, q) {
        let i = index_of(r, q);
        assert(s[i] == r[i]);
        lemma_index_unique(r, i);
        lemma_index_unique(s, i);
    }
    if has_key(s, q) && q != s.last().0 {
        let i = index_of(s, q);
        assert(r[i] == s[i]);
        lemma_index_unique(r, i);
        lemma_index_unique(s, i);
    }
}

/// What is left of an old output, and what was sent for the entries of the
/// new one, record by record.
pub proof fn lemma_diff_new_weights(k: Value, new: Seq<(Value, isize)>, old: Seq<(Value, isize)>, x: Value)
    requires
        items_wf(new),
        items_wf(old),
    ensures
        items_wf(diff_new(k, new, old).0),
        weight_of(diff_new(k, new, old).0, x) == if has_key(new, x) {
            0
        } else {
            weight_of(old, x)
        },
        batch_weight(diff_new(k, new, old).1, Value::pair_of(k, x)) == if has_key(new, x) {
            wsub(weight_of(new, x), weight_of(old, x))
        } else {
            0
        },
        forall|q: Value|
            !of_key(q, k) ==> #[trigger] batch_weight(diff_new(k, new, old).1, q) == 0,
    decreases new.len(),
{
    if new.len() == 0 {
        assert(!has_key(new, x));
    } else {
        let rest_new = new.drop_last();
        let e = new.last();
        lemma_weight_drop_last(new, x);
        assert(items_wf(rest_new)) by {
            assert forall|i: int| 0 <= i < rest_new.len() implies (#[trigger] rest_new[i]).1
                != 0 by {
                assert(new[i].1 != 0);
            }
        }
        lemma_diff_new_weights(k, rest_new, old, x);
        lemma_diff_new_weights(k, rest_new, old, e.0);
        let (rest, out) = diff_new(k, rest_new, old);
        lemma_weight_remove(rest, e.0, x);
        let d = wsub(e.1, weight_of(rest, e.0));
        assert(Value::pair_of(k, e.0) == Value::pair_of(k, x) <==> e.0 == x);
        if d != 0 {
            assert(out.push((Value::pair_of(k, e.0), d)).drop_last() =~= out);
        }
        assert forall|q: Value| !of_key(q, k) implies #[trigger] batch_weight(
            diff_new(k, new, old).1,
            q,
        ) == 0 by {
            assert(of_key(Value::pair_of(k, e.0), k));
            assert(batch_weight(out, q) == 0);
            if d != 0 {
                assert(out.push((Value::pair_of(k, e.0), d)).drop_last() =~= out);
            }
        }
    }
}

/// What taking back the rest of an old output gives a record: the negation
/// of its weight there.
pub proof fn lemma_withdraw_weight(k: Value, rest: Seq<(Value, isize)>, x: Value)
    ensures
        batch_weight(withdraw(k, rest), Value::pair_of(k, x)) == wneg(batch_weight(rest, x)),
        forall|q: Value| !of_key(q, k) ==> #[trigger] batch_weight(withdraw(k, rest), q) == 0,
    decreases rest.len(),
{
    if rest.len() > 0 {
        lemma_withdraw_weight(k, rest.drop_last(), x);
        assert(withdraw(k, rest).drop_last() =~= withdraw(k, rest.drop_last()));
        assert(withdraw(k, rest).last() == (
            Value::pair_of(k, rest.last().0),
            wneg(rest.last().1),
        ));
        assert(Value::pair_of(k, rest.last().0) == Value::pair_of(k, x) <==> rest.last().0 == x);
        assert forall|q: Value| !of_key(q, k) implies #[trigger] batch_weight(
            withdraw(k, rest),
            q,
        ) == 0 by {
            assert(of_key(Value::pair_of(k, rest.last().0), k));
            assert(batch_weight(withdraw(k, rest.drop_last()), q) == 0);
        }
    } else {
        assert(withdraw(k, rest) =~= Seq::empty());
    }
}

/// What the change of a key's output sends adds up, for every record, to the
/// difference of its weight in the new output and in the old one; and it
/// sends records of that key only.
pub proof fn lemma_diff_emit_weight(k: Value, new: Seq<(Value, isize)>, old: Seq<(Value, isize)>, x: Value)
    requires
        items_wf(new),
        items_wf(old),
    ensures
        batch_weight(diff_emit(k, new, old), Value::pair_of(k, x)) == wsub(
            weight_of(new, x),
            weight_of(old, x),
        ),
        forall|q: Value| !of_key(q, k) ==> #[trigger] batch_weight(diff_emit(k, new, old), q) == 0,
{
    let (rest, out) = diff_new(k, new, old);
    lemma_diff_new_weights(k, new, old, x);
    lemma_withdraw_weight(k, rest, x);
    lemma_batch_weight_of_items(rest, x);
    lemma_batch_weight_concat(out, withdraw(k, rest), Value::pair_of(k, x));
    lemma_weight_zero(new, x);
    assert forall|q: Value| !of_key(q, k) implies #[trigger] batch_weight(
        diff_emit(k, new, old),
        q,
    ) == 0 by {
        lemma_batch_weight_concat(out, withdraw(k, rest), q);
        assert(batch_weight(out, q) == 0);
        assert(batch_weight(withdraw(k, rest), q) == 0);
    }
}

/// No key is brought up to date twice.
pub proof fn lemma_changed_keys_distinct(batch: Seq<(Value, isize)>)
    ensures
        forall|i: int, j: int|
            0 <= i < j < changed_keys(batch).len() ==> changed_keys(batch)[i] != changed_keys(
                batch,
            )[j],
    decreases batch.len(),
{
    if batch.len() > 0 {
        lemma_changed_keys_distinct(batch.drop_last());
        let keys = changed_keys(batch.drop_last());
        let k = batch.last().0.first();
        if !keys.contains(k) {
            assert forall|i: int, j: int| 0 <= i < j < keys.push(k).len() implies keys.push(k)[i]
                != keys.push(k)[j] by {
                if j == keys.len() {
                    assert(keys[i] != k);
                }
            }
        }
    }
}

/// What bringing keys up to date sends adds up, for every record, to the
/// change of its weight in the outputs.
pub proof fn lemma_reduce_keys_send_change<F: Function>(
    proc: Reduction<F>,
    inputs: Groups,
    outputs: Groups,
    keys: Seq<Value>,
    k: Value,
    x: Value,
)
    requires
        groups_wf(outputs),
        forall|i: int, j: int| 0 <= i < j < keys.len() ==> keys[i] != keys[j],
    ensures
        batch_weight(
            reduce_keys(proc, inputs, outputs, keys).1,
            Value::pair_of(k, x),
        ) == wsub(
            weight_of(group_of(reduce_keys(proc, inputs, outputs, keys).0, k), x),
            weight_of(group_of(outputs, k), x),
        ),
    decreases keys.len(),
{
    if keys.len() > 0 {
        let rest = keys.drop_last();
        let kl = keys.last();
        assert forall|i: int, j: int| 0 <= i < j < rest.len() implies rest[i] != rest[j] by {
            assert(keys[i] != keys[j]);
        }
        lemma_reduce_keys_send_change(proc, inputs, outputs, rest, k, x);
        lemma_reduce_keys_sets(proc, inputs, outputs, rest, k);
        lemma_reduce_keys_sets(proc, inputs, outputs, rest, kl);
        lemma_reduce_keys_sets(proc, inputs, outputs, keys, k);
        let (o1, out1) = reduce_keys(proc, inputs, outputs, rest);
        let new = output_for(proc, kl, group_of(inputs, kl));
        lemma_output_for_wf(proc, kl, group_of(inputs, kl));
        lemma_group_of_wf(o1, kl);
        let piece = diff_emit(kl, new, group_of(o1, kl));
        lemma_diff_emit_weight(kl, new, group_of(o1, kl), x);
        lemma_batch_weight_concat(out1, piece, Value::pair_of(k, x));
        lemma_set_group_wf(o1, kl, new);
        assert(keys =~= rest.push(kl));
        lemma_contains_push(rest, kl, k);
        if kl == k {
            assert(!rest.contains(k)) by {
                if rest.contains(k) {
                    let i = choose|i: int| 0 <= i < rest.len() && rest[i] == k;
                    assert(keys[i] != keys[keys.len() - 1]);
                }
            }
        } else {
            assert(!of_key(Value::pair_of(k, x), kl));
            assert(batch_weight(piece, Value::pair_of(k, x)) == 0);
        }
    } else {
        assert(!keys.contains(k));
    }
}

/// What a reduce sends adds up to its outputs: for every key and record, the
/// weight of the record in the old output and what the step sends for it
/// give its weight in the new output. So whoever adds up what a reduce sends
/// holds the outputs of the reduce.
pub proof fn lemma_reduce_sends_what_changes<F: Function>(
    v: ReduceView<F>,
    batch: Seq<(Value, isize)>,
    k: Value,
    x: Value,
)
    requires
        v.wf(),
    ensures
        wadd(
            weight_of(group_of(v.output_maps, k), x),
            batch_weight(reduce_flow(v, batch).1, Value::pair_of(k, x)),
        ) == weight_of(group_of(reduce_flow(v, batch).0.output_maps, k), x),
{
    lemma_changed_keys_distinct(batch);
    lemma_reduce_keys_send_change(
        v.proc,
        group_add_all(v.input_maps, batch),
        v.output_maps,
        changed_keys(batch),
        k,
        x,
    );
}

/// The weight of an inner key in the group of an outer key.
pub open spec fn cell(g: Groups, k: Value, x: Value) -> isize {
    weight_of(group_of(g, k), x)
}

/// The weight that a batch gives in all to the records with the given first
/// and second component.
pub open spec fn keyed_weight(batch: Seq<(Value, isize)>, k: Value, x: Value) -> isize
    decreases batch.len(),
{
    if batch.len() == 0 {
        0
    } else {
        wadd(
            keyed_weight(batch.drop_last(), k, x),
            if batch.last().0.first() == k && batch.last().0.second() == x {
                batch.last().1
            } else {
                0
            },
        )
    }
}

/// A batch adds to every weight of the groups what it gives the records of
/// that key and inner key.
pub proof fn lemma_group_add_all_weight(g: Groups, batch: Seq<(Value, isize)>, k: Value, x: Value)
    requires
        groups_wf(g),
    ensures
        groups_wf(group_add_all(g, batch)),
        cell(group_add_all(g, batch), k, x) == wadd(cell(g, k, x), keyed_weight(batch, k, x)),
    decreases batch.len(),
{
    if batch.len() > 0 {
        let rest = batch.drop_last();
        lemma_group_add_all_weight(g, rest, k, x);
        let g1 = group_add_all(g, rest);
        let rec = batch.last().0;
        crate::laws::lemma_group_add_weight(g1, rec.first(), rec.second(), batch.last().1, k, x);
        lemma_group_add_wf(g1, rec.first(), rec.second(), batch.last().1);
        let d: isize = if rec.first() == k && rec.second() == x {
            batch.last().1
        } else {
            0
        };
        crate::monoid::lemma_wadd_associates(cell(g, k, x), keyed_weight(rest, k, x), d);
    }
}

/// What a record that meets a group sends for a joined record: its weight
/// times the weight of the partner in the group, where the record is the
/// joined record's own part, and nothing else.
pub proof fn lemma_join_emit_weight(
    rec: Value,
    r: isize,
    other: Seq<(Value, isize)>,
    left_side: bool,
    k: Value,
    x: Value,
    y: Value,
)
    requires
        distinct_keys(other),
    ensures
        batch_weight(
            crate::operator::join::join_emit(rec, r, other, left_side),
            Value::pair_of(k, Value::pair_of(x, y)),
        ) == if left_side {
            if rec.first() == k && rec.second() == x {
                crate::monoid::wmul(r, weight_of(other, y))
            } else {
                0
            }
        } else {
            if rec.first() == k && rec.second() == y {
                crate::monoid::wmul(weight_of(other, x), r)
            } else {
                0
            }
        },
    decreases other.len(),
{
    let out = crate::operator::join::join_emit(rec, r, other, left_side);
    let target = Value::pair_of(k, Value::pair_of(x, y));
    crate::ring::lemma_wmul_zero(r);
    if other.len() == 0 {
        assert(!has_key(other, x));
        assert(!has_key(other, y));
    } else {
        let rest = other.drop_last();
        lemma_weight_drop_last(other, x);
        lemma_weight_drop_last(other, y);
        lemma_join_emit_weight(rec, r, rest, left_side, k, x, y);
        assert(out.drop_last() =~= crate::operator::join::join_emit(rec, r, rest, left_side));
        let e = other.last();
        if left_side {
            assert(out.last() == (
                Value::pair_of(rec.first(), Value::pair_of(rec.second(), e.0)),
                crate::monoid::wmul(r, e.1),
            ));
            assert(out.last().0 == target <==> rec.first() == k && rec.second() == x && e.0 == y);
            if rec.first() == k && rec.second() == x && e.0 != y {
                crate::monoid::lemma_wadd_zero(crate::monoid::wmul(r, weight_of(rest, y)));
            }
            if rec.first() == k && rec.second() == x && e.0 == y {
                assert(weight_of(rest, y) == 0) by {
                    assert(!has_key(rest, y));
                }
            }
        } else {
            assert(out.last() == (
                Value::pair_of(rec.first(), Value::pair_of(e.0, rec.second())),
                crate::monoid::wmul(e.1, r),
            ));
            assert(out.last().0 == target <==> rec.first() == k && rec.second() == y && e.0 == x);
            if rec.first() == k && rec.second() == y && e.0 != x {
                crate::monoid::lemma_wadd_zero(crate::monoid::wmul(weight_of(rest, x), r));
            }
            if rec.first() == k && rec.second() == y && e.0 == x {
                assert(weight_of(rest, x) == 0) by {
                    assert(!has_key(rest, x));
                }
            }
        }
    }
}

/// What a batch sends for a joined record when it meets the other side: what
/// the batch gives the record's own part, times the weight of the partner on
/// the other side.
pub proof fn lemma_join_pass_weight(
    other: Groups,
    batch: Seq<(Value, isize)>,
    left_side: bool,
    k: Value,
    x: Value,
    y: Value,
)
    requires
        groups_wf(other),
    ensures
        batch_weight(
            crate::operator::join::join_pass(other, batch, left_side),
            Value::pair_of(k, Value::pair_of(x, y)),
        ) == if left_side {
            crate::monoid::wmul(keyed_weight(batch, k, x), cell(other, k, y))
        } else {
            crate::monoid::wmul(cell(other, k, x), keyed_weight(batch, k, y))
        },
    decreases batch.len(),
{
    let target = Value::pair_of(k, Value::pair_of(x, y));
    if batch.len() == 0 {
        crate::ring::lemma_wmul_zero(cell(other, k, x));
        crate::ring::lemma_wmul_zero(cell(other, k, y));
    } else {
        let rest = batch.drop_last();
        let rec = batch.last().0;
        let r = batch.last().1;
        lemma_join_pass_weight(other, rest, left_side, k, x, y);
        let group = group_of(other, rec.first());
        lemma_group_of_wf(other, rec.first());
        lemma_join_emit_weight(rec, r, group, left_side, k, x, y);
        lemma_batch_weight_concat(
            crate::operator::join::join_pass(other, rest, left_side),
            crate::operator::join::join_emit(rec, r, group, left_side),
            target,
        );
        if left_side {
            let before = keyed_weight(rest, k, x);
            if rec.first() == k && rec.second() == x {
                crate::ring::lemma_wmul_distributes(before, r, cell(other, k, y));
            } else {
                crate::monoid::lemma_wadd_zero(before);
                crate::monoid::lemma_wadd_zero(crate::monoid::wmul(before, cell(other, k, y)));
            }
        } else {
            let before = keyed_weight(rest, k, y);
            if rec.first() == k && rec.second() == y {
                crate::ring::lemma_wmul_distributes(before, r, cell(other, k, x));
            } else {
                crate::monoid::lemma_wadd_zero(before);
                crate::monoid::lemma_wadd_zero(crate::monoid::wmul(cell(other, k, x), before));
            }
        }
    }
}

/// What a join sends adds up to the join of what it holds: for every joined
/// record, the product of the weights of its parts before the step and what
/// the step sends for it give the product of the weights of its parts after
/// the step. So whoever adds up what a join sends holds, for every pair of a
/// record on the left and one on the right with the same key, the product of
/// their weights.
pub proof fn lemma_join_sends_what_changes(
    v: crate::operator::join::JoinView,
    left: Seq<(Value, isize)>,
    right: Seq<(Value, isize)>,
    k: Value,
    x: Value,
    y: Value,
)
    requires
        v.wf(),
    ensures
        crate::operator::join::join_flow(v, left, right).0.wf(),
        wadd(
            crate::monoid::wmul(cell(v.left_map, k, x), cell(v.right_map, k, y)),
            batch_weight(
                crate::operator::join::join_flow(v, left, right).1,
                Value::pair_of(k, Value::pair_of(x, y)),
            ),
        ) == crate::monoid::wmul(
            cell(crate::operator::join::join_flow(v, left, right).0.left_map, k, x),
            cell(crate::operator::join::join_flow(v, left, right).0.right_map, k, y),
        ),
{
    let target = Value::pair_of(k, Value::pair_of(x, y));
    let left_map = group_add_all(v.left_map, left);
    lemma_group_add_all_weight(v.left_map, left, k, x);
    lemma_group_add_all_weight(v.right_map, right, k, y);
    lemma_join_pass_weight(v.right_map, left, true, k, x, y);
    lemma_join_pass_weight(left_map, right, false, k, x, y);
    lemma_batch_weight_concat(
        crate::operator::join::join_pass(v.right_map, left, true),
        crate::operator::join::join_pass(left_map, right, false),
        target,
    );
    crate::ring::lemma_product_grows(
        cell(v.left_map, k, x),
        keyed_weight(left, k, x),
        cell(v.right_map, k, y),
        keyed_weight(right, k, y),
    );
}

/// The join with its sides exchanged.
pub open spec fn exchanged(v: crate::operator::join::JoinView) -> crate::operator::join::JoinView {
    crate::operator::join::JoinView {
        left: v.right,
        right: v.left,
        left_map: v.right_map,
        right_map: v.left_map,
    }
}

/// Join is symmetric. A join and the join with its sides exchanged, fed the
/// same batches, stay each other's mirror image, and for every pair of
/// records the one sends for `(k, (x, y))` what the other sends for
/// `(k, (y, x))`: with the parts of the second swapped, whoever adds them up
/// holds the same.
pub proof fn lemma_join_symmetry(
    v: crate::operator::join::JoinView,
    left: Seq<(Value, isize)>,
    right: Seq<(Value, isize)>,
    k: Value,
    x: Value,
    y: Value,
)
    requires
        v.wf(),
    ensures
        crate::operator::join::join_flow(exchanged(v), right, left).0 == exchanged(
            crate::operator::join::join_flow(v, left, right).0,
        ),
        batch_weight(
            crate::operator::join::join_flow(exchanged(v), right, left).1,
            Value::pair_of(k, Value::pair_of(y, x)),
        ) == batch_weight(
            crate::operator::join::join_flow(v, left, right).1,
            Value::pair_of(k, Value::pair_of(x, y)),
        ),
{
    let w = exchanged(v);
    lemma_join_sends_what_changes(v, left, right, k, x, y);
    lemma_join_sends_what_changes(w, right, left, k, y, x);
    let a = crate::operator::join::join_flow(v, left, right);
    let b = crate::operator::join::join_flow(w, right, left);
    crate::ring::lemma_wmul_commutes(cell(v.left_map, k, x), cell(v.right_map, k, y));
    crate::ring::lemma_wmul_commutes(cell(a.0.left_map, k, x), cell(a.0.right_map, k, y));
    let p = crate::monoid::wmul(cell(v.left_map, k, x), cell(v.right_map, k, y));
    let q = crate::monoid::wmul(cell(a.0.left_map, k, x), cell(a.0.right_map, k, y));
    let s1 = batch_weight(a.1, Value::pair_of(k, Value::pair_of(x, y)));
    let s2 = batch_weight(b.1, Value::pair_of(k, Value::pair_of(y, x)));
    assert(wadd(p, s1) == q);
    assert(wadd(p, s2) == q);
    lemma_cancel(p, s1, s2);
}

/// Two weights that give the same sum with a third are the same.
pub proof fn lemma_cancel(p: isize, a: isize, b: isize)
    requires
        wadd(p, a) == wadd(p, b),
    ensures
        a == b,
{
}

/// A flat map treats every record on its own: what it sends for two batches
/// in a row is what it sends for the one, followed by what it sends for the
/// other.
pub proof fn lemma_flat_map_concat<F: Function>(
    op: crate::function::MapFn<F>,
    a: Seq<(Value, isize)>,
    b: Seq<(Value, isize)>,
)
    ensures
        crate::operator::map::flat_map_all(op, a + b) == crate::operator::map::flat_map_all(op, a)
            + crate::operator::map::flat_map_all(op, b),
    decreases b.len(),
{
    if b.len() == 0 {
        assert(a + b =~= a);
        assert(crate::operator::map::flat_map_all(op, a) + Seq::<(Value, isize)>::empty()
            =~= crate::operator::map::flat_map_all(op, a));
    } else {
        lemma_flat_map_concat(op, a, b.drop_last());
        assert((a + b).drop_last() =~= a + b.drop_last());
        assert((a + b).last() == b.last());
        let piece = op.apply_spec(b.last().0, b.last().1);
        assert((crate::operator::map::flat_map_all(op, a) + crate::operator::map::flat_map_all(
            op,
            b.drop_last(),
        )) + piece =~= crate::operator::map::flat_map_all(op, a) + (
        crate::operator::map::flat_map_all(op, b.drop_last()) + piece));
    }
}

/// Adding a batch up changes the weight of no record: what comes out of a
/// consolidate gives every record what went in.
pub proof fn lemma_consolidate_keeps_weights(batch: Seq<(Value, isize)>, q: Value)
    ensures
        items_wf(add_all(Seq::empty(), batch)),
        batch_weight(add_all(Seq::empty(), batch), q) == batch_weight(batch, q),
{
    lemma_add_all_wf(Seq::empty(), batch);
    crate::weights::lemma_weight_add_all(Seq::empty(), batch, q);
    lemma_batch_weight_of_items(add_all(Seq::empty(), batch), q);
    assert(!has_key(Seq::<(Value, isize)>::empty(), q));
}

/// An arrangement adds up what its relation sends: the weight of a record in
/// its map after a batch is its weight before and what the batch gives it.
pub proof fn lemma_arrangement_adds_up(
    v: crate::arrangement::ArrangementView,
    batch: Seq<(Value, isize)>,
    q: Value,
)
    requires
        v.wf(),
    ensures
        v.after(batch).wf(),
        match (v.value, v.after(batch).value) {
            (
                crate::arrangement::ArrangedView::Flat(before),
                crate::arrangement::ArrangedView::Flat(after),
            ) => weight_of(after, q) == wadd(weight_of(before, q), batch_weight(batch, q)),
            (
                crate::arrangement::ArrangedView::Grouped(before),
                crate::arrangement::ArrangedView::Grouped(after),
            ) => cell(after, q.first(), q.second()) == wadd(
                cell(before, q.first(), q.second()),
                keyed_weight(batch, q.first(), q.second()),
            ),
            _ => false,
        },
{
    match v.value {
        crate::arrangement::ArrangedView::Flat(m) => {
            lemma_add_all_wf(m, batch);
            crate::weights::lemma_weight_add_all(m, batch, q);
        },
        crate::arrangement::ArrangedView::Grouped(g) => {
            lemma_group_add_all_weight(g, batch, q.first(), q.second());
        },
    }
}

/// Every listener of a source sees every record once: what the source pulls
/// is added to what waits for each listener, and a listener that drains its
/// buffer takes nothing from any other.
pub proof fn lemma_listeners_see_once(
    s: crate::operator::split::SourceView,
    batch: Seq<(Value, isize)>,
    listener: usize,
    other: usize,
    q: Value,
)
    requires
        s.wf(),
        listener < s.listeners.len(),
        other < s.listeners.len(),
        other != listener,
    ensures
        s.accepted(batch).wf(),
        weight_of(s.accepted(batch).waiting(listener), q) == wadd(
            weight_of(s.waiting(listener), q),
            batch_weight(batch, q),
        ),
        s.taken(listener).waiting(listener) == Seq::<(Value, isize)>::empty(),
        s.taken(listener).waiting(other) == s.waiting(other),
{
    assert(items_wf(s.listeners[listener as int]));
    crate::weights::lemma_weight_add_all(s.listeners[listener as int], batch, q);
    assert forall|i: int| 0 <= i < s.accepted(batch).listeners.len() implies items_wf(
        #[trigger] s.accepted(batch).listeners[i],
    ) by {
        assert(items_wf(s.listeners[i]));
        lemma_add_all_wf(s.listeners[i], batch);
    }
}

/// What a variable is fed waits in it until it is read: the weight of a
/// record there after a batch is its weight before and what the batch gives
/// it.
pub proof fn lemma_variable_keeps(
    v: crate::operator::subgraph::simple_input::SimpleInputView,
    batch: Seq<(Value, isize)>,
    at: crate::step::Step,
    q: Value,
)
    requires
        v.wf(),
    ensures
        v.fed(batch, at).wf(),
        weight_of(v.fed(batch, at).pending, q) == wadd(
            weight_of(v.pending, q),
            batch_weight(batch, q),
        ),
        v.drained().pending == Seq::<(Value, isize)>::empty(),
{
    if batch.len() > 0 {
        lemma_add_all_wf(v.pending, batch);
        crate::weights::lemma_weight_add_all(v.pending, batch, q);
    }
}

/// What an antijoin stands for: the weight of a record of the left side
/// where the right side does not hold its key, and nothing where it does.
pub open spec fn survivor(left: Groups, right: Seq<(Value, isize)>, k: Value, x: Value) -> isize {
    if has_key(right, k) {
        0
    } else {
        cell(left, k, x)
    }
}

/// What a change of presence sends for a record: the weight that the left
/// side holds of it, taken back or given again, where the change is of its
/// key, and nothing else.
pub proof fn lemma_anti_emit_weight(
    key: Value,
    group: Seq<(Value, isize)>,
    negated: bool,
    k: Value,
    x: Value,
)
    requires
        distinct_keys(group),
    ensures
        batch_weight(
            crate::operator::join::anti_emit(key, group, negated),
            Value::pair_of(k, x),
        ) == if key == k {
            if negated {
                wneg(weight_of(group, x))
            } else {
                weight_of(group, x)
            }
        } else {
            0
        },
    decreases group.len(),
{
    let out = crate::operator::join::anti_emit(key, group, negated);
    if group.len() > 0 {
        let rest = group.drop_last();
        lemma_weight_drop_last(group, x);
        lemma_anti_emit_weight(key, rest, negated, k, x);
        assert(out.drop_last() =~= crate::operator::join::anti_emit(key, rest, negated));
        let e = group.last();
        assert(out.last().0 == Value::pair_of(key, e.0));
        assert(out.last().0 == Value::pair_of(k, x) <==> key == k && e.0 == x);
        if key == k && e.0 == x {
            assert(weight_of(rest, x) == 0) by {
                assert(!has_key(rest, x));
            }
        }
    } else {
        assert(!has_key(group, x));
    }
}

/// What a batch of the right side sends adds up to what it changes: for
/// every record, what the left side's record stood for before the batch and
/// what the batch sends give what it stands for after.
pub proof fn lemma_anti_right_weight(
    left: Groups,
    right: Seq<(Value, isize)>,
    batch: Seq<(Value, isize)>,
    k: Value,
    x: Value,
)
    requires
        groups_wf(left),
        items_wf(right),
    ensures
        items_wf(crate::operator::join::anti_right(left, right, batch).0),
        crate::operator::join::anti_right(left, right, batch).0 == add_all(right, batch),
        wadd(
            survivor(left, right, k, x),
            batch_weight(
                crate::operator::join::anti_right(left, right, batch).1,
                Value::pair_of(k, x),
            ),
        ) == survivor(left, crate::operator::join::anti_right(left, right, batch).0, k, x),
    decreases batch.len(),
{
    if batch.len() == 0 {
        crate::monoid::lemma_wadd_zero(survivor(left, right, k, x));
    } else {
        let rest = batch.drop_last();
        lemma_anti_right_weight(left, right, rest, k, x);
        let (r1, out) = crate::operator::join::anti_right(left, right, rest);
        let key = batch.last().0;
        let r2 = add_items(r1, key, batch.last().1);
        crate::map::lemma_add_items_wf(r1, key, batch.last().1);
        crate::weights::lemma_weight_add_items(r1, key, batch.last().1, k);
        lemma_weight_zero(r1, k);
        lemma_weight_zero(r2, k);
        lemma_weight_zero(r1, key);
        lemma_weight_zero(r2, key);
        if has_key(r2, key) != has_key(r1, key) {
            let piece = crate::operator::join::anti_emit(
                key,
                group_of(left, key),
                has_key(r2, key),
            );
            lemma_group_of_wf(left, key);
            lemma_anti_emit_weight(key, group_of(left, key), has_key(r2, key), k, x);
            lemma_batch_weight_concat(out, piece, Value::pair_of(k, x));
            crate::monoid::lemma_wadd_associates(
                survivor(left, right, k, x),
                batch_weight(out, Value::pair_of(k, x)),
                batch_weight(piece, Value::pair_of(k, x)),
            );
        }
    }
}

/// What a batch of the left side sends for a record: what the batch gives
/// the record, where the right side does not hold its key.
pub proof fn lemma_anti_left_weight(
    right: Seq<(Value, isize)>,
    batch: Seq<(Value, isize)>,
    k: Value,
    x: Value,
)
    ensures
        batch_weight(crate::operator::join::anti_left(right, batch), Value::pair_of(k, x))
            == if has_key(right, k) {
            0
        } else {
            keyed_weight(batch, k, x)
        },
    decreases batch.len(),
{
    if batch.len() > 0 {
        let rest = batch.drop_last();
        lemma_anti_left_weight(right, rest, k, x);
        let rec = batch.last().0;
        let out = crate::operator::join::anti_left(right, rest);
        if !has_key(right, rec.first()) {
            let e = (Value::pair_of(rec.first(), rec.second()), batch.last().1);
            assert(out.push(e).drop_last() =~= out);
            assert(e.0 == Value::pair_of(k, x) <==> rec.first() == k && rec.second() == x);
        } else {
            if rec.first() == k {
            } else {
                crate::monoid::lemma_wadd_zero(keyed_weight(rest, k, x));
            }
            crate::monoid::lemma_wadd_zero(
                batch_weight(out, Value::pair_of(k, x)),
            );
        }
        if !(rec.first() == k && rec.second() == x) {
            crate::monoid::lemma_wadd_zero(keyed_weight(rest, k, x));
        }
    }
}

/// What an antijoin sends adds up to what it stands for: for every record of
/// the left side, what the record stood for before the step and what the step
/// sends for it give what it stands for after the step. So whoever adds up
/// what an antijoin sends holds the records of the left side whose key the
/// right side does not hold.
pub proof fn lemma_antijoin_sends_what_changes(
    v: crate::operator::join::AntiJoinView,
    right: Seq<(Value, isize)>,
    left: Seq<(Value, isize)>,
    k: Value,
    x: Value,
)
    requires
        v.wf(),
    ensures
        crate::operator::join::anti_flow(v, right, left).0.wf(),
        wadd(
            survivor(v.left_map, v.right_map, k, x),
            batch_weight(
                crate::operator::join::anti_flow(v, right, left).1,
                Value::pair_of(k, x),
            ),
        ) == survivor(
            crate::operator::join::anti_flow(v, right, left).0.left_map,
            crate::operator::join::anti_flow(v, right, left).0.right_map,
            k,
            x,
        ),
{
    let (right_map, out) = crate::operator::join::anti_right(v.left_map, v.right_map, right);
    lemma_anti_right_weight(v.left_map, v.right_map, right, k, x);
    lemma_anti_left_weight(right_map, left, k, x);
    lemma_group_add_all_weight(v.left_map, left, k, x);
    lemma_batch_weight_concat(
        out,
        crate::operator::join::anti_left(right_map, left),
        Value::pair_of(k, x),
    );
    crate::monoid::lemma_wadd_associates(
        survivor(v.left_map, v.right_map, k, x),
        batch_weight(out, Value::pair_of(k, x)),
        batch_weight(crate::operator::join::anti_left(right_map, left), Value::pair_of(k, x)),
    );
    crate::monoid::lemma_wadd_zero(survivor(v.left_map, right_map, k, x));
}

/// An arrangement of a join stays consistent. Where the arrangement holds,
/// for a joined record, the product of the weights of its parts in the join,
/// it does so again after the join has taken a step and the arrangement has
/// added what the join sent.
pub proof fn lemma_arranged_join_stays_consistent(
    v: crate::operator::join::JoinView,
    arranged: Seq<(Value, isize)>,
    left: Seq<(Value, isize)>,
    right: Seq<(Value, isize)>,
    k: Value,
    x: Value,
    y: Value,
)
    requires
        v.wf(),
        items_wf(arranged),
        weight_of(arranged, Value::pair_of(k, Value::pair_of(x, y))) == crate::monoid::wmul(
            cell(v.left_map, k, x),
            cell(v.right_map, k, y),
        ),
    ensures
        ({
            let (after, sent) = crate::operator::join::join_flow(v, left, right);
            weight_of(add_all(arranged, sent), Value::pair_of(k, Value::pair_of(x, y)))
                == crate::monoid::wmul(cell(after.left_map, k, x), cell(after.right_map, k, y))
        }),
{
    let sent = crate::operator::join::join_flow(v, left, right).1;
    lemma_join_sends_what_changes(v, left, right, k, x, y);
    crate::weights::lemma_weight_add_all(arranged, sent, Value::pair_of(k, Value::pair_of(x, y)));
}

/// An arrangement of an antijoin stays consistent. Where the arrangement
/// holds, for a record of the left side, its weight there if the right side
/// does not hold its key, and nothing if it does, it does so again after the
/// antijoin has taken a step and the arrangement has added what it sent.
pub proof fn lemma_arranged_antijoin_stays_consistent(
    v: crate::operator::join::AntiJoinView,
    arranged: Seq<(Value, isize)>,
    right: Seq<(Value, isize)>,
    left: Seq<(Value, isize)>,
    k: Value,
    x: Value,
)
    requires
        v.wf(),
        items_wf(arranged),
        weight_of(arranged, Value::pair_of(k, x)) == survivor(v.left_map, v.right_map, k, x),
    ensures
        ({
            let (after, sent) = crate::operator::join::anti_flow(v, right, left);
            weight_of(add_all(arranged, sent), Value::pair_of(k, x)) == survivor(
                after.left_map,
                after.right_map,
                k,
                x,
            )
        }),
{
    let sent = crate::operator::join::anti_flow(v, right, left).1;
    lemma_antijoin_sends_what_changes(v, right, left, k, x);
    crate::weights::lemma_weight_add_all(arranged, sent, Value::pair_of(k, x));
}

/// An arrangement of a reduce stays consistent. Where the arrangement holds,
/// for a key and a record, the weight of the record in the output of the
/// key, and the reduce is consistent, then after the reduce has taken a step
/// and the arrangement has added what it sent, the arrangement holds the
/// weight of the record in what the reduction gives for the group of the key
/// as it is then.
pub proof fn lemma_arranged_reduce_stays_consistent<F: Function>(
    v: ReduceView<F>,
    arranged: Seq<(Value, isize)>,
    batch: Seq<(Value, isize)>,
    k: Value,
    x: Value,
)
    requires
        v.wf(),
        reduce_consistent(v),
        items_wf(arranged),
        weight_of(arranged, Value::pair_of(k, x)) == cell(v.output_maps, k, x),
    ensures
        ({
            let (after, sent) = reduce_flow(v, batch);
            weight_of(add_all(arranged, sent), Value::pair_of(k, x)) == weight_of(
                output_for(after.proc, k, group_of(after.input_maps, k)),
                x,
            )
        }),
{
    let (after, sent) = reduce_flow(v, batch);
    lemma_reduce_sends_what_changes(v, batch, k, x);
    lemma_reduce_stays_consistent(v, batch);
    crate::weights::lemma_weight_add_all(arranged, sent, Value::pair_of(k, x));
    assert(group_of(after.output_maps, k) == output_for(
        after.proc,
        k,
        group_of(after.input_maps, k),
    ));
}

} // verus!
