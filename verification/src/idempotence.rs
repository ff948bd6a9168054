//! Distinct is idempotent: a distinct that reads a distinct holds what the
//! first one holds, step after step.

use crate::consistency::{
    cell, keyed_weight, lemma_distinct_output, lemma_group_add_all_weight,
    lemma_reduce_sends_what_changes, lemma_reduce_stays_consistent, reduce_consistent,
};
use crate::function::{Function, MapFn};
use crate::laws::lemma_group_of_wf;
use crate::map::{
    add_all, group_add_all, group_of, groups_wf, has_key, index_of, items_wf, lemma_add_all_wf,
    to_map, weight_of, Groups,
};
use crate::operator::map::flat_map_all;
use crate::operator::reduce::{
    diff_emit, diff_new, reduce_flow, reduce_keys, withdraw, ReduceView,
};
use crate::value::Value;
use crate::weights::{batch_weight, lemma_weight_add_all, lemma_weight_at, lemma_weight_zero};
use vstd::prelude::*;

verus! {

/// Every record of the batch is a pair.
pub open spec fn all_pairs(batch: Seq<(Value, isize)>) -> bool {
    forall|j: int| 0 <= j < batch.len() ==> (#[trigger] batch[j]).0 is Pair
}

/// What a batch of pairs gives the records with a first and a second
/// component is what it gives the pair of them.
pub proof fn lemma_keyed_weight_of_pairs(batch: Seq<(Value, isize)>, k: Value, x: Value)
    requires
        all_pairs(batch),
    ensures
        keyed_weight(batch, k, x) == batch_weight(batch, Value::pair_of(k, x)),
    decreases batch.len(),
{
    if batch.len() > 0 {
        let rest = batch.drop_last();
        assert(all_pairs(rest)) by {
            assert forall|j: int| 0 <= j < rest.len() implies (#[trigger] rest[j]).0 is Pair by {
                assert(batch[j].0 is Pair);
            }
        }
        lemma_keyed_weight_of_pairs(rest, k, x);
        let rec = batch.last().0;
        assert(batch[batch.len() - 1].0 is Pair);
        assert(rec == Value::pair_of(rec.first(), rec.second()));
        assert(rec == Value::pair_of(k, x) <==> rec.first() == k && rec.second() == x);
    }
}

/// What the change of a key's output sends are pairs.
pub proof fn lemma_diff_emit_pairs(k: Value, new: Seq<(Value, isize)>, old: Seq<(Value, isize)>)
    ensures
        all_pairs(diff_emit(k, new, old)),
{
    lemma_diff_new_pairs(k, new, old);
    let (rest, out) = diff_new(k, new, old);
    let w = withdraw(k, rest);
    assert forall|j: int| 0 <= j < (out + w).len() implies (#[trigger] (out + w)[j]).0 is Pair by {
        if j < out.len() {
            assert((out + w)[j] == out[j]);
        } else {
            assert((out + w)[j] == w[j - out.len()]);
        }
    }
}

proof fn lemma_diff_new_pairs(k: Value, new: Seq<(Value, isize)>, old: Seq<(Value, isize)>)
    ensures
        all_pairs(diff_new(k, new, old).1),
    decreases new.len(),
{
    if new.len() > 0 {
        lemma_diff_new_pairs(k, new.drop_last(), old);
        let out = diff_new(k, new.drop_last(), old).1;
        let full = diff_new(k, new, old).1;
        assert forall|j: int| 0 <= j < full.len() implies (#[trigger] full[j]).0 is Pair by {
            if j < out.len() {
                assert(full[j] == out[j]);
            }
        }
    }
}

/// What a reduce sends are pairs.
pub proof fn lemma_reduce_sends_pairs<F: Function>(v: ReduceView<F>, batch: Seq<(Value, isize)>)
    ensures
        all_pairs(reduce_flow(v, batch).1),
{
    lemma_reduce_keys_pairs(
        v.proc,
        group_add_all(v.input_maps, batch),
        v.output_maps,
        crate::operator::reduce::changed_keys(batch),
    );
}

proof fn lemma_reduce_keys_pairs<F: Function>(
    proc: crate::function::Reduction<F>,
    inputs: Groups,
    outputs: Groups,
    keys: Seq<Value>,
)
    ensures
        all_pairs(reduce_keys(proc, inputs, outputs, keys).1),
    decreases keys.len(),
{
    if keys.len() > 0 {
        lemma_reduce_keys_pairs(proc, inputs, outputs, keys.drop_last());
        let (o1, out) = reduce_keys(proc, inputs, outputs, keys.drop_last());
        let k = keys.last();
        let piece = diff_emit(
            k,
            crate::operator::reduce::output_for(proc, k, group_of(inputs, k)),
            group_of(o1, k),
        );
        lemma_diff_emit_pairs(
            k,
            crate::operator::reduce::output_for(proc, k, group_of(inputs, k)),
            group_of(o1, k),
        );
        assert forall|j: int| 0 <= j < (out + piece).len() implies (#[trigger] (out
            + piece)[j]).0 is Pair by {
            if j < out.len() {
                assert((out + piece)[j] == out[j]);
            } else {
                assert((out + piece)[j] == piece[j - out.len()]);
            }
        }
    }
}

/// The second reduce holds, as its groups, what the first one holds as its
/// outputs: every record has the same weight in both.
pub open spec fn reads<F: Function>(first: ReduceView<F>, second: ReduceView<F>) -> bool {
    forall|k: Value, x: Value| #[trigger]
        cell(second.input_maps, k, x) == cell(first.output_maps, k, x)
}

/// A group has an entry exactly where some record has a weight in it.
pub proof fn lemma_group_present(g: Groups, k: Value)
    requires
        groups_wf(g),
    ensures
        group_of(g, k).len() > 0 <==> exists|x: Value| #[trigger] cell(g, k, x) != 0,
{
    lemma_group_of_wf(g, k);
    let group = group_of(g, k);
    if group.len() > 0 {
        crate::map::lemma_index_unique(group, 0);
        lemma_weight_at(group, 0);
        assert(cell(g, k, group[0].0) != 0);
    }
    if exists|x: Value| #[trigger] cell(g, k, x) != 0 {
        let x = choose|x: Value| #[trigger] cell(g, k, x) != 0;
        lemma_weight_zero(group, x);
    }
}

/// A reduce that reads a reduce keeps reading it: where the second holds as
/// its groups what the first holds as its outputs, it does so again after the
/// first has taken a step and the second has taken a step with what the first
/// sent.
pub proof fn lemma_reads_stays<F: Function>(
    first: ReduceView<F>,
    second: ReduceView<F>,
    batch: Seq<(Value, isize)>,
)
    requires
        first.wf(),
        second.wf(),
        reads(first, second),
    ensures
        ({
            let (first_after, sent) = reduce_flow(first, batch);
            reads(first_after, reduce_flow(second, sent).0)
        }),
{
    let (first_after, sent) = reduce_flow(first, batch);
    let second_after = reduce_flow(second, sent).0;
    lemma_reduce_sends_pairs(first, batch);
    assert forall|k: Value, x: Value| #[trigger]
        cell(second_after.input_maps, k, x) == cell(first_after.output_maps, k, x) by {
        lemma_group_add_all_weight(second.input_maps, sent, k, x);
        lemma_keyed_weight_of_pairs(sent, k, x);
        lemma_reduce_sends_what_changes(first, batch, k, x);
        assert(cell(second.input_maps, k, x) == cell(first.output_maps, k, x));
    }
}

/// Distinct is idempotent, step after step. A distinct that reads a distinct
/// holds the same outputs as the one it reads, and keeps doing so: after the
/// first has taken a step with any batch and the second has taken a step with
/// what the first sent, both are consistent, the second still reads the
/// first, and under every key both hold the same output.
pub proof fn lemma_distinct_of_distinct<F: Function>(
    first: ReduceView<F>,
    second: ReduceView<F>,
    batch: Seq<(Value, isize)>,
)
    requires
        first.proc is Distinct,
        second.proc is Distinct,
        first.wf(),
        second.wf(),
        reduce_consistent(first),
        reduce_consistent(second),
        reads(first, second),
    ensures
        ({
            let (first_after, sent) = reduce_flow(first, batch);
            let second_after = reduce_flow(second, sent).0;
            &&& first_after.wf()
            &&& second_after.wf()
            &&& reduce_consistent(first_after)
            &&& reduce_consistent(second_after)
            &&& reads(first_after, second_after)
            &&& forall|k: Value| #[trigger]
                group_of(second_after.output_maps, k) == group_of(first_after.output_maps, k)
        }),
{
    let (first_after, sent) = reduce_flow(first, batch);
    let second_after = reduce_flow(second, sent).0;
    lemma_reduce_stays_consistent(first, batch);
    lemma_reduce_stays_consistent(second, sent);
    lemma_reads_stays(first, second, batch);
    lemma_same_outputs(first_after, second_after);
}

/// A consistent distinct that reads a consistent distinct holds the same
/// outputs.
pub proof fn lemma_same_outputs<F: Function>(first: ReduceView<F>, second: ReduceView<F>)
    requires
        first.proc is Distinct,
        second.proc is Distinct,
        first.wf(),
        second.wf(),
        reduce_consistent(first),
        reduce_consistent(second),
        reads(first, second),
    ensures
        forall|k: Value| #[trigger]
            group_of(second.output_maps, k) == group_of(first.output_maps, k),
{
    assert forall|k: Value| #[trigger]
        group_of(second.output_maps, k) == group_of(first.output_maps, k) by {
        lemma_distinct_output(first, k);
        lemma_distinct_output(second, k);
        lemma_group_present(second.input_maps, k);
        lemma_group_present(first.output_maps, k);
        if group_of(second.input_maps, k).len() > 0 {
            let x = choose|x: Value| #[trigger] cell(second.input_maps, k, x) != 0;
            assert(cell(first.output_maps, k, x) != 0);
        }
        if group_of(first.output_maps, k).len() > 0 {
            let x = choose|x: Value| #[trigger] cell(first.output_maps, k, x) != 0;
            assert(cell(second.input_maps, k, x) != 0);
        }
    }
}

/// Between two distincts a record is stripped of its `Unit` and paired with
/// it again, which changes nothing of what the first one sends.
pub proof fn lemma_between_distincts<F: Function>(sent: Seq<(Value, isize)>)
    requires
        with_units(sent),
    ensures
        flat_map_all(MapFn::<F>::WithUnit, flat_map_all(MapFn::<F>::First, sent)) == sent,
    decreases sent.len(),
{
    if sent.len() == 0 {
        assert(flat_map_all(MapFn::<F>::WithUnit, flat_map_all(MapFn::<F>::First, sent)) =~= sent);
    } else {
        let rest = sent.drop_last();
        lemma_between_distincts::<F>(rest);
        let e = sent.last();
        assert(sent[sent.len() - 1].0 == Value::pair_of(e.0.first(), Value::Unit));
        let stripped = flat_map_all(MapFn::<F>::First, rest);
        let one = MapFn::<F>::First.apply_spec(e.0, e.1);
        assert(one =~= seq![(e.0.first(), e.1)]);
        crate::consistency::lemma_flat_map_concat(MapFn::<F>::WithUnit, stripped, one);
        assert(one.drop_last() =~= Seq::<(Value, isize)>::empty());
        assert(flat_map_all(MapFn::<F>::WithUnit, one.drop_last()) =~= Seq::<
            (Value, isize),
        >::empty());
        assert(flat_map_all(MapFn::<F>::WithUnit, one) =~= seq![(e.0, e.1)]);
        assert(rest + seq![(e.0, e.1)] =~= sent);
    }
}

/// Every entry has `Unit` as its key.
pub open spec fn unit_keys(s: Seq<(Value, isize)>) -> bool {
    forall|j: int| 0 <= j < s.len() ==> (#[trigger] s[j]).0 == Value::Unit
}

/// Every record of the batch is a record paired with `Unit`.
pub open spec fn with_units(batch: Seq<(Value, isize)>) -> bool {
    forall|j: int|
        0 <= j < batch.len() ==> (#[trigger] batch[j]).0 == Value::pair_of(
            batch[j].0.first(),
            Value::Unit,
        )
}

proof fn lemma_diff_new_units(k: Value, new: Seq<(Value, isize)>, old: Seq<(Value, isize)>)
    requires
        unit_keys(new),
        unit_keys(old),
    ensures
        unit_keys(diff_new(k, new, old).0),
        with_units(diff_new(k, new, old).1),
    decreases new.len(),
{
    if new.len() > 0 {
        let rest_new = new.drop_last();
        assert(unit_keys(rest_new)) by {
            assert forall|j: int| 0 <= j < rest_new.len() implies (#[trigger] rest_new[j]).0
                == Value::Unit by {
                assert(new[j].0 == Value::Unit);
            }
        }
        lemma_diff_new_units(k, rest_new, old);
        let (rest, out) = diff_new(k, rest_new, old);
        let e = new.last();
        assert(new[new.len() - 1].0 == Value::Unit);
        let (rest2, out2) = diff_new(k, new, old);
        if has_key(rest, e.0) {
            let i = index_of(rest, e.0);
            assert forall|j: int| 0 <= j < rest2.len() implies (#[trigger] rest2[j]).0
                == Value::Unit by {
                assert(rest2[j] == rest[if j < i {
                    j
                } else {
                    j + 1
                }]);
            }
        }
        assert forall|j: int| 0 <= j < out2.len() implies (#[trigger] out2[j]).0
            == Value::pair_of(out2[j].0.first(), Value::Unit) by {
            if j < out.len() {
                assert(out2[j] == out[j]);
            }
        }
    }
}

/// What the change of an output with `Unit` keys sends are records paired
/// with `Unit`.
pub proof fn lemma_diff_emit_units(k: Value, new: Seq<(Value, isize)>, old: Seq<(Value, isize)>)
    requires
        unit_keys(new),
        unit_keys(old),
    ensures
        with_units(diff_emit(k, new, old)),
{
    lemma_diff_new_units(k, new, old);
    let (rest, out) = diff_new(k, new, old);
    let w = withdraw(k, rest);
    assert forall|j: int| 0 <= j < (out + w).len() implies (#[trigger] (out + w)[j]).0
        == Value::pair_of((out + w)[j].0.first(), Value::Unit) by {
        if j < out.len() {
            assert((out + w)[j] == out[j]);
        } else {
            assert((out + w)[j] == w[j - out.len()]);
            assert(rest[j - out.len()].0 == Value::Unit);
        }
    }
}

/// The output that distinct gives for a group has `Unit` keys.
pub proof fn lemma_distinct_output_units<F: Function>(
    proc: crate::function::Reduction<F>,
    k: Value,
    group: Seq<(Value, isize)>,
)
    requires
        proc is Distinct,
    ensures
        unit_keys(crate::operator::reduce::output_for(proc, k, group)),
{
    if group.len() > 0 {
        let one = seq![(Value::Unit, 1isize)];
        assert(one.drop_last() =~= Seq::<(Value, isize)>::empty());
        assert(crate::map::add_all(Seq::empty(), one.drop_last()) == Seq::<
            (Value, isize),
        >::empty());
        assert(!has_key(Seq::<(Value, isize)>::empty(), Value::Unit));
        assert(crate::map::add_all(Seq::empty(), one) =~= one);
    }
}

proof fn lemma_distinct_keys_units<F: Function>(
    proc: crate::function::Reduction<F>,
    inputs: Groups,
    outputs: Groups,
    keys: Seq<Value>,
)
    requires
        proc is Distinct,
        groups_wf(outputs),
        forall|k: Value| unit_keys(#[trigger] group_of(outputs, k)),
    ensures
        groups_wf(reduce_keys(proc, inputs, outputs, keys).0),
        forall|k: Value|
            unit_keys(#[trigger] group_of(reduce_keys(proc, inputs, outputs, keys).0, k)),
        with_units(reduce_keys(proc, inputs, outputs, keys).1),
    decreases keys.len(),
{
    if keys.len() > 0 {
        lemma_distinct_keys_units(proc, inputs, outputs, keys.drop_last());
        let (o1, out) = reduce_keys(proc, inputs, outputs, keys.drop_last());
        let kl = keys.last();
        let new = crate::operator::reduce::output_for(proc, kl, group_of(inputs, kl));
        lemma_distinct_output_units(proc, kl, group_of(inputs, kl));
        crate::consistency::lemma_output_for_wf(proc, kl, group_of(inputs, kl));
        crate::map::lemma_set_group_wf(o1, kl, new);
        assert(unit_keys(group_of(o1, kl)));
        let piece = diff_emit(kl, new, group_of(o1, kl));
        lemma_diff_emit_units(kl, new, group_of(o1, kl));
        assert forall|j: int| 0 <= j < (out + piece).len() implies (#[trigger] (out
            + piece)[j]).0 == Value::pair_of((out + piece)[j].0.first(), Value::Unit) by {
            if j < out.len() {
                assert((out + piece)[j] == out[j]);
            } else {
                assert((out + piece)[j] == piece[j - out.len()]);
            }
        }
        let o2 = crate::map::set_group(o1, kl, new);
        assert forall|k: Value| unit_keys(#[trigger] group_of(o2, k)) by {
            if k != kl {
                assert(unit_keys(group_of(o1, k)));
            }
        }
    }
}

/// What a consistent distinct sends are records paired with `Unit`, so that
/// stripping them of it and pairing them with it again gives them back.
pub proof fn lemma_distinct_sends_units<F: Function>(v: ReduceView<F>, batch: Seq<(Value, isize)>)
    requires
        v.proc is Distinct,
        v.wf(),
        reduce_consistent(v),
    ensures
        with_units(reduce_flow(v, batch).1),
        flat_map_all(
            MapFn::<F>::WithUnit,
            flat_map_all(MapFn::<F>::First, reduce_flow(v, batch).1),
        ) == reduce_flow(v, batch).1,
{
    assert forall|k: Value| unit_keys(#[trigger] group_of(v.output_maps, k)) by {
        lemma_distinct_output(v, k);
    }
    lemma_distinct_keys_units(
        v.proc,
        group_add_all(v.input_maps, batch),
        v.output_maps,
        crate::operator::reduce::changed_keys(batch),
    );
    lemma_between_distincts::<F>(reduce_flow(v, batch).1);
}

/// A batch of pairs gives nothing to what is no pair.
pub proof fn lemma_pairs_only(batch: Seq<(Value, isize)>, q: Value)
    requires
        all_pairs(batch),
        !(q is Pair),
    ensures
        batch_weight(batch, q) == 0,
    decreases batch.len(),
{
    if batch.len() > 0 {
        let rest = batch.drop_last();
        assert(all_pairs(rest)) by {
            assert forall|j: int| 0 <= j < rest.len() implies (#[trigger] rest[j]).0 is Pair by {
                assert(batch[j].0 is Pair);
            }
        }
        lemma_pairs_only(rest, q);
        assert(batch[batch.len() - 1].0 is Pair);
    }
}

/// An arrangement holds the outputs of a reduce: for every key and record
/// the weight of the record in the output of the key, and nothing else.
pub open spec fn arranges<F: Function>(arranged: Seq<(Value, isize)>, v: ReduceView<F>) -> bool {
    &&& items_wf(arranged)
    &&& forall|q: Value| #[trigger]
        weight_of(arranged, q) == if q is Pair {
            cell(v.output_maps, q.first(), q.second())
        } else {
            0
        }
}

/// An arrangement of a reduce keeps holding its outputs: it does so again
/// after the reduce has taken a step and the arrangement has added what the
/// reduce sent.
pub proof fn lemma_arranges_stays<F: Function>(
    v: ReduceView<F>,
    arranged: Seq<(Value, isize)>,
    batch: Seq<(Value, isize)>,
)
    requires
        v.wf(),
        arranges(arranged, v),
    ensures
        ({
            let (after, sent) = reduce_flow(v, batch);
            arranges(add_all(arranged, sent), after)
        }),
{
    let (after, sent) = reduce_flow(v, batch);
    let held = add_all(arranged, sent);
    lemma_add_all_wf(arranged, sent);
    lemma_reduce_sends_pairs(v, batch);
    assert forall|q: Value| #[trigger]
        weight_of(held, q) == if q is Pair {
            cell(after.output_maps, q.first(), q.second())
        } else {
            0
        } by {
        lemma_weight_add_all(arranged, sent, q);
        if q is Pair {
            assert(q == Value::pair_of(q.first(), q.second()));
            lemma_reduce_sends_what_changes(v, batch, q.first(), q.second());
        } else {
            lemma_pairs_only(sent, q);
        }
    }
}

/// Two reduces hold the same groups: they have taken the same in all.
pub open spec fn same_groups<F: Function>(a: ReduceView<F>, b: ReduceView<F>) -> bool {
    forall|k: Value, x: Value| #[trigger] cell(a.input_maps, k, x) == cell(b.input_maps, k, x)
}

/// Two reduces that hold the same groups do so again after each has taken
/// a step, where the batches of the two give every record the same weight.
pub proof fn lemma_same_groups_stay<F: Function>(
    a: ReduceView<F>,
    b: ReduceView<F>,
    to_a: Seq<(Value, isize)>,
    to_b: Seq<(Value, isize)>,
)
    requires
        a.wf(),
        b.wf(),
        same_groups(a, b),
        forall|k: Value, x: Value| #[trigger] keyed_weight(to_a, k, x) == keyed_weight(to_b, k, x),
    ensures
        same_groups(reduce_flow(a, to_a).0, reduce_flow(b, to_b).0),
{
    let a2 = reduce_flow(a, to_a).0;
    let b2 = reduce_flow(b, to_b).0;
    assert forall|k: Value, x: Value| #[trigger]
        cell(a2.input_maps, k, x) == cell(b2.input_maps, k, x) by {
        lemma_group_add_all_weight(a.input_maps, to_a, k, x);
        lemma_group_add_all_weight(b.input_maps, to_b, k, x);
        assert(cell(a.input_maps, k, x) == cell(b.input_maps, k, x));
        assert(keyed_weight(to_a, k, x) == keyed_weight(to_b, k, x));
    }
}

/// What holds of a distinct, a distinct of a distinct beside it, and an
/// arrangement of each: all three reduces are consistent distincts, the one
/// and the first of the two hold the same groups, the second reads the
/// first, and each arrangement holds the outputs of the reduce it reads.
pub open spec fn distincts_arranged<F: Function>(
    once: ReduceView<F>,
    first: ReduceView<F>,
    second: ReduceView<F>,
    of_once: Seq<(Value, isize)>,
    of_twice: Seq<(Value, isize)>,
) -> bool {
    &&& once.proc is Distinct
    &&& first.proc is Distinct
    &&& second.proc is Distinct
    &&& once.wf()
    &&& first.wf()
    &&& second.wf()
    &&& reduce_consistent(once)
    &&& reduce_consistent(first)
    &&& reduce_consistent(second)
    &&& same_groups(once, first)
    &&& reads(first, second)
    &&& arranges(of_once, once)
    &&& arranges(of_twice, second)
}

/// The arrangement of a distinct of a distinct holds what the arrangement of
/// a distinct holds, where both distincts read the same.
pub proof fn lemma_distinct_arrangements_agree<F: Function>(
    once: ReduceView<F>,
    first: ReduceView<F>,
    second: ReduceView<F>,
    of_once: Seq<(Value, isize)>,
    of_twice: Seq<(Value, isize)>,
)
    requires
        distincts_arranged(once, first, second, of_once, of_twice),
    ensures
        to_map(of_once) == to_map(of_twice),
{
    lemma_same_outputs(first, second);
    assert forall|k: Value| #[trigger]
        group_of(once.output_maps, k) == group_of(first.output_maps, k) by {
        lemma_distinct_output(once, k);
        lemma_distinct_output(first, k);
        lemma_group_present(once.input_maps, k);
        lemma_group_present(first.input_maps, k);
        if group_of(once.input_maps, k).len() > 0 {
            let x = choose|x: Value| #[trigger] cell(once.input_maps, k, x) != 0;
            assert(cell(first.input_maps, k, x) != 0);
        }
        if group_of(first.input_maps, k).len() > 0 {
            let x = choose|x: Value| #[trigger] cell(first.input_maps, k, x) != 0;
            assert(cell(once.input_maps, k, x) != 0);
        }
    }
    assert forall|q: Value| weight_of(of_once, q) == weight_of(of_twice, q) by {
        if q is Pair {
            assert(group_of(second.output_maps, q.first()) == group_of(
                first.output_maps,
                q.first(),
            ));
            assert(group_of(once.output_maps, q.first()) == group_of(
                first.output_maps,
                q.first(),
            ));
        }
    }
    crate::weights::lemma_equal_weights(of_once, of_twice);
}

/// Distinct is idempotent for those who read its arrangement, step after
/// step. Where a distinct and a distinct of a distinct read the same and
/// each has its arrangement, they do so again after a step in which the one
/// and the first of the two take batches that give every record the same
/// weight, the second takes what the first sent, and each arrangement adds
/// what its reduce sent; and the two arrangements hold the same again.
pub proof fn lemma_distinct_arrangements_stay_agreed<F: Function>(
    once: ReduceView<F>,
    first: ReduceView<F>,
    second: ReduceView<F>,
    of_once: Seq<(Value, isize)>,
    of_twice: Seq<(Value, isize)>,
    to_once: Seq<(Value, isize)>,
    to_first: Seq<(Value, isize)>,
)
    requires
        distincts_arranged(once, first, second, of_once, of_twice),
        forall|k: Value, x: Value| #[trigger]
            keyed_weight(to_once, k, x) == keyed_weight(to_first, k, x),
    ensures
        ({
            let (once_after, from_once) = reduce_flow(once, to_once);
            let (first_after, from_first) = reduce_flow(first, to_first);
            let (second_after, from_second) = reduce_flow(second, from_first);
            &&& distincts_arranged(
                once_after,
                first_after,
                second_after,
                add_all(of_once, from_once),
                add_all(of_twice, from_second),
            )
            &&& to_map(add_all(of_once, from_once)) == to_map(add_all(of_twice, from_second))
        }),
{
    let (once_after, from_once) = reduce_flow(once, to_once);
    let (first_after, from_first) = reduce_flow(first, to_first);
    let (second_after, from_second) = reduce_flow(second, from_first);
    lemma_reduce_stays_consistent(once, to_once);
    lemma_distinct_of_distinct(first, second, to_first);
    lemma_same_groups_stay(once, first, to_once, to_first);
    lemma_arranges_stays(once, of_once, to_once);
    lemma_arranges_stays(second, of_twice, from_first);
    lemma_distinct_arrangements_agree(
        once_after,
        first_after,
        second_after,
        add_all(of_once, from_once),
        add_all(of_twice, from_second),
    );
}

} // verus!
