//! Weights, key by key: what a batch adds to the weight of a record, and
//! that two maps with the same weights are the same map.

use crate::map::{
    add_all, add_items, distinct_keys, has_key, index_of, items_wf, lemma_add_all_wf,
    lemma_add_items_map, lemma_index_unique, to_map, weight_of,
};
use crate::monoid::{wadd, wneg};
use crate::operator::input::negated;
use crate::value::Value;
use vstd::prelude::*;

verus! {

/// The weight that a batch gives a record in all: the sum of the weights with
/// which the record occurs in it.
pub open spec fn batch_weight(batch: Seq<(Value, isize)>, q: Value) -> isize
    decreases batch.len(),
{
    if batch.len() == 0 {
        0
    } else {
        wadd(
            batch_weight(batch.drop_last(), q),
            if batch.last().0 == q {
                batch.last().1
            } else {
                0
            },
        )
    }
}

/// The weight of an entry's key is the entry's weight.
pub proof fn lemma_weight_at(s: Seq<(Value, isize)>, i: int)
    requires
        distinct_keys(s),
        0 <= i < s.len(),
    ensures
        weight_of(s, s[i].0) == s[i].1,
{
    lemma_index_unique(s, i);
}

/// A key has an entry exactly where its weight is not zero.
pub proof fn lemma_weight_zero(s: Seq<(Value, isize)>, q: Value)
    requires
        items_wf(s),
    ensures
        has_key(s, q) == (weight_of(s, q) != 0),
{
    if has_key(s, q) {
        let i = index_of(s, q);
        assert(s[i].1 != 0);
    }
}

/// Adding a weight to a key changes the weight of that key, and of no
/// other.
pub proof fn lemma_weight_add_items(s: Seq<(Value, isize)>, k: Value, v: isize, q: Value)
    requires
        items_wf(s),
    ensures
        weight_of(add_items(s, k, v), q) == if q == k {
            wadd(weight_of(s, k), v)
        } else {
            weight_of(s, q)
        },
{
    lemma_add_items_map(s, k, v);
    let t = add_items(s, k, v);
    let m = to_map(s);
    assert(to_map(t).contains_key(q) == has_key(t, q));
    assert(m.contains_key(q) == has_key(s, q));
    assert(m.contains_key(k) == has_key(s, k));
    if has_key(t, q) {
        assert(to_map(t)[q] == weight_of(t, q));
    }
    if has_key(s, q) {
        assert(m[q] == weight_of(s, q));
    }
    if has_key(s, k) {
        assert(m[k] == weight_of(s, k));
    }
}

/// Adding a batch adds to the weight of a record what the batch gives it.
pub proof fn lemma_weight_add_all(s: Seq<(Value, isize)>, batch: Seq<(Value, isize)>, q: Value)
    requires
        items_wf(s),
    ensures
        weight_of(add_all(s, batch), q) == wadd(weight_of(s, q), batch_weight(batch, q)),
    decreases batch.len(),
{
    if batch.len() > 0 {
        lemma_weight_add_all(s, batch.drop_last(), q);
        lemma_add_all_wf(s, batch.drop_last());
        lemma_weight_add_items(add_all(s, batch.drop_last()), batch.last().0, batch.last().1, q);
    }
}

/// Two maps that give every record the same weight are the same map.
pub proof fn lemma_equal_weights(a: Seq<(Value, isize)>, b: Seq<(Value, isize)>)
    requires
        items_wf(a),
        items_wf(b),
        forall|q: Value| weight_of(a, q) == weight_of(b, q),
    ensures
        to_map(a) == to_map(b),
{
    assert forall|q: Value| has_key(a, q) == has_key(b, q) by {
        lemma_weight_zero(a, q);
        lemma_weight_zero(b, q);
    }
    assert(to_map(a) =~= to_map(b)) by {
        assert forall|q: Value| to_map(a).contains_key(q) implies to_map(a)[q] == to_map(b)[q] by {
            assert(weight_of(a, q) == weight_of(b, q));
        }
    }
}

/// What two batches give a record, one after the other, is the sum of what
/// each gives it.
pub proof fn lemma_batch_weight_concat(a: Seq<(Value, isize)>, b: Seq<(Value, isize)>, q: Value)
    ensures
        batch_weight(a + b, q) == wadd(batch_weight(a, q), batch_weight(b, q)),
    decreases b.len(),
{
    if b.len() == 0 {
        assert(a + b =~= a);
    } else {
        lemma_batch_weight_concat(a, b.drop_last(), q);
        assert((a + b).drop_last() =~= a + b.drop_last());
        assert((a + b).last() == b.last());
    }
}

/// What a batch gives a record with all weights negated cancels what the
/// batch gives it.
pub proof fn lemma_batch_weight_negated(b: Seq<(Value, isize)>, q: Value)
    ensures
        batch_weight(negated(b), q) == wneg(batch_weight(b, q)),
    decreases b.len(),
{
    if b.len() > 0 {
        lemma_batch_weight_negated(b.drop_last(), q);
        assert(negated(b).drop_last() =~= negated(b.drop_last()));
        assert(negated(b).last() == (b.last().0, wneg(b.last().1)));
    }
}

/// The entries of a map give every record the weight that it has in the
/// map.
pub proof fn lemma_batch_weight_of_items(s: Seq<(Value, isize)>, q: Value)
    requires
        distinct_keys(s),
    ensures
        batch_weight(s, q) == weight_of(s, q),
    decreases s.len(),
{
    if s.len() > 0 {
        let r = s.drop_last();
        assert(distinct_keys(r)) by {
            assert forall|i: int, j: int| 0 <= i < j < r.len() implies (#[trigger] r[i]).0 != (
            #[trigger] r[j]).0 by {
                assert(s[i].0 != s[j].0);
            }
        }
        lemma_batch_weight_of_items(r, q);
        let n = s.len() - 1;
        if s.last().0 == q {
            lemma_weight_at(s, n);
            if has_key(r, q) {
                let i = index_of(r, q);
                assert(s[i].0 != s[n].0);
            }
        } else {
            if has_key(s, q) {
                let i = index_of(s, q);
                assert(r[i] == s[i]);
                assert(has_key(r, q));
                lemma_index_unique(r, i);
                lemma_index_unique(s, i);
            }
            if has_key(r, q) {
                let i = index_of(r, q);
                assert(s[i] == r[i]);
                lemma_index_unique(r, i);
                lemma_index_unique(s, i);
            }
        }
    }
}

} // verus!
