//! The image of a map under a function: what a record gets when every
//! entry is sent to what the function returns for its record.

use crate::function::{Function, MapFn};
use crate::map::{add_all, add_items, has_key, index_of, items_wf, lemma_add_all_wf};
use crate::monoid::wadd;
use crate::operator::map::flat_map_all;
use crate::value::Value;
use crate::weights::{batch_weight, lemma_batch_weight_concat};
use vstd::prelude::*;

verus! {

/// What an entry gives a record when it is sent to what the function returns
/// for it: its weight, where that is the record.
pub open spec fn image_term<F: Function>(f: F, e: (Value, isize), q: Value) -> isize {
    if f.call_spec(e.0) == q {
        e.1
    } else {
        0
    }
}

/// The weight of a record in the image of the entries: the sum of the weights
/// of the entries that the function sends to it.
pub open spec fn image_weight<F: Function>(f: F, s: Seq<(Value, isize)>, q: Value) -> isize
    decreases s.len(),
{
    if s.len() == 0 {
        0
    } else {
        wadd(image_weight(f, s.drop_last(), q), image_term(f, s.last(), q))
    }
}

/// What a map sends for a batch gives every record its weight in the image
/// of the batch.
pub proof fn lemma_map_sends_image<F: Function>(f: F, batch: Seq<(Value, isize)>, q: Value)
    ensures
        batch_weight(flat_map_all(MapFn::Call(f), batch), q) == image_weight(f, batch, q),
    decreases batch.len(),
{
    if batch.len() > 0 {
        lemma_map_sends_image(f, batch.drop_last(), q);
        let piece = MapFn::Call(f).apply_spec(batch.last().0, batch.last().1);
        lemma_batch_weight_concat(flat_map_all(MapFn::Call(f), batch.drop_last()), piece, q);
        assert(piece.len() == 1);
        assert(piece.drop_last() =~= Seq::<(Value, isize)>::empty());
        assert(piece.last() == (f.call_spec(batch.last().0), batch.last().1));
        assert(batch_weight(piece.drop_last(), q) == 0);
        assert(batch_weight(piece, q) == wadd(0, image_term(f, batch.last(), q)));
        crate::monoid::lemma_wadd_zero(image_term(f, batch.last(), q));
    }
}

/// The image of entries of which one was replaced.
pub proof fn lemma_image_update<F: Function>(f: F, s: Seq<(Value, isize)>, i: int, e: (Value, isize), q: Value)
    requires
        0 <= i < s.len(),
    ensures
        wadd(image_weight(f, s.update(i, e), q), image_term(f, s[i], q)) == wadd(
            image_weight(f, s, q),
            image_term(f, e, q),
        ),
    decreases s.len(),
{
    let n = s.len() - 1;
    if i == n {
        assert(s.update(i, e).drop_last() =~= s.drop_last());
    } else {
        lemma_image_update(f, s.drop_last(), i, e, q);
        assert(s.update(i, e).drop_last() =~= s.drop_last().update(i, e));
        assert(s.update(i, e).last() == s.last());
        lemma_sum_swap(
            image_weight(f, s.drop_last().update(i, e), q),
            image_term(f, s.last(), q),
            image_term(f, s[i], q),
            image_weight(f, s.drop_last(), q),
            image_term(f, e, q),
        );
    }
}

/// The image of entries of which one was taken out.
pub proof fn lemma_image_remove<F: Function>(f: F, s: Seq<(Value, isize)>, i: int, q: Value)
    requires
        0 <= i < s.len(),
    ensures
        wadd(image_weight(f, s.remove(i), q), image_term(f, s[i], q)) == image_weight(f, s, q),
    decreases s.len(),
{
    let n = s.len() - 1;
    if i == n {
        assert(s.remove(i) =~= s.drop_last());
    } else {
        lemma_image_remove(f, s.drop_last(), i, q);
        assert(s.remove(i).drop_last() =~= s.drop_last().remove(i));
        assert(s.remove(i).last() == s.last());
        lemma_sum_swap(
            image_weight(f, s.drop_last().remove(i), q),
            image_term(f, s.last(), q),
            image_term(f, s[i], q),
            image_weight(f, s.drop_last(), q),
            0,
        );
        crate::monoid::lemma_wadd_zero(image_weight(f, s.drop_last(), q));
    }
}

/// Where `a + c == b + d`, also `(a + t) + c == (b + t) + d`.
proof fn lemma_sum_swap(a: isize, t: isize, c: isize, b: isize, d: isize)
    requires
        wadd(a, c) == wadd(b, d),
    ensures
        wadd(wadd(a, t), c) == wadd(wadd(b, t), d),
{
}

/// Adding a weight to a record adds it to the image of that record, and to
/// no other.
pub proof fn lemma_image_add_items<F: Function>(f: F, s: Seq<(Value, isize)>, k: Value, v: isize, q: Value)
    requires
        items_wf(s),
    ensures
        image_weight(f, add_items(s, k, v), q) == wadd(
            image_weight(f, s, q),
            image_term(f, (k, v), q),
        ),
{
    if has_key(s, k) {
        let i = index_of(s, k);
        let w = wadd(s[i].1, v);
        if w == 0 {
            lemma_image_remove(f, s, i, q);
        } else {
            lemma_image_update(f, s, i, (k, w), q);
        }
        lemma_term_sum(
            image_weight(f, add_items(s, k, v), q),
            image_weight(f, s, q),
            s[i].1,
            v,
            f.call_spec(k) == q,
        );
    } else if v == 0 {
        crate::monoid::lemma_wadd_zero(image_weight(f, s, q));
    } else {
        assert(s.push((k, v)).drop_last() =~= s);
    }
}

/// The sum behind the image of a map to which a weight was added.
proof fn lemma_term_sum(after: isize, before: isize, old: isize, v: isize, hit: bool)
    requires
        wadd(
            after,
            if hit {
                old
            } else {
                0
            },
        ) == wadd(
            before,
            if hit && wadd(old, v) != 0 {
                wadd(old, v)
            } else {
                0
            },
        ),
    ensures
        after == wadd(
            before,
            if hit {
                v
            } else {
                0
            },
        ),
{
}

/// Adding a batch to a map adds to the image of the map the image of the
/// batch.
pub proof fn lemma_image_add_all<F: Function>(f: F, s: Seq<(Value, isize)>, batch: Seq<(Value, isize)>, q: Value)
    requires
        items_wf(s),
    ensures
        image_weight(f, add_all(s, batch), q) == wadd(
            image_weight(f, s, q),
            image_weight(f, batch, q),
        ),
    decreases batch.len(),
{
    if batch.len() == 0 {
        crate::monoid::lemma_wadd_zero(image_weight(f, s, q));
    } else {
        lemma_image_add_all(f, s, batch.drop_last(), q);
        lemma_add_all_wf(s, batch.drop_last());
        lemma_image_add_items(f, add_all(s, batch.drop_last()), batch.last().0, batch.last().1, q);
        crate::monoid::lemma_wadd_associates(
            image_weight(f, s, q),
            image_weight(f, batch.drop_last(), q),
            image_term(f, batch.last(), q),
        );
    }
}

} // verus!
