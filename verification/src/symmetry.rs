//! Join is symmetric for those who read its arrangement: the arrangement of
//! a join, and the arrangement of the join with its sides exchanged behind a
//! map that exchanges the parts of every joined record, hold the same.

use crate::consistency::{
    cell, keyed_weight, lemma_group_add_all_weight, lemma_join_sends_what_changes,
};
use crate::function::{Function, MapFn};
use crate::map::{add_all, group_of, items_wf, lemma_add_all_wf, to_map, weight_of};
use crate::monoid::wmul;
use crate::operator::join::{join_emit, join_flow, join_pass, JoinView};
use crate::operator::map::flat_map_all;
use crate::ring::lemma_wmul_commutes;
use crate::value::Value;
use crate::weights::{batch_weight, lemma_equal_weights, lemma_weight_add_all};
use vstd::prelude::*;

verus! {

/// Whether a record is a joined record: a key with a pair of parts.
pub open spec fn is_joined(q: Value) -> bool {
    q is Pair && q.second() is Pair
}

/// The joined record with its parts exchanged.
pub open spec fn mirror(q: Value) -> Value {
    Value::pair_of(q.first(), Value::pair_of(q.second().second(), q.second().first()))
}

/// Every record of the batch is a joined record.
pub open spec fn all_joined(batch: Seq<(Value, isize)>) -> bool {
    forall|j: int| 0 <= j < batch.len() ==> is_joined((#[trigger] batch[j]).0)
}

/// The batch with the parts of every record exchanged.
pub open spec fn mirrored(batch: Seq<(Value, isize)>) -> Seq<(Value, isize)> {
    Seq::new(batch.len(), |j: int| (mirror(batch[j].0), batch[j].1))
}

/// A map whose function exchanges the parts of a joined record sends a batch
/// to the batch with the parts of every record exchanged.
pub proof fn lemma_map_mirrors<F: Function>(f: F, batch: Seq<(Value, isize)>)
    requires
        forall|q: Value| #[trigger] f.call_spec(q) == mirror(q),
    ensures
        flat_map_all(MapFn::Call(f), batch) == mirrored(batch),
    decreases batch.len(),
{
    if batch.len() > 0 {
        lemma_map_mirrors(f, batch.drop_last());
        assert(f.call_spec(batch.last().0) == mirror(batch.last().0));
        assert(mirrored(batch) =~= mirrored(batch.drop_last()) + seq![
            (mirror(batch.last().0), batch.last().1),
        ]);
    } else {
        assert(mirrored(batch) =~= Seq::<(Value, isize)>::empty());
    }
}

/// What one side of a join sends are joined records.
pub proof fn lemma_join_pass_joined(
    other: crate::map::Groups,
    batch: Seq<(Value, isize)>,
    left_side: bool,
)
    ensures
        all_joined(join_pass(other, batch, left_side)),
    decreases batch.len(),
{
    if batch.len() > 0 {
        lemma_join_pass_joined(other, batch.drop_last(), left_side);
        let head = join_pass(other, batch.drop_last(), left_side);
        let tail = join_emit(
            batch.last().0,
            batch.last().1,
            group_of(other, batch.last().0.first()),
            left_side,
        );
        let all = join_pass(other, batch, left_side);
        assert forall|j: int| 0 <= j < all.len() implies is_joined((#[trigger] all[j]).0) by {
            if j < head.len() {
                assert(all[j] == head[j]);
            } else {
                assert(all[j] == tail[j - head.len()]);
            }
        }
    }
}

/// What a join sends are joined records.
pub proof fn lemma_join_sends_joined(v: JoinView, left: Seq<(Value, isize)>, right: Seq<(Value, isize)>)
    ensures
        all_joined(join_flow(v, left, right).1),
{
    let a = join_pass(v.right_map, left, true);
    let b = join_pass(crate::map::group_add_all(v.left_map, left), right, false);
    lemma_join_pass_joined(v.right_map, left, true);
    lemma_join_pass_joined(crate::map::group_add_all(v.left_map, left), right, false);
    let all = a + b;
    assert forall|j: int| 0 <= j < all.len() implies is_joined((#[trigger] all[j]).0) by {
        if j < a.len() {
            assert(all[j] == a[j]);
        } else {
            assert(all[j] == b[j - a.len()]);
        }
    }
}

/// A batch of joined records gives nothing to what is no joined record.
pub proof fn lemma_joined_only(batch: Seq<(Value, isize)>, q: Value)
    requires
        all_joined(batch),
        !is_joined(q),
    ensures
        batch_weight(batch, q) == 0,
    decreases batch.len(),
{
    if batch.len() > 0 {
        let rest = batch.drop_last();
        assert(all_joined(rest)) by {
            assert forall|j: int| 0 <= j < rest.len() implies is_joined((#[trigger] rest[j]).0) by {
                assert(is_joined(batch[j].0));
            }
        }
        lemma_joined_only(rest, q);
        assert(is_joined(batch[batch.len() - 1].0));
    }
}

/// What a batch of joined records gives a record after the parts of every
/// record were exchanged is what it gave the record with its parts
/// exchanged; to what is no joined record it gives nothing.
pub proof fn lemma_mirrored_weight(batch: Seq<(Value, isize)>, q: Value)
    requires
        all_joined(batch),
    ensures
        batch_weight(mirrored(batch), q) == if is_joined(q) {
            batch_weight(batch, mirror(q))
        } else {
            0
        },
    decreases batch.len(),
{
    if batch.len() > 0 {
        let rest = batch.drop_last();
        assert(all_joined(rest)) by {
            assert forall|j: int| 0 <= j < rest.len() implies is_joined((#[trigger] rest[j]).0) by {
                assert(is_joined(batch[j].0));
            }
        }
        lemma_mirrored_weight(rest, q);
        assert(mirrored(batch).drop_last() =~= mirrored(rest));
        let rec = batch.last().0;
        assert(is_joined(batch[batch.len() - 1].0));
        assert(mirrored(batch).last() == (mirror(rec), batch.last().1));
        assert(rec == Value::pair_of(
            rec.first(),
            Value::pair_of(rec.second().first(), rec.second().second()),
        ));
        if is_joined(q) {
            assert(q == Value::pair_of(
                q.first(),
                Value::pair_of(q.second().first(), q.second().second()),
            ));
            assert(mirror(rec) == q <==> rec == mirror(q));
        } else {
            assert(mirror(rec) != q);
        }
    } else {
        assert(mirrored(batch) =~= Seq::<(Value, isize)>::empty());
    }
}

/// What a joined record weighs in a join: the product of the weights of its
/// parts, the first on the left and the second on the right.
pub open spec fn product(v: JoinView, q: Value) -> isize {
    wmul(
        cell(v.left_map, q.first(), q.second().first()),
        cell(v.right_map, q.first(), q.second().second()),
    )
}

/// An arrangement holds a join: for every joined record the product of the
/// weights of its parts, and nothing else.
pub open spec fn arranges_join(arranged: Seq<(Value, isize)>, v: JoinView) -> bool {
    &&& items_wf(arranged)
    &&& forall|q: Value| #[trigger]
        weight_of(arranged, q) == if is_joined(q) {
            product(v, q)
        } else {
            0
        }
}

/// An arrangement holds a join behind a map that exchanges the parts of
/// every record it sends.
pub open spec fn arranges_mirror(arranged: Seq<(Value, isize)>, v: JoinView) -> bool {
    &&& items_wf(arranged)
    &&& forall|q: Value| #[trigger]
        weight_of(arranged, q) == if is_joined(q) {
            product(v, mirror(q))
        } else {
            0
        }
}

/// An arrangement of a join keeps holding it: it does so again after the
/// join has taken a step and the arrangement has added what the join sent.
pub proof fn lemma_arranges_join_stays(
    v: JoinView,
    arranged: Seq<(Value, isize)>,
    left: Seq<(Value, isize)>,
    right: Seq<(Value, isize)>,
)
    requires
        v.wf(),
        arranges_join(arranged, v),
    ensures
        join_flow(v, left, right).0.wf(),
        arranges_join(add_all(arranged, join_flow(v, left, right).1), join_flow(v, left, right).0),
{
    let (after, sent) = join_flow(v, left, right);
    let held = add_all(arranged, sent);
    lemma_add_all_wf(arranged, sent);
    lemma_join_sends_joined(v, left, right);
    lemma_join_sends_what_changes(v, left, right, Value::Unit, Value::Unit, Value::Unit);
    assert forall|q: Value| #[trigger]
        weight_of(held, q) == if is_joined(q) {
            product(after, q)
        } else {
            0
        } by {
        lemma_weight_add_all(arranged, sent, q);
        if is_joined(q) {
            assert(q == Value::pair_of(
                q.first(),
                Value::pair_of(q.second().first(), q.second().second()),
            ));
            lemma_join_sends_what_changes(
                v,
                left,
                right,
                q.first(),
                q.second().first(),
                q.second().second(),
            );
        } else {
            lemma_joined_only(sent, q);
        }
    }
}

/// An arrangement of a join behind a map that exchanges the parts keeps
/// holding it: it does so again after the join has taken a step and the
/// arrangement has added what the join sent, with the parts exchanged.
pub proof fn lemma_arranges_mirror_stays(
    v: JoinView,
    arranged: Seq<(Value, isize)>,
    left: Seq<(Value, isize)>,
    right: Seq<(Value, isize)>,
)
    requires
        v.wf(),
        arranges_mirror(arranged, v),
    ensures
        join_flow(v, left, right).0.wf(),
        arranges_mirror(
            add_all(arranged, mirrored(join_flow(v, left, right).1)),
            join_flow(v, left, right).0,
        ),
{
    let (after, sent) = join_flow(v, left, right);
    let held = add_all(arranged, mirrored(sent));
    lemma_add_all_wf(arranged, mirrored(sent));
    lemma_join_sends_joined(v, left, right);
    lemma_join_sends_what_changes(v, left, right, Value::Unit, Value::Unit, Value::Unit);
    assert forall|q: Value| #[trigger]
        weight_of(held, q) == if is_joined(q) {
            product(after, mirror(q))
        } else {
            0
        } by {
        lemma_weight_add_all(arranged, mirrored(sent), q);
        lemma_mirrored_weight(sent, q);
        if is_joined(q) {
            let m = mirror(q);
            lemma_join_sends_what_changes(
                v,
                left,
                right,
                m.first(),
                m.second().first(),
                m.second().second(),
            );
        }
    }
}

/// The second join holds on its right what the first holds on its left, and
/// on its left what the first holds on its right.
pub open spec fn sides_exchanged(v: JoinView, w: JoinView) -> bool {
    &&& forall|k: Value, x: Value| #[trigger] cell(w.right_map, k, x) == cell(v.left_map, k, x)
    &&& forall|k: Value, x: Value| #[trigger] cell(w.left_map, k, x) == cell(v.right_map, k, x)
}

/// Two joins with their sides exchanged stay so after each has taken a
/// step, where what the one takes on a side gives every record the weight
/// that the other takes for it on the other side.
pub proof fn lemma_sides_stay_exchanged(
    v: JoinView,
    w: JoinView,
    left: Seq<(Value, isize)>,
    right: Seq<(Value, isize)>,
    other_left: Seq<(Value, isize)>,
    other_right: Seq<(Value, isize)>,
)
    requires
        v.wf(),
        w.wf(),
        sides_exchanged(v, w),
        forall|k: Value, x: Value| #[trigger]
            keyed_weight(other_right, k, x) == keyed_weight(left, k, x),
        forall|k: Value, x: Value| #[trigger]
            keyed_weight(other_left, k, x) == keyed_weight(right, k, x),
    ensures
        sides_exchanged(join_flow(v, left, right).0, join_flow(w, other_left, other_right).0),
{
    let v2 = join_flow(v, left, right).0;
    let w2 = join_flow(w, other_left, other_right).0;
    assert forall|k: Value, x: Value| #[trigger]
        cell(w2.right_map, k, x) == cell(v2.left_map, k, x) by {
        lemma_group_add_all_weight(w.right_map, other_right, k, x);
        lemma_group_add_all_weight(v.left_map, left, k, x);
        assert(cell(w.right_map, k, x) == cell(v.left_map, k, x));
        assert(keyed_weight(other_right, k, x) == keyed_weight(left, k, x));
    }
    assert forall|k: Value, x: Value| #[trigger]
        cell(w2.left_map, k, x) == cell(v2.right_map, k, x) by {
        lemma_group_add_all_weight(w.left_map, other_left, k, x);
        lemma_group_add_all_weight(v.right_map, right, k, x);
        assert(cell(w.left_map, k, x) == cell(v.right_map, k, x));
        assert(keyed_weight(other_left, k, x) == keyed_weight(right, k, x));
    }
}

/// What holds of a join, the join with its sides exchanged, and an
/// arrangement of each, the second behind a map that exchanges the parts.
pub open spec fn joins_arranged(
    v: JoinView,
    w: JoinView,
    of_join: Seq<(Value, isize)>,
    of_other: Seq<(Value, isize)>,
) -> bool {
    &&& v.wf()
    &&& w.wf()
    &&& sides_exchanged(v, w)
    &&& arranges_join(of_join, v)
    &&& arranges_mirror(of_other, w)
}

/// Join is symmetric for those who read its arrangement: the arrangement of
/// a join and the arrangement of the join with its sides exchanged, behind a
/// map that exchanges the parts, hold the same.
pub proof fn lemma_join_arrangements_agree(
    v: JoinView,
    w: JoinView,
    of_join: Seq<(Value, isize)>,
    of_other: Seq<(Value, isize)>,
)
    requires
        joins_arranged(v, w, of_join, of_other),
    ensures
        to_map(of_join) == to_map(of_other),
{
    assert forall|q: Value| weight_of(of_join, q) == weight_of(of_other, q) by {
        if is_joined(q) {
            let k = q.first();
            let x = q.second().first();
            let y = q.second().second();
            let m = mirror(q);
            assert(m.first() == k && m.second().first() == y && m.second().second() == x);
            assert(cell(w.left_map, k, y) == cell(v.right_map, k, y));
            assert(cell(w.right_map, k, x) == cell(v.left_map, k, x));
            lemma_wmul_commutes(cell(v.left_map, k, x), cell(v.right_map, k, y));
        }
    }
    lemma_equal_weights(of_join, of_other);
}

/// Join is symmetric for those who read its arrangement, step after step.
/// Where a join and the join with its sides exchanged each have their
/// arrangement, the second behind a map that exchanges the parts, they do so
/// again after a step in which what the one takes on a side gives every
/// record the weight that the other takes for it on the other side, and each
/// arrangement adds what came to it; and the two arrangements hold the same
/// again.
pub proof fn lemma_join_arrangements_stay_agreed(
    v: JoinView,
    w: JoinView,
    of_join: Seq<(Value, isize)>,
    of_other: Seq<(Value, isize)>,
    left: Seq<(Value, isize)>,
    right: Seq<(Value, isize)>,
    other_left: Seq<(Value, isize)>,
    other_right: Seq<(Value, isize)>,
)
    requires
        joins_arranged(v, w, of_join, of_other),
        forall|k: Value, x: Value| #[trigger]
            keyed_weight(other_right, k, x) == keyed_weight(left, k, x),
        forall|k: Value, x: Value| #[trigger]
            keyed_weight(other_left, k, x) == keyed_weight(right, k, x),
    ensures
        ({
            let (v2, sent) = join_flow(v, left, right);
            let (w2, other_sent) = join_flow(w, other_left, other_right);
            &&& joins_arranged(
                v2,
                w2,
                add_all(of_join, sent),
                add_all(of_other, mirrored(other_sent)),
            )
            &&& to_map(add_all(of_join, sent)) == to_map(add_all(of_other, mirrored(other_sent)))
        }),
{
    let (v2, sent) = join_flow(v, left, right);
    let (w2, other_sent) = join_flow(w, other_left, other_right);
    lemma_arranges_join_stays(v, of_join, left, right);
    lemma_arranges_mirror_stays(w, of_other, other_left, other_right);
    lemma_sides_stay_exchanged(v, w, left, right, other_left, other_right);
    lemma_join_arrangements_agree(
        v2,
        w2,
        add_all(of_join, sent),
        add_all(of_other, mirrored(other_sent)),
    );
}

} // verus!
