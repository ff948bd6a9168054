//! Consistency of the triangle join: what it sends adds up to the product of
//! the weights of the three edges of every triangle.

use crate::consistency::{
    cell, keyed_weight, lemma_group_add_all_weight, lemma_weight_drop_last,
};
use crate::laws::{lemma_group_add_weight, lemma_group_of_wf};
use crate::map::{
    distinct_keys, group_of, groups_wf, has_key, items_wf, lemma_group_add_wf, weight_of, Groups,
};
use crate::monoid::{wadd, wmul};
use crate::operator::triangles::{
    group_add_all_swapped, intersect_with, intersection_spec, triangle_emit, triangle_of,
    triangle_pass, triangles_flow, BiMapView, Side, TrianglesView,
};
use crate::ring::{lemma_wmul_distributes, lemma_wmul_zero};
use crate::value::Value;
use crate::weights::{batch_weight, lemma_batch_weight_concat, lemma_weight_zero};
use vstd::prelude::*;

verus! {

/// The triangle with the given vertices.
pub open spec fn triangle(x: Value, y: Value, z: Value) -> Value {
    Value::pair_of(x, Value::pair_of(y, z))
}

/// The third vertex of a triangle, as seen from one side.
pub open spec fn third(side: Side, x: Value, y: Value, z: Value) -> Value {
    match side {
        Side::XY => z,
        Side::XZ => y,
        Side::YZ => x,
    }
}

/// Whether a record of one side is that side's edge of a triangle.
pub open spec fn is_edge(side: Side, rec: Value, x: Value, y: Value, z: Value) -> bool {
    match side {
        Side::XY => rec.first() == x && rec.second() == y,
        Side::XZ => rec.first() == x && rec.second() == z,
        Side::YZ => rec.first() == y && rec.second() == z,
    }
}

/// The weight of a triangle, from the weight of the edge of one side and the
/// weights of the two other edges, in the order in which they are looked up.
pub open spec fn closed_with(side: Side, r: isize, w1: isize, w2: isize) -> isize {
    match side {
        Side::XY => wmul(wmul(r, w1), w2),
        Side::XZ => wmul(wmul(w1, r), w2),
        Side::YZ => wmul(wmul(w1, w2), r),
    }
}

/// The weight of a triangle is linear in the weight of each edge, and zero
/// where an edge is missing.
pub proof fn lemma_closed_with_linear(side: Side, r1: isize, r2: isize, w1: isize, w2: isize)
    ensures
        closed_with(side, wadd(r1, r2), w1, w2) == wadd(
            closed_with(side, r1, w1, w2),
            closed_with(side, r2, w1, w2),
        ),
        closed_with(side, 0, w1, w2) == 0,
        closed_with(side, r1, 0, w2) == 0,
        closed_with(side, r1, w1, 0) == 0,
{
    lemma_wmul_zero(w1);
    lemma_wmul_zero(w2);
    lemma_wmul_zero(r1);
    lemma_wmul_zero(wmul(w1, w2));
    lemma_wmul_zero(wmul(r1, w1));
    lemma_wmul_zero(wmul(w1, r1));
    lemma_wmul_distributes(r1, r2, w1);
    lemma_wmul_distributes(wmul(r1, w1), wmul(r2, w1), w2);
    lemma_wmul_distributes(wmul(w1, r1), wmul(w1, r2), w2);
    lemma_wmul_distributes(r1, r2, wmul(w1, w2));
}

/// What one record sends for a triangle when it has walked one map and asked
/// the other: the weight of the triangle that it closes with the two entries
/// under the third vertex, where the record is its side's edge of the
/// triangle, and nothing else.
pub proof fn lemma_triangle_emit_weight(
    side: Side,
    rec: Value,
    r: isize,
    walked: Seq<(Value, isize)>,
    other: Seq<(Value, isize)>,
    walked_is_left: bool,
    x: Value,
    y: Value,
    z: Value,
)
    requires
        distinct_keys(walked),
        items_wf(other),
    ensures
        batch_weight(
            triangle_emit(side, rec, r, intersect_with(walked, other, walked_is_left)),
            triangle(x, y, z),
        ) == if is_edge(side, rec, x, y, z) {
            if walked_is_left {
                closed_with(
                    side,
                    r,
                    weight_of(walked, third(side, x, y, z)),
                    weight_of(other, third(side, x, y, z)),
                )
            } else {
                closed_with(
                    side,
                    r,
                    weight_of(other, third(side, x, y, z)),
                    weight_of(walked, third(side, x, y, z)),
                )
            }
        } else {
            0
        },
    decreases walked.len(),
{
    let c = third(side, x, y, z);
    let common = intersect_with(walked, other, walked_is_left);
    let out = triangle_emit(side, rec, r, common);
    lemma_closed_with_linear(side, r, 0, weight_of(other, c), 0);
    lemma_closed_with_linear(side, r, 0, 0, weight_of(other, c));
    if walked.len() == 0 {
        assert(!has_key(walked, c));
        assert(out =~= Seq::<(Value, isize)>::empty());
    } else {
        let rest = walked.drop_last();
        let e = walked.last();
        lemma_weight_drop_last(walked, c);
        lemma_triangle_emit_weight(side, rec, r, rest, other, walked_is_left, x, y, z);
        let before = intersect_with(rest, other, walked_is_left);
        lemma_weight_zero(other, e.0);
        if has_key(other, e.0) {
            let entry = (
                e.0,
                if walked_is_left {
                    (e.1, weight_of(other, e.0))
                } else {
                    (weight_of(other, e.0), e.1)
                },
            );
            assert(common == before.push(entry));
            assert(out.drop_last() =~= triangle_emit(side, rec, r, before));
            assert(out.last() == triangle_of(side, rec, r, entry));
            assert(out.last().0 == triangle(x, y, z) <==> is_edge(side, rec, x, y, z) && e.0 == c);
            if is_edge(side, rec, x, y, z) && e.0 == c {
                assert(weight_of(rest, c) == 0) by {
                    assert(!has_key(rest, c));
                }
                lemma_closed_with_linear(side, r, 0, 0, weight_of(other, c));
                lemma_closed_with_linear(side, r, 0, weight_of(other, c), 0);
                crate::monoid::lemma_wadd_zero(out.last().1);
            } else {
                crate::monoid::lemma_wadd_zero(batch_weight(triangle_emit(side, rec, r, before), triangle(x, y, z)));
            }
        } else {
            assert(common == before);
            if e.0 == c {
                assert(weight_of(other, c) == 0);
                lemma_closed_with_linear(side, r, 0, e.1, 0);
                lemma_closed_with_linear(side, r, 0, 0, e.1);
                assert(weight_of(rest, c) == 0) by {
                    assert(!has_key(rest, c));
                }
                lemma_closed_with_linear(side, r, 0, 0, 0);
            }
        }
    }
}

/// What one record sends for a triangle when its two maps are intersected:
/// the weight of the triangle that it closes with the entries of both maps
/// under the third vertex.
pub proof fn lemma_intersection_emit_weight(
    side: Side,
    rec: Value,
    r: isize,
    l: Seq<(Value, isize)>,
    m: Seq<(Value, isize)>,
    x: Value,
    y: Value,
    z: Value,
)
    requires
        items_wf(l),
        items_wf(m),
    ensures
        batch_weight(triangle_emit(side, rec, r, intersection_spec(l, m)), triangle(x, y, z))
            == if is_edge(side, rec, x, y, z) {
            closed_with(
                side,
                r,
                weight_of(l, third(side, x, y, z)),
                weight_of(m, third(side, x, y, z)),
            )
        } else {
            0
        },
{
    if m.len() < l.len() {
        lemma_triangle_emit_weight(side, rec, r, m, l, false, x, y, z);
    } else {
        lemma_triangle_emit_weight(side, rec, r, l, m, true, x, y, z);
    }
}

/// The weight that a batch of one side gives its edge of a triangle.
pub open spec fn edge_weight(side: Side, batch: Seq<(Value, isize)>, x: Value, y: Value, z: Value) -> isize {
    match side {
        Side::XY => keyed_weight(batch, x, y),
        Side::XZ => keyed_weight(batch, x, z),
        Side::YZ => keyed_weight(batch, y, z),
    }
}

/// The vertex under which a side looks its first index up, for a triangle.
pub open spec fn first_at(side: Side, x: Value, y: Value, z: Value) -> Value {
    match side {
        Side::XY => x,
        Side::XZ => x,
        Side::YZ => y,
    }
}

/// The vertex under which a side looks its second index up, for a triangle.
pub open spec fn second_at(side: Side, x: Value, y: Value, z: Value) -> Value {
    match side {
        Side::XY => y,
        Side::XZ => z,
        Side::YZ => z,
    }
}

/// What a batch of one side sends for a triangle: what the batch gives the
/// side's edge, closed with the weights of the two other edges in the indexes
/// that the side looks up.
pub proof fn lemma_triangle_pass_weight(
    side: Side,
    first: Groups,
    second: Groups,
    batch: Seq<(Value, isize)>,
    x: Value,
    y: Value,
    z: Value,
)
    requires
        groups_wf(first),
        groups_wf(second),
    ensures
        batch_weight(triangle_pass(side, first, second, batch), triangle(x, y, z)) == closed_with(
            side,
            edge_weight(side, batch, x, y, z),
            cell(first, first_at(side, x, y, z), third(side, x, y, z)),
            cell(second, second_at(side, x, y, z), third(side, x, y, z)),
        ),
    decreases batch.len(),
{
    let w1 = cell(first, first_at(side, x, y, z), third(side, x, y, z));
    let w2 = cell(second, second_at(side, x, y, z), third(side, x, y, z));
    if batch.len() == 0 {
        lemma_closed_with_linear(side, 0, 0, w1, w2);
    } else {
        let rest = batch.drop_last();
        let rec = batch.last().0;
        let r = batch.last().1;
        lemma_triangle_pass_weight(side, first, second, rest, x, y, z);
        let l = group_of(first, rec.first());
        let m = group_of(second, rec.second());
        lemma_group_of_wf(first, rec.first());
        lemma_group_of_wf(second, rec.second());
        lemma_intersection_emit_weight(side, rec, r, l, m, x, y, z);
        lemma_batch_weight_concat(
            triangle_pass(side, first, second, rest),
            triangle_emit(side, rec, r, intersection_spec(l, m)),
            triangle(x, y, z),
        );
        let before = edge_weight(side, rest, x, y, z);
        if is_edge(side, rec, x, y, z) {
            lemma_closed_with_linear(side, before, r, w1, w2);
        } else {
            crate::monoid::lemma_wadd_zero(before);
            crate::monoid::lemma_wadd_zero(closed_with(side, before, w1, w2));
        }
    }
}

/// A batch adds to every weight of an index by second components what it
/// gives the records of that inner and outer key.
pub proof fn lemma_group_add_all_swapped_weight(
    g: Groups,
    batch: Seq<(Value, isize)>,
    k: Value,
    x: Value,
)
    requires
        groups_wf(g),
    ensures
        groups_wf(group_add_all_swapped(g, batch)),
        cell(group_add_all_swapped(g, batch), x, k) == wadd(cell(g, x, k), keyed_weight(batch, k, x)),
    decreases batch.len(),
{
    if batch.len() > 0 {
        let rest = batch.drop_last();
        lemma_group_add_all_swapped_weight(g, rest, k, x);
        let g1 = group_add_all_swapped(g, rest);
        let rec = batch.last().0;
        lemma_group_add_weight(g1, rec.second(), rec.first(), batch.last().1, x, k);
        lemma_group_add_wf(g1, rec.second(), rec.first(), batch.last().1);
        let d: isize = if rec.first() == k && rec.second() == x {
            batch.last().1
        } else {
            0
        };
        crate::monoid::lemma_wadd_associates(cell(g, x, k), keyed_weight(rest, k, x), d);
    } else {
        crate::monoid::lemma_wadd_zero(cell(g, x, k));
    }
}

/// Both indexes of a side hold the same: a record has the same weight under
/// its first component in the one and under its second in the other.
pub open spec fn indexes_agree(v: BiMapView) -> bool {
    forall|a: Value, b: Value| #[trigger] cell(v.backward, b, a) == cell(v.forward, a, b)
}

/// Taking a batch in keeps both indexes of a side in agreement.
pub proof fn lemma_indexes_stay_agreed(v: BiMapView, batch: Seq<(Value, isize)>)
    requires
        v.wf(),
        indexes_agree(v),
    ensures
        v.after(batch).wf(),
        indexes_agree(v.after(batch)),
{
    lemma_group_add_all_weight(v.forward, batch, Value::Unit, Value::Unit);
    lemma_group_add_all_swapped_weight(v.backward, batch, Value::Unit, Value::Unit);
    assert forall|a: Value, b: Value| #[trigger]
        cell(v.after(batch).backward, b, a) == cell(v.after(batch).forward, a, b) by {
        lemma_group_add_all_weight(v.forward, batch, a, b);
        lemma_group_add_all_swapped_weight(v.backward, batch, a, b);
        assert(cell(v.backward, b, a) == cell(v.forward, a, b));
    }
}

/// What a triangle join stands for: for every triangle, the product of the
/// weights of its three edges.
pub open spec fn closed(v: TrianglesView, x: Value, y: Value, z: Value) -> isize {
    wmul(wmul(cell(v.mxy.forward, x, y), cell(v.mxz.forward, x, z)), cell(v.myz.forward, y, z))
}

/// What a triangle join sends adds up to what it stands for: for every
/// triangle, the product of the weights of its edges before the step and what
/// the step sends for it give the product of the weights of its edges after
/// the step. So whoever adds up what a triangle join sends holds, for every
/// triangle, the product of the weights of its three edges.
#[verifier::rlimit(100)]
#[verifier::spinoff_prover]
pub proof fn lemma_triangles_send_what_changes(
    v: TrianglesView,
    bxy: Seq<(Value, isize)>,
    bxz: Seq<(Value, isize)>,
    byz: Seq<(Value, isize)>,
    x: Value,
    y: Value,
    z: Value,
)
    requires
        v.wf(),
        indexes_agree(v.mxy),
        indexes_agree(v.mxz),
        indexes_agree(v.myz),
    ensures
        triangles_flow(v, bxy, bxz, byz).0.wf(),
        indexes_agree(triangles_flow(v, bxy, bxz, byz).0.mxy),
        indexes_agree(triangles_flow(v, bxy, bxz, byz).0.mxz),
        indexes_agree(triangles_flow(v, bxy, bxz, byz).0.myz),
        wadd(
            closed(v, x, y, z),
            batch_weight(triangles_flow(v, bxy, bxz, byz).1, triangle(x, y, z)),
        ) == closed(triangles_flow(v, bxy, bxz, byz).0, x, y, z),
{
    let mxy = v.mxy.after(bxy);
    let mxz = v.mxz.after(bxz);
    let myz = v.myz.after(byz);
    lemma_indexes_stay_agreed(v.mxy, bxy);
    lemma_indexes_stay_agreed(v.mxz, bxz);
    lemma_indexes_stay_agreed(v.myz, byz);
    let t = triangle(x, y, z);
    let p1 = triangle_pass(Side::XY, v.mxz.forward, v.myz.forward, bxy);
    let p2 = triangle_pass(Side::XZ, mxy.forward, v.myz.backward, bxz);
    let p3 = triangle_pass(Side::YZ, mxy.backward, mxz.backward, byz);
    lemma_triangle_pass_weight(Side::XY, v.mxz.forward, v.myz.forward, bxy, x, y, z);
    lemma_triangle_pass_weight(Side::XZ, mxy.forward, v.myz.backward, bxz, x, y, z);
    lemma_triangle_pass_weight(Side::YZ, mxy.backward, mxz.backward, byz, x, y, z);
    lemma_batch_weight_concat(p1, p2, t);
    lemma_batch_weight_concat(p1 + p2, p3, t);
    lemma_group_add_all_weight(v.mxy.forward, bxy, x, y);
    lemma_group_add_all_weight(v.mxz.forward, bxz, x, z);
    lemma_group_add_all_weight(v.myz.forward, byz, y, z);
    let a = cell(v.mxy.forward, x, y);
    let b = cell(v.mxz.forward, x, z);
    let c = cell(v.myz.forward, y, z);
    let da = keyed_weight(bxy, x, y);
    let db = keyed_weight(bxz, x, z);
    let dc = keyed_weight(byz, y, z);
    assert(cell(v.myz.backward, z, y) == c);
    assert(cell(mxy.backward, y, x) == cell(mxy.forward, x, y));
    assert(cell(mxz.backward, z, x) == cell(mxz.forward, x, z));
    assert(batch_weight(p1, t) == wmul(wmul(da, b), c));
    assert(batch_weight(p2, t) == wmul(wmul(wadd(a, da), db), c));
    assert(batch_weight(p3, t) == wmul(wmul(wadd(a, da), wadd(b, db)), dc));
    lemma_triple_grows(a, da, b, db, c, dc);
}

/// What a step adds to a product of three: where all factors grow, the
/// product grows by the growth of the first with the others as they were, the
/// growth of the second with the first as it is then and the third as it
/// was, and the growth of the third with the others as they are then.
pub proof fn lemma_triple_grows(a: isize, da: isize, b: isize, db: isize, c: isize, dc: isize)
    ensures
        wadd(
            wmul(wmul(a, b), c),
            wadd(
                wadd(wmul(wmul(da, b), c), wmul(wmul(wadd(a, da), db), c)),
                wmul(wmul(wadd(a, da), wadd(b, db)), dc),
            ),
        ) == wmul(wmul(wadd(a, da), wadd(b, db)), wadd(c, dc)),
{
    let a1 = wadd(a, da);
    let b1 = wadd(b, db);
    // a1 * b1 = a * b + da * b + a1 * db
    crate::ring::lemma_product_grows(a, da, b, db);
    let ab = wmul(a, b);
    let dab = wmul(da, b);
    let a1db = wmul(a1, db);
    let a1b1 = wmul(a1, b1);
    assert(a1b1 == wadd(ab, wadd(dab, a1db)));
    // (a * b + da * b + a1 * db) * c = a * b * c + da * b * c + a1 * db * c
    lemma_wmul_distributes(ab, wadd(dab, a1db), c);
    lemma_wmul_distributes(dab, a1db, c);
    // a1 * b1 * (c + dc) = a1 * b1 * c + a1 * b1 * dc
    lemma_wmul_distributes(c, dc, a1b1);
    let p = wmul(ab, c);
    let q = wmul(dab, c);
    let r = wmul(a1db, c);
    let s = wmul(a1b1, dc);
    assert(wmul(a1b1, c) == wadd(p, wadd(q, r)));
    assert(wmul(a1b1, wadd(c, dc)) == wadd(wadd(p, wadd(q, r)), s));
    crate::monoid::lemma_wadd_associates(p, wadd(q, r), s);
}

} // verus!
