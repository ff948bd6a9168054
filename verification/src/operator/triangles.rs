//! Triangle join: of three relations over `(x, y)`, `(x, z)` and `(y, z)`,
//! the triples `(x, y, z)` that all three agree on.

use crate::borrow::BorrowOrDefault;
use crate::map::{
    group_add, group_add_all, group_of, groups_wf, has_key, lemma_group_add_wf, weight_of, Batch,
    GroupMap, Groups, WeightMap,
};
use crate::monoid::wmul;
use crate::operator::Op;
use crate::value::Value;
use vstd::prelude::*;

verus! {

/// The entries of the first map whose key the second one holds too, each with
/// both weights, the left map's first.
pub open spec fn intersect_with(
    walked: Seq<(Value, isize)>,
    other: Seq<(Value, isize)>,
    walked_is_left: bool,
) -> Seq<(Value, (isize, isize))>
    decreases walked.len(),
{
    if walked.len() == 0 {
        Seq::empty()
    } else {
        let rest = intersect_with(walked.drop_last(), other, walked_is_left);
        let e = walked.last();
        if has_key(other, e.0) {
            rest.push(
                (
                    e.0,
                    if walked_is_left {
                        (e.1, weight_of(other, e.0))
                    } else {
                        (weight_of(other, e.0), e.1)
                    },
                ),
            )
        } else {
            rest
        }
    }
}

/// The keys that two maps share, each with both weights. The smaller map is
/// walked and the other one asked; of two maps of one size the left is walked.
pub open spec fn intersection_spec(l: Seq<(Value, isize)>, r: Seq<(Value, isize)>) -> Seq<
    (Value, (isize, isize)),
> {
    if r.len() < l.len() {
        intersect_with(r, l, false)
    } else {
        intersect_with(l, r, true)
    }
}

fn intersect(walked: &WeightMap, other: &WeightMap, walked_is_left: bool) -> (out: Vec<
    (Value, (isize, isize)),
>)
    requires
        other.wf(),
    ensures
        out@ == intersect_with(walked@, other@, walked_is_left),
{
    let mut out: Vec<(Value, (isize, isize))> = Vec::new();
    let mut i: usize = 0;
    while i < walked.len()
        invariant
            0 <= i <= walked@.len(),
            other.wf(),
            out@ == intersect_with(walked@.take(i as int), other@, walked_is_left),
        decreases walked@.len() - i,
    {
        proof {
            assert(walked@.take(i as int + 1).drop_last() =~= walked@.take(i as int));
        }
        let k = walked.key_at(i);
        if other.contains_key(k) {
            let w = other.get(k);
            if walked_is_left {
                out.push((k.clone(), (walked.weight_at(i), w)));
            } else {
                out.push((k.clone(), (w, walked.weight_at(i))));
            }
        }
        i += 1;
    }
    proof {
        assert(walked@.take(walked@.len() as int) =~= walked@);
    }
    out
}

/// The keys that two maps share, each with both weights.
pub fn intersection(l: &WeightMap, r: &WeightMap) -> (out: Vec<(Value, (isize, isize))>)
    requires
        l.wf(),
        r.wf(),
    ensures
        out@ == intersection_spec(l@, r@),
{
    if r.len() < l.len() {
        intersect(r, l, false)
    } else {
        intersect(l, r, true)
    }
}

/// The side that a batch of a triangle join came in on.
#[derive(Clone, Copy, PartialEq, Eq, Structural)]
pub enum Side {
    XY,
    XZ,
    YZ,
}

/// The triple, with its weight, that a record of one side makes with a third
/// vertex that the other two sides share.
pub open spec fn triangle_of(side: Side, x: Value, r: isize, c: (Value, (isize, isize))) -> (
    Value,
    isize,
) {
    let a = x.first();
    let b = x.second();
    match side {
        Side::XY => (
            Value::pair_of(a, Value::pair_of(b, c.0)),
            wmul(wmul(r, c.1.0), c.1.1),
        ),
        Side::XZ => (
            Value::pair_of(a, Value::pair_of(c.0, b)),
            wmul(wmul(c.1.0, r), c.1.1),
        ),
        Side::YZ => (
            Value::pair_of(c.0, Value::pair_of(a, b)),
            wmul(wmul(c.1.0, c.1.1), r),
        ),
    }
}

/// The triangles that one record closes.
pub open spec fn triangle_emit(side: Side, x: Value, r: isize, common: Seq<(Value, (isize, isize))>) -> Seq<
    (Value, isize),
> {
    Seq::new(common.len(), |j: int| triangle_of(side, x, r, common[j]))
}

/// The triangles that a batch of one side closes, given the two indexes of
/// the other sides that its records are looked up in: the first under the
/// record's first component, the second under its second.
pub open spec fn triangle_pass(side: Side, first: Groups, second: Groups, batch: Seq<(Value, isize)>) -> Seq<
    (Value, isize),
>
    decreases batch.len(),
{
    if batch.len() == 0 {
        Seq::empty()
    } else {
        let x = batch.last().0;
        triangle_pass(side, first, second, batch.drop_last()) + triangle_emit(
            side,
            x,
            batch.last().1,
            intersection_spec(group_of(first, x.first()), group_of(second, x.second())),
        )
    }
}

fn triangle_side(side: Side, first: &GroupMap, second: &GroupMap, batch: &Batch) -> (out: Batch)
    requires
        first.wf(),
        second.wf(),
    ensures
        out@ == triangle_pass(side, first@, second@, batch@),
{
    let mut out: Vec<(Value, isize)> = Vec::new();
    let mut i: usize = 0;
    while i < batch.len()
        invariant
            0 <= i <= batch.len(),
            first.wf(),
            second.wf(),
            out@ == triangle_pass(side, first@, second@, batch@.take(i as int)),
        decreases batch.len() - i,
    {
        proof {
            assert(batch@.take(i as int + 1).drop_last() =~= batch@.take(i as int));
        }
        let a = batch[i].0.fst();
        let b = batch[i].0.snd();
        let r = batch[i].1;
        let l = first.get(&a).borrow_or_default();
        let m = second.get(&b).borrow_or_default();
        let common = intersection(l.get(), m.get());
        let ghost before = out@;
        let ghost emit = triangle_emit(side, batch@[i as int].0, r, common@);
        let mut j: usize = 0;
        while j < common.len()
            invariant
                0 <= j <= common.len(),
                a == batch@[i as int].0.first(),
                b == batch@[i as int].0.second(),
                r == batch@[i as int].1,
                emit == triangle_emit(side, batch@[i as int].0, r, common@),
                out@ == before + emit.take(j as int),
            decreases common.len() - j,
        {
            let c = common[j].0.clone();
            let w1 = common[j].1.0;
            let w2 = common[j].1.1;
            let t = match side {
                Side::XY => (Value::triple(a.clone(), b.clone(), c), r.wrapping_mul(w1).wrapping_mul(w2)),
                Side::XZ => (Value::triple(a.clone(), c, b.clone()), w1.wrapping_mul(r).wrapping_mul(w2)),
                Side::YZ => (Value::triple(c, a.clone(), b.clone()), w1.wrapping_mul(w2).wrapping_mul(r)),
            };
            out.push(t);
            proof {
                assert(emit.take(j as int + 1) =~= emit.take(j as int).push(emit[j as int]));
                assert(before + emit.take(j as int).push(emit[j as int]) =~= (before + emit.take(
                    j as int,
                )).push(emit[j as int]));
            }
            j += 1;
        }
        proof {
            assert(emit.take(common@.len() as int) =~= emit);
        }
        i += 1;
    }
    proof {
        assert(batch@.take(batch.len() as int) =~= batch@);
    }
    out
}

/// The groups after every record of a batch was added with its components
/// exchanged.
pub open spec fn group_add_all_swapped(g: Groups, batch: Seq<(Value, isize)>) -> Groups
    decreases batch.len(),
{
    if batch.len() == 0 {
        g
    } else {
        let x = batch.last().0;
        group_add(
            group_add_all_swapped(g, batch.drop_last()),
            x.second(),
            x.first(),
            batch.last().1,
        )
    }
}

pub proof fn lemma_group_add_all_swapped_wf(g: Groups, batch: Seq<(Value, isize)>)
    requires
        groups_wf(g),
    ensures
        groups_wf(group_add_all_swapped(g, batch)),
    decreases batch.len(),
{
    if batch.len() > 0 {
        lemma_group_add_all_swapped_wf(g, batch.drop_last());
        let x = batch.last().0;
        lemma_group_add_wf(
            group_add_all_swapped(g, batch.drop_last()),
            x.second(),
            x.first(),
            batch.last().1,
        );
    }
}

/// One side of a triangle join: what it has delivered, indexed by either
/// component.
pub struct BiMap {
    pub forward: GroupMap,
    pub backward: GroupMap,
    pub inner: usize,
}

pub struct BiMapView {
    pub forward: Groups,
    pub backward: Groups,
    pub inner: usize,
}

impl View for BiMap {
    type V = BiMapView;

    open spec fn view(&self) -> BiMapView {
        BiMapView { forward: self.forward@, backward: self.backward@, inner: self.inner }
    }
}

impl BiMapView {
    pub open spec fn wf(self) -> bool {
        groups_wf(self.forward) && groups_wf(self.backward)
    }

    /// The side after it has taken a batch in.
    pub open spec fn after(self, batch: Seq<(Value, isize)>) -> BiMapView {
        BiMapView {
            forward: group_add_all(self.forward, batch),
            backward: group_add_all_swapped(self.backward, batch),
            inner: self.inner,
        }
    }

    pub open spec fn fresh(inner: usize) -> BiMapView {
        BiMapView { forward: Seq::empty(), backward: Seq::empty(), inner }
    }
}

impl BiMap {
    pub open spec fn wf(&self) -> bool {
        self@.wf()
    }

    pub fn new(inner: usize) -> (m: Self)
        ensures
            m@ == BiMapView::fresh(inner),
            m.wf(),
    {
        BiMap { forward: GroupMap::new(), backward: GroupMap::new(), inner }
    }

    /// Takes a batch into both indexes.
    pub fn flow(&mut self, batch: &Batch)
        requires
            old(self).wf(),
        ensures
            final(self).wf(),
            final(self)@ == old(self)@.after(batch@),
    {
        self.forward.add_batch(batch);
        let mut i: usize = 0;
        while i < batch.len()
            invariant
                0 <= i <= batch.len(),
                self.wf(),
                self.inner == old(self).inner,
                self.forward@ == group_add_all(old(self).forward@, batch@),
                self.backward@ == group_add_all_swapped(old(self).backward@, batch@.take(i as int)),
            decreases batch.len() - i,
        {
            proof {
                assert(batch@.take(i as int + 1).drop_last() =~= batch@.take(i as int));
            }
            self.backward.add(batch[i].0.snd(), batch[i].0.fst(), batch[i].1);
            i += 1;
        }
        proof {
            assert(batch@.take(batch.len() as int) =~= batch@);
        }
    }
}

/// The state of a triangle join: its three sides.
pub struct Triangles {
    pub mxy: BiMap,
    pub mxz: BiMap,
    pub myz: BiMap,
}

pub struct TrianglesView {
    pub mxy: BiMapView,
    pub mxz: BiMapView,
    pub myz: BiMapView,
}

impl View for Triangles {
    type V = TrianglesView;

    open spec fn view(&self) -> TrianglesView {
        TrianglesView { mxy: self.mxy@, mxz: self.mxz@, myz: self.myz@ }
    }
}

impl TrianglesView {
    pub open spec fn wf(self) -> bool {
        self.mxy.wf() && self.mxz.wf() && self.myz.wf()
    }
}

/// A step of a triangle join. Each side's batch closes triangles with what
/// the other two sides have delivered, the sides before it including their
/// batches, and is then remembered.
pub open spec fn triangles_flow(
    v: TrianglesView,
    bxy: Seq<(Value, isize)>,
    bxz: Seq<(Value, isize)>,
    byz: Seq<(Value, isize)>,
) -> (TrianglesView, Seq<(Value, isize)>) {
    let mxy = v.mxy.after(bxy);
    let mxz = v.mxz.after(bxz);
    let myz = v.myz.after(byz);
    (
        TrianglesView { mxy, mxz, myz },
        triangle_pass(Side::XY, v.mxz.forward, v.myz.forward, bxy) + triangle_pass(
            Side::XZ,
            mxy.forward,
            v.myz.backward,
            bxz,
        ) + triangle_pass(Side::YZ, mxy.backward, mxz.backward, byz),
    )
}

impl Triangles {
    pub open spec fn wf(&self) -> bool {
        self@.wf()
    }

    pub fn new(xy: usize, xz: usize, yz: usize) -> (t: Self)
        ensures
            t@ == (TrianglesView {
                mxy: BiMapView::fresh(xy),
                mxz: BiMapView::fresh(xz),
                myz: BiMapView::fresh(yz),
            }),
            t.wf(),
    {
        Triangles { mxy: BiMap::new(xy), mxz: BiMap::new(xz), myz: BiMap::new(yz) }
    }

    pub fn flow(&mut self, bxy: &Batch, bxz: &Batch, byz: &Batch) -> (out: Batch)
        requires
            old(self).wf(),
        ensures
            final(self).wf(),
            (final(self)@, out@) == triangles_flow(old(self)@, bxy@, bxz@, byz@),
    {
        let mut out = triangle_side(Side::XY, &self.mxz.forward, &self.myz.forward, bxy);
        self.mxy.flow(bxy);
        let second = triangle_side(Side::XZ, &self.mxy.forward, &self.myz.backward, bxz);
        self.mxz.flow(bxz);
        let third = triangle_side(Side::YZ, &self.mxy.backward, &self.mxz.backward, byz);
        self.myz.flow(byz);
        crate::operator::append_batch(&mut out, second);
        crate::operator::append_batch(&mut out, third);
        out
    }
}

impl Op for Triangles {
    open spec fn hideable_spec() -> bool {
        true
    }

    open spec fn op_name_spec() -> Seq<char> {
        "triangles"@
    }

    fn hideable() -> (b: bool) {
        true
    }

    fn default_op_name() -> (name: &'static str) {
        "triangles"
    }
}

} // verus!
