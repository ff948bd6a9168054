//! Join on the first component, and antijoin: the records of the left side
//! whose key the right side does not hold.

use crate::map::{
    add_items, group_add_all, group_of, groups_wf, has_key, items_wf, Batch, GroupMap, Groups,
    WeightMap,
};
use crate::monoid::{wmul, wneg};
use crate::operator::Op;
use crate::value::Value;
use vstd::prelude::*;

verus! {

/// What a record meeting the other side's group sends on: one joined record
/// for each entry of the group, weighted by the product.
pub open spec fn join_emit(x: Value, r: isize, other: Seq<(Value, isize)>, left_side: bool) -> Seq<
    (Value, isize),
> {
    Seq::new(
        other.len(),
        |j: int|
            if left_side {
                (
                    Value::pair_of(x.first(), Value::pair_of(x.second(), other[j].0)),
                    wmul(r, other[j].1),
                )
            } else {
                (
                    Value::pair_of(x.first(), Value::pair_of(other[j].0, x.second())),
                    wmul(other[j].1, r),
                )
            },
    )
}

/// What a batch sends on when each of its records meets the other side's
/// group under the record's key.
pub open spec fn join_pass(other: Groups, batch: Seq<(Value, isize)>, left_side: bool) -> Seq<
    (Value, isize),
>
    decreases batch.len(),
{
    if batch.len() == 0 {
        Seq::empty()
    } else {
        join_pass(other, batch.drop_last(), left_side) + join_emit(
            batch.last().0,
            batch.last().1,
            group_of(other, batch.last().0.first()),
            left_side,
        )
    }
}

/// The records that a batch sends on against the other side.
pub fn join_side(other: &GroupMap, batch: &Batch, left_side: bool) -> (out: Batch)
    requires
        other.wf(),
    ensures
        out@ == join_pass(other@, batch@, left_side),
{
    let mut out: Vec<(Value, isize)> = Vec::new();
    let mut i: usize = 0;
    while i < batch.len()
        invariant
            0 <= i <= batch.len(),
            other.wf(),
            out@ == join_pass(other@, batch@.take(i as int), left_side),
        decreases batch.len() - i,
    {
        let k = batch[i].0.fst();
        let x = batch[i].0.snd();
        let r = batch[i].1;
        let ghost before = out@;
        let ghost emit = join_emit(batch@[i as int].0, r, group_of(other@, k), left_side);
        match other.get(&k) {
            Some(g) => {
                let mut j: usize = 0;
                while j < g.len()
                    invariant
                        0 <= j <= g@.len(),
                        g@ == group_of(other@, k),
                        k == batch@[i as int].0.first(),
                        x == batch@[i as int].0.second(),
                        r == batch@[i as int].1,
                        emit == join_emit(batch@[i as int].0, r, g@, left_side),
                        out@ == before + emit.take(j as int),
                    decreases g@.len() - j,
                {
                    let y = g.key_at(j).clone();
                    let w = g.weight_at(j);
                    if left_side {
                        out.push((Value::pair(k.clone(), Value::pair(x.clone(), y)), r.wrapping_mul(w)));
                    } else {
                        out.push((Value::pair(k.clone(), Value::pair(y, x.clone())), w.wrapping_mul(r)));
                    }
                    proof {
                        assert(emit.take(j as int + 1) =~= emit.take(j as int).push(emit[j as int]));
                        assert(before + emit.take(j as int).push(emit[j as int]) =~= (before
                            + emit.take(j as int)).push(emit[j as int]));
                    }
                    j += 1;
                }
                proof {
                    assert(emit.take(g@.len() as int) =~= emit);
                }
            },
            None => {
                proof {
                    assert(emit =~= Seq::empty());
                    assert(before + emit =~= before);
                }
            },
        }
        proof {
            assert(batch@.take(i as int + 1).drop_last() =~= batch@.take(i as int));
        }
        i += 1;
    }
    proof {
        assert(batch@.take(batch.len() as int) =~= batch@);
    }
    out
}

/// The state of a join: what each side has delivered so far, by key.
pub struct Join {
    pub left: usize,
    pub right: usize,
    pub left_map: GroupMap,
    pub right_map: GroupMap,
}

pub struct JoinView {
    pub left: usize,
    pub right: usize,
    pub left_map: Groups,
    pub right_map: Groups,
}

impl View for Join {
    type V = JoinView;

    open spec fn view(&self) -> JoinView {
        JoinView {
            left: self.left,
            right: self.right,
            left_map: self.left_map@,
            right_map: self.right_map@,
        }
    }
}

impl JoinView {
    pub open spec fn wf(self) -> bool {
        groups_wf(self.left_map) && groups_wf(self.right_map)
    }
}

/// A step of a join. The left batch meets what the right side had delivered
/// before and is then remembered; the right batch meets what the left side has
/// delivered including its batch, and is then remembered.
pub open spec fn join_flow(v: JoinView, left: Seq<(Value, isize)>, right: Seq<(Value, isize)>) -> (
    JoinView,
    Seq<(Value, isize)>,
) {
    let left_map = group_add_all(v.left_map, left);
    (
        JoinView {
            left: v.left,
            right: v.right,
            left_map,
            right_map: group_add_all(v.right_map, right),
        },
        join_pass(v.right_map, left, true) + join_pass(left_map, right, false),
    )
}

impl Join {
    pub open spec fn wf(&self) -> bool {
        self@.wf()
    }

    pub fn new(left: usize, right: usize) -> (j: Self)
        ensures
            j@ == (JoinView { left, right, left_map: Seq::empty(), right_map: Seq::empty() }),
            j.wf(),
    {
        Join { left, right, left_map: GroupMap::new(), right_map: GroupMap::new() }
    }

    pub fn flow(&mut self, left: &Batch, right: &Batch) -> (out: Batch)
        requires
            old(self).wf(),
        ensures
            final(self).wf(),
            (final(self)@, out@) == join_flow(old(self)@, left@, right@),
    {
        let mut out = join_side(&self.right_map, left, true);
        self.left_map.add_batch(left);
        let second = join_side(&self.left_map, right, false);
        self.right_map.add_batch(right);
        crate::operator::append_batch(&mut out, second);
        out
    }
}

impl Op for Join {
    open spec fn hideable_spec() -> bool {
        true
    }

    open spec fn op_name_spec() -> Seq<char> {
        "join"@
    }

    fn hideable() -> (b: bool) {
        true
    }

    fn default_op_name() -> (name: &'static str) {
        "join"
    }
}

/// What a change of presence of a key on the right sends on: every record
/// that the left side holds under the key, taken back when the key appeared
/// and given again when it went.
pub open spec fn anti_emit(k: Value, group: Seq<(Value, isize)>, negated: bool) -> Seq<
    (Value, isize),
> {
    Seq::new(
        group.len(),
        |j: int|
            (
                Value::pair_of(k, group[j].0),
                if negated {
                    wneg(group[j].1)
                } else {
                    group[j].1
                },
            ),
    )
}

/// The right side's map and what was sent on, after a batch of the right
/// side.
pub open spec fn anti_right(left: Groups, right: Seq<(Value, isize)>, batch: Seq<(Value, isize)>) -> (
    Seq<(Value, isize)>,
    Seq<(Value, isize)>,
)
    decreases batch.len(),
{
    if batch.len() == 0 {
        (right, Seq::empty())
    } else {
        let (r1, out) = anti_right(left, right, batch.drop_last());
        let k = batch.last().0;
        let r2 = add_items(r1, k, batch.last().1);
        if has_key(r2, k) != has_key(r1, k) {
            (r2, out + anti_emit(k, group_of(left, k), has_key(r2, k)))
        } else {
            (r2, out)
        }
    }
}

/// What a batch of the left side sends on: its records whose key the right
/// side does not hold.
pub open spec fn anti_left(right: Seq<(Value, isize)>, batch: Seq<(Value, isize)>) -> Seq<
    (Value, isize),
>
    decreases batch.len(),
{
    if batch.len() == 0 {
        Seq::empty()
    } else {
        let out = anti_left(right, batch.drop_last());
        let x = batch.last().0;
        if has_key(right, x.first()) {
            out
        } else {
            out.push((Value::pair_of(x.first(), x.second()), batch.last().1))
        }
    }
}

/// The state of an antijoin: the left side's records by key, and the weight
/// of each key on the right.
pub struct AntiJoin {
    pub left: usize,
    pub right: usize,
    pub left_map: GroupMap,
    pub right_map: WeightMap,
}

pub struct AntiJoinView {
    pub left: usize,
    pub right: usize,
    pub left_map: Groups,
    pub right_map: Seq<(Value, isize)>,
}

impl View for AntiJoin {
    type V = AntiJoinView;

    open spec fn view(&self) -> AntiJoinView {
        AntiJoinView {
            left: self.left,
            right: self.right,
            left_map: self.left_map@,
            right_map: self.right_map@,
        }
    }
}

impl AntiJoinView {
    pub open spec fn wf(self) -> bool {
        groups_wf(self.left_map) && items_wf(self.right_map)
    }
}

/// A step of an antijoin: first the right batch, then the left one.
pub open spec fn anti_flow(v: AntiJoinView, right: Seq<(Value, isize)>, left: Seq<(Value, isize)>) -> (
    AntiJoinView,
    Seq<(Value, isize)>,
) {
    let (right_map, out) = anti_right(v.left_map, v.right_map, right);
    (
        AntiJoinView {
            left: v.left,
            right: v.right,
            left_map: group_add_all(v.left_map, left),
            right_map,
        },
        out + anti_left(right_map, left),
    )
}

impl AntiJoin {
    pub open spec fn wf(&self) -> bool {
        self@.wf()
    }

    pub fn new(left: usize, right: usize) -> (j: Self)
        ensures
            j@ == (AntiJoinView { left, right, left_map: Seq::empty(), right_map: Seq::empty() }),
            j.wf(),
    {
        AntiJoin { left, right, left_map: GroupMap::new(), right_map: WeightMap::new() }
    }

    pub fn flow(&mut self, right: &Batch, left: &Batch) -> (out: Batch)
        requires
            old(self).wf(),
        ensures
            final(self).wf(),
            (final(self)@, out@) == anti_flow(old(self)@, right@, left@),
    {
        let mut out: Vec<(Value, isize)> = Vec::new();
        let mut i: usize = 0;
        while i < right.len()
            invariant
                0 <= i <= right.len(),
                self.wf(),
                self.left == old(self).left,
                self.right == old(self).right,
                self.left_map@ == old(self).left_map@,
                (self.right_map@, out@) == anti_right(
                    old(self).left_map@,
                    old(self).right_map@,
                    right@.take(i as int),
                ),
            decreases right.len() - i,
        {
            proof {
                assert(right@.take(i as int + 1).drop_last() =~= right@.take(i as int));
            }
            let k = right[i].0.clone();
            let was = self.right_map.contains_key(&k);
            self.right_map.add(k.clone(), right[i].1);
            let is = self.right_map.contains_key(&k);
            if is != was {
                let ghost before = out@;
                let ghost emit = anti_emit(k, group_of(self.left_map@, k), is);
                match self.left_map.get(&k) {
                    Some(g) => {
                        let mut j: usize = 0;
                        while j < g.len()
                            invariant
                                0 <= j <= g@.len(),
                                emit == anti_emit(k, g@, is),
                                out@ == before + emit.take(j as int),
                            decreases g@.len() - j,
                        {
                            let w = g.weight_at(j);
                            let nr = if is {
                                0isize.wrapping_sub(w)
                            } else {
                                w
                            };
                            out.push((Value::pair(k.clone(), g.key_at(j).clone()), nr));
                            proof {
                                assert(emit.take(j as int + 1) =~= emit.take(j as int).push(
                                    emit[j as int],
                                ));
                                assert(before + emit.take(j as int).push(emit[j as int]) =~= (
                                before + emit.take(j as int)).push(emit[j as int]));
                            }
                            j += 1;
                        }
                        proof {
                            assert(emit.take(g@.len() as int) =~= emit);
                        }
                    },
                    None => {
                        proof {
                            assert(emit =~= Seq::empty());
                            assert(before + emit =~= before);
                        }
                    },
                }
            }
            i += 1;
        }
        proof {
            assert(right@.take(right.len() as int) =~= right@);
        }
        let ghost first = out@;
        let mut i: usize = 0;
        while i < left.len()
            invariant
                0 <= i <= left.len(),
                self.wf(),
                out@ == first + anti_left(self.right_map@, left@.take(i as int)),
            decreases left.len() - i,
        {
            proof {
                assert(left@.take(i as int + 1).drop_last() =~= left@.take(i as int));
            }
            let k = left[i].0.fst();
            if !self.right_map.contains_key(&k) {
                out.push((Value::pair(k, left[i].0.snd()), left[i].1));
                proof {
                    let prev = anti_left(self.right_map@, left@.take(i as int));
                    let e = (
                        Value::pair_of(left@[i as int].0.first(), left@[i as int].0.second()),
                        left@[i as int].1,
                    );
                    assert(first + prev.push(e) =~= (first + prev).push(e));
                }
            }
            i += 1;
        }
        proof {
            assert(left@.take(left.len() as int) =~= left@);
        }
        self.left_map.add_batch(left);
        out
    }
}

impl Op for AntiJoin {
    open spec fn hideable_spec() -> bool {
        true
    }

    open spec fn op_name_spec() -> Seq<char> {
        "antijoin"@
    }

    fn hideable() -> (b: bool) {
        true
    }

    fn default_op_name() -> (name: &'static str) {
        "antijoin"
    }
}

} // verus!
