//! Reduce: for each key, the output of a reduction of the key's group, kept up
//! to date by sending on the difference to the output before.

use crate::function::{Function, Reduction};
use crate::map::{
    add_all, group_add_all, group_of, groups_wf, lemma_add_all_wf, lemma_set_group_wf,
    remove_items, set_group, weight_of, Batch, GroupMap, Groups, WeightMap,
};
use crate::monoid::{wneg, wsub};
use crate::operator::Op;
use crate::value::Value;
use vstd::prelude::*;

verus! {

/// The keys of a batch, each once, in the order in which they first occur.
pub open spec fn changed_keys(batch: Seq<(Value, isize)>) -> Seq<Value>
    decreases batch.len(),
{
    if batch.len() == 0 {
        Seq::empty()
    } else {
        let keys = changed_keys(batch.drop_last());
        let k = batch.last().0.first();
        if keys.contains(k) {
            keys
        } else {
            keys.push(k)
        }
    }
}

/// The difference of a new output to the old one, entry by entry of the new:
/// what is left of the old output, and the changes of weight that are not
/// zero.
pub open spec fn diff_new(k: Value, new: Seq<(Value, isize)>, old: Seq<(Value, isize)>) -> (
    Seq<(Value, isize)>,
    Seq<(Value, isize)>,
)
    decreases new.len(),
{
    if new.len() == 0 {
        (old, Seq::empty())
    } else {
        let (rest, out) = diff_new(k, new.drop_last(), old);
        let e = new.last();
        let d = wsub(e.1, weight_of(rest, e.0));
        (
            remove_items(rest, e.0),
            if d == 0 {
                out
            } else {
                out.push((Value::pair_of(k, e.0), d))
            },
        )
    }
}

/// The entries of an old output that the new one no longer has, taken back.
pub open spec fn withdraw(k: Value, rest: Seq<(Value, isize)>) -> Seq<(Value, isize)> {
    Seq::new(rest.len(), |j: int| (Value::pair_of(k, rest[j].0), wneg(rest[j].1)))
}

/// What a key sends on when its output changes from the old to the new one.
pub open spec fn diff_emit(k: Value, new: Seq<(Value, isize)>, old: Seq<(Value, isize)>) -> Seq<
    (Value, isize),
> {
    let (rest, out) = diff_new(k, new, old);
    out + withdraw(k, rest)
}

/// The records that the change of a key's output sends on.
pub fn diff_against(k: &Value, new_map: &WeightMap, old: WeightMap) -> (out: Batch)
    requires
        old.wf(),
    ensures
        out@ == diff_emit(*k, new_map@, old@),
{
    let mut old_map = old;
    let mut out: Vec<(Value, isize)> = Vec::new();
    let mut j: usize = 0;
    while j < new_map.len()
        invariant
            0 <= j <= new_map@.len(),
            old_map.wf(),
            (old_map@, out@) == diff_new(*k, new_map@.take(j as int), old@),
        decreases new_map@.len() - j,
    {
        proof {
            assert(new_map@.take(j as int + 1).drop_last() =~= new_map@.take(j as int));
        }
        let x = new_map.key_at(j);
        let before = old_map.get(x);
        old_map.remove(x);
        let d = new_map.weight_at(j).wrapping_sub(before);
        if d != 0 {
            out.push((Value::pair(k.clone(), x.clone()), d));
        }
        j += 1;
    }
    proof {
        assert(new_map@.take(new_map@.len() as int) =~= new_map@);
    }
    let ghost first = out@;
    let ghost rest = withdraw(*k, old_map@);
    let mut j: usize = 0;
    while j < old_map.len()
        invariant
            0 <= j <= old_map@.len(),
            rest == withdraw(*k, old_map@),
            out@ == first + rest.take(j as int),
        decreases old_map@.len() - j,
    {
        out.push(
            (Value::pair(k.clone(), old_map.key_at(j).clone()), 0isize.wrapping_sub(old_map.weight_at(j))),
        );
        proof {
            assert(rest.take(j as int + 1) =~= rest.take(j as int).push(rest[j as int]));
            assert(first + rest.take(j as int).push(rest[j as int]) =~= (first + rest.take(
                j as int,
            )).push(rest[j as int]));
        }
        j += 1;
    }
    proof {
        assert(rest.take(old_map@.len() as int) =~= rest);
    }
    out
}

/// The keys of a batch, each once, in the order in which they first occur.
pub fn keys_of(batch: &Batch) -> (keys: Vec<Value>)
    ensures
        keys@ == changed_keys(batch@),
{
    let mut keys: Vec<Value> = Vec::new();
    let mut i: usize = 0;
    while i < batch.len()
        invariant
            0 <= i <= batch.len(),
            keys@ == changed_keys(batch@.take(i as int)),
        decreases batch.len() - i,
    {
        proof {
            assert(batch@.take(i as int + 1).drop_last() =~= batch@.take(i as int));
        }
        let k = batch[i].0.fst();
        let mut found = false;
        let mut j: usize = 0;
        while j < keys.len()
            invariant
                0 <= j <= keys.len(),
                found == keys@.take(j as int).contains(k),
            decreases keys.len() - j,
        {
            proof {
                assert(keys@.take(j as int + 1) =~= keys@.take(j as int).push(keys@[j as int]));
                let t = keys@.take(j as int);
                assert(t.push(keys@[j as int]).contains(k) == (t.contains(k) || keys@[j as int]
                    == k)) by {
                    let p = t.push(keys@[j as int]);
                    if t.contains(k) {
                        let a = choose|a: int| 0 <= a < t.len() && t[a] == k;
                        assert(p[a] == k);
                    }
                    if keys@[j as int] == k {
                        assert(p[t.len() as int] == k);
                    }
                    if p.contains(k) {
                        let a = choose|a: int| 0 <= a < p.len() && p[a] == k;
                        if a < t.len() {
                            assert(t[a] == k);
                        }
                    }
                }
            }
            if keys[j].equals(&k) {
                found = true;
            }
            j += 1;
        }
        proof {
            assert(keys@.take(keys@.len() as int) =~= keys@);
        }
        if !found {
            keys.push(k);
        }
        i += 1;
    }
    proof {
        assert(batch@.take(batch.len() as int) =~= batch@);
    }
    keys
}

/// The state of a reduce: the group of each key, and each key's output.
pub struct Reduce<F> {
    pub inner: usize,
    pub input_maps: GroupMap,
    pub output_maps: GroupMap,
    pub proc: Reduction<F>,
}

pub struct ReduceView<F> {
    pub inner: usize,
    pub input_maps: Groups,
    pub output_maps: Groups,
    pub proc: Reduction<F>,
}

impl<F> View for Reduce<F> {
    type V = ReduceView<F>;

    open spec fn view(&self) -> ReduceView<F> {
        ReduceView {
            inner: self.inner,
            input_maps: self.input_maps@,
            output_maps: self.output_maps@,
            proc: self.proc,
        }
    }
}

impl<F> ReduceView<F> {
    pub open spec fn wf(self) -> bool {
        groups_wf(self.input_maps) && groups_wf(self.output_maps)
    }
}

/// The new output of a key: that of the reduction of its group, added up;
/// nothing for a key without a group.
pub open spec fn output_for<F: Function>(proc: Reduction<F>, k: Value, group: Seq<(Value, isize)>) -> Seq<
    (Value, isize),
> {
    if group.len() == 0 {
        Seq::empty()
    } else {
        add_all(Seq::empty(), proc.apply_spec(k, group))
    }
}

/// The outputs and what was sent on, after the given keys were brought up to
/// date one after the other.
pub open spec fn reduce_keys<F: Function>(
    proc: Reduction<F>,
    inputs: Groups,
    outputs: Groups,
    keys: Seq<Value>,
) -> (Groups, Seq<(Value, isize)>)
    decreases keys.len(),
{
    if keys.len() == 0 {
        (outputs, Seq::empty())
    } else {
        let (o1, out) = reduce_keys(proc, inputs, outputs, keys.drop_last());
        let k = keys.last();
        let group = group_of(inputs, k);
        let new = output_for(proc, k, group);
        (
            set_group(o1, k, new),
            out + diff_emit(k, new, group_of(o1, k)),
        )
    }
}

/// Whether one of the groups of the given keys breaks what the reduction
/// demands of it.
pub open spec fn any_broken<F: Function>(proc: Reduction<F>, inputs: Groups, keys: Seq<Value>) -> bool {
    exists|j: int|
        0 <= j < keys.len() && group_of(inputs, #[trigger] keys[j]).len() > 0
            && proc.violated_spec(group_of(inputs, keys[j]))
}

/// Whether a batch leaves a group that breaks what the reduction demands of
/// it: a reduce must not be given such a batch.
pub open spec fn reduce_breaks<F: Function>(v: ReduceView<F>, batch: Seq<(Value, isize)>) -> bool {
    any_broken(v.proc, group_add_all(v.input_maps, batch), changed_keys(batch))
}

/// A step of a reduce: the batch joins the groups, and every key of the batch
/// is brought up to date.
pub open spec fn reduce_flow<F: Function>(v: ReduceView<F>, batch: Seq<(Value, isize)>) -> (
    ReduceView<F>,
    Seq<(Value, isize)>,
) {
    let inputs = group_add_all(v.input_maps, batch);
    let (outputs, out) = reduce_keys(v.proc, inputs, v.output_maps, changed_keys(batch));
    (ReduceView { inner: v.inner, input_maps: inputs, output_maps: outputs, proc: v.proc }, out)
}

impl<F: Function> Reduce<F> {
    pub open spec fn wf(&self) -> bool {
        self@.wf()
    }

    pub fn new(inner: usize, proc: Reduction<F>) -> (r: Self)
        ensures
            r@ == (ReduceView {
                inner,
                input_maps: Seq::empty(),
                output_maps: Seq::empty(),
                proc,
            }),
            r.wf(),
    {
        Reduce {
            inner,
            input_maps: GroupMap::new(),
            output_maps: GroupMap::new(),
            proc,
        }
    }

    /// Whether a batch leaves a group that breaks what the reduction
    /// demands of it.
    pub fn breaks(&self, batch: &Batch) -> (b: bool)
        requires
            self.wf(),
        ensures
            b == reduce_breaks(self@, batch@),
    {
        match &self.proc {
            Reduction::OneToOne => {},
            _ => {
                return false;
            },
        }
        let mut after = self.input_maps.copy();
        after.add_batch(batch);
        let keys = keys_of(batch);
        let mut i: usize = 0;
        while i < keys.len()
            invariant
                0 <= i <= keys.len(),
                after.wf(),
                after@ == group_add_all(self.input_maps@, batch@),
                keys@ == changed_keys(batch@),
                !any_broken(self.proc, after@, keys@.take(i as int)),
            decreases keys.len() - i,
        {
            let broken = match after.get(&keys[i]) {
                Some(group) => self.proc.violated(group),
                None => false,
            };
            if broken {
                proof {
                    assert(keys@[i as int] == keys@[i as int]);
                }
                return true;
            }
            proof {
                let next = keys@.take(i as int + 1);
                if any_broken(self.proc, after@, next) {
                    let j = choose|j: int|
                        0 <= j < next.len() && group_of(after@, #[trigger] next[j]).len() > 0
                            && self.proc.violated_spec(group_of(after@, next[j]));
                    if j < i {
                        assert(keys@.take(i as int)[j] == next[j]);
                    }
                }
            }
            i += 1;
        }
        proof {
            assert(keys@.take(keys.len() as int) =~= keys@);
        }
        false
    }

    /// A step of the reduce, with a batch that leaves no group that breaks
    /// what the reduction demands.
    pub fn flow(&mut self, batch: &Batch) -> (out: Batch)
        requires
            old(self).wf(),
            !reduce_breaks(old(self)@, batch@),
        ensures
            final(self).wf(),
            (final(self)@, out@) == reduce_flow(old(self)@, batch@),
    {
        let (out, _) = self.try_flow(batch);
        out
    }

    /// A step of the reduce with any batch: what it sends, and whether the
    /// batch left a group that breaks what the reduction demands.
    pub fn try_flow(&mut self, batch: &Batch) -> (r: (Batch, bool))
        requires
            old(self).wf(),
        ensures
            final(self).wf(),
            (final(self)@, r.0@) == reduce_flow(old(self)@, batch@),
            r.1 == reduce_breaks(old(self)@, batch@),
    {
        let keys = keys_of(batch);
        self.input_maps.add_batch(batch);
        let mut out: Vec<(Value, isize)> = Vec::new();
        let mut broke = false;
        let mut i: usize = 0;
        while i < keys.len()
            invariant
                0 <= i <= keys.len(),
                self.wf(),
                self.inner == old(self).inner,
                self.proc == old(self).proc,
                keys@ == changed_keys(batch@),
                self.input_maps@ == group_add_all(old(self).input_maps@, batch@),
                (self.output_maps@, out@) == reduce_keys(
                    self.proc,
                    self.input_maps@,
                    old(self).output_maps@,
                    keys@.take(i as int),
                ),
                broke == any_broken(self.proc, self.input_maps@, keys@.take(i as int)),
            decreases keys.len() - i,
        {
            proof {
                assert(keys@.take(i as int + 1).drop_last() =~= keys@.take(i as int));
            }
            let k = &keys[i];
            let ghost hit = group_of(self.input_maps@, *k).len() > 0 && self.proc.violated_spec(
                group_of(self.input_maps@, *k),
            );
            proof {
                let cur = keys@.take(i as int);
                let next = keys@.take(i as int + 1);
                if any_broken(self.proc, self.input_maps@, next) {
                    let j = choose|j: int|
                        0 <= j < next.len() && group_of(self.input_maps@, #[trigger] next[j]).len()
                            > 0 && self.proc.violated_spec(group_of(self.input_maps@, next[j]));
                    if j < i {
                        assert(cur[j] == next[j]);
                    }
                }
                if any_broken(self.proc, self.input_maps@, cur) {
                    let j = choose|j: int|
                        0 <= j < cur.len() && group_of(self.input_maps@, #[trigger] cur[j]).len()
                            > 0 && self.proc.violated_spec(group_of(self.input_maps@, cur[j]));
                    assert(next[j] == cur[j]);
                }
                if hit {
                    assert(next[i as int] == *k);
                }
                assert(any_broken(self.proc, self.input_maps@, next) == (broke || hit));
            }
            let new_map = match self.input_maps.get(k) {
                None => WeightMap::new(),
                Some(group) => {
                    proof {
                        let p = crate::map::index_of(self.input_maps@, *k);
                        assert(self.input_maps@[p].1.len() > 0);
                    }
                    if self.proc.violated(group) {
                        broke = true;
                    }
                    let found = self.proc.apply(k, group);
                    let mut m = WeightMap::new();
                    proof {
                        lemma_add_all_wf(Seq::empty(), found@);
                    }
                    m.add_batch(&found);
                    m
                },
            };
            let ghost new_items = new_map@;
            let ghost before = self.output_maps@;
            proof {
                lemma_set_group_wf(before, *k, new_items);
            }
            let prev = self.output_maps.replace(k.clone(), new_map);
            let piece = match self.output_maps.get(k) {
                Some(stored) => diff_against(k, stored, prev),
                None => {
                    let empty = WeightMap::new();
                    proof {
                        assert(new_items =~= Seq::empty());
                    }
                    diff_against(k, &empty, prev)
                },
            };
            crate::operator::append_batch(&mut out, piece);
            i += 1;
        }
        proof {
            assert(keys@.take(keys.len() as int) =~= keys@);
        }
        (out, broke)
    }
}

impl<F: Function> Op for Reduce<F> {
    open spec fn hideable_spec() -> bool {
        true
    }

    open spec fn op_name_spec() -> Seq<char> {
        "reduce"@
    }

    fn hideable() -> (b: bool) {
        true
    }

    fn default_op_name() -> (name: &'static str) {
        "reduce"
    }
}

} // verus!
