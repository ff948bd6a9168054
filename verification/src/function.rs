//! The functions that operators apply to records: those of the host program,
//! and the ones that the convenience operators are built from.

use crate::map::{is_max_key, is_min_key, weight_of, Batch, WeightMap};
use crate::monoid::{wneg, wsub};
use crate::value::{lemma_lt_total, Value};
use vstd::prelude::*;

verus! {

/// A function of the host program from values to values. What it returns
/// depends on its argument alone.
pub trait Function {
    spec fn call_spec(&self, x: Value) -> Value;

    fn call(&self, x: &Value) -> (y: Value)
        ensures
            y == self.call_spec(*x),
    ;
}

/// The elements of a list: of pairs nested to the right. Any value that is no
/// pair ends the list.
pub open spec fn elements(v: Value) -> Seq<Value>
    decreases v,
{
    match v {
        Value::Pair(h, t) => seq![*h] + elements(*t),
        _ => Seq::empty(),
    }
}

/// The list of the given elements, ending in `Unit`.
pub open spec fn list_of(s: Seq<Value>) -> Value
    decreases s.len(),
{
    if s.len() == 0 {
        Value::Unit
    } else {
        Value::pair_of(s.first(), list_of(s.drop_first()))
    }
}

/// The weight that a value stands for: that of an integer, else zero.
pub open spec fn weight_value(v: Value) -> isize {
    match v {
        Value::Int(i) => i,
        _ => 0,
    }
}

/// The weighted record that a list element stands for: a pair of a record
/// and an integer is that record with that weight, anything else counts
/// once.
pub open spec fn record_of(e: Value) -> (Value, isize) {
    match e {
        Value::Pair(x, w) => match *w {
            Value::Int(i) => (*x, i),
            _ => (e, 1),
        },
        _ => (e, 1),
    }
}

/// The value that stands for a weighted record.
pub open spec fn record_value(e: (Value, isize)) -> Value {
    Value::pair_of(e.0, Value::Int(e.1))
}

/// The weighted records that a list stands for.
pub open spec fn records(v: Value) -> Seq<(Value, isize)> {
    elements(v).map_values(|e: Value| record_of(e))
}

/// The list that stands for the given weighted records.
pub open spec fn records_value(s: Seq<(Value, isize)>) -> Value {
    list_of(s.map_values(|e: (Value, isize)| record_value(e)))
}

/// The elements of the list of a sequence are that sequence.
pub proof fn lemma_elements_of_list(s: Seq<Value>)
    ensures
        elements(list_of(s)) == s,
    decreases s.len(),
{
    if s.len() > 0 {
        lemma_elements_of_list(s.drop_first());
        assert(seq![s.first()] + s.drop_first() =~= s);
    } else {
        assert(elements(list_of(s)) =~= s);
    }
}

/// Records survive the way through a list.
pub proof fn lemma_records_round_trip(s: Seq<(Value, isize)>)
    ensures
        records(records_value(s)) == s,
{
    let vs = s.map_values(|e: (Value, isize)| record_value(e));
    lemma_elements_of_list(vs);
    assert(records(records_value(s)) =~= s);
}

/// The elements of a list.
pub fn list_elements(v: &Value) -> (out: Vec<Value>)
    ensures
        out@ == elements(*v),
    decreases v,
{
    match v {
        Value::Pair(h, t) => {
            let mut rest = list_elements(t);
            rest.insert(0, (**h).clone());
            proof {
                assert(rest@ =~= seq![**h] + elements(**t));
            }
            rest
        },
        _ => Vec::new(),
    }
}

/// The list of the given elements.
pub fn make_list(items: Vec<Value>) -> (v: Value)
    ensures
        v == list_of(items@),
{
    let mut items = items;
    let ghost all = items@;
    let mut out = Value::Unit;
    proof {
        assert(all.subrange(all.len() as int, all.len() as int) =~= Seq::<Value>::empty());
    }
    while items.len() > 0
        invariant
            items@ == all.subrange(0, items@.len() as int),
            items@.len() <= all.len(),
            out == list_of(all.subrange(items@.len() as int, all.len() as int)),
        decreases items.len(),
    {
        let ghost n = items@.len() as int;
        let last = items.pop().unwrap();
        proof {
            let cur = all.subrange(n - 1, all.len() as int);
            assert(cur.first() == last);
            assert(cur.drop_first() =~= all.subrange(n, all.len() as int));
            assert(items@ =~= all.subrange(0, n - 1));
        }
        out = Value::pair(last, out);
    }
    proof {
        assert(all.subrange(0, all.len() as int) =~= all);
    }
    out
}

/// The weighted record that a list element stands for.
pub fn decode_record(e: Value) -> (r: (Value, isize))
    ensures
        r == record_of(e),
{
    match e {
        Value::Pair(x, w) => match *w {
            Value::Int(i) => (*x, i),
            other => (Value::Pair(x, Box::new(other)), 1),
        },
        other => (other, 1),
    }
}

/// The weighted records that a list stands for.
pub fn decode_records(v: &Value) -> (out: Batch)
    ensures
        out@ == records(*v),
{
    let mut items = list_elements(v);
    let ghost all = items@;
    let mut rev: Vec<(Value, isize)> = Vec::new();
    while items.len() > 0
        invariant
            items@ == all.subrange(0, items@.len() as int),
            items@.len() <= all.len(),
            rev@.len() == all.len() - items@.len(),
            forall|j: int|
                0 <= j < rev@.len() ==> #[trigger] rev@[j] == record_of(all[all.len() - 1 - j]),
        decreases items.len(),
    {
        let ghost n = items@.len() as int;
        let e = items.pop().unwrap();
        proof {
            assert(items@ =~= all.subrange(0, n - 1));
        }
        rev.push(decode_record(e));
    }
    let mut out: Vec<(Value, isize)> = Vec::new();
    while rev.len() > 0
        invariant
            rev@.len() <= all.len(),
            out@.len() == all.len() - rev@.len(),
            forall|j: int|
                0 <= j < rev@.len() ==> #[trigger] rev@[j] == record_of(all[all.len() - 1 - j]),
            forall|j: int| 0 <= j < out@.len() ==> #[trigger] out@[j] == record_of(all[j]),
        decreases rev.len(),
    {
        let e = rev.pop().unwrap();
        out.push(e);
    }
    proof {
        assert(out@ =~= records(*v));
    }
    out
}

/// The list that stands for the given weighted records.
pub fn encode_records(items: &Batch) -> (v: Value)
    ensures
        v == records_value(items@),
{
    let mut vals: Vec<Value> = Vec::new();
    let mut i: usize = 0;
    while i < items.len()
        invariant
            0 <= i <= items.len(),
            vals@.len() == i,
            forall|j: int| 0 <= j < i ==> #[trigger] vals@[j] == record_value(items@[j]),
        decreases items.len() - i,
    {
        vals.push(Value::pair(items[i].0.clone(), Value::Int(items[i].1)));
        i += 1;
    }
    proof {
        assert(vals@ =~= items@.map_values(|e: (Value, isize)| record_value(e)));
    }
    make_list(vals)
}

/// The least key of the entries.
pub open spec fn min_key_of<T>(s: Seq<(Value, T)>) -> Value {
    choose|k: Value| is_min_key(s, k)
}

/// The greatest key of the entries.
pub open spec fn max_key_of<T>(s: Seq<(Value, T)>) -> Value {
    choose|k: Value| is_max_key(s, k)
}

/// Entries have one least and one greatest key.
pub proof fn lemma_extreme_key_unique<T>(s: Seq<(Value, T)>, k: Value)
    ensures
        is_min_key(s, k) ==> min_key_of(s) == k,
        is_max_key(s, k) ==> max_key_of(s) == k,
{
    if is_min_key(s, k) {
        let m = min_key_of(s);
        assert(is_min_key(s, m));
        lemma_lt_total(m, k);
        let i = crate::map::index_of(s, k);
        let j = crate::map::index_of(s, m);
        assert(s[i].0 == k && s[j].0 == m);
    }
    if is_max_key(s, k) {
        let m = max_key_of(s);
        assert(is_max_key(s, m));
        lemma_lt_total(m, k);
        let i = crate::map::index_of(s, k);
        let j = crate::map::index_of(s, m);
        assert(s[i].0 == k && s[j].0 == m);
    }
}

/// What a flat-map node does to one record and its weight.
pub enum MapFn<F> {
    /// The record becomes what the function returns for it.
    Call(F),
    /// The record stays where the function returns `Bool(true)` for it.
    Filter(F),
    /// The record becomes each element of the list that the function returns.
    Flat(F),
    /// The weight becomes what the function returns for it, as an integer.
    Weight(F),
    /// The function gets the record paired with its weight and returns the
    /// list of the weighted records that take its place.
    Records(F),
    /// The record is paired with its key: what the function returns for it.
    KeyBy(F),
    Negate,
    /// The record is paired with `Unit`.
    WithUnit,
    First,
    Second,
    Swap,
    /// `(k, (x, ()))` becomes `(k, x)`.
    SemiKey,
    /// `(k, n)` becomes `(k, n - 1)`.
    Decrement,
}

impl<F: Function> MapFn<F> {
    /// The weighted records that a record with its weight is sent to.
    pub open spec fn apply_spec(self, x: Value, r: isize) -> Seq<(Value, isize)> {
        match self {
            MapFn::Call(f) => seq![(f.call_spec(x), r)],
            MapFn::Filter(f) => if f.call_spec(x) == Value::Bool(true) {
                seq![(x, r)]
            } else {
                Seq::empty()
            },
            MapFn::Flat(f) => elements(f.call_spec(x)).map_values(|e: Value| (e, r)),
            MapFn::Weight(f) => seq![(x, weight_value(f.call_spec(Value::Int(r))))],
            MapFn::Records(f) => records(f.call_spec(Value::pair_of(x, Value::Int(r)))),
            MapFn::KeyBy(f) => seq![(Value::pair_of(f.call_spec(x), x), r)],
            MapFn::Negate => seq![(x, wneg(r))],
            MapFn::WithUnit => seq![(Value::pair_of(x, Value::Unit), r)],
            MapFn::First => seq![(x.first(), r)],
            MapFn::Second => seq![(x.second(), r)],
            MapFn::Swap => seq![(Value::pair_of(x.second(), x.first()), r)],
            MapFn::SemiKey => seq![(Value::pair_of(x.first(), x.second().first()), r)],
            MapFn::Decrement => seq![
                (Value::pair_of(x.first(), Value::Int(wsub(weight_value(x.second()), 1))), r),
            ],
        }
    }

    pub fn apply(&self, x: &Value, r: isize) -> (out: Batch)
        ensures
            out@ == self.apply_spec(*x, r),
    {
        match self {
            MapFn::Call(f) => vec![(f.call(x), r)],
            MapFn::Filter(f) => {
                let keep = f.call(x);
                if keep.equals(&Value::Bool(true)) {
                    vec![(x.clone(), r)]
                } else {
                    Vec::new()
                }
            },
            MapFn::Flat(f) => {
                let list = f.call(x);
                let mut items = list_elements(&list);
                let ghost all = items@;
                let mut rev: Vec<(Value, isize)> = Vec::new();
                while items.len() > 0
                    invariant
                        items@.len() <= all.len(),
                        items@ == all.subrange(0, items@.len() as int),
                        rev@.len() == all.len() - items@.len(),
                        forall|j: int|
                            0 <= j < rev@.len() ==> #[trigger] rev@[j] == (
                                all[all.len() - 1 - j],
                                r,
                            ),
                    decreases items.len(),
                {
                    let ghost n = items@.len() as int;
                    let e = items.pop().unwrap();
                    proof {
                        assert(items@ =~= all.subrange(0, n - 1));
                    }
                    rev.push((e, r));
                }
                let mut out: Vec<(Value, isize)> = Vec::new();
                while rev.len() > 0
                    invariant
                        rev@.len() <= all.len(),
                        out@.len() == all.len() - rev@.len(),
                        forall|j: int|
                            0 <= j < rev@.len() ==> #[trigger] rev@[j] == (
                                all[all.len() - 1 - j],
                                r,
                            ),
                        forall|j: int| 0 <= j < out@.len() ==> #[trigger] out@[j] == (all[j], r),
                    decreases rev.len(),
                {
                    let e = rev.pop().unwrap();
                    out.push(e);
                }
                proof {
                    assert(out@ =~= all.map_values(|e: Value| (e, r)));
                }
                out
            },
            MapFn::Weight(f) => {
                let w = match f.call(&Value::Int(r)) {
                    Value::Int(i) => i,
                    _ => 0,
                };
                vec![(x.clone(), w)]
            },
            MapFn::Records(f) => {
                let list = f.call(&Value::pair(x.clone(), Value::Int(r)));
                decode_records(&list)
            },
            MapFn::KeyBy(f) => vec![(Value::pair(f.call(x), x.clone()), r)],
            MapFn::Negate => vec![(x.clone(), 0isize.wrapping_sub(r))],
            MapFn::WithUnit => vec![(Value::pair(x.clone(), Value::Unit), r)],
            MapFn::First => vec![(x.fst(), r)],
            MapFn::Second => vec![(x.snd(), r)],
            MapFn::Swap => vec![(Value::pair(x.snd(), x.fst()), r)],
            MapFn::SemiKey => vec![(Value::pair(x.fst(), x.snd().fst()), r)],
            MapFn::Decrement => {
                let n = match x.snd() {
                    Value::Int(i) => i,
                    _ => 0,
                };
                vec![(Value::pair(x.fst(), Value::Int(n.wrapping_sub(1))), r)]
            },
        }
    }
}

/// How a reduce node turns the group of a key into the key's output.
pub enum Reduction<F> {
    /// The function gets the key paired with the list of the group's weighted
    /// records and returns the list of the output's weighted records.
    Call(F),
    /// One `Unit` for every key that has a group.
    Distinct,
    /// The weight that the group has under `Unit`, once.
    Count,
    /// The least record of the group, once.
    Min,
    /// The greatest record of the group, once.
    Max,
    /// The one record of a group that has exactly one, of weight one; nothing
    /// for any other group.
    OneToOne,
}

impl<F: Function> Reduction<F> {
    /// The weighted records of the output for a key with a group that is not
    /// empty, before they are added up.
    pub open spec fn apply_spec(self, k: Value, group: Seq<(Value, isize)>) -> Seq<
        (Value, isize),
    > {
        match self {
            Reduction::Call(f) => records(f.call_spec(Value::pair_of(k, records_value(group)))),
            Reduction::Distinct => seq![(Value::Unit, 1isize)],
            Reduction::Count => seq![(Value::Int(weight_of(group, Value::Unit)), 1isize)],
            Reduction::Min => seq![(min_key_of(group), 1isize)],
            Reduction::Max => seq![(max_key_of(group), 1isize)],
            Reduction::OneToOne => if group.len() == 1 && group[0].1 == 1 {
                seq![(group[0].0, 1isize)]
            } else {
                Seq::empty()
            },
        }
    }

    /// Whether the group breaks what the reduction demands of it.
    pub open spec fn violated_spec(self, group: Seq<(Value, isize)>) -> bool {
        self is OneToOne && !(group.len() == 1 && group[0].1 == 1)
    }

    pub fn apply(&self, k: &Value, group: &WeightMap) -> (out: Batch)
        requires
            group.wf(),
            group@.len() > 0,
        ensures
            out@ == self.apply_spec(*k, group@),
    {
        match self {
            Reduction::Call(f) => {
                let items = group.to_vec();
                let arg = Value::pair(k.clone(), encode_records(&items));
                let res = f.call(&arg);
                decode_records(&res)
            },
            Reduction::Distinct => vec![(Value::Unit, 1isize)],
            Reduction::Count => vec![(Value::Int(group.get(&Value::Unit)), 1isize)],
            Reduction::Min => {
                let m = group.min_key().unwrap();
                proof {
                    lemma_extreme_key_unique(group@, m);
                }
                vec![(m, 1isize)]
            },
            Reduction::Max => {
                let m = group.max_key().unwrap();
                proof {
                    lemma_extreme_key_unique(group@, m);
                }
                vec![(m, 1isize)]
            },
            Reduction::OneToOne => {
                if group.len() == 1 && group.weight_at(0) == 1 {
                    vec![(group.key_at(0).clone(), 1isize)]
                } else {
                    Vec::new()
                }
            },
        }
    }

    pub fn violated(&self, group: &WeightMap) -> (b: bool)
        ensures
            b == self.violated_spec(group@),
    {
        match self {
            Reduction::OneToOne => !(group.len() == 1 && group.weight_at(0) == 1),
            _ => false,
        }
    }
}

/// The function of a context that uses no function of the host program.
pub struct NoFunction;

impl Function for NoFunction {
    open spec fn call_spec(&self, x: Value) -> Value {
        x
    }

    fn call(&self, x: &Value) -> (y: Value) {
        x.clone()
    }
}

} // verus!
