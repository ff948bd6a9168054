//! Map containers that add: a weight merges with what is there, and a key
//! whose weight comes to zero leaves the map.

use crate::monoid::{wadd, Emptyable};
use crate::value::Value;
use vstd::prelude::*;

verus! {

/// A batch of weighted records, as it flows from one operator to the next.
pub type Batch = Vec<(Value, isize)>;

/// Whether some entry of the sequence has the key.
pub open spec fn has_key<T>(s: Seq<(Value, T)>, k: Value) -> bool {
    exists|i: int| 0 <= i < s.len() && (#[trigger] s[i]).0 == k
}

/// The place of an entry with the key.
pub open spec fn index_of<T>(s: Seq<(Value, T)>, k: Value) -> int {
    choose|i: int| 0 <= i < s.len() && (#[trigger] s[i]).0 == k
}

/// No key occurs twice.
pub open spec fn distinct_keys<T>(s: Seq<(Value, T)>) -> bool {
    forall|i: int, j: int| 0 <= i < j < s.len() ==> (#[trigger] s[i]).0 != (#[trigger] s[j]).0
}

/// No entry has weight zero.
pub open spec fn nonzero(s: Seq<(Value, isize)>) -> bool {
    forall|i: int| 0 <= i < s.len() ==> (#[trigger] s[i]).1 != 0
}

/// What the entries of a weight map satisfy.
pub open spec fn items_wf(s: Seq<(Value, isize)>) -> bool {
    distinct_keys(s) && nonzero(s)
}

/// The weight of a key: that of its entry, zero where it has none.
pub open spec fn weight_of(s: Seq<(Value, isize)>, k: Value) -> isize {
    if has_key(s, k) {
        s[index_of(s, k)].1
    } else {
        0
    }
}

/// The entries as a mathematical map.
pub open spec fn to_map<T>(s: Seq<(Value, T)>) -> Map<Value, T> {
    Map::new(|k: Value| has_key(s, k), |k: Value| s[index_of(s, k)].1)
}

/// The entries after a weight was added to a key.
pub open spec fn add_items(s: Seq<(Value, isize)>, k: Value, v: isize) -> Seq<(Value, isize)> {
    if has_key(s, k) {
        let i = index_of(s, k);
        let w = wadd(s[i].1, v);
        if w == 0 {
            s.remove(i)
        } else {
            s.update(i, (k, w))
        }
    } else if v == 0 {
        s
    } else {
        s.push((k, v))
    }
}

/// The entries after the key's entry, if any, was taken out.
pub open spec fn remove_items<T>(s: Seq<(Value, T)>, k: Value) -> Seq<(Value, T)> {
    if has_key(s, k) {
        s.remove(index_of(s, k))
    } else {
        s
    }
}

/// The entries after every record of a batch was added, in order.
pub open spec fn add_all(s: Seq<(Value, isize)>, batch: Seq<(Value, isize)>) -> Seq<
    (Value, isize),
>
    decreases batch.len(),
{
    if batch.len() == 0 {
        s
    } else {
        add_items(add_all(s, batch.drop_last()), batch.last().0, batch.last().1)
    }
}

/// A mathematical map after a weight was added to a key.
pub open spec fn map_add(m: Map<Value, isize>, k: Value, v: isize) -> Map<Value, isize> {
    let w = wadd(
        if m.contains_key(k) {
            m[k]
        } else {
            0
        },
        v,
    );
    if w == 0 {
        m.remove(k)
    } else {
        m.insert(k, w)
    }
}

/// With distinct keys an entry's key is found at the entry's own place.
pub proof fn lemma_index_unique<T>(s: Seq<(Value, T)>, i: int)
    requires
        distinct_keys(s),
        0 <= i < s.len(),
    ensures
        has_key(s, s[i].0),
        index_of(s, s[i].0) == i,
{
    let k = s[i].0;
    assert(has_key(s, k));
    let j = index_of(s, k);
    assert(0 <= j < s.len() && s[j].0 == k);
    if j < i {
        assert(s[j].0 != s[i].0);
    }
    if i < j {
        assert(s[i].0 != s[j].0);
    }
}

/// Taking an entry out keeps the keys distinct and removes exactly its key.
pub proof fn lemma_remove_at<T>(s: Seq<(Value, T)>, i: int)
    requires
        distinct_keys(s),
        0 <= i < s.len(),
    ensures
        distinct_keys(s.remove(i)),
        !has_key(s.remove(i), s[i].0),
        forall|k: Value| k != s[i].0 ==> has_key(s.remove(i), k) == has_key(s, k),
        forall|k: Value|
            k != s[i].0 && has_key(s, k) ==> (#[trigger] s.remove(i)[index_of(s.remove(i), k)])
                == s[index_of(s, k)],
{
    let r = s.remove(i);
    assert forall|a: int| 0 <= a < r.len() implies #[trigger] r[a] == s[if a < i {
        a
    } else {
        a + 1
    }] by {}
    assert(distinct_keys(r)) by {
        assert forall|a: int, b: int| 0 <= a < b < r.len() implies (#[trigger] r[a]).0 != (
        #[trigger] r[b]).0 by {
            let a2 = if a < i {
                a
            } else {
                a + 1
            };
            let b2 = if b < i {
                b
            } else {
                b + 1
            };
            assert(s[a2].0 != s[b2].0);
        }
    }
    assert(!has_key(r, s[i].0)) by {
        if has_key(r, s[i].0) {
            let a = index_of(r, s[i].0);
            let a2 = if a < i {
                a
            } else {
                a + 1
            };
            assert(r[a] == s[a2]);
            if a2 < i {
                assert(s[a2].0 != s[i].0);
            } else {
                assert(s[i].0 != s[a2].0);
            }
        }
    }
    assert forall|k: Value| k != s[i].0 implies has_key(r, k) == has_key(s, k) by {
        if has_key(s, k) {
            let j = index_of(s, k);
            let j2 = if j < i {
                j
            } else {
                j - 1
            };
            assert(r[j2] == s[j]);
        }
        if has_key(r, k) {
            let a = index_of(r, k);
            let a2 = if a < i {
                a
            } else {
                a + 1
            };
            assert(s[a2] == r[a]);
        }
    }
    assert forall|k: Value| k != s[i].0 && has_key(s, k) implies (#[trigger] r[index_of(r, k)])
        == s[index_of(s, k)] by {
        let a = index_of(r, k);
        let a2 = if a < i {
            a
        } else {
            a + 1
        };
        assert(s[a2] == r[a]);
        lemma_index_unique(s, a2);
    }
}

/// Replacing an entry's value keeps the keys.
pub proof fn lemma_update_at<T>(s: Seq<(Value, T)>, i: int, t: T)
    requires
        distinct_keys(s),
        0 <= i < s.len(),
    ensures
        distinct_keys(s.update(i, (s[i].0, t))),
        forall|k: Value| has_key(s.update(i, (s[i].0, t)), k) == has_key(s, k),
        forall|k: Value| has_key(s, k) ==> index_of(s.update(i, (s[i].0, t)), k) == index_of(s, k),
{
    let u = s.update(i, (s[i].0, t));
    assert forall|a: int| 0 <= a < u.len() implies (#[trigger] u[a]).0 == s[a].0 by {}
    assert(distinct_keys(u)) by {
        assert forall|a: int, b: int| 0 <= a < b < u.len() implies (#[trigger] u[a]).0 != (
        #[trigger] u[b]).0 by {
            assert(s[a].0 != s[b].0);
        }
    }
    assert forall|k: Value| has_key(u, k) == has_key(s, k) by {
        if has_key(s, k) {
            let j = index_of(s, k);
            assert(u[j].0 == k);
        }
        if has_key(u, k) {
            let j = index_of(u, k);
            assert(s[j].0 == k);
        }
    }
    assert forall|k: Value| has_key(s, k) implies index_of(u, k) == index_of(s, k) by {
        let j = index_of(s, k);
        assert(u[j].0 == k);
        lemma_index_unique(u, j);
    }
}

/// Appending an entry with a new key keeps the keys distinct.
pub proof fn lemma_push_new<T>(s: Seq<(Value, T)>, e: (Value, T))
    requires
        distinct_keys(s),
        !has_key(s, e.0),
    ensures
        distinct_keys(s.push(e)),
        has_key(s.push(e), e.0),
        index_of(s.push(e), e.0) == s.len(),
        forall|k: Value| has_key(s.push(e), k) == (k == e.0 || has_key(s, k)),
        forall|k: Value| has_key(s, k) ==> index_of(s.push(e), k) == index_of(s, k),
{
    let p = s.push(e);
    assert(distinct_keys(p)) by {
        assert forall|a: int, b: int| 0 <= a < b < p.len() implies (#[trigger] p[a]).0 != (
        #[trigger] p[b]).0 by {
            if b == s.len() {
                assert(s[a].0 != e.0);
            } else {
                assert(s[a].0 != s[b].0);
            }
        }
    }
    assert(p[s.len() as int] == e);
    lemma_index_unique(p, s.len() as int);
    assert forall|k: Value| has_key(p, k) == (k == e.0 || has_key(s, k)) by {
        if has_key(s, k) {
            let j = index_of(s, k);
            assert(p[j].0 == k);
        }
        if has_key(p, k) && k != e.0 {
            let j = index_of(p, k);
            assert(s[j].0 == k);
        }
    }
    assert forall|k: Value| has_key(s, k) implies index_of(p, k) == index_of(s, k) by {
        let j = index_of(s, k);
        assert(p[j].0 == k);
        lemma_index_unique(p, j);
    }
}

/// Adding keeps the entries well formed: no container ever holds a zero.
pub proof fn lemma_add_items_wf(s: Seq<(Value, isize)>, k: Value, v: isize)
    requires
        items_wf(s),
    ensures
        items_wf(add_items(s, k, v)),
{
    if has_key(s, k) {
        let i = index_of(s, k);
        let w = wadd(s[i].1, v);
        if w == 0 {
            lemma_remove_at(s, i);
            let r = s.remove(i);
            assert forall|a: int| 0 <= a < r.len() implies (#[trigger] r[a]).1 != 0 by {
                assert(r[a] == s[if a < i {
                    a
                } else {
                    a + 1
                }]);
            }
        } else {
            lemma_update_at(s, i, w);
        }
    } else if v != 0 {
        lemma_push_new(s, (k, v));
    }
}

/// Adding to the entries is adding to the map they stand for.
pub proof fn lemma_add_items_map(s: Seq<(Value, isize)>, k: Value, v: isize)
    requires
        items_wf(s),
    ensures
        to_map(add_items(s, k, v)) == map_add(to_map(s), k, v),
{
    let t = add_items(s, k, v);
    let m = to_map(s);
    if has_key(s, k) {
        let i = index_of(s, k);
        let w = wadd(s[i].1, v);
        if w == 0 {
            lemma_remove_at(s, i);
            assert(to_map(t) =~= m.remove(k));
        } else {
            lemma_update_at(s, i, w);
            assert(to_map(t) =~= m.insert(k, w));
        }
    } else if v == 0 {
        assert(to_map(t) =~= m.remove(k));
    } else {
        lemma_push_new(s, (k, v));
        assert(to_map(t) =~= m.insert(k, v));
    }
}

/// Adding a batch keeps the entries well formed.
pub proof fn lemma_add_all_wf(s: Seq<(Value, isize)>, batch: Seq<(Value, isize)>)
    requires
        items_wf(s),
    ensures
        items_wf(add_all(s, batch)),
    decreases batch.len(),
{
    if batch.len() > 0 {
        lemma_add_all_wf(s, batch.drop_last());
        lemma_add_items_wf(add_all(s, batch.drop_last()), batch.last().0, batch.last().1);
    }
}

/// The place of the least key of a vector of entries that is not empty.
pub fn min_position<T>(v: &Vec<(Value, T)>) -> (best: usize)
    requires
        v@.len() > 0,
    ensures
        best < v@.len(),
        forall|j: int| 0 <= j < v@.len() ==> !crate::value::value_lt((#[trigger] v@[j]).0, v@[best as int].0),
{
    let mut best: usize = 0;
    let mut i: usize = 1;
    proof {
        crate::value::lemma_lt_irreflexive(v@[0].0);
    }
    while i < v.len()
        invariant
            1 <= i <= v.len(),
            best < i,
            forall|j: int|
                0 <= j < i ==> !crate::value::value_lt((#[trigger] v@[j]).0, v@[best as int].0),
        decreases v.len() - i,
    {
        if v[i].0.less(&v[best].0) {
            proof {
                let nb = v@[i as int].0;
                let ob = v@[best as int].0;
                crate::value::lemma_lt_irreflexive(nb);
                assert forall|j: int| 0 <= j < i + 1 implies !crate::value::value_lt(
                    (#[trigger] v@[j]).0,
                    nb,
                ) by {
                    if j < i && crate::value::value_lt(v@[j].0, nb) {
                        crate::value::lemma_lt_transitive(v@[j].0, nb, ob);
                    }
                }
            }
            best = i;
        }
        i += 1;
    }
    best
}

/// The place of the greatest key of a vector of entries that is not empty.
pub fn max_position<T>(v: &Vec<(Value, T)>) -> (best: usize)
    requires
        v@.len() > 0,
    ensures
        best < v@.len(),
        forall|j: int| 0 <= j < v@.len() ==> !crate::value::value_lt(v@[best as int].0, (#[trigger] v@[j]).0),
{
    let mut best: usize = 0;
    let mut i: usize = 1;
    proof {
        crate::value::lemma_lt_irreflexive(v@[0].0);
    }
    while i < v.len()
        invariant
            1 <= i <= v.len(),
            best < i,
            forall|j: int|
                0 <= j < i ==> !crate::value::value_lt(v@[best as int].0, (#[trigger] v@[j]).0),
        decreases v.len() - i,
    {
        if v[best].0.less(&v[i].0) {
            proof {
                let nb = v@[i as int].0;
                let ob = v@[best as int].0;
                crate::value::lemma_lt_irreflexive(nb);
                assert forall|j: int| 0 <= j < i + 1 implies !crate::value::value_lt(
                    nb,
                    (#[trigger] v@[j]).0,
                ) by {
                    if j < i && crate::value::value_lt(nb, v@[j].0) {
                        crate::value::lemma_lt_transitive(ob, nb, v@[j].0);
                    }
                }
            }
            best = i;
        }
        i += 1;
    }
    best
}

/// A map from records to weights that never holds a zero weight. Its entries
/// stay in the order in which their keys came.
#[derive(Debug)]
pub struct WeightMap {
    entries: Vec<(Value, isize)>,
}

impl View for WeightMap {
    type V = Seq<(Value, isize)>;

    closed spec fn view(&self) -> Seq<(Value, isize)> {
        self.entries@
    }
}

impl WeightMap {
    /// Distinct keys and no zero weight.
    pub open spec fn wf(&self) -> bool {
        items_wf(self@)
    }

    /// The map as a mathematical map.
    pub open spec fn map(&self) -> Map<Value, isize> {
        to_map(self@)
    }

    pub fn new() -> (m: Self)
        ensures
            m@ == Seq::<(Value, isize)>::empty(),
            m.wf(),
    {
        WeightMap { entries: Vec::new() }
    }

    pub fn len(&self) -> (n: usize)
        ensures
            n == self@.len(),
    {
        self.entries.len()
    }

    /// The key of the entry at a place.
    pub fn key_at(&self, i: usize) -> (k: &Value)
        requires
            i < self@.len(),
        ensures
            *k == self@[i as int].0,
    {
        &self.entries[i].0
    }

    /// The weight of the entry at a place.
    pub fn weight_at(&self, i: usize) -> (w: isize)
        requires
            i < self@.len(),
        ensures
            w == self@[i as int].1,
    {
        self.entries[i].1
    }

    /// The place of the key's entry.
    pub fn position(&self, k: &Value) -> (r: Option<usize>)
        ensures
            match r {
                Some(i) => i < self@.len() && self@[i as int].0 == *k && has_key(self@, *k),
                None => !has_key(self@, *k),
            },
            self.wf() && r.is_some() ==> r.unwrap() == index_of(self@, *k),
    {
        let mut i: usize = 0;
        while i < self.entries.len()
            invariant
                0 <= i <= self.entries.len(),
                forall|j: int| 0 <= j < i ==> (#[trigger] self.entries@[j]).0 != *k,
            decreases self.entries.len() - i,
        {
            if self.entries[i].0.equals(k) {
                proof {
                    if self.wf() {
                        lemma_index_unique(self@, i as int);
                    }
                }
                return Some(i);
            }
            i += 1;
        }
        None
    }

    pub fn contains_key(&self, k: &Value) -> (b: bool)
        ensures
            b == has_key(self@, *k),
    {
        self.position(k).is_some()
    }

    /// The weight of a key, zero where the map has none for it.
    pub fn get(&self, k: &Value) -> (w: isize)
        requires
            self.wf(),
        ensures
            w == weight_of(self@, *k),
    {
        match self.position(k) {
            Some(i) => self.entries[i].1,
            None => 0,
        }
    }

    /// Adds a weight to a key: merges it with the weight that is there, and
    /// drops the key if the sum is zero.
    pub fn add(&mut self, k: Value, v: isize)
        requires
            old(self).wf(),
        ensures
            final(self).wf(),
            final(self)@ == add_items(old(self)@, k, v),
            final(self).map() == map_add(old(self).map(), k, v),
    {
        proof {
            lemma_add_items_wf(self@, k, v);
            lemma_add_items_map(self@, k, v);
        }
        match self.position(&k) {
            Some(i) => {
                let w = self.entries[i].1.wrapping_add(v);
                if w == 0 {
                    self.entries.remove(i);
                } else {
                    self.entries.set(i, (k, w));
                }
            },
            None => {
                if v != 0 {
                    self.entries.push((k, v));
                }
            },
        }
    }

    /// Takes the key's entry out and returns its weight.
    pub fn remove(&mut self, k: &Value) -> (r: Option<isize>)
        requires
            old(self).wf(),
        ensures
            final(self).wf(),
            final(self)@ == remove_items(old(self)@, *k),
            r == if has_key(old(self)@, *k) {
                Some(weight_of(old(self)@, *k))
            } else {
                None
            },
    {
        match self.position(k) {
            Some(i) => {
                proof {
                    lemma_remove_at(self@, i as int);
                    let r = self@.remove(i as int);
                    assert forall|a: int| 0 <= a < r.len() implies (#[trigger] r[a]).1 != 0 by {
                        assert(r[a] == self@[if a < i {
                            a
                        } else {
                            a + 1
                        }]);
                    }
                }
                let e = self.entries.remove(i);
                Some(e.1)
            },
            None => None,
        }
    }

    /// The least key, none where the map is empty.
    pub fn min_key(&self) -> (r: Option<Value>)
        ensures
            r.is_none() == (self@.len() == 0),
            r.is_some() ==> is_min_key(self@, r.unwrap()),
    {
        if self.entries.len() == 0 {
            return None;
        }
        let best = min_position(&self.entries);
        Some(self.entries[best].0.clone())
    }

    /// The greatest key, none where the map is empty.
    pub fn max_key(&self) -> (r: Option<Value>)
        ensures
            r.is_none() == (self@.len() == 0),
            r.is_some() ==> is_max_key(self@, r.unwrap()),
    {
        if self.entries.len() == 0 {
            return None;
        }
        let best = max_position(&self.entries);
        Some(self.entries[best].0.clone())
    }

    /// Moves all entries out, in their order, and leaves the map empty.
    pub fn steal(&mut self) -> (out: Batch)
        ensures
            out@ == old(self)@,
            final(self)@ == Seq::<(Value, isize)>::empty(),
            final(self).wf(),
    {
        let mut out: Vec<(Value, isize)> = Vec::new();
        std::mem::swap(&mut self.entries, &mut out);
        out
    }

    /// A copy of the entries, in their order.
    pub fn to_vec(&self) -> (out: Batch)
        ensures
            out@ == self@,
    {
        let mut out: Vec<(Value, isize)> = Vec::new();
        let mut i: usize = 0;
        while i < self.entries.len()
            invariant
                0 <= i <= self.entries.len(),
                out@ == self.entries@.take(i as int),
            decreases self.entries.len() - i,
        {
            let k = self.entries[i].0.clone();
            out.push((k, self.entries[i].1));
            proof {
                assert(self.entries@.take(i as int + 1) == self.entries@.take(i as int).push(
                    self.entries@[i as int],
                ));
            }
            i += 1;
        }
        proof {
            assert(self.entries@.take(self.entries.len() as int) == self.entries@);
        }
        out
    }

    /// The map that a batch adds up to.
    pub fn from_vec(batch: Batch) -> (m: Self)
        ensures
            m.wf(),
            m@ == add_all(Seq::empty(), batch@),
    {
        let mut m = WeightMap::new();
        m.add_batch(&batch);
        m
    }

    /// Whether every entry of this map is an entry of the other.
    pub fn within(&self, other: &WeightMap) -> (b: bool)
        requires
            self.wf(),
            other.wf(),
        ensures
            b == (forall|k: Value| has_key(self@, k) ==> weight_of(other@, k) == weight_of(self@, k)),
    {
        let mut i: usize = 0;
        while i < self.entries.len()
            invariant
                0 <= i <= self.entries.len(),
                self.wf(),
                other.wf(),
                forall|j: int|
                    0 <= j < i ==> weight_of(other@, (#[trigger] self@[j]).0) == self@[j].1,
            decreases self.entries.len() - i,
        {
            if other.get(&self.entries[i].0) != self.entries[i].1 {
                proof {
                    lemma_index_unique(self@, i as int);
                }
                return false;
            }
            i += 1;
        }
        proof {
            assert forall|k: Value| has_key(self@, k) implies weight_of(other@, k) == weight_of(
                self@,
                k,
            ) by {
                let j = index_of(self@, k);
                assert(self@[j].0 == k);
            }
        }
        true
    }

    /// Whether both maps hold the same weights, in whatever order.
    pub fn same_as(&self, other: &WeightMap) -> (b: bool)
        requires
            self.wf(),
            other.wf(),
        ensures
            b == (self.map() == other.map()),
    {
        let b = self.within(other) && other.within(self);
        proof {
            if b {
                assert forall|k: Value| has_key(self@, k) == has_key(other@, k) by {
                    if has_key(self@, k) {
                        assert(self@[index_of(self@, k)].1 != 0);
                    }
                    if has_key(other@, k) {
                        assert(other@[index_of(other@, k)].1 != 0);
                    }
                }
                assert(self.map() =~= other.map());
            } else {
                if self.map() == other.map() {
                    assert forall|k: Value| has_key(self@, k) implies weight_of(other@, k)
                        == weight_of(self@, k) by {
                        assert(self.map().contains_key(k));
                        assert(other.map().contains_key(k));
                        assert(self.map()[k] == other.map()[k]);
                    }
                    assert forall|k: Value| has_key(other@, k) implies weight_of(self@, k)
                        == weight_of(other@, k) by {
                        assert(other.map().contains_key(k));
                        assert(self.map().contains_key(k));
                        assert(self.map()[k] == other.map()[k]);
                    }
                }
            }
        }
        b
    }

    /// Adds every record of a batch, in order.
    pub fn add_batch(&mut self, batch: &Batch)
        requires
            old(self).wf(),
        ensures
            final(self).wf(),
            final(self)@ == add_all(old(self)@, batch@),
    {
        let mut i: usize = 0;
        while i < batch.len()
            invariant
                0 <= i <= batch.len(),
                self.wf(),
                self@ == add_all(old(self)@, batch@.take(i as int)),
            decreases batch.len() - i,
        {
            let k = batch[i].0.clone();
            proof {
                assert(batch@.take(i as int + 1).drop_last() == batch@.take(i as int));
            }
            self.add(k, batch[i].1);
            i += 1;
        }
        proof {
            assert(batch@.take(batch.len() as int) == batch@);
        }
    }
}

impl Clone for WeightMap {
    fn clone(&self) -> (r: Self)
        ensures
            r@ == self@,
    {
        WeightMap { entries: self.to_vec() }
    }
}

impl Emptyable for WeightMap {
    open spec fn empty_spec(&self) -> bool {
        self@.len() == 0
    }

    fn is_empty(&self) -> (b: bool) {
        self.entries.len() == 0
    }
}

/// The entries of a map of groups: under each key the entries of a weight map.
pub type Groups = Seq<(Value, Seq<(Value, isize)>)>;

/// What the entries of a map of groups satisfy: distinct keys, and under each
/// a well-formed group that is not empty.
pub open spec fn groups_wf(g: Groups) -> bool {
    &&& distinct_keys(g)
    &&& forall|i: int| 0 <= i < g.len() ==> items_wf((#[trigger] g[i]).1) && g[i].1.len() > 0
}

/// The group under a key, empty where there is none.
pub open spec fn group_of(g: Groups, k: Value) -> Seq<(Value, isize)> {
    if has_key(g, k) {
        g[index_of(g, k)].1
    } else {
        Seq::empty()
    }
}

/// The groups after the key's group was replaced; an empty group leaves.
pub open spec fn set_group(g: Groups, k: Value, items: Seq<(Value, isize)>) -> Groups {
    if has_key(g, k) {
        if items.len() == 0 {
            g.remove(index_of(g, k))
        } else {
            g.update(index_of(g, k), (k, items))
        }
    } else if items.len() == 0 {
        g
    } else {
        g.push((k, items))
    }
}

/// The groups after a weight was added under an outer and an inner key.
pub open spec fn group_add(g: Groups, k1: Value, k2: Value, v: isize) -> Groups {
    if v == 0 {
        g
    } else {
        set_group(g, k1, add_items(group_of(g, k1), k2, v))
    }
}

/// The groups after every record of a batch was added, in order, each under
/// its first component as the outer and its second as the inner key.
pub open spec fn group_add_all(g: Groups, batch: Seq<(Value, isize)>) -> Groups
    decreases batch.len(),
{
    if batch.len() == 0 {
        g
    } else {
        let x = batch.last().0;
        group_add(group_add_all(g, batch.drop_last()), x.first(), x.second(), batch.last().1)
    }
}

/// Whether the key is the least of the groups' keys.
pub open spec fn is_min_key<T>(g: Seq<(Value, T)>, k: Value) -> bool {
    has_key(g, k) && forall|i: int| 0 <= i < g.len() ==> !crate::value::value_lt(
        (#[trigger] g[i]).0,
        k,
    )
}

/// Whether the key is the greatest of the groups' keys.
pub open spec fn is_max_key<T>(g: Seq<(Value, T)>, k: Value) -> bool {
    has_key(g, k) && forall|i: int| 0 <= i < g.len() ==> !crate::value::value_lt(
        k,
        (#[trigger] g[i]).0,
    )
}

/// Replacing a group keeps the groups well formed.
pub proof fn lemma_set_group_wf(g: Groups, k: Value, items: Seq<(Value, isize)>)
    requires
        groups_wf(g),
        items_wf(items),
    ensures
        groups_wf(set_group(g, k, items)),
        group_of(set_group(g, k, items), k) == items,
        forall|k2: Value| k2 != k ==> group_of(set_group(g, k, items), k2) == group_of(g, k2),
{
    let t = set_group(g, k, items);
    if has_key(g, k) {
        let i = index_of(g, k);
        if items.len() == 0 {
            lemma_remove_at(g, i);
            assert forall|a: int| 0 <= a < t.len() implies items_wf((#[trigger] t[a]).1)
                && t[a].1.len() > 0 by {
                assert(t[a] == g[if a < i {
                    a
                } else {
                    a + 1
                }]);
            }
            assert(group_of(t, k) =~= items);
        } else {
            lemma_update_at(g, i, items);
            assert forall|a: int| 0 <= a < t.len() implies items_wf((#[trigger] t[a]).1)
                && t[a].1.len() > 0 by {
                if a != i {
                    assert(t[a] == g[a]);
                }
            }
            assert forall|k2: Value| k2 != k implies group_of(t, k2) == group_of(g, k2) by {
                if has_key(g, k2) {
                    assert(index_of(t, k2) == index_of(g, k2));
                    assert(index_of(g, k2) != i);
                }
            }
        }
    } else if items.len() == 0 {
        assert(group_of(t, k) =~= items);
    } else {
        lemma_push_new(g, (k, items));
        assert forall|a: int| 0 <= a < t.len() implies items_wf((#[trigger] t[a]).1)
            && t[a].1.len() > 0 by {
            if a < g.len() {
                assert(t[a] == g[a]);
            }
        }
        assert forall|k2: Value| k2 != k implies group_of(t, k2) == group_of(g, k2) by {
            if has_key(g, k2) {
                assert(index_of(t, k2) == index_of(g, k2));
            }
        }
    }
}

/// Adding keeps the groups well formed.
pub proof fn lemma_group_add_wf(g: Groups, k1: Value, k2: Value, v: isize)
    requires
        groups_wf(g),
    ensures
        groups_wf(group_add(g, k1, k2, v)),
{
    if v != 0 {
        if has_key(g, k1) {
            assert(items_wf(g[index_of(g, k1)].1));
        }
        lemma_add_items_wf(group_of(g, k1), k2, v);
        lemma_set_group_wf(g, k1, add_items(group_of(g, k1), k2, v));
    }
}

/// Adding a batch keeps the groups well formed.
pub proof fn lemma_group_add_all_wf(g: Groups, batch: Seq<(Value, isize)>)
    requires
        groups_wf(g),
    ensures
        groups_wf(group_add_all(g, batch)),
    decreases batch.len(),
{
    if batch.len() > 0 {
        lemma_group_add_all_wf(g, batch.drop_last());
        let x = batch.last().0;
        lemma_group_add_wf(
            group_add_all(g, batch.drop_last()),
            x.first(),
            x.second(),
            batch.last().1,
        );
    }
}

/// A map from keys to weight maps that never holds an empty one.
#[derive(Debug)]
pub struct GroupMap {
    groups: Vec<(Value, WeightMap)>,
}

impl View for GroupMap {
    type V = Groups;

    closed spec fn view(&self) -> Groups {
        Seq::new(self.groups@.len(), |i: int| (self.groups@[i].0, self.groups@[i].1@))
    }
}

impl GroupMap {
    pub open spec fn wf(&self) -> bool {
        groups_wf(self@)
    }

    pub fn new() -> (m: Self)
        ensures
            m@ == Groups::empty(),
            m.wf(),
    {
        let m = GroupMap { groups: Vec::new() };
        proof {
            assert(m@ =~= Groups::empty());
        }
        m
    }

    pub fn len(&self) -> (n: usize)
        ensures
            n == self@.len(),
    {
        self.groups.len()
    }

    pub fn key_at(&self, i: usize) -> (k: &Value)
        requires
            i < self@.len(),
        ensures
            *k == self@[i as int].0,
    {
        &self.groups[i].0
    }

    pub fn group_at(&self, i: usize) -> (m: &WeightMap)
        requires
            i < self@.len(),
        ensures
            m@ == self@[i as int].1,
            self.wf() ==> m.wf(),
    {
        &self.groups[i].1
    }

    /// The place of the key's group.
    pub fn position(&self, k: &Value) -> (r: Option<usize>)
        ensures
            match r {
                Some(i) => i < self@.len() && self@[i as int].0 == *k && has_key(self@, *k),
                None => !has_key(self@, *k),
            },
            self.wf() && r.is_some() ==> r.unwrap() == index_of(self@, *k),
    {
        let mut i: usize = 0;
        while i < self.groups.len()
            invariant
                0 <= i <= self.groups.len(),
                forall|j: int| 0 <= j < i ==> (#[trigger] self@[j]).0 != *k,
            decreases self.groups.len() - i,
        {
            if self.groups[i].0.equals(k) {
                proof {
                    assert(self@[i as int].0 == *k);
                    if self.wf() {
                        lemma_index_unique(self@, i as int);
                    }
                }
                return Some(i);
            }
            i += 1;
        }
        None
    }

    pub fn contains_key(&self, k: &Value) -> (b: bool)
        ensures
            b == has_key(self@, *k),
    {
        self.position(k).is_some()
    }

    /// The group under a key.
    pub fn get(&self, k: &Value) -> (r: Option<&WeightMap>)
        requires
            self.wf(),
        ensures
            r.is_some() == has_key(self@, *k),
            r.is_some() ==> r.unwrap()@ == group_of(self@, *k) && r.unwrap().wf(),
    {
        match self.position(k) {
            Some(i) => Some(&self.groups[i].1),
            None => None,
        }
    }

    /// A copy of the map.
    pub fn copy(&self) -> (m: Self)
        requires
            self.wf(),
        ensures
            m@ == self@,
            m.wf(),
    {
        let mut groups: Vec<(Value, WeightMap)> = Vec::new();
        let mut i: usize = 0;
        while i < self.groups.len()
            invariant
                0 <= i <= self.groups.len(),
                groups@.len() == i,
                forall|j: int|
                    0 <= j < i ==> (#[trigger] groups@[j]).0 == self.groups@[j].0 && groups@[j].1@
                        == self.groups@[j].1@,
            decreases self.groups.len() - i,
        {
            groups.push((self.groups[i].0.clone(), self.groups[i].1.clone()));
            i += 1;
        }
        let m = GroupMap { groups };
        proof {
            assert(m@ =~= self@);
        }
        m
    }

    /// A copy of the entries of the group under a key, none where there is no
    /// such group.
    pub fn group(&self, k: &Value) -> (out: Batch)
        requires
            self.wf(),
        ensures
            out@ == group_of(self@, *k),
    {
        match self.position(k) {
            Some(i) => self.groups[i].1.to_vec(),
            None => Vec::new(),
        }
    }

    /// Puts a group under a key and returns the one that was there; an empty
    /// group only takes the old one away.
    pub fn replace(&mut self, k: Value, m: WeightMap) -> (prev: WeightMap)
        requires
            old(self).wf(),
            m.wf(),
        ensures
            final(self).wf(),
            final(self)@ == set_group(old(self)@, k, m@),
            prev@ == group_of(old(self)@, k),
            prev.wf(),
    {
        proof {
            lemma_set_group_wf(self@, k, m@);
        }
        let ghost before = self@;
        match self.position(&k) {
            Some(i) => {
                if m.len() == 0 {
                    let e = self.groups.remove(i);
                    proof {
                        assert(self@ =~= before.remove(i as int));
                    }
                    e.1
                } else {
                    let mut held = m;
                    std::mem::swap(&mut self.groups[i].1, &mut held);
                    proof {
                        assert(self@ =~= before.update(i as int, (k, m@)));
                    }
                    held
                }
            },
            None => {
                if m.len() != 0 {
                    self.groups.push((k, m));
                    proof {
                        assert(self@ =~= before.push((k, m@)));
                    }
                }
                WeightMap::new()
            },
        }
    }

    /// Takes the key's group out.
    pub fn remove(&mut self, k: &Value) -> (r: Option<WeightMap>)
        requires
            old(self).wf(),
        ensures
            final(self).wf(),
            final(self)@ == remove_items(old(self)@, *k),
            r.is_some() == has_key(old(self)@, *k),
            r.is_some() ==> r.unwrap()@ == group_of(old(self)@, *k) && r.unwrap().wf(),
    {
        let ghost before = self@;
        match self.position(k) {
            Some(i) => {
                proof {
                    lemma_set_group_wf(before, *k, Seq::empty());
                }
                let e = self.groups.remove(i);
                proof {
                    assert(self@ =~= before.remove(i as int));
                }
                Some(e.1)
            },
            None => None,
        }
    }

    /// Takes the entry under an outer and an inner key out and returns its
    /// weight; a group that becomes empty leaves the map.
    pub fn remove_entry(&mut self, k1: &Value, k2: &Value) -> (r: Option<isize>)
        requires
            old(self).wf(),
        ensures
            final(self).wf(),
            final(self)@ == set_group(
                old(self)@,
                *k1,
                remove_items(group_of(old(self)@, *k1), *k2),
            ),
            r == if has_key(group_of(old(self)@, *k1), *k2) {
                Some(weight_of(group_of(old(self)@, *k1), *k2))
            } else {
                None
            },
    {
        let ghost before = self@;
        match self.position(k1) {
            Some(i) => {
                let mut held = WeightMap::new();
                std::mem::swap(&mut self.groups[i].1, &mut held);
                let r = held.remove(k2);
                proof {
                    lemma_set_group_wf(before, *k1, held@);
                }
                if held.len() == 0 {
                    self.groups.remove(i);
                    proof {
                        assert(self@ =~= before.remove(i as int));
                    }
                } else {
                    let ghost items = held@;
                    std::mem::swap(&mut self.groups[i].1, &mut held);
                    proof {
                        assert(self@ =~= before.update(i as int, (*k1, items)));
                    }
                }
                r
            },
            None => {
                proof {
                    assert(!has_key(Seq::<(Value, isize)>::empty(), *k2));
                    assert(remove_items(Seq::<(Value, isize)>::empty(), *k2) =~= Seq::<
                        (Value, isize),
                    >::empty());
                }
                None
            },
        }
    }

    /// Adds a weight under an outer and an inner key; a group that becomes
    /// empty leaves the map.
    pub fn add(&mut self, k1: Value, k2: Value, v: isize)
        requires
            old(self).wf(),
        ensures
            final(self).wf(),
            final(self)@ == group_add(old(self)@, k1, k2, v),
    {
        if v == 0 {
            return ;
        }
        proof {
            lemma_group_add_wf(self@, k1, k2, v);
        }
        let ghost before = self@;
        match self.position(&k1) {
            Some(i) => {
                let mut held = WeightMap::new();
                std::mem::swap(&mut self.groups[i].1, &mut held);
                held.add(k2, v);
                if held.len() == 0 {
                    self.groups.remove(i);
                    proof {
                        assert(self@ =~= before.remove(i as int));
                    }
                } else {
                    let ghost items = held@;
                    std::mem::swap(&mut self.groups[i].1, &mut held);
                    proof {
                        assert(self@ =~= before.update(i as int, (k1, items)));
                    }
                }
            },
            None => {
                let mut m = WeightMap::new();
                m.add(k2, v);
                let ghost items = m@;
                self.groups.push((k1, m));
                proof {
                    assert(items.len() > 0);
                    assert(self@ =~= before.push((k1, items)));
                }
            },
        }
    }

    /// Adds every record of a batch, in order, each under its first component
    /// as the outer and its second as the inner key.
    pub fn add_batch(&mut self, batch: &Batch)
        requires
            old(self).wf(),
        ensures
            final(self).wf(),
            final(self)@ == group_add_all(old(self)@, batch@),
    {
        let mut i: usize = 0;
        while i < batch.len()
            invariant
                0 <= i <= batch.len(),
                self.wf(),
                self@ == group_add_all(old(self)@, batch@.take(i as int)),
            decreases batch.len() - i,
        {
            proof {
                assert(batch@.take(i as int + 1).drop_last() == batch@.take(i as int));
            }
            let k1 = batch[i].0.fst();
            let k2 = batch[i].0.snd();
            self.add(k1, k2, batch[i].1);
            i += 1;
        }
        proof {
            assert(batch@.take(batch.len() as int) == batch@);
        }
    }

    /// The least key, none where the map is empty.
    pub fn min_key(&self) -> (r: Option<Value>)
        ensures
            r.is_none() == (self@.len() == 0),
            r.is_some() ==> is_min_key(self@, r.unwrap()),
    {
        if self.groups.len() == 0 {
            return None;
        }
        let best = min_position(&self.groups);
        proof {
            assert(self@[best as int].0 == self.groups@[best as int].0);
            assert forall|j: int| 0 <= j < self@.len() implies !crate::value::value_lt(
                (#[trigger] self@[j]).0,
                self@[best as int].0,
            ) by {
                assert(self@[j].0 == self.groups@[j].0);
            }
        }
        Some(self.groups[best].0.clone())
    }
}

impl Emptyable for GroupMap {
    open spec fn empty_spec(&self) -> bool {
        self@.len() == 0
    }

    fn is_empty(&self) -> (b: bool) {
        self.groups.len() == 0
    }
}

/// The records of a group, each paired with the group's key.
pub open spec fn lifted(key: Value, bucket: Seq<(Value, isize)>) -> Seq<(Value, isize)> {
    Seq::new(bucket.len(), |j: int| (Value::pair_of(key, bucket[j].0), bucket[j].1))
}

/// All records of all groups, each paired with its group's key.
pub open spec fn flattened(g: Groups) -> Seq<(Value, isize)>
    decreases g.len(),
{
    if g.len() == 0 {
        Seq::empty()
    } else {
        flattened(g.drop_last()) + lifted(g.last().0, g.last().1)
    }
}

impl WeightMap {
    /// A copy of the entries, each paired with a key.
    pub fn lift(&self, key: &Value) -> (out: Batch)
        ensures
            out@ == lifted(*key, self@),
    {
        let mut out: Vec<(Value, isize)> = Vec::new();
        let ghost all = lifted(*key, self@);
        let mut j: usize = 0;
        while j < self.entries.len()
            invariant
                0 <= j <= self.entries.len(),
                all == lifted(*key, self@),
                out@ == all.take(j as int),
            decreases self.entries.len() - j,
        {
            out.push((Value::pair(key.clone(), self.entries[j].0.clone()), self.entries[j].1));
            proof {
                assert(all.take(j as int + 1) =~= all.take(j as int).push(all[j as int]));
            }
            j += 1;
        }
        proof {
            assert(all.take(self.entries.len() as int) =~= all);
        }
        out
    }
}

impl GroupMap {
    /// A copy of all records of all groups, each paired with its group's
    /// key.
    pub fn flatten(&self) -> (out: Batch)
        ensures
            out@ == flattened(self@),
    {
        let mut out: Vec<(Value, isize)> = Vec::new();
        let mut i: usize = 0;
        while i < self.groups.len()
            invariant
                0 <= i <= self.groups.len(),
                out@ == flattened(self@.take(i as int)),
            decreases self.groups.len() - i,
        {
            proof {
                assert(self@.take(i as int + 1).drop_last() =~= self@.take(i as int));
                assert(self@.take(i as int + 1).last() == self@[i as int]);
            }
            let mut piece = self.groups[i].1.lift(&self.groups[i].0);
            out.append(&mut piece);
            i += 1;
        }
        proof {
            assert(self@.take(self.groups.len() as int) =~= self@);
        }
        out
    }
}

} // verus!
