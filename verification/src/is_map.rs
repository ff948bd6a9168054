//! The kinds of maps that add, and the small maps that reductions return.

use crate::map::{
    add_all, add_items, group_of, items_wf, map_add, to_map, weight_of, Batch, GroupMap, Groups,
    WeightMap,
};
use crate::monoid::{wadd, Emptyable};
use crate::value::Value;
use vstd::prelude::*;

verus! {

/// What stands for a mathematical map from records to weights.
pub trait Weighted {
    /// The map as a mathematical map. It holds no zero.
    spec fn contents(&self) -> Map<Value, isize>;

    spec fn valid(&self) -> bool;
}

/// A map to which weights can be added: a weight merges with what is there,
/// and a key whose weight comes to zero leaves the map.
pub trait IsAddMap: Emptyable + Weighted {
    /// Whether the map takes weights under the key.
    spec fn accepts(&self, k: Value) -> bool;

    fn add(&mut self, k: Value, v: isize)
        requires
            old(self).valid(),
            old(self).accepts(k),
        ensures
            final(self).valid(),
            final(self).contents() == map_add(old(self).contents(), k, v),
    ;
}

/// A map from which keys can be taken out.
pub trait IsRemoveMap: Emptyable + Weighted {
    fn remove(&mut self, k: &Value) -> (r: Option<isize>)
        requires
            old(self).valid(),
        ensures
            final(self).valid(),
            final(self).contents() == old(self).contents().remove(*k),
            r == if old(self).contents().contains_key(*k) {
                Some(old(self).contents()[*k])
            } else {
                None
            },
    ;
}

/// A map that can be taken apart: what is left of it after keys were taken
/// out can be had as a batch.
pub trait IsDiscardMap: IsRemoveMap {
    fn into_iter(self) -> (out: Batch)
        requires
            self.valid(),
        ensures
            to_map(out@) == self.contents(),
            items_wf(out@),
    ;
}

/// A map that can be read entry by entry, and turned into one that can be
/// taken apart.
pub trait IsMap: Sized + Weighted {
    type Discardable: IsDiscardMap;

    /// A copy of the entries.
    fn foreach(&self) -> (out: Batch)
        requires
            self.valid(),
        ensures
            to_map(out@) == self.contents(),
            items_wf(out@),
    ;

    fn into_discardable(self) -> (d: Self::Discardable)
        requires
            self.valid(),
        ensures
            d.valid(),
            d.contents() == self.contents(),
    ;
}

impl Weighted for WeightMap {
    open spec fn contents(&self) -> Map<Value, isize> {
        self.map()
    }

    open spec fn valid(&self) -> bool {
        self.wf()
    }
}

impl IsAddMap for WeightMap {
    open spec fn accepts(&self, k: Value) -> bool {
        true
    }

    fn add(&mut self, k: Value, v: isize) {
        WeightMap::add(self, k, v)
    }
}

impl IsRemoveMap for WeightMap {
    fn remove(&mut self, k: &Value) -> (r: Option<isize>) {
        proof {
            if crate::map::has_key(self@, *k) {
                crate::map::lemma_remove_at(self@, crate::map::index_of(self@, *k));
            }
            assert(to_map(crate::map::remove_items(self@, *k)) =~= self.map().remove(*k));
        }
        WeightMap::remove(self, k)
    }
}

impl IsDiscardMap for WeightMap {
    fn into_iter(self) -> (out: Batch) {
        let mut m = self;
        m.steal()
    }
}

impl IsMap for WeightMap {
    type Discardable = WeightMap;

    fn foreach(&self) -> (out: Batch) {
        self.to_vec()
    }

    fn into_discardable(self) -> (d: WeightMap) {
        self
    }
}

/// A map of at most one entry.
#[derive(Debug)]
pub struct OptionMap(pub Option<(Value, isize)>);

/// The entries of a map of at most one entry.
pub open spec fn option_items(o: Option<(Value, isize)>) -> Seq<(Value, isize)> {
    match o {
        Some(e) => seq![e],
        None => Seq::empty(),
    }
}

impl OptionMap {
    /// No entry has weight zero.
    pub open spec fn wf(&self) -> bool {
        match self.0 {
            Some(e) => e.1 != 0,
            None => true,
        }
    }

    /// The map of one entry, or of none where the weight is zero.
    pub fn new(k: Value, v: isize) -> (m: Self)
        ensures
            m.wf(),
            m.0 == if v == 0 {
                None
            } else {
                Some((k, v))
            },
    {
        OptionMap(
            if v == 0 {
                None
            } else {
                Some((k, v))
            },
        )
    }

    pub fn as_ref(&self) -> (r: Option<&(Value, isize)>)
        ensures
            match r {
                Some(e) => self.0 == Some(*e),
                None => self.0.is_none(),
            },
    {
        self.0.as_ref()
    }
}

impl Default for OptionMap {
    fn default() -> (m: Self)
        ensures
            m.0.is_none(),
    {
        OptionMap(None)
    }
}

impl Emptyable for OptionMap {
    open spec fn empty_spec(&self) -> bool {
        self.0.is_none()
    }

    fn is_empty(&self) -> (b: bool) {
        self.0.is_none()
    }
}

/// A sequence of at most one entry with a weight that is not zero is well
/// formed, and stands for the map of that entry.
pub proof fn lemma_option_items(o: Option<(Value, isize)>)
    requires
        o.is_some() ==> o.unwrap().1 != 0,
    ensures
        items_wf(option_items(o)),
        to_map(option_items(o)) == match o {
            Some(e) => Map::<Value, isize>::empty().insert(e.0, e.1),
            None => Map::<Value, isize>::empty(),
        },
{
    match o {
        Some(e) => {
            let s = seq![e];
            assert(s[0] == e);
            assert(crate::map::has_key(s, e.0));
            crate::map::lemma_index_unique(s, 0);
            assert forall|k: Value| crate::map::has_key(s, k) implies k == e.0 by {
                let i = crate::map::index_of(s, k);
                assert(s[i] == e);
            }
            assert(to_map(s) =~= Map::<Value, isize>::empty().insert(e.0, e.1));
        },
        None => {
            assert(to_map(option_items(o)) =~= Map::<Value, isize>::empty());
        },
    }
}

impl Weighted for OptionMap {
    open spec fn contents(&self) -> Map<Value, isize> {
        to_map(option_items(self.0))
    }

    open spec fn valid(&self) -> bool {
        self.wf()
    }
}

impl IsRemoveMap for OptionMap {
    fn remove(&mut self, k: &Value) -> (r: Option<isize>) {
        proof {
            lemma_option_items(self.0);
        }
        let hit = match &self.0 {
            Some(e) => e.0.equals(k),
            None => false,
        };
        if hit {
            let taken = self.0.take();
            proof {
                lemma_option_items(self.0);
                assert(self.contents() =~= old(self).contents().remove(*k));
            }
            match taken {
                Some(e) => Some(e.1),
                None => None,
            }
        } else {
            proof {
                assert(self.contents() =~= old(self).contents().remove(*k));
            }
            None
        }
    }
}

impl IsDiscardMap for OptionMap {
    fn into_iter(self) -> (out: Batch) {
        proof {
            lemma_option_items(self.0);
        }
        match self.0 {
            Some(e) => {
                let mut out: Vec<(Value, isize)> = Vec::new();
                out.push(e);
                proof {
                    assert(out@ =~= option_items(self.0));
                }
                out
            },
            None => Vec::new(),
        }
    }
}

impl IsMap for OptionMap {
    type Discardable = OptionMap;

    fn foreach(&self) -> (out: Batch) {
        proof {
            lemma_option_items(self.0);
        }
        match &self.0 {
            Some(e) => {
                let mut out: Vec<(Value, isize)> = Vec::new();
                out.push((e.0.clone(), e.1));
                proof {
                    assert(out@ =~= option_items(self.0));
                }
                out
            },
            None => Vec::new(),
        }
    }

    fn into_discardable(self) -> (d: OptionMap) {
        self
    }
}

/// The map that holds one record, once.
#[derive(Debug)]
pub struct SingletonMap(pub Value);

impl Weighted for SingletonMap {
    open spec fn contents(&self) -> Map<Value, isize> {
        to_map(seq![(self.0, 1isize)])
    }

    open spec fn valid(&self) -> bool {
        true
    }
}

impl IsMap for SingletonMap {
    type Discardable = OptionMap;

    fn foreach(&self) -> (out: Batch) {
        proof {
            lemma_option_items(Some((self.0, 1isize)));
        }
        let mut out: Vec<(Value, isize)> = Vec::new();
        out.push((self.0.clone(), 1));
        proof {
            assert(out@ =~= seq![(self.0, 1isize)]);
        }
        out
    }

    fn into_discardable(self) -> (d: OptionMap) {
        OptionMap(Some((self.0, 1)))
    }
}

/// The map that holds one weight, under `Unit`.
#[derive(Debug)]
pub struct UnitMap(pub isize);

/// The entries of a map that holds one weight under `Unit`.
pub open spec fn unit_items(w: isize) -> Seq<(Value, isize)> {
    if w == 0 {
        Seq::empty()
    } else {
        seq![(Value::Unit, w)]
    }
}

impl Default for UnitMap {
    fn default() -> (m: Self)
        ensures
            m.0 == 0,
    {
        UnitMap(0)
    }
}

impl Emptyable for UnitMap {
    open spec fn empty_spec(&self) -> bool {
        self.0 == 0
    }

    fn is_empty(&self) -> (b: bool) {
        self.0 == 0
    }
}

impl Weighted for UnitMap {
    open spec fn contents(&self) -> Map<Value, isize> {
        to_map(unit_items(self.0))
    }

    open spec fn valid(&self) -> bool {
        true
    }
}

impl IsAddMap for UnitMap {
    open spec fn accepts(&self, k: Value) -> bool {
        k == Value::Unit
    }

    fn add(&mut self, k: Value, v: isize) {
        proof {
            lemma_option_items(
                if self.0 == 0 {
                    None
                } else {
                    Some((Value::Unit, self.0))
                },
            );
            let w = wadd(self.0, v);
            lemma_option_items(
                if w == 0 {
                    None
                } else {
                    Some((Value::Unit, w))
                },
            );
            assert(to_map(unit_items(w)) =~= map_add(to_map(unit_items(self.0)), k, v));
        }
        self.0 = self.0.wrapping_add(v);
    }
}

impl IsMap for UnitMap {
    type Discardable = OptionMap;

    fn foreach(&self) -> (out: Batch) {
        proof {
            lemma_option_items(
                if self.0 == 0 {
                    None
                } else {
                    Some((Value::Unit, self.0))
                },
            );
        }
        let mut out: Vec<(Value, isize)> = Vec::new();
        if self.0 != 0 {
            out.push((Value::Unit, self.0));
            proof {
                assert(out@ =~= unit_items(self.0));
            }
        }
        out
    }

    fn into_discardable(self) -> (d: OptionMap) {
        proof {
            lemma_option_items(
                if self.0 == 0 {
                    None
                } else {
                    Some((Value::Unit, self.0))
                },
            );
        }
        OptionMap::new(Value::Unit, self.0)
    }
}

/// A map that collects what is added in a buffer, and adds the buffer up
/// when it has grown to a threshold.
pub struct HybridMap {
    hashed: WeightMap,
    pending: Vec<(Value, isize)>,
    threshold: usize,
}

impl HybridMap {
    /// The entries that the map comes to when its buffer is added up: what
    /// is added up already, with every entry of the buffer added to it.
    pub open spec fn total(&self) -> Seq<(Value, isize)> {
        add_all(self.settled(), self.buffered())
    }

    /// What is added up already.
    pub closed spec fn settled(&self) -> Seq<(Value, isize)> {
        self.hashed@
    }

    /// What waits in the buffer.
    pub closed spec fn buffered(&self) -> Seq<(Value, isize)> {
        self.pending@
    }

    /// The size at which the buffer is added up.
    pub closed spec fn threshold_spec(&self) -> usize {
        self.threshold
    }

    /// What is added up already has distinct keys and no zero weight.
    pub open spec fn wf(&self) -> bool {
        items_wf(self.settled())
    }

    /// An empty map whose buffer takes sixteen entries.
    pub fn new() -> (m: Self)
        ensures
            m.wf(),
            items_wf(m.total()),
            m.settled() == Seq::<(Value, isize)>::empty(),
            m.buffered() == Seq::<(Value, isize)>::empty(),
            m.total() == Seq::<(Value, isize)>::empty(),
            m.threshold_spec() == 16,
    {
        HybridMap { hashed: WeightMap::new(), pending: Vec::new(), threshold: 16 }
    }

    /// Moves everything out: the buffer first, then what was added up. The
    /// weights that come out for a key add up to the weight that the key had
    /// in the map, and the map is left empty.
    pub fn steal(&mut self) -> (out: Batch)
        requires
            old(self).wf(),
        ensures
            final(self).wf(),
            out@ == old(self).buffered() + old(self).settled(),
            forall|q: Value|
                crate::weights::batch_weight(out@, q) == crate::map::weight_of(
                    old(self).total(),
                    q,
                ),
            final(self).settled() == Seq::<(Value, isize)>::empty(),
            final(self).buffered() == Seq::<(Value, isize)>::empty(),
            final(self).total() == Seq::<(Value, isize)>::empty(),
            final(self).threshold_spec() == old(self).threshold_spec(),
    {
        proof {
            let a = self.buffered();
            let b = self.settled();
            assert forall|q: Value|
                crate::weights::batch_weight(a + b, q) == crate::map::weight_of(
                    self.total(),
                    q,
                ) by {
                crate::weights::lemma_batch_weight_concat(a, b, q);
                crate::weights::lemma_batch_weight_of_items(b, q);
                crate::weights::lemma_weight_add_all(b, a, q);
            }
        }
        let mut res: Vec<(Value, isize)> = Vec::new();
        std::mem::swap(&mut self.pending, &mut res);
        let mut rest = self.hashed.steal();
        res.append(&mut rest);
        res
    }

    /// Adds a weight to a key. The change goes into the buffer; a buffer
    /// that has reached the threshold is added up, and the threshold doubles
    /// when the map has then reached it too.
    pub fn add(&mut self, k: Value, v: isize)
        requires
            old(self).wf(),
        ensures
            final(self).wf(),
            items_wf(old(self).total()),
            items_wf(final(self).total()),
            final(self).total() == add_items(old(self).total(), k, v),
            old(self).buffered().len() + 1 < old(self).threshold_spec() ==> final(self).buffered()
                == old(self).buffered().push((k, v)) && final(self).settled() == old(self).settled() && final(self).threshold_spec() == old(self).threshold_spec(),
            old(self).buffered().len() + 1 >= old(self).threshold_spec() ==> final(self).buffered().len() == 0 && final(self).settled() == add_items(old(self).total(), k, v)
                && final(self).threshold_spec() == if final(self).settled().len() >= old(self).threshold_spec() {
                if old(self).threshold_spec() > usize::MAX / 2 {
                    usize::MAX
                } else {
                    (old(self).threshold_spec() * 2) as usize
                }
            } else {
                old(self).threshold_spec()
            },
    {
        proof {
            assert(self.pending@.push((k, v)).drop_last() =~= self.pending@);
            crate::map::lemma_add_all_wf(self.settled(), self.buffered());
            crate::map::lemma_add_items_wf(self.total(), k, v);
        }
        self.pending.push((k, v));
        if self.pending.len() >= self.threshold {
            let mut moved: Vec<(Value, isize)> = Vec::new();
            std::mem::swap(&mut self.pending, &mut moved);
            self.hashed.add_batch(&moved);
            if self.hashed.len() >= self.threshold {
                self.threshold = if self.threshold > usize::MAX / 2 {
                    usize::MAX
                } else {
                    self.threshold * 2
                };
            }
        }
    }
}

/// What a well-formed map comes to when its buffer is added up has distinct
/// keys and no zero weight.
pub proof fn lemma_total_wf(m: &HybridMap)
    requires
        m.wf(),
    ensures
        items_wf(m.total()),
{
    crate::map::lemma_add_all_wf(m.settled(), m.buffered());
}

impl Emptyable for HybridMap {
    /// Nothing is added up, and nothing waits in the buffer.
    open spec fn empty_spec(&self) -> bool {
        self.settled().len() == 0 && self.buffered().len() == 0
    }

    fn is_empty(&self) -> (b: bool) {
        self.hashed.len() == 0 && self.pending.len() == 0
    }
}

impl Weighted for HybridMap {
    open spec fn contents(&self) -> Map<Value, isize> {
        to_map(self.total())
    }

    open spec fn valid(&self) -> bool {
        self.wf()
    }
}

impl IsAddMap for HybridMap {
    open spec fn accepts(&self, k: Value) -> bool {
        true
    }

    fn add(&mut self, k: Value, v: isize) {
        proof {
            lemma_total_wf(self);
            crate::map::lemma_add_items_map(self.total(), k, v);
        }
        HybridMap::add(self, k, v)
    }
}

impl Default for HybridMap {
    fn default() -> (m: Self)
        ensures
            m.wf(),
            m.settled() == Seq::<(Value, isize)>::empty(),
            m.buffered() == Seq::<(Value, isize)>::empty(),
            m.total() == Seq::<(Value, isize)>::empty(),
    {
        HybridMap::new()
    }
}

/// A weight that can tell whether it is one.
pub trait HasOne {
    spec fn one_spec(&self) -> bool;

    fn is_one(&self) -> (b: bool)
        ensures
            b == self.one_spec(),
    ;
}

impl HasOne for isize {
    open spec fn one_spec(&self) -> bool {
        *self == 1
    }

    fn is_one(&self) -> (b: bool) {
        *self == 1
    }
}

/// The keys of the entries.
pub open spec fn keys_of(s: Seq<(Value, isize)>) -> Seq<Value> {
    Seq::new(s.len(), |j: int| s[j].0)
}

/// Whether every entry has weight one.
pub open spec fn all_ones(s: Seq<(Value, isize)>) -> bool {
    forall|j: int| 0 <= j < s.len() ==> (#[trigger] s[j]).1 == 1
}

/// Whether every entry has weight one.
pub fn only_ones(batch: &Batch) -> (b: bool)
    ensures
        b == all_ones(batch@),
{
    let mut i: usize = 0;
    while i < batch.len()
        invariant
            0 <= i <= batch.len(),
            forall|j: int| 0 <= j < i ==> (#[trigger] batch@[j]).1 == 1,
        decreases batch.len() - i,
    {
        if !batch[i].1.is_one() {
            return false;
        }
        i += 1;
    }
    true
}

/// What can give its records where each of them has weight one.
pub trait AssertOnes {
    spec fn entries_spec(self) -> Seq<(Value, isize)>;

    /// The records of entries that each have weight one.
    fn assert_ones(self) -> (keys: Vec<Value>)
        requires
            all_ones(self.entries_spec()),
        ensures
            keys@ == keys_of(self.entries_spec()),
    ;
}

impl AssertOnes for Batch {
    open spec fn entries_spec(self) -> Seq<(Value, isize)> {
        self@
    }

    fn assert_ones(self) -> (keys: Vec<Value>) {
        let mut keys: Vec<Value> = Vec::new();
        let mut i: usize = 0;
        while i < self.len()
            invariant
                0 <= i <= self.len(),
                keys@ == keys_of(self@).take(i as int),
            decreases self.len() - i,
        {
            keys.push(self[i].0.clone());
            proof {
                assert(keys_of(self@).take(i as int + 1) =~= keys_of(self@).take(i as int).push(
                    self@[i as int].0,
                ));
            }
            i += 1;
        }
        proof {
            assert(keys_of(self@).take(self.len() as int) =~= keys_of(self@));
        }
        keys
    }
}

/// The keys go up from entry to entry.
pub open spec fn sorted(s: Seq<(Value, isize)>) -> bool {
    forall|i: int, j: int|
        0 <= i < j < s.len() ==> crate::value::value_lt((#[trigger] s[i]).0, (#[trigger] s[j]).0)
}

/// Whether the entry is one of the entries.
pub open spec fn is_entry(s: Seq<(Value, isize)>, e: (Value, isize)) -> bool {
    exists|p: int| 0 <= p < s.len() && #[trigger] s[p] == e
}

/// Entries whose keys go up have distinct keys.
pub proof fn lemma_sorted_distinct(s: Seq<(Value, isize)>)
    requires
        sorted(s),
    ensures
        crate::map::distinct_keys(s),
{
    assert forall|i: int, j: int| 0 <= i < j < s.len() implies (#[trigger] s[i]).0 != (
    #[trigger] s[j]).0 by {
        crate::value::lemma_lt_irreflexive(s[i].0);
    }
}

/// The number of entries whose weight is not zero.
pub open spec fn count_nonzero(s: Seq<(Value, isize)>) -> nat
    decreases s.len(),
{
    if s.len() == 0 {
        0
    } else {
        count_nonzero(s.drop_last()) + if s.last().1 != 0 {
            1nat
        } else {
            0nat
        }
    }
}

/// A map whose entries are kept in the order of their keys.
#[derive(Debug)]
pub struct VecMap(Vec<(Value, isize)>);

impl View for VecMap {
    type V = Seq<(Value, isize)>;

    closed spec fn view(&self) -> Seq<(Value, isize)> {
        self.0@
    }
}

impl VecMap {
    /// The keys go up from entry to entry, and no entry has weight zero.
    pub open spec fn wf(&self) -> bool {
        sorted(self@) && crate::map::nonzero(self@)
    }

    /// The place of the first entry whose key is not below the given one.
    fn lower_bound(&self, k: &Value) -> (p: usize)
        requires
            self.wf(),
        ensures
            p <= self@.len(),
            forall|j: int| 0 <= j < p ==> crate::value::value_lt((#[trigger] self@[j]).0, *k),
            forall|j: int|
                p <= j < self@.len() ==> !crate::value::value_lt((#[trigger] self@[j]).0, *k),
    {
        let mut p: usize = 0;
        while p < self.0.len() && self.0[p].0.less(k)
            invariant
                p <= self.0.len(),
                self.wf(),
                forall|j: int| 0 <= j < p ==> crate::value::value_lt((#[trigger] self@[j]).0, *k),
            decreases self.0.len() - p,
        {
            p += 1;
        }
        proof {
            assert forall|j: int| p <= j < self@.len() implies !crate::value::value_lt(
                (#[trigger] self@[j]).0,
                *k,
            ) by {
                if j > p && crate::value::value_lt(self@[j].0, *k) {
                    crate::value::lemma_lt_transitive(self@[p as int].0, self@[j].0, *k);
                }
            }
        }
        p
    }

    /// The map of the given entries, of which no two have the same key, in
    /// the order of their keys. An entry of weight zero is left out.
    pub fn new(xs: Vec<(Value, isize)>) -> (m: Self)
        requires
            crate::map::distinct_keys(xs@),
        ensures
            m.wf(),
            m@.len() == count_nonzero(xs@),
            forall|j: int| 0 <= j < xs@.len() && (#[trigger] xs@[j]).1 != 0 ==> is_entry(m@, xs@[j]),
            forall|p: int| 0 <= p < m@.len() ==> is_entry(xs@, #[trigger] m@[p]),
    {
        let mut m = VecMap(Vec::new());
        let mut i: usize = 0;
        while i < xs.len()
            invariant
                0 <= i <= xs.len(),
                m.wf(),
                m@.len() == count_nonzero(xs@.take(i as int)),
                crate::map::distinct_keys(xs@),
                forall|j: int| 0 <= j < i && (#[trigger] xs@[j]).1 != 0 ==> is_entry(m@, xs@[j]),
                forall|p: int|
                    0 <= p < m@.len() ==> exists|j: int|
                        0 <= j < i && #[trigger] xs@[j] == #[trigger] m@[p],
            decreases xs.len() - i,
        {
            let k = xs[i].0.clone();
            let w = xs[i].1;
            proof {
                assert(xs@.take(i as int + 1).drop_last() =~= xs@.take(i as int));
                assert(xs@.take(i as int + 1).last() == xs@[i as int]);
            }
            if w != 0 {
                let p = m.lower_bound(&k);
                let ghost before = m@;
                proof {
                    assert forall|q: int| 0 <= q < before.len() implies (#[trigger] before[q]).0
                        != k by {
                        let j = choose|j: int| 0 <= j < i && #[trigger] xs@[j] == before[q];
                        assert(xs@[j].0 != xs@[i as int].0);
                    }
                }
                m.0.insert(p, (k, w));
                proof {
                    let e = (k, w);
                    let after = m@;
                    assert(after == before.insert(p as int, e));
                    assert forall|a: int, b: int|
                        0 <= a < b < after.len() implies crate::value::value_lt(
                        (#[trigger] after[a]).0,
                        (#[trigger] after[b]).0,
                    ) by {
                        let a0 = if a < p {
                            a
                        } else {
                            a - 1
                        };
                        let b0 = if b < p {
                            b
                        } else {
                            b - 1
                        };
                        if a == p {
                            assert(after[b] == before[b0]);
                            assert(!crate::value::value_lt(before[b0].0, k));
                            crate::value::lemma_lt_total(before[b0].0, k);
                        } else if b == p {
                            assert(after[a] == before[a0]);
                        } else {
                            assert(after[a] == before[a0]);
                            assert(after[b] == before[b0]);
                        }
                    }
                    assert forall|q: int| 0 <= q < after.len() implies (#[trigger] after[q]).1
                        != 0 by {
                        if q != p {
                            let q0 = if q < p {
                                q
                            } else {
                                q - 1
                            };
                            assert(after[q] == before[q0]);
                        }
                    }
                    assert forall|j: int| 0 <= j < i + 1 && (#[trigger] xs@[j]).1 != 0 implies is_entry(
                        after,
                        xs@[j],
                    ) by {
                        if j < i {
                            let q = choose|q: int|
                                0 <= q < before.len() && #[trigger] before[q] == xs@[j];
                            let q1 = if q < p {
                                q
                            } else {
                                q + 1
                            };
                            assert(after[q1] == xs@[j]);
                        } else {
                            assert(after[p as int] == xs@[j]);
                        }
                    }
                    assert forall|q: int| 0 <= q < after.len() implies exists|j: int|
                        0 <= j < i + 1 && #[trigger] xs@[j] == #[trigger] after[q] by {
                        if q == p {
                            assert(xs@[i as int] == after[q]);
                        } else {
                            let q0 = if q < p {
                                q
                            } else {
                                q - 1
                            };
                            assert(after[q] == before[q0]);
                            let j = choose|j: int| 0 <= j < i && #[trigger] xs@[j] == before[q0];
                            assert(xs@[j] == after[q]);
                        }
                    }
                }
            }
            i += 1;
        }
        proof {
            assert(xs@.take(xs.len() as int) =~= xs@);
            assert forall|p: int| 0 <= p < m@.len() implies is_entry(xs@, #[trigger] m@[p]) by {
                let j = choose|j: int| 0 <= j < i && #[trigger] xs@[j] == m@[p];
                assert(xs@[j] == m@[p]);
            }
        }
        m
    }

    pub fn len(&self) -> (n: usize)
        ensures
            n == self@.len(),
    {
        self.0.len()
    }

    /// A copy of the entries, in the order of their keys.
    pub fn to_vec(&self) -> (out: Batch)
        ensures
            out@ == self@,
    {
        let mut out: Vec<(Value, isize)> = Vec::new();
        let mut i: usize = 0;
        while i < self.0.len()
            invariant
                0 <= i <= self.0.len(),
                out@ == self@.take(i as int),
            decreases self.0.len() - i,
        {
            out.push((self.0[i].0.clone(), self.0[i].1));
            proof {
                assert(self@.take(i as int + 1) =~= self@.take(i as int).push(self@[i as int]));
            }
            i += 1;
        }
        proof {
            assert(self@.take(self.0.len() as int) =~= self@);
        }
        out
    }

    /// Takes the key's entry out and returns its weight.
    pub fn remove(&mut self, k: &Value) -> (r: Option<isize>)
        requires
            old(self).wf(),
        ensures
            final(self).wf(),
            final(self)@ == crate::map::remove_items(old(self)@, *k),
            r == if crate::map::has_key(old(self)@, *k) {
                Some(crate::map::weight_of(old(self)@, *k))
            } else {
                None
            },
    {
        let p = self.lower_bound(k);
        proof {
            lemma_sorted_distinct(self@);
        }
        if p < self.0.len() && self.0[p].0.equals(k) {
            proof {
                crate::map::lemma_index_unique(self@, p as int);
                let s = self@;
                let r = s.remove(p as int);
                assert forall|a: int, b: int| 0 <= a < b < r.len() implies crate::value::value_lt(
                    (#[trigger] r[a]).0,
                    (#[trigger] r[b]).0,
                ) by {
                    let a0 = if a < p {
                        a
                    } else {
                        a + 1
                    };
                    let b0 = if b < p {
                        b
                    } else {
                        b + 1
                    };
                    assert(r[a] == s[a0]);
                    assert(r[b] == s[b0]);
                }
                assert forall|a: int| 0 <= a < r.len() implies (#[trigger] r[a]).1 != 0 by {
                    let a0 = if a < p {
                        a
                    } else {
                        a + 1
                    };
                    assert(r[a] == s[a0]);
                }
            }
            let e = self.0.remove(p);
            Some(e.1)
        } else {
            proof {
                if crate::map::has_key(self@, *k) {
                    let q = crate::map::index_of(self@, *k);
                    crate::value::lemma_lt_irreflexive(*k);
                    if q > p {
                        crate::value::lemma_lt_total(self@[p as int].0, *k);
                    }
                }
            }
            None
        }
    }
}

impl Default for VecMap {
    fn default() -> (m: Self)
        ensures
            m@.len() == 0,
            m.wf(),
    {
        VecMap(Vec::new())
    }
}

impl Emptyable for VecMap {
    open spec fn empty_spec(&self) -> bool {
        self@.len() == 0
    }

    fn is_empty(&self) -> (b: bool) {
        self.0.len() == 0
    }
}

impl Weighted for VecMap {
    open spec fn contents(&self) -> Map<Value, isize> {
        to_map(self@)
    }

    open spec fn valid(&self) -> bool {
        self.wf()
    }
}

impl IsRemoveMap for VecMap {
    fn remove(&mut self, k: &Value) -> (r: Option<isize>) {
        proof {
            lemma_sorted_distinct(self@);
            if crate::map::has_key(self@, *k) {
                crate::map::lemma_remove_at(self@, crate::map::index_of(self@, *k));
            }
            assert(to_map(crate::map::remove_items(self@, *k)) =~= to_map(self@).remove(*k));
        }
        VecMap::remove(self, k)
    }
}

impl IsDiscardMap for VecMap {
    fn into_iter(self) -> (out: Batch) {
        proof {
            lemma_sorted_distinct(self@);
        }
        self.to_vec()
    }
}

impl IsMap for VecMap {
    type Discardable = VecMap;

    fn foreach(&self) -> (out: Batch) {
        proof {
            lemma_sorted_distinct(self@);
        }
        self.to_vec()
    }

    fn into_discardable(self) -> (d: VecMap) {
        self
    }
}

/// The groups as a mathematical map from pairs of an outer and an inner key
/// to weights.
pub open spec fn pair_map(g: Groups) -> Map<Value, isize> {
    Map::new(
        |k: Value| k is Pair && weight_of(group_of(g, k.first()), k.second()) != 0,
        |k: Value| weight_of(group_of(g, k.first()), k.second()),
    )
}

impl Weighted for GroupMap {
    open spec fn contents(&self) -> Map<Value, isize> {
        pair_map(self@)
    }

    open spec fn valid(&self) -> bool {
        self.wf()
    }
}

impl IsAddMap for GroupMap {
    /// The key is a pair: its first component is the outer key, its second
    /// the inner one.
    open spec fn accepts(&self, k: Value) -> bool {
        k is Pair
    }

    fn add(&mut self, k: Value, v: isize) {
        let a = k.fst();
        let b = k.snd();
        proof {
            let before = self@;
            let after = crate::map::group_add(before, a, b, v);
            assert forall|q: Value| #[trigger]
                pair_map(after).contains_key(q) == map_add(pair_map(before), k, v).contains_key(
                    q,
                ) && (pair_map(after).contains_key(q) ==> pair_map(after)[q] == map_add(
                    pair_map(before),
                    k,
                    v,
                )[q]) by {
                crate::laws::lemma_group_add_weight(before, a, b, v, q.first(), q.second());
            }
            assert(pair_map(after) =~= map_add(pair_map(before), k, v));
        }
        GroupMap::add(self, a, b, v)
    }
}

impl IsRemoveMap for GroupMap {
    fn remove(&mut self, k: &Value) -> (r: Option<isize>) {
        match k {
            Value::Pair(a, b) => {
                proof {
                    let before = self@;
                    let items = group_of(before, **a);
                    crate::laws::lemma_group_of_wf(before, **a);
                    let rest = crate::map::remove_items(items, **b);
                    if crate::map::has_key(items, **b) {
                        crate::map::lemma_remove_at(items, crate::map::index_of(items, **b));
                        assert(crate::map::nonzero(rest)) by {
                            let i = crate::map::index_of(items, **b);
                            assert forall|j: int| 0 <= j < rest.len() implies (#[trigger] rest[j]).1
                                != 0 by {
                                assert(rest[j] == items[if j < i {
                                    j
                                } else {
                                    j + 1
                                }]);
                            }
                        }
                    }
                    crate::weights::lemma_weight_zero(items, **b);
                    crate::map::lemma_set_group_wf(before, **a, rest);
                    let after = crate::map::set_group(before, **a, rest);
                    assert forall|q: Value| #[trigger]
                        pair_map(after).contains_key(q) == pair_map(before).remove(
                            *k,
                        ).contains_key(q) && (pair_map(after).contains_key(q) ==> pair_map(
                            after,
                        )[q] == pair_map(before).remove(*k)[q]) by {
                        if q is Pair && q.first() != **a {
                            assert(group_of(after, q.first()) == group_of(before, q.first()));
                        }
                    }
                    assert(pair_map(after) =~= pair_map(before).remove(*k));
                }
                self.remove_entry(a, b)
            },
            _ => {
                proof {
                    assert(self.contents().remove(*k) =~= self.contents());
                }
                None
            },
        }
    }
}

} // verus!
