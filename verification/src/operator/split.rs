//! Split: fan-out. A source pulls its upstream once per step and puts what
//! comes into the buffer of every listener; each receiver drains its own.

use crate::map::{add_all, items_wf, Batch, WeightMap};
use crate::operator::barrier::Barrier;
use crate::operator::Op;
use crate::value::Value;
use vstd::prelude::*;

verus! {

/// The state of a source: its gate, and one buffer for each listener.
pub struct Source {
    pub inner: Barrier,
    pub listeners: Vec<WeightMap>,
}

pub struct SourceView {
    pub inner: Barrier,
    pub listeners: Seq<Seq<(Value, isize)>>,
}

impl View for Source {
    type V = SourceView;

    open spec fn view(&self) -> SourceView {
        SourceView {
            inner: self.inner,
            listeners: Seq::new(self.listeners@.len(), |i: int| self.listeners@[i]@),
        }
    }
}

impl SourceView {
    pub open spec fn wf(self) -> bool {
        forall|i: int| 0 <= i < self.listeners.len() ==> items_wf(#[trigger] self.listeners[i])
    }

    /// The source after a batch was put into every buffer.
    pub open spec fn accepted(self, batch: Seq<(Value, isize)>) -> SourceView {
        SourceView {
            inner: self.inner,
            listeners: Seq::new(self.listeners.len(), |i: int| add_all(self.listeners[i], batch)),
        }
    }

    /// What waits for a listener; nothing for one that the source does not
    /// have.
    pub open spec fn waiting(self, listener: usize) -> Seq<(Value, isize)> {
        if listener < self.listeners.len() {
            self.listeners[listener as int]
        } else {
            Seq::empty()
        }
    }

    /// The source after a listener's buffer was drained.
    pub open spec fn taken(self, listener: usize) -> SourceView {
        if listener < self.listeners.len() {
            SourceView {
                inner: self.inner,
                listeners: self.listeners.update(listener as int, Seq::empty()),
            }
        } else {
            self
        }
    }

    /// The source with one more listener, whose buffer starts with the given
    /// entries.
    pub open spec fn with_listener(self, data: Seq<(Value, isize)>) -> SourceView {
        SourceView { inner: self.inner, listeners: self.listeners.push(data) }
    }
}

impl Source {
    pub open spec fn wf(&self) -> bool {
        self@.wf()
    }

    pub fn new(from: usize) -> (s: Self)
        ensures
            s@ == (SourceView { inner: Barrier::new_spec(from), listeners: seq![Seq::empty()] }),
            s.wf(),
    {
        let mut listeners: Vec<WeightMap> = Vec::new();
        listeners.push(WeightMap::new());
        let s = Source { inner: Barrier::new(from), listeners };
        proof {
            assert(s@.listeners =~= seq![Seq::<(Value, isize)>::empty()]);
        }
        s
    }

    /// Puts a batch into the buffer of every listener.
    pub fn accept(&mut self, batch: &Batch)
        requires
            old(self).wf(),
        ensures
            final(self).wf(),
            final(self)@ == old(self)@.accepted(batch@),
    {
        let mut i: usize = 0;
        while i < self.listeners.len()
            invariant
                0 <= i <= self.listeners.len(),
                self.inner == old(self).inner,
                self.listeners@.len() == old(self).listeners@.len(),
                forall|j: int|
                    0 <= j < i ==> (#[trigger] self.listeners@[j])@ == add_all(
                        old(self).listeners@[j]@,
                        batch@,
                    ) && self.listeners@[j].wf(),
                forall|j: int|
                    i <= j < self.listeners@.len() ==> (#[trigger] self.listeners@[j])
                        == old(self).listeners@[j],
                old(self).wf(),
            decreases self.listeners.len() - i,
        {
            proof {
                assert(items_wf(old(self)@.listeners[i as int]));
            }
            let mut held = WeightMap::new();
            std::mem::swap(&mut self.listeners[i], &mut held);
            held.add_batch(batch);
            std::mem::swap(&mut self.listeners[i], &mut held);
            i += 1;
        }
        proof {
            assert(self@.listeners =~= old(self)@.accepted(batch@).listeners);
        }
    }

    /// Adds a listener whose buffer starts with the given entries.
    pub fn add_listener(&mut self, data: WeightMap) -> (listener: usize)
        requires
            old(self).wf(),
            data.wf(),
        ensures
            final(self).wf(),
            final(self)@ == old(self)@.with_listener(data@),
            listener == old(self)@.listeners.len(),
    {
        let listener = self.listeners.len();
        self.listeners.push(data);
        proof {
            assert(self@.listeners =~= old(self)@.listeners.push(data@));
            assert forall|i: int| 0 <= i < self@.listeners.len() implies items_wf(
                #[trigger] self@.listeners[i],
            ) by {
                if i < old(self)@.listeners.len() {
                    assert(self@.listeners[i] == old(self)@.listeners[i]);
                }
            }
        }
        listener
    }

    /// A copy of what waits for a listener.
    pub fn peek(&self, listener: usize) -> (out: WeightMap)
        requires
            self.wf(),
        ensures
            out@ == self@.waiting(listener),
            out.wf(),
    {
        if listener < self.listeners.len() {
            proof {
                assert(items_wf(self@.listeners[listener as int]));
            }
            self.listeners[listener].clone()
        } else {
            WeightMap::new()
        }
    }

    /// Drains the buffer of a listener.
    pub fn take(&mut self, listener: usize) -> (out: Batch)
        requires
            old(self).wf(),
        ensures
            final(self).wf(),
            out@ == old(self)@.waiting(listener),
            final(self)@ == old(self)@.taken(listener),
    {
        if listener < self.listeners.len() {
            let mut held = WeightMap::new();
            std::mem::swap(&mut self.listeners[listener], &mut held);
            proof {
                assert(self@.listeners =~= old(self)@.listeners.update(
                    listener as int,
                    Seq::empty(),
                ));
                assert forall|i: int| 0 <= i < self@.listeners.len() implies items_wf(
                    #[trigger] self@.listeners[i],
                ) by {
                    if i != listener {
                        assert(self@.listeners[i] == old(self)@.listeners[i]);
                    }
                }
            }
            held.steal()
        } else {
            Vec::new()
        }
    }
}

impl Op for Source {
    open spec fn hideable_spec() -> bool {
        true
    }

    open spec fn op_name_spec() -> Seq<char> {
        "source"@
    }

    fn hideable() -> (b: bool) {
        true
    }

    fn default_op_name() -> (name: &'static str) {
        "source"
    }
}

/// A listener of a source.
pub struct Receiver {
    pub source: usize,
    pub listener: usize,
}

impl Receiver {
    /// Drains this receiver's buffer at its source.
    pub fn flow(&self, source: &mut Source) -> (out: Batch)
        requires
            old(source).wf(),
        ensures
            final(source).wf(),
            out@ == old(source)@.waiting(self.listener),
            final(source)@ == old(source)@.taken(self.listener),
    {
        source.take(self.listener)
    }
}

impl Op for Receiver {
    open spec fn hideable_spec() -> bool {
        true
    }

    open spec fn op_name_spec() -> Seq<char> {
        "split"@
    }

    fn hideable() -> (b: bool) {
        true
    }

    fn default_op_name() -> (name: &'static str) {
        "split"
    }
}

} // verus!
