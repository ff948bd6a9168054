//! Temporary changes: changes that are written under a tracking id, seen by
//! those who read while they are in effect, and then taken back.

use crate::access::{kind_of, undo_input, Kind};
use crate::arrangement::{ArrangedView, ArrangementG};
use crate::context::{ExecView, ExecutionContext, Input};
use crate::error::Error;
use crate::function::Function;
use crate::graph::{fault_kept, kinds_kept};
use crate::map::{group_of, remove_items, Batch};
use crate::value::Value;
use vstd::prelude::*;

verus! {

/// A change to an input: a record and the weight that it gets added.
#[derive(Debug)]
pub struct Change {
    pub input: Input,
    pub record: Value,
    pub weight: isize,
}

/// The first of two errors that may be missing.
pub open spec fn keep_first(a: Option<Error>, b: Option<Error>) -> Option<Error> {
    if a.is_some() {
        a
    } else {
        b
    }
}

/// The error of a result, if it is one.
pub open spec fn err_of<T>(r: Result<T, Error>) -> Option<Error> {
    match r {
        Ok(_) => None,
        Err(e) => Some(e),
    }
}

/// The context after the changes were written one after the other, and the
/// first error that one of them met. A change that meets an error is left
/// out.
pub open spec fn apply_changes<F: Function>(c: ExecView<F>, changes: Seq<Change>) -> (
    ExecView<F>,
    Option<Error>,
)
    decreases changes.len(),
{
    if changes.len() == 0 {
        (c, None)
    } else {
        let (c1, e1) = apply_changes(c, changes.drop_last());
        let last = changes.last();
        let (c2, r) = c1.updated(last.input, last.record, last.weight);
        (c2, keep_first(e1, err_of(r)))
    }
}

/// What a reader of an arrangement sees: the records of its map, nothing
/// where the read met an error.
pub open spec fn seen(r: Result<ArrangedView, Error>) -> Seq<(Value, isize)> {
    match r {
        Ok(m) => m.records(),
        Err(_) => Seq::empty(),
    }
}

/// The context after the arrangements were read one after the other, what
/// was seen of each, and the first error that a read met.
pub open spec fn read_all<F: Function>(c: ExecView<F>, watch: Seq<ArrangementG>) -> (
    ExecView<F>,
    Seq<Seq<(Value, isize)>>,
    Option<Error>,
)
    decreases watch.len(),
{
    if watch.len() == 0 {
        (c, Seq::empty(), None)
    } else {
        let (c1, s1, e1) = read_all(c, watch.drop_last());
        let (c2, r) = c1.read(watch.last().context_id, watch.last().id);
        (c2, s1.push(seen(r)), keep_first(e1, err_of(r)))
    }
}

/// The context after the changes that were made under a tracking id were
/// taken back at each of the given inputs, and the first error that was met.
pub open spec fn undo_all<F: Function>(c: ExecView<F>, id: usize, inputs: Seq<(Value, isize)>) -> (
    ExecView<F>,
    Option<Error>,
)
    decreases inputs.len(),
{
    if inputs.len() == 0 {
        (c, None)
    } else {
        let (c1, e1) = undo_all(c, id, inputs.drop_last());
        match inputs.last().0 {
            Value::Nat(i) => {
                let (g, r) = undo_input(c1.graph, i, c1.step, id);
                (ExecView { graph: g, ..c1 }, keep_first(e1, err_of(r)))
            },
            _ => (c1, e1),
        }
    }
}

impl<F: Function> ExecView<F> {
    /// The context after temporary changes were begun: one step later, with
    /// that step as the tracking id.
    pub open spec fn begun(self) -> ExecView<F> {
        ExecView {
            step: (self.step + 1) as usize,
            tracking_id: Some((self.step + 1) as usize),
            ..self
        }
    }

    /// The context after the writing of temporary changes has ended: one
    /// step later, with the tracking id that was in effect before.
    pub open spec fn ended(self, prev: Option<usize>) -> ExecView<F> {
        ExecView { step: (self.step + 1) as usize, tracking_id: prev, ..self }
    }

    /// The context after the changes that were made under a tracking id were
    /// taken back at every input that is watched for it: nothing is watched
    /// for the id any more, and the clock has advanced.
    pub open spec fn rolled_back(self, id: usize) -> (ExecView<F>, Option<Error>) {
        let (c1, e) = undo_all(self, id, group_of(self.watched, Value::Nat(id)));
        (
            ExecView {
                watched: remove_items(c1.watched, Value::Nat(id)),
                step: (c1.step + 1) as usize,
                ..c1
            },
            e,
        )
    }

    /// The context after changes were made for a while, and what was seen
    /// while they were in effect. The clock advances, and the changes are
    /// written under a fresh tracking id; the clock advances, and the
    /// arrangements are read; the clock advances, the changes are taken back,
    /// and the clock advances once more. Where the clock cannot advance four
    /// times, nothing is done.
    pub open spec fn with_temp_changes(self, changes: Seq<Change>, watch: Seq<ArrangementG>) -> (
        ExecView<F>,
        Result<Seq<Seq<(Value, isize)>>, Error>,
    ) {
        if self.step > usize::MAX - 4 {
            (self, Err(Error::ClockExhausted))
        } else {
            let id = (self.step + 1) as usize;
            let (c2, e2) = apply_changes(self.begun(), changes);
            let (c4, snaps, e4) = read_all(c2.ended(self.tracking_id), watch);
            let (c6, e6) = c4.committed().rolled_back(id);
            (
                c6,
                match keep_first(keep_first(e2, e4), e6) {
                    Some(e) => Err(e),
                    None => Ok(snaps),
                },
            )
        }
    }
}

/// Whether every change is one to an input of the context.
pub open spec fn all_inputs_of<F: Function>(c: ExecView<F>, changes: Seq<Change>) -> bool {
    forall|j: int| 0 <= j < changes.len() ==> c.has_input((#[trigger] changes[j]).input)
}

/// Whether every handle stands for an arrangement of the context.
pub open spec fn all_arrangements_of<F: Function>(c: ExecView<F>, watch: Seq<ArrangementG>) -> bool {
    forall|j: int|
        0 <= j < watch.len() ==> c.has_arrangement(
            (#[trigger] watch[j]).context_id,
            watch[j].id,
        )
}

/// Writing changes and reading arrangements leaves the clock and the
/// tracking id as they are.
pub proof fn lemma_apply_changes_frame<F: Function>(c: ExecView<F>, changes: Seq<Change>)
    requires
        c.wf(),
    ensures
        apply_changes(c, changes).0.step == c.step,
        apply_changes(c, changes).0.tracking_id == c.tracking_id,
        apply_changes(c, changes).0.context_id == c.context_id,
    decreases changes.len(),
{
    if changes.len() > 0 {
        lemma_apply_changes_frame(c, changes.drop_last());
    }
}

pub proof fn lemma_read_all_frame<F: Function>(c: ExecView<F>, watch: Seq<ArrangementG>)
    ensures
        read_all(c, watch).0.step == c.step,
        read_all(c, watch).0.tracking_id == c.tracking_id,
        read_all(c, watch).0.context_id == c.context_id,
        read_all(c, watch).0.watched == c.watched,
    decreases watch.len(),
{
    if watch.len() > 0 {
        lemma_read_all_frame(c, watch.drop_last());
    }
}

pub proof fn lemma_undo_all_frame<F: Function>(c: ExecView<F>, id: usize, inputs: Seq<(Value, isize)>)
    ensures
        undo_all(c, id, inputs).0.step == c.step,
        undo_all(c, id, inputs).0.tracking_id == c.tracking_id,
        undo_all(c, id, inputs).0.context_id == c.context_id,
        undo_all(c, id, inputs).0.watched == c.watched,
    decreases inputs.len(),
{
    if inputs.len() > 0 {
        lemma_undo_all_frame(c, id, inputs.drop_last());
    }
}

impl<F: Function> ExecutionContext<F> {
    /// Begins temporary changes: advances the clock and takes the new step
    /// as the tracking id under which changes are recorded from now on.
    /// Returns the tracking id that was in effect before.
    pub fn begin_temp_changes(&mut self) -> (r: Result<Option<usize>, Error>)
        requires
            old(self).wf(),
        ensures
            final(self).wf(),
            match r {
                Ok(prev) => old(self).step < usize::MAX && prev == old(self).tracking_id
                    && final(self)@ == old(self)@.begun(),
                Err(e) => old(self).step == usize::MAX && e == Error::ClockExhausted
                    && final(self)@ == old(self)@,
            },
    {
        if self.step == usize::MAX {
            return Err(Error::ClockExhausted);
        }
        let prev = self.tracking_id;
        proof {
            crate::graph::lemma_within_later(self@.graph, self.step, (self.step + 1) as usize);
        }
        self.step = self.step + 1;
        self.tracking_id = Some(self.step);
        Ok(prev)
    }

    /// Puts a tracking id in effect: changes are recorded under it from now
    /// on, or under none.
    pub fn set_tracking_id(&mut self, id: Option<usize>)
        requires
            old(self).wf(),
        ensures
            final(self).wf(),
            final(self)@ == (ExecView { tracking_id: id, ..old(self)@ }),
    {
        self.tracking_id = id;
    }

    /// Ends the writing of temporary changes: puts the tracking id back that
    /// was in effect before, and advances the clock.
    pub fn end_temp_changes(&mut self, prev: Option<usize>) -> (r: Result<(), Error>)
        requires
            old(self).wf(),
        ensures
            final(self).wf(),
            match r {
                Ok(_) => old(self).step < usize::MAX && final(self)@ == old(self)@.ended(prev),
                Err(e) => old(self).step == usize::MAX && e == Error::ClockExhausted
                    && final(self)@ == old(self)@,
            },
    {
        if self.step == usize::MAX {
            return Err(Error::ClockExhausted);
        }
        self.tracking_id = prev;
        proof {
            crate::graph::lemma_within_later(self@.graph, self.step, (self.step + 1) as usize);
        }
        self.step = self.step + 1;
        Ok(())
    }

    /// Takes back the changes that were made under a tracking id, at every
    /// input that is watched for it, and advances the clock. Only a clock
    /// that cannot advance stops it.
    pub fn undo_temp_changes(&mut self, id: usize) -> (r: Result<(), Error>)
        requires
            old(self).wf(),
        ensures
            final(self).wf(),
            match r {
                Ok(_) => old(self).step < usize::MAX && final(self)@ == old(self)@.rolled_back(
                    id,
                ).0 && old(self)@.rolled_back(id).1.is_none(),
                Err(e) => old(self).step == usize::MAX && e == Error::ClockExhausted
                    && final(self)@ == old(self)@,
            },
            kinds_kept(old(self)@.graph, final(self)@.graph),
            final(self)@.graph.fault == old(self)@.graph.fault,
    {
        if self.step == usize::MAX {
            return Err(Error::ClockExhausted);
        }
        let key = Value::Nat(id);
        let inputs = self.watched.group(&key);
        proof {
            crate::laws::lemma_group_of_wf(self@.watched, key);
        }
        let mut i: usize = 0;
        while i < inputs.len()
            invariant
                0 <= i <= inputs.len(),
                self.wf(),
                old(self).wf(),
                self.step == old(self).step,
                self@.watched == old(self)@.watched,
                kinds_kept(old(self)@.graph, self@.graph),
                self@.graph.fault == old(self)@.graph.fault,
                inputs@ == group_of(old(self)@.watched, key),
                crate::map::items_wf(inputs@),
                (self@, None::<Error>) == undo_all(old(self)@, id, inputs@.take(i as int)),
            decreases inputs.len() - i,
        {
            proof {
                assert(inputs@.take(i as int + 1).drop_last() =~= inputs@.take(i as int));
                assert(inputs@.take(i as int + 1).last() == inputs@[i as int]);
            }
            match &inputs[i].0 {
                Value::Nat(n) => {
                    let ghost before = self@.graph;
                    proof {
                        crate::weights::lemma_weight_at(inputs@, i as int);
                        crate::context::lemma_watched_is_input(
                            old(self)@.watched,
                            old(self)@.graph,
                            key,
                            inputs@[i as int].0,
                        );
                        assert(kind_of(before, *n) == Some(Kind::Input));
                        crate::graph::lemma_within_at(before, *n, self.step);
                    }
                    self.graph.undo_input(*n, self.step, id);
                    proof {
                        crate::context::lemma_watched_kept(self@.watched, before, self@.graph);
                    }
                },
                _ => {},
            }
            i += 1;
        }
        proof {
            assert(inputs@.take(inputs.len() as int) =~= inputs@);
            lemma_undo_all_frame(old(self)@, id, inputs@);
            crate::context::lemma_watched_less(self@.watched, self@.graph, key);
        }
        self.watched.remove(&key);
        proof {
            crate::graph::lemma_within_later(self@.graph, self.step, (self.step + 1) as usize);
        }
        self.step = self.step + 1;
        Ok(())
    }

    /// Writes the changes one after the other. Returns the first error that
    /// one of them met: none where every change is one to an input of the
    /// context.
    pub fn apply_changes(&mut self, changes: &Vec<Change>) -> (first: Option<Error>)
        requires
            old(self).wf(),
        ensures
            final(self).wf(),
            (final(self)@, first) == apply_changes(old(self)@, changes@),
            kinds_kept(old(self)@.graph, final(self)@.graph),
            final(self)@.graph.fault == old(self)@.graph.fault,
            all_inputs_of(old(self)@, changes@) ==> first.is_none(),
    {
        let mut first: Option<Error> = None;
        let mut i: usize = 0;
        while i < changes.len()
            invariant
                0 <= i <= changes.len(),
                self.wf(),
                (self@, first) == apply_changes(old(self)@, changes@.take(i as int)),
                self.context_id == old(self).context_id,
                kinds_kept(old(self)@.graph, self@.graph),
                self@.graph.fault == old(self)@.graph.fault,
                all_inputs_of(old(self)@, changes@) ==> first.is_none(),
            decreases changes.len() - i,
        {
            proof {
                assert(changes@.take(i as int + 1).drop_last() =~= changes@.take(i as int));
                assert(changes@.take(i as int + 1).last() == changes@[i as int]);
                if all_inputs_of(old(self)@, changes@) {
                    assert(old(self)@.has_input(changes@[i as int].input));
                    assert(self@.has_input(changes@[i as int].input));
                    crate::context::lemma_input_takes_changes(self@, changes@[i as int].input);
                }
            }
            let met = self.rejection(&changes[i].input);
            if met.is_none() {
                self.update(&changes[i].input, changes[i].record.clone(), changes[i].weight);
            }
            if first.is_none() {
                first = met;
            }
            i += 1;
        }
        proof {
            assert(changes@.take(changes.len() as int) =~= changes@);
        }
        first
    }

    /// Reads the arrangements one after the other. Returns what was seen of
    /// each, and the first error that a read met.
    pub fn read_all(&mut self, watch: &Vec<ArrangementG>) -> (r: (Vec<Batch>, Option<Error>))
        requires
            old(self).wf(),
        ensures
            final(self).wf(),
            final(self)@ == read_all(old(self)@, watch@).0,
            r.0@.len() == watch@.len(),
            forall|j: int|
                0 <= j < watch@.len() ==> (#[trigger] r.0@[j])@ == read_all(old(self)@, watch@).1[j],
            read_all(old(self)@, watch@).1.len() == watch@.len(),
            r.1 == read_all(old(self)@, watch@).2,
            kinds_kept(old(self)@.graph, final(self)@.graph),
            fault_kept(old(self)@.graph, final(self)@.graph),
            all_arrangements_of(old(self)@, watch@) && r.1.is_some() ==> final(self)@.graph.fault
                == r.1,
    {
        let mut snaps: Vec<Batch> = Vec::new();
        let mut first: Option<Error> = None;
        let mut i: usize = 0;
        while i < watch.len()
            invariant
                0 <= i <= watch.len(),
                self.wf(),
                self@ == read_all(old(self)@, watch@.take(i as int)).0,
                first == read_all(old(self)@, watch@.take(i as int)).2,
                self.context_id == old(self).context_id,
                kinds_kept(old(self)@.graph, self@.graph),
                fault_kept(old(self)@.graph, self@.graph),
                all_arrangements_of(old(self)@, watch@) && first.is_some() ==> self@.graph.fault
                    == first,
                snaps@.len() == i,
                read_all(old(self)@, watch@.take(i as int)).1.len() == i,
                forall|j: int|
                    0 <= j < i ==> (#[trigger] snaps@[j])@ == read_all(
                        old(self)@,
                        watch@.take(i as int),
                    ).1[j],
            decreases watch.len() - i,
        {
            proof {
                assert(watch@.take(i as int + 1).drop_last() =~= watch@.take(i as int));
                assert(watch@.take(i as int + 1).last() == watch@[i as int]);
            }
            let ghost before = self@;
            proof {
                if all_arrangements_of(old(self)@, watch@) {
                    assert(old(self)@.has_arrangement(
                        watch@[i as int].context_id,
                        watch@[i as int].id,
                    ));
                    assert(before.has_arrangement(watch@[i as int].context_id, watch@[i as int].id));
                }
            }
            let (snap, err) = if self.has_arrangement(watch[i].context_id, watch[i].id) {
                match self.read_node(watch[i].context_id, watch[i].id) {
                    Ok(m) => (m.to_vec(), None),
                    Err(e) => (Vec::new(), Some(e)),
                }
            } else {
                (Vec::new(), Some(Error::ContextMismatch))
            };
            if first.is_none() {
                first = err;
            }
            snaps.push(snap);
            i += 1;
        }
        proof {
            assert(watch@.take(watch.len() as int) =~= watch@);
        }
        (snaps, first)
    }

    /// Makes changes for a while and says what was seen while they were in
    /// effect: the records of each of the given arrangements. Afterwards the
    /// changes are taken back, so that later readers see none of them. With
    /// inputs and arrangements of the context, only a clock that cannot
    /// advance and a fault of the graph stand in the way.
    pub fn with_temp_changes(&mut self, changes: &Vec<Change>, watch: &Vec<ArrangementG>) -> (r:
        Result<Vec<Batch>, Error>)
        requires
            old(self).wf(),
        ensures
            final(self).wf(),
            final(self)@ == old(self)@.with_temp_changes(changes@, watch@).0,
            match r {
                Ok(snaps) => match old(self)@.with_temp_changes(changes@, watch@).1 {
                    Ok(s) => snaps@.len() == s.len() && forall|j: int|
                        0 <= j < s.len() ==> (#[trigger] snaps@[j])@ == s[j],
                    Err(_) => false,
                },
                Err(e) => old(self)@.with_temp_changes(changes@, watch@).1 == Err::<
                    Seq<Seq<(Value, isize)>>,
                    Error,
                >(e),
            },
            kinds_kept(old(self)@.graph, final(self)@.graph),
            all_inputs_of(old(self)@, changes@) && all_arrangements_of(old(self)@, watch@) ==> (
            match r {
                Ok(_) => true,
                Err(e) => e == Error::ClockExhausted || final(self)@.graph.fault == Some(e),
            }),
    {
        if self.step > usize::MAX - 4 {
            return Err(Error::ClockExhausted);
        }
        let ghost c0 = self@;
        let id = self.step + 1;
        let prev = self.tracking_id;
        proof {
            crate::graph::lemma_within_later(self@.graph, self.step, id);
        }
        self.step = id;
        self.tracking_id = Some(id);
        let e2 = self.apply_changes(changes);
        proof {
            lemma_apply_changes_frame(c0.begun(), changes@);
            crate::graph::lemma_within_later(self@.graph, self.step, (self.step + 1) as usize);
        }
        self.tracking_id = prev;
        self.step = self.step + 1;
        let ghost c3 = self@;
        let (snaps, e4) = self.read_all(watch);
        proof {
            lemma_read_all_frame(c3, watch@);
            crate::graph::lemma_within_later(self@.graph, self.step, (self.step + 1) as usize);
        }
        self.step = self.step + 1;
        let r6 = self.undo_temp_changes(id);
        let e6 = match r6 {
            Ok(_) => None,
            Err(e) => Some(e),
        };
        let first = if e2.is_some() {
            e2
        } else if e4.is_some() {
            e4
        } else {
            e6
        };
        match first {
            Some(e) => Err(e),
            None => Ok(snaps),
        }
    }
}

} // verus!
