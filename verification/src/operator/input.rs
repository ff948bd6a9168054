//! The input source: a collection that the host program writes. Changes are
//! staged during a step and handed on when a later step asks for them.

use crate::map::{
    add_all, add_items, group_add, group_of, groups_wf, items_wf, lemma_add_all_wf, remove_items,
    Batch, GroupMap, Groups, WeightMap,
};
use crate::monoid::Emptyable;
use crate::monoid::{wneg};
use crate::operator::Op;
use crate::value::Value;
use vstd::prelude::*;

verus! {

/// The state of an input: the buffer that is open for the current step, the
/// buffer that waits to be consumed, the step of each, and for each tracking
/// id the changes that were made under it.
pub struct InputInner {
    /// The step during which what waits was last changed; none for an input
    /// of which nothing was ever handed over to wait.
    pub pending_step: Option<usize>,
    pub adding_step: usize,
    pub pending: WeightMap,
    pub adding: WeightMap,
    pub mirrors: GroupMap,
}

pub struct InputView {
    pub pending_step: Option<usize>,
    pub adding_step: usize,
    pub pending: Seq<(Value, isize)>,
    pub adding: Seq<(Value, isize)>,
    pub mirrors: Groups,
}

impl View for InputInner {
    type V = InputView;

    open spec fn view(&self) -> InputView {
        InputView {
            pending_step: self.pending_step,
            adding_step: self.adding_step,
            pending: self.pending@,
            adding: self.adding@,
            mirrors: self.mirrors@,
        }
    }
}

/// Every record of a batch with its weight negated.
pub open spec fn negated(batch: Seq<(Value, isize)>) -> Seq<(Value, isize)> {
    Seq::new(batch.len(), |j: int| (batch[j].0, wneg(batch[j].1)))
}

impl InputView {
    /// What waits was last changed before the step of the open buffer.
    pub open spec fn steps_ordered(self) -> bool {
        self.pending_step.is_some() ==> self.pending_step.unwrap() < self.adding_step
    }

    pub open spec fn wf(self) -> bool {
        items_wf(self.pending) && items_wf(self.adding) && groups_wf(self.mirrors)
            && self.steps_ordered()
    }

    pub open spec fn fresh() -> InputView {
        InputView {
            pending_step: None,
            adding_step: 0,
            pending: Seq::empty(),
            adding: Seq::empty(),
            mirrors: Seq::empty(),
        }
    }

    /// The input brought to a step. Where the step is later than that of the
    /// open buffer, a buffer that holds anything is folded into the waiting
    /// one, which takes over its step; a step without changes leaves no
    /// trace. An earlier step changes nothing.
    pub open spec fn resolved(self, step: usize) -> InputView {
        if self.adding_step < step {
            if self.adding.len() > 0 {
                InputView {
                    pending_step: Some(self.adding_step),
                    adding_step: step,
                    pending: add_all(self.pending, self.adding),
                    adding: Seq::empty(),
                    mirrors: self.mirrors,
                }
            } else {
                InputView { adding_step: step, ..self }
            }
        } else {
            self
        }
    }

    /// The input after a change was written at a step.
    pub open spec fn updated(self, step: usize, tracking: Option<usize>, x: Value, r: isize) -> InputView {
        let v = self.resolved(step);
        InputView {
            adding: add_items(v.adding, x, r),
            mirrors: match tracking {
                Some(id) => group_add(v.mirrors, Value::Nat(id), x, r),
                None => v.mirrors,
            },
            ..v
        }
    }

    /// The input after the changes made under a tracking id were taken back
    /// at a step.
    pub open spec fn undone(self, step: usize, id: usize) -> InputView {
        let v = self.resolved(step);
        InputView {
            adding: add_all(v.adding, negated(group_of(v.mirrors, Value::Nat(id)))),
            mirrors: remove_items(v.mirrors, Value::Nat(id)),
            ..v
        }
    }

    /// The input after it has handed on what was waiting at a step.
    pub open spec fn drained(self, step: usize) -> InputView {
        InputView { pending: Seq::empty(), ..self.resolved(step) }
    }
}

pub proof fn lemma_resolved_wf(v: InputView, step: usize)
    requires
        v.wf(),
    ensures
        v.resolved(step).wf(),
{
    lemma_add_all_wf(v.pending, v.adding);
}

impl InputInner {
    pub open spec fn wf(&self) -> bool {
        self@.wf()
    }

    pub fn new() -> (i: Self)
        ensures
            i@ == InputView::fresh(),
            i.wf(),
    {
        InputInner {
            pending_step: None,
            adding_step: 0,
            pending: WeightMap::new(),
            adding: WeightMap::new(),
            mirrors: GroupMap::new(),
        }
    }

    /// Brings the input to a step that it has not passed.
    pub fn resolve(&mut self, step: usize)
        requires
            old(self).wf(),
            step >= old(self).adding_step,
        ensures
            final(self).wf(),
            final(self)@ == old(self)@.resolved(step),
    {
        if self.adding_step < step {
            if !self.adding.is_empty() {
                self.pending_step = Some(self.adding_step);
                let moved = self.adding.steal();
                proof {
                    lemma_add_all_wf(self.pending@, moved@);
                }
                self.pending.add_batch(&moved);
            }
            self.adding_step = step;
        }
    }

    /// Hands on what is waiting at a step that the input has not passed.
    pub fn flow(&mut self, step: usize) -> (out: Batch)
        requires
            old(self).wf(),
            step >= old(self).adding_step,
        ensures
            final(self).wf(),
            out@ == old(self)@.resolved(step).pending,
            final(self)@ == old(self)@.drained(step),
    {
        self.resolve(step);
        self.pending.steal()
    }

    /// The last step during which the input was changed, as it is known at
    /// the given step, which the input has not passed; none where the input
    /// was never changed before that step.
    pub fn latest_update(&mut self, step: usize) -> (r: Option<usize>)
        requires
            old(self).wf(),
            step >= old(self).adding_step,
        ensures
            final(self).wf(),
            final(self)@ == old(self)@.resolved(step),
            r == final(self).pending_step,
    {
        self.resolve(step);
        self.pending_step
    }

    /// Writes a change at a step that the input has not passed; under a
    /// tracking id the change is recorded for that id as well.
    pub fn update(&mut self, step: usize, tracking: Option<usize>, x: Value, r: isize)
        requires
            old(self).wf(),
            step >= old(self).adding_step,
        ensures
            final(self).wf(),
            final(self)@ == old(self)@.updated(step, tracking, x, r),
    {
        self.resolve(step);
        match tracking {
            Some(id) => {
                self.mirrors.add(Value::Nat(id), x.clone(), r);
            },
            None => {},
        }
        self.adding.add(x, r);
    }

    /// Takes back, at a step that the input has not passed, the changes that
    /// were made under a tracking id.
    pub fn undo_changes(&mut self, step: usize, tracking_id: usize)
        requires
            old(self).wf(),
            step >= old(self).adding_step,
        ensures
            final(self).wf(),
            final(self)@ == old(self)@.undone(step, tracking_id),
    {
        self.resolve(step);
        let key = Value::Nat(tracking_id);
        let changes = match self.mirrors.remove(&key) {
            Some(m) => m.to_vec(),
            None => Vec::new(),
        };
        let ghost back = negated(changes@);
        let ghost start = self.adding@;
        let mut i: usize = 0;
        while i < changes.len()
            invariant
                0 <= i <= changes.len(),
                self.wf(),
                back == negated(changes@),
                self.pending_step == old(self)@.resolved(step).pending_step,
                self.adding_step == old(self)@.resolved(step).adding_step,
                self.pending@ == old(self)@.resolved(step).pending,
                self.mirrors@ == remove_items(old(self)@.resolved(step).mirrors, key),
                self.adding@ == add_all(start, back.take(i as int)),
            decreases changes.len() - i,
        {
            proof {
                assert(back.take(i as int + 1).drop_last() =~= back.take(i as int));
            }
            self.adding.add(changes[i].0.clone(), 0isize.wrapping_sub(changes[i].1));
            i += 1;
        }
        proof {
            assert(back.take(changes.len() as int) =~= back);
        }
    }
}

impl Op for InputInner {
    open spec fn hideable_spec() -> bool {
        true
    }

    open spec fn op_name_spec() -> Seq<char> {
        "input"@
    }

    fn hideable() -> (b: bool) {
        true
    }

    fn default_op_name() -> (name: &'static str) {
        "input"
    }
}

} // verus!
