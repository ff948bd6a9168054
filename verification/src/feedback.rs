//! Feedback: connections that copy what an arrangement holds back into an
//! input, commit after commit, until nothing comes any more.

use crate::arrangement::{Arranged, ArrangedView, ArrangementG};
use crate::context::{CreationContext, ExecView, ExecutionContext, Input};
use crate::error::Error;
use crate::function::{min_key_of, Function};
use crate::map::{group_of, lifted, Batch};
use crate::temporary::{apply_changes, keep_first, read_all, Change};
use crate::value::Value;
use vstd::prelude::*;

verus! {

/// A link from an arrangement to an input. An ordered link copies what the
/// arrangement holds under its least key, any other link everything.
#[derive(Clone, Copy, Debug)]
pub struct Leaf {
    pub from: ArrangementG,
    pub to: Input,
    pub ordered: bool,
}

/// A connection of a feedback graph.
#[derive(Debug)]
pub enum Connection {
    /// Everything that the arrangement holds goes into the input.
    Leaf { from: ArrangementG, to: Input },
    /// What the arrangement holds under its least key goes into the input.
    Ordered { from: ArrangementG, to: Input },
    /// The feedback halts as soon as the arrangement holds anything.
    Interrupt(ArrangementG),
    /// All links are fed, one after the other, before the clock advances.
    Simul(Vec<Leaf>),
}

pub enum ConnectionView {
    Leaf { from: ArrangementG, to: Input },
    Ordered { from: ArrangementG, to: Input },
    Interrupt(ArrangementG),
    Simul(Seq<Leaf>),
}

impl View for Connection {
    type V = ConnectionView;

    open spec fn view(&self) -> ConnectionView {
        match self {
            Connection::Leaf { from, to } => ConnectionView::Leaf { from: *from, to: *to },
            Connection::Ordered { from, to } => ConnectionView::Ordered { from: *from, to: *to },
            Connection::Interrupt(a) => ConnectionView::Interrupt(*a),
            Connection::Simul(members) => ConnectionView::Simul(members@),
        }
    }
}

/// The views of connections.
pub open spec fn views(connections: Seq<Connection>) -> Seq<ConnectionView> {
    Seq::new(connections.len(), |j: int| connections[j]@)
}

/// The creation context of a graph with feedback.
pub struct FeedbackCreationContext<F> {
    pub context: CreationContext<F>,
    pub connections: Vec<Connection>,
}

/// The execution context of a graph with feedback.
pub struct FeedbackContext<F> {
    pub context: ExecutionContext<F>,
    pub connections: Vec<Connection>,
}

/// A look at a feedback context: its execution context and its connections.
pub struct FeedbackContextRef<'a, F> {
    pub context: &'a ExecutionContext<F>,
    pub connections: &'a Vec<Connection>,
}

/// What a connection feeds: of a leaf all records of the map, of an ordered
/// leaf those under the least key.
pub open spec fn fed_records(ordered: bool, m: ArrangedView) -> Seq<(Value, isize)> {
    if !ordered {
        m.records()
    } else {
        match m {
            ArrangedView::Flat(f) => seq![(min_key_of(f), crate::map::weight_of(f, min_key_of(f)))],
            ArrangedView::Grouped(g) => lifted(min_key_of(g), group_of(g, min_key_of(g))),
        }
    }
}

/// The context after every record was written to an input. A record that is
/// rejected is left out.
pub open spec fn update_all<F: Function>(c: ExecView<F>, to: Input, records: Seq<(Value, isize)>) -> ExecView<
    F,
>
    decreases records.len(),
{
    if records.len() == 0 {
        c
    } else {
        update_all(c, to, records.drop_last()).updated(to, records.last().0, records.last().1).0
    }
}

/// The context after a connection was fed, and whether anything was: the
/// arrangement is read, and if it holds anything, that goes into the input.
pub open spec fn feed<F: Function>(c: ExecView<F>, from: ArrangementG, to: Input, ordered: bool) -> (
    ExecView<F>,
    bool,
) {
    let (c1, r) = c.read(from.context_id, from.id);
    match r {
        Ok(m) => if m.is_empty() {
            (c1, false)
        } else {
            (update_all(c1, to, fed_records(ordered, m)), true)
        },
        Err(_) => (c1, false),
    }
}

/// The context after the links were fed one after the other, and whether
/// any of them fed anything.
pub open spec fn feed_members<F: Function>(c: ExecView<F>, members: Seq<Leaf>) -> (ExecView<F>, bool)
    decreases members.len(),
{
    if members.len() == 0 {
        (c, false)
    } else {
        let (c1, any) = feed_members(c, members.drop_last());
        let m = members.last();
        let (c2, fed) = feed(c1, m.from, m.to, m.ordered);
        (c2, any || fed)
    }
}

/// How a pass over the connections ends.
pub enum Pass<F> {
    /// An interrupt has met an arrangement that holds something.
    Halt(ExecView<F>),
    /// A connection has fed its input.
    Fed(ExecView<F>),
    /// No connection had anything to feed.
    Quiet(ExecView<F>),
}

/// A pass over the connections, in order, from the given one on: up to the
/// first interrupt that halts or the first connection that feeds.
pub open spec fn pass<F: Function>(c: ExecView<F>, connections: Seq<ConnectionView>, from: nat) -> Pass<
    F,
>
    decreases connections.len() - from,
{
    if from >= connections.len() {
        Pass::Quiet(c)
    } else {
        match connections[from as int] {
            ConnectionView::Interrupt(a) => {
                let (c1, r) = c.read(a.context_id, a.id);
                if r.is_ok() && !r.unwrap().is_empty() {
                    Pass::Halt(c1)
                } else {
                    pass(c1, connections, from + 1)
                }
            },
            ConnectionView::Leaf { from: a, to } => {
                let (c1, fed) = feed(c, a, to, false);
                if fed {
                    Pass::Fed(c1)
                } else {
                    pass(c1, connections, from + 1)
                }
            },
            ConnectionView::Ordered { from: a, to } => {
                let (c1, fed) = feed(c, a, to, true);
                if fed {
                    Pass::Fed(c1)
                } else {
                    pass(c1, connections, from + 1)
                }
            },
            ConnectionView::Simul(members) => {
                let (c1, fed) = feed_members(c, members);
                if fed {
                    Pass::Fed(c1)
                } else {
                    pass(c1, connections, from + 1)
                }
            },
        }
    }
}

/// The context after the passes that follow a commit, and whether they came
/// to an end: after every pass that fed, the clock advances and the next pass
/// begins; a pass that halts or feeds nothing is the last. Where the clock
/// cannot advance, the passes end without having come to rest.
pub open spec fn settle<F: Function>(c: ExecView<F>, connections: Seq<ConnectionView>, budget: nat) -> (
    ExecView<F>,
    bool,
)
    decreases budget,
{
    match pass(c, connections, 0) {
        Pass::Halt(c1) => (c1, true),
        Pass::Quiet(c1) => (c1, true),
        Pass::Fed(c1) => if budget == 0 || c1.step == usize::MAX {
            (c1, false)
        } else {
            settle(c1.committed(), connections, (budget - 1) as nat)
        },
    }
}

/// The context after a commit with feedback, and whether it came to rest.
pub open spec fn feedback_commit<F: Function>(c: ExecView<F>, connections: Seq<ConnectionView>) -> (
    ExecView<F>,
    bool,
) {
    if c.step == usize::MAX {
        (c, false)
    } else {
        settle(c.committed(), connections, usize::MAX as nat)
    }
}

/// A commit with feedback returns only when a full pass has fed nothing, or
/// an interrupt has halted it: where it came to rest, the context that it
/// leaves is that of a pass that ended quietly or at an interrupt.
pub proof fn lemma_feedback_fixed_point<F: Function>(
    c: ExecView<F>,
    connections: Seq<ConnectionView>,
    budget: nat,
)
    ensures
        settle(c, connections, budget).1 ==> exists|before: ExecView<F>|
            pass(before, connections, 0) == Pass::Quiet(settle(c, connections, budget).0) || pass(
                before,
                connections,
                0,
            ) == Pass::Halt(settle(c, connections, budget).0),
    decreases budget,
{
    match pass(c, connections, 0) {
        Pass::Halt(c1) => {
            assert(pass(c, connections, 0) == Pass::Halt(settle(c, connections, budget).0));
        },
        Pass::Quiet(c1) => {
            assert(pass(c, connections, 0) == Pass::Quiet(settle(c, connections, budget).0));
        },
        Pass::Fed(c1) => {
            if !(budget == 0 || c1.step == usize::MAX) {
                lemma_feedback_fixed_point(c1.committed(), connections, (budget - 1) as nat);
            }
        },
    }
}

/// What can tell whether it is empty as of the current step.
pub trait IsArrangement<F: Function> {
    spec fn id_spec(&self) -> (usize, usize);

    /// Whether the arrangement holds nothing as of the current step. A read
    /// that is rejected counts as empty.
    fn is_empty(&self, context: &mut ExecutionContext<F>) -> (b: bool)
        requires
            old(context).wf(),
        ensures
            final(context).wf(),
            final(context)@ == old(context)@.read(self.id_spec().0, self.id_spec().1).0,
            b == !(old(context)@.read(self.id_spec().0, self.id_spec().1).1.is_ok() && !old(
                context,
            )@.read(self.id_spec().0, self.id_spec().1).1.unwrap().is_empty()),
    ;
}

impl<F: Function> IsArrangement<F> for ArrangementG {
    open spec fn id_spec(&self) -> (usize, usize) {
        (self.context_id, self.id)
    }

    fn is_empty(&self, context: &mut ExecutionContext<F>) -> (b: bool) {
        if !context.has_arrangement(self.context_id, self.id) {
            return true;
        }
        match context.read_node(self.context_id, self.id) {
            Ok(m) => m.is_empty(),
            Err(_) => true,
        }
    }
}

impl<F: Function> FeedbackCreationContext<F> {
    pub open spec fn wf(self) -> bool {
        self.context.wf()
    }

    /// A creation context without connections.
    pub fn new(context: CreationContext<F>) -> (c: Self)
        ensures
            c.context == context,
            c.connections@.len() == 0,
    {
        FeedbackCreationContext { context, connections: Vec::new() }
    }

    pub fn get(&self) -> (c: &CreationContext<F>)
        ensures
            *c == self.context,
    {
        &self.context
    }

    /// The creation context, to build the graph in it.
    pub fn get_mut(&mut self) -> (c: &mut CreationContext<F>)
        ensures
            *c == old(self).context,
            final(self).context == *final(c),
            final(self).connections == old(self).connections,
    {
        &mut self.context
    }

    /// Adds a connection that feeds all the given links before the clock
    /// advances.
    pub fn together(&mut self, members: Vec<Leaf>)
        ensures
            final(self).context == old(self).context,
            views(final(self).connections@) == views(old(self).connections@).push(
                ConnectionView::Simul(members@),
            ),
    {
        self.connections.push(Connection::Simul(members));
        proof {
            assert(views(self.connections@) =~= views(old(self).connections@).push(
                ConnectionView::Simul(members@),
            ));
        }
    }

    /// Ends the building of the graph.
    pub fn begin_feedback(self) -> (c: FeedbackContext<F>)
        requires
            self.wf(),
        ensures
            c.context@ == (ExecView {
                step: 0,
                context_id: self.context.context_id,
                graph: self.context.graph(),
                tracking_id: None,
                watched: Seq::empty(),
            }),
            c.connections == self.connections,
            c.context.wf(),
    {
        FeedbackContext { context: self.context.begin(), connections: self.connections }
    }
}

impl ArrangementG {
    /// Connects the arrangement to an input: in every pass, all that the
    /// arrangement holds goes into the input.
    pub fn feedback_gen<F: Function>(self, inp: Input, context: &mut FeedbackCreationContext<F>)
        ensures
            final(context).context == old(context).context,
            views(final(context).connections@) == views(old(context).connections@).push(
                ConnectionView::Leaf { from: self, to: inp },
            ),
    {
        context.connections.push(Connection::Leaf { from: self, to: inp });
        proof {
            assert(views(context.connections@) =~= views(old(context).connections@).push(
                ConnectionView::Leaf { from: self, to: inp },
            ));
        }
    }

    /// Connects the arrangement to an input, step by step: in every pass,
    /// what the arrangement holds under its least key goes into the input.
    pub fn step_feedback_gen<F: Function>(self, inp: Input, context: &mut FeedbackCreationContext<F>)
        ensures
            final(context).context == old(context).context,
            views(final(context).connections@) == views(old(context).connections@).push(
                ConnectionView::Ordered { from: self, to: inp },
            ),
    {
        context.connections.push(Connection::Ordered { from: self, to: inp });
        proof {
            assert(views(context.connections@) =~= views(old(context).connections@).push(
                ConnectionView::Ordered { from: self, to: inp },
            ));
        }
    }

    /// As `feedback_gen`.
    pub fn feedback<F: Function>(self, inp: Input, context: &mut FeedbackCreationContext<F>)
        ensures
            final(context).context == old(context).context,
            views(final(context).connections@) == views(old(context).connections@).push(
                ConnectionView::Leaf { from: self, to: inp },
            ),
    {
        self.feedback_gen(inp, context)
    }

    /// As `step_feedback_gen`.
    pub fn step_feedback<F: Function>(self, inp: Input, context: &mut FeedbackCreationContext<F>)
        ensures
            final(context).context == old(context).context,
            views(final(context).connections@) == views(old(context).connections@).push(
                ConnectionView::Ordered { from: self, to: inp },
            ),
    {
        self.step_feedback_gen(inp, context)
    }

    /// Makes the arrangement an interrupt: the feedback halts as soon as the
    /// arrangement holds anything.
    pub fn interrupt<F: Function>(self, context: &mut FeedbackCreationContext<F>)
        ensures
            final(context).context == old(context).context,
            views(final(context).connections@) == views(old(context).connections@).push(
                ConnectionView::Interrupt(self),
            ),
    {
        context.connections.push(Connection::Interrupt(self));
        proof {
            assert(views(context.connections@) =~= views(old(context).connections@).push(
                ConnectionView::Interrupt(self),
            ));
        }
    }
}

/// The records that a connection feeds, of a map that holds something.
pub fn records_to_feed(ordered: bool, m: &Arranged) -> (out: Batch)
    requires
        m.wf(),
        !m@.is_empty(),
    ensures
        out@ == fed_records(ordered, m@),
{
    if !ordered {
        m.to_vec()
    } else {
        match m {
            Arranged::Flat(f) => {
                let k = f.min_key().unwrap();
                proof {
                    crate::function::lemma_extreme_key_unique(f@, k);
                }
                let w = f.get(&k);
                vec![(k, w)]
            },
            Arranged::Grouped(g) => {
                let k = g.min_key().unwrap();
                proof {
                    crate::function::lemma_extreme_key_unique(g@, k);
                }
                match g.get(&k) {
                    Some(bucket) => bucket.lift(&k),
                    None => Vec::new(),
                }
            },
        }
    }
}

impl<F: Function> ExecutionContext<F> {
    /// Writes every record to an input.
    pub fn update_all(&mut self, to: &Input, records: &Batch)
        requires
            old(self).wf(),
        ensures
            final(self).wf(),
            final(self)@ == update_all(old(self)@, *to, records@),
    {
        let mut i: usize = 0;
        while i < records.len()
            invariant
                0 <= i <= records.len(),
                self.wf(),
                self@ == update_all(old(self)@, *to, records@.take(i as int)),
            decreases records.len() - i,
        {
            proof {
                assert(records@.take(i as int + 1).drop_last() =~= records@.take(i as int));
                assert(records@.take(i as int + 1).last() == records@[i as int]);
            }
            if self.has_input(to) {
                self.update(to, records[i].0.clone(), records[i].1);
            }
            i += 1;
        }
        proof {
            assert(records@.take(records.len() as int) =~= records@);
        }
    }

    /// Feeds a connection: reads the arrangement and, if it holds anything,
    /// writes that to the input.
    pub fn feed(&mut self, from: &ArrangementG, to: &Input, ordered: bool) -> (fed: bool)
        requires
            old(self).wf(),
        ensures
            final(self).wf(),
            (final(self)@, fed) == feed(old(self)@, *from, *to, ordered),
    {
        if !self.has_arrangement(from.context_id, from.id) {
            return false;
        }
        let records = match self.read_node(from.context_id, from.id) {
            Ok(m) => {
                if m.is_empty() {
                    None
                } else {
                    Some(records_to_feed(ordered, m))
                }
            },
            Err(_) => None,
        };
        match records {
            Some(rs) => {
                self.update_all(to, &rs);
                true
            },
            None => false,
        }
    }
}

impl<F: Function> ExecutionContext<F> {
    /// Feeds the links one after the other. Says whether any of them fed
    /// anything.
    pub fn feed_members(&mut self, members: &Vec<Leaf>) -> (any: bool)
        requires
            old(self).wf(),
        ensures
            final(self).wf(),
            (final(self)@, any) == feed_members(old(self)@, members@),
    {
        let mut any = false;
        let mut i: usize = 0;
        while i < members.len()
            invariant
                0 <= i <= members.len(),
                self.wf(),
                (self@, any) == feed_members(old(self)@, members@.take(i as int)),
            decreases members.len() - i,
        {
            proof {
                assert(members@.take(i as int + 1).drop_last() =~= members@.take(i as int));
                assert(members@.take(i as int + 1).last() == members@[i as int]);
            }
            let fed = self.feed(&members[i].from, &members[i].to, members[i].ordered);
            any = any || fed;
            i += 1;
        }
        proof {
            assert(members@.take(members.len() as int) =~= members@);
        }
        any
    }
}

/// How a pass has ended.
#[derive(Clone, Copy, PartialEq, Eq, Structural, Debug)]
pub enum Ending {
    Halt,
    Fed,
    Quiet,
}

/// The ending of a pass, and the context that it leaves.
pub open spec fn ending_of<F>(p: Pass<F>) -> (Ending, ExecView<F>) {
    match p {
        Pass::Halt(c) => (Ending::Halt, c),
        Pass::Fed(c) => (Ending::Fed, c),
        Pass::Quiet(c) => (Ending::Quiet, c),
    }
}

/// What has a feedback loop around its clock.
pub trait IsFeedbackContext<F: Function> {
    spec fn context_spec(&self) -> ExecView<F>;

    spec fn connections_spec(&self) -> Seq<ConnectionView>;

    fn get(&self) -> (c: &ExecutionContext<F>)
        ensures
            c@ == self.context_spec(),
    ;

    /// Advances the clock, and then lets the connections feed their inputs,
    /// pass after pass, with a step of the clock after every pass that fed,
    /// until a pass feeds nothing or an interrupt halts it. Says whether it
    /// came to rest: it does not where the clock cannot advance.
    fn commit(&mut self) -> (rested: bool)
        requires
            old(self).context_spec().wf(),
        ensures
            final(self).context_spec().wf(),
            final(self).connections_spec() == old(self).connections_spec(),
            (final(self).context_spec(), rested) == feedback_commit(
                old(self).context_spec(),
                old(self).connections_spec(),
            ),
    ;

    /// Makes changes for a while and says what was seen while they were in
    /// effect. The feedback runs before the changes, with the changes, and
    /// after the reading; then the changes are taken back.
    fn with_temp_changes(&mut self, changes: &Vec<Change>, watch: &Vec<ArrangementG>) -> (r:
        Result<Vec<Batch>, Error>)
        requires
            old(self).context_spec().wf(),
        ensures
            final(self).context_spec().wf(),
            final(self).connections_spec() == old(self).connections_spec(),
            final(self).context_spec() == feedback_temp(
                old(self).context_spec(),
                old(self).connections_spec(),
                changes@,
                watch@,
            ).0,
            match r {
                Ok(snaps) => match feedback_temp(
                    old(self).context_spec(),
                    old(self).connections_spec(),
                    changes@,
                    watch@,
                ).1 {
                    Ok(s) => snaps@.len() == s.len() && forall|j: int|
                        0 <= j < s.len() ==> (#[trigger] snaps@[j])@ == s[j],
                    Err(_) => false,
                },
                Err(e) => feedback_temp(
                    old(self).context_spec(),
                    old(self).connections_spec(),
                    changes@,
                    watch@,
                ).1 == Err::<Seq<Seq<(Value, isize)>>, Error>(e),
            },
    ;
}

impl<F: Function> FeedbackContext<F> {
    pub open spec fn wf(self) -> bool {
        self.context.wf()
    }

    /// A look at the context and its connections.
    pub fn as_ref(&self) -> (r: FeedbackContextRef<'_, F>)
        ensures
            *r.context == self.context,
            *r.connections == self.connections,
    {
        FeedbackContextRef { context: &self.context, connections: &self.connections }
    }

    /// The execution context, to write to inputs and to read.
    pub fn get_mut(&mut self) -> (c: &mut ExecutionContext<F>)
        ensures
            *c == old(self).context,
            final(self).context == *final(c),
            final(self).connections == old(self).connections,
    {
        &mut self.context
    }

    /// A pass over the connections: up to the first interrupt that halts or
    /// the first connection that feeds.
    pub fn pass(&mut self) -> (e: Ending)
        requires
            old(self).wf(),
        ensures
            final(self).wf(),
            final(self).connections@ == old(self).connections@,
            (e, final(self).context@) == ending_of(
                pass(old(self).context@, views(old(self).connections@), 0),
            ),
    {
        let mut i: usize = 0;
        while i < self.connections.len()
            invariant
                0 <= i <= self.connections.len(),
                self.wf(),
                self.connections@ == old(self).connections@,
                pass(old(self).context@, views(old(self).connections@), 0) == pass(
                    self.context@,
                    views(self.connections@),
                    i as nat,
                ),
            decreases self.connections.len() - i,
        {
            proof {
                assert(views(self.connections@)[i as int] == self.connections@[i as int]@);
            }
            let fed = match &self.connections[i] {
                Connection::Interrupt(a) => {
                    if !a.is_empty(&mut self.context) {
                        return Ending::Halt;
                    }
                    false
                },
                Connection::Leaf { from, to } => self.context.feed(from, to, false),
                Connection::Ordered { from, to } => self.context.feed(from, to, true),
                Connection::Simul(members) => self.context.feed_members(members),
            };
            if fed {
                return Ending::Fed;
            }
            i += 1;
        }
        Ending::Quiet
    }
}

/// The context after the changes of a tracking id were taken back, where the
/// clock can still advance; else the context as it is.
pub open spec fn undo_or_stay<F: Function>(c: ExecView<F>, id: usize) -> (ExecView<F>, Option<Error>) {
    if c.step == usize::MAX {
        (c, Some(Error::ClockExhausted))
    } else {
        c.rolled_back(id)
    }
}

/// The context after changes were made for a while in a context with
/// feedback, and what was seen while they were in effect. A commit with
/// feedback comes first; the changes are written under a fresh tracking id
/// and a commit with feedback follows; the arrangements are read and a commit
/// with feedback follows; then the changes are taken back. Where a commit
/// does not come to rest, what was changed so far is taken back and nothing
/// is seen.
pub open spec fn feedback_temp<F: Function>(
    c0: ExecView<F>,
    connections: Seq<ConnectionView>,
    changes: Seq<Change>,
    watch: Seq<ArrangementG>,
) -> (ExecView<F>, Result<Seq<Seq<(Value, isize)>>, Error>) {
    let (c1, ok1) = feedback_commit(c0, connections);
    if !ok1 || c1.step == usize::MAX {
        (c1, Err(Error::ClockExhausted))
    } else {
        let id = (c1.step + 1) as usize;
        let (c3, e2) = apply_changes(c1.begun(), changes);
        let (c4, ok4) = feedback_commit(c3, connections);
        let c5 = ExecView { tracking_id: c1.tracking_id, ..c4 };
        if !ok4 {
            (undo_or_stay(c5, id).0, Err(Error::ClockExhausted))
        } else {
            let (c6, snaps, e4) = read_all(c5, watch);
            let (c7, ok7) = feedback_commit(c6, connections);
            let (c8, e6) = undo_or_stay(c7, id);
            (
                c8,
                if !ok7 {
                    Err(Error::ClockExhausted)
                } else {
                    match keep_first(keep_first(e2, e4), e6) {
                        Some(e) => Err(e),
                        None => Ok(snaps),
                    }
                },
            )
        }
    }
}

impl<F: Function> IsFeedbackContext<F> for FeedbackContext<F> {
    open spec fn context_spec(&self) -> ExecView<F> {
        self.context@
    }

    open spec fn connections_spec(&self) -> Seq<ConnectionView> {
        views(self.connections@)
    }

    fn get(&self) -> (c: &ExecutionContext<F>) {
        &self.context
    }

    fn commit(&mut self) -> (rested: bool) {
        if self.context.step == usize::MAX {
            return false;
        }
        proof {
            crate::graph::lemma_within_later(
                self.context@.graph,
                self.context.step,
                (self.context.step + 1) as usize,
            );
        }
        self.context.step = self.context.step + 1;
        let mut budget: usize = usize::MAX;
        loop
            invariant
                self.wf(),
                self.connections@ == old(self).connections@,
                feedback_commit(old(self).context@, views(old(self).connections@)) == settle(
                    self.context@,
                    views(self.connections@),
                    budget as nat,
                ),
            decreases budget,
        {
            let e = self.pass();
            match e {
                Ending::Halt => {
                    return true;
                },
                Ending::Quiet => {
                    return true;
                },
                Ending::Fed => {
                    if budget == 0 || self.context.step == usize::MAX {
                        return false;
                    }
                    proof {
                        crate::graph::lemma_within_later(
                            self.context@.graph,
                            self.context.step,
                            (self.context.step + 1) as usize,
                        );
                    }
                    self.context.step = self.context.step + 1;
                    budget = budget - 1;
                },
            }
        }
    }

    #[verifier::rlimit(100)]
    #[verifier::spinoff_prover]
    fn with_temp_changes(&mut self, changes: &Vec<Change>, watch: &Vec<ArrangementG>) -> (r:
        Result<Vec<Batch>, Error>)
    {
        let ghost c0 = self.context@;
        let ghost conns = views(self.connections@);
        if !self.commit() {
            return Err(Error::ClockExhausted);
        }
        let ghost c1 = self.context@;
        let prev = match self.context.begin_temp_changes() {
            Ok(p) => p,
            Err(e) => {
                return Err(Error::ClockExhausted);
            },
        };
        let id = self.context.step;
        let e2 = self.context.apply_changes(changes);
        let rested = self.commit();
        self.context.set_tracking_id(prev);
        if !rested {
            let _ = self.context.undo_temp_changes(id);
            return Err(Error::ClockExhausted);
        }
        let (snaps, e4) = self.context.read_all(watch);
        let rested = self.commit();
        let r6 = self.context.undo_temp_changes(id);
        if !rested {
            return Err(Error::ClockExhausted);
        }
        let e6 = match r6 {
            Ok(_) => None,
            Err(e) => Some(e),
        };
        let first = if e2.is_some() {
            e2
        } else if e4.is_some() {
            e4
        } else {
            e6
        };
        match first {
            Some(e) => Err(e),
            None => Ok(snaps),
        }
    }
}

} // verus!
