//! Logical time. The clock of a context counts its commits; inside a
//! recursive subgraph a step is extended by the round of the subgraph.

use vstd::prelude::*;

verus! {

/// A timestamp: the step of the context, followed by the round of each
/// subgraph on the way in, outermost first.
#[derive(Debug)]
pub enum Step {
    Last(usize),
    More(usize, Box<Step>),
}

/// The components of a timestamp, outermost first.
pub open spec fn components(s: Step) -> Seq<usize>
    decreases s,
{
    match s {
        Step::Last(n) => seq![n],
        Step::More(n, rest) => seq![n] + components(*rest),
    }
}

/// Strictly earlier: smaller at the first component that differs, or a
/// proper prefix of the other.
pub open spec fn step_lt(a: Step, b: Step) -> bool
    decreases a,
{
    match (a, b) {
        (Step::Last(x), Step::Last(y)) => x < y,
        (Step::Last(x), Step::More(y, _)) => x <= y,
        (Step::More(x, _), Step::Last(y)) => x < y,
        (Step::More(x, ra), Step::More(y, rb)) => x < y || (x == y && step_lt(*ra, *rb)),
    }
}

/// Not later, as far as both reach: smaller at the first component that
/// differs, or equal on all that both have.
pub open spec fn step_le(a: Step, b: Step) -> bool
    decreases a,
{
    match (a, b) {
        (Step::Last(x), Step::Last(y)) => x <= y,
        (Step::Last(x), Step::More(y, _)) => x <= y,
        (Step::More(x, _), Step::Last(y)) => x <= y,
        (Step::More(x, ra), Step::More(y, rb)) => x < y || (x == y && step_le(*ra, *rb)),
    }
}

/// The timestamp extended by one component.
pub open spec fn appended(s: Step, round: usize) -> Step
    decreases s,
{
    match s {
        Step::Last(n) => Step::More(n, Box::new(Step::Last(round))),
        Step::More(n, rest) => Step::More(n, Box::new(appended(*rest, round))),
    }
}

/// Extending a timestamp appends to its components.
pub proof fn lemma_appended_components(s: Step, round: usize)
    ensures
        components(appended(s, round)) == components(s).push(round),
    decreases s,
{
    match s {
        Step::Last(n) => {
            assert(components(Step::Last(round)) == seq![round]);
            assert(seq![n] + seq![round] =~= seq![n].push(round));
        },
        Step::More(n, rest) => {
            lemma_appended_components(*rest, round);
            assert(seq![n] + components(*rest).push(round) =~= (seq![n] + components(
                *rest,
            )).push(round));
        },
    }
}

/// A timestamp is earlier than each of its extensions, and an extension by a
/// later round is later.
pub proof fn lemma_appended_order(s: Step, r1: usize, r2: usize)
    ensures
        step_lt(s, appended(s, r1)),
        r1 < r2 ==> step_lt(appended(s, r1), appended(s, r2)),
        step_le(s, appended(s, r1)),
        step_le(appended(s, r1), s),
    decreases s,
{
    match s {
        Step::Last(n) => {
            assert(step_lt(Step::Last(r1), Step::Last(r2)) == (r1 < r2));
        },
        Step::More(n, rest) => {
            lemma_appended_order(*rest, r1, r2);
        },
    }
}

impl Clone for Step {
    fn clone(&self) -> (r: Self)
        ensures
            r == *self,
        decreases self,
    {
        match self {
            Step::Last(n) => Step::Last(*n),
            Step::More(n, rest) => Step::More(*n, Box::new((**rest).clone())),
        }
    }
}

impl Step {
    /// The step of the context: the outermost component.
    pub open spec fn root_spec(self) -> usize {
        match self {
            Step::Last(n) => n,
            Step::More(n, _) => n,
        }
    }

    pub fn root(&self) -> (n: usize)
        ensures
            n == self.root_spec(),
    {
        match self {
            Step::Last(n) => *n,
            Step::More(n, _) => *n,
        }
    }

    /// The number of subgraphs the timestamp is nested in.
    pub fn depth(&self) -> (d: usize)
        ensures
            d == if components(*self).len() - 1 > usize::MAX {
                usize::MAX as int
            } else {
                components(*self).len() - 1
            },
        decreases self,
    {
        match self {
            Step::Last(_) => 0,
            Step::More(_, rest) => {
                let d = rest.depth();
                if d < usize::MAX {
                    d + 1
                } else {
                    usize::MAX
                }
            },
        }
    }

    /// The component at a depth; zero where the timestamp does not reach it.
    pub fn step_for(&self, depth: usize) -> (n: usize)
        ensures
            n == if depth < components(*self).len() {
                components(*self)[depth as int]
            } else {
                0
            },
        decreases self,
    {
        match self {
            Step::Last(n) => if depth == 0 {
                *n
            } else {
                0
            },
            Step::More(n, rest) => if depth == 0 {
                *n
            } else {
                rest.step_for(depth - 1)
            },
        }
    }

    /// The timestamp one level further in, at the given round.
    pub fn append(&self, round: usize) -> (r: Step)
        ensures
            r == appended(*self, round),
            r.root_spec() == self.root_spec(),
        decreases self,
    {
        match self {
            Step::Last(n) => Step::More(*n, Box::new(Step::Last(round))),
            Step::More(n, rest) => Step::More(*n, Box::new(rest.append(round))),
        }
    }

    /// Whether this timestamp is strictly earlier than the other.
    pub fn before(&self, other: &Step) -> (b: bool)
        ensures
            b == step_lt(*self, *other),
        decreases self,
    {
        match (self, other) {
            (Step::Last(x), Step::Last(y)) => *x < *y,
            (Step::Last(x), Step::More(y, _)) => *x <= *y,
            (Step::More(x, _), Step::Last(y)) => *x < *y,
            (Step::More(x, ra), Step::More(y, rb)) => *x < *y || (*x == *y && ra.before(rb)),
        }
    }

    /// Whether this timestamp is not later than the other, as far as both
    /// reach.
    pub fn not_after(&self, other: &Step) -> (b: bool)
        ensures
            b == step_le(*self, *other),
        decreases self,
    {
        match (self, other) {
            (Step::Last(x), Step::Last(y)) => *x <= *y,
            (Step::Last(x), Step::More(y, _)) => *x <= *y,
            (Step::More(x, _), Step::Last(y)) => *x <= *y,
            (Step::More(x, ra), Step::More(y, rb)) => *x < *y || (*x == *y && ra.not_after(rb)),
        }
    }
}

} // verus!
