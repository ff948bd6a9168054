//! An embedded differential dataflow engine.
//!
//! A host program declares a graph of relational operators over weighted
//! multisets of records, feeds changes into inputs, and reads the incrementally
//! maintained results from arrangements. Only deltas flow through the graph.
//!
//! Records are [`Value`]s and weights are `isize` multiplicities that add and
//! multiply with wrap-around, so that they form a commutative ring.
//!
//! The graph lives in a context. A [`CreationContext`] builds it: inputs are
//! made, and relations are composed by putting operators on top of them.
//! `begin` turns it into an [`ExecutionContext`], which owns the clock:
//! changes that are written to an input during a step are seen by readers
//! after the next `commit`.
//!
//! What a pull does to the graph is said by the functions of [`graph`], which
//! the executable pull is proved to follow. What holds of the engine whatever
//! it is fed is proved in [`freshness`], [`laws`], [`consistency`],
//! [`triangle_laws`], [`symmetry`], [`idempotence`], [`incremental`],
//! [`reading`] and [`mapped`], on the algebra of [`weights`], [`ring`] and
//! [`image`].
//!
//! A handle belongs to the context that made it. The functions that take a
//! handle demand that of their caller; `check`, `has_input` and their like
//! tell a caller that cannot show it.

pub mod access;
pub mod arrangement;
pub mod borrow;
pub mod builder;
pub mod consistency;
pub mod context;
pub mod convenience_operators;
pub mod dot;
pub mod error;
pub mod feedback;
pub mod freshness;
pub mod function;
pub mod graph;
pub mod idempotence;
pub mod image;
pub mod incremental;
pub mod is_map;
pub mod iter;
pub mod key;
pub mod laws;
pub mod maker;
pub mod map;
pub mod mapped;
pub mod monoid;
pub mod node;
pub mod operator;
pub mod output;
pub mod reading;
pub mod relation;
pub mod ring;
pub mod step;
pub mod subgraph;
pub mod symmetry;
pub mod temporary;
pub mod triangle_laws;
pub mod tuple;
pub mod value;
pub mod weights;

pub use arrangement::{Arranged, Arrangement, ArrangementG};
pub use context::{CreationContext, ExecutionContext, Input};
pub use error::Error;
pub use feedback::{FeedbackContext, FeedbackCreationContext, IsFeedbackContext};
pub use function::{Function, NoFunction};
pub use map::{Batch, GroupMap, WeightMap};
pub use monoid::{Emptyable, Monoid};
pub use operator::split::Receiver;
pub use operator::Op;
pub use output::{IsReduce, ReduceOutput};
pub use relation::Relation;
pub use temporary::Change;
pub use value::Value;
