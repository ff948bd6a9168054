//! The operators of the graph: each holds its state and says, for the
//! batches that its upstream delivers, what it sends on.

pub mod barrier;
pub mod concat;
pub mod consolidate;
pub mod dynamic;
pub mod input;
pub mod join;
pub mod map;
pub mod reduce;
pub mod split;
pub mod subgraph;
pub mod triangles;

use vstd::prelude::*;

verus! {

/// What every operator has: whether it may be hidden in a picture of the
/// graph, and the name it is shown under.
pub trait Op {
    spec fn hideable_spec() -> bool;

    spec fn op_name_spec() -> Seq<char>;

    fn hideable() -> (b: bool)
        ensures
            b == Self::hideable_spec(),
    ;

    fn default_op_name() -> (name: &'static str)
        ensures
            name@ == Self::op_name_spec(),
    ;
}

/// The concatenation of two batches.
pub fn append_batch(out: &mut crate::map::Batch, more: crate::map::Batch)
    ensures
        final(out)@ == old(out)@ + more@,
{
    let mut more = more;
    out.append(&mut more);
}

} // verus!
