//! Consolidate: a batch is added up before it is sent on, so that every
//! record occurs once, and none with weight zero.

use crate::map::{add_all, Batch, WeightMap};
use crate::operator::Op;
use vstd::prelude::*;

verus! {

pub struct Consolidate {
    pub inner: usize,
}

impl Consolidate {
    pub fn flow(&self, batch: &Batch) -> (out: Batch)
        ensures
            out@ == add_all(Seq::empty(), batch@),
    {
        let mut m = WeightMap::new();
        m.add_batch(batch);
        m.steal()
    }
}

impl Op for Consolidate {
    open spec fn hideable_spec() -> bool {
        true
    }

    open spec fn op_name_spec() -> Seq<char> {
        "consolidate"@
    }

    fn hideable() -> (b: bool) {
        true
    }

    fn default_op_name() -> (name: &'static str) {
        "consolidate"
    }
}

} // verus!
