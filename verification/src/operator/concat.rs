//! Concat: what either upstream delivers is sent on.

use crate::map::Batch;
use crate::operator::Op;
use vstd::prelude::*;

verus! {

pub struct Concat {
    pub left: usize,
    pub right: usize,
}

impl Concat {
    pub fn flow(&self, left: Batch, right: Batch) -> (out: Batch)
        ensures
            out@ == left@ + right@,
    {
        let mut out = left;
        crate::operator::append_batch(&mut out, right);
        out
    }
}

impl Op for Concat {
    open spec fn hideable_spec() -> bool {
        true
    }

    open spec fn op_name_spec() -> Seq<char> {
        "concat"@
    }

    fn hideable() -> (b: bool) {
        true
    }

    fn default_op_name() -> (name: &'static str) {
        "concat"
    }
}

} // verus!
