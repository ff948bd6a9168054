//! Dynamic: stands for its upstream without saying what kind of operator
//! that is.

use crate::operator::Op;
use vstd::prelude::*;

verus! {

pub struct DynOp {
    pub inner: usize,
}

impl Op for DynOp {
    open spec fn hideable_spec() -> bool {
        true
    }

    open spec fn op_name_spec() -> Seq<char> {
        "dynamic"@
    }

    fn hideable() -> (b: bool) {
        true
    }

    fn default_op_name() -> (name: &'static str) {
        "dynamic"
    }
}

} // verus!
