//! Leave: a relation of a subgraph as it is seen from outside, once the
//! subgraph has run until nothing changes.

use crate::operator::Op;
use vstd::prelude::*;

verus! {

pub struct Leave {
    pub inner: usize,
    pub registrar: usize,
}

impl Op for Leave {
    open spec fn hideable_spec() -> bool {
        true
    }

    open spec fn op_name_spec() -> Seq<char> {
        "leave"@
    }

    fn hideable() -> (b: bool) {
        true
    }

    fn default_op_name() -> (name: &'static str) {
        "leave"
    }
}

} // verus!
