//! Flat map: every record, with its weight, is sent to the records that a
//! function gives for it.

use crate::function::{Function, MapFn};
use crate::map::Batch;
use crate::operator::Op;
use crate::value::Value;
use vstd::prelude::*;

verus! {

/// What a batch is sent to, record by record.
pub open spec fn flat_map_all<F: Function>(op: MapFn<F>, batch: Seq<(Value, isize)>) -> Seq<
    (Value, isize),
>
    decreases batch.len(),
{
    if batch.len() == 0 {
        Seq::empty()
    } else {
        flat_map_all(op, batch.drop_last()) + op.apply_spec(batch.last().0, batch.last().1)
    }
}

pub struct FlatMap<F> {
    pub inner: usize,
    pub op: MapFn<F>,
}

impl<F: Function> FlatMap<F> {
    pub fn new(inner: usize, op: MapFn<F>) -> (m: Self)
        ensures
            m == (FlatMap { inner, op }),
    {
        FlatMap { inner, op }
    }

    pub fn flow(&self, batch: &Batch) -> (out: Batch)
        ensures
            out@ == flat_map_all(self.op, batch@),
    {
        let mut out: Vec<(Value, isize)> = Vec::new();
        let mut i: usize = 0;
        while i < batch.len()
            invariant
                0 <= i <= batch.len(),
                out@ == flat_map_all(self.op, batch@.take(i as int)),
            decreases batch.len() - i,
        {
            proof {
                assert(batch@.take(i as int + 1).drop_last() =~= batch@.take(i as int));
            }
            let piece = self.op.apply(&batch[i].0, batch[i].1);
            crate::operator::append_batch(&mut out, piece);
            i += 1;
        }
        proof {
            assert(batch@.take(batch.len() as int) =~= batch@);
        }
        out
    }
}

impl<F: Function> Op for FlatMap<F> {
    open spec fn hideable_spec() -> bool {
        true
    }

    open spec fn op_name_spec() -> Seq<char> {
        "flat_map_dr"@
    }

    fn hideable() -> (b: bool) {
        true
    }

    fn default_op_name() -> (name: &'static str) {
        "flat_map_dr"
    }
}

} // verus!
