//! The snapshot store: the one shared mutable container of the system,
//! holding the most recently collected set of metric records.
//!
//! The store itself is a plain sequence with `clear` and `append`; the
//! surrounding program wraps it in an exclusive-access guard, clears and
//! repopulates it once per collection cycle, and reads it from the
//! exposition endpoint.

use vstd::prelude::*;
use crate::record::{MetricRecord, RecordView, copy_record};

verus! {

/// The container of the latest complete snapshot of metric records.
pub struct DataHolder {
    pub data: Vec<MetricRecord>,
}

impl View for DataHolder {
    type V = Seq<RecordView>;

    open spec fn view(&self) -> Seq<RecordView> {
        self.data@.map_values(|r: MetricRecord| r@)
    }
}

impl DataHolder {
    /// A store is created empty, once, at process start.
    pub fn new() -> (r: DataHolder)
        ensures
            r@ == Seq::<RecordView>::empty(),
    {
        let r = DataHolder { data: Vec::new() };
        proof {
            assert(r@ =~= Seq::<RecordView>::empty());
        }
        r
    }

    /// The current records, in insertion order.
    pub fn get_data(&self) -> (r: &Vec<MetricRecord>)
        ensures
            r@.map_values(|x: MetricRecord| x@) == self@,
    {
        &self.data
    }

    /// Append one record to the snapshot.
    pub fn push_data(&mut self, dt: MetricRecord)
        ensures
            final(self)@ == old(self)@.push(dt@),
    {
        let ghost pre = self.data@;
        self.data.push(dt);
        proof {
            assert(self.data@.map_values(|r: MetricRecord| r@)
                =~= pre.map_values(|r: MetricRecord| r@).push(self.data@.last()@));
        }
    }

    /// Append every record of `rs` to the snapshot, in order.
    pub fn push_all(&mut self, rs: Vec<MetricRecord>)
        ensures
            final(self)@ == old(self)@ + rs@.map_values(|x: MetricRecord| x@),
    {
        let ghost rsv = rs@.map_values(|x: MetricRecord| x@);
        let mut rest = rs;
        let mut i: usize = 0;
        proof {
            assert(old(self)@ + rsv.take(0) =~= old(self)@);
        }
        while i < rest.len()
            invariant
                0 <= i <= rest.len(),
                rest@.map_values(|x: MetricRecord| x@) == rsv,
                self@ == old(self)@ + rsv.take(i as int),
            decreases rest.len() - i,
        {
            let ghost pre = self@;
            let r = copy_record(&rest[i]);
            proof {
                assert(rest@[i as int]@ == rsv[i as int]);
            }
            self.push_data(r);
            proof {
                assert(pre.push(rsv[i as int]) =~= old(self)@ + rsv.take(i as int + 1));
            }
            i = i + 1;
        }
        proof {
            assert(rsv.take(i as int) =~= rsv);
        }
    }

    /// Truncate the snapshot to empty at the start of a collection cycle.
    pub fn clear_data(&mut self)
        ensures
            final(self)@ == Seq::<RecordView>::empty(),
    {
        self.data.clear();
        proof {
            assert(self@ =~= Seq::<RecordView>::empty());
        }
    }
}

} // verus!
