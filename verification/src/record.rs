//! The canonical record: one bus event as exchanged between the extraction
//! pipeline and the replay scheduler.

use vstd::prelude::*;

verus! {

/// Mathematical model of a canonical record.
#[verifier::ext_equal]
pub ghost struct RecordModel {
    /// Nanoseconds since the Unix epoch.
    pub ts_ns: u64,
    /// Bus identifier, masked to its valid bit-width at extraction time.
    pub id: u32,
    /// Frame payload bytes.
    pub payload: Seq<u8>,
}

/// One bus event: an absolute timestamp, a bus identifier, and a payload of
/// any length. Records are never mutated after creation.
#[derive(Debug)]
pub struct Record {
    pub ts_ns: u64,
    pub id: u32,
    pub payload: Vec<u8>,
}

impl View for Record {
    type V = RecordModel;

    open spec fn view(&self) -> RecordModel {
        RecordModel { ts_ns: self.ts_ns, id: self.id, payload: self.payload@ }
    }
}

impl Record {
    pub fn new(ts_ns: u64, id: u32, payload: Vec<u8>) -> (r: Record)
        ensures
            r@ == (RecordModel { ts_ns, id, payload: payload@ }),
    {
        Record { ts_ns, id, payload }
    }
}

/// The models of a sequence of records.
pub open spec fn record_models(s: Seq<Record>) -> Seq<RecordModel> {
    s.map_values(|r: Record| r@)
}

/// Copies a byte vector.
pub fn clone_bytes(v: &Vec<u8>) -> (r: Vec<u8>)
    ensures
        r@ == v@,
{
    let mut out: Vec<u8> = Vec::new();
    let mut i: usize = 0;
    while i < v.len()
        invariant
            i <= v@.len(),
            out@ == v@.subrange(0, i as int),
        decreases v@.len() - i,
    {
        out.push(v[i]);
        i = i + 1;
        proof {
            assert(out@ =~= v@.subrange(0, i as int));
        }
    }
    proof {
        assert(out@ =~= v@);
    }
    out
}

} // verus!
