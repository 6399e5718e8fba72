//! The replay scheduler: plays an ordered record sequence back with its
//! original relative timing. Records whose identifier lies in an exclusion
//! set are dropped before playback, so they do not take part in the pacing.
//! Each inter-frame wait is the record-to-record timestamp delta less the
//! measured overhead of the previous iteration's work, floored at zero and
//! converted to whole microseconds.

use vstd::prelude::*;
use crate::record::{Record, RecordModel, record_models, clone_bytes};
use crate::ident::STANDARD_BOUND;

verus! {

/// The inter-frame wait in microseconds: the timestamp delta in nanoseconds
/// (floored at zero), less the measured overhead of the previous iteration
/// (again floored at zero), in whole microseconds.
pub open spec fn gap_micros_spec(prev_ns: u64, curr_ns: u64, overhead_ns: u64) -> int {
    let gap = if curr_ns >= prev_ns { curr_ns - prev_ns } else { 0 };
    let net = if gap >= overhead_ns { gap - overhead_ns } else { 0 };
    net / 1000
}

/// The wait before a record: zero for the first record of a pass (no previous
/// timestamp exists), the compensated gap otherwise.
pub open spec fn wait_micros_spec(prev_ts: Option<u64>, curr_ns: u64, overhead_ns: u64) -> int {
    match prev_ts {
        None => 0,
        Some(p) => gap_micros_spec(p, curr_ns, overhead_ns),
    }
}

/// Computes the drift-compensated inter-frame wait.
pub fn pacing_gap_micros(prev_ns: u64, curr_ns: u64, overhead_ns: u64) -> (r: u64)
    ensures
        r == gap_micros_spec(prev_ns, curr_ns, overhead_ns),
{
    let gap: u64 = if curr_ns >= prev_ns { curr_ns - prev_ns } else { 0 };
    let net: u64 = if gap >= overhead_ns { gap - overhead_ns } else { 0 };
    net / 1000
}

/// The records that survive the exclusion set, in order.
pub open spec fn filter_excluded_spec(rs: Seq<RecordModel>, exclude: Seq<u32>) -> Seq<RecordModel> {
    rs.filter(|r: RecordModel| !exclude.contains(r.id))
}

/// True iff the identifier is a member of the exclusion set.
pub fn id_excluded(exclude: &Vec<u32>, id: u32) -> (r: bool)
    ensures
        r == exclude@.contains(id),
{
    let mut i: usize = 0;
    while i < exclude.len()
        invariant
            i <= exclude@.len(),
            forall|k: int| 0 <= k < i ==> exclude@[k] != id,
        decreases exclude@.len() - i,
    {
        if exclude[i] == id {
            return true;
        }
        i = i + 1;
    }
    false
}

/// One frame to submit: how long to wait first, the identifier, its width
/// classification, and the payload.
pub struct FrameCommand {
    pub wait_micros: u64,
    pub id: u32,
    pub extended: bool,
    pub payload: Vec<u8>,
}

/// Walks a record sequence once, handing out one frame command per record.
/// The caller performs the waiting and the submission, measures the wall-clock
/// cost of its own work on each frame, and passes that measurement into the
/// next step as the overhead to compensate for.
pub struct ReplayScheduler {
    pub records: Vec<Record>,
    pub idx: usize,
    pub prev_ts: Option<u64>,
}

impl ReplayScheduler {
    /// Loads a record sequence for replay, dropping every record whose
    /// identifier is in the exclusion set; the dropped records take no part
    /// in later pacing.
    pub fn new(records: &Vec<Record>, exclude: &Vec<u32>) -> (s: ReplayScheduler)
        ensures
            record_models(s.records@) == filter_excluded_spec(
                record_models(records@), exclude@,
            ),
            s.idx == 0,
            s.prev_ts is None,
    {
        let ghost rms = record_models(records@);
        let ghost pred = |r: RecordModel| !exclude@.contains(r.id);
        let mut kept: Vec<Record> = Vec::new();
        let mut i: usize = 0;
        while i < records.len()
            invariant
                i <= records@.len(),
                rms == record_models(records@),
                pred == (|r: RecordModel| !exclude@.contains(r.id)),
                record_models(kept@) == rms.take(i as int).filter(pred),
            decreases records@.len() - i,
        {
            let r = &records[i];
            proof {
                rms.take(i as int).lemma_filter_push(rms[i as int], pred);
                assert(rms.take(i as int + 1) =~= rms.take(i as int).push(rms[i as int]));
            }
            if !id_excluded(exclude, r.id) {
                let copied = Record::new(r.ts_ns, r.id, clone_bytes(&r.payload));
                kept.push(copied);
                proof {
                    assert(record_models(kept@) =~= rms.take(i as int).filter(pred).push(
                        rms[i as int],
                    ));
                }
            }
            i = i + 1;
        }
        proof {
            assert(rms.take(rms.len() as int) =~= rms);
        }
        ReplayScheduler { records: kept, idx: 0, prev_ts: None }
    }

    /// How many frames the pass will submit in total.
    pub fn total_frames(&self) -> (n: usize)
        ensures
            n == self.records@.len(),
    {
        self.records.len()
    }

    /// How many frames have been handed out so far in this pass.
    pub fn frames_done(&self) -> (n: usize)
        ensures
            n == self.idx,
    {
        self.idx
    }

    /// Rewinds to the first record for another pass; pacing starts afresh.
    pub fn reset(&mut self)
        ensures
            final(self).records == old(self).records,
            final(self).idx == 0,
            final(self).prev_ts is None,
    {
        self.idx = 0;
        self.prev_ts = None;
    }

    /// Hands out the next frame of the pass, or `None` when the pass is over.
    /// `overhead_ns` is the measured wall-clock cost of the caller's work on
    /// the previous frame (zero before the first frame); the frame's wait is
    /// the timestamp delta to the previous record compensated by it. The
    /// identifier's width classification is derived from its value.
    pub fn next_frame(&mut self, overhead_ns: u64) -> (r: Option<FrameCommand>)
        ensures
            final(self).records == old(self).records,
            old(self).idx >= old(self).records@.len() ==> {
                &&& r is None
                &&& final(self).idx == old(self).idx
                &&& final(self).prev_ts == old(self).prev_ts
            },
            old(self).idx < old(self).records@.len() ==> {
                let rec = old(self).records@[old(self).idx as int]@;
                &&& r is Some
                &&& r->0.id == rec.id
                &&& r->0.extended == (rec.id >= STANDARD_BOUND)
                &&& r->0.payload@ == rec.payload
                &&& r->0.wait_micros == wait_micros_spec(
                    old(self).prev_ts, rec.ts_ns, overhead_ns,
                )
                &&& final(self).idx == old(self).idx + 1
                &&& final(self).prev_ts == Some(rec.ts_ns)
            },
    {
        if self.idx >= self.records.len() {
            return None;
        }
        let r = &self.records[self.idx];
        let wait_micros: u64 = match self.prev_ts {
            None => 0,
            Some(p) => pacing_gap_micros(p, r.ts_ns, overhead_ns),
        };
        let cmd = FrameCommand {
            wait_micros,
            id: r.id,
            extended: r.id >= STANDARD_BOUND,
            payload: clone_bytes(&r.payload),
        };
        self.prev_ts = Some(r.ts_ns);
        self.idx = self.idx + 1;
        Some(cmd)
    }
}

/// Replay progress in hundredths of a percent of the total frame count; an
/// empty sequence reports zero rather than dividing by zero.
pub fn progress_permyriad(sent: usize, total: usize) -> (r: u64)
    requires
        sent <= total,
    ensures
        total > 0 ==> r == 10_000 * sent / total as int,
        total == 0 ==> r == 0,
{
    if total == 0 {
        return 0;
    }
    let scaled: u128 = 10_000u128 * (sent as u128);
    let q: u128 = scaled / (total as u128);
    proof {
        assert(10_000 * sent / total as int <= 10_000) by (nonlinear_arith)
            requires 0 < total, 0 <= sent <= total;
    }
    q as u64
}

} // verus!
