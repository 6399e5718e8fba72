//! The extraction pipeline: selects bus-message events of a captured log by
//! an extraction window over the object count and by channel, decodes each
//! selected event's timestamp to an absolute point in time, masks its
//! identifier, and emits canonical records in encounter order.

use vstd::prelude::*;
use crate::ident::ID_MASK;
use crate::record::{Record, RecordModel, record_models};
use crate::table::{ColumnTable, TableModel, encode_spec, table_wf};
use crate::timestamp::{ExtractError, abs_nanos};
use crate::window::{Window, in_window, PCT_SCALE, lemma_past_end_stays, lemma_widen_in_window};

verus! {

/// Mathematical model of one bus-message event of the log.
pub ghost struct EventModel {
    /// Unit-selector flag of the relative timestamp: `1` means milliseconds,
    /// anything else nanoseconds.
    pub flags: u32,
    /// Relative timestamp, in the unit selected by `flags`.
    pub timestamp_ns: u64,
    /// One-based channel of the event inside the log.
    pub channel: u16,
    /// Raw identifier field; may carry flag bits above the valid width.
    pub raw_id: u32,
    /// Payload bytes.
    pub payload: Seq<u8>,
}

/// One bus-message event of the log.
pub struct BusEvent {
    pub flags: u32,
    pub timestamp_ns: u64,
    pub channel: u16,
    pub raw_id: u32,
    pub payload: Vec<u8>,
}

impl View for BusEvent {
    type V = EventModel;

    open spec fn view(&self) -> EventModel {
        EventModel {
            flags: self.flags,
            timestamp_ns: self.timestamp_ns,
            channel: self.channel,
            raw_id: self.raw_id,
            payload: self.payload@,
        }
    }
}

/// One object of the log: a bus-message event, or any other object kind,
/// which counts toward the window positions but yields no record.
pub enum LogObject {
    CanMessage(BusEvent),
    Other,
}

impl View for LogObject {
    type V = Option<EventModel>;

    open spec fn view(&self) -> Option<EventModel> {
        match self {
            LogObject::CanMessage(ev) => Some(ev@),
            LogObject::Other => None,
        }
    }
}

/// The models of a sequence of log objects.
pub open spec fn object_models(s: Seq<LogObject>) -> Seq<Option<EventModel>> {
    s.map_values(|o: LogObject| o@)
}

/// Whether the object at one-based position `c` of `n` total yields a record:
/// it lies inside the window, is a bus-message event, and the configured
/// zero-based channel `ch`, offset by one, equals the event's one-based
/// channel.
pub open spec fn event_selected(
    obj: Option<EventModel>,
    c: int,
    n: int,
    ch: u16,
    w: Window,
) -> bool {
    &&& in_window(w, c, n)
    &&& obj is Some
    &&& obj->0.channel == ch + 1
}

/// Whether a selected event's absolute timestamp fits the nanosecond range.
pub open spec fn event_decodable(ev: EventModel, start_ns: u64) -> bool {
    abs_nanos(start_ns, ev.flags, ev.timestamp_ns) <= u64::MAX
}

/// The canonical record of one event: absolute timestamp, masked identifier,
/// payload unchanged.
pub open spec fn record_of(ev: EventModel, start_ns: u64) -> RecordModel {
    RecordModel {
        ts_ns: abs_nanos(start_ns, ev.flags, ev.timestamp_ns) as u64,
        id: ev.raw_id & ID_MASK,
        payload: ev.payload,
    }
}

/// The records extracted from the first `k` objects, in encounter order.
pub open spec fn extract_upto(
    objs: Seq<Option<EventModel>>,
    n: u32,
    ch: u16,
    w: Window,
    start_ns: u64,
    k: int,
) -> Seq<RecordModel>
    decreases k,
{
    if k <= 0 {
        Seq::empty()
    } else {
        extract_upto(objs, n, ch, w, start_ns, k - 1) + if event_selected(
            objs[k - 1],
            k,
            n as int,
            ch,
            w,
        ) {
            seq![record_of(objs[k - 1]->0, start_ns)]
        } else {
            Seq::empty()
        }
    }
}

/// The records extracted from a whole log.
pub open spec fn extract_spec(
    objs: Seq<Option<EventModel>>,
    n: u32,
    ch: u16,
    w: Window,
    start_ns: u64,
) -> Seq<RecordModel> {
    extract_upto(objs, n, ch, w, start_ns, objs.len() as int)
}

/// Extraction succeeds iff every selected event's timestamp decodes.
pub open spec fn extract_ok(
    objs: Seq<Option<EventModel>>,
    n: u32,
    ch: u16,
    w: Window,
    start_ns: u64,
) -> bool {
    forall|i: int|
        0 <= i < objs.len() && event_selected(objs[i], i + 1, n as int, ch, w)
            ==> event_decodable(#[trigger] objs[i]->0, start_ns)
}

/// Positions past the window's upper bound select nothing, so extraction of
/// the whole log equals extraction up to the first such position.
proof fn lemma_no_more_past_end(
    objs: Seq<Option<EventModel>>,
    n: u32,
    ch: u16,
    w: Window,
    start_ns: u64,
    i: int,
    k: int,
)
    requires
        0 <= i <= k <= objs.len(),
        100 * PCT_SCALE * (i + 1) > w.end_scaled * n,
    ensures
        extract_upto(objs, n, ch, w, start_ns, k) == extract_upto(objs, n, ch, w, start_ns, i),
        forall|j: int| i <= j < k ==> !event_selected(#[trigger] objs[j], j + 1, n as int, ch, w),
    decreases k - i,
{
    if k > i {
        lemma_no_more_past_end(objs, n, ch, w, start_ns, i, k - 1);
        lemma_past_end_stays(w, i + 1, k, n as int);
        assert(!in_window(w, k, n as int));
        assert(extract_upto(objs, n, ch, w, start_ns, k) =~= extract_upto(
            objs, n, ch, w, start_ns, k - 1,
        ));
    }
}

/// Extracts the canonical records of a log: one record per bus-message event
/// that lies inside the window and matches the configured channel, in log
/// order, with the identifier masked to its valid width and the timestamp
/// made absolute. Scanning stops for good at the first position above the
/// window. Fails exactly when a selected event's timestamp overflows the
/// nanosecond range; an empty selection is a success.
pub fn extract_records(
    objects: &Vec<LogObject>,
    total: u32,
    channel: u16,
    window: &Window,
    start_ns: u64,
) -> (r: Result<Vec<Record>, ExtractError>)
    requires
        objects@.len() <= u32::MAX,
        channel < 0xFFFF,
    ensures
        r is Ok <==> extract_ok(object_models(objects@), total, channel, *window, start_ns),
        r is Ok ==> record_models(r->Ok_0@) == extract_spec(
            object_models(objects@), total, channel, *window, start_ns,
        ),
        r is Err ==> r->Err_0 == ExtractError::TimestampOutOfRange,
{
    let ghost objs = object_models(objects@);
    let internal_channel: u16 = channel + 1;
    let mut out: Vec<Record> = Vec::new();
    let mut i: usize = 0;
    loop
        invariant
            0 <= i <= objects@.len(),
            objects@.len() <= u32::MAX,
            channel < 0xFFFF,
            internal_channel == channel + 1,
            objs == object_models(objects@),
            record_models(out@) == extract_upto(objs, total, channel, *window, start_ns, i as int),
            forall|j: int|
                0 <= j < i && event_selected(objs[j], j + 1, total as int, channel, *window)
                    ==> event_decodable(#[trigger] objs[j]->0, start_ns),
        ensures
            record_models(out@) == extract_spec(objs, total, channel, *window, start_ns),
            extract_ok(objs, total, channel, *window, start_ns),
        decreases objects@.len() - i,
    {
        if i >= objects.len() {
            break;
        }
        let c: u32 = (i as u32) + 1;
        if window.past_end(c, total) {
            proof {
                lemma_no_more_past_end(
                    objs, total, channel, *window, start_ns, i as int, objs.len() as int,
                );
            }
            break;
        }
        if window.contains_position(c, total) {
            match &objects[i] {
                LogObject::CanMessage(ev) => {
                    if ev.channel == internal_channel {
                        match crate::timestamp::decode_timestamp(
                            start_ns, ev.flags, ev.timestamp_ns,
                        ) {
                            None => {
                                proof {
                                    assert(event_selected(
                                        objs[i as int], i + 1, total as int, channel, *window,
                                    ));
                                    assert(!extract_ok(objs, total, channel, *window, start_ns));
                                }
                                return Err(ExtractError::TimestampOutOfRange);
                            },
                            Some(ts) => {
                                let id = crate::ident::mask_identifier(ev.raw_id);
                                let payload = crate::record::clone_bytes(&ev.payload);
                                out.push(Record::new(ts, id, payload));
                                proof {
                                    assert(record_models(out@) =~= extract_upto(
                                        objs, total, channel, *window, start_ns, i + 1,
                                    ));
                                }
                            },
                        }
                    } else {
                        proof {
                            assert(record_models(out@) =~= extract_upto(
                                objs, total, channel, *window, start_ns, i + 1,
                            ));
                        }
                    }
                },
                LogObject::Other => {
                    proof {
                        assert(record_models(out@) =~= extract_upto(
                            objs, total, channel, *window, start_ns, i + 1,
                        ));
                    }
                },
            }
        } else {
            proof {
                assert(!in_window(*window, i + 1, total as int));
                assert(record_models(out@) =~= extract_upto(
                    objs, total, channel, *window, start_ns, i + 1,
                ));
            }
        }
        i = i + 1;
    }
    Ok(out)
}

/// Widening the extraction window never loses records: the extracted count is
/// monotonically non-decreasing as the window widens.
pub proof fn lemma_extract_count_monotone(
    objs: Seq<Option<EventModel>>,
    n: u32,
    ch: u16,
    w1: Window,
    w2: Window,
    start_ns: u64,
)
    requires
        w2.start_scaled <= w1.start_scaled,
        w1.end_scaled <= w2.end_scaled,
    ensures
        extract_spec(objs, n, ch, w1, start_ns).len() <= extract_spec(
            objs, n, ch, w2, start_ns,
        ).len(),
{
    lemma_extract_upto_count_monotone(objs, n, ch, w1, w2, start_ns, objs.len() as int);
}

proof fn lemma_extract_upto_count_monotone(
    objs: Seq<Option<EventModel>>,
    n: u32,
    ch: u16,
    w1: Window,
    w2: Window,
    start_ns: u64,
    k: int,
)
    requires
        w2.start_scaled <= w1.start_scaled,
        w1.end_scaled <= w2.end_scaled,
        k <= objs.len(),
    ensures
        extract_upto(objs, n, ch, w1, start_ns, k).len() <= extract_upto(
            objs, n, ch, w2, start_ns, k,
        ).len(),
    decreases k,
{
    if k > 0 {
        lemma_extract_upto_count_monotone(objs, n, ch, w1, w2, start_ns, k - 1);
        if event_selected(objs[k - 1], k, n as int, ch, w1) {
            lemma_widen_in_window(w1, w2, k, n as int);
        }
    }
}

/// Runs the whole extraction pipeline: selects and decodes the records and
/// lays them out as the three columns of the interchange table.
pub fn extract_to_table(
    objects: &Vec<LogObject>,
    total: u32,
    channel: u16,
    window: &Window,
    start_ns: u64,
) -> (r: Result<ColumnTable, ExtractError>)
    requires
        objects@.len() <= u32::MAX,
        channel < 0xFFFF,
    ensures
        r is Ok <==> extract_ok(object_models(objects@), total, channel, *window, start_ns),
        r is Ok ==> r->Ok_0@ == encode_spec(
            extract_spec(object_models(objects@), total, channel, *window, start_ns),
        ),
        r is Ok ==> table_wf(r->Ok_0@),
        r is Err ==> r->Err_0 == ExtractError::TimestampOutOfRange,
{
    match extract_records(objects, total, channel, window, start_ns) {
        Ok(records) => Ok(crate::table::encode(&records)),
        Err(e) => Err(e),
    }
}

/// The decoded offsets of the log's bus-message events, in log order.
/// The decoded offsets of the log's bus-message events, in log order.
pub open spec fn log_in_time_order(objs: Seq<Option<EventModel>>) -> bool {
    forall|i: int, j: int|
        0 <= i <= j < objs.len() && objs[i] is Some && objs[j] is Some
            ==> crate::timestamp::rel_nanos((#[trigger] objs[i])->0.flags, objs[i]->0.timestamp_ns)
                <= crate::timestamp::rel_nanos((#[trigger] objs[j])->0.flags, objs[j]->0.timestamp_ns)
}

/// A record sequence whose timestamps never decrease.
pub open spec fn ts_nondecreasing(rs: Seq<RecordModel>) -> bool {
    forall|a: int, b: int|
        0 <= a <= b < rs.len() ==> (#[trigger] rs[a]).ts_ns <= (#[trigger] rs[b]).ts_ns
}

/// Record `a` carries the absolute timestamp of some bus-message event among
/// the first `k` log objects.
spec fn ts_from_event(
    rs: Seq<RecordModel>,
    a: int,
    objs: Seq<Option<EventModel>>,
    start_ns: u64,
    k: int,
) -> bool {
    exists|i: int|
        0 <= i < k && objs[i] is Some && rs[a].ts_ns == abs_nanos(
            start_ns, (#[trigger] objs[i])->0.flags, objs[i]->0.timestamp_ns,
        )
}

proof fn lemma_extract_upto_ordered(
    objs: Seq<Option<EventModel>>,
    n: u32,
    ch: u16,
    w: Window,
    start_ns: u64,
    k: int,
)
    requires
        0 <= k <= objs.len(),
        log_in_time_order(objs),
        extract_ok(objs, n, ch, w, start_ns),
    ensures
        ts_nondecreasing(extract_upto(objs, n, ch, w, start_ns, k)),
        forall|a: int|
            0 <= a < extract_upto(objs, n, ch, w, start_ns, k).len() ==> #[trigger] ts_from_event(
                extract_upto(objs, n, ch, w, start_ns, k), a, objs, start_ns, k,
            ),
    decreases k,
{
    let rs = extract_upto(objs, n, ch, w, start_ns, k);
    if k > 0 {
        lemma_extract_upto_ordered(objs, n, ch, w, start_ns, k - 1);
        let prev = extract_upto(objs, n, ch, w, start_ns, k - 1);
        if event_selected(objs[k - 1], k, n as int, ch, w) {
            let ev = objs[k - 1]->0;
            let rec = record_of(ev, start_ns);
            assert(event_decodable(ev, start_ns));
            assert(rs =~= prev.push(rec));
            assert(rec.ts_ns == abs_nanos(start_ns, ev.flags, ev.timestamp_ns));
            assert forall|a: int| 0 <= a < prev.len() implies (#[trigger] prev[a]).ts_ns
                <= rec.ts_ns by {
                assert(ts_from_event(prev, a, objs, start_ns, k - 1));
                let i = choose|i: int|
                    0 <= i < k - 1 && objs[i] is Some && prev[a].ts_ns == abs_nanos(
                        start_ns, (#[trigger] objs[i])->0.flags, objs[i]->0.timestamp_ns,
                    );
                assert(crate::timestamp::rel_nanos(objs[i]->0.flags, objs[i]->0.timestamp_ns)
                    <= crate::timestamp::rel_nanos(ev.flags, ev.timestamp_ns));
            }
            assert forall|a: int| 0 <= a < rs.len() implies #[trigger] ts_from_event(
                rs, a, objs, start_ns, k,
            ) by {
                if a < prev.len() {
                    assert(ts_from_event(prev, a, objs, start_ns, k - 1));
                    let i = choose|i: int|
                        0 <= i < k - 1 && objs[i] is Some && prev[a].ts_ns == abs_nanos(
                            start_ns, (#[trigger] objs[i])->0.flags, objs[i]->0.timestamp_ns,
                        );
                    assert(0 <= i < k && objs[i] is Some && rs[a].ts_ns == abs_nanos(
                        start_ns, objs[i]->0.flags, objs[i]->0.timestamp_ns,
                    ));
                } else {
                    assert(rs[a] == rec);
                    assert(0 <= k - 1 < k && objs[k - 1] is Some && rs[a].ts_ns == abs_nanos(
                        start_ns, objs[k - 1]->0.flags, objs[k - 1]->0.timestamp_ns,
                    ));
                }
            }
            assert forall|a: int, b: int| 0 <= a <= b < rs.len() implies (#[trigger] rs[a]).ts_ns
                <= (#[trigger] rs[b]).ts_ns by {
                if b < prev.len() {
                    assert(prev[a].ts_ns <= prev[b].ts_ns);
                } else if a < prev.len() {
                    assert(rs[b] == rec);
                    assert(prev[a].ts_ns <= rec.ts_ns);
                }
            }
            assert(ts_nondecreasing(rs));
        } else {
            assert(rs =~= prev);
            assert(ts_nondecreasing(rs));
            assert forall|a: int| 0 <= a < rs.len() implies #[trigger] ts_from_event(
                rs, a, objs, start_ns, k,
            ) by {
                assert(ts_from_event(prev, a, objs, start_ns, k - 1));
                let i = choose|i: int|
                    0 <= i < k - 1 && objs[i] is Some && prev[a].ts_ns == abs_nanos(
                        start_ns, (#[trigger] objs[i])->0.flags, objs[i]->0.timestamp_ns,
                    );
                assert(0 <= i < k && objs[i] is Some && rs[a].ts_ns == abs_nanos(
                    start_ns, objs[i]->0.flags, objs[i]->0.timestamp_ns,
                ));
            }
        }
    } else {
        assert(rs.len() == 0);
    }
}

/// Records are extracted in log order, so a log whose bus-message events
/// carry non-decreasing offsets yields records with non-decreasing absolute
/// timestamps.
pub proof fn lemma_extract_timestamps_ordered(
    objs: Seq<Option<EventModel>>,
    n: u32,
    ch: u16,
    w: Window,
    start_ns: u64,
)
    requires
        log_in_time_order(objs),
        extract_ok(objs, n, ch, w, start_ns),
    ensures
        ts_nondecreasing(extract_spec(objs, n, ch, w, start_ns)),
{
    lemma_extract_upto_ordered(objs, n, ch, w, start_ns, objs.len() as int);
}

/// Extraction is idempotent: two runs over the same log with the same window,
/// channel, and start time yield identical output tables.
pub proof fn lemma_extraction_idempotent(
    objs: Seq<Option<EventModel>>,
    n: u32,
    ch: u16,
    w: Window,
    start_ns: u64,
    t1: TableModel,
    t2: TableModel,
)
    requires
        t1 == encode_spec(extract_spec(objs, n, ch, w, start_ns)),
        t2 == encode_spec(extract_spec(objs, n, ch, w, start_ns)),
    ensures
        t1 == t2,
{
}

} // verus!
