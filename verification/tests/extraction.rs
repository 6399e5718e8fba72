use busreplay::extract::{extract_records, extract_to_table, BusEvent, LogObject};
use busreplay::ident::mask_identifier;
use busreplay::record::Record;
use busreplay::table::{decode, encode};
use busreplay::timestamp::{decode_timestamp, start_time_nanos, ExtractError};
use busreplay::window::Window;

fn can_event(channel: u16, raw_id: u32, flags: u32, rel: u64, payload: Vec<u8>) -> LogObject {
    LogObject::CanMessage(BusEvent {
        flags,
        timestamp_ns: rel,
        channel,
        raw_id,
        payload,
    })
}

fn sample_log() -> Vec<LogObject> {
    // Ten objects; CAN events on internal channel 1 at every position.
    (0..10u64)
        .map(|i| can_event(1, 0x100 + i as u32, 0, i * 1_000, vec![i as u8]))
        .collect()
}

fn extracted_count(window: Window) -> usize {
    let log = sample_log();
    extract_records(&log, 10, 0, &window, 0).unwrap().len()
}

#[test]
fn window_widening_never_loses_records() {
    // Windows given as percentages scaled by 10_000.
    let narrow = Window::new(250_000, 750_000);
    let medium = Window::new(100_000, 900_000);
    let full = Window::new(0, 1_000_000);
    let c1 = extracted_count(narrow);
    let c2 = extracted_count(medium);
    let c3 = extracted_count(full);
    assert!(c1 <= c2);
    assert!(c2 <= c3);
    assert_eq!(c3, 10);
}

#[test]
fn window_bounds_are_inclusive_and_stop_early() {
    // Position c of n=2 sits at 50% and 100%.
    let w = Window::new(500_000, 500_000);
    let log = vec![
        can_event(1, 1, 0, 0, vec![]),
        can_event(1, 2, 0, 0, vec![]),
    ];
    let recs = extract_records(&log, 2, 0, &w, 0).unwrap();
    assert_eq!(recs.len(), 1);
    assert_eq!(recs[0].id, 1);
}

#[test]
fn empty_selection_is_a_success() {
    let w = Window::new(0, 1_000_000);
    let log = vec![can_event(5, 1, 0, 0, vec![])];
    let recs = extract_records(&log, 1, 0, &w, 0).unwrap();
    assert_eq!(recs.len(), 0);
}

#[test]
fn extraction_is_idempotent() {
    let log1 = sample_log();
    let log2 = sample_log();
    let w = Window::new(200_000, 800_000);
    let t1 = extract_to_table(&log1, 10, 0, &w, 42).unwrap();
    let t2 = extract_to_table(&log2, 10, 0, &w, 42).unwrap();
    assert_eq!(t1.ts, t2.ts);
    assert_eq!(t1.id, t2.id);
    assert_eq!(t1.payload_bytes, t2.payload_bytes);
    assert_eq!(t1.payload_lens, t2.payload_lens);
}

#[test]
fn table_round_trip_keeps_records() {
    let payload_long: Vec<u8> = (0..64u8).collect();
    let records = vec![
        Record::new(1_000, 0x1A, vec![]),
        Record::new(2_000, 0x2B, vec![0xDE, 0xAD]),
        Record::new(3_000, 0x3C, payload_long.clone()),
    ];
    let table = encode(&records);
    assert_eq!(table.ts, vec![1_000, 2_000, 3_000]);
    assert_eq!(table.id, vec![0x1A, 0x2B, 0x3C]);
    assert_eq!(table.payload_lens, vec![0, 2, 64]);
    let back = decode(&table);
    assert_eq!(back.len(), 3);
    for (a, b) in records.iter().zip(back.iter()) {
        assert_eq!(a.ts_ns, b.ts_ns);
        assert_eq!(a.id, b.id);
        assert_eq!(a.payload, b.payload);
    }
}

#[test]
fn timestamp_units_follow_the_per_event_flag() {
    let t0: u64 = 1_600_000_000_000_000_000;
    // Flag 1: the raw field is in milliseconds.
    assert_eq!(decode_timestamp(t0, 1, 1_500), Some(t0 + 1_500_000_000));
    // Any other flag: nanoseconds.
    assert_eq!(decode_timestamp(t0, 0, 1_500_000_000), Some(t0 + 1_500_000_000));
    assert_eq!(decode_timestamp(u64::MAX, 0, 1), None);
    assert_eq!(decode_timestamp(0, 1, u64::MAX), None);
}

#[test]
fn identifier_masking_strips_flag_bits() {
    assert_eq!(mask_identifier(0xA0000123), 0x00000123);
    let log = vec![can_event(1, 0xA0000123, 0, 0, vec![])];
    let recs = extract_records(&log, 1, 0, &Window::new(0, 1_000_000), 0).unwrap();
    assert_eq!(recs[0].id, 0x00000123);
}

#[test]
fn channel_zero_matches_only_internal_channel_one() {
    let w = Window::new(0, 1_000_000);
    let log = vec![
        can_event(0, 0xA, 0, 0, vec![]),
        can_event(1, 0xB, 0, 0, vec![]),
        can_event(2, 0xC, 0, 0, vec![]),
    ];
    let recs = extract_records(&log, 3, 0, &w, 0).unwrap();
    assert_eq!(recs.len(), 1);
    assert_eq!(recs[0].id, 0xB);
}

#[test]
fn timestamps_become_absolute() {
    let w = Window::new(0, 1_000_000);
    let log = vec![
        can_event(1, 0xA, 0, 500, vec![]),
        can_event(1, 0xB, 1, 2, vec![]),
    ];
    let recs = extract_records(&log, 2, 0, &w, 1_000).unwrap();
    assert_eq!(recs[0].ts_ns, 1_500);
    assert_eq!(recs[1].ts_ns, 2_001_000);
}

#[test]
fn timestamp_overflow_is_fatal() {
    let w = Window::new(0, 1_000_000);
    let log = vec![can_event(1, 0xA, 1, u64::MAX, vec![])];
    let err = extract_records(&log, 1, 0, &w, 0).unwrap_err();
    assert_eq!(err, ExtractError::TimestampOutOfRange);
}

#[test]
fn start_time_converts_civil_fields() {
    assert_eq!(start_time_nanos(1970, 1, 1, 0, 0, 0, 0), Ok(0));
    assert_eq!(
        start_time_nanos(1970, 1, 2, 0, 0, 0, 0),
        Ok(86_400_000_000_000)
    );
    assert_eq!(
        start_time_nanos(1970, 1, 1, 0, 0, 1, 500),
        Ok(1_500_000_000)
    );
    // 2000 was a leap year.
    assert_eq!(
        start_time_nanos(2000, 2, 29, 0, 0, 0, 0),
        Ok(951_782_400_000_000_000)
    );
}

#[test]
fn invalid_civil_time_is_rejected() {
    assert_eq!(
        start_time_nanos(2023, 2, 29, 0, 0, 0, 0),
        Err(ExtractError::InvalidStartTime)
    );
    assert_eq!(
        start_time_nanos(2023, 13, 1, 0, 0, 0, 0),
        Err(ExtractError::InvalidStartTime)
    );
    assert_eq!(
        start_time_nanos(2023, 6, 1, 24, 0, 0, 0),
        Err(ExtractError::InvalidStartTime)
    );
    // Before the epoch: valid civil time, unrepresentable as nanoseconds.
    assert_eq!(
        start_time_nanos(1969, 12, 31, 23, 59, 59, 0),
        Err(ExtractError::StartTimeOutOfRange)
    );
}

#[test]
fn inverted_window_selects_nothing() {
    let w = Window::new(600_000, 400_000);
    let log = sample_log();
    let recs = extract_records(&log, 10, 0, &w, 0).unwrap();
    assert_eq!(recs.len(), 0);
}

#[test]
fn zero_total_objects_selects_nothing() {
    let w = Window::new(0, 1_000_000);
    let log = vec![can_event(1, 1, 0, 0, vec![])];
    let recs = extract_records(&log, 0, 0, &w, 0).unwrap();
    assert_eq!(recs.len(), 0);
}

#[test]
fn empty_table_round_trips() {
    let records: Vec<Record> = vec![];
    let table = encode(&records);
    assert_eq!(table.ts.len(), 0);
    assert_eq!(table.payload_bytes.len(), 0);
    assert_eq!(decode(&table).len(), 0);
}

#[test]
fn non_message_objects_count_toward_the_window() {
    // Five objects, one CAN event in the middle; a window over the first
    // half keeps it, a window over the last half does not.
    let log = vec![
        LogObject::Other,
        LogObject::Other,
        can_event(1, 0x7, 0, 0, vec![]),
        LogObject::Other,
        LogObject::Other,
    ];
    let first_half = extract_records(&log, 5, 0, &Window::new(0, 600_000), 0).unwrap();
    assert_eq!(first_half.len(), 1);
    let last_half = extract_records(&log, 5, 0, &Window::new(800_000, 1_000_000), 0).unwrap();
    assert_eq!(last_half.len(), 0);
}
