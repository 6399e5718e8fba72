use busreplay::hexlist::parse_hex_list;
use busreplay::ident::is_extended;
use busreplay::record::Record;
use busreplay::replay::{pacing_gap_micros, progress_permyriad, ReplayScheduler};

#[test]
fn pacing_subtracts_measured_overhead() {
    // Timestamps 10.000 s and 10.010 s.
    let prev = 10_000_000_000u64;
    let curr = 10_010_000_000u64;
    assert_eq!(pacing_gap_micros(prev, curr, 0), 10_000);
    assert_eq!(pacing_gap_micros(prev, curr, 3_000_000), 7_000);
    // Overhead larger than the gap, and backwards timestamps, floor at zero.
    assert_eq!(pacing_gap_micros(prev, curr, 20_000_000), 0);
    assert_eq!(pacing_gap_micros(curr, prev, 0), 0);
}

#[test]
fn scheduler_waits_between_frames() {
    let records = vec![
        Record::new(10_000_000_000, 0x10, vec![1]),
        Record::new(10_010_000_000, 0x20, vec![2]),
    ];
    let mut s = ReplayScheduler::new(&records, &vec![]);
    let f1 = s.next_frame(0).unwrap();
    assert_eq!(f1.wait_micros, 0);
    assert_eq!(f1.id, 0x10);
    let f2 = s.next_frame(0).unwrap();
    assert_eq!(f2.wait_micros, 10_000);
    assert_eq!(f2.id, 0x20);
    assert!(s.next_frame(0).is_none());

    let mut s = ReplayScheduler::new(&records, &vec![]);
    s.next_frame(0).unwrap();
    let f2 = s.next_frame(3_000_000).unwrap();
    assert_eq!(f2.wait_micros, 7_000);
}

#[test]
fn identifier_classification_by_value() {
    assert!(!is_extended(0x7FF));
    assert!(is_extended(0x800));
    let records = vec![
        Record::new(0, 0x7FF, vec![]),
        Record::new(0, 0x800, vec![]),
    ];
    let mut s = ReplayScheduler::new(&records, &vec![]);
    assert!(!s.next_frame(0).unwrap().extended);
    assert!(s.next_frame(0).unwrap().extended);
}

#[test]
fn excluded_identifiers_take_no_part_in_pacing() {
    let records = vec![
        Record::new(10_000_000_000, 1, vec![]),
        Record::new(10_004_000_000, 2, vec![]),
        Record::new(10_010_000_000, 3, vec![]),
    ];
    let mut s = ReplayScheduler::new(&records, &vec![2]);
    assert_eq!(s.total_frames(), 2);
    let f1 = s.next_frame(0).unwrap();
    assert_eq!(f1.id, 1);
    let f2 = s.next_frame(0).unwrap();
    assert_eq!(f2.id, 3);
    // The gap spans the two surviving records' own timestamps.
    assert_eq!(f2.wait_micros, 10_000);
    assert!(s.next_frame(0).is_none());
}

#[test]
fn zero_record_replay_completes_with_zero_frames() {
    let records: Vec<Record> = vec![];
    let mut s = ReplayScheduler::new(&records, &vec![]);
    assert_eq!(s.total_frames(), 0);
    assert!(s.next_frame(0).is_none());
    assert_eq!(s.frames_done(), 0);
    assert_eq!(progress_permyriad(0, 0), 0);
}

#[test]
fn scheduler_reset_starts_a_fresh_pass() {
    let records = vec![
        Record::new(1_000_000_000, 1, vec![]),
        Record::new(1_001_000_000, 2, vec![]),
    ];
    let mut s = ReplayScheduler::new(&records, &vec![]);
    s.next_frame(0).unwrap();
    s.next_frame(0).unwrap();
    assert!(s.next_frame(0).is_none());
    s.reset();
    assert_eq!(s.frames_done(), 0);
    let f1 = s.next_frame(0).unwrap();
    assert_eq!(f1.wait_micros, 0);
    assert_eq!(f1.id, 1);
}

#[test]
fn progress_reports_permyriad_of_total() {
    assert_eq!(progress_permyriad(1, 3), 3_333);
    assert_eq!(progress_permyriad(3, 3), 10_000);
    assert_eq!(progress_permyriad(0, 5), 0);
}

#[test]
fn parse_hex_list_reads_comma_separated_literals() {
    assert_eq!(
        parse_hex_list(Some("0x0A,0x0B,0x1F".to_string())),
        vec![0x0A, 0x0B, 0x1F]
    );
    assert_eq!(
        parse_hex_list(Some(" 0x0a ,\t0xFF".to_string())),
        vec![0x0A, 0xFF]
    );
    assert_eq!(parse_hex_list(Some("0xFFFFFFFF".to_string())), vec![u32::MAX]);
}

#[test]
fn parse_hex_list_handles_stray_separators() {
    assert_eq!(parse_hex_list(Some("0x1,".to_string())), vec![0x1]);
    assert_eq!(parse_hex_list(Some(",0x1".to_string())), vec![0x1]);
    assert_eq!(parse_hex_list(Some("   ".to_string())), Vec::<u32>::new());
}

#[test]
fn parse_hex_list_skips_malformed_items() {
    assert_eq!(parse_hex_list(None), Vec::<u32>::new());
    assert_eq!(parse_hex_list(Some(String::new())), Vec::<u32>::new());
    assert_eq!(
        parse_hex_list(Some("0x0A,zzz,12,0x,0x1G,0x1F".to_string())),
        vec![0x0A, 0x1F]
    );
    // A value past the identifier range is skipped, not clipped.
    assert_eq!(
        parse_hex_list(Some("0x100000000,0x2".to_string())),
        vec![0x2]
    );
}
