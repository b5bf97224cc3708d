use swapview::record::{collect_record, ProcessSwapRecord};
use swapview::aggregate::{
    sort_records, sort_records_parallel, sort_records_sequential, total_swap, use_parallel_sort,
};

fn record(pid: u64, swap_bytes: i64, command: &[u8]) -> ProcessSwapRecord {
    ProcessSwapRecord { pid, swap_bytes, command: command.to_vec() }
}

fn swaps(records: &[ProcessSwapRecord]) -> Vec<i64> {
    records.iter().map(|r| r.swap_bytes).collect()
}

#[test]
fn candidate_with_unreadable_report_is_dropped() {
    assert!(collect_record(7, None, Some(b"cmd\0".to_vec())).is_none());
}

#[test]
fn candidate_with_zero_usage_is_dropped() {
    assert!(collect_record(7, Some(b"Swap: 0 kB\n".to_vec()), Some(b"cmd\0".to_vec())).is_none());
}

#[test]
fn candidate_with_positive_usage_yields_a_record() {
    let rec = collect_record(7, Some(b"Swap: 248 kB\n".to_vec()), Some(b"ls\0-l\0".to_vec()))
        .unwrap();
    assert_eq!(rec.pid, 7);
    assert_eq!(rec.swap_bytes, 248 * 1024);
    assert_eq!(rec.command, b"ls -l".to_vec());
}

#[test]
fn unreadable_command_line_degrades_to_an_empty_command() {
    let rec = collect_record(7, Some(b"Swap: 16 kB\n".to_vec()), None).unwrap();
    assert_eq!(rec.pid, 7);
    assert_eq!(rec.swap_bytes, 16 * 1024);
    assert_eq!(rec.command, Vec::<u8>::new());
}

#[test]
fn strategy_threshold_is_sixty_four() {
    assert!(!use_parallel_sort(0));
    assert!(!use_parallel_sort(63));
    assert!(use_parallel_sort(64));
    assert!(use_parallel_sort(65));
}

#[test]
fn both_sort_strategies_agree_up_to_tie_order() {
    let input = vec![
        record(1, 300, b"c"),
        record(2, 100, b"a"),
        record(3, 300, b"d"),
        record(4, 50, b"b"),
        record(5, 100, b"e"),
    ];
    let mut seq_sorted = input.iter().map(|r| record(r.pid, r.swap_bytes, &r.command)).collect::<Vec<_>>();
    let mut par_sorted = input.iter().map(|r| record(r.pid, r.swap_bytes, &r.command)).collect::<Vec<_>>();
    sort_records_sequential(&mut seq_sorted);
    sort_records_parallel(&mut par_sorted);
    assert_eq!(swaps(&seq_sorted), vec![50, 100, 100, 300, 300]);
    assert_eq!(swaps(&seq_sorted), swaps(&par_sorted));
}

#[test]
fn large_scans_sort_ascending_too() {
    // 70 records force the parallel strategy through the policy switch.
    let mut records: Vec<ProcessSwapRecord> =
        (0..70u64).map(|i| record(i, (997 * i as i64) % 701, b"x")).collect();
    let mut expected = swaps(&records);
    sort_records(&mut records);
    expected.sort();
    assert_eq!(swaps(&records), expected);
    assert_eq!(records.len(), 70);
}

#[test]
fn end_to_end_scan_drops_orders_and_totals() {
    let candidates: Vec<(u64, Option<Vec<u8>>, Option<Vec<u8>>)> = vec![
        (10, Some(b"Swap: 0 kB\n".to_vec()), Some(b"idle\0".to_vec())),
        (11, Some(b"Swap: 1948 kB\n".to_vec()), Some(b"big\0".to_vec())),
        (12, Some(b"Swap: 248 kB\n".to_vec()), Some(b"small\0".to_vec())),
    ];
    let mut records: Vec<ProcessSwapRecord> = candidates
        .into_iter()
        .filter_map(|(pid, smaps, cmdline)| collect_record(pid, smaps, cmdline))
        .collect();
    sort_records(&mut records);
    assert_eq!(records.len(), 2);
    assert_eq!(records[0].pid, 12);
    assert_eq!(records[0].swap_bytes, 248 * 1024);
    assert_eq!(records[1].pid, 11);
    assert_eq!(records[1].swap_bytes, 1948 * 1024);
    assert_eq!(total_swap(&records), (248 + 1948) * 1024);
}

#[test]
fn unreadable_candidate_leaves_no_trace() {
    let with_ghost: Vec<(u64, Option<Vec<u8>>, Option<Vec<u8>>)> = vec![
        (20, Some(b"Swap: 8 kB\n".to_vec()), None),
        (21, None, Some(b"gone\0".to_vec())),
        (22, Some(b"Swap: 4 kB\n".to_vec()), Some(b"live\0".to_vec())),
    ];
    let without_ghost: Vec<(u64, Option<Vec<u8>>, Option<Vec<u8>>)> = vec![
        (20, Some(b"Swap: 8 kB\n".to_vec()), None),
        (22, Some(b"Swap: 4 kB\n".to_vec()), Some(b"live\0".to_vec())),
    ];
    let collect = |cs: Vec<(u64, Option<Vec<u8>>, Option<Vec<u8>>)>| {
        let mut records: Vec<ProcessSwapRecord> = cs
            .into_iter()
            .filter_map(|(pid, smaps, cmdline)| collect_record(pid, smaps, cmdline))
            .collect();
        sort_records(&mut records);
        records
    };
    let a = collect(with_ghost);
    let b = collect(without_ghost);
    assert_eq!(a.len(), b.len());
    for (x, y) in a.iter().zip(b.iter()) {
        assert_eq!(x.pid, y.pid);
        assert_eq!(x.swap_bytes, y.swap_bytes);
        assert_eq!(x.command, y.command);
    }
}

#[test]
fn total_of_no_records_is_zero() {
    assert_eq!(total_swap(&Vec::new()), 0);
}
