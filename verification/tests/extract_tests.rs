use swapview::report::{get_swap_for, sum_labeled_field};
use swapview::record::parse_pid;

#[test]
fn sums_matching_lines_and_ignores_the_rest() {
    let report = b"Swap:   0 kB\nSwap: 248 kB\nRss: 500 kB\n";
    assert_eq!(get_swap_for(report), Some((0 + 248) * 1024));
}

#[test]
fn empty_report_has_zero_total() {
    assert_eq!(get_swap_for(b""), Some(0));
}

#[test]
fn realistic_report_shape() {
    let report = b"00400000-00452000 r-xp 00000000 08:02 173521 /usr/bin/dbus-daemon\n\
        Size:                328 kB\n\
        Rss:                 292 kB\n\
        Swap:                 12 kB\n\
        SwapPss:              12 kB\n\
        VmFlags: rd ex mr mw me dw\n\
        Swap:                  4 kB\n";
    assert_eq!(get_swap_for(report), Some((12 + 4) * 1024));
}

#[test]
fn label_must_be_followed_by_colon_and_whitespace() {
    // No colon directly after the label, or no whitespace after the colon:
    // the line contributes nothing.
    assert_eq!(get_swap_for(b"Swap 248 kB\n"), Some(0));
    assert_eq!(get_swap_for(b"Swap:248 kB\n"), Some(0));
    assert_eq!(get_swap_for(b"Swapx: 248 kB\n"), Some(0));
}

#[test]
fn malformed_numeric_token_contributes_nothing() {
    assert_eq!(get_swap_for(b"Swap: abc kB\nSwap: 16 kB\n"), Some(16 * 1024));
    // A token without a terminating space is malformed.
    assert_eq!(get_swap_for(b"Swap: 16\nSwap: 8 kB\n"), Some(8 * 1024));
    // A token whose value does not fit 64 signed bits contributes nothing.
    assert_eq!(
        get_swap_for(b"Swap: 99999999999999999999 kB\nSwap: 5 kB\n"),
        Some(5 * 1024)
    );
}

#[test]
fn final_line_without_newline_still_counts() {
    assert_eq!(get_swap_for(b"Swap: 7 kB"), Some(7 * 1024));
}

#[test]
fn negative_tokens_are_accepted() {
    assert_eq!(get_swap_for(b"Swap: -3 kB\nSwap: 5 kB\n"), Some(2 * 1024));
}

#[test]
fn total_that_overflows_the_output_width_is_rejected() {
    // Each line fits 64 bits, but the byte conversion of the sum does not.
    assert_eq!(get_swap_for(b"Swap: 9007199254740991 kB\n"), Some(9223372036854774784));
    assert_eq!(get_swap_for(b"Swap: 9007199254740992 kB\n"), None);
}

#[test]
fn other_labels_can_be_extracted() {
    let report = b"Swap: 248 kB\nRss: 500 kB\nRss: 30 kB\n";
    assert_eq!(sum_labeled_field(report, b"Rss"), Some(530 * 1024));
    assert_eq!(sum_labeled_field(report, b"Swap"), Some(248 * 1024));
    assert_eq!(sum_labeled_field(report, b"Size"), Some(0));
}

#[test]
fn numeric_entry_names_are_candidate_pids() {
    assert_eq!(parse_pid(b"1"), Some(1));
    assert_eq!(parse_pid(b"4242"), Some(4242));
    assert_eq!(parse_pid(b"18446744073709551615"), Some(u64::MAX));
}

#[test]
fn non_numeric_entry_names_are_skipped() {
    assert_eq!(parse_pid(b""), None);
    assert_eq!(parse_pid(b"self"), None);
    assert_eq!(parse_pid(b"12a"), None);
    assert_eq!(parse_pid(b"-1"), None);
    // Too large for an identifier.
    assert_eq!(parse_pid(b"18446744073709551616"), None);
}
