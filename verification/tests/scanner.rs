use sniffle::calendar::DayTable;
use sniffle::scanner::{
    extract_timestamp, find_char, scan_file, GapEvent, GapScanner, ScanState,
    DEFAULT_THRESHOLD_SECONDS, MIN_LINE_LEN,
};
use sniffle::timestamp::decode_timestamp;

fn owned(lines: &[&str]) -> Vec<String> {
    lines.iter().map(|line| line.to_string()).collect()
}

fn event(path: &str, previous: &str, previous_ordinal: u64, current: &str, current_ordinal: u64) -> GapEvent {
    GapEvent {
        path: path.to_string(),
        previous_line: previous.to_string(),
        previous_ordinal,
        current_line: current.to_string(),
        current_ordinal,
    }
}

#[test]
fn default_threshold_is_ten_minutes() {
    assert_eq!(DEFAULT_THRESHOLD_SECONDS, 600);
    assert_eq!(MIN_LINE_LEN, 22);
}

#[test]
fn find_char_gives_first_position() {
    assert_eq!(find_char("[abc] [def]", ']'), Some(4));
    assert_eq!(find_char("]", ']'), Some(0));
    assert_eq!(find_char("[abc", ']'), None);
    assert_eq!(find_char("", ']'), None);
    assert_eq!(find_char("\u{e9}\u{e9}]", ']'), Some(2));
}

#[test]
fn candidate_line_yields_its_span() {
    assert_eq!(extract_timestamp("[2024-07-10 11:00:00] a"), Some("2024-07-10 11:00:00"));
    assert_eq!(extract_timestamp("[2024-07-10 11:00:00]x"), Some("2024-07-10 11:00:00"));
    assert_eq!(
        extract_timestamp("[2024-07-10 11:00:00.250 UTC] started"),
        Some("2024-07-10 11:00:00.250 UTC")
    );
    assert_eq!(
        extract_timestamp("[2024-07-10 11:00:00] a [b] c"),
        Some("2024-07-10 11:00:00")
    );
}

#[test]
fn line_failing_a_check_is_no_candidate() {
    assert_eq!(extract_timestamp(""), None);
    assert_eq!(extract_timestamp("2024-07-10 11:00:00 no bracket at all"), None);
    assert_eq!(extract_timestamp(" [2024-07-10 11:00:00] leading blank"), None);
    assert_eq!(extract_timestamp("[2024-07-10 11:00:00]"), None);
    assert_eq!(extract_timestamp("[2024-07-10 11:00:00 never closed"), None);
    assert_eq!(extract_timestamp("[2024-07-10 11:00:0] one digit short"), None);
    assert_eq!(extract_timestamp("[] 2024-07-10 11:00:00 empty brackets"), None);
    assert_eq!(extract_timestamp("[short]"), None);
}

#[test]
fn lengths_count_characters() {
    assert_eq!(
        extract_timestamp("[2024-07-10 11:00:0\u{e9}]x"),
        Some("2024-07-10 11:00:0\u{e9}")
    );
    assert_eq!(extract_timestamp("[2024-07-10 11:00:\u{e9}] x"), None);
    assert_eq!(extract_timestamp("[2024-07-10 11:00:0\u{e9}]"), None);
}

#[test]
fn gap_detection_end_to_end() {
    let lines = owned(&[
        "[2024-07-10 11:00:00] a",
        "[2024-07-10 11:05:00] b",
        "[2024-07-10 11:20:00] c",
    ]);
    let events = scan_file("app.log", &lines, 600);
    assert_eq!(
        events,
        vec![event(
            "app.log",
            "[2024-07-10 11:05:00] b",
            1978711412700,
            "[2024-07-10 11:20:00] c",
            1978711413600,
        )]
    );
    assert_eq!(events[0].current_ordinal - events[0].previous_ordinal, 900);
}

#[test]
fn lines_that_are_no_candidates_change_nothing() {
    let plain = owned(&[
        "[2024-07-10 11:00:00] a",
        "[2024-07-10 11:05:00] b",
        "[2024-07-10 11:20:00] c",
    ]);
    let noisy = owned(&[
        "",
        "starting up",
        "[2024-07-10 11:00:00] a",
        "    at frame 3",
        "[2024-07-10 11:05:00] b",
        "2024-07-10 11:06:00 no bracket, long enough to count",
        "[2024-07-10 11:07:00]",
        "[2024-07-10 11:08:00 never closed",
        "[2024-07-10 11:0] too short inside",
        "",
        "[2024-07-10 11:20:00] c",
        "done",
    ]);
    assert_eq!(scan_file("app.log", &noisy, 600), scan_file("app.log", &plain, 600));
    assert_eq!(scan_file("app.log", &noisy, 600).len(), 1);
}

#[test]
fn malformed_line_between_does_not_hide_or_make_a_gap() {
    let lines = owned(&[
        "[2024-07-10 11:00:00] a",
        "[2024-07-10 11:09:00]",
        "[2024-07-10 11:10:00] b",
    ]);
    let events = scan_file("f", &lines, 600);
    assert_eq!(events.len(), 1);
    assert_eq!(events[0].previous_line, "[2024-07-10 11:00:00] a");
    assert_eq!(events[0].current_line, "[2024-07-10 11:10:00] b");

    let lines = owned(&[
        "[2024-07-10 11:00:00] a",
        "[2024-07-10 11:30:00 never closed",
        "[2024-07-10 11:09:59] b",
    ]);
    assert_eq!(scan_file("f", &lines, 600), vec![]);
}

#[test]
fn threshold_is_inclusive() {
    let lines = owned(&["[2024-07-10 11:00:00] a", "[2024-07-10 11:10:00] b"]);
    assert_eq!(scan_file("f", &lines, 600).len(), 1);
    assert_eq!(scan_file("f", &lines, 601).len(), 0);
    assert_eq!(scan_file("f", &lines, 599).len(), 1);
}

#[test]
fn threshold_zero_reports_every_pair_in_order() {
    let lines = owned(&[
        "[2024-07-10 11:00:00] a",
        "[2024-07-10 11:00:00] b",
        "[2024-07-10 11:00:01] c",
    ]);
    let events = scan_file("f", &lines, 0);
    assert_eq!(events.len(), 2);
    assert_eq!(events[0].previous_line, "[2024-07-10 11:00:00] a");
    assert_eq!(events[0].current_line, "[2024-07-10 11:00:00] b");
    assert_eq!(events[1].previous_line, "[2024-07-10 11:00:00] b");
    assert_eq!(events[1].current_line, "[2024-07-10 11:00:01] c");
}

#[test]
fn rescanning_gives_the_same_events() {
    let lines = owned(&[
        "[2024-07-10 11:00:00] a",
        "noise",
        "[2024-07-10 12:00:00] b",
        "[2024-07-10 12:01:00] c",
        "[2024-07-10 13:00:00] d",
    ]);
    let first = scan_file("app.log", &lines, 600);
    let second = scan_file("app.log", &lines, 600);
    assert_eq!(first.len(), 2);
    assert_eq!(first, second);
}

#[test]
fn earlier_timestamp_is_no_gap() {
    let lines = owned(&[
        "[2024-07-10 12:00:00] a",
        "[2024-07-10 11:00:00] b",
        "[2024-07-10 11:10:00] c",
    ]);
    let events = scan_file("f", &lines, 600);
    assert_eq!(
        events,
        vec![event(
            "f",
            "[2024-07-10 11:00:00] b",
            1978711412400,
            "[2024-07-10 11:10:00] c",
            1978711413000,
        )]
    );
    assert_eq!(scan_file("f", &lines, 0).len(), 1);
}

#[test]
fn ordinal_zero_counts_as_nothing_seen() {
    let lines = owned(&["[0000-00-00 00:00:00] a", "[2024-07-10 11:00:00] b"]);
    assert_eq!(scan_file("f", &lines, 600), vec![]);
}

#[test]
fn table_is_fixed_by_first_candidate() {
    let lines = owned(&[
        "[2023-12-31 23:59:59] a",
        "[2024-02-29 00:00:00] b",
        "[2024-03-01 00:10:00] c",
    ]);
    let events = scan_file("f", &lines, 600);
    assert_eq!(events.len(), 2);
    assert_eq!(
        events[1].previous_ordinal,
        decode_timestamp("2024-02-29 00:00:00", DayTable::Common)
    );
    assert_eq!(
        events[1].current_ordinal,
        decode_timestamp("2024-03-01 00:10:00", DayTable::Common)
    );
    assert_eq!(events[1].current_ordinal - events[1].previous_ordinal, 600);

    let lines = owned(&["[2024-02-29 00:00:00] b", "[2024-03-01 00:10:00] c"]);
    let events = scan_file("f", &lines, 600);
    assert_eq!(events.len(), 1);
    assert_eq!(events[0].current_ordinal - events[0].previous_ordinal, 86400 + 600);
}

#[test]
fn empty_file_has_no_gaps() {
    assert_eq!(scan_file("f", &vec![], 600), vec![]);
    assert_eq!(scan_file("f", &owned(&["[2024-07-10 11:00:00] only"]), 0), vec![]);
}

#[test]
fn fresh_state_has_seen_nothing() {
    let state = ScanState::new();
    assert_eq!(state.last_ordinal, 0);
    assert_eq!(state.last_line, "");
    assert_eq!(state.gap_count, 0);
    assert_eq!(state.table, None);
}

#[test]
fn scanner_steps_line_by_line() {
    let mut scanner = GapScanner::new("app.log", 600);
    assert_eq!(scanner.path(), "app.log");
    assert_eq!(scanner.threshold_seconds(), 600);
    assert_eq!(scanner.gaps_found(), 0);
    assert_eq!(scanner.state(), &ScanState::new());

    assert_eq!(scanner.process("not a timestamped line at all"), None);
    assert_eq!(scanner.state(), &ScanState::new());

    assert_eq!(scanner.process("[2024-07-10 11:00:00] a"), None);
    assert_eq!(scanner.state().last_ordinal, 1978711412400);
    assert_eq!(scanner.state().last_line, "[2024-07-10 11:00:00] a");
    assert_eq!(scanner.state().table, Some(DayTable::Leap));
    assert_eq!(scanner.gaps_found(), 0);

    let before = scanner.state().clone();
    assert_eq!(scanner.process("[2024-07-10 11:59:00]"), None);
    assert_eq!(scanner.state(), &before);

    assert_eq!(scanner.process("[2024-07-10 11:05:00] b"), None);
    assert_eq!(scanner.state().last_ordinal, 1978711412700);
    assert_eq!(scanner.gaps_found(), 0);

    assert_eq!(
        scanner.process("[2024-07-10 11:20:00] c"),
        Some(event(
            "app.log",
            "[2024-07-10 11:05:00] b",
            1978711412700,
            "[2024-07-10 11:20:00] c",
            1978711413600,
        ))
    );
    assert_eq!(scanner.gaps_found(), 1);
    assert_eq!(scanner.state().last_line, "[2024-07-10 11:20:00] c");
    assert_eq!(scanner.state().last_ordinal, 1978711413600);
    assert_eq!(scanner.path(), "app.log");
    assert_eq!(scanner.threshold_seconds(), 600);
}

#[test]
fn new_scanner_does_not_see_the_file_before() {
    let mut first = GapScanner::new("x.log", 600);
    assert_eq!(first.process("[2024-07-10 11:00:00] last of x"), None);
    let mut second = GapScanner::new("y.log", 600);
    assert_eq!(second.process("[2024-07-10 12:00:00] first of y"), None);
    assert_eq!(second.gaps_found(), 0);
    let found = second.process("[2024-07-10 12:30:00] second of y");
    assert_eq!(
        found,
        Some(event(
            "y.log",
            "[2024-07-10 12:00:00] first of y",
            1978711416000,
            "[2024-07-10 12:30:00] second of y",
            1978711417800,
        ))
    );
}
