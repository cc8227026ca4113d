use sniffle::batch::{listed_paths, scan_files, LogFile};
use sniffle::scanner::scan_file;

fn owned(lines: &[&str]) -> Vec<String> {
    lines.iter().map(|line| line.to_string()).collect()
}

#[test]
fn empty_entries_name_no_file() {
    let entries = owned(&["a.log", "", "b.log", "", "", " ", "c.log"]);
    assert_eq!(listed_paths(&entries), owned(&["a.log", "b.log", " ", "c.log"]));
    assert_eq!(listed_paths(&owned(&["", ""])), owned(&[]));
    assert_eq!(listed_paths(&vec![]), owned(&[]));
}

#[test]
fn files_are_scanned_apart() {
    let x = LogFile {
        path: "x.log".to_string(),
        lines: owned(&["[2024-07-10 10:00:00] x1", "[2024-07-10 11:00:00] x2"]),
    };
    let y = LogFile {
        path: "y.log".to_string(),
        lines: owned(&["[2024-07-10 12:00:00] y1", "[2024-07-10 12:05:00] y2"]),
    };
    let events = scan_files(&vec![x.clone(), y.clone()], 600);
    assert_eq!(events.len(), 1);
    assert_eq!(events[0].path, "x.log");
    assert_eq!(events[0].previous_line, "[2024-07-10 10:00:00] x1");
    assert_eq!(events[0].current_line, "[2024-07-10 11:00:00] x2");

    let joined = owned(&[
        "[2024-07-10 10:00:00] x1",
        "[2024-07-10 11:00:00] x2",
        "[2024-07-10 12:00:00] y1",
        "[2024-07-10 12:05:00] y2",
    ]);
    assert_eq!(scan_file("x.log", &joined, 600).len(), 2);
}

#[test]
fn run_is_the_files_one_after_another() {
    let x = LogFile {
        path: "x.log".to_string(),
        lines: owned(&["[2023-03-01 10:00:00] x1", "[2023-03-01 11:00:00] x2"]),
    };
    let y = LogFile {
        path: "y.log".to_string(),
        lines: owned(&[
            "[2024-03-01 12:00:00] y1",
            "junk",
            "[2024-03-01 13:00:00] y2",
            "[2024-03-01 14:00:00] y3",
        ]),
    };
    let empty = LogFile { path: "empty.log".to_string(), lines: vec![] };
    let run = scan_files(&vec![x.clone(), empty.clone(), y.clone()], 600);
    let mut expected = scan_file("x.log", &x.lines, 600);
    expected.extend(scan_file("y.log", &y.lines, 600));
    assert_eq!(run, expected);
    assert_eq!(run.len(), 3);
    assert_eq!(run[1].path, "y.log");
    assert_eq!(run[1].previous_ordinal, 1978700097600);
    assert_eq!(scan_files(&vec![], 600), vec![]);
}

#[test]
fn only_an_empty_entry_names_no_file() {
    assert!(sniffle::batch::entry_names_file("a.log"));
    assert!(sniffle::batch::entry_names_file(" "));
    assert!(sniffle::batch::entry_names_file("# comment"));
    assert!(!sniffle::batch::entry_names_file(""));
}
