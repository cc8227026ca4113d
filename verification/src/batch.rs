//! Scanning several files in one run.
use vstd::prelude::*;
use crate::scan_laws::{gap_event, is_gap, lemma_every_event_is_a_gap};
use crate::scanner::{events_view, gaps_in, lines_view, scan_file, GapEvent, GapEventView};

verus! {

/// A file held in memory: its path and its lines in file order.
#[derive(Clone, Debug, PartialEq, Eq)]
pub struct LogFile {
    pub path: String,
    pub lines: Vec<String>,
}

/// The mathematical content of a [`LogFile`].
pub struct LogFileView {
    pub path: Seq<char>,
    pub lines: Seq<Seq<char>>,
}

impl View for LogFile {
    type V = LogFileView;

    open spec fn view(&self) -> LogFileView {
        LogFileView { path: self.path@, lines: lines_view(self.lines@) }
    }
}

/// The views of a run of files.
pub open spec fn files_view(files: Seq<LogFile>) -> Seq<LogFileView> {
    files.map_values(|file: LogFile| file@)
}

/// Whether a line of a list of files names a file: every line but an empty
/// one does.
pub open spec fn names_file(entry: Seq<char>) -> bool {
    entry.len() > 0
}

/// Tells whether a line of a list of files names a file.
pub fn entry_names_file(entry: &str) -> (named: bool)
    ensures
        named == names_file(entry@),
{
    !entry.is_empty()
}

/// The paths that the lines of a list of files name, in the order of the
/// list.
pub fn listed_paths(entries: &Vec<String>) -> (paths: Vec<String>)
    ensures
        lines_view(paths@) == lines_view(entries@).filter(|entry: Seq<char>| names_file(entry)),
{
    let ghost all = lines_view(entries@);
    let ghost keep = |entry: Seq<char>| names_file(entry);
    let mut paths: Vec<String> = Vec::new();
    let mut i: usize = 0;
    proof {
        reveal(Seq::filter);
        assert(all.take(0).filter(keep) == Seq::<Seq<char>>::empty());
        assert(lines_view(paths@) == Seq::<Seq<char>>::empty());
    }
    while i < entries.len()
        invariant
            i <= entries.len(),
            all == lines_view(entries@),
            keep == |entry: Seq<char>| names_file(entry),
            lines_view(paths@) == all.take(i as int).filter(keep),
        decreases entries.len() - i,
    {
        let ghost before = lines_view(paths@);
        proof {
            reveal(Seq::filter);
            assert(all.take(i + 1).drop_last() == all.take(i as int));
            assert(all.take(i + 1).last() == entries[i as int]@);
        }
        if entry_names_file(entries[i].as_str()) {
            paths.push(entries[i].clone());
            assert(lines_view(paths@) == before.push(entries[i as int]@));
        }
        i += 1;
    }
    assert(all.take(i as int) == all);
    paths
}

/// The gaps that scanning `files` one after another reports: those of the
/// first file, then those of the second, and so on, each file scanned from a
/// fresh start.
pub open spec fn gaps_in_files(files: Seq<LogFileView>, threshold: nat) -> Seq<GapEventView>
    decreases files.len(),
{
    if files.len() == 0 {
        Seq::empty()
    } else {
        gaps_in_files(files.drop_last(), threshold) + gaps_in(
            files.last().path,
            files.last().lines,
            threshold,
        )
    }
}

/// Files are scanned apart: every event of a run is a gap of one of its
/// files, so both of its lines are lines of that one file. The first
/// candidate line of a file is never compared with a line of the file
/// before it.
pub proof fn lemma_events_stay_within_files(files: Seq<LogFileView>, threshold: nat, k: int) -> (at: (
    int,
    int,
    int,
))
    requires
        0 <= k < gaps_in_files(files, threshold).len(),
    ensures
        0 <= at.0 < files.len(),
        is_gap(files[at.0].lines, threshold, at.1, at.2),
        gaps_in_files(files, threshold)[k] == gap_event(
            files[at.0].path,
            files[at.0].lines,
            at.1,
            at.2,
        ),
    decreases files.len(),
{
    let before = gaps_in_files(files.drop_last(), threshold);
    if k < before.len() {
        let at = lemma_events_stay_within_files(files.drop_last(), threshold, k);
        assert(files.drop_last()[at.0] == files[at.0]);
        at
    } else {
        let file = files.last();
        let pair = lemma_every_event_is_a_gap(file.path, file.lines, threshold, k - before.len());
        (files.len() - 1, pair.0, pair.1)
    }
}

/// Scans `files` one after another and returns all their gaps, in the order
/// of the files and within a file in file order.
pub fn scan_files(files: &Vec<LogFile>, threshold_seconds: u64) -> (events: Vec<GapEvent>)
    ensures
        events_view(events@) == gaps_in_files(files_view(files@), threshold_seconds as nat),
{
    let ghost all = files_view(files@);
    let ghost threshold = threshold_seconds as nat;
    let mut events: Vec<GapEvent> = Vec::new();
    let mut i: usize = 0;
    while i < files.len()
        invariant
            i <= files.len(),
            all == files_view(files@),
            threshold == threshold_seconds,
            events_view(events@) == gaps_in_files(all.take(i as int), threshold),
        decreases files.len() - i,
    {
        let ghost before = events@;
        let mut found = scan_file(files[i].path.as_str(), &files[i].lines, threshold_seconds);
        let ghost added = found@;
        events.append(&mut found);
        proof {
            assert(all.take(i + 1).drop_last() == all.take(i as int));
            assert(all.take(i + 1).last() == files[i as int]@);
            assert(events@ == before + added);
            assert(events_view(before + added) == events_view(before) + events_view(added));
        }
        i += 1;
    }
    assert(all.take(i as int) == all);
    events
}

} // verus!
