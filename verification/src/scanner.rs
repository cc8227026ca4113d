//! Finding gaps between neighbouring timestamped lines of one file.
//!
//! A scan walks the lines of a file in order. A line takes part only if it
//! is a candidate: it opens with `[`, is long enough, and has its first `]`
//! far enough to the right to enclose a whole timestamp. Each candidate is
//! decoded to an ordinal and compared with the candidate before it; when the
//! two lie at least the threshold apart, the pair is reported as a gap.
use vstd::prelude::*;
use vstd::string::StrSliceExecFns;
use crate::calendar::DayTable;
use crate::timestamp::{decode_timestamp, read_year, span_ordinal, span_year, TIMESTAMP_LEN};

verus! {

/// Fewest characters a candidate line has: the two brackets, the timestamp
/// between them, and one character after.
pub const MIN_LINE_LEN: usize = 22;

/// Threshold in seconds that callers use unless they choose their own.
pub const DEFAULT_THRESHOLD_SECONDS: u64 = 600;

/// Whether `line` is a candidate for decoding.
pub open spec fn is_candidate(line: Seq<char>) -> bool {
    &&& line.len() >= MIN_LINE_LEN
    &&& line[0] == '['
    &&& line.index_of_first(']') matches Some(close)
    &&& close - 1 >= TIMESTAMP_LEN
}

/// The characters between the opening bracket of a candidate line and its
/// first closing bracket.
pub open spec fn timestamp_span(line: Seq<char>) -> Seq<char>
    recommends
        is_candidate(line),
{
    line.subrange(1, line.index_of_first(']').unwrap())
}

/// What a scan remembers between two lines of a file.
#[derive(Clone, Debug, PartialEq, Eq)]
pub struct ScanState {
    /// Ordinal of the latest candidate line; 0 while there has been none.
    pub last_ordinal: u64,
    /// Full text of the latest candidate line.
    pub last_line: String,
    /// Number of gaps reported so far.
    pub gap_count: u64,
    /// The month table of this file, fixed by its first candidate line.
    pub table: Option<DayTable>,
}

/// The mathematical content of a [`ScanState`].
pub struct ScanStateView {
    pub last_ordinal: nat,
    pub last_line: Seq<char>,
    pub gap_count: nat,
    pub table: Option<DayTable>,
}

impl View for ScanState {
    type V = ScanStateView;

    open spec fn view(&self) -> ScanStateView {
        ScanStateView {
            last_ordinal: self.last_ordinal as nat,
            last_line: self.last_line@,
            gap_count: self.gap_count as nat,
            table: self.table,
        }
    }
}

/// One detected gap: two neighbouring candidate lines of a file whose
/// ordinals lie at least the threshold apart.
#[derive(Clone, Debug, PartialEq, Eq)]
pub struct GapEvent {
    /// The file that the two lines belong to.
    pub path: String,
    /// Full text of the earlier line.
    pub previous_line: String,
    /// Ordinal of the earlier line.
    pub previous_ordinal: u64,
    /// Full text of the later line.
    pub current_line: String,
    /// Ordinal of the later line.
    pub current_ordinal: u64,
}

/// The mathematical content of a [`GapEvent`].
pub struct GapEventView {
    pub path: Seq<char>,
    pub previous_line: Seq<char>,
    pub previous_ordinal: nat,
    pub current_line: Seq<char>,
    pub current_ordinal: nat,
}

impl View for GapEvent {
    type V = GapEventView;

    open spec fn view(&self) -> GapEventView {
        GapEventView {
            path: self.path@,
            previous_line: self.previous_line@,
            previous_ordinal: self.previous_ordinal as nat,
            current_line: self.current_line@,
            current_ordinal: self.current_ordinal as nat,
        }
    }
}

impl ScanStateView {
    /// The state at the start of a file: nothing seen, no table chosen.
    pub open spec fn fresh() -> ScanStateView {
        ScanStateView { last_ordinal: 0, last_line: Seq::empty(), gap_count: 0, table: None }
    }

    /// The month table that decoding `line` in this state goes by: the one
    /// already chosen, else the one for the year that `line` shows.
    pub open spec fn table_for(self, line: Seq<char>) -> DayTable {
        match self.table {
            Some(table) => table,
            None => DayTable::spec_for_year(span_year(timestamp_span(line))),
        }
    }

    /// The ordinal that `line` decodes to in this state.
    pub open spec fn ordinal_for(self, line: Seq<char>) -> nat {
        span_ordinal(timestamp_span(line), self.table_for(line))
    }

    /// Whether taking in `line` in this state reports a gap: `line` is a
    /// candidate, there is a candidate before it, and `line` lies no earlier
    /// than that one and at least `threshold` after it.
    pub open spec fn finds_gap(self, line: Seq<char>, threshold: nat) -> bool {
        &&& is_candidate(line)
        &&& self.last_ordinal != 0
        &&& self.ordinal_for(line) - self.last_ordinal >= threshold
    }

    /// The gap that taking in `line` reports, if it reports one.
    pub open spec fn gap(self, path: Seq<char>, line: Seq<char>, threshold: nat) -> Option<
        GapEventView,
    > {
        if self.finds_gap(line, threshold) {
            Some(
                GapEventView {
                    path,
                    previous_line: self.last_line,
                    previous_ordinal: self.last_ordinal,
                    current_line: line,
                    current_ordinal: self.ordinal_for(line),
                },
            )
        } else {
            None
        }
    }

    /// The state after taking in `line`. A line that is no candidate leaves
    /// the state as it is.
    pub open spec fn step(self, line: Seq<char>, threshold: nat) -> ScanStateView {
        if is_candidate(line) {
            ScanStateView {
                last_ordinal: self.ordinal_for(line),
                last_line: line,
                gap_count: if self.finds_gap(line, threshold) {
                    self.gap_count + 1
                } else {
                    self.gap_count
                },
                table: Some(self.table_for(line)),
            }
        } else {
            self
        }
    }
}

/// Finds the first position of `needle` among the characters of `text`.
pub fn find_char(text: &str, needle: char) -> (found: Option<usize>)
    ensures
        match found {
            Some(i) => {
                &&& text@.index_of_first(needle) == Some(i as int)
                &&& i < text@.len()
                &&& text@[i as int] == needle
                &&& forall|j: int| 0 <= j < i ==> text@[j] != needle
            },
            None => {
                &&& text@.index_of_first(needle) is None
                &&& !text@.contains(needle)
            },
        },
{
    let len = text.unicode_len();
    let mut i: usize = 0;
    for c in it: text.chars()
        invariant
            i == it.index(),
            it.seq() == text@,
            len == text@.len(),
            forall|j: int| 0 <= j < i ==> text@[j] != needle,
    {
        if c == needle {
            proof {
                text@.index_of_first_ensures(needle);
            }
            return Some(i);
        }
        i += 1;
    }
    proof {
        text@.index_of_first_ensures(needle);
    }
    None
}

/// Returns the timestamp span of `line` if `line` is a candidate.
pub fn extract_timestamp(line: &str) -> (span: Option<&str>)
    ensures
        span is Some <==> is_candidate(line@),
        span matches Some(s) ==> s@ == timestamp_span(line@),
{
    if line.is_empty() {
        return None;
    }
    if line.get_char(0) != '[' {
        return None;
    }
    if line.unicode_len() < MIN_LINE_LEN {
        return None;
    }
    let close = match find_char(line, ']') {
        Some(close) => close,
        None => {
            return None;
        },
    };
    let span = line.substring_char(1, close);
    if span.unicode_len() < TIMESTAMP_LEN {
        return None;
    }
    Some(span)
}

impl ScanState {
    /// The state at the start of a file.
    pub fn new() -> (state: ScanState)
        ensures
            state@ == ScanStateView::fresh(),
    {
        ScanState { last_ordinal: 0, last_line: String::new(), gap_count: 0, table: None }
    }
}

/// The view of an optional event.
pub open spec fn event_view(event: Option<GapEvent>) -> Option<GapEventView> {
    match event {
        Some(e) => Some(e@),
        None => None,
    }
}

/// Scans the lines of one file, handed over one at a time.
#[derive(Clone, Debug)]
pub struct GapScanner {
    path: String,
    threshold_seconds: u64,
    state: ScanState,
}

/// The mathematical content of a [`GapScanner`].
pub struct GapScannerView {
    pub path: Seq<char>,
    pub threshold: nat,
    pub state: ScanStateView,
}

impl View for GapScanner {
    type V = GapScannerView;

    closed spec fn view(&self) -> GapScannerView {
        GapScannerView {
            path: self.path@,
            threshold: self.threshold_seconds as nat,
            state: self.state@,
        }
    }
}

impl GapScanner {
    /// A scanner at the start of the file `path`, reporting gaps of
    /// `threshold_seconds` or more.
    pub fn new(path: &str, threshold_seconds: u64) -> (scanner: GapScanner)
        ensures
            scanner@.path == path@,
            scanner@.threshold == threshold_seconds,
            scanner@.state == ScanStateView::fresh(),
    {
        GapScanner { path: path.to_owned(), threshold_seconds, state: ScanState::new() }
    }

    /// The path of the file being scanned.
    pub fn path(&self) -> (path: &str)
        ensures
            path@ == self@.path,
    {
        self.path.as_str()
    }

    /// The least distance in seconds that is reported as a gap.
    pub fn threshold_seconds(&self) -> (threshold: u64)
        ensures
            threshold == self@.threshold,
    {
        self.threshold_seconds
    }

    /// What the scan remembers of the lines taken in so far.
    pub fn state(&self) -> (state: &ScanState)
        ensures
            state@ == self@.state,
    {
        &self.state
    }

    /// The number of gaps reported so far.
    pub fn gaps_found(&self) -> (count: u64)
        ensures
            count == self@.state.gap_count,
    {
        self.state.gap_count
    }

    /// Takes in the next line of the file and reports the gap that it
    /// closes, if any.
    pub fn process(&mut self, line: &str) -> (event: Option<GapEvent>)
        requires
            old(self)@.state.gap_count < u64::MAX,
        ensures
            final(self)@.path == old(self)@.path,
            final(self)@.threshold == old(self)@.threshold,
            final(self)@.state == old(self)@.state.step(line@, old(self)@.threshold),
            event_view(event) == old(self)@.state.gap(
                old(self)@.path,
                line@,
                old(self)@.threshold,
            ),
    {
        let span = match extract_timestamp(line) {
            Some(span) => span,
            None => {
                return None;
            },
        };
        let table = match self.state.table {
            Some(table) => table,
            None => DayTable::for_year(read_year(span)),
        };
        let current = decode_timestamp(span, table);
        let previous = self.state.last_ordinal;
        let mut previous_line = line.to_owned();
        core::mem::swap(&mut self.state.last_line, &mut previous_line);
        self.state.last_ordinal = current;
        self.state.table = Some(table);
        if previous != 0 && current >= previous && current - previous >= self.threshold_seconds {
            self.state.gap_count += 1;
            Some(
                GapEvent {
                    path: self.path.clone(),
                    previous_line,
                    previous_ordinal: previous,
                    current_line: line.to_owned(),
                    current_ordinal: current,
                },
            )
        } else {
            None
        }
    }
}

/// The lines of a file as character sequences.
pub open spec fn lines_view(lines: Seq<String>) -> Seq<Seq<char>> {
    lines.map_values(|line: String| line@)
}

/// The views of a run of events.
pub open spec fn events_view(events: Seq<GapEvent>) -> Seq<GapEventView> {
    events.map_values(|event: GapEvent| event@)
}

/// The state of a scan that started fresh and has taken in `lines`.
pub open spec fn state_after(lines: Seq<Seq<char>>, threshold: nat) -> ScanStateView
    decreases lines.len(),
{
    if lines.len() == 0 {
        ScanStateView::fresh()
    } else {
        state_after(lines.drop_last(), threshold).step(lines.last(), threshold)
    }
}

/// The gaps that a scan of `lines` reports, in file order.
pub open spec fn gaps_in(path: Seq<char>, lines: Seq<Seq<char>>, threshold: nat) -> Seq<
    GapEventView,
>
    decreases lines.len(),
{
    if lines.len() == 0 {
        Seq::empty()
    } else {
        let earlier = gaps_in(path, lines.drop_last(), threshold);
        match state_after(lines.drop_last(), threshold).gap(path, lines.last(), threshold) {
            Some(event) => earlier.push(event),
            None => earlier,
        }
    }
}

/// Scans all lines of the file `path` and returns its gaps in file order.
pub fn scan_file(path: &str, lines: &Vec<String>, threshold_seconds: u64) -> (events: Vec<
    GapEvent,
>)
    ensures
        events_view(events@) == gaps_in(path@, lines_view(lines@), threshold_seconds as nat),
{
    let mut scanner = GapScanner::new(path, threshold_seconds);
    let mut events: Vec<GapEvent> = Vec::new();
    let ghost all = lines_view(lines@);
    let ghost threshold = threshold_seconds as nat;
    let mut i: usize = 0;
    while i < lines.len()
        invariant
            i <= lines.len(),
            all == lines_view(lines@),
            threshold == threshold_seconds,
            scanner@.path == path@,
            scanner@.threshold == threshold,
            scanner@.state == state_after(all.take(i as int), threshold),
            scanner@.state.gap_count <= i,
            events_view(events@) == gaps_in(path@, all.take(i as int), threshold),
        decreases lines.len() - i,
    {
        let ghost before = events_view(events@);
        let event = scanner.process(lines[i].as_str());
        proof {
            assert(all.take(i + 1).drop_last() == all.take(i as int));
            assert(all.take(i + 1).last() == lines[i as int]@);
        }
        match event {
            Some(event) => {
                events.push(event);
                assert(events_view(events@) == before.push(event@));
            },
            None => {},
        }
        i += 1;
    }
    assert(all.take(i as int) == all);
    events
}

} // verus!
