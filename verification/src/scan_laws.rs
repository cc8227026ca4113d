//! What holds of every scan.
//!
//! The proofs here are stated over the model of [`crate::scanner`], the one
//! that the contracts of its functions speak of.
use vstd::prelude::*;
use crate::calendar::DayTable;
use crate::scanner::{
    events_view, gaps_in, is_candidate, state_after, timestamp_span, GapEvent, GapEventView,
    ScanStateView, MIN_LINE_LEN,
};
use crate::timestamp::{span_ordinal, span_year};

verus! {

/// A line that is too short, does not open with `[`, or has no `]` is no
/// candidate.
pub proof fn lemma_malformed_line_is_no_candidate(line: Seq<char>)
    requires
        line.len() < MIN_LINE_LEN || line[0] != '[' || !line.contains(']'),
    ensures
        !is_candidate(line),
{
    line.index_of_first_ensures(']');
}

/// Taking in a line that is no candidate leaves the state as it was, so the
/// ordinal that the next candidate is compared with stays, and reports
/// nothing.
pub proof fn lemma_non_candidate_is_skipped(
    state: ScanStateView,
    path: Seq<char>,
    line: Seq<char>,
    threshold: nat,
)
    requires
        !is_candidate(line),
    ensures
        state.step(line, threshold) == state,
        state.gap(path, line, threshold) is None,
{
}

/// The lines that are no candidates do not matter to a scan: it ends in the
/// same state and reports the same gaps as a scan of the candidate lines
/// alone, wherever the other lines stand among them.
pub proof fn lemma_scan_sees_candidates_only(
    path: Seq<char>,
    lines: Seq<Seq<char>>,
    threshold: nat,
)
    ensures
        state_after(lines.filter(|line: Seq<char>| is_candidate(line)), threshold) == state_after(
            lines,
            threshold,
        ),
        gaps_in(path, lines.filter(|line: Seq<char>| is_candidate(line)), threshold) == gaps_in(
            path,
            lines,
            threshold,
        ),
    decreases lines.len(),
{
    let keep = |line: Seq<char>| is_candidate(line);
    reveal(Seq::filter);
    if lines.len() > 0 {
        lemma_scan_sees_candidates_only(path, lines.drop_last(), threshold);
        if is_candidate(lines.last()) {
            let kept = lines.drop_last().filter(keep);
            assert(lines.filter(keep) == kept.push(lines.last()));
            assert(kept.push(lines.last()).drop_last() == kept);
        }
    }
}

/// Taking a line that is no candidate out of a file changes nothing about
/// the gaps reported, not even when the lines on both sides of it lie a
/// gap apart.
pub proof fn lemma_dropping_non_candidate(
    path: Seq<char>,
    lines: Seq<Seq<char>>,
    at: int,
    threshold: nat,
)
    requires
        0 <= at < lines.len(),
        !is_candidate(lines[at]),
    ensures
        gaps_in(path, lines.remove(at), threshold) == gaps_in(path, lines, threshold),
{
    let keep = |line: Seq<char>| is_candidate(line);
    let head = lines.take(at);
    let tail = lines.skip(at + 1);
    let one = seq![lines[at]];
    assert(lines == head + one + tail);
    assert(lines.remove(at) == head + tail);
    Seq::filter_distributes_over_add(head + one, tail, keep);
    Seq::filter_distributes_over_add(head, one, keep);
    Seq::filter_distributes_over_add(head, tail, keep);
    assert(one.filter(keep) == Seq::<Seq<char>>::empty()) by {
        reveal_with_fuel(Seq::filter, 2);
    }
    assert(head.filter(keep) + Seq::<Seq<char>>::empty() == head.filter(keep));
    lemma_scan_sees_candidates_only(path, lines, threshold);
    lemma_scan_sees_candidates_only(path, lines.remove(at), threshold);
}

/// The first candidate line of a file is compared with nothing: a scan that
/// has seen no candidate yet reports no gap, whatever it takes in.
pub proof fn lemma_fresh_scan_reports_nothing(path: Seq<char>, line: Seq<char>, threshold: nat)
    ensures
        ScanStateView::fresh().gap(path, line, threshold) is None,
{
}

/// The threshold is inclusive: a candidate line whose ordinal lies exactly
/// `threshold` after the one before it is reported, and one that lies any
/// less after it, or before it, is not.
pub proof fn lemma_threshold_is_inclusive(
    state: ScanStateView,
    path: Seq<char>,
    line: Seq<char>,
    threshold: nat,
)
    requires
        is_candidate(line),
        state.last_ordinal != 0,
    ensures
        state.ordinal_for(line) == state.last_ordinal + threshold ==> state.gap(
            path,
            line,
            threshold,
        ) is Some,
        state.ordinal_for(line) < state.last_ordinal + threshold ==> state.gap(
            path,
            line,
            threshold,
        ) is None,
{
}

/// Scanning is repeatable: two scans of the same lines of the same file,
/// each begun afresh, report the same gaps.
pub proof fn lemma_rescan_reports_same_gaps(
    path: Seq<char>,
    lines: Seq<Seq<char>>,
    threshold: nat,
    first: Seq<GapEvent>,
    second: Seq<GapEvent>,
)
    requires
        events_view(first) == gaps_in(path, lines, threshold),
        events_view(second) == gaps_in(path, lines, threshold),
    ensures
        events_view(first) == events_view(second),
        first.len() == second.len(),
        forall|k: int| 0 <= k < first.len() ==> (#[trigger] first[k])@ == second[k]@,
{
    assert(events_view(first).len() == first.len());
    assert(events_view(second).len() == second.len());
    assert forall|k: int| 0 <= k < first.len() implies (#[trigger] first[k])@ == second[k]@ by {
        assert(events_view(first)[k] == first[k]@);
        assert(events_view(second)[k] == second[k]@);
    }
}

/// The position of the last candidate among `lines`, if there is one.
pub open spec fn last_candidate(lines: Seq<Seq<char>>) -> Option<int>
    decreases lines.len(),
{
    if lines.len() == 0 {
        None
    } else if is_candidate(lines.last()) {
        Some(lines.len() - 1)
    } else {
        last_candidate(lines.drop_last())
    }
}

/// The month table of a file: the one for the year of its first candidate
/// line. A file without candidates has none.
pub open spec fn file_table(lines: Seq<Seq<char>>) -> Option<DayTable>
    decreases lines.len(),
{
    if lines.len() == 0 {
        None
    } else {
        match file_table(lines.drop_last()) {
            Some(table) => Some(table),
            None => if is_candidate(lines.last()) {
                Some(DayTable::spec_for_year(span_year(timestamp_span(lines.last()))))
            } else {
                None
            },
        }
    }
}

/// The ordinal of the candidate line at `at`, under the table of its file.
pub open spec fn line_ordinal(lines: Seq<Seq<char>>, at: int) -> nat
    recommends
        0 <= at < lines.len(),
        is_candidate(lines[at]),
{
    span_ordinal(timestamp_span(lines[at]), file_table(lines).unwrap())
}

/// Whether the lines at `earlier` and `later` are candidates with no
/// candidate between them.
pub open spec fn are_neighbours(lines: Seq<Seq<char>>, earlier: int, later: int) -> bool {
    &&& 0 <= earlier < later < lines.len()
    &&& is_candidate(lines[earlier])
    &&& is_candidate(lines[later])
    &&& forall|between: int| earlier < between < later ==> !is_candidate(#[trigger] lines[between])
}

/// Whether the lines at `earlier` and `later` form a gap: they are
/// neighbours, the earlier one has an ordinal other than 0, and the later
/// one lies at least `threshold` after it.
pub open spec fn is_gap(lines: Seq<Seq<char>>, threshold: nat, earlier: int, later: int) -> bool {
    &&& are_neighbours(lines, earlier, later)
    &&& line_ordinal(lines, earlier) != 0
    &&& line_ordinal(lines, later) - line_ordinal(lines, earlier) >= threshold
}

/// The event that reports the lines at `earlier` and `later` as a gap.
pub open spec fn gap_event(path: Seq<char>, lines: Seq<Seq<char>>, earlier: int, later: int) -> GapEventView {
    GapEventView {
        path,
        previous_line: lines[earlier],
        previous_ordinal: line_ordinal(lines, earlier),
        current_line: lines[later],
        current_ordinal: line_ordinal(lines, later),
    }
}

/// Where [`last_candidate`] points: at a candidate that no candidate
/// follows. It is `None` only where no line is a candidate.
pub proof fn lemma_last_candidate(lines: Seq<Seq<char>>)
    ensures
        match last_candidate(lines) {
            Some(at) => {
                &&& 0 <= at < lines.len()
                &&& is_candidate(lines[at])
                &&& forall|after: int|
                    at < after < lines.len() ==> !is_candidate(#[trigger] lines[after])
            },
            None => forall|at: int| 0 <= at < lines.len() ==> !is_candidate(#[trigger] lines[at]),
        },
    decreases lines.len(),
{
    if lines.len() > 0 && !is_candidate(lines.last()) {
        lemma_last_candidate(lines.drop_last());
        let shorter = lines.drop_last();
        assert forall|at: int| 0 <= at < shorter.len() implies shorter[at] == lines[at] by {}
    }
}

/// A file has a month table exactly if it has a candidate line.
pub proof fn lemma_file_table_exists(lines: Seq<Seq<char>>)
    ensures
        file_table(lines) is Some <==> last_candidate(lines) is Some,
    decreases lines.len(),
{
    if lines.len() > 0 {
        lemma_file_table_exists(lines.drop_last());
    }
}

/// Lines that follow the first candidate do not change the table: once the
/// first `upto` lines have one, the whole file has the same.
pub proof fn lemma_file_table_is_fixed(lines: Seq<Seq<char>>, upto: int)
    requires
        0 <= upto <= lines.len(),
        file_table(lines.take(upto)) is Some,
    ensures
        file_table(lines) == file_table(lines.take(upto)),
    decreases lines.len(),
{
    if upto == lines.len() {
        assert(lines.take(upto) == lines);
    } else {
        assert(lines.drop_last().take(upto) == lines.take(upto));
        lemma_file_table_is_fixed(lines.drop_last(), upto);
    }
}

/// What a scan remembers: before the first candidate nothing, and from then
/// on the table of the file, the text of the latest candidate line and its
/// ordinal, and the number of gaps reported.
pub proof fn lemma_state_after(path: Seq<char>, lines: Seq<Seq<char>>, threshold: nat)
    ensures
        state_after(lines, threshold).table == file_table(lines),
        state_after(lines, threshold).gap_count == gaps_in(path, lines, threshold).len(),
        match last_candidate(lines) {
            Some(at) => {
                &&& state_after(lines, threshold).last_line == lines[at]
                &&& state_after(lines, threshold).last_ordinal == line_ordinal(lines, at)
            },
            None => state_after(lines, threshold) == ScanStateView::fresh(),
        },
    decreases lines.len(),
{
    if lines.len() > 0 {
        let shorter = lines.drop_last();
        lemma_state_after(path, shorter, threshold);
        lemma_last_candidate(shorter);
        lemma_file_table_exists(shorter);
        if !is_candidate(lines.last()) {
            match last_candidate(shorter) {
                Some(at) => {
                    assert(shorter[at] == lines[at]);
                },
                None => {},
            }
        }
    }
}

/// Lines added to a file change nothing about the pairs that lie before
/// them: such a pair is a gap of the longer file exactly if it is one of
/// the shorter, and is reported by the same event.
pub proof fn lemma_gap_of_prefix(
    path: Seq<char>,
    lines: Seq<Seq<char>>,
    threshold: nat,
    upto: int,
    earlier: int,
    later: int,
)
    requires
        0 <= earlier < later < upto <= lines.len(),
        is_candidate(lines[earlier]),
    ensures
        is_gap(lines.take(upto), threshold, earlier, later) == is_gap(
            lines,
            threshold,
            earlier,
            later,
        ),
        gap_event(path, lines.take(upto), earlier, later) == gap_event(
            path,
            lines,
            earlier,
            later,
        ),
{
    let shorter = lines.take(upto);
    lemma_file_table_exists(shorter);
    lemma_last_candidate(shorter);
    assert(shorter[earlier] == lines[earlier]);
    lemma_file_table_is_fixed(lines, upto);
    assert(shorter[earlier] == lines[earlier]);
    assert(shorter[later] == lines[later]);
    if are_neighbours(shorter, earlier, later) {
        assert forall|between: int| earlier < between < later implies !is_candidate(
            #[trigger] lines[between],
        ) by {
            assert(shorter[between] == lines[between]);
        }
    }
    if are_neighbours(lines, earlier, later) {
        assert forall|between: int| earlier < between < later implies !is_candidate(
            #[trigger] shorter[between],
        ) by {
            assert(shorter[between] == lines[between]);
        }
    }
}

/// Whether the last of `lines` closes a gap with the candidate before it.
pub open spec fn last_closes_gap(lines: Seq<Seq<char>>, threshold: nat) -> bool {
    &&& lines.len() > 0
    &&& last_candidate(lines.drop_last()) matches Some(earlier)
    &&& is_gap(lines, threshold, earlier, lines.len() - 1)
}

/// One more line adds one event if it closes a gap with the candidate
/// before it, and none otherwise.
pub proof fn lemma_gaps_in_step(path: Seq<char>, lines: Seq<Seq<char>>, threshold: nat)
    requires
        lines.len() > 0,
    ensures
        gaps_in(path, lines, threshold) == if last_closes_gap(lines, threshold) {
            gaps_in(path, lines.drop_last(), threshold).push(
                gap_event(
                    path,
                    lines,
                    last_candidate(lines.drop_last()).unwrap(),
                    lines.len() - 1,
                ),
            )
        } else {
            gaps_in(path, lines.drop_last(), threshold)
        },
{
    let shorter = lines.drop_last();
    let last = lines.len() - 1;
    assert(lines.take(last) == shorter);
    lemma_state_after(path, shorter, threshold);
    lemma_last_candidate(shorter);
    lemma_file_table_exists(shorter);
    match last_candidate(shorter) {
        Some(earlier) => {
            assert(shorter[earlier] == lines[earlier]);
            assert forall|between: int| earlier < between < last implies !is_candidate(
                #[trigger] lines[between],
            ) by {
                assert(shorter[between] == lines[between]);
            }
        },
        None => {},
    }
}

/// Every event that a scan reports is a gap of the file: it pairs two
/// neighbouring candidate lines of that file, the earlier with an ordinal
/// other than 0 and the later at least the threshold after it, and carries
/// their texts, their ordinals and the path of the file.
pub proof fn lemma_every_event_is_a_gap(
    path: Seq<char>,
    lines: Seq<Seq<char>>,
    threshold: nat,
    k: int,
) -> (pair: (int, int))
    requires
        0 <= k < gaps_in(path, lines, threshold).len(),
    ensures
        is_gap(lines, threshold, pair.0, pair.1),
        gaps_in(path, lines, threshold)[k] == gap_event(path, lines, pair.0, pair.1),
    decreases lines.len(),
{
    let shorter = lines.drop_last();
    let last = lines.len() - 1;
    lemma_gaps_in_step(path, lines, threshold);
    if k < gaps_in(path, shorter, threshold).len() {
        let pair = lemma_every_event_is_a_gap(path, shorter, threshold, k);
        assert(lines.take(last) == shorter);
        lemma_gap_of_prefix(path, lines, threshold, last, pair.0, pair.1);
        pair
    } else {
        (last_candidate(shorter).unwrap(), last)
    }
}

/// Every gap of the file is reported: for each pair of lines that forms a
/// gap, the scan holds the event that reports it.
pub proof fn lemma_every_gap_is_reported(
    path: Seq<char>,
    lines: Seq<Seq<char>>,
    threshold: nat,
    earlier: int,
    later: int,
) -> (k: int)
    requires
        is_gap(lines, threshold, earlier, later),
    ensures
        0 <= k < gaps_in(path, lines, threshold).len(),
        gaps_in(path, lines, threshold)[k] == gap_event(path, lines, earlier, later),
    decreases lines.len(),
{
    let shorter = lines.drop_last();
    let last = lines.len() - 1;
    lemma_gaps_in_step(path, lines, threshold);
    if later < last {
        assert(lines.take(last) == shorter);
        lemma_gap_of_prefix(path, lines, threshold, last, earlier, later);
        lemma_every_gap_is_reported(path, shorter, threshold, earlier, later)
    } else {
        lemma_last_candidate(shorter);
        assert(shorter[earlier] == lines[earlier]);
        let found = last_candidate(shorter).unwrap();
        assert(shorter[found] == lines[found]);
        gaps_in(path, shorter, threshold).len() as int
    }
}

/// Events come in file order: of two events, the one reported first pairs
/// lines that end no later than the lines of the other begin.
pub proof fn lemma_events_in_file_order(
    path: Seq<char>,
    lines: Seq<Seq<char>>,
    threshold: nat,
    k: int,
    l: int,
) -> (pairs: ((int, int), (int, int)))
    requires
        0 <= k < l < gaps_in(path, lines, threshold).len(),
    ensures
        is_gap(lines, threshold, pairs.0.0, pairs.0.1),
        is_gap(lines, threshold, pairs.1.0, pairs.1.1),
        gaps_in(path, lines, threshold)[k] == gap_event(path, lines, pairs.0.0, pairs.0.1),
        gaps_in(path, lines, threshold)[l] == gap_event(path, lines, pairs.1.0, pairs.1.1),
        pairs.0.1 <= pairs.1.0,
    decreases lines.len(),
{
    let shorter = lines.drop_last();
    let last = lines.len() - 1;
    lemma_gaps_in_step(path, lines, threshold);
    assert(lines.take(last) == shorter);
    if l < gaps_in(path, shorter, threshold).len() {
        let pairs = lemma_events_in_file_order(path, shorter, threshold, k, l);
        lemma_gap_of_prefix(path, lines, threshold, last, pairs.0.0, pairs.0.1);
        lemma_gap_of_prefix(path, lines, threshold, last, pairs.1.0, pairs.1.1);
        pairs
    } else {
        let first = lemma_every_event_is_a_gap(path, shorter, threshold, k);
        lemma_gap_of_prefix(path, lines, threshold, last, first.0, first.1);
        lemma_last_candidate(shorter);
        let found = last_candidate(shorter).unwrap();
        assert(shorter[first.1] == lines[first.1]);
        (first, (found, last))
    }
}

} // verus!
