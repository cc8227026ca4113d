//! The text that announces a gap.
use vstd::prelude::*;
use vstd::string::StringExecFns;
use crate::scanner::{GapEvent, GapEventView, GapScanner, ScanStateView};

verus! {

/// The text for one gap: an empty line, for the first gap of a file also
/// the path of the file, a colon and another empty line, and then the two
/// lines of the gap, the earlier first.
pub open spec fn gap_text(event: GapEventView, first_in_file: bool) -> Seq<char> {
    let heading = if first_in_file {
        "\n"@ + event.path + " :\n\n"@
    } else {
        "\n"@
    };
    heading + event.previous_line + "\n"@ + event.current_line + "\n"@
}

/// Writes out the text for one gap.
pub fn render_gap(event: &GapEvent, first_in_file: bool) -> (text: String)
    ensures
        text@ == gap_text(event@, first_in_file),
{
    let mut text = String::new();
    text.append("\n");
    if first_in_file {
        text.append(event.path.as_str());
        text.append(" :\n\n");
    }
    text.append(event.previous_line.as_str());
    text.append("\n");
    text.append(event.current_line.as_str());
    text.append("\n");
    text
}

/// The text to print when a scan in `state` takes in `line`, if there is
/// any: the text of the gap that `line` closes, headed by the path of the
/// file if no gap was reported before.
pub open spec fn line_text(
    state: ScanStateView,
    path: Seq<char>,
    line: Seq<char>,
    threshold: nat,
) -> Option<Seq<char>> {
    match state.gap(path, line, threshold) {
        Some(event) => Some(gap_text(event, state.gap_count == 0)),
        None => None,
    }
}

/// Takes in the next line of the file and returns the text to print for it,
/// if it closes a gap.
pub fn report_line(scanner: &mut GapScanner, line: &str) -> (text: Option<String>)
    requires
        old(scanner)@.state.gap_count < u64::MAX,
    ensures
        final(scanner)@.path == old(scanner)@.path,
        final(scanner)@.threshold == old(scanner)@.threshold,
        final(scanner)@.state == old(scanner)@.state.step(line@, old(scanner)@.threshold),
        match text {
            Some(text) => line_text(
                old(scanner)@.state,
                old(scanner)@.path,
                line@,
                old(scanner)@.threshold,
            ) == Some(text@),
            None => line_text(
                old(scanner)@.state,
                old(scanner)@.path,
                line@,
                old(scanner)@.threshold,
            ) is None,
        },
{
    let first_in_file = scanner.gaps_found() == 0;
    match scanner.process(line) {
        Some(event) => Some(render_gap(&event, first_in_file)),
        None => None,
    }
}

} // verus!
