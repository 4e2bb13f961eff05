//! What is surfaced of a finished action.

use vstd::prelude::*;
use vstd::string::StringExecFns;
use crate::global::LogLevel;

verus! {

/// What to log of a finished action: the summary line, always, and the lines
/// of captured output that are surfaced, in the order in which they are
/// written.
#[derive(Debug)]
pub struct Report {
    pub success: bool,
    pub summary: String,
    pub lines: Vec<String>,
}

/// A report as the contracts speak of it.
pub struct ReportView {
    pub success: bool,
    pub summary: Seq<char>,
    pub lines: Seq<Seq<char>>,
}

impl View for Report {
    type V = ReportView;

    open spec fn view(&self) -> ReportView {
        ReportView {
            success: self.success,
            summary: self.summary@,
            lines: self.lines.deep_view(),
        }
    }
}

/// Standard output is surfaced if the command failed or the verbosity is at
/// least `Debug`.
pub open spec fn shows_stdout(success: bool, level: LogLevel) -> bool {
    !success || level.spec_rank() >= LogLevel::Debug.spec_rank()
}

/// Standard error is surfaced if the command failed or the verbosity is at
/// least `Trace`.
pub open spec fn shows_stderr(success: bool, level: LogLevel) -> bool {
    !success || level.spec_rank() >= LogLevel::Trace.spec_rank()
}

/// One stream as it is surfaced: its heading, then its lines, each behind the
/// stream's mark.
pub open spec fn section(heading: Seq<char>, mark: Seq<char>, lines: Seq<Seq<char>>) -> Seq<
    Seq<char>,
> {
    seq![heading] + lines.map_values(|line: Seq<char>| mark + line)
}

/// The summary line: the location, the command, and how the command ended.
pub open spec fn summary_of(
    location: Seq<char>,
    command: Seq<char>,
    success: bool,
    status: Seq<char>,
) -> Seq<char> {
    if success {
        location + ": \""@ + command + "\" finished successfully"@
    } else {
        location + ": \""@ + command + "\" failed: "@ + status
    }
}

/// The report of a command that ran to its end.
pub open spec fn report_of(
    location: Seq<char>,
    command: Seq<char>,
    success: bool,
    status: Seq<char>,
    stdout: Seq<Seq<char>>,
    stderr: Seq<Seq<char>>,
    level: LogLevel,
) -> ReportView {
    ReportView {
        success,
        summary: summary_of(location, command, success, status),
        lines: (if shows_stdout(success, level) {
            section("process stdout: "@, "1> "@, stdout)
        } else {
            Seq::empty()
        }) + (if shows_stderr(success, level) {
            section("process stderr: "@, "2> "@, stderr)
        } else {
            Seq::empty()
        }),
    }
}

/// Appends one stream as it is surfaced.
fn push_section(lines: &mut Vec<String>, heading: &str, mark: &str, body: &Vec<String>)
    ensures
        final(lines).deep_view() == old(lines).deep_view() + section(
            heading@,
            mark@,
            body.deep_view(),
        ),
{
    let ghost before = lines.deep_view();
    let ghost expected = section(heading@, mark@, body.deep_view());
    lines.push(String::from_str(heading));
    let mut i: usize = 0;
    while i < body.len()
        invariant
            i <= body.len(),
            expected == section(heading@, mark@, body.deep_view()),
            lines.len() == before.len() + 1 + i,
            forall|k: int| 0 <= k < before.len() ==> lines[k]@ == before[k],
            forall|k: int| 0 <= k < 1 + i ==> lines[before.len() + k]@ == expected[k],
        decreases body.len() - i,
    {
        let mut line = String::from_str(mark);
        line.append(body[i].as_str());
        assert(body.deep_view()[i as int] == body[i as int]@);
        lines.push(line);
        i += 1;
    }
    assert(lines.deep_view() =~= before + expected);
}

impl Report {
    /// The report of a command that ran to its end, from its exit, the lines
    /// of its output and the verbosity.
    pub fn compose(
        location: &str,
        command: &str,
        success: bool,
        status: &str,
        stdout: &Vec<String>,
        stderr: &Vec<String>,
        level: LogLevel,
    ) -> (report: Report)
        ensures
            report@ == report_of(
                location@,
                command@,
                success,
                status@,
                stdout.deep_view(),
                stderr.deep_view(),
                level,
            ),
    {
        let mut summary = String::from_str(location);
        summary.append(": \"");
        summary.append(command);
        if success {
            summary.append("\" finished successfully");
        } else {
            summary.append("\" failed: ");
            summary.append(status);
        }
        let mut lines: Vec<String> = Vec::new();
        assert(lines.deep_view() =~= Seq::<Seq<char>>::empty());
        if !success || level.at_least(LogLevel::Debug) {
            push_section(&mut lines, "process stdout: ", "1> ", stdout);
        } else {
            assert(lines.deep_view() =~= lines.deep_view() + Seq::<Seq<char>>::empty());
        }
        if !success || level.at_least(LogLevel::Trace) {
            push_section(&mut lines, "process stderr: ", "2> ", stderr);
        } else {
            assert(lines.deep_view() =~= lines.deep_view() + Seq::<Seq<char>>::empty());
        }
        Report { success, summary, lines }
    }
}

} // verus!
