//! What the benchmark makes of one run of the `chirograph analyze` process:
//! a failure to start or a failing exit is an execution failure, output that
//! is not a graph of the expected schema is invalid, and a graph is scored.

use vstd::prelude::*;
use crate::benchmark::model::{BenchmarkCase, GoldenV1};
use crate::cli::{cli_command, CliCommandView};
use crate::benchmark::score::{score_case, scored, CaseCounts, CaseStatus, ObservedGraph};
use crate::benchmark::source::{lossy_text, utf8_lossy};
use crate::text::{chars_eq, chars_of, owned, push_str, string_of, sub_chars, text_eq, trim, trim_chars, views};

verus! {

/// The schema that the graph output of `chirograph analyze` declares.
pub open spec fn graph_schema() -> Seq<char> {
    "chirograph-graph-v1"@
}

/// How much of the standard error stream a diagnostic keeps.
pub const MAX_STDERR_BYTES: usize = 4096;

/// The diagnostic kept of the standard error stream: its first bytes, decoded
/// and trimmed, marked when bytes were cut; nothing when that text is empty.
pub open spec fn stderr_notes(stderr: Seq<u8>) -> Seq<Seq<char>> {
    let end = if stderr.len() > 4096 { 4096 } else { stderr.len() as int };
    let text = trim(utf8_lossy(stderr.take(end)));
    if stderr.len() == 0 || text.len() == 0 {
        Seq::empty()
    } else if stderr.len() > 4096 {
        seq!["stderr:truncated:"@ + text]
    } else {
        seq!["stderr:"@ + text]
    }
}

pub fn stderr_diagnostics(stderr: &[u8]) -> (r: Vec<String>)
    ensures
        views(r@) == stderr_notes(stderr@),
{
    if stderr.len() == 0 {
        let none: Vec<String> = Vec::new();
        assert(views(none@) =~= Seq::<Seq<char>>::empty());
        return none;
    }
    let truncated = stderr.len() > MAX_STDERR_BYTES;
    let end = if truncated { MAX_STDERR_BYTES } else { stderr.len() };
    let head = vstd::slice::slice_subrange(stderr, 0, end);
    assert(head@ =~= stderr@.take(end as int));
    let text = lossy_text(head);
    let trimmed = trim_chars(chars_of(text.as_str()).as_slice());
    if trimmed.len() == 0 {
        let none: Vec<String> = Vec::new();
        assert(views(none@) =~= Seq::<Seq<char>>::empty());
        return none;
    }
    let mut note = if truncated { owned("stderr:truncated:") } else { owned("stderr:") };
    push_str(&mut note, string_of(trimmed.as_slice()).as_str());
    let r = vec![note];
    assert(views(r@) =~= stderr_notes(stderr@));
    r
}

/// How one run of the analysis process ended.
pub enum RunOutcome {
    /// The process could not be started, with the reason.
    SpawnFailed(String),
    /// The process ran: whether it exited successfully, its exit code as text,
    /// its standard error, and its standard output read as a graph (with its
    /// declared schema) or the reason it could not be read.
    Finished { success: bool, exit_code: String, stderr: Vec<u8>, graph: Result<(String, ObservedGraph), String> },
}

/// What a run yields for a case: its status, its counts when scored, and the
/// diagnostics.
pub struct CaseRun {
    pub status: CaseStatus,
    pub counts: Option<CaseCounts>,
    pub diagnostics: Vec<String>,
}

/// The status of a run.
pub open spec fn run_status(outcome: RunOutcome) -> CaseStatus {
    match outcome {
        RunOutcome::SpawnFailed(_) => CaseStatus::ExecutionFailure,
        RunOutcome::Finished { success, graph, .. } => if !success {
            CaseStatus::ExecutionFailure
        } else {
            match graph {
                Err(_) => CaseStatus::InvalidOutput,
                Ok((schema, _)) => if schema@ != graph_schema() {
                    CaseStatus::InvalidOutput
                } else {
                    CaseStatus::Scored
                },
            }
        },
    }
}

/// The diagnostics of a run: the cause of a failure first, then what the
/// process wrote to standard error.
pub open spec fn run_notes(outcome: RunOutcome) -> Seq<Seq<char>> {
    match outcome {
        RunOutcome::SpawnFailed(e) => seq!["process_spawn:"@ + e@],
        RunOutcome::Finished { success, exit_code, stderr, graph } => {
            let notes = stderr_notes(stderr@);
            if !success {
                seq!["process_exit:"@ + exit_code@] + notes
            } else {
                match graph {
                    Err(m) => seq!["invalid_graph_json:"@ + m@] + notes,
                    Ok((schema, _)) => if schema@ != graph_schema() {
                        seq!["wrong_graph_schema"@] + notes
                    } else {
                        notes
                    },
                }
            }
        },
    }
}

/// Classifies one run of the analysis process for a case, and scores the
/// graph it produced.
pub fn classify_run(golden: &GoldenV1, outcome: RunOutcome) -> (r: CaseRun)
    ensures
        r.status == run_status(outcome),
        views(r.diagnostics@) == run_notes(outcome),
        r.counts is Some <==> r.status == CaseStatus::Scored,
        r.counts matches Some(c) ==> (outcome matches RunOutcome::Finished { graph: Ok((_, g)), .. } && scored(
            c,
            *golden,
            g,
        )),
{
    match outcome {
        RunOutcome::SpawnFailed(e) => {
            let mut note = owned("process_spawn:");
            push_str(&mut note, e.as_str());
            let diagnostics = vec![note];
            assert(views(diagnostics@) =~= run_notes(RunOutcome::SpawnFailed(e)));
            CaseRun { status: CaseStatus::ExecutionFailure, counts: None, diagnostics }
        },
        RunOutcome::Finished { success, exit_code, stderr, graph } => {
            let notes = stderr_diagnostics(stderr.as_slice());
            let ghost nv = views(notes@);
            if !success {
                let mut note = owned("process_exit:");
                push_str(&mut note, exit_code.as_str());
                let mut diagnostics = vec![note];
                let mut rest = notes;
                diagnostics.append(&mut rest);
                assert(views(diagnostics@) =~= seq!["process_exit:"@ + exit_code@] + nv);
                return CaseRun { status: CaseStatus::ExecutionFailure, counts: None, diagnostics };
            }
            match graph {
                Err(m) => {
                    let mut note = owned("invalid_graph_json:");
                    push_str(&mut note, m.as_str());
                    let mut diagnostics = vec![note];
                    let mut rest = notes;
                    diagnostics.append(&mut rest);
                    assert(views(diagnostics@) =~= seq!["invalid_graph_json:"@ + m@] + nv);
                    CaseRun { status: CaseStatus::InvalidOutput, counts: None, diagnostics }
                },
                Ok((schema, g)) => {
                    if !text_eq(schema.as_str(), "chirograph-graph-v1") {
                        let mut diagnostics = vec![owned("wrong_graph_schema")];
                        let mut rest = notes;
                        diagnostics.append(&mut rest);
                        assert(views(diagnostics@) =~= seq!["wrong_graph_schema"@] + nv);
                        CaseRun { status: CaseStatus::InvalidOutput, counts: None, diagnostics }
                    } else {
                        let counts = score_case(golden, &g);
                        CaseRun { status: CaseStatus::Scored, counts: Some(counts), diagnostics: notes }
                    }
                },
            }
        },
    }
}


/// The characters from `i` up to `j` form a line: they hold no line break,
/// and a line break or the text's start and end bound them.
pub open spec fn line_at(s: Seq<char>, i: int, j: int) -> bool {
    &&& 0 <= i <= j <= s.len()
    &&& (i == 0 || s[i - 1] == '\n')
    &&& (j == s.len() || s[j] == '\n')
    &&& forall|k: int| i <= k < j ==> s[k] != '\n'
}

/// A manifest declares a workspace when one of its lines, trimmed, is
/// `[workspace]`.
pub open spec fn declares_workspace_spec(s: Seq<char>) -> bool {
    exists|i: int, j: int| line_at(s, i, j) && #[trigger] trim(s.subrange(i, j)) == "[workspace]"@
}

/// Whether a `Cargo.toml` declares a workspace.
pub fn declares_workspace(contents: &str) -> (r: bool)
    ensures
        r == declares_workspace_spec(contents@),
{
    let chars = chars_of(contents);
    let marker = chars_of("[workspace]");
    let ghost s = contents@;
    let mut start: usize = 0;
    let mut k: usize = 0;
    while k < chars.len()
        invariant
            chars@ == s,
            s == contents@,
            marker@ == "[workspace]"@,
            start <= k <= chars@.len(),
            start == 0 || s[start - 1] == '\n',
            forall|m: int| start <= m < k ==> s[m] != '\n',
            forall|i: int, j: int| line_at(s, i, j) && j < start ==> #[trigger] trim(s.subrange(i, j)) != "[workspace]"@,
        decreases chars.len() - k,
    {
        if chars[k] == '\n' {
            let line = trim_chars(sub_chars(&chars, start, k).as_slice());
            if chars_eq(line.as_slice(), marker.as_slice()) {
                assert(line_at(s, start as int, k as int));
                assert(trim(s.subrange(start as int, k as int)) == "[workspace]"@);
                return true;
            }
            proof {
                lemma_only_line(s, start as int, k as int);
            }
            start = k + 1;
        }
        k = k + 1;
    }
    let line = trim_chars(sub_chars(&chars, start, k).as_slice());
    if chars_eq(line.as_slice(), marker.as_slice()) {
        assert(line_at(s, start as int, k as int));
        assert(trim(s.subrange(start as int, k as int)) == "[workspace]"@);
        return true;
    }
    proof {
        lemma_only_line(s, start as int, k as int);
        assert forall|i: int, j: int| line_at(s, i, j) implies #[trigger] trim(s.subrange(i, j)) != "[workspace]"@ by {
            if j >= start {
                assert(j == k);
            }
        }
    }
    false
}

/// The line that ends at `k`, with no line break since `start`, starts at `start`.
proof fn lemma_only_line(s: Seq<char>, start: int, k: int)
    requires
        0 <= start <= k <= s.len(),
        start == 0 || s[start - 1] == '\n',
        forall|m: int| start <= m < k ==> s[m] != '\n',
    ensures
        forall|i: int, j: int| line_at(s, i, j) && start <= j <= k ==> i == start && j == k,
{
    assert forall|i: int, j: int| line_at(s, i, j) && start <= j <= k implies i == start && j == k by {
        if j < k {
            assert(s[j] != '\n');
        }
        if i < start {
            assert(s[start - 1] == '\n');
        } else if i > start {
            assert(s[i - 1] != '\n');
        }
    }
}

/// The arguments, after the program name, with which a case's fixture is
/// analysed: its directory, at the specimen's upstream repository and revision,
/// as graph JSON.
pub open spec fn analyze_argument_views(case: BenchmarkCase) -> Seq<Seq<char>> {
    seq![
        "analyze"@,
        case.fixture_dir@,
        "--source-repository"@,
        case.specimen.upstream.repository@,
        "--revision"@,
        case.specimen.upstream.revision@,
        "--format"@,
        "graph-json"@,
    ]
}

pub fn analyze_arguments(case: &BenchmarkCase) -> (r: Vec<String>)
    ensures
        views(r@) == analyze_argument_views(*case),
{
    let r = vec![
        owned("analyze"),
        case.fixture_dir.clone(),
        owned("--source-repository"),
        case.specimen.upstream.repository.clone(),
        owned("--revision"),
        case.specimen.upstream.revision.clone(),
        owned("--format"),
        owned("graph-json"),
    ];
    assert(views(r@) =~= analyze_argument_views(*case));
    r
}

/// The command line that runs a case is the analysis of its fixture, at the
/// specimen's upstream repository and revision, as the command line reads it.
pub proof fn law_case_runs_are_analyses(case: BenchmarkCase)
    ensures
        cli_command(analyze_argument_views(case)) == Ok::<CliCommandView, Seq<char>>(
            CliCommandView::Analyze {
                path: case.fixture_dir@,
                repository: case.specimen.upstream.repository@,
                revision: case.specimen.upstream.revision@,
            },
        ),
{
    let a = analyze_argument_views(case);
    assert(a.len() == 8);
}

} // verus!
