//! The `chirograph` command line: which command the arguments ask for, and
//! the parsing and naming of the values that commands take and print.

use vstd::prelude::*;
use crate::model::{AlignmentState, ContractFacet, Revision, RevisionView};
use crate::text::{char_is_ascii_hex, chars_of, is_ascii_hex, owned, push_str, text_eq};

verus! {

/// The usage text.
pub open spec fn help_spec() -> Seq<char> {
    "Usage:\n  chirograph analyze <source-tree> --source-repository <owner/repo> --revision <40-hex|unversioned|unknown> --format graph-json\n  chirograph inspect <evidence.json>\n  chirograph contestations <evidence.json>\n  chirograph evidence <evidence.json> <contract-id>\n  chirograph authority <evidence.json> <contract-id> <facet>\n  chirograph alignment <evidence.json> <alignments.json> <representation-id>\n  chirograph --version\n  chirograph --help\n"@
}

pub fn help_text() -> (r: &'static str)
    ensures
        r@ == help_spec(),
{
    "Usage:\n  chirograph analyze <source-tree> --source-repository <owner/repo> --revision <40-hex|unversioned|unknown> --format graph-json\n  chirograph inspect <evidence.json>\n  chirograph contestations <evidence.json>\n  chirograph evidence <evidence.json> <contract-id>\n  chirograph authority <evidence.json> <contract-id> <facet>\n  chirograph alignment <evidence.json> <alignments.json> <representation-id>\n  chirograph --version\n  chirograph --help\n"
}

/// A command of the `chirograph` program, with its operands.
#[derive(Debug, Clone, PartialEq, Eq)]
pub enum CliCommand {
    Help,
    Version,
    Analyze { path: String, repository: String, revision: String },
    Inspect { path: String },
    Contestations { path: String },
    Evidence { path: String, contract: String },
    Authority { path: String, contract: String, facet: String },
    Alignment { evidence: String, alignments: String, representation: String },
}

pub enum CliCommandView {
    Help,
    Version,
    Analyze { path: Seq<char>, repository: Seq<char>, revision: Seq<char> },
    Inspect { path: Seq<char> },
    Contestations { path: Seq<char> },
    Evidence { path: Seq<char>, contract: Seq<char> },
    Authority { path: Seq<char>, contract: Seq<char>, facet: Seq<char> },
    Alignment { evidence: Seq<char>, alignments: Seq<char>, representation: Seq<char> },
}

impl View for CliCommand {
    type V = CliCommandView;

    open spec fn view(&self) -> CliCommandView {
        match self {
            CliCommand::Help => CliCommandView::Help,
            CliCommand::Version => CliCommandView::Version,
            CliCommand::Analyze { path, repository, revision } => CliCommandView::Analyze {
                path: path@,
                repository: repository@,
                revision: revision@,
            },
            CliCommand::Inspect { path } => CliCommandView::Inspect { path: path@ },
            CliCommand::Contestations { path } => CliCommandView::Contestations { path: path@ },
            CliCommand::Evidence { path, contract } => CliCommandView::Evidence { path: path@, contract: contract@ },
            CliCommand::Authority { path, contract, facet } => CliCommandView::Authority {
                path: path@,
                contract: contract@,
                facet: facet@,
            },
            CliCommand::Alignment { evidence, alignments, representation } => CliCommandView::Alignment {
                evidence: evidence@,
                alignments: alignments@,
                representation: representation@,
            },
        }
    }
}

/// The command that the arguments (after the program name) ask for; anything
/// else is refused with the usage text.
pub open spec fn cli_command(a: Seq<Seq<char>>) -> Result<CliCommandView, Seq<char>> {
    if a.len() == 0 {
        Ok(CliCommandView::Help)
    } else if a.len() == 1 && (a[0] == "--help"@ || a[0] == "-h"@) {
        Ok(CliCommandView::Help)
    } else if a.len() == 1 && (a[0] == "--version"@ || a[0] == "-V"@) {
        Ok(CliCommandView::Version)
    } else if a.len() == 8 && a[0] == "analyze"@ && a[2] == "--source-repository"@ && a[4] == "--revision"@ && a[6]
        == "--format"@ && a[7] == "graph-json"@ {
        Ok(CliCommandView::Analyze { path: a[1], repository: a[3], revision: a[5] })
    } else if a.len() == 2 && a[0] == "inspect"@ {
        Ok(CliCommandView::Inspect { path: a[1] })
    } else if a.len() == 2 && a[0] == "contestations"@ {
        Ok(CliCommandView::Contestations { path: a[1] })
    } else if a.len() == 3 && a[0] == "evidence"@ {
        Ok(CliCommandView::Evidence { path: a[1], contract: a[2] })
    } else if a.len() == 4 && a[0] == "authority"@ {
        Ok(CliCommandView::Authority { path: a[1], contract: a[2], facet: a[3] })
    } else if a.len() == 4 && a[0] == "alignment"@ {
        Ok(CliCommandView::Alignment { evidence: a[1], alignments: a[2], representation: a[3] })
    } else {
        Err("invalid arguments\n\n"@ + help_spec())
    }
}

pub open spec fn cli_result_view(r: Result<CliCommand, String>) -> Result<CliCommandView, Seq<char>> {
    match r {
        Ok(c) => Ok(c@),
        Err(m) => Err(m@),
    }
}

/// Reads the command that the arguments ask for.
pub fn parse_cli(args: Vec<String>) -> (r: Result<CliCommand, String>)
    ensures
        cli_result_view(r) == cli_command(crate::text::views(args@)),
{
    let ghost a = crate::text::views(args@);
    proof {
        if args@.len() > 0 {
            assert(a[0] == args@[0]@);
        }
        if args@.len() > 7 {
            assert(a[1] == args@[1]@ && a[2] == args@[2]@ && a[3] == args@[3]@ && a[4] == args@[4]@);
            assert(a[5] == args@[5]@ && a[6] == args@[6]@ && a[7] == args@[7]@);
        } else if args@.len() > 3 {
            assert(a[1] == args@[1]@ && a[2] == args@[2]@ && a[3] == args@[3]@);
        } else if args@.len() > 2 {
            assert(a[1] == args@[1]@ && a[2] == args@[2]@);
        } else if args@.len() > 1 {
            assert(a[1] == args@[1]@);
        }
    }
    let n = args.len();
    if n == 0 {
        return Ok(CliCommand::Help);
    }
    let first = args[0].as_str();
    if n == 1 && (text_eq(first, "--help") || text_eq(first, "-h")) {
        return Ok(CliCommand::Help);
    }
    if n == 1 && (text_eq(first, "--version") || text_eq(first, "-V")) {
        return Ok(CliCommand::Version);
    }
    if n == 8 && text_eq(first, "analyze") && text_eq(args[2].as_str(), "--source-repository") && text_eq(
        args[4].as_str(),
        "--revision",
    ) && text_eq(args[6].as_str(), "--format") && text_eq(args[7].as_str(), "graph-json") {
        return Ok(
            CliCommand::Analyze {
                path: args[1].clone(),
                repository: args[3].clone(),
                revision: args[5].clone(),
            },
        );
    }
    if n == 2 && text_eq(first, "inspect") {
        return Ok(CliCommand::Inspect { path: args[1].clone() });
    }
    if n == 2 && text_eq(first, "contestations") {
        return Ok(CliCommand::Contestations { path: args[1].clone() });
    }
    if n == 3 && text_eq(first, "evidence") {
        return Ok(CliCommand::Evidence { path: args[1].clone(), contract: args[2].clone() });
    }
    if n == 4 && text_eq(first, "authority") {
        return Ok(CliCommand::Authority { path: args[1].clone(), contract: args[2].clone(), facet: args[3].clone() });
    }
    if n == 4 && text_eq(first, "alignment") {
        return Ok(
            CliCommand::Alignment {
                evidence: args[1].clone(),
                alignments: args[2].clone(),
                representation: args[3].clone(),
            },
        );
    }
    let mut m = owned("invalid arguments\n\n");
    push_str(&mut m, help_text());
    Err(m)
}

/// What `format!("{:?}", s)` writes for a string: the string quoted, with
/// quotes, backslashes and non-printable characters escaped.
pub uninterp spec fn debug_quoted(s: Seq<char>) -> Seq<char>;

/// Writes a string as `Debug` formats it (`<str as Debug>::fmt`).
#[verifier::external_body]
pub(crate) fn quoted(s: &str) -> (r: String)
    ensures
        r@ == debug_quoted(s@),
{
    format!("{:?}", s)
}

/// Forty hexadecimal digits.
pub open spec fn is_hex40(s: Seq<char>) -> bool {
    s.len() == 40 && forall|i: int| 0 <= i < s.len() ==> is_ascii_hex(#[trigger] s[i])
}

/// The revision that the `analyze` command takes: `unversioned`, `unknown`, or
/// a full commit hash.
pub open spec fn analysis_revision(value: Seq<char>) -> Result<RevisionView, Seq<char>> {
    if value == "unversioned"@ {
        Ok(RevisionView::Unversioned)
    } else if value == "unknown"@ {
        Ok(RevisionView::Unknown)
    } else if is_hex40(value) {
        Ok(RevisionView::Exact(value))
    } else {
        Err(
            "invalid revision "@ + debug_quoted(value)
                + ": expected 40 hexadecimal characters, \"unversioned\", or \"unknown\""@,
        )
    }
}

fn hex40(value: &str) -> (r: bool)
    ensures
        r == is_hex40(value@),
{
    let cs = chars_of(value);
    if cs.len() != 40 {
        return false;
    }
    let mut i: usize = 0;
    while i < cs.len()
        invariant
            i <= cs@.len(),
            cs@ == value@,
            forall|k: int| 0 <= k < i ==> is_ascii_hex(#[trigger] value@[k]),
        decreases cs.len() - i,
    {
        if !char_is_ascii_hex(cs[i]) {
            return false;
        }
        i = i + 1;
    }
    true
}

pub open spec fn revision_result_view(r: Result<Revision, String>) -> Result<RevisionView, Seq<char>> {
    match r {
        Ok(v) => Ok(v@),
        Err(m) => Err(m@),
    }
}

/// Reads the revision operand of `analyze`.
pub fn parse_analysis_revision(value: &str) -> (r: Result<Revision, String>)
    ensures
        revision_result_view(r) == analysis_revision(value@),
{
    if text_eq(value, "unversioned") {
        Ok(Revision::Unversioned)
    } else if text_eq(value, "unknown") {
        Ok(Revision::Unknown)
    } else if hex40(value) {
        Ok(Revision::Exact(owned(value)))
    } else {
        let mut m = owned("invalid revision ");
        push_str(&mut m, quoted(value).as_str());
        push_str(&mut m, ": expected 40 hexadecimal characters, \"unversioned\", or \"unknown\"");
        Err(m)
    }
}

/// The facet that a command operand names.
pub open spec fn facet_named(value: Seq<char>) -> Option<ContractFacet> {
    if value == "structural"@ {
        Some(ContractFacet::Structure)
    } else if value == "executable"@ {
        Some(ContractFacet::Executable)
    } else if value == "semantic"@ {
        Some(ContractFacet::Semantic)
    } else if value == "failure"@ {
        Some(ContractFacet::Failure)
    } else if value == "concurrency"@ {
        Some(ContractFacet::Concurrency)
    } else if value == "recovery"@ {
        Some(ContractFacet::Recovery)
    } else if value == "verification"@ {
        Some(ContractFacet::Verification)
    } else {
        None
    }
}

/// Reads a facet operand; an unknown name is refused.
pub fn parse_facet(value: &str) -> (r: Result<ContractFacet, String>)
    ensures
        match facet_named(value@) {
            Some(f) => r == Ok::<ContractFacet, String>(f),
            None => r matches Err(m) && m@ == "invalid contract facet "@ + debug_quoted(value@),
        },
{
    if text_eq(value, "structural") {
        Ok(ContractFacet::Structure)
    } else if text_eq(value, "executable") {
        Ok(ContractFacet::Executable)
    } else if text_eq(value, "semantic") {
        Ok(ContractFacet::Semantic)
    } else if text_eq(value, "failure") {
        Ok(ContractFacet::Failure)
    } else if text_eq(value, "concurrency") {
        Ok(ContractFacet::Concurrency)
    } else if text_eq(value, "recovery") {
        Ok(ContractFacet::Recovery)
    } else if text_eq(value, "verification") {
        Ok(ContractFacet::Verification)
    } else {
        let mut m = owned("invalid contract facet ");
        push_str(&mut m, quoted(value).as_str());
        Err(m)
    }
}

/// How a revision is printed.
pub open spec fn revision_text(r: RevisionView) -> Seq<char> {
    match r {
        RevisionView::Exact(v) => "exact:"@ + v,
        RevisionView::Unversioned => "unversioned"@,
        RevisionView::Unknown => "unknown"@,
    }
}

pub fn revision_name(value: &Revision) -> (r: String)
    ensures
        r@ == revision_text(value@),
{
    match value {
        Revision::Exact(v) => {
            let mut r = owned("exact:");
            push_str(&mut r, v.as_str());
            r
        },
        Revision::Unversioned => owned("unversioned"),
        Revision::Unknown => owned("unknown"),
    }
}

pub open spec fn alignment_state_text(s: AlignmentState) -> Seq<char> {
    match s {
        AlignmentState::Confirmed => "CONFIRMED"@,
        AlignmentState::Rejected => "REJECTED"@,
        AlignmentState::Unresolved => "UNRESOLVED"@,
    }
}

pub fn alignment_state_name(value: AlignmentState) -> (r: &'static str)
    ensures
        r@ == alignment_state_text(value),
{
    match value {
        AlignmentState::Confirmed => "CONFIRMED",
        AlignmentState::Rejected => "REJECTED",
        AlignmentState::Unresolved => "UNRESOLVED",
    }
}

} // verus!
