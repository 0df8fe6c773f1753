//! Command-line forms of the benchmark runner.

use vstd::prelude::*;
use crate::text::{
    chars_of, is_hex_of_len, lower_text, owned, push_str, starts_with, string_of, text_eq,
    text_is_hex_of_len, text_starts_with, to_lower, views,
};

verus! {

#[derive(Debug, Clone, Copy, PartialEq, Eq)]
pub enum OutputFormat {
    Human,
    Json,
}

#[derive(Debug, Clone, PartialEq, Eq)]
pub struct RunOptions {
    pub selector: String,
    pub baseline: Option<String>,
    pub write_baseline: Option<String>,
    pub chirograph_bin: Option<String>,
    pub format: OutputFormat,
}

#[derive(Debug, Clone, PartialEq, Eq)]
pub enum Command {
    Help,
    List,
    Run(RunOptions),
    VerifySources { selector: String },
    Refresh { selector: String, revision: String },
}

pub struct RunOptionsView {
    pub selector: Seq<char>,
    pub baseline: Option<Seq<char>>,
    pub write_baseline: Option<Seq<char>>,
    pub chirograph_bin: Option<Seq<char>>,
    pub format: OutputFormat,
}

pub enum CommandView {
    Help,
    List,
    Run(RunOptionsView),
    VerifySources(Seq<char>),
    Refresh(Seq<char>, Seq<char>),
}

pub open spec fn opt_view(o: Option<String>) -> Option<Seq<char>> {
    match o {
        Some(s) => Some(s@),
        None => None,
    }
}

impl View for RunOptions {
    type V = RunOptionsView;

    open spec fn view(&self) -> RunOptionsView {
        RunOptionsView {
            selector: self.selector@,
            baseline: opt_view(self.baseline),
            write_baseline: opt_view(self.write_baseline),
            chirograph_bin: opt_view(self.chirograph_bin),
            format: self.format,
        }
    }
}

impl View for Command {
    type V = CommandView;

    open spec fn view(&self) -> CommandView {
        match self {
            Command::Help => CommandView::Help,
            Command::List => CommandView::List,
            Command::Run(o) => CommandView::Run(o@),
            Command::VerifySources { selector } => CommandView::VerifySources(selector@),
            Command::Refresh { selector, revision } => CommandView::Refresh(selector@, revision@),
        }
    }
}

pub open spec fn result_view(r: Result<Command, String>) -> Result<CommandView, Seq<char>> {
    match r {
        Ok(c) => Ok(c@),
        Err(e) => Err(e@),
    }
}

/// A 40-character hexadecimal commit id.
pub open spec fn is_exact_revision(s: Seq<char>) -> bool {
    is_hex_of_len(s, 40)
}

pub open spec fn refresh_usage() -> Seq<char> {
    "--refresh requires SELECTOR --revision EXACT_SHA"@
}

/// What `parse_args` answers for each argument list.
pub open spec fn parse_args_spec(a: Seq<Seq<char>>) -> Result<CommandView, Seq<char>> {
    if a.len() == 0 {
        Err("missing selector; use --help for usage"@)
    } else if a[0] == "--help"@ || a[0] == "--list"@ {
        if a.len() == 1 {
            Ok(
                if a[0] == "--help"@ {
                    CommandView::Help
                } else {
                    CommandView::List
                },
            )
        } else {
            Err("unexpected argument: "@ + a[1])
        }
    } else if a[0] == "--verify-sources"@ {
        if a.len() == 1 {
            Ok(CommandView::VerifySources("all"@))
        } else if a.len() == 2 && !starts_with(a[1], "-"@) {
            Ok(CommandView::VerifySources(a[1]))
        } else {
            Err("unexpected argument: "@ + a[1])
        }
    } else if a[0] == "--refresh"@ {
        if a.len() == 4 && !starts_with(a[1], "-"@) && a[2] == "--revision"@ && is_exact_revision(
            a[3],
        ) {
            Ok(CommandView::Refresh(a[1], lower_text(a[3])))
        } else {
            Err(refresh_usage())
        }
    } else if starts_with(a[0], "-"@) {
        Err("unknown option: "@ + a[0])
    } else {
        parse_run_spec(a)
    }
}

/// A selector followed by `FLAG VALUE` pairs.
pub open spec fn parse_run_spec(a: Seq<Seq<char>>) -> Result<CommandView, Seq<char>> {
    match run_flags_spec(
        RunOptionsView {
            selector: a[0],
            baseline: None,
            write_baseline: None,
            chirograph_bin: None,
            format: OutputFormat::Human,
        },
        a,
        1,
    ) {
        Err(e) => Err(e),
        Ok(o) => if o.baseline is Some && o.write_baseline is Some {
            Err("--baseline and --write-baseline are mutually exclusive"@)
        } else {
            Ok(CommandView::Run(o))
        },
    }
}

/// Reads `FLAG VALUE` pairs from position `i` on.
pub open spec fn run_flags_spec(o: RunOptionsView, a: Seq<Seq<char>>, i: int) -> Result<
    RunOptionsView,
    Seq<char>,
>
    decreases a.len() - i,
{
    if i < 1 || i >= a.len() {
        Ok(o)
    } else if i + 1 >= a.len() {
        Err(a[i] + " requires a value"@)
    } else {
        let flag = a[i];
        let value = a[i + 1];
        if flag == "--baseline"@ {
            if o.baseline is Some {
                Err(flag + " may be specified only once"@)
            } else {
                run_flags_spec(RunOptionsView { baseline: Some(value), ..o }, a, i + 2)
            }
        } else if flag == "--write-baseline"@ {
            if o.write_baseline is Some {
                Err(flag + " may be specified only once"@)
            } else {
                run_flags_spec(RunOptionsView { write_baseline: Some(value), ..o }, a, i + 2)
            }
        } else if flag == "--chirograph-bin"@ {
            if o.chirograph_bin is Some {
                Err(flag + " may be specified only once"@)
            } else {
                run_flags_spec(RunOptionsView { chirograph_bin: Some(value), ..o }, a, i + 2)
            }
        } else if flag == "--format"@ {
            if value == "json"@ {
                run_flags_spec(RunOptionsView { format: OutputFormat::Json, ..o }, a, i + 2)
            } else {
                Err("--format supports only json"@)
            }
        } else {
            Err("unknown option: "@ + flag)
        }
    }
}

fn message(prefix: &str, value: &str) -> (r: String)
    ensures
        r@ == prefix@ + value@,
{
    let mut r = owned(prefix);
    push_str(&mut r, value);
    r
}

/// Exactly 40 hexadecimal characters.
pub fn exact_revision(value: &str) -> (r: bool)
    ensures
        r == is_exact_revision(value@),
{
    text_is_hex_of_len(value, 40)
}

/// Parses the runner's arguments (without the program name).
pub fn parse_args(args: Vec<String>) -> (r: Result<Command, String>)
    ensures
        result_view(r) == parse_args_spec(views(args@)),
{
    let ghost a = views(args@);
    if args.len() == 0 {
        return Err(owned("missing selector; use --help for usage"));
    }
    let first = args[0].as_str();
    assert(a[0] == first@);
    if text_eq(first, "--help") || text_eq(first, "--list") {
        if args.len() == 1 {
            if text_eq(first, "--help") {
                Ok(Command::Help)
            } else {
                Ok(Command::List)
            }
        } else {
            Err(message("unexpected argument: ", args[1].as_str()))
        }
    } else if text_eq(first, "--verify-sources") {
        if args.len() == 1 {
            Ok(Command::VerifySources { selector: owned("all") })
        } else if args.len() == 2 && !text_starts_with(args[1].as_str(), "-") {
            Ok(Command::VerifySources { selector: args[1].clone() })
        } else {
            Err(message("unexpected argument: ", args[1].as_str()))
        }
    } else if text_eq(first, "--refresh") {
        if args.len() == 4 && !text_starts_with(args[1].as_str(), "-") && text_eq(
            args[2].as_str(),
            "--revision",
        ) && exact_revision(args[3].as_str()) {
            let revision = to_lower(&chars_of(args[3].as_str()));
            Ok(Command::Refresh { selector: args[1].clone(), revision: string_of(&revision) })
        } else {
            Err(owned("--refresh requires SELECTOR --revision EXACT_SHA"))
        }
    } else if text_starts_with(first, "-") {
        Err(message("unknown option: ", first))
    } else {
        parse_run(&args)
    }
}

fn set_once(slot: &mut Option<String>, value: &String, flag: &str) -> (r: Result<(), String>)
    ensures
        old(slot).is_some() ==> r is Err && r->Err_0@ == flag@ + " may be specified only once"@,
        old(slot).is_none() ==> r is Ok && opt_view(*final(slot)) == Some(value@),
{
    if slot.is_some() {
        return Err(message(flag, " may be specified only once"));
    }
    *slot = Some(value.clone());
    Ok(())
}

fn parse_run(args: &Vec<String>) -> (r: Result<Command, String>)
    requires
        args.len() >= 1,
    ensures
        result_view(r) == parse_run_spec(views(args@)),
{
    let ghost a = views(args@);
    let mut options = RunOptions {
        selector: args[0].clone(),
        baseline: None,
        write_baseline: None,
        chirograph_bin: None,
        format: OutputFormat::Human,
    };
    let ghost start = options@;
    assert(start == RunOptionsView {
        selector: a[0],
        baseline: None,
        write_baseline: None,
        chirograph_bin: None,
        format: OutputFormat::Human,
    });
    let mut index: usize = 1;
    while index < args.len()
        invariant
            1 <= index,
            index <= args.len() + 1,
            a == views(args@),
            run_flags_spec(start, a, 1) == run_flags_spec(options@, a, index as int),
            start == (RunOptionsView {
                selector: a[0],
                baseline: None,
                write_baseline: None,
                chirograph_bin: None,
                format: OutputFormat::Human,
            }),
        decreases args.len() + 1 - index,
    {
        let flag = args[index].as_str();
        assert(a[index as int] == flag@);
        if index + 1 >= args.len() {
            assert(run_flags_spec(options@, a, index as int) == Err::<RunOptionsView, Seq<char>>(
                flag@ + " requires a value"@,
            ));
            let e = message(flag, " requires a value");
            assert(parse_run_spec(a) == Err::<CommandView, Seq<char>>(e@));
            return Err(e);
        }
        let value = &args[index + 1];
        assert(a[index + 1] == value@);
        if text_eq(flag, "--baseline") {
            set_once(&mut options.baseline, value, flag)?;
        } else if text_eq(flag, "--write-baseline") {
            set_once(&mut options.write_baseline, value, flag)?;
        } else if text_eq(flag, "--chirograph-bin") {
            set_once(&mut options.chirograph_bin, value, flag)?;
        } else if text_eq(flag, "--format") {
            if text_eq(value.as_str(), "json") {
                options.format = OutputFormat::Json;
            } else {
                assert(run_flags_spec(options@, a, index as int) == Err::<RunOptionsView, Seq<char>>(
                    "--format supports only json"@,
                ));
                return Err(owned("--format supports only json"));
            }
        } else {
            let e = message("unknown option: ", flag);
            assert(run_flags_spec(options@, a, index as int) == Err::<RunOptionsView, Seq<char>>(e@));
            assert(parse_run_spec(a) == Err::<CommandView, Seq<char>>(e@));
            return Err(e);
        }
        index = index + 2;
    }
    assert(run_flags_spec(options@, a, index as int) == Ok::<RunOptionsView, Seq<char>>(options@));
    if options.baseline.is_some() && options.write_baseline.is_some() {
        return Err(owned("--baseline and --write-baseline are mutually exclusive"));
    }
    Ok(Command::Run(options))
}

} // verus!
