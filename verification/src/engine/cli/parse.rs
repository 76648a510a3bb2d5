//! From arguments to what they ask for.
use vstd::prelude::*;

use crate::dsl::meta::clone_opt;
use crate::engine::cli::command::{Args, ArgsV, Command, CommandV};
use crate::engine::cli::error::{CliError, CliErrorV};
use crate::text::{outcome, same, starts_with, Text};

verus! {

/// What has been read of the arguments.
#[verifier::ext_equal]
pub struct ScanV {
    pub positionals: Seq<Text>,
    pub source: Option<Text>,
    pub output: Option<Text>,
    pub analyze: bool,
    pub keys: bool,
}

/// Nothing read yet.
pub open spec fn fresh() -> ScanV {
    ScanV {
        positionals: Seq::empty(),
        source: None,
        output: None,
        analyze: false,
        keys: false,
    }
}

/// How reading the arguments ends: at once with a command, or at their end.
#[verifier::ext_equal]
pub enum ScannedV {
    Done(CommandV),
    Rest(ScanV),
}

/// What the arguments from position `i` on say, after `st` was read.
pub open spec fn scan(args: Seq<Text>, i: int, st: ScanV) -> Result<ScannedV, CliErrorV>
    decreases args.len() - i,
{
    if i >= args.len() {
        Ok(ScannedV::Rest(st))
    } else {
        let a = args[i];
        if a == "-h"@ || a == "--help"@ {
            Ok(ScannedV::Done(CommandV::Help))
        } else if a == "--list"@ {
            Ok(ScannedV::Done(CommandV::ListFormats))
        } else if a == "--analyze"@ {
            scan(args, i + 1, ScanV { analyze: true, ..st })
        } else if a == "--keys"@ {
            scan(args, i + 1, ScanV { keys: true, ..st })
        } else if a == "--from"@ || a == "--out"@ {
            if i + 1 >= args.len() {
                Err(CliErrorV::Usage("`"@ + a + "` requires a value"@))
            } else if a == "--from"@ {
                scan(args, i + 2, ScanV { source: Some(args[i + 1]), ..st })
            } else {
                scan(args, i + 2, ScanV { output: Some(args[i + 1]), ..st })
            }
        } else if "--"@.is_prefix_of(a) {
            Err(CliErrorV::Usage("unknown flag `"@ + a + "`"@))
        } else {
            scan(args, i + 1, ScanV { positionals: st.positionals.push(a), ..st })
        }
    }
}

/// The one format that a report is about: `--from`, or the only positional
/// argument.
pub open spec fn scope_of(st: ScanV) -> Option<Text> {
    match st.source {
        Some(f) => Some(f),
        None => if st.positionals.len() > 0 {
            Some(st.positionals[0])
        } else {
            None
        },
    }
}

/// What the arguments ask for, once all of them have been read.
pub open spec fn asked(st: ScanV) -> Result<CommandV, CliErrorV> {
    if st.analyze && st.keys {
        Err(CliErrorV::Usage("--analyze and --keys cannot be combined"@))
    } else if st.analyze {
        if st.positionals.len() > 1 {
            Err(CliErrorV::Usage("--analyze takes at most one format"@))
        } else {
            Ok(CommandV::Analyze(scope_of(st)))
        }
    } else if st.keys {
        if st.positionals.len() > 1 {
            Err(CliErrorV::Usage("--keys takes at most one format"@))
        } else {
            Ok(CommandV::Keys(scope_of(st)))
        }
    } else if st.positionals.len() == 0 {
        Ok(CommandV::Help)
    } else if st.positionals.len() == 1 {
        Err(CliErrorV::Usage("missing <TARGET-FORMAT> (run with --help)"@))
    } else if st.positionals.len() == 2 {
        Ok(
            CommandV::Transform(
                ArgsV {
                    input: st.positionals[0],
                    target: st.positionals[1],
                    source: st.source,
                    output: st.output,
                },
            ),
        )
    } else {
        Err(CliErrorV::Usage("too many arguments (run with --help)"@))
    }
}

/// What a list of arguments asks for.
pub open spec fn parsed(args: Seq<Text>) -> Result<CommandV, CliErrorV> {
    match scan(args, 0, fresh()) {
        Err(e) => Err(e),
        Ok(ScannedV::Done(c)) => Ok(c),
        Ok(ScannedV::Rest(st)) => asked(st),
    }
}

/// What has been read of the arguments.
struct Scan {
    positionals: Vec<String>,
    source: Option<String>,
    output: Option<String>,
    analyze: bool,
    keys: bool,
}

impl Scan {
    spec fn state(&self) -> ScanV {
        ScanV {
            positionals: self.positionals.deep_view(),
            source: self.source.deep_view(),
            output: self.output.deep_view(),
            analyze: self.analyze,
            keys: self.keys,
        }
    }
}

/// A usage error.
fn usage_error(message: &str) -> (e: CliError)
    ensures
        e.deep_view() == CliErrorV::Usage(message@),
{
    CliError::Usage(message.to_string())
}

/// The one format that a report is about.
fn scope(st: &Scan) -> (r: Option<String>)
    ensures
        r.deep_view() == scope_of(st.state()),
{
    match &st.source {
        Some(f) => Some(f.clone()),
        None => if st.positionals.len() > 0 {
            assert(st.positionals.deep_view()[0] == st.positionals@[0]@);
            Some(st.positionals[0].clone())
        } else {
            None
        },
    }
}

/// What the arguments ask for, once all of them have been read.
fn command_of(st: Scan) -> (r: Result<Command, CliError>)
    ensures
        outcome(r) == asked(st.state()),
{
    let ghost views = st.positionals.deep_view();
    assert(views.len() == st.positionals@.len());
    if st.analyze && st.keys {
        return Err(usage_error("--analyze and --keys cannot be combined"));
    }
    if st.analyze {
        if st.positionals.len() > 1 {
            return Err(usage_error("--analyze takes at most one format"));
        }
        return Ok(Command::Analyze(scope(&st)));
    }
    if st.keys {
        if st.positionals.len() > 1 {
            return Err(usage_error("--keys takes at most one format"));
        }
        return Ok(Command::Keys(scope(&st)));
    }
    if st.positionals.len() == 0 {
        return Ok(Command::Help);
    }
    if st.positionals.len() == 1 {
        return Err(usage_error("missing <TARGET-FORMAT> (run with --help)"));
    }
    if st.positionals.len() > 2 {
        return Err(usage_error("too many arguments (run with --help)"));
    }
    assert(views[0] == st.positionals@[0]@ && views[1] == st.positionals@[1]@);
    Ok(
        Command::Transform(
            Args {
                input: st.positionals[0].clone(),
                target_format: st.positionals[1].clone(),
                source_format: clone_opt(&st.source),
                output: clone_opt(&st.output),
            },
        ),
    )
}

/// What a list of arguments, without the name of the program, asks for.
pub fn parse_args(args: &[String]) -> (r: Result<Command, CliError>)
    ensures
        outcome(r) == parsed(args.deep_view()),
{
    let ghost views = args.deep_view();
    let mut st = Scan {
        positionals: Vec::new(),
        source: None,
        output: None,
        analyze: false,
        keys: false,
    };
    let mut i: usize = 0;
    assert(st.state() =~= fresh());
    while i < args.len()
        invariant
            i <= args.len(),
            views == args.deep_view(),
            scan(views, 0, fresh()) == scan(views, i as int, st.state()),
        decreases args.len() - i,
    {
        let arg = args[i].as_str();
        assert(views[i as int] == arg@);
        if same(arg, "-h") || same(arg, "--help") {
            return Ok(Command::Help);
        }
        if same(arg, "--list") {
            return Ok(Command::ListFormats);
        }
        if same(arg, "--analyze") {
            st.analyze = true;
            i += 1;
        } else if same(arg, "--keys") {
            st.keys = true;
            i += 1;
        } else if same(arg, "--from") || same(arg, "--out") {
            if args.len() - i < 2 {
                let mut message = "`".to_string();
                message.push_str(arg);
                message.push_str("` requires a value");
                return Err(CliError::Usage(message));
            }
            assert(views[i + 1] == args@[i + 1]@);
            let value = args[i + 1].clone();
            if same(arg, "--from") {
                st.source = Some(value);
            } else {
                st.output = Some(value);
            }
            i += 2;
        } else if starts_with(arg, "--") {
            let mut message = "unknown flag `".to_string();
            message.push_str(arg);
            message.push_str("`");
            return Err(CliError::Usage(message));
        } else {
            let ghost before = st.positionals.deep_view();
            st.positionals.push(arg.to_string());
            assert(st.positionals.deep_view() =~= before.push(arg@));
            i += 1;
        }
    }
    command_of(st)
}

} // verus!
