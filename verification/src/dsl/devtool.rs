//! The developer commands: check a directory of mappings, or report on it.
use vstd::prelude::*;

use crate::dsl::compile::{
    adapter_names, any_error, compile, compiled, known_adapters, CompileOutput, CompileV,
    SpokeInput,
};
use crate::dsl::error::{severity_word, ConfigError, DiagnosticV, Severity};
use crate::dsl::ir::scopes_ascend;
use crate::dsl::loader::LoadOutput;
use crate::dsl::parse::ParsedV;
use crate::dsl::report::{
    coverage, coverage_matrix, gap_report, gaps, label_of, markdown, render_coverage_markdown,
    FieldKeyV,
};
use crate::text::{decimal, decimal_of, same, Text};

verus! {

/// What a command prints, and the code it exits with.
#[derive(Debug, PartialEq, Eq)]
pub struct CommandOutput {
    /// The text for standard output.
    pub stdout: String,
    /// The exit code.
    pub exit_code: u8,
}

/// The model of a [`CommandOutput`].
#[verifier::ext_equal]
pub struct CommandV {
    pub stdout: Text,
    pub exit_code: u8,
}

impl View for CommandOutput {
    type V = CommandV;

    open spec fn view(&self) -> CommandV {
        CommandV { stdout: self.stdout@, exit_code: self.exit_code }
    }
}

/// How the commands are used.
pub open spec fn usage_text() -> Text {
    "usage: xtask <command> <mappings-dir>\n\ncommands:\n  check  <dir>   compile every spoke mapping; report all diagnostics\n  report <dir>   print the canonical coverage matrix and gap report\n"@
}

/// How the commands are used.
fn usage_string() -> (out: String)
    ensures
        out@ == usage_text(),
{
    "usage: xtask <command> <mappings-dir>\n\ncommands:\n  check  <dir>   compile every spoke mapping; report all diagnostics\n  report <dir>   print the canonical coverage matrix and gap report\n".to_string()
}

/// What is printed for a missing or unknown command.
pub fn usage() -> (out: CommandOutput)
    ensures
        out@ == (CommandV { stdout: usage_text(), exit_code: 2 }),
{
    CommandOutput { stdout: usage_string(), exit_code: 2 }
}

/// One diagnostic as a line.
pub open spec fn diag_line(d: DiagnosticV) -> Text {
    "["@ + severity_word(d.severity) + "] "@ + d.code + " ("@ + (match d.source_node {
        Some(n) => n,
        None => "-"@,
    }) + "): "@ + d.message + "\n"@
}

/// The first `n` diagnostics as lines.
pub open spec fn diag_lines(diags: Seq<DiagnosticV>, n: int) -> Text
    decreases n,
{
    if n <= 0 {
        Seq::empty()
    } else {
        diag_lines(diags, n - 1) + diag_line(diags[n - 1])
    }
}

/// How many of the first `n` diagnostics have a severity.
pub open spec fn count_of(diags: Seq<DiagnosticV>, s: Severity, n: int) -> nat
    decreases n,
{
    if n <= 0 {
        0
    } else if diags[n - 1].severity == s {
        count_of(diags, s, n - 1) + 1
    } else {
        count_of(diags, s, n - 1)
    }
}

/// What `check` prints of a compilation: every diagnostic and a summary; it fails
/// if one of them is an error.
pub open spec fn check_output(out: CompileV) -> CommandV {
    let n = out.diags.len() as int;
    CommandV {
        stdout: diag_lines(out.diags, n) + "\n"@ + decimal(out.irs.len()) + " spoke(s), "@
            + decimal(out.hub.len()) + " canonical field(s); "@ + decimal(
            count_of(out.diags, Severity::Error, n),
        ) + " error(s), "@ + decimal(count_of(out.diags, Severity::Warning, n))
            + " warning(s)\n"@,
        exit_code: if any_error(out.diags) {
            1
        } else {
            0
        },
    }
}

proof fn lemma_count_bound(diags: Seq<DiagnosticV>, s: Severity, n: int)
    requires
        0 <= n,
    ensures
        count_of(diags, s, n) <= n,
    decreases n,
{
    if n > 0 {
        lemma_count_bound(diags, s, n - 1);
    }
}

/// Renders the diagnostics of a compilation.
pub fn render_check(out: &CompileOutput) -> (r: CommandOutput)
    ensures
        r@ == check_output(out@),
{
    let ghost diags = out@.diags;
    let mut s = String::new();
    let mut errors: u64 = 0;
    let mut warnings: u64 = 0;
    let mut i: usize = 0;
    while i < out.diagnostics.len()
        invariant
            i <= out.diagnostics.len(),
            diags == out.diagnostics.deep_view(),
            s@ == diag_lines(diags, i as int),
            errors == count_of(diags, Severity::Error, i as int),
            warnings == count_of(diags, Severity::Warning, i as int),
            errors <= i,
            warnings <= i,
        decreases out.diagnostics.len() - i,
    {
        let d = &out.diagnostics[i];
        assert(diags[i as int] == d@);
        match d.severity {
            Severity::Error => {
                errors += 1;
            },
            Severity::Warning => {
                warnings += 1;
            },
            Severity::Info => {},
        }
        let mut line = "[".to_string();
        line.push_str(d.severity.as_str());
        line.push_str("] ");
        line.push_str(d.code.as_str());
        line.push_str(" (");
        match &d.source_node {
            Some(n) => {
                line.push_str(n.as_str());
            },
            None => {
                line.push_str("-");
            },
        }
        line.push_str("): ");
        line.push_str(d.message.as_str());
        line.push_str("\n");
        s.push_str(line.as_str());
        i += 1;
    }
    s.push_str("\n");
    s.push_str(decimal_of(out.irs.len() as u64).as_str());
    s.push_str(" spoke(s), ");
    s.push_str(decimal_of(out.hub.len() as u64).as_str());
    s.push_str(" canonical field(s); ");
    s.push_str(decimal_of(errors).as_str());
    s.push_str(" error(s), ");
    s.push_str(decimal_of(warnings).as_str());
    s.push_str(" warning(s)\n");
    let exit_code: u8 = if out.has_errors() {
        1
    } else {
        0
    };
    CommandOutput { stdout: s, exit_code }
}

/// The first `n` gaps as list items behind a text.
pub open spec fn gap_lines(head: Text, g: Seq<(Text, FieldKeyV)>, n: int) -> Text
    decreases n,
{
    if n <= 0 {
        head
    } else {
        gap_lines(head, g, n - 1) + "- "@ + g[n - 1].0 + " is missing `"@ + label_of(g[n - 1].1)
            + "`\n"@
    }
}

/// What `report` prints of a compilation: the coverage matrix and the gaps.
pub open spec fn report_output(out: CompileV) -> CommandV {
    let head = "## Canonical coverage matrix\n\n"@ + markdown(coverage(out))
        + "\n## Gaps (spoke does not map field)\n\n"@;
    CommandV {
        stdout: if gaps(out).len() == 0 {
            head + "none\n"@
        } else {
            gap_lines(head, gaps(out), gaps(out).len() as int)
        },
        exit_code: 0,
    }
}

/// Renders the coverage matrix and the gaps of a compilation.
pub fn render_report(out: &CompileOutput) -> (r: CommandOutput)
    requires
        forall|j: int| 0 <= j < out@.irs.len() ==> scopes_ascend((#[trigger] out@.irs[j]).1.nodes),
    ensures
        r@ == report_output(out@),
{
    let matrix = coverage_matrix(out);
    let found = gap_report(out);
    let ghost g = gaps(out@);
    let mut s = "## Canonical coverage matrix\n\n".to_string();
    s.push_str(render_coverage_markdown(&matrix).as_str());
    s.push_str("\n## Gaps (spoke does not map field)\n\n");
    if found.len() == 0 {
        assert(g.len() == 0);
        s.push_str("none\n");
    } else {
        assert(g.len() > 0);
        let ghost head = s@;
        let mut i: usize = 0;
        while i < found.len()
            invariant
                i <= found.len(),
                g == found.deep_view(),
                s@ == gap_lines(head, g, i as int),
            decreases found.len() - i,
        {
            assert(g[i as int] == found@[i as int].deep_view());
            s.push_str("- ");
            s.push_str(found[i].spoke.as_str());
            s.push_str(" is missing `");
            s.push_str(found[i].field.label().as_str());
            s.push_str("`\n");
            i += 1;
        }
    }
    CommandOutput { stdout: s, exit_code: 0 }
}

/// What a command prints of a directory: the rendering of its compilation, or the
/// error of loading it.
pub open spec fn directory_output(
    loaded: Result<Seq<(Text, Seq<ParsedV>)>, Text>,
    check: bool,
) -> CommandV {
    match loaded {
        Err(e) => CommandV { stdout: "error: "@ + e + "\n"@, exit_code: 2 },
        Ok(spokes) => {
            let out = compiled(spokes, adapter_names());
            if check {
                check_output(out)
            } else {
                report_output(out)
            }
        },
    }
}

/// The spokes of a loaded directory, or the message of the error.
pub open spec fn spokes_or_error(loaded: Result<LoadOutput, ConfigError>) -> Result<
    Seq<(Text, Seq<ParsedV>)>,
    Text,
> {
    match loaded {
        Ok(l) => Ok(l.spokes.deep_view()),
        Err(e) => Err(e.message@),
    }
}

/// Renders a loaded directory.
pub fn render_directory(loaded: Result<LoadOutput, ConfigError>, check: bool) -> (r: CommandOutput)
    requires
        loaded matches Ok(l) ==> forall|i: int|
            0 <= i < l.spokes@.len() ==> (#[trigger] l.spokes@[i]).chain@.len() > 0,
    ensures
        r@ == directory_output(spokes_or_error(loaded), check),
{
    let loaded = match loaded {
        Err(e) => {
            let mut s = "error: ".to_string();
            s.push_str(e.message.as_str());
            s.push_str("\n");
            return CommandOutput { stdout: s, exit_code: 2 };
        },
        Ok(l) => l,
    };
    let mut inputs: Vec<SpokeInput> = Vec::new();
    let mut i: usize = 0;
    while i < loaded.spokes.len()
        invariant
            i <= loaded.spokes.len(),
            forall|k: int|
                0 <= k < loaded.spokes@.len() ==> (#[trigger] loaded.spokes@[k]).chain@.len() > 0,
            forall|k: int| 0 <= k < inputs@.len() ==> (#[trigger] inputs@[k]).chain@.len() > 0,
            inputs.deep_view() =~= loaded.spokes.deep_view().take(i as int),
        decreases loaded.spokes.len() - i,
    {
        let spoke = &loaded.spokes[i];
        assert(loaded.spokes@[i as int].chain@.len() > 0);
        let ghost before = inputs.deep_view();
        let input = SpokeInput { id: spoke.slug.clone(), chain: spoke.chain.as_slice() };
        assert(input.chain.deep_view() =~= spoke.chain.deep_view());
        inputs.push(input);
        assert(inputs.deep_view() =~= before.push(loaded.spokes.deep_view()[i as int]));
        i += 1;
    }
    assert(inputs.deep_view() =~= loaded.spokes.deep_view());
    let out = compile(inputs.as_slice(), &known_adapters());
    if check {
        render_check(&out)
    } else {
        render_report(&out)
    }
}

/// Whether the arguments name the command `check` or `report`.
pub open spec fn names_command(args: Seq<String>) -> bool {
    args.len() > 0 && (args[0]@ == "check"@ || args[0]@ == "report"@)
}

/// Runs a developer command. `load` loads the spokes of a directory.
pub fn run<F: FnOnce(&str) -> Result<LoadOutput, ConfigError>>(args: &[String], load: F) -> (r:
    CommandOutput)
    requires
        forall|d: &str|
            names_command(args@) && args@.len() > 1 && d@ == args@[1]@ ==> #[trigger] call_requires(
                load,
                (d,),
            ),
        forall|d: &str, l: Result<LoadOutput, ConfigError>|
            #[trigger] call_ensures(load, (d,), l) && l is Ok ==> forall|i: int|
                0 <= i < l->Ok_0.spokes@.len() ==> (#[trigger] l->Ok_0.spokes@[i]).chain@.len() > 0,
    ensures
        !names_command(args@) ==> r@ == (CommandV { stdout: usage_text(), exit_code: 2 }),
        names_command(args@) && args@.len() == 1 ==> r@ == (CommandV {
            stdout: "error: a mappings directory is required\n\n"@ + usage_text(),
            exit_code: 2,
        }),
        names_command(args@) && args@.len() > 1 ==> exists|
            d: &str,
            l: Result<LoadOutput, ConfigError>,
        |
            #[trigger] call_ensures(load, (d,), l) && d@ == args@[1]@ && r@ == directory_output(
                spokes_or_error(l),
                args@[0]@ == "check"@,
            ),
{
    if args.len() == 0 {
        return usage();
    }
    let check = same(args[0].as_str(), "check");
    if !check && !same(args[0].as_str(), "report") {
        return usage();
    }
    if args.len() == 1 {
        let mut s = "error: a mappings directory is required\n\n".to_string();
        s.push_str(usage_string().as_str());
        return CommandOutput { stdout: s, exit_code: 2 };
    }
    let dir = args[1].as_str();
    let loaded = load(dir);
    render_directory(loaded, check)
}

} // verus!
