//! What is printed: how to use the program, the formats, and diagnostics.
use vstd::prelude::*;

use crate::engine::spoke::{names_of, Spoke, SpokeV};
use crate::runtime::result::{MappingDiagnostic, MappingDiagnosticV, Severity};
use crate::text::Text;

verus! {

/// The first `n` names, each on a line of its own behind four spaces.
pub open spec fn name_lines(names: Seq<Text>, n: int) -> Text
    decreases n,
{
    if n <= 0 {
        Seq::empty()
    } else if n == 1 {
        "    "@ + names[0]
    } else {
        name_lines(names, n - 1) + "\n"@ + "    "@ + names[n - 1]
    }
}

/// The list of formats.
pub open spec fn formats_text(spokes: Seq<SpokeV>) -> Text {
    name_lines(names_of(spokes), spokes.len() as int)
}

/// The list of formats, one on each line.
pub fn format_list(spokes: &[Spoke]) -> (out: String)
    ensures
        out@ == formats_text(spokes.deep_view()),
{
    let ghost names = names_of(spokes.deep_view());
    let mut out = String::new();
    let mut i: usize = 0;
    assert(out@ =~= Seq::<char>::empty());
    while i < spokes.len()
        invariant
            i <= spokes.len(),
            names == names_of(spokes.deep_view()),
            out@ == name_lines(names, i as int),
        decreases spokes.len() - i,
    {
        assert(names[i as int] == spokes@[i as int]@.name);
        if i > 0 {
            out.push_str("\n");
            out.push_str("    ");
        } else {
            out = "    ".to_string();
        }
        out.push_str(spokes[i].name());
        i += 1;
    }
    out
}

/// How to use the program, without the formats.
pub open spec fn usage_head() -> Text {
    "krab-invoice — transform an e-invoice XML document between formats\n\nUSAGE:\n    krab-invoice <INPUT> <TARGET-FORMAT> [--from <SOURCE-FORMAT>] [--out <FILE>]\n    krab-invoice --analyze [SOURCE-FORMAT]\n    krab-invoice --keys [FORMAT]\n    krab-invoice --list\n    krab-invoice --help\n\nARGS:\n    <INPUT>            Source XML file, or `-` to read stdin\n    <TARGET-FORMAT>    Format to emit (see --list)\n\nOPTIONS:\n    --from <FORMAT>    Source format; auto-detected when omitted\n    --out <FILE>       Write to FILE instead of stdout\n    --analyze          Report each transform's loss/error state\n    --keys [FORMAT]    Show canonical main keys (a mapping-authoring aid);\n                       with FORMAT, that spoke's covered vs. unused keys\n    --list             List available formats\n    -h, --help         Show this help\n\nFORMATS:\n"@
}

/// How to use the program.
pub open spec fn usage_text(spokes: Seq<SpokeV>) -> Text {
    usage_head() + formats_text(spokes)
}

/// How to use the program, with the formats it knows.
pub fn usage(spokes: &[Spoke]) -> (out: String)
    ensures
        out@ == usage_text(spokes.deep_view()),
{
    let mut out = "krab-invoice — transform an e-invoice XML document between formats\n\nUSAGE:\n    krab-invoice <INPUT> <TARGET-FORMAT> [--from <SOURCE-FORMAT>] [--out <FILE>]\n    krab-invoice --analyze [SOURCE-FORMAT]\n    krab-invoice --keys [FORMAT]\n    krab-invoice --list\n    krab-invoice --help\n\nARGS:\n    <INPUT>            Source XML file, or `-` to read stdin\n    <TARGET-FORMAT>    Format to emit (see --list)\n\nOPTIONS:\n    --from <FORMAT>    Source format; auto-detected when omitted\n    --out <FILE>       Write to FILE instead of stdout\n    --analyze          Report each transform's loss/error state\n    --keys [FORMAT]    Show canonical main keys (a mapping-authoring aid);\n                       with FORMAT, that spoke's covered vs. unused keys\n    --list             List available formats\n    -h, --help         Show this help\n\nFORMATS:\n".to_string();
    out.push_str(format_list(spokes).as_str());
    out
}

/// The word for a severity.
pub open spec fn level_of(s: Severity) -> Text {
    match s {
        Severity::Error => "error"@,
        Severity::Warning => "warning"@,
        Severity::Info => "info"@,
    }
}

/// The text `t` with a line for each of the first `n` diagnostics.
pub open spec fn diagnostic_lines(t: Text, diagnostics: Seq<MappingDiagnosticV>, n: int) -> Text
    decreases n,
{
    if n <= 0 {
        t
    } else {
        let d = diagnostics[n - 1];
        diagnostic_lines(t, diagnostics, n - 1) + level_of(d.severity) + " ["@ + d.code + "] "@
            + d.source_node + ": "@ + d.message + "\n"@
    }
}

/// A line for each diagnostic.
pub open spec fn diagnostics_text(diagnostics: Seq<MappingDiagnosticV>) -> Text {
    diagnostic_lines(Seq::empty(), diagnostics, diagnostics.len() as int)
}

/// A line for each diagnostic; nothing where there is none.
pub fn render_diagnostics(diagnostics: &[MappingDiagnostic]) -> (out: String)
    ensures
        out@ == diagnostics_text(diagnostics.deep_view()),
{
    let ghost views = diagnostics.deep_view();
    let mut out = String::new();
    let mut i: usize = 0;
    assert(out@ =~= Seq::<char>::empty());
    while i < diagnostics.len()
        invariant
            i <= diagnostics.len(),
            views == diagnostics.deep_view(),
            out@ == diagnostic_lines(Seq::empty(), views, i as int),
        decreases diagnostics.len() - i,
    {
        let d = &diagnostics[i];
        assert(views[i as int] == d@);
        match d.severity {
            Severity::Error => out.push_str("error"),
            Severity::Warning => out.push_str("warning"),
            Severity::Info => out.push_str("info"),
        }
        out.push_str(" [");
        out.push_str(d.code.as_str());
        out.push_str("] ");
        out.push_str(d.source_node.as_str());
        out.push_str(": ");
        out.push_str(d.message.as_str());
        out.push_str("\n");
        i += 1;
    }
    out
}

} // verus!
