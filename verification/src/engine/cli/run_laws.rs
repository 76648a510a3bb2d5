//! Where output goes, and how a run ends.
use vstd::prelude::*;

use crate::engine::cli::command::CommandV;
use crate::engine::cli::detect::{resolved, source_of};
use crate::engine::cli::error::{cli_message, CliErrorV};
use crate::engine::cli::render::{
    diagnostic_lines, diagnostics_text, formats_text, level_of, name_lines, usage_text,
};
use crate::engine::cli::run::{closed_line, command_text, delivered, exit_of, formats_of, DoneV};
use crate::engine::spoke::{names_of, SpokeV};
use crate::engine::transform::{combined, engine_message, EngineErrorV, WrittenV};
use crate::runtime::result::{any_error, MappingDiagnosticV, Severity};
use crate::text::{join, Text};

verus! {

/// A transformation delivers its document if, and only if, it has one and no diagnostic is
/// an error: to the file that is named and nowhere else, or to standard output. All
/// diagnostics go with it.
pub proof fn law_documents_go_to_one_place(
    output: Option<Text>,
    r: Result<WrittenV, EngineErrorV>,
)
    ensures
        delivered(output, r) is Ok <==> (r matches Ok(w) && w.value is Some && !any_error(
            w.diagnostics,
        )),
        delivered(output, r) matches Ok(d) ==> d.diagnostics == r->Ok_0.diagnostics,
        delivered(output, r) matches Ok(d) ==> (output is None ==> d.file is None && d.stdout
            == closed_line(r->Ok_0.value->0)),
        delivered(output, r) matches Ok(d) ==> (output matches Some(path) ==> d.stdout.len() == 0
            && d.file == Some((path, closed_line(r->Ok_0.value->0)))),
        r is Err ==> delivered(output, r) == Err::<DoneV, CliErrorV>(
            CliErrorV::Engine(engine_message(r->Err_0)),
        ),
        r is Ok && delivered(output, r) is Err ==> delivered(output, r)->Err_0 is Mapping,
{
}

/// A document gets the end of its last line only where it lacks it.
pub proof fn law_line_ends_are_not_doubled(t: Text)
    requires
        !t.contains('\n'),
    ensures
        closed_line(t) == t + "\n"@,
        closed_line(t + "\n"@) == t + "\n"@,
        closed_line(closed_line(t)) == closed_line(t),
{
    reveal_strlit("\n");
    if t.len() > 0 {
        assert(t.contains(t.last()));
    }
    assert((t + "\n"@).last() == '\n');
}

/// A run that succeeds ends with zero, prints what was asked for, and shows every
/// diagnostic as an error message; a run that fails prints nothing but its message. Wrong
/// arguments end with 64, data that cannot be transformed with 65, and files that cannot
/// be read with 74.
pub proof fn law_runs_end_as_they_went(r: Result<DoneV, CliErrorV>)
    ensures
        r is Ok <==> exit_of(r).code == 0,
        r matches Ok(d) ==> exit_of(r).stdout == d.stdout && exit_of(r).file == d.file
            && exit_of(r).stderr == diagnostics_text(d.diagnostics),
        r matches Err(e) ==> exit_of(r).stderr == cli_message(e) + "\n"@,
        exit_of(r).code == 64 <==> (r matches Err(e) && (e is Usage || e is UnknownFormat || e
            is AmbiguousSource)),
        exit_of(r).code == 65 <==> (r matches Err(e) && (e is Engine || e is Mapping)),
        exit_of(r).code == 74 <==> (r matches Err(e) && e is Io),
{
}

proof fn lemma_lines_behind(
    t: Text,
    a: Seq<MappingDiagnosticV>,
    b: Seq<MappingDiagnosticV>,
    n: int,
)
    requires
        0 <= n <= b.len(),
    ensures
        diagnostic_lines(t, a + b, a.len() + n) == diagnostic_lines(t, a, a.len() as int)
            + diagnostic_lines(Seq::empty(), b, n),
    decreases n,
{
    let none = Seq::<char>::empty();
    if n == 0 {
        lemma_lines_same(t, a, b, a.len() as int);
        let x = diagnostic_lines(t, a, a.len() as int);
        assert(x + none =~= x);
    } else {
        lemma_lines_behind(t, a, b, n - 1);
        assert((a + b)[a.len() + n - 1] == b[n - 1]);
        assert(diagnostic_lines(t, a + b, a.len() + n) =~= diagnostic_lines(t, a, a.len() as int)
            + diagnostic_lines(none, b, n));
    }
}

proof fn lemma_lines_same(
    t: Text,
    a: Seq<MappingDiagnosticV>,
    b: Seq<MappingDiagnosticV>,
    n: int,
)
    requires
        0 <= n <= a.len(),
    ensures
        diagnostic_lines(t, a + b, n) == diagnostic_lines(t, a, n),
    decreases n,
{
    if n > 0 {
        lemma_lines_same(t, a, b, n - 1);
        assert((a + b)[n - 1] == a[n - 1]);
    }
}

/// Each diagnostic has a line of its own, in order, with its severity, its code, its node
/// and its message; the severities have different names.
pub proof fn law_diagnostics_are_listed(
    a: Seq<MappingDiagnosticV>,
    b: Seq<MappingDiagnosticV>,
    d: MappingDiagnosticV,
)
    ensures
        diagnostics_text(a + b) == diagnostics_text(a) + diagnostics_text(b),
        diagnostics_text(seq![d]) == level_of(d.severity) + " ["@ + d.code + "] "@ + d.source_node
            + ": "@ + d.message + "\n"@,
        level_of(d.severity) == "error"@ <==> d.severity == Severity::Error,
        level_of(d.severity) == "warning"@ <==> d.severity == Severity::Warning,
        level_of(d.severity) == "info"@ <==> d.severity == Severity::Info,
{
    let none = Seq::<char>::empty();
    lemma_lines_behind(none, a, b, b.len() as int);
    assert((a + b).len() == a.len() + b.len());
    assert(diagnostic_lines(none, seq![d], 0) == none);
    assert(diagnostics_text(seq![d]) =~= level_of(d.severity) + " ["@ + d.code + "] "@
        + d.source_node + ": "@ + d.message + "\n"@);
    reveal_strlit("error");
    reveal_strlit("warning");
    reveal_strlit("info");
    assert("error"@.len() == 5 && "warning"@.len() == 7 && "info"@.len() == 4);
}

proof fn lemma_names(names: Seq<Text>, n: int)
    requires
        0 <= n <= names.len(),
    ensures
        name_lines(names, n) == join(
            names.take(n).map_values(|x: Text| "    "@ + x),
            "\n"@,
        ),
    decreases n,
{
    let f = |x: Text| "    "@ + x;
    let parts = names.take(n).map_values(f);
    if n == 0 {
        assert(parts =~= Seq::<Text>::empty());
    } else if n == 1 {
        assert(parts =~= seq!["    "@ + names[0]]);
    } else {
        lemma_names(names, n - 1);
        assert(parts.drop_last() =~= names.take(n - 1).map_values(f));
        assert(parts.last() == "    "@ + names[n - 1]);
        let j = join(parts.drop_last(), "\n"@);
        assert(j + "\n"@ + "    "@ + names[n - 1] =~= j + "\n"@ + ("    "@ + names[n - 1]));
    }
}

/// Every format is listed by its name, in order, on a line of its own; and the help ends
/// with that list.
pub proof fn law_formats_are_listed(spokes: Seq<SpokeV>)
    ensures
        formats_text(spokes) == join(
            names_of(spokes).map_values(|x: Text| "    "@ + x),
            "\n"@,
        ),
        forall|i: int|
            0 <= i < spokes.len() ==> #[trigger] names_of(spokes)[i] == spokes[i].name,
        formats_text(spokes).is_suffix_of(usage_text(spokes)),
        command_text(spokes, CommandV::ListFormats) == Ok::<Text, CliErrorV>(
            formats_text(spokes) + "\n"@,
        ),
        command_text(spokes, CommandV::Help) == Ok::<Text, CliErrorV>(usage_text(spokes) + "\n"@),
{
    let names = names_of(spokes);
    lemma_names(names, spokes.len() as int);
    assert(names.take(spokes.len() as int) =~= names);
    let t = formats_text(spokes);
    let all = usage_text(spokes);
    assert(all.subrange(all.len() - t.len(), all.len() as int) =~= t);
}

/// The target of a transformation is the format of that name. The source is the format
/// that is named, whatever the document holds, and the format of the document where none
/// is named. A name that is not known is an error, the target's before the source's.
pub proof fn law_formats_are_resolved(
    spokes: Seq<SpokeV>,
    target: Text,
    source: Option<Text>,
    bytes: Seq<u8>,
)
    ensures
        formats_of(spokes, target, source, bytes) matches Ok((from, to)) ==> resolved(
            spokes,
            target,
        ) == Ok::<SpokeV, CliErrorV>(to) && (source matches Some(name) ==> resolved(spokes, name)
            == Ok::<SpokeV, CliErrorV>(from)) && (source is None ==> source_of(spokes, bytes)
            == Ok::<SpokeV, CliErrorV>(from)),
        resolved(spokes, target) matches Err(e) ==> formats_of(spokes, target, source, bytes)
            == Err::<(SpokeV, SpokeV), CliErrorV>(e),
        resolved(spokes, target) is Ok && (source matches Some(name) && resolved(spokes, name) is Ok)
            ==> formats_of(spokes, target, source, bytes) is Ok,
        resolved(spokes, target) is Ok && source is None && source_of(spokes, bytes) is Ok
            ==> formats_of(spokes, target, source, bytes) is Ok,
{
}

/// What was noted when a document was read stands before what was noted when it was
/// written, nothing of either is lost, and an error of the writer is the outcome.
pub proof fn law_diagnostics_of_both_sides_are_kept(
    noted: Seq<MappingDiagnosticV>,
    r: Result<WrittenV, Text>,
)
    ensures
        r matches Err(e) ==> combined(noted, r) == Err::<WrittenV, EngineErrorV>(
            EngineErrorV::Serialize(e),
        ),
        r matches Ok(w) ==> (combined(noted, r) matches Ok(out) && out.value == w.value
            && out.diagnostics.len() == noted.len() + w.diagnostics.len() && noted.is_prefix_of(
            out.diagnostics,
        ) && w.diagnostics.is_suffix_of(out.diagnostics)),
{
    if let Ok(w) = r {
        let all = noted + w.diagnostics;
        assert(all.subrange(0, noted.len() as int) =~= noted);
        assert(all.subrange(all.len() - w.diagnostics.len(), all.len() as int) =~= w.diagnostics);
    }
}

} // verus!
