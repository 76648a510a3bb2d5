//! What messages name.
use vstd::prelude::*;

use crate::dsl::ir::IrV;
use crate::dsl::meta::meta_id;
use crate::dsl::report::footprint;
use crate::dsl::report_laws::{labelled, lemma_labels};
use crate::dsl::source_model::meta::ModelV;
use crate::engine::cli::detect::{detected, resolved, rooted};
use crate::engine::cli::error::CliErrorV;
use crate::engine::cli::render::{diagnostics_text, level_of};
use crate::engine::cli::run_laws::law_diagnostics_are_listed;
use crate::engine::server::handle::warning_line;
use crate::engine::spoke::{members, names_of, spoke_of, SpokeV};
use crate::ordmap::{ascending, lemma_lookup_at, lemma_slot, member, slot, TextSetV};
use crate::runtime::result::{warnings_of, MappingDiagnosticV, Severity};
use crate::text::{
    has, join, lemma_has_inside, lemma_has_self, lemma_join_has, lines, quoted, strip_cr, Text,
};
use crate::text_laws::law_lines_end_at_line_feeds;

verus! {

/// The line of a diagnostic.
pub open spec fn line_of(d: MappingDiagnosticV) -> Text {
    level_of(d.severity) + " ["@ + d.code + "] "@ + d.source_node + ": "@ + d.message
}

/// Whether the line of a diagnostic is one line.
pub open spec fn is_one_line(d: MappingDiagnosticV) -> bool {
    !line_of(d).contains('\n') && line_of(d).last() != '\r'
}

proof fn lemma_lines(ds: Seq<MappingDiagnosticV>)
    requires
        forall|i: int| 0 <= i < ds.len() ==> is_one_line(#[trigger] ds[i]),
    ensures
        lines(diagnostics_text(ds)) == ds.map_values(|d: MappingDiagnosticV| line_of(d)),
    decreases ds.len(),
{
    let f = |d: MappingDiagnosticV| line_of(d);
    let none = Seq::<char>::empty();
    if ds.len() == 0 {
        law_lines_end_at_line_feeds(none, none);
        assert(diagnostics_text(ds) =~= none);
        assert(ds.map_values(f) =~= Seq::<Text>::empty());
    } else {
        let rest = ds.drop_first();
        assert forall|i: int| 0 <= i < rest.len() implies is_one_line(#[trigger] rest[i]) by {
            assert(rest[i] == ds[i + 1]);
        }
        lemma_lines(rest);
        law_diagnostics_are_listed(seq![ds[0]], rest, ds[0]);
        assert(ds =~= seq![ds[0]] + rest);
        assert(is_one_line(ds[0]));
        law_lines_end_at_line_feeds(line_of(ds[0]), diagnostics_text(rest));
        assert(diagnostics_text(ds) == line_of(ds[0]) + "\n"@ + diagnostics_text(rest));
        assert(strip_cr(line_of(ds[0])) == line_of(ds[0]));
        assert(seq![line_of(ds[0])] + rest.map_values(f) =~= ds.map_values(f));
    }
}

/// The warnings of a reply are the warnings among its diagnostics, all of them and in
/// order, with semicolons between them.
pub proof fn law_warnings_are_listed(ds: Seq<MappingDiagnosticV>)
    requires
        forall|i: int|
            0 <= i < warnings_of(ds).len() ==> is_one_line(#[trigger] warnings_of(ds)[i]),
    ensures
        warning_line(ds) == join(
            warnings_of(ds).map_values(|d: MappingDiagnosticV| line_of(d)),
            "; "@,
        ),
        forall|i: int|
            0 <= i < ds.len() && (#[trigger] ds[i]).severity == Severity::Warning
                ==> warnings_of(ds).contains(ds[i]),
        forall|i: int|
            0 <= i < warnings_of(ds).len() ==> (#[trigger] warnings_of(ds)[i]).severity
                == Severity::Warning,
{
    lemma_lines(warnings_of(ds));
    let p = |d: MappingDiagnosticV| d.severity == Severity::Warning;
    assert forall|i: int| 0 <= i < ds.len() && (#[trigger] ds[i]).severity == Severity::Warning
        implies warnings_of(ds).contains(ds[i]) by {
        ds.filter_lemma(p);
        assert(p(ds[i]));
    }
    assert forall|i: int| 0 <= i < warnings_of(ds).len() implies (
    #[trigger] warnings_of(ds)[i]).severity == Severity::Warning by {
        ds.filter_lemma(p);
        assert(p(ds.filter(p)[i]));
    }
}

/// A name that stands for no format is answered with the name and every format there is.
pub proof fn law_unknown_formats_are_answered_with_all(
    spokes: Seq<SpokeV>,
    name: Text,
    i: int,
)
    requires
        resolved(spokes, name) is Err,
        0 <= i < spokes.len(),
    ensures
        resolved(spokes, name) matches Err(CliErrorV::UnknownFormat(m)) && has(m, spokes[i].name)
            && has(m, quoted(name)),
{
    let none = Seq::<char>::empty();
    let all = join(names_of(spokes), ", "@);
    lemma_join_has(names_of(spokes), ", "@, i);
    assert(names_of(spokes)[i] == spokes[i].name);
    let head = quoted(name) + " (known formats: "@;
    let m = head + all + ")"@;
    lemma_has_inside(head, all, ")"@, spokes[i].name);
    lemma_has_self(quoted(name));
    let rest = " (known formats: "@ + all + ")"@;
    lemma_has_inside(none, quoted(name), rest, quoted(name));
    assert(none + quoted(name) + rest =~= m);
}

proof fn lemma_rooted(spokes: Seq<SpokeV>, root: Text, n: int, i: int)
    requires
        0 <= i < n <= spokes.len(),
        spokes[i].root == root,
    ensures
        rooted(spokes, root, n).contains(spokes[i]),
    decreases n,
{
    let all = rooted(spokes, root, n);
    if i < n - 1 {
        lemma_rooted(spokes, root, n - 1, i);
        let head = rooted(spokes, root, n - 1);
        let j = choose|j: int| 0 <= j < head.len() && head[j] == spokes[i];
        assert(all[j] == spokes[i]);
    } else {
        assert(all[all.len() - 1] == spokes[i]);
    }
}

/// Where several formats have the root element of a document and none of them can be told
/// to be its own, the message names each of them; where none has it, it names the element.
pub proof fn law_ambiguous_documents_are_answered_with_all(
    spokes: Seq<SpokeV>,
    root: Text,
    customization: Option<Text>,
    i: int,
)
    requires
        detected(spokes, Some(root), customization) is Err,
        0 <= i < spokes.len(),
    ensures
        spokes[i].root == root ==> (detected(spokes, Some(root), customization) matches Err(
            CliErrorV::AmbiguousSource(m),
        ) && has(m, spokes[i].name)),
        (forall|k: int| 0 <= k < spokes.len() ==> (#[trigger] spokes[k]).root != root) ==> (detected(
            spokes,
            Some(root),
            customization,
        ) matches Err(CliErrorV::AmbiguousSource(m)) && has(m, root)),
{
    let n = spokes.len() as int;
    let found = rooted(spokes, root, n);
    if spokes[i].root == root {
        lemma_rooted(spokes, root, n, i);
        let j = choose|j: int| 0 <= j < found.len() && found[j] == spokes[i];
        let all = join(names_of(found), ", "@);
        lemma_join_has(names_of(found), ", "@, j);
        assert(names_of(found)[j] == spokes[i].name);
        lemma_has_inside(
            "source format is ambiguous ("@,
            all,
            "); pass --from <FORMAT>"@,
            spokes[i].name,
        );
    }
    if forall|k: int| 0 <= k < spokes.len() ==> (#[trigger] spokes[k]).root != root {
        lemma_none_rooted(spokes, root, n);
        lemma_has_self(root);
        lemma_has_inside(
            "could not detect the source format for root <"@,
            root,
            ">; pass --from <FORMAT>"@,
            root,
        );
    }
}

proof fn lemma_none_rooted(spokes: Seq<SpokeV>, root: Text, n: int)
    requires
        0 <= n <= spokes.len(),
        forall|k: int| 0 <= k < spokes.len() ==> (#[trigger] spokes[k]).root != root,
    ensures
        rooted(spokes, root, n).len() == 0,
    decreases n,
{
    if n > 0 {
        lemma_none_rooted(spokes, root, n - 1);
        assert(spokes[n - 1].root != root);
    }
}

proof fn lemma_members(s: TextSetV, t: Text)
    requires
        ascending::<String, ()>(s),
    ensures
        members(s).contains(t) <==> member(s, t),
{
    lemma_slot::<String, ()>(s, t);
    if member(s, t) {
        assert(members(s)[slot::<String, ()>(s, t)] == t);
    }
    if members(s).contains(t) {
        let i = members(s).index_of(t);
        lemma_lookup_at::<String, ()>(s, i);
    }
}

/// What the engine knows of a spoke is what its mapping says: its id, its root, its
/// markers, and the labels of the fields that its nodes map and require.
pub proof fn law_spokes_are_what_their_mapping_says(ir: IrV, model: ModelV, t: Text)
    ensures
        ({
            let s = spoke_of(ir, model);
            let n = ir.nodes.len() as int;
            &&& s.name == meta_id(ir.meta)
            &&& s.root == model.root
            &&& s.markers == ir.meta.detect
            &&& s.covered.contains(t) <==> labelled(ir.nodes, false, n, t)
            &&& s.required.contains(t) <==> labelled(ir.nodes, true, n, t)
        }),
{
    let n = ir.nodes.len() as int;
    lemma_labels(ir.nodes, false, n, t);
    lemma_labels(ir.nodes, true, n, t);
    lemma_members(footprint(ir, false), t);
    lemma_members(footprint(ir, true), t);
}

} // verus!
