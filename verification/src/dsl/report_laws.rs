//! What reports say of a compilation, and how its findings are named.
use vstd::prelude::*;

use crate::dsl::codegen::access::{path_segs, seg_of, segs_from, SegV};
use crate::dsl::codegen::whole_laws::{cat, lemma_cat_push};
use crate::dsl::compile::{
    all_prefixed, any_error, build_findings, compiled, irs_upto, prefixed, sources_upto,
    spoke_findings, values, CompileV,
};
use crate::dsl::devtool::{
    count_of, diag_line, diag_lines, directory_output, gap_lines, report_output,
};
use crate::dsl::error::{DiagnosticV, Severity};
use crate::dsl::hub::derived;
use crate::dsl::ir::{ir_diags, IrNodesV, IrV};
use crate::dsl::node::{NodeId, NodeV};
use crate::dsl::parse::ParsedV;
use crate::dsl::report::{
    coverage, footprint, gaps, graph_upto, header_cells, label_of, labels_upto, mapped_field,
    markdown, row_cells, rule_cells, table_upto, FieldKeyV, MatrixV,
};
use crate::dsl::source_model::meta::{FieldsV, FieldV, ModelV, StructsV};
use crate::dsl::source_model::resolve::{resolved_from, walk};
use crate::dsl::validate::findings;
use crate::ordmap::{ascending, lemma_put_ascending, lemma_put_lookup, lookup, member, TextSetV};
use crate::text::{has, join, lemma_has_inside, lemma_has_self, split, Text};

verus! {

/// A field is labelled by the keys on its way, from the outermost, with slashes between
/// them; at the root by its key alone.
pub proof fn law_labels_show_the_way(chain: Seq<Text>, key: Text)
    ensures
        label_of((None, key)) == key,
        chain.len() > 0 ==> label_of((Some(chain), key)) == join(chain.push(key), "/"@),
{
    assert(chain.push(key).drop_last() =~= chain);
}

/// Whether one of the first nodes maps a field with a label, and requires it where that is
/// asked.
pub open spec fn labelled(nodes: IrNodesV, required: bool, n: int, t: Text) -> bool {
    exists|i: int|
        0 <= i < n && (required ==> (#[trigger] nodes[i]).1.required) && (mapped_field(
            nodes,
            nodes[i].1,
        ) matches Some(f) && label_of(f) == t)
}

pub proof fn lemma_labels(nodes: IrNodesV, required: bool, n: int, t: Text)
    requires
        0 <= n <= nodes.len(),
    ensures
        ascending::<String, ()>(labels_upto(nodes, required, n)),
        member(labels_upto(nodes, required, n), t) <==> labelled(nodes, required, n, t),
    decreases n,
{
    if n == 0 {
        assert(!member(Seq::empty(), t));
    } else {
        lemma_labels(nodes, required, n - 1, t);
        let acc = labels_upto(nodes, required, n - 1);
        let node = nodes[n - 1].1;
        let f = mapped_field(nodes, node);
        if f is Some {
            lemma_put_ascending::<String, ()>(acc, label_of(f->0), ());
            lemma_put_lookup::<String, ()>(acc, label_of(f->0), (), t);
        }
        assert(labelled(nodes, required, n, t) <==> labelled(nodes, required, n - 1, t) || ((
        required ==> nodes[n - 1].1.required) && f is Some && label_of(f->0) == t)) by {
            if (required ==> nodes[n - 1].1.required) && f is Some && label_of(f->0) == t {
                assert(labelled(nodes, required, n, t));
            }
        }
    }
}

/// A spoke covers the labels of the fields that its nodes map, and requires those that a
/// node maps which is required; no others.
pub proof fn law_footprint_is_what_nodes_map(ir: IrV, required: bool, t: Text)
    ensures
        member(footprint(ir, required), t) <==> labelled(
            ir.nodes,
            required,
            ir.nodes.len() as int,
            t,
        ),
{
    lemma_labels(ir.nodes, required, ir.nodes.len() as int, t);
}

proof fn lemma_graph(nodes: IrNodesV, n: int, id: Text)
    requires
        0 <= n <= nodes.len(),
        ascending::<NodeId, NodeV>(nodes),
        forall|i: int| 0 <= i < nodes.len() ==> (#[trigger] nodes[i]).1.id == nodes[i].0,
    ensures
        ascending::<NodeId, Seq<Text>>(graph_upto(nodes, n)),
        lookup::<NodeId, Seq<Text>>(graph_upto(nodes, n), id) is Some <==> exists|i: int|
            0 <= i < n && (#[trigger] nodes[i]).0 == id && nodes[i].1.fallbacks.len() > 0,
        forall|i: int|
            0 <= i < n && (#[trigger] nodes[i]).0 == id && nodes[i].1.fallbacks.len() > 0
                ==> lookup::<NodeId, Seq<Text>>(graph_upto(nodes, n), id) == Some(
                nodes[i].1.fallbacks,
            ),
    decreases n,
{
    if n == 0 {
        assert(lookup::<NodeId, Seq<Text>>(Seq::<(Text, Seq<Text>)>::empty(), id) is None);
    } else {
        lemma_graph(nodes, n - 1, id);
        let node = nodes[n - 1].1;
        assert(node.id == nodes[n - 1].0);
        let acc = graph_upto(nodes, n - 1);
        if node.fallbacks.len() > 0 {
            lemma_put_ascending::<NodeId, Seq<Text>>(acc, node.id, node.fallbacks);
            lemma_put_lookup::<NodeId, Seq<Text>>(acc, node.id, node.fallbacks, id);
            if id == node.id {
                assert(nodes[n - 1].0 == id);
                assert forall|i: int|
                    0 <= i < n && (#[trigger] nodes[i]).0 == id implies i == n - 1 by {
                    if i < n - 1 {
                        crate::text::lemma_lt_irreflexive(id);
                    }
                }
            }
        }
    }
}

/// The graph of fallbacks has the fallbacks of every node that has any, in their order.
pub proof fn law_graph_holds_every_fallback(nodes: IrNodesV, i: int)
    requires
        ascending::<NodeId, NodeV>(nodes),
        forall|j: int| 0 <= j < nodes.len() ==> (#[trigger] nodes[j]).1.id == nodes[j].0,
        0 <= i < nodes.len(),
    ensures
        lookup::<NodeId, Seq<Text>>(graph_upto(nodes, nodes.len() as int), nodes[i].0) == (if
        nodes[i].1.fallbacks.len() > 0 {
            Some(nodes[i].1.fallbacks)
        } else {
            None
        }),
{
    lemma_graph(nodes, nodes.len() as int, nodes[i].0);
    let g = lookup::<NodeId, Seq<Text>>(graph_upto(nodes, nodes.len() as int), nodes[i].0);
    if nodes[i].1.fallbacks.len() == 0 && g is Some {
        let j = choose|j: int|
            0 <= j < nodes.len() && (#[trigger] nodes[j]).0 == nodes[i].0
                && nodes[j].1.fallbacks.len() > 0;
        crate::text::lemma_lt_irreflexive(nodes[i].0);
        assert(j == i);
    }
}

// ---------------------------------------------------------------------------
// The coverage table
// ---------------------------------------------------------------------------

proof fn lemma_header(spokes: Seq<Text>, n: int)
    requires
        0 <= n <= spokes.len(),
    ensures
        header_cells(spokes, n) == "| Canonical field |"@ + cat(
            spokes.take(n).map_values(|s: Text| " "@ + s + " |"@),
        ),
    decreases n,
{
    let f = |s: Text| " "@ + s + " |"@;
    reveal_strlit(" ");
    if n == 0 {
        assert(spokes.take(0).map_values(f) =~= Seq::<Text>::empty());
        assert("| Canonical field |"@ + cat(Seq::<Text>::empty()) =~= "| Canonical field |"@);
    } else {
        lemma_header(spokes, n - 1);
        let before = spokes.take(n - 1).map_values(f);
        let x = " "@ + spokes[n - 1] + " |"@;
        assert(spokes.take(n).map_values(f) =~= before.push(x));
        lemma_cat_push(before, x);
        assert(header_cells(spokes, n) =~= "| Canonical field |"@ + (cat(before) + x));
    }
}

/// The row of a field: its label, and for each spoke whether the spoke maps it.
pub open spec fn row_line(spokes: Seq<Text>, row: (FieldKeyV, TextSetV)) -> Text {
    "| "@ + label_of(row.0) + " |"@ + cat(
        spokes.map_values(
            |s: Text|
                if member(row.1, s) {
                    " "@ + "✓"@ + " |"@
                } else {
                    " "@ + "·"@ + " |"@
                },
        ),
    ) + "\n"@
}

proof fn lemma_row(head: Text, spokes: Seq<Text>, row: (FieldKeyV, TextSetV), n: int)
    requires
        0 <= n <= spokes.len(),
    ensures
        row_cells(head, spokes, row, n) == head + ("| "@ + label_of(row.0) + " |"@ + cat(
            spokes.take(n).map_values(
                |s: Text|
                    if member(row.1, s) {
                        " "@ + "✓"@ + " |"@
                    } else {
                        " "@ + "·"@ + " |"@
                    },
            ),
        )),
    decreases n,
{
    let f = |s: Text|
        if member(row.1, s) {
            " "@ + "✓"@ + " |"@
        } else {
            " "@ + "·"@ + " |"@
        };
    let front = "| "@ + label_of(row.0) + " |"@;
    reveal_strlit(" ");
    if n == 0 {
        assert(spokes.take(0).map_values(f) =~= Seq::<Text>::empty());
        assert(row_cells(head, spokes, row, 0) =~= head + (front + cat(Seq::<Text>::empty())));
    } else {
        lemma_row(head, spokes, row, n - 1);
        let before = spokes.take(n - 1).map_values(f);
        let x = f(spokes[n - 1]);
        assert(spokes.take(n).map_values(f) =~= before.push(x));
        lemma_cat_push(before, x);
        assert(row_cells(head, spokes, row, n) =~= head + (front + (cat(before) + x)));
    }
}

proof fn lemma_rule(head: Text, n: nat)
    ensures
        rule_cells(head, n as int) == head + "\n|---|"@ + cat(Seq::new(n, |i: int| "---|"@)),
    decreases n,
{
    if n == 0 {
        assert(Seq::new(0, |i: int| "---|"@) =~= Seq::<Text>::empty());
        assert(head + "\n|---|"@ + cat(Seq::<Text>::empty()) =~= head + "\n|---|"@);
    } else {
        let m = (n - 1) as nat;
        lemma_rule(head, m);
        let before = Seq::new(m, |i: int| "---|"@);
        assert(Seq::new(n, |i: int| "---|"@) =~= before.push("---|"@));
        lemma_cat_push(before, "---|"@);
        assert(head + "\n|---|"@ + cat(before) + "---|"@ =~= head + "\n|---|"@ + (cat(before)
            + "---|"@));
    }
}

proof fn lemma_table(m: MatrixV, n: int)
    requires
        0 <= n <= m.rows.len(),
    ensures
        table_upto(m, n) == table_upto(m, 0) + cat(
            m.rows.take(n).map_values(|r: (FieldKeyV, TextSetV)| row_line(m.spokes, r)),
        ),
    decreases n,
{
    let f = |r: (FieldKeyV, TextSetV)| row_line(m.spokes, r);
    let k = m.spokes.len() as int;
    reveal_strlit("\n");
    if n == 0 {
        assert(m.rows.take(0).map_values(f) =~= Seq::<Text>::empty());
        assert(table_upto(m, 0) + cat(Seq::<Text>::empty()) =~= table_upto(m, 0));
    } else {
        lemma_table(m, n - 1);
        let before = m.rows.take(n - 1).map_values(f);
        let x = row_line(m.spokes, m.rows[n - 1]);
        assert(m.rows.take(n).map_values(f) =~= before.push(x));
        lemma_cat_push(before, x);
        lemma_row(table_upto(m, n - 1), m.spokes, m.rows[n - 1], k);
        assert(m.spokes.take(k) =~= m.spokes);
        assert(table_upto(m, n) =~= table_upto(m, 0) + (cat(before) + x));
    }
}

/// The coverage table has a column for every spoke and a row for every field, in order; a
/// cell is marked where the spoke maps the field.
pub proof fn law_table_marks_what_is_mapped(m: MatrixV)
    ensures
        markdown(m) == "| Canonical field |"@ + cat(
            m.spokes.map_values(|s: Text| " "@ + s + " |"@),
        ) + "\n|---|"@ + cat(Seq::new(m.spokes.len(), |i: int| "---|"@)) + "\n"@ + cat(
            m.rows.map_values(|r: (FieldKeyV, TextSetV)| row_line(m.spokes, r)),
        ),
        "✓"@ != "·"@,
{
    let k = m.spokes.len() as int;
    let n = m.rows.len() as int;
    lemma_header(m.spokes, k);
    lemma_rule(header_cells(m.spokes, k), k as nat);
    lemma_table(m, n);
    assert(m.spokes.take(k) =~= m.spokes);
    assert(m.rows.take(n) =~= m.rows);
    reveal_strlit("\n");
    reveal_strlit("✓");
    reveal_strlit("·");
    assert("✓"@[0] == '✓' && "·"@[0] == '·');
    let head = "| Canonical field |"@ + cat(m.spokes.map_values(|s: Text| " "@ + s + " |"@))
        + "\n|---|"@ + cat(Seq::new(m.spokes.len(), |i: int| "---|"@));
    assert(table_upto(m, 0) =~= head + "\n"@);
}

// ---------------------------------------------------------------------------
// The findings of a compilation
// ---------------------------------------------------------------------------

/// Every diagnostic is printed on a line of its own, in order.
pub proof fn law_findings_are_printed_in_order(a: Seq<DiagnosticV>, d: DiagnosticV)
    ensures
        diag_lines(a.push(d), a.len() as int + 1) == diag_lines(a, a.len() as int) + diag_line(d),
        diag_lines(Seq::empty(), 0).len() == 0,
{
    lemma_lines_same(a, a.push(d), a.len() as int);
}

proof fn lemma_lines_same(a: Seq<DiagnosticV>, b: Seq<DiagnosticV>, n: int)
    requires
        n <= a.len(),
        n <= b.len(),
        forall|i: int| 0 <= i < n ==> #[trigger] a[i] == b[i],
    ensures
        diag_lines(a, n) == diag_lines(b, n),
    decreases n,
{
    if n > 0 {
        lemma_lines_same(a, b, n - 1);
        assert(a[n - 1] == b[n - 1]);
    }
}

/// Each diagnostic is counted once, under its own severity, and checking fails exactly
/// where an error is counted.
pub proof fn law_findings_are_counted(diags: Seq<DiagnosticV>, n: int)
    requires
        0 <= n <= diags.len(),
    ensures
        count_of(diags, Severity::Error, n) + count_of(diags, Severity::Warning, n) + count_of(
            diags,
            Severity::Info,
            n,
        ) == n,
        count_of(diags, Severity::Error, n) > 0 <==> any_error(diags.take(n)),
    decreases n,
{
    if n > 0 {
        law_findings_are_counted(diags, n - 1);
        let (head, all) = (diags.take(n - 1), diags.take(n));
        if any_error(head) {
            let i = choose|i: int|
                0 <= i < head.len() && (#[trigger] head[i]).severity == Severity::Error;
            assert(all[i] == head[i]);
        }
        if any_error(all) {
            let i = choose|i: int|
                0 <= i < all.len() && (#[trigger] all[i]).severity == Severity::Error;
            if i < n - 1 {
                assert(all[i] == head[i]);
            }
        }
        if diags[n - 1].severity == Severity::Error {
            assert(all[n - 1].severity == Severity::Error);
        }
    }
}

/// Checking ends with zero where there is no error, with one where there is, and with two
/// where the mappings cannot be loaded; then the reason is printed.
pub proof fn law_checks_end_as_they_went(
    loaded: Result<Seq<(Text, Seq<ParsedV>)>, Text>,
    check: bool,
)
    ensures
        loaded is Err <==> directory_output(loaded, check).exit_code == 2,
        loaded matches Err(e) ==> directory_output(loaded, check).stdout == "error: "@ + e + "\n"@,
        loaded matches Ok(spokes) ==> (directory_output(loaded, check).exit_code == 1 <==> check
            && any_error(compiled(spokes, crate::dsl::compile::adapter_names()).diags)),
{
}

/// Whether a diagnostic is another one, named after its spoke.
pub open spec fn named_after(d: DiagnosticV, spoke: Text, own: DiagnosticV) -> bool {
    &&& d.code == own.code && d.severity == own.severity
    &&& d.message == own.message && d.span == own.span
    &&& own.source_node matches Some(node) ==> d.source_node == Some(spoke + "::"@ + node)
    &&& own.source_node is None ==> d.source_node == Some(spoke)
}

proof fn lemma_built(spokes: Seq<(Text, Seq<ParsedV>)>, n: int, k: int, i: int)
    requires
        0 <= k < n <= spokes.len(),
        0 <= i < ir_diags(spokes[k].1).len(),
    ensures
        exists|j: int|
            0 <= j < build_findings(spokes, n).len() && named_after(
                #[trigger] build_findings(spokes, n)[j],
                spokes[k].0,
                ir_diags(spokes[k].1)[i],
            ),
    decreases n,
{
    let head = build_findings(spokes, n - 1);
    let all = build_findings(spokes, n);
    if k < n - 1 {
        lemma_built(spokes, n - 1, k, i);
        let j = choose|j: int|
            0 <= j < head.len() && named_after(
                #[trigger] head[j],
                spokes[k].0,
                ir_diags(spokes[k].1)[i],
            );
        assert(all[j] == head[j]);
    } else {
        let own = all_prefixed(spokes[k].0, ir_diags(spokes[k].1));
        assert(own[i] == prefixed(spokes[k].0, ir_diags(spokes[k].1)[i]));
        assert(all[head.len() + i] == own[i]);
    }
}

/// Everything that is found when a spoke is built is among the diagnostics of the
/// compilation, named after the spoke.
pub proof fn law_build_findings_are_named_after_their_spoke(
    spokes: Seq<(Text, Seq<ParsedV>)>,
    adapters: TextSetV,
    k: int,
    i: int,
)
    requires
        0 <= k < spokes.len(),
        0 <= i < ir_diags(spokes[k].1).len(),
    ensures
        exists|j: int|
            0 <= j < compiled(spokes, adapters).diags.len() && named_after(
                #[trigger] compiled(spokes, adapters).diags[j],
                spokes[k].0,
                ir_diags(spokes[k].1)[i],
            ),
{
    let n = spokes.len() as int;
    lemma_built(spokes, n, k, i);
    let built = build_findings(spokes, n);
    let all = compiled(spokes, adapters).diags;
    let j = choose|j: int|
        0 <= j < built.len() && named_after(
            #[trigger] built[j],
            spokes[k].0,
            ir_diags(spokes[k].1)[i],
        );
    assert(all[j] == built[j]);
}

proof fn lemma_validated(
    spokes: Seq<(Text, Seq<ParsedV>)>,
    irs: Seq<(Text, IrV)>,
    sources: Seq<(Text, ModelV)>,
    adapters: TextSetV,
    n: int,
    k: int,
    i: int,
)
    requires
        0 <= k < n <= spokes.len(),
        0 <= i < findings(
            lookup::<String, IrV>(irs, spokes[k].0)->0,
            lookup::<String, ModelV>(sources, spokes[k].0)->0,
            adapters,
        ).len(),
    ensures
        exists|j: int|
            0 <= j < spoke_findings(spokes, irs, sources, adapters, n).len() && named_after(
                #[trigger] spoke_findings(spokes, irs, sources, adapters, n)[j],
                spokes[k].0,
                findings(
                    lookup::<String, IrV>(irs, spokes[k].0)->0,
                    lookup::<String, ModelV>(sources, spokes[k].0)->0,
                    adapters,
                )[i],
            ),
    decreases n,
{
    let own = findings(
        lookup::<String, IrV>(irs, spokes[k].0)->0,
        lookup::<String, ModelV>(sources, spokes[k].0)->0,
        adapters,
    );
    let head = spoke_findings(spokes, irs, sources, adapters, n - 1);
    let all = spoke_findings(spokes, irs, sources, adapters, n);
    if k < n - 1 {
        lemma_validated(spokes, irs, sources, adapters, n - 1, k, i);
        let j = choose|j: int|
            0 <= j < head.len() && named_after(#[trigger] head[j], spokes[k].0, own[i]);
        assert(all[j] == head[j]);
    } else {
        assert(all_prefixed(spokes[k].0, own)[i] == prefixed(spokes[k].0, own[i]));
        assert(all[head.len() + i] == all_prefixed(spokes[k].0, own)[i]);
    }
}

/// Everything that validation finds on a spoke is among the diagnostics of the
/// compilation, named after the spoke; and so is everything on the hub, as it is.
pub proof fn law_findings_are_named_after_their_spoke(
    spokes: Seq<(Text, Seq<ParsedV>)>,
    adapters: TextSetV,
    k: int,
    i: int,
)
    requires
        0 <= k < spokes.len(),
        0 <= i < findings(
            lookup::<String, IrV>(compiled(spokes, adapters).irs, spokes[k].0)->0,
            lookup::<String, ModelV>(compiled(spokes, adapters).sources, spokes[k].0)->0,
            adapters,
        ).len(),
    ensures
        exists|j: int|
            0 <= j < compiled(spokes, adapters).diags.len() && named_after(
                #[trigger] compiled(spokes, adapters).diags[j],
                spokes[k].0,
                findings(
                    lookup::<String, IrV>(compiled(spokes, adapters).irs, spokes[k].0)->0,
                    lookup::<String, ModelV>(compiled(spokes, adapters).sources, spokes[k].0)->0,
                    adapters,
                )[i],
            ),
        forall|h: int|
            0 <= h < derived(values(compiled(spokes, adapters).irs)).diags.len() ==> compiled(
                spokes,
                adapters,
            ).diags.contains(
                #[trigger] derived(values(compiled(spokes, adapters).irs)).diags[h],
            ),
{
    let n = spokes.len() as int;
    let (irs, sources) = (irs_upto(spokes, n), sources_upto(spokes, n));
    lemma_validated(spokes, irs, sources, adapters, n, k, i);
    let own = findings(
        lookup::<String, IrV>(irs, spokes[k].0)->0,
        lookup::<String, ModelV>(sources, spokes[k].0)->0,
        adapters,
    );
    let a = build_findings(spokes, n);
    let b = derived(values(irs)).diags;
    let c = spoke_findings(spokes, irs, sources, adapters, n);
    let all = compiled(spokes, adapters).diags;
    let j = choose|j: int| 0 <= j < c.len() && named_after(#[trigger] c[j], spokes[k].0, own[i]);
    assert(all[a.len() + b.len() + j] == c[j]);
    assert forall|h: int| 0 <= h < b.len() implies all.contains(#[trigger] b[h]) by {
        assert(all[a.len() + h] == b[h]);
    }
}

// ---------------------------------------------------------------------------
// Paths
// ---------------------------------------------------------------------------

/// Whether a field on a way repeats.
pub open spec fn any_repeated(segs: Seq<SegV>) -> bool {
    exists|i: int| 0 <= i < segs.len() && (#[trigger] segs[i]).repeated
}

proof fn lemma_walk(structs: StructsV, name: Text, segs: Seq<Text>, rep: bool, opt: bool)
    ensures
        walk(structs, name, segs, rep, opt) is Ok <==> segs_from(structs, name, segs) is Some,
        walk(structs, name, segs, rep, opt) matches Ok(r) ==> {
            let way = segs_from(structs, name, segs)->0;
            &&& way.len() > 0
            &&& r.repeated <==> rep || any_repeated(way)
            &&& r.struct_name == way.last().struct_name
            &&& r.is_struct <==> r.struct_name is Some
        },
    decreases segs.len(),
{
    if lookup::<String, FieldsV>(structs, name) is Some && segs.len() > 0 {
        let fields = lookup::<String, FieldsV>(structs, name)->0;
        if lookup::<String, FieldV>(fields, segs[0]) is Some {
            let f = lookup::<String, FieldV>(fields, segs[0])->0;
            let here = seg_of(segs[0], f);
            if segs.len() == 1 {
                let way = seq![here];
                assert(way[0] == here);
                if any_repeated(way) {
                    let i = choose|i: int| 0 <= i < way.len() && (#[trigger] way[i]).repeated;
                    assert(way[i] == here);
                }
            } else if f.ty is Some {
                lemma_walk(
                    structs,
                    f.ty->0,
                    segs.drop_first(),
                    rep || f.repeated,
                    opt || f.optional,
                );
                if segs_from(structs, f.ty->0, segs.drop_first()) is Some {
                    let rest = segs_from(structs, f.ty->0, segs.drop_first())->0;
                    let way = seq![here] + rest;
                    assert(way[0] == here);
                    if any_repeated(rest) {
                        let i = choose|i: int| 0 <= i < rest.len() && (#[trigger] rest[i]).repeated;
                        assert(way[i + 1] == rest[i]);
                    }
                    if any_repeated(way) {
                        let i = choose|i: int| 0 <= i < way.len() && (#[trigger] way[i]).repeated;
                        if i > 0 {
                            assert(way[i] == rest[i - 1]);
                        }
                    }
                }
            }
        }
    }
}

/// A path is valid if, and only if, code can be generated for it: both see the same fields
/// on the way, whether one of them repeats, and what the last one is.
pub proof fn law_valid_paths_can_be_generated(model: ModelV, start: Text, path: Text)
    requires
        path.len() > 0,
    ensures
        resolved_from(model, start, path) is Ok <==> path_segs(model, start, path) is Some,
        resolved_from(model, start, path) matches Ok(r) ==> {
            let way = path_segs(model, start, path)->0;
            &&& way.len() > 0
            &&& r.repeated <==> any_repeated(way)
            &&& r.struct_name == way.last().struct_name
            &&& r.is_struct <==> way.last().struct_name is Some
        },
        resolved_from(model, start, Seq::empty()) is Err,
{
    lemma_walk(model.structs, start, split(path, '.'), false, false);
}

proof fn lemma_gap_lines(head: Text, g: Seq<(Text, FieldKeyV)>, n: int, i: int)
    requires
        0 <= i < n <= g.len(),
    ensures
        has(
            gap_lines(head, g, n),
            "- "@ + g[i].0 + " is missing `"@ + label_of(g[i].1) + "`\n"@,
        ),
    decreases n,
{
    let before = gap_lines(head, g, n - 1);
    let all = gap_lines(head, g, n);
    let last = "- "@ + g[n - 1].0 + " is missing `"@ + label_of(g[n - 1].1) + "`\n"@;
    let none = Seq::<char>::empty();
    assert(all =~= before + last);
    if i < n - 1 {
        lemma_gap_lines(head, g, n - 1, i);
        let want = "- "@ + g[i].0 + " is missing `"@ + label_of(g[i].1) + "`\n"@;
        lemma_has_inside(none, before, last, want);
        assert(none + before + last =~= all);
    } else {
        lemma_has_self(last);
        lemma_has_inside(before, last, none, last);
        assert(before + last + none =~= all);
    }
}

/// The report lists every gap with its spoke and the label of its field, and it never fails.
pub proof fn law_every_gap_is_listed(out: CompileV, i: int)
    requires
        0 <= i < gaps(out).len(),
    ensures
        has(
            report_output(out).stdout,
            "- "@ + gaps(out)[i].0 + " is missing `"@ + label_of(gaps(out)[i].1) + "`\n"@,
        ),
        report_output(out).exit_code == 0,
{
    let head = "## Canonical coverage matrix\n\n"@ + markdown(coverage(out))
        + "\n## Gaps (spoke does not map field)\n\n"@;
    lemma_gap_lines(head, gaps(out), gaps(out).len() as int, i);
}

} // verus!
