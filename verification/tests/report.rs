//! Reports over compiled spokes.
use einvoice::dsl::compile::{compile, CompileOutput, SpokeInput};
use einvoice::dsl::hub::CanonicalScope;
use einvoice::dsl::node::NodeId;
use einvoice::dsl::parse::{parse_mapping, ParsedMapping};
use einvoice::dsl::report::{
    coverage_matrix, covered_canonical_fields, fallback_graph, gap_report,
    render_coverage_markdown, required_canonical_fields, FieldKey,
};
use einvoice::ordmap::TextSet;

fn set(names: &[&str]) -> TextSet {
    let mut s = TextSet::new();
    for name in names {
        s.insert(name.to_string(), ());
    }
    s
}


fn mapping(model_id: &str, body: &str) -> ParsedMapping {
    let s = format!(
        r#"
        [meta]
        doc_format = "f"
        format_version = "1"
        mapping_version = "1"
        source_model = "{model_id}"
        canonical_model = "c:1"
        root = "Doc"
        {body}
    "#
    );
    parse_mapping(&s).expect("parses")
}

fn two_spoke_output() -> CompileOutput {
    // Spoke A covers InvoiceNumber + Amount; spoke B covers only InvoiceNumber.
    let a = mapping(
        "a:1",
        r#"[Doc.ID]
        type = "identifier"
        canonical_key = "InvoiceNumber"
        [Doc.Total]
        type = "decimal"
        canonical_key = "Amount""#,
    );
    let b = mapping(
        "b:1",
        r#"[Doc.Number]
        type = "identifier"
        canonical_key = "InvoiceNumber""#,
    );
    let spokes = [
        SpokeInput {
            id: "a".into(),
            chain: std::slice::from_ref(&a),
        },
        SpokeInput {
            id: "b".into(),
            chain: std::slice::from_ref(&b),
        },
    ];
    compile(&spokes, &TextSet::new())
}

#[test]
fn test_coverage_matrix_tracks_who_covers_each_field() {
    let out = two_spoke_output();
    assert!(!out.has_errors(), "{:?}", out.diagnostics);
    let m = coverage_matrix(&out);
    assert_eq!(m.spokes, ["a", "b"]);

    let invoice_number = FieldKey {
        scope: CanonicalScope::Root,
        key: "InvoiceNumber".into(),
    };
    let amount = FieldKey {
        scope: CanonicalScope::Root,
        key: "Amount".into(),
    };
    assert_eq!(
        *m.rows.get(&invoice_number).unwrap(),
        set(&["a", "b"])
    );
    assert_eq!(
        *m.rows.get(&amount).unwrap(),
        set(&["a"])
    );
}

#[test]
fn test_gap_report_lists_uncovered_fields() {
    let out = two_spoke_output();
    let gaps = gap_report(&out);
    // Only spoke b is missing Amount.
    assert_eq!(gaps.len(), 1);
    assert_eq!(gaps[0].spoke, "b");
    assert_eq!(gaps[0].field.key, "Amount");
}

#[test]
fn test_gaps_are_sorted_and_complete() {
    let a = mapping("a:1", "[Doc.ID]\ntype = \"identifier\"\ncanonical_key = \"Number\"");
    let b = mapping("b:1", "[Doc.Sum]\ntype = \"decimal\"\ncanonical_key = \"Amount\"");
    let c = mapping("c:1", "[Doc.Day]\ntype = \"date\"\ncanonical_key = \"Date\"");
    let spokes = [("b", &b), ("c", &c), ("a", &a)]
        .map(|(id, m)| SpokeInput { id: id.to_string(), chain: std::slice::from_ref(m) });
    let out = compile(&spokes, &TextSet::new());
    let found: Vec<(String, String)> =
        gap_report(&out).iter().map(|g| (g.spoke.clone(), g.field.key.clone())).collect();
    let want = [
        ("a", "Amount"), ("a", "Date"), ("b", "Date"), ("b", "Number"), ("c", "Amount"),
        ("c", "Number"),
    ];
    assert_eq!(found, want.map(|(s, f)| (s.to_string(), f.to_string())));
    let matrix = coverage_matrix(&out);
    let marks: usize = (0..matrix.rows.len()).map(|i| matrix.rows.value_at(i).len()).sum();
    assert_eq!(found.len() + marks, matrix.spokes.len() * matrix.rows.len());
}

#[test]
fn test_fallback_graph_lists_edges() {
    let a = mapping(
        "a:1",
        r#"[Doc.ID]
        type = "identifier"
        canonical_key = "InvoiceNumber"
        fallbacks = ["Doc.Alt"]
        [Doc.Alt]
        type = "identifier""#,
    );
    let spokes = [SpokeInput {
        id: "a".into(),
        chain: std::slice::from_ref(&a),
    }];
    let out = compile(&spokes, &TextSet::new());
    let graph = fallback_graph(out.irs.get(&"a".to_string()).unwrap());
    assert_eq!(*graph.get(&NodeId::new("Doc.ID")).unwrap(), [NodeId::new("Doc.Alt")]);
    assert!(!graph.contains_key(&NodeId::new("Doc.Alt")));
}

#[test]
fn test_covered_canonical_fields_lists_mapped_keys() {
    let out = two_spoke_output();
    let covered = covered_canonical_fields(out.irs.get(&"a".to_string()).unwrap());
    assert_eq!(
        covered,
        set(&["Amount", "InvoiceNumber"])
    );
    // Spoke b maps only InvoiceNumber.
    assert_eq!(
        covered_canonical_fields(out.irs.get(&"b".to_string()).unwrap()),
        set(&["InvoiceNumber"])
    );
}

#[test]
fn test_required_canonical_fields_only_required_nodes() {
    let m = mapping(
        "a:1",
        r#"[Doc.ID]
        type = "identifier"
        required = true
        canonical_key = "InvoiceNumber"
        [Doc.Total]
        type = "decimal"
        canonical_key = "Amount""#,
    );
    let spokes = [SpokeInput {
        id: "a".into(),
        chain: std::slice::from_ref(&m),
    }];
    let out = compile(&spokes, &TextSet::new());
    let ir = out.irs.get(&"a".to_string()).unwrap();
    assert_eq!(
        required_canonical_fields(ir),
        set(&["InvoiceNumber"])
    );
    // The optional Amount is covered but not required.
    assert!(covered_canonical_fields(ir).contains_key(&"Amount".to_string()));
}

#[test]
fn test_collection_child_fields_are_scope_qualified() {
    let m = mapping(
        "a:1",
        r#"[Line]
        type = "collection"
        canonical_key = "Lines"
        [Line.ID]
        type = "identifier"
        required = true
        canonical_key = "LineId""#,
    );
    let spokes = [SpokeInput {
        id: "a".into(),
        chain: std::slice::from_ref(&m),
    }];
    let out = compile(&spokes, &TextSet::new());
    let ir = out.irs.get(&"a".to_string()).unwrap();
    assert!(covered_canonical_fields(ir).contains_key(&"Lines/LineId".to_string()));
    assert!(required_canonical_fields(ir).contains_key(&"Lines/LineId".to_string()));
}

#[test]
fn test_render_coverage_markdown_is_deterministic() {
    let out = two_spoke_output();
    let m = coverage_matrix(&out);
    let a = render_coverage_markdown(&m);
    let b = render_coverage_markdown(&m);
    assert_eq!(a, b);
    assert!(a.contains("Canonical field"));
    assert!(a.contains("Amount"));
}
