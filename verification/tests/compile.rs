//! Compiling all spokes together.
use einvoice::dsl::compile::{compile, known_adapters, SpokeInput};
use einvoice::dsl::parse::{parse_mapping, ParsedMapping};
use einvoice::ordmap::TextSet;


fn mapping(model_id: &str, body: &str) -> ParsedMapping {
    let s = format!(
        r#"
        [meta]
        doc_format = "f"
        format_version = "1"
        mapping_version = "1"
        source_model = "{model_id}"
        canonical_model = "c:1"
        root = "Doc"
        {body}
    "#
    );
    parse_mapping(&s).expect("parses")
}

#[test]
fn test_compile_clean_two_spokes() {
    let a = mapping(
        "a:1",
        r#"[Doc.ID]
        type = "identifier"
        canonical_key = "InvoiceNumber""#,
    );
    let b = mapping(
        "b:1",
        r#"[Doc.Number]
        type = "identifier"
        canonical_key = "InvoiceNumber""#,
    );
    let spokes = [
        SpokeInput {
            id: "a".into(),
            chain: std::slice::from_ref(&a),
        },
        SpokeInput {
            id: "b".into(),
            chain: std::slice::from_ref(&b),
        },
    ];
    let out = compile(&spokes, &TextSet::new());
    assert!(!out.has_errors(), "{:?}", out.diagnostics);
    assert_eq!(out.irs.len(), 2);
    assert_eq!(out.hub.len(), 1, "shared canonical key merges");
}

#[test]
fn test_compile_aggregates_errors_from_multiple_stages() {
    // A per-spoke validate error (E050 unknown adapter) AND a cross-spoke hub
    // conflict (E010) must both surface, never only the first.
    let a = mapping(
        "a:1",
        r#"[Doc.Total]
        type = "decimal"
        canonical_key = "Amount"
        adapter = "nope""#,
    );
    let b = mapping(
        "b:1",
        r#"[Doc.Total]
        type = "string"
        canonical_key = "Amount""#,
    );
    let spokes = [
        SpokeInput {
            id: "a".into(),
            chain: std::slice::from_ref(&a),
        },
        SpokeInput {
            id: "b".into(),
            chain: std::slice::from_ref(&b),
        },
    ];
    let out = compile(&spokes, &TextSet::new());
    assert!(out.has_errors());
    let codes: Vec<&str> = out.diagnostics.iter().map(|d| d.code.as_str()).collect();
    assert!(codes.contains(&"E010"), "cross-spoke conflict: {codes:?}");
    assert!(codes.contains(&"E050"), "unknown adapter: {codes:?}");
}

#[test]
fn test_compile_exposes_synthesized_source_per_spoke() {
    // Codegen consumers (the build script) need each spoke's synthesized
    // source model, keyed by the same id as `irs`, so they can compile
    // through the one validated pipeline rather than re-running `build_ir`.
    let a = mapping(
        "a:1",
        r#"[Doc.ID]
        type = "identifier"
        canonical_key = "InvoiceNumber""#,
    );
    let spokes = [SpokeInput {
        id: "a".into(),
        chain: std::slice::from_ref(&a),
    }];
    let out = compile(&spokes, &TextSet::new());
    let source = out.sources.get(&"a".to_string()).expect("source for spoke `a`");
    assert_eq!(source.root, "Doc");
    assert!(source.structs.contains_key(&"Doc".to_string()));
}

#[test]
fn test_compile_accepts_known_adapter() {
    // `uppercase_currency` is a compiler-known adapter; a mapping using it
    // must compile clean when the caller passes `known_adapters()`.
    let a = mapping(
        "a:1",
        r#"[Doc.Currency]
        type = "currency"
        canonical_key = "DocumentCurrency"
        adapter = "uppercase_currency""#,
    );
    let spokes = [SpokeInput {
        id: "a".into(),
        chain: std::slice::from_ref(&a),
    }];
    let out = compile(&spokes, &known_adapters());
    assert!(!out.has_errors(), "{:?}", out.diagnostics);
}

#[test]
fn test_compile_is_deterministic() {
    let a = mapping(
        "a:1",
        r#"[Doc.ID]
        type = "identifier"
        canonical_key = "InvoiceNumber""#,
    );
    let spokes = [SpokeInput {
        id: "a".into(),
        chain: std::slice::from_ref(&a),
    }];
    let first = compile(&spokes, &TextSet::new());
    let second = compile(&spokes, &TextSet::new());
    assert_eq!(first.irs, second.irs);
    assert_eq!(first.hub, second.hub);
    assert_eq!(first.diagnostics, second.diagnostics);
}

#[test]
fn test_known_adapters_are_the_ones_of_the_runtime() {
    let names = known_adapters();
    assert_eq!(names.len(), 1);
    assert_eq!(names.key_at(0), "uppercase_currency");
}
