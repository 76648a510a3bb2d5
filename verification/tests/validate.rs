//! The rules a mapping is held to.
use einvoice::dsl::error::Diagnostic;
use einvoice::dsl::ir::{build_ir, MappingIr};
use einvoice::dsl::parse::parse_mapping;
use einvoice::dsl::source_model::meta::{FieldType, SourceModelBuilder, SourceModelMeta};
use einvoice::dsl::validate::{validate, ValidationInput};
use einvoice::ordmap::TextSet;

fn known() -> TextSet {
    let mut adapters = TextSet::new();
    adapters.insert("known".to_string(), ());
    adapters
}


const META: &str = r#"
    [meta]
    doc_format = "f"
    format_version = "1"
    mapping_version = "1"
    source_model = "s:1"
    canonical_model = "c:1"
    root = "Invoice"
"#;

/// Compiles `body` into its IR + synthesized source model (clean of IR diags).
fn compiled(body: &str) -> (MappingIr, SourceModelMeta) {
    let src = format!("{META}\n{body}");
    let (ir, source, diags) = build_ir(&[parse_mapping(&src).expect("parses")]);
    assert!(diags.is_empty(), "ir diags: {diags:?}");
    (ir, source)
}

fn run(body: &str) -> Vec<Diagnostic> {
    run_with_adapters(body, &TextSet::new())
}

fn run_with_adapters(body: &str, adapters: &TextSet) -> Vec<Diagnostic> {
    let (ir, source) = compiled(body);
    validate(&ValidationInput {
        ir: &ir,
        source: &source,
        adapters,
    })
}

fn codes(diags: &[Diagnostic]) -> Vec<&str> {
    diags.iter().map(|d| d.code.as_str()).collect()
}

#[test]
fn test_clean_mapping_has_no_diagnostics() {
    let diags = run(r#"[Invoice.ID]
        type = "identifier"
        canonical_key = "InvoiceNumber""#);
    assert!(diags.is_empty(), "{diags:?}");
}

#[test]
fn test_collection_node_resolves_clean() {
    let diags = run(r#"[Line]
        type = "collection"
        canonical_key = "Lines"

        [Line.ID]
        type = "identifier"
        canonical_key = "LineId""#);
    assert!(diags.is_empty(), "{diags:?}");
}

#[test]
fn test_collection_child_resolves_against_item_struct() {
    // A collection child's synthesized path resolves against the item struct.
    let diags = run(r#"[Line]
        type = "collection"
        canonical_key = "Lines"

        [Line.Qty]
        type = "decimal"
        canonical_key = "Quantity""#);
    assert!(diags.is_empty(), "{diags:?}");
}

#[test]
fn test_missing_fallback_target_is_e030() {
    let diags = run(r#"[Invoice.ID]
        type = "identifier"
        fallbacks = ["Invoice.Ghost"]"#);
    assert_eq!(codes(&diags), ["E030"]);
}

#[test]
fn test_incompatible_fallback_type_is_e031() {
    let diags = run(r#"[Invoice.ID]
        type = "identifier"
        fallbacks = ["Invoice.Flag"]

        [Invoice.Flag]
        type = "boolean""#);
    assert!(codes(&diags).contains(&"E031"));
}

#[test]
fn test_compatible_identifier_string_fallback_ok() {
    let diags = run(r#"[Invoice.ID]
        type = "identifier"
        fallbacks = ["Invoice.Alt"]

        [Invoice.Alt]
        type = "string""#);
    assert!(diags.is_empty(), "{diags:?}");
}

#[test]
fn test_fallback_into_descendant_scope_is_e032() {
    // Root node falling back into a collection-scoped node.
    let diags = run(r#"[Invoice.ID]
        type = "identifier"
        fallbacks = ["Line.ID"]

        [Line]
        type = "collection"
        canonical_key = "Lines"

        [Line.ID]
        type = "identifier""#);
    assert!(codes(&diags).contains(&"E032"));
}

#[test]
fn test_fallback_into_ancestor_scope_is_e032() {
    // A collection child falling back to a root-scope node: codegen would read
    // the root path against the item struct, so validation must reject it.
    let diags = run(r#"[Line]
        type = "collection"
        canonical_key = "Lines"

        [Line.ID]
        type = "identifier"
        canonical_key = "LineId"
        fallbacks = ["Invoice.ID"]

        [Invoice.ID]
        type = "identifier""#);
    assert!(codes(&diags).contains(&"E032"), "{diags:?}");
}

#[test]
fn test_fallback_cycle_is_e033() {
    let diags = run(r#"[Invoice.ID]
        type = "identifier"
        fallbacks = ["Invoice.UUID"]

        [Invoice.UUID]
        type = "identifier"
        fallbacks = ["Invoice.ID"]"#);
    assert!(codes(&diags).contains(&"E033"));
}

#[test]
fn test_join_without_join_with_is_e040() {
    let diags = run(r#"[Invoice.Note]
        type = "string"
        multiple = "join""#);
    assert!(codes(&diags).contains(&"E040"));
}

#[test]
fn test_join_with_on_non_join_is_e040() {
    let diags = run(r#"[Invoice.Note]
        type = "string"
        multiple = "first"
        join_with = ", ""#);
    assert!(codes(&diags).contains(&"E040"));
}

#[test]
fn test_multiple_with_fallbacks_is_e043() {
    let diags = run(r#"[Invoice.Note]
        type = "string"
        multiple = "first"
        fallbacks = ["Invoice.Alt"]

        [Invoice.Alt]
        type = "string""#);
    assert!(codes(&diags).contains(&"E043"), "{diags:?}");
}

#[test]
fn test_multiple_join_with_pair_is_clean() {
    let diags = run(r#"[Invoice.Note]
        type = "string"
        canonical_key = "Notes"
        multiple = "join"
        join_with = "\n""#);
    assert!(diags.is_empty(), "{diags:?}");
}

#[test]
fn test_min_items_on_scalar_is_e041() {
    let diags = run(r#"[Invoice.ID]
        type = "identifier"
        min_items = 1"#);
    assert!(codes(&diags).contains(&"E041"));
}

#[test]
fn test_unknown_adapter_is_e050() {
    let diags = run(r#"[Invoice.ID]
        type = "identifier"
        adapter = "nope""#);
    assert_eq!(codes(&diags), ["E050"]);
}

#[test]
fn test_known_adapter_ok() {
    let adapters: TextSet = known();
    let diags = run_with_adapters(
        r#"[Invoice.ID]
        type = "identifier"
        adapter = "known""#,
        &adapters,
    );
    assert!(diags.is_empty());
}

#[test]
fn test_constant_only_node_is_clean() {
    let diags = run(r#"[Invoice.UBLVersionID]
        type = "identifier"
        constant = "2.1""#);
    assert!(diags.is_empty(), "{diags:?}");
}

#[test]
fn test_constant_with_canonical_key_is_clean() {
    // Transparent read, fixed write: the flagship CustomizationID shape.
    let diags = run(r#"[Invoice.CustomizationID]
        type = "identifier"
        canonical_key = "SpecificationId"
        constant = "urn:cen.eu:en16931:2017""#);
    assert!(diags.is_empty(), "{diags:?}");
}

#[test]
fn test_constant_on_collection_is_e060() {
    let diags = run(r#"[Line]
        type = "collection"
        canonical_key = "Lines"
        constant = "x"

        [Line.ID]
        type = "identifier"
        canonical_key = "LineId""#);
    assert_eq!(codes(&diags), ["E060"]);
}


#[test]
fn test_invalid_constant_literal_is_e061() {
    for (ty, value) in [
        ("identifier", "  "),
        ("boolean", "yes"),
        ("currency", "eur"),
        ("currency", "EURO"),
        ("decimal", "1,5"),
        ("date", "2024-1-1"),
        ("datetime", "2024-01-01 10:00:00"),
        ("datetime", "é234-56-78T12:34:56"),
    ] {
        let diags = run(&format!(
            "[Invoice.X]\ntype = \"{ty}\"\nconstant = \"{value}\""
        ));
        assert_eq!(codes(&diags), ["E061"], "{ty} / {value:?}: {diags:?}");
    }
}

#[test]
fn test_valid_constant_literal_is_clean() {
    for (ty, value) in [
        ("boolean", "false"),
        ("currency", "EUR"),
        ("decimal", "19"),
        ("decimal", "-19.00"),
        ("date", "2024-01-01"),
        ("datetime", "2024-01-01T10:00:00"),
        ("unit_code", "C62"),
    ] {
        let diags = run(&format!(
            "[Invoice.X]\ntype = \"{ty}\"\nconstant = \"{value}\""
        ));
        assert!(diags.is_empty(), "{ty} / {value:?}: {diags:?}");
    }
}

#[test]
fn test_constant_combined_with_read_features_is_e062() {
    for extra in [
        "fallbacks = [\"Invoice.Alt\"]\n\n[Invoice.Alt]\ntype = \"identifier\"",
        "multiple = \"first\"",
        "adapter = \"known\"",
        "normalize = [\"trim\"]",
    ] {
        let adapters: TextSet = known();
        let diags = run_with_adapters(
            &format!("[Invoice.X]\ntype = \"identifier\"\nconstant = \"v\"\n{extra}"),
            &adapters,
        );
        assert!(codes(&diags).contains(&"E062"), "{extra}: {diags:?}");
    }
}

#[test]
fn test_clone_of_valid_is_clean() {
    let diags = run(r#"[Invoice.ID]
        type = "identifier"
        canonical_key = "InvoiceNumber"

        [Invoice.BuyerReference]
        type = "identifier"
        clone_of = "InvoiceNumber""#);
    assert!(diags.is_empty(), "{diags:?}");
}

#[test]
fn test_clone_of_combined_with_other_roles_is_e070() {
    for extra in [
        "canonical_key = \"Other\"",
        "constant = \"v\"",
        "fallbacks = [\"Invoice.Alt\"]\n\n[Invoice.Alt]\ntype = \"identifier\"",
        "multiple = \"first\"",
        "adapter = \"known\"",
    ] {
        let adapters: TextSet = known();
        let diags = run_with_adapters(
            &format!(
                "[Invoice.ID]\ntype = \"identifier\"\ncanonical_key = \"InvoiceNumber\"\n\n\
                 [Invoice.Copy]\ntype = \"identifier\"\nclone_of = \"InvoiceNumber\"\n{extra}"
            ),
            &adapters,
        );
        assert!(codes(&diags).contains(&"E070"), "{extra}: {diags:?}");
    }
}

#[test]
fn test_clone_of_on_collection_is_e070() {
    let diags = run(r#"[Line]
        type = "collection"
        canonical_key = "Lines"

        [Copies]
        type = "collection"
        clone_of = "Lines""#);
    assert!(codes(&diags).contains(&"E070"), "{diags:?}");
}

#[test]
fn test_clone_of_unknown_key_is_e071() {
    let diags = run(r#"[Invoice.Copy]
        type = "identifier"
        clone_of = "Ghost""#);
    assert_eq!(codes(&diags), ["E071"]);
}

#[test]
fn test_clone_of_key_in_other_scope_is_e071() {
    // Target key exists, but only inside a collection scope — a root clone
    // cannot mirror it.
    let diags = run(r#"[Line]
        type = "collection"
        canonical_key = "Lines"

        [Line.ID]
        type = "identifier"
        canonical_key = "LineId"

        [Invoice.Copy]
        type = "identifier"
        clone_of = "LineId""#);
    assert!(codes(&diags).contains(&"E071"), "{diags:?}");
}

#[test]
fn test_clone_of_type_mismatch_is_e072() {
    let diags = run(r#"[Invoice.Total]
        type = "decimal"
        canonical_key = "PayableAmount"

        [Invoice.Copy]
        type = "string"
        clone_of = "PayableAmount""#);
    assert!(codes(&diags).contains(&"E072"), "{diags:?}");
}

#[test]
fn test_diagnostics_aggregate_not_first_error_only() {
    // Two independent problems on one node must both surface.
    let diags = run(r#"[Invoice.Note]
        type = "string"
        multiple = "join"
        min_items = 1"#);
    let c = codes(&diags);
    assert!(c.contains(&"E040"), "{c:?}");
    assert!(c.contains(&"E041"), "{c:?}");
}

#[test]
fn test_model_id_mismatch_is_reported() {
    let (ir, mut source) = compiled("[Invoice.ID]\ntype = \"identifier\"");
    source.model_id = "other:1".to_string();
    let diags = validate(&ValidationInput { ir: &ir, source: &source, adapters: &TextSet::new() });
    assert_eq!(codes(&diags), ["E020"], "{diags:?}");
}

#[test]
fn test_paths_are_held_to_the_source_model() {
    let (ir, _) = compiled(
        "[Invoice.ID]\ntype = \"identifier\"\n[Line]\ntype = \"collection\"\ncanonical_key = \"Lines\"",
    );
    let check = |fields: &[(&str, bool, bool, FieldType)]| {
        let source = SourceModelBuilder::new("s:1", "Invoice")
            .struct_def("Invoice", fields)
            .struct_def("Line", &[])
            .build();
        let found = validate(&ValidationInput { ir: &ir, source: &source, adapters: &TextSet::new() });
        found.iter().map(|d| d.code.clone()).collect::<Vec<String>>()
    };
    let line = || FieldType::Struct("Line".into());
    assert_eq!(check(&[("line", false, true, line())]), ["E021"]);
    assert_eq!(
        check(&[("id", true, false, FieldType::Scalar), ("line", false, false, line())]),
        ["E022"]
    );
    assert_eq!(check(&[("id", false, false, line()), ("line", false, true, line())]), ["E023"]);
}

#[test]
fn test_a_fallback_cycle_is_reported_once() {
    let diags = run(
        "[Invoice.A]\ntype = \"string\"\nfallbacks = [\"Invoice.B\"]\n\
         [Invoice.B]\ntype = \"string\"\nfallbacks = [\"Invoice.C\"]\n\
         [Invoice.C]\ntype = \"string\"\nfallbacks = [\"Invoice.A\"]",
    );
    let cycles: Vec<&Diagnostic> = diags.iter().filter(|d| d.code == "E033").collect();
    assert_eq!(cycles.len(), 1, "{diags:?}");
    assert_eq!(cycles[0].message, "fallback cycle detected through `Invoice.A`");
}
