//! The canonical hub, derived from every spoke.
use einvoice::dsl::hub::{derive_hub, CanonicalScope};
use einvoice::dsl::ir::{build_ir, MappingIr};
use einvoice::dsl::parse::parse_mapping;
use einvoice::dsl::types::MappingType;


fn ir(meta_model: &str, body: &str) -> MappingIr {
    let src = format!(
        r#"
        [meta]
        doc_format = "f"
        format_version = "1"
        mapping_version = "1"
        source_model = "{meta_model}"
        canonical_model = "c:1"
        {body}
    "#
    );
    let (ir, _source, diags) = build_ir(&[parse_mapping(&src).expect("parses")]);
    assert!(diags.is_empty(), "ir diags: {diags:?}");
    ir
}

#[test]
fn test_single_spoke_root_field() {
    let m = ir(
        "a:1",
        r#"[Invoice.ID]
        type = "identifier"
        canonical_key = "InvoiceNumber""#,
    );
    let (model, diags) = derive_hub(&[&m]);
    assert!(diags.is_empty());
    let f = model.get(&CanonicalScope::Root, "InvoiceNumber").unwrap();
    assert_eq!(f.ty, MappingType::Identifier);
    assert!(!f.is_collection);
}

#[test]
fn test_helper_node_contributes_nothing() {
    let m = ir(
        "a:1",
        r#"[Invoice.UUID]
        type = "identifier""#,
    );
    let (model, _) = derive_hub(&[&m]);
    assert!(model.is_empty());
}

#[test]
fn test_two_spokes_consistent_key_merges() {
    let a = ir(
        "a:1",
        r#"[Invoice.ID]
        type = "identifier"
        canonical_key = "InvoiceNumber""#,
    );
    let b = ir(
        "b:1",
        r#"[Doc.Number]
        type = "identifier"
        canonical_key = "InvoiceNumber""#,
    );
    let (model, diags) = derive_hub(&[&a, &b]);
    assert!(diags.is_empty(), "consistent keys must not conflict");
    assert_eq!(model.len(), 1);
}

#[test]
fn test_two_spokes_conflicting_type_is_e010() {
    let a = ir(
        "a:1",
        r#"[Invoice.Total]
        type = "decimal"
        canonical_key = "PayableAmount""#,
    );
    let b = ir(
        "b:1",
        r#"[Doc.Total]
        type = "string"
        canonical_key = "PayableAmount""#,
    );
    let (_, diags) = derive_hub(&[&a, &b]);
    assert_eq!(diags.len(), 1);
    assert_eq!(diags[0].code, "E010");
}

#[test]
fn test_collection_child_scoped_to_collection_key() {
    let m = ir(
        "a:1",
        r#"[InvoiceLine]
        type = "collection"
        canonical_key = "InvoiceLines"

        [InvoiceLine.ID]
        type = "identifier"
        canonical_key = "LineId""#,
    );
    let (model, diags) = derive_hub(&[&m]);
    assert!(diags.is_empty());
    assert!(model.contains(&CanonicalScope::Root, "InvoiceLines"));
    assert!(model.contains(
        &CanonicalScope::Collection(vec!["InvoiceLines".to_string()]),
        "LineId"
    ));
    // The same key name at root would be a different field (different scope).
    assert!(!model.contains(&CanonicalScope::Root, "LineId"));
}

#[test]
fn test_nested_collection_child_scoped_to_full_chain() {
    // A collection nested inside the invoice-line collection: its child's
    // canonical scope is the full chain, outermost first.
    let m = ir(
        "a:1",
        r#"[InvoiceLine]
        type = "collection"
        canonical_key = "InvoiceLines"

        [InvoiceLine.AllowanceCharge]
        type = "collection"
        canonical_key = "LineAllowances"

        [InvoiceLine.AllowanceCharge.Amount]
        type = "decimal"
        canonical_key = "LineAllowanceAmount""#,
    );
    let (model, diags) = derive_hub(&[&m]);
    assert!(diags.is_empty(), "{diags:?}");
    // The nested collection is itself a field of the invoice-line item.
    let lines = CanonicalScope::Collection(vec!["InvoiceLines".to_string()]);
    let nested = model.get(&lines, "LineAllowances").expect("nested coll");
    assert!(nested.is_collection);
    // Its child lives two levels deep.
    assert!(model.contains(
        &CanonicalScope::Collection(vec![
            "InvoiceLines".to_string(),
            "LineAllowances".to_string()
        ]),
        "LineAllowanceAmount"
    ));
}

#[test]
fn test_collection_key_in_two_scopes_is_e012() {
    // The same canonical collection key at root in one spoke and nested in
    // another would generate two `LinesItem` structs — a rustc duplicate-
    // definition error in the generated hub. Caught here instead.
    let a = ir(
        "a:1",
        r#"[Line]
        type = "collection"
        canonical_key = "Lines""#,
    );
    let b = ir(
        "b:1",
        r#"[Group]
        type = "collection"
        canonical_key = "Groups"

        [Group.Line]
        type = "collection"
        canonical_key = "Lines""#,
    );
    let (_, diags) = derive_hub(&[&a, &b]);
    assert!(diags.iter().any(|d| d.code == "E012"), "{diags:?}");
}

#[test]
fn test_two_keys_same_rust_field_name_is_e012() {
    // `Foo_bar` and `FooBar` are different canonical keys but collapse to
    // the same generated `foo_bar` hub field.
    let a = ir(
        "a:1",
        r#"[Invoice.A]
        type = "string"
        canonical_key = "Foo_bar""#,
    );
    let b = ir(
        "b:1",
        r#"[Invoice.B]
        type = "string"
        canonical_key = "FooBar""#,
    );
    let (_, diags) = derive_hub(&[&a, &b]);
    assert!(diags.iter().any(|d| d.code == "E012"), "{diags:?}");
}

#[test]
fn test_same_spoke_duplicate_key_is_e013() {
    // Two nodes in one spoke mapping the same canonical key in the same
    // scope: the read priority would be decided by node-id sort order —
    // ambiguous to the author, so it is an error. `fallbacks` is the
    // explicit way to express priority.
    let m = ir(
        "a:1",
        r#"[Invoice.ID]
        type = "identifier"
        canonical_key = "InvoiceNumber"

        [Invoice.Ref]
        type = "identifier"
        canonical_key = "InvoiceNumber""#,
    );
    let (_, diags) = derive_hub(&[&m]);
    assert_eq!(diags.len(), 1, "{diags:?}");
    assert_eq!(diags[0].code, "E013");
    assert!(
        diags[0].message.contains("Invoice.ID") && diags[0].message.contains("Invoice.Ref"),
        "message must name both nodes: {}",
        diags[0].message
    );
}

#[test]
fn test_same_spoke_same_key_different_scopes_is_ok() {
    // The same key at root and inside a collection are different canonical
    // fields (different scope) — not a duplicate.
    let m = ir(
        "a:1",
        r#"[Invoice.Note]
        type = "string"
        canonical_key = "Note"

        [InvoiceLine]
        type = "collection"
        canonical_key = "InvoiceLines"

        [InvoiceLine.Note]
        type = "string"
        canonical_key = "Note""#,
    );
    let (model, diags) = derive_hub(&[&m]);
    assert!(diags.is_empty(), "{diags:?}");
    assert!(model.contains(&CanonicalScope::Root, "Note"));
    assert!(model.contains(
        &CanonicalScope::Collection(vec!["InvoiceLines".to_string()]),
        "Note"
    ));
}

#[test]
fn test_mapped_child_under_unmapped_collection_is_e011() {
    let m = ir(
        "a:1",
        r#"[Lines]
        type = "collection"

        [Lines.ID]
        type = "identifier"
        canonical_key = "LineId""#,
    );
    let (_, diags) = derive_hub(&[&m]);
    assert_eq!(diags.len(), 1);
    assert_eq!(diags[0].code, "E011");
}

#[test]
fn test_child_scope_appends_the_key() {
    let lines = CanonicalScope::Root.child("Lines");
    assert_eq!(lines, CanonicalScope::Collection(vec!["Lines".to_string()]));
    assert_eq!(
        lines.child("Taxes"),
        CanonicalScope::Collection(vec!["Lines".to_string(), "Taxes".to_string()])
    );
}

#[test]
fn test_clean_hub_holds_every_mapped_key() {
    let a = ir("a:1", "[Doc.A]\ntype = \"string\"\ncanonical_key = \"A\"");
    let b = ir("b:1", "[Doc.B]\ntype = \"decimal\"\ncanonical_key = \"B\"");
    let (model, diags) = derive_hub(&[&a, &b]);
    assert!(diags.is_empty());
    assert_eq!(model.get(&CanonicalScope::Root, "A").unwrap().ty, MappingType::String);
    assert_eq!(model.get(&CanonicalScope::Root, "B").unwrap().ty, MappingType::Decimal);
}
