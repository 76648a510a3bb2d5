//! Source models: paths resolved in them, and models synthesized from nodes.
use einvoice::dsl::node::{NodeId, RawNode};
use einvoice::dsl::parse::{decode_raw, parse_toml};
use einvoice::dsl::source_model::meta::{
    FieldType, PathError, ResolvedField, SourceModelBuilder, SourceModelMeta,
};
use einvoice::dsl::source_model::resolve::{resolve_path, resolve_path_from};
use einvoice::dsl::source_model::synth::{
    camel_case, item_struct_name, snake_case, synthesize_source_model,
};
use einvoice::ordmap::OrdMap;

fn ubl() -> SourceModelMeta {
    SourceModelBuilder::new("ubl-invoice:2.1", "Invoice")
        .struct_def(
            "Invoice",
            &[
                ("id", false, false, FieldType::Scalar),
                ("uuid", true, false, FieldType::Scalar),
                (
                    "monetary_total",
                    false,
                    false,
                    FieldType::Struct("LegalMonetaryTotal".into()),
                ),
                ("invoice_lines", false, true, FieldType::Struct("InvoiceLine".into())),
            ],
        )
        .struct_def(
            "LegalMonetaryTotal",
            &[("payable_amount", false, false, FieldType::Struct("Amount".into()))],
        )
        .struct_def(
            "Amount",
            &[
                ("value", false, false, FieldType::Scalar),
                ("currency_id", false, false, FieldType::Scalar),
            ],
        )
        .struct_def("InvoiceLine", &[("id", false, false, FieldType::Scalar)])
        .build()
}


#[test]
fn test_resolve_simple_scalar() {
    let r = resolve_path(&ubl(), "id").unwrap();
    assert_eq!(
        r,
        ResolvedField {
            repeated: false,
            optional: false,
            is_struct: false,
            struct_name: None
        }
    );
}

#[test]
fn test_resolve_from_collection_item_struct() {
    // A collection child path resolves against the element struct, not root.
    let r = resolve_path_from(&ubl(), "InvoiceLine", "id").unwrap();
    assert!(!r.repeated && !r.is_struct);
    // The same path from root would also exist here, but a line-only field
    // must resolve from the item struct.
    assert!(resolve_path_from(&ubl(), "Invoice", "id").is_ok());
}

#[test]
fn test_collection_field_exposes_element_struct_name() {
    let r = resolve_path(&ubl(), "invoice_lines").unwrap();
    assert_eq!(r.struct_name.as_deref(), Some("InvoiceLine"));
}

#[test]
fn test_resolve_optional_is_tracked() {
    let r = resolve_path(&ubl(), "uuid").unwrap();
    assert!(r.optional);
    assert!(!r.repeated);
}

#[test]
fn test_resolve_nested_scalar_path() {
    let r = resolve_path(&ubl(), "monetary_total.payable_amount.value").unwrap();
    assert!(!r.repeated && !r.optional && !r.is_struct);
}

#[test]
fn test_resolve_through_vec_marks_repeated() {
    // A scalar under a Vec<struct> is `repeated` (multiple values / per item).
    let r = resolve_path(&ubl(), "invoice_lines.id").unwrap();
    assert!(r.repeated);
    assert!(!r.is_struct);
}

#[test]
fn test_resolve_collection_field_is_struct() {
    let r = resolve_path(&ubl(), "invoice_lines").unwrap();
    assert!(r.repeated);
    assert!(r.is_struct);
}

#[test]
fn test_unknown_field_errors() {
    let err = resolve_path(&ubl(), "nope").unwrap_err();
    assert_eq!(
        err,
        PathError::UnknownField {
            struct_name: "Invoice".into(),
            field: "nope".into()
        }
    );
}

#[test]
fn test_descend_into_scalar_errors() {
    let err = resolve_path(&ubl(), "id.extra").unwrap_err();
    assert_eq!(
        err,
        PathError::NotAStruct {
            struct_name: "Invoice".into(),
            field: "id".into()
        }
    );
}

#[test]
fn test_empty_path_errors() {
    assert_eq!(resolve_path(&ubl(), "").unwrap_err(), PathError::Empty);
}


#[test]
fn test_snake_case_xml_names() {
    assert_eq!(snake_case("ID"), "id");
    assert_eq!(snake_case("IssueDate"), "issue_date");
    assert_eq!(snake_case("currencyID"), "currency_id");
    assert_eq!(snake_case("UUID"), "uuid");
    assert_eq!(snake_case("InvoicedQuantity"), "invoiced_quantity");
}

fn raw(toml_src: &str) -> RawNode {
    decode_raw(&parse_toml(toml_src).expect("toml")).expect("raw node parses")
}

fn nodes(pairs: &[(&str, &str)]) -> OrdMap<NodeId, RawNode> {
    let mut m: OrdMap<NodeId, RawNode> = OrdMap::new();
    for (id, body) in pairs {
        m.insert(NodeId::new(id), raw(body));
    }
    m
}

fn synth(pairs: &[(&str, &str)]) -> (SourceModelMeta, OrdMap<NodeId, String>) {
    let (model, paths, diags) = synthesize_source_model(&nodes(pairs), "Invoice", "ubl:2.1");
    assert!(diags.is_empty(), "unexpected synth diagnostics: {diags:?}");
    (model, paths)
}

#[test]
fn test_synth_places_or_reports_every_typed_node() {
    let active = nodes(&[
        ("Invoice", r#"type = "string""#),
        ("Invoice.ID", r#"type = "identifier""#),
        ("Invoice.Party", r#"description = "no type""#),
        ("Invoice.Tax", "type = \"string\"\n        xml = \"@tax\"\n        multiple = \"first\""),
        ("InvoiceLine", r#"type = "collection""#),
        ("InvoiceLine.Name", r#"type = "string""#),
    ]);
    let (model, paths, diags) = synthesize_source_model(&active, "Invoice", "ubl:2.1");
    assert!(diags.iter().all(|d| d.code == "E024"));
    let reported = |id: &str| diags.iter().filter(|d| d.source_node.as_deref() == Some(id)).count();
    let placed = |id: &str| paths.contains_key(&NodeId::new(id));
    for (id, found) in [
        ("Invoice", false),
        ("Invoice.ID", true),
        ("Invoice.Tax", false),
        ("InvoiceLine", true),
        ("InvoiceLine.Name", true),
    ] {
        assert_eq!((placed(id), reported(id)), (found, usize::from(!found)), "{id}");
    }
    assert_eq!((placed("Invoice.Party"), reported("Invoice.Party")), (false, 0));
    assert!(model.structs.contains_key(&"Invoice".to_string()));
    let line = resolve_path_from(&model, "Invoice", "invoice_line").expect("resolves");
    assert!(line.is_struct);
    let name = resolve_path_from(&model, "InvoiceLine", "name").expect("resolves");
    assert!(!name.is_struct);
}

#[test]
fn test_synth_scalar_leaf_is_option_even_when_required() {
    // `required` is a reader/writer diagnostic, not a parse constraint: a
    // document missing the element must still deserialize.
    let (model, paths) = synth(&[
        (
            "Invoice.ID",
            r#"type = "identifier"
        required = true"#,
        ),
        ("Invoice.IssueDate", r#"type = "date""#),
    ]);
    let inv = model.structs.get(&"Invoice".to_string()).unwrap();
    assert_eq!(inv.fields.get(&"id".to_string()).unwrap().ty, FieldType::Scalar);
    assert!(inv.fields.get(&"id".to_string()).unwrap().optional, "required leaf is still Option");
    assert_eq!(inv.fields.get(&"id".to_string()).unwrap().xml.as_deref(), Some("ID"));
    assert!(inv.fields.get(&"issue_date".to_string()).unwrap().optional);
    assert_eq!(paths.get(&NodeId::new("Invoice.ID")).unwrap(), "id");
    assert_eq!(paths.get(&NodeId::new("Invoice.IssueDate")).unwrap(), "issue_date");
}

#[test]
fn test_synth_valued_container_with_attribute() {
    // PayableAmount carries a decimal text value AND a currencyID attribute.
    let (model, paths) = synth(&[
        (
            "Invoice.LegalMonetaryTotal.PayableAmount",
            r#"type = "decimal"
            required = true"#,
        ),
        (
            "Invoice.LegalMonetaryTotal.PayableAmount.currencyID",
            r#"xml = "@currencyID"
            type = "currency""#,
        ),
    ]);
    // Invoice.legal_monetary_total: LegalMonetaryTotal struct.
    assert_eq!(
        model.structs.get(&"Invoice".to_string()).unwrap().fields.get(&"legal_monetary_total".to_string()).unwrap().ty,
        FieldType::Struct("LegalMonetaryTotal".into())
    );
    // LegalMonetaryTotal.payable_amount: PayableAmount struct.
    assert_eq!(
        model.structs.get(&"LegalMonetaryTotal".to_string()).unwrap().fields.get(&"payable_amount".to_string()).unwrap().ty,
        FieldType::Struct("PayableAmount".into())
    );
    // PayableAmount has a $text value field and the currencyID attribute.
    let pa = model.structs.get(&"PayableAmount".to_string()).unwrap();
    assert_eq!(pa.fields.get(&"value".to_string()).unwrap().xml.as_deref(), Some("$text"));
    assert!(pa.fields.get(&"value".to_string()).unwrap().optional, "value leaf is always Option");
    assert_eq!(pa.fields.get(&"currency_id".to_string()).unwrap().xml.as_deref(), Some("@currencyID"));
    assert!(pa.fields.get(&"currency_id".to_string()).unwrap().optional);
    assert_eq!(
        paths.get(&NodeId::new("Invoice.LegalMonetaryTotal.PayableAmount")).unwrap(),
        "legal_monetary_total.payable_amount.value"
    );
    assert_eq!(
        paths.get(&NodeId::new("Invoice.LegalMonetaryTotal.PayableAmount.currencyID")).unwrap(),
        "legal_monetary_total.payable_amount.currency_id"
    );
}

#[test]
fn test_synth_collection_and_item_children() {
    let (model, paths) = synth(&[
        (
            "InvoiceLine",
            r#"type = "collection"
            canonical_key = "InvoiceLines""#,
        ),
        ("InvoiceLine.ID", r#"type = "identifier""#),
        ("InvoiceLine.Item.Name", r#"type = "string""#),
    ]);
    // Root carries a Vec<InvoiceLine>.
    let coll = model.structs.get(&"Invoice".to_string()).unwrap().fields.get(&"invoice_line".to_string()).unwrap();
    assert!(coll.repeated);
    assert_eq!(coll.ty, FieldType::Struct("InvoiceLine".into()));
    assert_eq!(coll.xml.as_deref(), Some("InvoiceLine"));
    // Item children resolve against the item struct.
    assert_eq!(model.structs.get(&"InvoiceLine".to_string()).unwrap().fields.get(&"id".to_string()).unwrap().ty, FieldType::Scalar);
    assert_eq!(
        model.structs.get(&"InvoiceLine".to_string()).unwrap().fields.get(&"item".to_string()).unwrap().ty,
        FieldType::Struct("Item".into())
    );
    assert_eq!(model.structs.get(&"Item".to_string()).unwrap().fields.get(&"name".to_string()).unwrap().ty, FieldType::Scalar);
    assert_eq!(paths.get(&NodeId::new("InvoiceLine")).unwrap(), "invoice_line");
    assert_eq!(paths.get(&NodeId::new("InvoiceLine.ID")).unwrap(), "id");
    assert_eq!(paths.get(&NodeId::new("InvoiceLine.Item.Name")).unwrap(), "item.name");
}

#[test]
fn test_synth_resolves_against_itself() {
    // The synthesized model is consistent: every node's source_path resolves.
    let (model, paths) = synth(&[
        ("Invoice.ID", r#"type = "identifier""#),
        (
            "Invoice.LegalMonetaryTotal.PayableAmount",
            r#"type = "decimal""#,
        ),
    ]);
    for i in 0..paths.len() {
        let path = paths.value_at(i);
        assert!(
            resolve_path(&model, path).is_ok(),
            "synthesized path `{path}` must resolve"
        );
    }
}

#[test]
fn test_synth_is_deterministic() {
    let pairs: &[(&str, &str)] = &[
        ("Invoice.ID", r#"type = "identifier""#),
        ("Invoice.IssueDate", r#"type = "date""#),
        ("InvoiceLine", r#"type = "collection""#),
        ("InvoiceLine.ID", r#"type = "identifier""#),
    ];
    let a = synthesize_source_model(&nodes(pairs), "Invoice", "ubl:2.1");
    let b = synthesize_source_model(&nodes(pairs), "Invoice", "ubl:2.1");
    assert_eq!(a.0, b.0);
    assert_eq!(a.1, b.1);
}

#[test]
fn test_synth_multiple_leaf_is_repeated_vec() {
    let (model, paths) = synth(&[(
        "Invoice.Note",
        r#"type = "string"
        multiple = "join"
        join_with = "\n""#,
    )]);
    let note = model.structs.get(&"Invoice".to_string()).unwrap().fields.get(&"note".to_string()).unwrap();
    assert!(note.repeated, "multiple leaf must synthesize Vec<String>");
    assert!(!note.optional, "a Vec is never Option-wrapped");
    assert_eq!(note.ty, FieldType::Scalar);
    assert_eq!(paths.get(&NodeId::new("Invoice.Note")).unwrap(), "note");
}

#[test]
fn test_synth_multiple_on_attribute_is_error() {
    let (_, _, diags) = synthesize_source_model(
        &nodes(&[(
            "Invoice.Amount.currencyID",
            r#"xml = "@currencyID"
            type = "currency"
            multiple = "first""#,
        )]),
        "Invoice",
        "ubl:2.1",
    );
    assert!(
        diags
            .iter()
            .any(|d| d.code == "E024" && d.message.contains("attribute")),
        "{diags:?}"
    );
}

#[test]
fn test_synth_multiple_on_collection_is_error() {
    let (_, _, diags) = synthesize_source_model(
        &nodes(&[(
            "InvoiceLine",
            r#"type = "collection"
            multiple = "first""#,
        )]),
        "Invoice",
        "ubl:2.1",
    );
    assert!(
        diags
            .iter()
            .any(|d| d.code == "E024" && d.message.contains("collection")),
        "{diags:?}"
    );
}

#[test]
fn test_synth_multiple_on_valued_container_is_error() {
    let (_, _, diags) = synthesize_source_model(
        &nodes(&[
            (
                "Invoice.Amount",
                r#"type = "decimal"
                multiple = "first""#,
            ),
            (
                "Invoice.Amount.currencyID",
                r#"xml = "@currencyID"
                type = "currency""#,
            ),
        ]),
        "Invoice",
        "ubl:2.1",
    );
    assert!(
        diags
            .iter()
            .any(|d| d.code == "E024" && d.message.contains("valued container")),
        "{diags:?}"
    );
}

#[test]
fn test_synth_conflicting_field_is_e024() {
    // Two element names collapse to the same snake field but bind different
    // XML names (`ID` vs `Id`): the synthesized `id` field is ambiguous.
    let (_, _, diags) = synthesize_source_model(
        &nodes(&[
            ("Invoice.ID", r#"type = "identifier""#),
            ("Invoice.Id", r#"type = "string""#),
        ]),
        "Invoice",
        "ubl:2.1",
    );
    assert!(diags.iter().any(|d| d.code == "E024"), "{diags:?}");
}

#[test]
fn test_unknown_root_errors() {
    let err = resolve_path_from(&ubl(), "Nowhere", "id").unwrap_err();
    assert_eq!(err, PathError::UnknownRoot("Nowhere".into()));
}

#[test]
fn test_path_errors_say_what_is_wrong() {
    assert_eq!(PathError::Empty.message(), "empty source path");
    assert!(PathError::UnknownRoot("A".into()).message().contains("`A`"));
    let unknown = PathError::UnknownField { struct_name: "A".into(), field: "b".into() };
    assert!(unknown.message().contains("`A`") && unknown.message().contains("`b`"));
}

#[test]
fn test_struct_names_of_elements() {
    assert_eq!(camel_case("tax_total"), "TaxTotal");
    assert_eq!(camel_case("InvoiceLine"), "InvoiceLine");
    assert_eq!(item_struct_name(&NodeId::new("Invoice.Wrap.Line")), "Line");
}

#[test]
fn test_synth_multiple_on_text_leaf_is_error() {
    let (_, _, diags) = synthesize_source_model(
        &nodes(&[("Invoice.Amount.Value", "xml = \"$text\"\ntype = \"decimal\"\nmultiple = \"first\"")]),
        "Invoice",
        "ubl:2.1",
    );
    assert!(diags.iter().any(|d| d.code == "E024" && d.message.contains("$text")), "{diags:?}");
}

#[test]
fn test_synth_node_without_element_path_is_e024() {
    let (_, paths, diags) =
        synthesize_source_model(&nodes(&[("Invoice", "type = \"string\"")]), "Invoice", "m");
    assert!(paths.is_empty());
    assert_eq!(diags[0].code, "E024");
    assert!(diags[0].message.contains("has no element path"), "{diags:?}");
}

#[test]
fn test_synthesized_paths_of_collection_children_resolve() {
    let (model, paths) = synth(&[
        ("Invoice.Wrap.Line", "type = \"collection\""),
        ("Invoice.Wrap.Line.Price.Amount", "type = \"decimal\""),
        ("Invoice.Wrap.Line.Price.Amount.Unit", "xml = \"@unit\"\ntype = \"string\""),
    ]);
    let line = paths.get(&NodeId::new("Invoice.Wrap.Line")).unwrap();
    assert!(resolve_path(&model, line).unwrap().is_struct);
    for id in ["Invoice.Wrap.Line.Price.Amount", "Invoice.Wrap.Line.Price.Amount.Unit"] {
        let path = paths.get(&NodeId::new(id)).unwrap();
        assert!(resolve_path_from(&model, "Line", path).is_ok(), "{path}");
        assert!(resolve_path(&model, path).is_err(), "{path}");
    }
}
