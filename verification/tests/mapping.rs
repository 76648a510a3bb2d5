//! The vocabulary of the mapping language, and how a mapping file becomes nodes.
use einvoice::dsl::decode::{decode_policy, decode_type};
use einvoice::dsl::error::{ConfigError, Diagnostic, Severity};
use einvoice::dsl::ir::build_ir;
use einvoice::dsl::meta::MappingMeta;
use einvoice::dsl::multiple::MultiplePolicy;
use einvoice::dsl::node::{NodeId, RawNode, Scope, SourceNode};
use einvoice::dsl::normalize::NormalizeOp;
use einvoice::dsl::parse::{decode_meta, decode_raw, parse_mapping, parse_toml, ParsedMapping};
use einvoice::dsl::resolve::{apply_defaults, merge_inheritance, remove_disabled};
use einvoice::dsl::source_model::synth::synthesize_source_model;
use einvoice::dsl::types::MappingType;
use einvoice::dsl::value::TomlValue;
use einvoice::ordmap::OrdMap;

fn raw_node(src: &str) -> Result<RawNode, String> {
    decode_raw(&parse_toml(src).expect("toml"))
}

fn meta_table(src: &str) -> Result<MappingMeta, String> {
    decode_meta(&TomlValue::Table(parse_toml(src).expect("toml")))
}

/// The value of the only entry of a document.
fn only_value(src: &str) -> TomlValue {
    parse_toml(src).expect("toml").remove(0).1
}

#[test]
fn test_as_str_roundtrips_keyword() {
    for (input, expected) in [
        ("string", MappingType::String),
        ("identifier", MappingType::Identifier),
        ("date", MappingType::Date),
        ("datetime", MappingType::Datetime),
        ("decimal", MappingType::Decimal),
        ("currency", MappingType::Currency),
        ("unit_code", MappingType::UnitCode),
        ("boolean", MappingType::Boolean),
        ("collection", MappingType::Collection),
    ] {
        assert_eq!(expected.as_str(), input);
        assert_eq!(MappingType::from_keyword(input), Some(expected));
    }
    assert_eq!(MappingType::from_keyword("text"), None);
}

#[test]
fn test_collection_is_structural() {
    assert!(MappingType::Collection.is_collection());
    assert!(!MappingType::Decimal.is_collection());
}

#[test]
fn test_deserialize_snake_case() {
    let ty = decode_type(&only_value(r#"ty = "unit_code""#)).unwrap();
    assert_eq!(ty, MappingType::UnitCode);
}

#[test]
fn test_policies_parse_from_keywords() {
    for (kw, expected) in [
        ("error", MultiplePolicy::Error),
        ("first", MultiplePolicy::First),
        ("join", MultiplePolicy::Join),
    ] {
        let policy = decode_policy(&only_value(&format!("multiple = \"{kw}\"")));
        assert_eq!(policy.expect("keyword parses"), expected);
    }
}

#[test]
fn test_array_policy_is_rejected_at_parse() {
    let err = decode_policy(&only_value("multiple = \"array\"")).unwrap_err();
    assert!(err.contains("unknown variant"), "{err}");
}

#[test]
fn test_config_error_from_toml_carries_span() {
    // A duplicate key is a TOML error with a span.
    let err = parse_toml("a = 1\na = 2").unwrap_err();
    assert!(err.span.is_some(), "toml errors should carry a byte span");
    assert!(!err.message.is_empty());
}

#[test]
fn test_severity_ordering_error_is_lowest() {
    // Error sorts before Warning before Info (useful for stable report order).
    assert!(Severity::Error < Severity::Warning);
    assert!(Severity::Warning < Severity::Info);
}


fn required_only() -> &'static str {
    r#"
        doc_format = "ubl-invoice"
        format_version = "2.1"
        mapping_version = "1.0"
        source_model = "ubl-invoice:2.1"
        canonical_model = "canonical-invoice:1.0"
    "#
}

#[test]
fn test_required_fields_parse_with_optionals_none() {
    let meta = meta_table(required_only()).unwrap();
    assert_eq!(meta.doc_format, "ubl-invoice");
    assert_eq!(meta.source_model.as_deref(), Some("ubl-invoice:2.1"));
    assert_eq!(meta.canonical_model, "canonical-invoice:1.0");
    assert_eq!(meta.inherits, None);
    assert_eq!(meta.description, None);
}

#[test]
fn test_detect_defaults_empty_and_parses_list() {
    let meta = meta_table(required_only()).unwrap();
    assert!(meta.detect.is_empty());

    let src = format!("{}\ndetect = [\"xrechnung\", \"cius\"]", required_only());
    let meta = meta_table(&src).unwrap();
    assert_eq!(
        meta.detect,
        vec!["xrechnung".to_string(), "cius".to_string()]
    );
}

#[test]
fn test_optional_inherits_and_description_parse() {
    let src = format!(
        "{}\ninherits = \"ubl-invoice:2.0\"\ndescription = \"x\"",
        required_only()
    );
    let meta = meta_table(&src).unwrap();
    assert_eq!(meta.inherits.as_deref(), Some("ubl-invoice:2.0"));
    assert_eq!(meta.description.as_deref(), Some("x"));
}

#[test]
fn test_disabled_defaults_false_and_parses_true() {
    let meta = meta_table(required_only()).unwrap();
    assert!(!meta.disabled);

    let src = format!("{}\ndisabled = true", required_only());
    let meta = meta_table(&src).unwrap();
    assert!(meta.disabled);
}

#[test]
fn test_missing_required_field_is_error() {
    let src = r#"
        doc_format = "ubl-invoice"
        format_version = "2.1"
        mapping_version = "1.0"
        source_model = "ubl-invoice:2.1"
    "#; // canonical_model missing
    assert!(meta_table(src).is_err());
}

#[test]
fn test_unknown_field_is_rejected() {
    let src = format!("{}\nextra = \"nope\"", required_only());
    assert!(meta_table(&src).is_err());
}


#[test]
fn test_node_id_segments_and_parent() {
    let id = NodeId::new("Invoice.Line.ID");
    assert_eq!(id.segments(), ["Invoice", "Line", "ID"]);
    assert_eq!(id.parent(), Some(NodeId::new("Invoice.Line")));
    assert_eq!(NodeId::new("Invoice").parent(), None);
}

#[test]
fn test_node_id_descendant() {
    let line = NodeId::new("InvoiceLine");
    assert!(NodeId::new("InvoiceLine.ID").is_descendant_of(&line));
    // Prefix that is not a segment boundary is not a descendant.
    assert!(!NodeId::new("InvoiceLineExtra").is_descendant_of(&line));
    assert!(!line.is_descendant_of(&line));
}

#[test]
fn test_raw_node_unknown_field_rejected() {
    assert!(raw_node(r#"bogus = 1"#).is_err());
}

#[test]
fn test_raw_node_all_fields_optional() {
    let n = raw_node("").unwrap();
    assert_eq!(n, RawNode::default());
    assert!(!n.has_active_field());
    assert!(!n.is_disabled());
}

#[test]
fn test_raw_node_disabled_only_has_no_active_field() {
    let n = raw_node("disabled = true\ndescription = \"gone\"").unwrap();
    assert!(n.is_disabled());
    assert!(!n.has_active_field());
}

#[test]
fn test_raw_node_type_marks_active() {
    let n = raw_node(r#"type = "identifier""#).unwrap();
    assert!(n.has_active_field());
    assert_eq!(n.ty, Some(MappingType::Identifier));
}

#[test]
fn test_raw_node_xml_marks_active() {
    let n = raw_node(r#"xml = "@currencyID""#).unwrap();
    assert!(n.has_active_field());
    assert_eq!(n.xml.as_deref(), Some("@currencyID"));
}

#[test]
fn test_raw_node_constant_marks_active() {
    let n = raw_node(r#"constant = "2.1""#).unwrap();
    assert!(n.has_active_field());
    assert_eq!(n.constant.as_deref(), Some("2.1"));
}


const PARSE_META: &str = r#"
    [meta]
    doc_format = "ubl-invoice"
    format_version = "2.1"
    mapping_version = "1.0"
    source_model = "ubl-invoice:2.1"
    canonical_model = "canonical-invoice:1.0"
"#;

fn parse(extra: &str) -> ParsedMapping {
    parse_mapping(&format!("{PARSE_META}\n{extra}")).expect("parses")
}

#[test]
fn test_meta_only_yields_no_nodes() {
    let m = parse("");
    assert_eq!(m.meta.doc_format, "ubl-invoice");
    assert!(m.nodes.is_empty());
}

#[test]
fn test_missing_meta_is_error() {
    let err = parse_mapping(
        r#"[Invoice.ID]
        type = "identifier""#,
    )
    .unwrap_err();
    assert!(err.message.contains("[meta]"));
}

#[test]
fn test_single_node_flattens_to_dotted_id() {
    let m = parse(
        r#"
        [Invoice.ID]
        type = "identifier"
        canonical_key = "InvoiceNumber"
        required = true
    "#,
    );
    assert_eq!(m.nodes.len(), 1);
    let node = m.nodes.get(&NodeId::new("Invoice.ID")).unwrap();
    assert_eq!(node.ty, Some(MappingType::Identifier));
    assert_eq!(node.canonical_key.as_deref(), Some("InvoiceNumber"));
    assert_eq!(node.required, Some(true));
}

#[test]
fn test_leaf_xml_binding_is_captured() {
    let m = parse(
        r#"
        [Invoice.PayableAmount.currencyID]
        xml = "@currencyID"
        type = "currency"
    "#,
    );
    let node = m.nodes.get(&NodeId::new("Invoice.PayableAmount.currencyID")).unwrap();
    assert_eq!(node.xml.as_deref(), Some("@currencyID"));
    assert_eq!(node.ty, Some(MappingType::Currency));
}

#[test]
fn test_collection_node_and_children_both_captured() {
    let m = parse(
        r#"
        [InvoiceLine]
        type = "collection"
        canonical_key = "InvoiceLines"

        [InvoiceLine.ID]
        type = "identifier"
        canonical_key = "LineId"
    "#,
    );
    assert_eq!(m.nodes.len(), 2);
    assert_eq!(
        m.nodes.get(&NodeId::new("InvoiceLine")).unwrap().ty,
        Some(MappingType::Collection)
    );
    assert_eq!(
        m.nodes.get(&NodeId::new("InvoiceLine.ID")).unwrap()
            .canonical_key
            .as_deref(),
        Some("LineId")
    );
}

#[test]
fn test_container_only_table_is_not_a_node() {
    // `[Supplier]` is never declared with own fields; only its children are.
    let m = parse(
        r#"
        [Supplier.Name]
        type = "string"

        [Supplier.RegistrationName]
        type = "string"
    "#,
    );
    assert!(!m.nodes.contains_key(&NodeId::new("Supplier")));
    assert!(m.nodes.contains_key(&NodeId::new("Supplier.Name")));
    assert!(
        m.nodes
            .contains_key(&NodeId::new("Supplier.RegistrationName"))
    );
}

#[test]
fn test_unknown_node_field_is_rejected() {
    let err = parse_mapping(&format!(
        "{PARSE_META}\n[Invoice.ID]\ntype = \"identifier\"\nbogus = 1"
    ))
    .unwrap_err();
    assert!(err.message.contains("Invoice.ID"));
}

#[test]
fn test_duplicate_table_is_rejected_by_toml() {
    let err = parse_mapping(&format!(
        "{PARSE_META}\n[Invoice.ID]\ntype=\"identifier\"\n[Invoice.ID]\ntype=\"string\""
    ))
    .unwrap_err();
    assert!(!err.message.is_empty());
}

#[test]
fn test_stray_top_level_scalar_is_rejected() {
    let err = parse_mapping(&format!("{PARSE_META}\nstray = 1")).unwrap_err();
    assert!(err.message.contains("stray"));
}

#[test]
fn test_nodes_ordered_by_id() {
    let m = parse(
        r#"
        [Zeta]
        type = "string"
        [Alpha]
        type = "string"
    "#,
    );
    let ids: Vec<&str> = (0..m.nodes.len()).map(|i| m.nodes.key_at(i).as_str()).collect();
    assert_eq!(ids, ["Alpha", "Zeta"]);
}


const RESOLVE_META: &str = r#"
    [meta]
    doc_format = "f"
    format_version = "1"
    mapping_version = "1"
    source_model = "s:1"
    canonical_model = "c:1"
"#;

fn parsed(extra: &str) -> ParsedMapping {
    parse_mapping(&format!("{RESOLVE_META}\n{extra}")).expect("parses")
}

/// Runs the resolution chain over one mapping, synthesizing source paths just
/// as [`build_ir`] does.
fn resolved(extra: &str) -> (OrdMap<NodeId, SourceNode>, Vec<Diagnostic>) {
    let merged = merge_inheritance(&[parsed(extra)]);
    let active = remove_disabled(merged);
    let (_model, paths, sdiags) = synthesize_source_model(&active, "Invoice", "s:1");
    assert!(
        sdiags.is_empty(),
        "unexpected synth diagnostics: {sdiags:?}"
    );
    apply_defaults(&active, &paths)
}

fn effective(extra: &str) -> OrdMap<NodeId, SourceNode> {
    let (nodes, diags) = resolved(extra);
    assert!(diags.is_empty(), "unexpected diagnostics: {diags:?}");
    nodes
}

#[test]
fn test_defaults_materialized_on_omitted_fields() {
    let nodes = effective(
        r#"[Invoice.ID]
        type = "identifier""#,
    );
    let n = nodes.get(&NodeId::new("Invoice.ID")).unwrap();
    assert_eq!(n.source_path, "id");
    assert!(!n.required);
    assert_eq!(n.multiple, None, "undeclared multiple stays None");
    assert!(n.fallbacks.is_empty());
    assert!(n.normalize.is_empty());
    assert_eq!(n.min_items, None);
    assert_eq!(n.adapter, None);
    assert_eq!(n.scope, Scope::Root);
}

#[test]
fn test_explicit_false_wins_over_default() {
    let nodes = effective(
        r#"[Invoice.ID]
        type = "identifier"
        required = false"#,
    );
    assert!(!nodes.get(&NodeId::new("Invoice.ID")).unwrap().required);
}

#[test]
fn test_missing_type_is_e002_and_excluded() {
    let (nodes, diags) = resolved(
        r#"[Bad]
        xml = "x""#,
    );
    assert!(nodes.is_empty());
    assert_eq!(diags.len(), 1);
    assert_eq!(diags[0].code, "E002");
    assert!(diags[0].message.contains("type"));
}

#[test]
fn test_disabled_node_removed() {
    let merged = merge_inheritance(&[parsed(
        r#"[Invoice.Legacy]
        disabled = true"#,
    )]);
    let active = remove_disabled(merged);
    assert!(!active.contains_key(&NodeId::new("Invoice.Legacy")));
}

#[test]
fn test_disabled_collection_removes_descendants() {
    let merged = merge_inheritance(&[parsed(
        r#"[Lines]
        disabled = true

        [Lines.ID]
        type = "identifier""#,
    )]);
    let active = remove_disabled(merged);
    assert!(!active.contains_key(&NodeId::new("Lines")));
    assert!(
        !active.contains_key(&NodeId::new("Lines.ID")),
        "descendant of a disabled collection must be removed"
    );
}

#[test]
fn test_collection_child_scope_is_the_collection() {
    let nodes = effective(
        r#"[InvoiceLine]
        type = "collection"

        [InvoiceLine.ID]
        type = "identifier""#,
    );
    assert_eq!(nodes.get(&NodeId::new("InvoiceLine")).unwrap().scope, Scope::Root);
    assert_eq!(
        nodes.get(&NodeId::new("InvoiceLine.ID")).unwrap().scope,
        Scope::Collection(NodeId::new("InvoiceLine"))
    );
}

#[test]
fn test_inheritance_override_replaces_whole_node() {
    // Parent node has required=true + a fallback; child re-declares the node
    // with neither. Full-node replacement: the omitted `required`/`fallbacks`
    // revert to defaults, they are NOT inherited from the parent.
    let parent = parsed(
        r#"[Invoice.ID]
        type = "identifier"
        required = true
        fallbacks = ["Invoice.UUID"]"#,
    );
    let child = parsed(
        r#"[Invoice.ID]
        type = "identifier""#,
    );
    let merged = merge_inheritance(&[parent, child]);
    let active = remove_disabled(merged);
    let (_m, paths, _sd) = synthesize_source_model(&active, "Invoice", "s:1");
    let (nodes, _) = apply_defaults(&active, &paths);
    let n = nodes.get(&NodeId::new("Invoice.ID")).unwrap();
    assert_eq!(n.source_path, "id");
    assert!(!n.required, "omitted field reverts to default, not parent");
    assert!(n.fallbacks.is_empty());
}

#[test]
fn test_inheritance_disable_removes_inherited_node() {
    let parent = parsed(
        r#"[Invoice.Legacy]
        type = "string""#,
    );
    let child = parsed(
        r#"[Invoice.Legacy]
        disabled = true"#,
    );
    let active = remove_disabled(merge_inheritance(&[parent, child]));
    assert!(!active.contains_key(&NodeId::new("Invoice.Legacy")));
}


const IR_META: &str = r#"
    [meta]
    doc_format = "ubl-invoice"
    format_version = "2.1"
    mapping_version = "1.0"
    source_model = "ubl-invoice:2.1"
    canonical_model = "canonical-invoice:1.0"
    root = "Invoice"
"#;

fn ir_parsed(extra: &str) -> ParsedMapping {
    parse_mapping(&format!("{IR_META}\n{extra}")).expect("parses")
}

#[test]
fn test_build_ir_minimal_example() {
    // The mapping DSL's minimal example.
    let (ir, source, diags) = build_ir(&[ir_parsed(
        r#"
        [Invoice.ID]
        type = "identifier"
        canonical_key = "InvoiceNumber"
        required = true
        fallbacks = ["Invoice.UUID"]
        normalize = ["trim", "empty_as_missing"]

        [Invoice.UUID]
        type = "identifier"
        description = "Fallback invoice identifier."
        normalize = ["trim", "empty_as_missing"]
    "#,
    )]);
    assert!(diags.is_empty());
    assert_eq!(ir.meta.doc_format, "ubl-invoice");
    assert_eq!(ir.nodes.len(), 2);

    let id = ir.nodes.get(&NodeId::new("Invoice.ID")).unwrap();
    assert_eq!(id.source_type, MappingType::Identifier);
    assert_eq!(id.source_path, "id", "source_path is synthesized");
    assert!(id.required);
    assert_eq!(id.fallbacks, [NodeId::new("Invoice.UUID")]);

    let uuid = ir.nodes.get(&NodeId::new("Invoice.UUID")).unwrap();
    assert!(uuid.is_helper(), "UUID has no canonical_key");
    assert_eq!(
        uuid.description.as_deref(),
        Some("Fallback invoice identifier.")
    );

    // The source model is synthesized alongside the IR.
    assert_eq!(source.root, "Invoice");
    assert!(source.structs.get(&"Invoice".to_string()).unwrap().fields.contains_key(&"id".to_string()));
    assert!(source.structs.get(&"Invoice".to_string()).unwrap().fields.contains_key(&"uuid".to_string()));
}

#[test]
fn test_build_ir_uses_leaf_meta() {
    let mut parent = ir_parsed(
        r#"[Invoice.A]
        type = "string""#,
    );
    parent.meta.mapping_version = "0.9".to_string();
    let child = ir_parsed(
        r#"[Invoice.B]
        type = "string""#,
    );
    let (ir, _source, _) = build_ir(&[parent, child]);
    assert_eq!(ir.meta.mapping_version, "1.0", "leaf meta wins");
    assert_eq!(ir.nodes.len(), 2, "inherited + own nodes");
}

#[test]
fn test_build_ir_is_deterministic() {
    let p = ir_parsed(
        r#"[Invoice.Zeta]
        type = "string"
        [Invoice.Alpha]
        type = "string""#,
    );
    let (a, sa, _) = build_ir(std::slice::from_ref(&p));
    let (b, sb, _) = build_ir(&[p]);
    assert_eq!(a, b);
    assert_eq!(sa, sb);
    let ids: Vec<&str> = (0..a.nodes.len()).map(|i| a.nodes.key_at(i).as_str()).collect();
    assert_eq!(ids, ["Invoice.Alpha", "Invoice.Zeta"]);
}

#[test]
fn test_node_ids_find_their_nearest_collection() {
    let id = NodeId::new("Invoice.Lines.Tax.Rate");
    let scope = id.nearest_collection_scope(|a: &NodeId| a.as_str() == "Invoice.Lines");
    assert_eq!(scope, Scope::Collection(NodeId::new("Invoice.Lines")));
    assert_eq!(id.nearest_collection_scope(|_: &NodeId| false), Scope::Root);
}

#[test]
fn test_the_nearest_collection_is_asked_of_ancestors_alone() {
    let asked = std::cell::RefCell::new(Vec::new());
    let id = NodeId::new("Invoice.Lines.Tax.Rate");
    let scope = id.nearest_collection_scope(|a: &NodeId| {
        asked.borrow_mut().push(a.as_str().to_string());
        a.as_str() == "Invoice.Lines"
    });
    assert_eq!(scope, Scope::Collection(NodeId::new("Invoice.Lines")));
    assert_eq!(*asked.borrow(), ["Invoice.Lines.Tax", "Invoice.Lines"]);
}

#[test]
fn test_ill_typed_node_fields_name_the_node_and_the_field() {
    for (src, want) in [
        ("[Invoice.ID]\ntype = 1", "invalid type"),
        ("[Invoice.ID]\nrequired = \"yes\"", "a boolean"),
        ("[Invoice.ID]\nmin_items = -1", "invalid value"),
        ("[Invoice.ID]\nnormalize = [\"shout\"]", "unknown variant"),
        ("[Invoice.ID]\nfallbacks = \"x\"", "a sequence"),
    ] {
        let err = parse_mapping(&format!("{PARSE_META}\n{src}")).unwrap_err();
        assert!(err.message.starts_with("in node `Invoice.ID`: "), "{}", err.message);
        assert!(err.message.contains(want), "{}", err.message);
        assert_eq!(err.span, None);
    }
}

#[test]
fn test_every_node_field_is_read() {
    let n = raw_node(
        "type = \"decimal\"\ncanonical_key = \"K\"\nrequired = true\nmultiple = \"join\"\n\
         join_with = \", \"\nfallbacks = [\"A.B\"]\nmin_items = 2\nadapter = \"uppercase_currency\"\n\
         normalize = [\"trim\", \"uppercase\", \"lowercase\", \"empty_as_missing\"]\n\
         description = \"d\"\nclone_of = \"C\"",
    )
    .unwrap();
    assert_eq!(n.ty, Some(MappingType::Decimal));
    assert_eq!(n.canonical_key.as_deref(), Some("K"));
    assert_eq!(n.required, Some(true));
    assert_eq!(n.multiple, Some(MultiplePolicy::Join));
    assert_eq!(n.join_with.as_deref(), Some(", "));
    assert_eq!(n.fallbacks, Some(vec!["A.B".to_string()]));
    assert_eq!(n.min_items, Some(2));
    assert_eq!(n.adapter.as_deref(), Some("uppercase_currency"));
    assert_eq!(
        n.normalize,
        Some(vec![
            NormalizeOp::Trim,
            NormalizeOp::Uppercase,
            NormalizeOp::Lowercase,
            NormalizeOp::EmptyAsMissing,
        ])
    );
    assert_eq!(n.description.as_deref(), Some("d"));
    assert_eq!(n.clone_of.as_deref(), Some("C"));
}

#[test]
fn test_mapping_id_joins_format_and_version() {
    let meta = meta_table(required_only()).unwrap();
    assert_eq!(meta.id(), "ubl-invoice:2.1");
}

#[test]
fn test_constant_and_clone_survive_the_defaults() {
    let nodes = effective("[Invoice.V]\ntype = \"string\"\nconstant = \"2.1\"\n[Invoice.W]\ntype = \"string\"\nclone_of = \"K\"");
    assert_eq!(nodes.get(&NodeId::new("Invoice.V")).unwrap().constant.as_deref(), Some("2.1"));
    assert_eq!(nodes.get(&NodeId::new("Invoice.W")).unwrap().clone_of.as_deref(), Some("K"));
}

#[test]
fn test_config_error_without_a_place() {
    let e = ConfigError::msg("m".to_string());
    assert_eq!((e.message.as_str(), e.span), ("m", None));
}
