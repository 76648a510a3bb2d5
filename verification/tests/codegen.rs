//! Generating the Rust source of the hub and of each spoke.
use einvoice::dsl::codegen::access::{
    access_expr, assign_target_expr, collection_item_struct, collection_slice_expr,
    collection_take_expr, normalize_chain, take_expr,
};
use einvoice::dsl::codegen::hub::generate_hub;
use einvoice::dsl::codegen::naming::{canonical_rust_type, field_name, item_struct_name, snake_case};
use einvoice::dsl::codegen::source::serde_attr;
use einvoice::dsl::codegen::spoke::{
    can_generate, generate_mapper_module, generate_source_module, generate_spoke, plan_spoke_dedup,
    SpokeModule,
};
use einvoice::dsl::hub::{derive_hub, CanonicalModel};
use einvoice::dsl::ir::{build_ir, MappingIr};
use einvoice::dsl::parse::parse_mapping;
use einvoice::dsl::normalize::NormalizeOp;
use einvoice::dsl::source_model::meta::{FieldMeta, FieldType, SourceModelBuilder, SourceModelMeta};
use einvoice::dsl::types::MappingType;


const UBL: &str = r#"
    [meta]
    doc_format = "ubl-invoice"
    format_version = "2.1"
    mapping_version = "1.0"
    canonical_model = "canonical-invoice:1.0"
    root = "Invoice"

    [Invoice.ID]
    type = "identifier"
    canonical_key = "InvoiceNumber"
    required = true
    normalize = ["trim", "empty_as_missing"]

    [Invoice.DocumentCurrencyCode]
    type = "currency"
    canonical_key = "DocumentCurrency"
    normalize = ["trim", "uppercase"]

    [Invoice.LegalMonetaryTotal.PayableAmount]
    type = "decimal"
    canonical_key = "PayableAmount"
    required = true

    [Invoice.LegalMonetaryTotal.PayableAmount.currencyID]
    xml = "@currencyID"
    type = "currency"
    canonical_key = "PayableAmountCurrency"

    [InvoiceLine]
    type = "collection"
    canonical_key = "InvoiceLines"
    required = true
    min_items = 1

    [InvoiceLine.InvoicedQuantity]
    type = "decimal"
    canonical_key = "Quantity"
"#;

fn compiled() -> (MappingIr, CanonicalModel, SourceModelMeta) {
    let (ir, source, diags) = build_ir(&[parse_mapping(UBL).expect("parses")]);
    assert!(diags.is_empty(), "{diags:?}");
    let (hub, hub_diags) = derive_hub(&[&ir]);
    assert!(hub_diags.is_empty(), "{hub_diags:?}");
    (ir, hub, source)
}

#[test]
fn test_snake_case() {
    assert_eq!(snake_case("InvoiceNumber"), "invoice_number");
    assert_eq!(snake_case("LineId"), "line_id");
    assert_eq!(snake_case("Quantity"), "quantity");
}

#[test]
fn test_generate_hub_has_typed_fields_and_item_struct() {
    let (_, hub, _) = compiled();
    let out = generate_hub(&hub);
    assert!(out.contains("pub struct MainKey {"), "{out}");
    assert!(
        out.contains("pub invoice_number: Option<CompactString>,"),
        "{out}"
    );
    assert!(
        out.contains("pub payable_amount: Option<Decimal>,"),
        "{out}"
    );
    assert!(
        out.contains("pub invoice_lines: Vec<InvoiceLinesItem>,"),
        "{out}"
    );
    assert!(out.contains("pub struct InvoiceLinesItem {"), "{out}");
    assert!(out.contains("pub quantity: Option<Decimal>,"), "{out}");
}

#[test]
fn test_generate_spoke_emits_source_structs_and_mappers() {
    let (ir, _, source) = compiled();
    let out = generate_spoke(&ir, &source, "super::hub");
    // typed source struct with XML rename; every leaf is Option + default
    // so absent elements parse (required is a reader diagnostic).
    assert!(out.contains("pub struct Invoice {"), "{out}");
    assert!(
        out.contains(
            "#[serde(rename = \"ID\", default, skip_serializing_if = \"Option::is_none\")]"
        ),
        "{out}"
    );
    // The optional currencyID attribute also carries `default`/skip attrs.
    assert!(out.contains("rename = \"@currencyID\""), "{out}");
    // xml io + mappers
    assert!(out.contains("pub fn from_xml"), "{out}");
    assert!(out.contains("pub fn to_xml"), "{out}");
    assert!(
        out.contains("pub fn read(mut source: Invoice) -> MappingResult<MainKey>"),
        "{out}"
    );
    assert!(
        out.contains("pub fn write(mut main: MainKey) -> MappingResult<Invoice>"),
        "{out}"
    );
}

#[test]
fn test_reader_assigns_typed_fields_and_validates() {
    let (ir, _, source) = compiled();
    let out = generate_spoke(&ir, &source, "super::hub");
    // currency is validated; identifier carried verbatim; decimal parsed.
    assert!(out.contains("validate::is_currency(raw.trim())"), "{out}");
    assert!(out.contains("main.document_currency = Some(raw);"), "{out}");
    assert!(out.contains("Decimal::from_str(raw.trim())"), "{out}");
    // The normalize chain threads the one moved-out inline string by value
    // (no per-op re-borrow / reallocation, no clone).
    assert!(
        out.contains(".take().map(normalize::trim).map(normalize::uppercase)"),
        "{out}"
    );
    assert!(!out.contains("normalize::trim(&s)"), "{out}");
    // Collection loops use per-depth variable names (`item0`, `element0`) and
    // reserve the hub collection up front from the known source length.
    assert!(out.contains("let count0 = elements0.len();"), "{out}");
    assert!(out.contains("main.invoice_lines.reserve(count0);"), "{out}");
    assert!(out.contains("main.invoice_lines.push(item0);"), "{out}");
    assert!(out.contains("item0.quantity = Some(d)"), "{out}");
}

#[test]
fn test_reader_omits_required_missing_branch_for_optional_fields() {
    let (ir, _, source) = compiled();
    let out = generate_spoke(&ir, &source, "super::hub");
    // Optional fields must not carry a dead `else if false { … }`
    // diagnostic block; required fields keep a plain `else` branch.
    assert!(!out.contains("else if false"), "{out}");
    assert!(!out.contains("else if true"), "{out}");
    assert!(out.contains("REQUIRED_MISSING"), "{out}");
}

#[test]
fn test_generate_source_module_is_self_contained_structs_and_xml_io() {
    let (_, _, source) = compiled();
    let out = generate_source_module(&source);
    // Self-contained: carries its own imports, structs, and XML I/O …
    assert!(out.contains("use compact_str::CompactString;"), "{out}");
    assert!(
        out.contains("use serde::{Deserialize, Serialize};"),
        "{out}"
    );
    assert!(out.contains("pub struct Invoice {"), "{out}");
    assert!(out.contains("pub fn from_xml"), "{out}");
    assert!(out.contains("pub fn to_xml"), "{out}");
    // … and no mappers.
    assert!(!out.contains("pub fn read"), "{out}");
    assert!(!out.contains("pub fn write"), "{out}");
}

#[test]
fn test_generate_mapper_module_reexports_structs_and_omits_them() {
    let (ir, _, source) = compiled();
    let out = generate_mapper_module(&ir, &source, "super::hub", "super::shared_0");
    // Structs come from the shared module, re-exported for callers.
    assert!(out.contains("pub use super::shared_0::*;"), "{out}");
    assert!(!out.contains("pub struct Invoice {"), "{out}");
    assert!(!out.contains("pub fn from_xml"), "{out}");
    // Mappers are present.
    assert!(
        out.contains("pub fn read(mut source: Invoice) -> MappingResult<MainKey>"),
        "{out}"
    );
    assert!(
        out.contains("pub fn write(mut main: MainKey) -> MappingResult<Invoice>"),
        "{out}"
    );
}

#[test]
fn test_split_modules_cover_the_monolithic_spoke() {
    // The split pair must carry the same structs and mappers the monolith
    // does, so build-time dedup can swap representations freely.
    let (ir, _, source) = compiled();
    let monolith = generate_spoke(&ir, &source, "super::hub");
    let src = generate_source_module(&source);
    let map = generate_mapper_module(&ir, &source, "super::hub", "super::shared_0");
    for needle in ["pub struct Invoice {", "pub fn from_xml", "pub fn to_xml"] {
        assert!(
            monolith.contains(needle) && src.contains(needle),
            "{needle}"
        );
    }
    for needle in [
        "pub fn read(mut source: Invoice)",
        "pub fn write(mut main: MainKey)",
    ] {
        assert!(
            monolith.contains(needle) && map.contains(needle),
            "{needle}"
        );
    }
}

#[test]
fn test_writer_renders_typed_values() {
    let (ir, _, source) = compiled();
    let out = generate_spoke(&ir, &source, "super::hub");
    assert!(
        out.contains("if let Some(value) = main.invoice_number.take() {"),
        "{out}"
    );
    // Typed values render straight to the inline string type (no
    // intermediate heap `String` for short decimals).
    assert!(
        out.contains("let rendered = value.to_compact_string();"),
        "{out}"
    );
    // Values are rendered once, skipped if empty, then assigned. Interior
    // container structs are `Option<Box<…>>` and materialize lazily on
    // write; every leaf is Option-typed, so assignment wraps in `Some`.
    assert!(
        out.contains(
            "source.legal_monetary_total.get_or_insert_default().payable_amount.get_or_insert_default().value = Some(rendered);"
        ),
        "{out}"
    );
    assert!(out.contains("source.id = Some(rendered);"), "{out}");
    // The source collection is reserved once from the hub item count.
    assert!(
        out.contains("source.invoice_line.reserve(hub_items0.len());"),
        "{out}"
    );
    assert!(out.contains("REQUIRED_MISSING"), "{out}");
}

#[test]
fn test_interior_struct_field_is_boxed_optional() {
    // An interior container is `Option<Box<…>>`: a document that omits the
    // whole element costs one `None` (8 bytes, no allocation) instead of a
    // full inline `Default` struct. `default` keeps absent elements
    // parseable; `Option::is_none` skips never-materialized subtrees on
    // write.
    let field = FieldMeta {
        optional: false,
        repeated: false,
        ty: FieldType::Struct("Party".into()),
        xml: Some("Party".into()),
    };
    let attr = serde_attr(&field).expect("interior struct needs a serde attr");
    assert!(attr.contains("default"), "{attr}");
    assert!(
        attr.contains("skip_serializing_if = \"Option::is_none\""),
        "{attr}"
    );
}

/// Compiles an arbitrary mapping body into (ir, hub, source).
fn compile(body: &str) -> (MappingIr, CanonicalModel, SourceModelMeta) {
    let src = format!(
        "[meta]\ndoc_format = \"f\"\nformat_version = \"1\"\nmapping_version = \"1\"\ncanonical_model = \"c:1\"\nroot = \"Invoice\"\n{body}"
    );
    let (ir, source, diags) = build_ir(&[parse_mapping(&src).expect("parses")]);
    assert!(diags.is_empty(), "{diags:?}");
    let (hub, hd) = derive_hub(&[&ir]);
    assert!(hd.is_empty(), "{hd:?}");
    (ir, hub, source)
}

/// Compiles a mapping body under a distinct doc_format into (ir, source).
fn compile_named(doc_format: &str, body: &str) -> (MappingIr, SourceModelMeta) {
    let src = format!(
        "[meta]\ndoc_format = \"{doc_format}\"\nformat_version = \"1\"\nmapping_version = \"1\"\ncanonical_model = \"c:1\"\nroot = \"Invoice\"\n{body}"
    );
    let (ir, source, diags) = build_ir(&[parse_mapping(&src).expect("parses")]);
    assert!(diags.is_empty(), "{diags:?}");
    (ir, source)
}

const PLAIN_ID: &str = r#"
    [Invoice.ID]
    type = "identifier"
    canonical_key = "InvoiceNumber"
"#;

#[test]
fn test_two_modules_carry_what_the_spoke_carries() {
    let (ir, _, source) = compiled();
    let whole = generate_spoke(&ir, &source, "super::hub");
    let structs = generate_source_module(&source);
    let mappers = generate_mapper_module(&ir, &source, "super::hub", "super::shared_0");
    let (_, section) = structs.split_once("use serde::{Deserialize, Serialize};\n\n").unwrap();
    let (_, code) = mappers.split_once("use super::hub::*;\n\n").unwrap();
    assert!(section.contains("pub struct Invoice {") && code.contains("pub fn read("));
    assert!(whole.ends_with(&format!("{section}\n{code}")));
}

#[test]
fn test_a_mapper_module_declares_no_struct_and_no_xml() {
    let (ir, _, source) = compiled();
    let whole = generate_spoke(&ir, &source, "super::hub");
    let mappers = generate_mapper_module(&ir, &source, "super::hub", "super::shared_0");
    assert!(mappers.contains("pub use super::shared_0::*;\n"));
    for word in ["pub struct", "pub fn from_xml", "pub fn to_xml"] {
        assert!(whole.contains(word) && !mappers.contains(word), "{word}");
    }
}

#[test]
fn test_source_modules_of_equal_models_differ_only_in_their_comments() {
    let (_, a) = compile_named("alpha", PLAIN_ID);
    let (_, b) = compile_named("beta", PLAIN_ID);
    let (a, b) = (generate_source_module(&a), generate_source_module(&b));
    assert_ne!(a, b);
    assert_eq!(a.split_once("\n\n").unwrap().1, b.split_once("\n\n").unwrap().1);
}

#[test]
fn test_plan_dedup_shares_structs_and_aliases_identical_spokes() {
    let (ir_a, src_a) = compile_named("alpha", PLAIN_ID);
    let (ir_b, src_b) = compile_named("beta", PLAIN_ID);
    let spokes = [("alpha", &ir_a, &src_a), ("beta", &ir_b, &src_b)];
    let plan = plan_spoke_dedup(&spokes, "super::hub");

    // One shared structs module, its header naming every sharer.
    assert_eq!(plan.shared_modules.len(), 1);
    let (name, text) = &plan.shared_modules[0];
    assert_eq!(name, "shared_0");
    assert!(text.contains("Shared by: alpha, beta"), "{text}");
    assert!(text.contains("pub struct Invoice {"), "{text}");
    // The first spoke imports the shared structs; the second spoke's
    // module body is byte-identical: aliased, no file.
    let first = emitted(&plan.modules[0]);
    assert!(first.contains("pub use super::shared_0::*;"), "{first}");
    assert!(!first.contains("pub struct Invoice {"), "{first}");
    assert!(
        matches!(&plan.modules[1], SpokeModule::Alias(a) if a == "alpha"),
        "{:?}",
        plan.modules[1]
    );
}

#[test]
fn test_plan_dedup_shares_structs_but_not_mappers_on_mapping_delta() {
    // Same element tree, but one spoke marks the field required: identical
    // structs (shared) yet different mappers (no alias) — the
    // XRechnung-over-UBL case.
    let strict = r#"
        [Invoice.ID]
        type = "identifier"
        canonical_key = "InvoiceNumber"
        required = true
    "#;
    let (ir_a, src_a) = compile_named("alpha", PLAIN_ID);
    let (ir_b, src_b) = compile_named("beta", strict);
    let spokes = [("alpha", &ir_a, &src_a), ("beta", &ir_b, &src_b)];
    let plan = plan_spoke_dedup(&spokes, "super::hub");

    assert_eq!(plan.shared_modules.len(), 1);
    let a = emitted(&plan.modules[0]);
    let b = emitted(&plan.modules[1]);
    assert_ne!(a, b);
    assert!(b.contains("REQUIRED_MISSING"), "{b}");
}

#[test]
fn test_plan_dedup_keeps_distinct_source_models_standalone() {
    let other = r#"
        [Invoice.UUID]
        type = "identifier"
        canonical_key = "InvoiceNumber"
    "#;
    let (ir_a, src_a) = compile_named("alpha", PLAIN_ID);
    let (ir_b, src_b) = compile_named("beta", other);
    let spokes = [("alpha", &ir_a, &src_a), ("beta", &ir_b, &src_b)];
    let plan = plan_spoke_dedup(&spokes, "super::hub");

    // Nothing shared, nothing aliased: each spoke keeps a self-contained
    // module with its structs inline.
    assert!(plan.shared_modules.is_empty());
    for module in &plan.modules {
        let code = emitted(module);
        assert!(code.contains("pub struct Invoice {"), "{code}");
    }
}

/// Unwraps an [`SpokeModule::Emit`] plan entry.
fn emitted(module: &SpokeModule) -> &str {
    match module {
        SpokeModule::Emit(code) => code,
        SpokeModule::Alias(a) => panic!("expected emitted code, got alias of {a}"),
    }
}

#[test]
fn test_generated_source_structs_have_empty_pruning_hooks() {
    let (ir, _, source) = compiled();
    let out = generate_spoke(&ir, &source, "super::hub");

    assert!(out.contains("impl InvoiceLine {"), "{out}");
    assert!(out.contains("pub fn is_empty(&self) -> bool {"), "{out}");
    assert!(
        out.contains("skip_serializing_if = \"Vec::is_empty\""),
        "{out}"
    );
    // Interior containers are boxed-optional: absent subtree = `None`.
    assert!(
        out.contains("pub legal_monetary_total: Option<Box<LegalMonetaryTotal>>,"),
        "{out}"
    );
    assert!(
        out.contains(
            "self.legal_monetary_total.as_ref().map_or(true, |value| value.is_empty())"
        ),
        "{out}"
    );
}

#[test]
fn test_nested_collection_emits_nested_struct_and_loops() {
    let (ir, hub, source) = compile(
        r#"
        [InvoiceLine]
        type = "collection"
        canonical_key = "InvoiceLines"

        [InvoiceLine.AllowanceCharge]
        type = "collection"
        canonical_key = "LineAllowances"

        [InvoiceLine.AllowanceCharge.Amount]
        type = "decimal"
        canonical_key = "LineAllowanceAmount"
        "#,
    );

    // Hub: the line item struct carries a nested collection field, and the
    // nested item struct exists with its scalar field.
    let hub_src = generate_hub(&hub);
    assert!(
        hub_src.contains("pub line_allowances: Vec<LineAllowancesItem>,"),
        "{hub_src}"
    );
    assert!(
        hub_src.contains("pub struct LineAllowancesItem {"),
        "{hub_src}"
    );
    assert!(
        hub_src.contains("pub line_allowance_amount: Option<Decimal>,"),
        "{hub_src}"
    );

    // Spoke: nested read/write loops consume the inner Vec, keyed by depth.
    let spoke = generate_spoke(&ir, &source, "super::hub");
    assert!(
        spoke.contains("let elements1 = std::mem::take(&mut element0.allowance_charge);"),
        "{spoke}"
    );
    assert!(
        spoke.contains("for (idx1, mut element1) in elements1.into_iter().enumerate()"),
        "{spoke}"
    );
    assert!(
        spoke.contains("item0.line_allowances.push(item1);"),
        "{spoke}"
    );
    assert!(
        spoke.contains("let hub_items1 = std::mem::take(&mut hub_item0.line_allowances);"),
        "{spoke}"
    );
    assert!(
        spoke.contains("for (idx1, mut hub_item1) in hub_items1.into_iter().enumerate()"),
        "{spoke}"
    );
    assert!(
        spoke.contains("element0.allowance_charge.push(element1);"),
        "{spoke}"
    );
    assert!(spoke.contains("if !element1.is_empty()"), "{spoke}");
}

#[test]
fn test_multiple_join_reads_vec_and_writes_single_element() {
    let (ir, _, source) = compile(
        r#"
        [Invoice.Note]
        type = "string"
        canonical_key = "Notes"
        multiple = "join"
        join_with = "\n"
        normalize = ["trim", "empty_as_missing"]
        "#,
    );
    let out = generate_spoke(&ir, &source, "super::hub");
    // Source struct: repeated scalar leaf.
    assert!(out.contains("pub note: Vec<CompactString>,"), "{out}");
    // Reader: consume the repeated leaf, collect normalized values, join
    // with the separator.
    assert!(
        out.contains("std::mem::take(&mut source.note).into_iter().filter_map(|s| Some(s)"),
        "{out}"
    );
    // Slice join yields a `String`; `.into()` moves it into the inline
    // string type (O(1) for heap-sized joins).
    assert!(out.contains("Some(values.join(\"\\n\").into())"), "{out}");
    // Writer: the joined canonical value is pushed as one element.
    assert!(out.contains("source.note.push(rendered);"), "{out}");
}

#[test]
fn test_multiple_error_and_first_emit_multiple_values_diag() {
    for (policy, severity) in [("error", "Severity::Error"), ("first", "Severity::Warning")] {
        let (ir, _, source) = compile(&format!(
            r#"
            [Invoice.Note]
            type = "string"
            canonical_key = "Notes"
            multiple = "{policy}"
            "#
        ));
        let out = generate_spoke(&ir, &source, "super::hub");
        assert!(out.contains("if values.len() > 1 {"), "{out}");
        assert!(out.contains("MULTIPLE_VALUES"), "{out}");
        assert!(out.contains(severity), "{policy}: {out}");
    }
}

#[test]
fn test_reader_moves_unique_source_values() {
    let (ir, _, source) = compiled();
    let out = generate_spoke(&ir, &source, "super::hub");
    // The reader consumes the source struct so uniquely-read values move
    // into the hub instead of being cloned.
    assert!(
        out.contains("pub fn read(mut source: Invoice) -> MappingResult<MainKey>"),
        "{out}"
    );
    assert!(out.contains("source.id.take()"), "{out}");
    // A take through a boxed interior chains `as_mut` and moves the leaf.
    assert!(
        out.contains("source.legal_monetary_total.as_mut()"),
        "{out}"
    );
    // Collections are consumed by value, element by element.
    assert!(
        out.contains("let elements0 = std::mem::take(&mut source.invoice_line);"),
        "{out}"
    );
    assert!(
        out.contains("for (idx0, mut element0) in elements0.into_iter().enumerate()"),
        "{out}"
    );
    // No path in this mapping is read twice, so nothing is cloned.
    assert!(!out.contains(".map(|s| s.to_string())"), "{out}");
}

#[test]
fn test_reader_clones_shared_fallback_path() {
    // Two primaries share `Invoice.UUID` as a fallback: that path is read
    // twice, so it must stay a borrow + clone (a move would leave the
    // second read empty). Unique paths still move.
    let (ir, _, source) = compile(
        r#"
        [Invoice.ID]
        type = "identifier"
        canonical_key = "InvoiceNumber"
        fallbacks = ["Invoice.UUID"]

        [Invoice.Alt]
        type = "identifier"
        canonical_key = "AltNumber"
        fallbacks = ["Invoice.UUID"]

        [Invoice.UUID]
        type = "identifier"
        "#,
    );
    let out = generate_spoke(&ir, &source, "super::hub");
    assert!(!out.contains("source.uuid.take()"), "{out}");
    assert!(out.contains("source.uuid.as_ref()"), "{out}");
    assert!(out.contains("source.id.take()"), "{out}");
    assert!(out.contains("source.alt.take()"), "{out}");
}

#[test]
fn test_writer_moves_hub_values() {
    let (ir, _, source) = compiled();
    let out = generate_spoke(&ir, &source, "super::hub");
    // The writer consumes the hub so values move into the target struct.
    assert!(
        out.contains("pub fn write(mut main: MainKey) -> MappingResult<Invoice>"),
        "{out}"
    );
    assert!(out.contains("main.invoice_number.take()"), "{out}");
    assert!(
        out.contains("let hub_items0 = std::mem::take(&mut main.invoice_lines);"),
        "{out}"
    );
    assert!(!out.contains("value.clone()"), "{out}");
}

#[test]
fn test_wrapped_collection_crosses_boxed_interior() {
    // A collection under an interior container (the Factur-X shape) must
    // read through the boxed wrapper without materializing it, and write
    // through `get_or_insert_default` only when there are items to push.
    let (ir, _, source) = compile(
        r#"
        [Invoice.ID]
        type = "identifier"
        canonical_key = "InvoiceNumber"

        [Invoice.Wrap.Line]
        type = "collection"
        canonical_key = "InvoiceLines"

        [Invoice.Wrap.Line.ID]
        type = "identifier"
        canonical_key = "LineId"
        "#,
    );
    let out = generate_spoke(&ir, &source, "super::hub");
    // Reader: absent wrapper yields an empty Vec, no insertion.
    assert!(
        out.contains(
            "let elements0 = source.wrap.as_mut().and_then(|v0| Some(std::mem::take(&mut v0.line))).unwrap_or_default();"
        ),
        "{out}"
    );
    // Writer: the wrapper materializes only when items exist.
    assert!(out.contains("if !hub_items0.is_empty() {"), "{out}");
    assert!(
        out.contains("source.wrap.get_or_insert_default().line.reserve(hub_items0.len());"),
        "{out}"
    );
    assert!(
        out.contains("source.wrap.get_or_insert_default().line.push(element0);"),
        "{out}"
    );
}

#[test]
fn test_constant_only_node_is_written_not_read() {
    let (ir, _, source) = compile(
        r#"
        [Invoice.ID]
        type = "identifier"
        canonical_key = "InvoiceNumber"

        [Invoice.UBLVersionID]
        type = "identifier"
        constant = "2.1"
        "#,
    );
    let out = generate_spoke(&ir, &source, "super::hub");
    // Writer pins the literal at the source path.
    assert!(
        out.contains("source.ubl_version_id = Some(CompactString::from(\"2.1\"));"),
        "{out}"
    );
    // Reader never touches the field: write-only node.
    assert!(!out.contains("source.ubl_version_id.take()"), "{out}");
    assert!(!out.contains("source.ubl_version_id.as_ref()"), "{out}");
}

#[test]
fn test_keyed_constant_reads_transparently_and_writes_fixed() {
    let (ir, _, source) = compile(
        r#"
        [Invoice.CustomizationID]
        type = "identifier"
        canonical_key = "SpecificationId"
        constant = "urn:cen.eu:en16931:2017"
        "#,
    );
    let out = generate_spoke(&ir, &source, "super::hub");
    // Reader fills the hub from the document as usual.
    assert!(out.contains("source.customization_id.take()"), "{out}");
    assert!(out.contains("main.specification_id = Some(raw);"), "{out}");
    // Writer emits the constant and never consults the hub value.
    assert!(
        out.contains(
            "source.customization_id = Some(CompactString::from(\"urn:cen.eu:en16931:2017\"));"
        ),
        "{out}"
    );
    assert!(!out.contains("main.specification_id.take()"), "{out}");
}

#[test]
fn test_collection_scoped_constant_written_per_nonempty_item() {
    let (ir, _, source) = compile(
        r#"
        [InvoiceLine]
        type = "collection"
        canonical_key = "InvoiceLines"

        [InvoiceLine.ID]
        type = "identifier"
        canonical_key = "LineId"

        [InvoiceLine.TypeCode]
        type = "identifier"
        constant = "380"
        "#,
    );
    let out = generate_spoke(&ir, &source, "super::hub");
    // The constant assignment sits inside the non-empty guard, before the
    // push: it never resurrects an otherwise-empty item.
    let guard = out
        .find("if !element0.is_empty() {")
        .expect("non-empty guard exists");
    let assign = out
        .find("element0.type_code = Some(CompactString::from(\"380\"));")
        .expect("constant assigned on the element");
    let push = out
        .find("source.invoice_line.push(element0);")
        .expect("element pushed");
    assert!(guard < assign && assign < push, "{out}");
}

#[test]
fn test_clone_of_writes_hub_value_to_both_paths() {
    let (ir, _, source) = compile(
        r#"
        [Invoice.ID]
        type = "identifier"
        canonical_key = "InvoiceNumber"

        [Invoice.BuyerReference]
        type = "identifier"
        clone_of = "InvoiceNumber"
        "#,
    );
    let out = generate_spoke(&ir, &source, "super::hub");
    // The hub key is written twice (primary + clone), so both writes borrow
    // instead of moving.
    assert_eq!(
        out.matches("if let Some(value) = &main.invoice_number {")
            .count(),
        2,
        "{out}"
    );
    assert!(!out.contains("main.invoice_number.take()"), "{out}");
    assert!(out.contains("source.id = Some(rendered);"), "{out}");
    assert!(
        out.contains("source.buyer_reference = Some(rendered);"),
        "{out}"
    );
}

#[test]
fn test_clone_of_reader_checks_copy_and_warns_on_mismatch() {
    let (ir, _, source) = compile(
        r#"
        [Invoice.ID]
        type = "identifier"
        canonical_key = "InvoiceNumber"

        [Invoice.BuyerReference]
        type = "identifier"
        clone_of = "InvoiceNumber"
        "#,
    );
    let out = generate_spoke(&ir, &source, "super::hub");
    // Only the primary fills the hub.
    assert_eq!(
        out.matches("main.invoice_number = Some(raw);").count(),
        1,
        "{out}"
    );
    // The copy is read and compared against the canonical value; a
    // disagreeing copy is a warning, not a silent pick.
    assert!(out.contains("CLONE_MISMATCH"), "{out}");
    assert!(out.contains("Severity::Warning"), "{out}");
}

#[test]
fn test_collection_scoped_clone_written_per_item() {
    let (ir, _, source) = compile(
        r#"
        [InvoiceLine]
        type = "collection"
        canonical_key = "InvoiceLines"

        [InvoiceLine.ID]
        type = "identifier"
        canonical_key = "LineId"

        [InvoiceLine.DocumentReference]
        type = "identifier"
        clone_of = "LineId"
        "#,
    );
    let out = generate_spoke(&ir, &source, "super::hub");
    // Writer: both element fields written from the same hub item key.
    assert_eq!(
        out.matches("if let Some(value) = &hub_item0.line_id {")
            .count(),
        2,
        "{out}"
    );
    assert!(
        out.contains("element0.document_reference = Some(rendered);"),
        "{out}"
    );
    // Reader: per-item mismatch check.
    assert!(out.contains("CLONE_MISMATCH"), "{out}");
}

#[test]
fn test_generation_is_deterministic() {
    let (ir, hub, source) = compiled();
    assert_eq!(generate_hub(&hub), generate_hub(&hub));
    assert_eq!(
        generate_spoke(&ir, &source, "super::hub"),
        generate_spoke(&ir, &source, "super::hub")
    );
}

#[test]
fn test_names_of_the_generated_hub() {
    assert_eq!(field_name("InvoiceNumber"), "invoice_number");
    assert_eq!(item_struct_name("InvoiceLines"), "InvoiceLinesItem");
    assert_eq!(canonical_rust_type(MappingType::Decimal), "Decimal");
    assert_eq!(canonical_rust_type(MappingType::Boolean), "bool");
    assert_eq!(canonical_rust_type(MappingType::Date), "CompactString");
}

#[test]
fn test_join_without_separator_cannot_be_generated() {
    let (ir, _) = compile_named("alpha", PLAIN_ID);
    assert!(can_generate(&ir));
    let (bad, _) = compile_named(
        "beta",
        "[Invoice.Note]\ntype = \"string\"\ncanonical_key = \"Notes\"\nmultiple = \"join\"",
    );
    assert!(!can_generate(&bad));
}

/// A model whose fields are reached directly, through a boxed struct, and through a
/// list.
fn access_model() -> SourceModelMeta {
    SourceModelBuilder::new("m:1", "Doc")
        .struct_def(
            "Doc",
            &[
                ("id", true, false, FieldType::Scalar),
                ("plain", false, false, FieldType::Scalar),
                ("notes", false, true, FieldType::Scalar),
                ("total", false, false, FieldType::Struct("Total".into())),
            ],
        )
        .struct_def(
            "Total",
            &[
                ("amount", true, false, FieldType::Scalar),
                ("lines", false, true, FieldType::Struct("Line".into())),
            ],
        )
        .struct_def("Line", &[("id", true, false, FieldType::Scalar)])
        .build()
}

#[test]
fn test_access_expressions() {
    let m = access_model();
    assert_eq!(access_expr(&m, "Doc", "plain", "s"), "Some(s.plain.as_str())");
    assert_eq!(access_expr(&m, "Doc", "id", "s"), "s.id.as_ref().and_then(|v0| Some(v0.as_str()))");
    assert_eq!(
        access_expr(&m, "Doc", "total.amount", "s"),
        "s.total.as_ref().and_then(|v0| v0.amount.as_ref().and_then(|v1| Some(v1.as_str())))"
    );
    assert_eq!(take_expr(&m, "Doc", "plain", "s"), "Some(std::mem::take(&mut s.plain))");
    assert_eq!(
        take_expr(&m, "Doc", "total.amount", "s"),
        "s.total.as_mut().and_then(|v0| v0.amount.take())"
    );
    assert_eq!(
        access_expr(&m, "Doc", "nope", "s"),
        "compile_error!(\"unresolved source path `nope` against `Doc` (codegen bug or unvalidated mapping)\")"
    );
}

#[test]
fn test_collection_expressions() {
    let m = access_model();
    assert_eq!(collection_take_expr(&m, "Doc", "notes", "s"), "std::mem::take(&mut s.notes)");
    assert_eq!(
        collection_take_expr(&m, "Doc", "total.lines", "s"),
        "s.total.as_mut().and_then(|v0| Some(std::mem::take(&mut v0.lines))).unwrap_or_default()"
    );
    assert_eq!(collection_slice_expr(&m, "Doc", "notes", "s"), "s.notes.as_slice()");
    assert_eq!(
        collection_slice_expr(&m, "Doc", "total.lines", "s"),
        "s.total.as_ref().and_then(|v0| Some(v0.lines.as_slice())).unwrap_or(&[])"
    );
    assert_eq!(
        assign_target_expr(&m, "Doc", "total.amount", "s"),
        "s.total.get_or_insert_default().amount"
    );
    assert_eq!(collection_item_struct(&m, "Doc", "total.lines"), "Line");
    assert_eq!(collection_item_struct(&m, "Doc", "nope"), "Doc");
}

#[test]
fn test_normalization_expressions() {
    let ops = vec![NormalizeOp::Trim, NormalizeOp::EmptyAsMissing];
    assert_eq!(
        normalize_chain("x", &ops, false),
        "x.map(CompactString::from).map(normalize::trim).and_then(normalize::empty_as_missing)"
    );
    assert_eq!(normalize_chain("x", &vec![NormalizeOp::Lowercase], true), "x.map(normalize::lowercase)");
}

#[test]
fn test_generated_text_is_exact() {
    let (ir, hub, source) = compile(
        "[Invoice.ID]\ntype = \"identifier\"\ncanonical_key = \"InvoiceNumber\"\nrequired = true\n\
         normalize = [\"trim\"]",
    );
    assert_eq!(generate_hub(&hub).trim_end(), HUB_TEXT.trim_end());
    assert_eq!(generate_spoke(&ir, &source, "super::hub"), SPOKE_TEXT);
}

const HUB_TEXT: &str = r#"// Generated canonical hub. Do not edit by hand.

use compact_str::CompactString;
use rust_decimal::Decimal;

/// The canonical invoice hub (union of every spoke's canonical keys).
#[derive(Debug, Clone, Default, PartialEq)]
pub struct MainKey {
    pub invoice_number: Option<CompactString>,
}
"#;

const SPOKE_TEXT: &str = r##"// Generated spoke mapper. Do not edit by hand.
// Source model: f:1
// Mapping: f v1

use serde::{Deserialize, Serialize};
use std::str::FromStr as _;
use compact_str::{CompactString, ToCompactString as _};
use rust_decimal::Decimal;
use einvoice_transformator::result::{MappingDiagnostic, MappingResult, Severity};
use einvoice_transformator::{adapter, normalize, validate};
use super::hub::*;

// --- typed source structs ---
#[derive(Debug, Clone, Default, PartialEq, Eq, Serialize, Deserialize)]
pub struct Invoice {
    #[serde(rename = "ID", default, skip_serializing_if = "Option::is_none")]
    pub id: Option<CompactString>,
}
impl Invoice {
    pub fn is_empty(&self) -> bool {
        self.id.as_ref().map_or(true, |value| value.is_empty())
    }
}


/// Deserializes source XML bytes into the typed `Invoice`.
pub fn from_xml(bytes: &[u8]) -> Result<Invoice, quick_xml::DeError> {
    let s = std::str::from_utf8(bytes)
        .map_err(|e| quick_xml::DeError::Custom(format!("invalid utf-8: {e}")))?;
    quick_xml::de::from_str(s)
}

/// Serializes a typed `Invoice` back into XML.
pub fn to_xml(source: &Invoice) -> Result<String, quick_xml::SeError> {
    quick_xml::se::to_string_with_root("Invoice", source)
}

/// Reads the typed source document into the canonical hub, consuming it
/// so uniquely-read values move instead of clone.
pub fn read(mut source: Invoice) -> MappingResult<MainKey> {
    let mut diagnostics: Vec<MappingDiagnostic> = Vec::new();
    let mut main = MainKey::default();

    // Invoice.ID -> InvoiceNumber
    let value: Option<CompactString> = source.id.take().map(normalize::trim);
    if let Some(raw) = value {
        main.invoice_number = Some(raw);
    } else {
        let mut diag = MappingDiagnostic::new(Severity::Error, "REQUIRED_MISSING", "Invoice.ID", "required value is missing");
        diag.canonical_key = Some("InvoiceNumber".to_string());
        diag.source_path = Some("id".to_string());
        diagnostics.push(diag);
    }

    MappingResult::new(Some(main), diagnostics)
}

/// Writes the canonical hub back into a typed source document, consuming
/// the hub so uniquely-written values move instead of clone.
pub fn write(mut main: MainKey) -> MappingResult<Invoice> {
    let mut diagnostics: Vec<MappingDiagnostic> = Vec::new();
    let mut source = Invoice::default();

    // InvoiceNumber -> id
    if let Some(value) = main.invoice_number.take() {
        let rendered = value;
        if !rendered.is_empty() {
            source.id = Some(rendered);
        } else {
            let mut diag = MappingDiagnostic::new(Severity::Error, "REQUIRED_MISSING", "Invoice.ID", "required value is missing");
            diag.canonical_key = Some("InvoiceNumber".to_string());
            diag.source_path = Some("id".to_string());
            diagnostics.push(diag);
        }
    } else {
        let mut diag = MappingDiagnostic::new(Severity::Error, "REQUIRED_MISSING", "Invoice.ID", "required value is missing");
        diag.canonical_key = Some("InvoiceNumber".to_string());
        diag.source_path = Some("id".to_string());
        diagnostics.push(diag);
    }

    MappingResult::new(Some(source), diagnostics)
}
"##;
