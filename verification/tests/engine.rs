//! The engine at work: documents in, documents out, by the command line and over
//! HTTP.
use einvoice::dsl::compile::{compile, known_adapters, SpokeInput};
use einvoice::dsl::loader::{load_files, SourceFile};
use einvoice::engine::cli::command::{Args, Command};
use einvoice::engine::cli::detect::{detect_by_signature, detect_source, resolve_spoke};
use einvoice::engine::cli::error::CliError;
use einvoice::engine::cli::parse::parse_args;
use einvoice::engine::cli::render::{format_list, render_diagnostics};
use einvoice::engine::cli::run::{analyze_table, deliver, document, keys_output, run};
use einvoice::engine::cli::xml::{customization_id, root_element};
use einvoice::engine::registry::collect_spokes;
use einvoice::engine::server::handle::{analyze, formats, handle, param, reply};
use einvoice::engine::server::router::{analyze_page, formats_page, health, not_found};
use einvoice::engine::spoke::Spoke;
use einvoice::engine::transform::{combine, Engine, EngineError};
use einvoice::runtime::normalize::{empty_as_missing, trim, uppercase, CompactText};
use einvoice::runtime::result::{MappingDiagnostic, MappingResult, Severity};

/// The spokes of a small set of mappings: UBL, two formats built on it, one on a
/// disabled base, and one with a tree of its own.
fn spokes() -> Vec<Spoke> {
    let head = |format: &str, root: &str, extra: &str| {
        format!(
            "[meta]\ndoc_format = \"{format}\"\nformat_version = \"2.1\"\nmapping_version = \"1.0\"\n\
             canonical_model = \"canonical-invoice:1.0\"\nroot = \"{root}\"\n{extra}\n"
        )
    };
    let node = |id: &str, ty: &str, key: &str, extra: &str| {
        format!("[{id}]\ntype = \"{ty}\"\ncanonical_key = \"{key}\"\n{extra}\n")
    };
    let ubl = head("ubl-invoice", "Invoice", "")
        + &node("Invoice.CustomizationID", "identifier", "SpecificationId", "")
        + &node("Invoice.ID", "identifier", "InvoiceNumber", "required = true")
        + &node("Invoice.Note", "string", "InvoiceNote", "multiple = \"join\"\njoin_with = \"\\n\"")
        + &node("Invoice.DocumentCurrencyCode", "currency", "DocumentCurrency", "required = true")
        + &node("Invoice.LegalMonetaryTotal.PayableAmount", "decimal", "PayableAmount", "")
        + &node("InvoiceLine", "collection", "InvoiceLines", "")
        + &node("InvoiceLine.ID", "identifier", "LineId", "");
    let xrechnung = head(
        "xrechnung-invoice",
        "Invoice",
        "inherits = \"ubl-invoice:2.1\"\ndetect = [\"xrechnung\"]",
    ) + &node("Invoice.CustomizationID", "identifier", "SpecificationId", "required = true");
    let peppol = head(
        "peppol-invoice",
        "Invoice",
        "inherits = \"ubl-invoice:2.1\"\ndetect = [\"peppol\"]",
    ) + &node("Invoice.BuyerReference", "identifier", "BuyerReference", "required = true");
    let cii = head("cii-invoice", "CrossIndustryInvoice", "disabled = true")
        + &node("CrossIndustryInvoice.Doc.ID", "identifier", "InvoiceNumber", "required = true");
    let facturx = head("facturx-invoice", "CrossIndustryInvoice", "inherits = \"cii-invoice:2.1\"");
    let fattura = head("fatturapa", "FatturaElettronica", "")
        + &node("FatturaElettronica.Numero", "identifier", "InvoiceNumber", "required = true")
        + &node("FatturaElettronica.Divisa", "currency", "DocumentCurrency", "");
    let files: Vec<SourceFile> = [
        ("cii", cii),
        ("facturx", facturx),
        ("fatturapa", fattura),
        ("peppol", peppol),
        ("ubl", ubl),
        ("xrechnung", xrechnung),
    ]
    .into_iter()
    .map(|(name, text)| SourceFile { path: format!("{name}.toml"), text: Ok(text) })
    .collect();
    let loaded = load_files("mappings", &files).expect("loads");
    let inputs: Vec<SpokeInput> = loaded
        .spokes
        .iter()
        .map(|s| SpokeInput { id: s.slug.clone(), chain: s.chain.as_slice() })
        .collect();
    let out = compile(&inputs, &known_adapters());
    assert!(!out.has_errors(), "{:?}", out.diagnostics);
    collect_spokes(&out).into_iter().map(|e| e.spoke).collect()
}

// The mappers of these tests are written by hand. The values that a test finds in a
// hub or in a document are those that these mappers put there; that they come out
// again, with their diagnostics, is the engine's.

/// The canonical values that the mappers of these tests carry.
#[derive(Debug)]
struct Hub {
    specification_id: Option<String>,
    invoice_number: Option<String>,
    invoice_note: Option<String>,
    document_currency: Option<String>,
    payable_amount: Option<String>,
    line_names: Vec<String>,
}

/// The texts of every element `tag` of a document.
fn elements(text: &str, tag: &str) -> Vec<String> {
    let mut found = Vec::new();
    let mut rest = text;
    while let Some(at) = rest.find(&format!("<{tag}")) {
        let after = &rest[at + 1 + tag.len()..];
        if !after.starts_with('>') && !after.starts_with(' ') {
            rest = after;
            continue;
        }
        let open = after.find('>').unwrap() + 1;
        let close = after.find(&format!("</{tag}>")).unwrap_or(after.len());
        found.push(after[open.min(close)..close].to_string());
        rest = &after[close..];
    }
    found
}

/// A document without its lines.
fn header(text: &str) -> String {
    let end = text.find("<InvoiceLine>").unwrap_or(text.len());
    text[..end].to_string()
}

fn missing(node: &str, key: &str) -> MappingDiagnostic {
    let mut d = MappingDiagnostic::new(
        Severity::Error,
        "REQUIRED_MISSING",
        node,
        "required value is missing",
    );
    d.canonical_key = Some(key.to_string());
    d
}

/// Reads the few fields of a hub from a document.
fn read(_spoke: &Spoke, bytes: &[u8]) -> Result<MappingResult<Hub>, String> {
    let text = String::from_utf8(bytes.to_vec()).map_err(|e| e.to_string())?;
    if !text.trim_start().starts_with('<') {
        return Err("syntax error".to_string());
    }
    let head = header(&text);
    let one = |tag: &str| {
        elements(&head, tag)
            .first()
            .and_then(|s| empty_as_missing(trim(CompactText::new(s))))
            .map(|s| s.as_str().to_string())
    };
    let notes: Vec<String> =
        elements(&head, "Note").iter().map(|s| trim(CompactText::new(s)).as_str().to_string()).collect();
    let hub = Hub {
        specification_id: one("CustomizationID"),
        invoice_number: one("ID"),
        invoice_note: if notes.is_empty() { None } else { Some(notes.join("\n")) },
        document_currency: one("DocumentCurrencyCode")
            .map(|s| uppercase(CompactText::new(&s)).as_str().to_string()),
        payable_amount: one("PayableAmount"),
        line_names: elements(&text, "Name"),
    };
    let mut diagnostics = Vec::new();
    if hub.invoice_number.is_none() {
        diagnostics.push(missing("Invoice.ID", "InvoiceNumber"));
    }
    Ok(MappingResult::new(Some(hub), diagnostics))
}

/// Writes the few fields of a hub to a document.
fn write(spoke: &Spoke, hub: &Hub) -> Result<MappingResult<String>, String> {
    let mut diagnostics = Vec::new();
    if spoke.required_keys().contains(&"SpecificationId".to_string()) && hub.specification_id.is_none() {
        diagnostics.push(missing("Invoice.CustomizationID", "SpecificationId"));
    }
    let mut xml = format!("<{}>", spoke.root());
    for (tag, value) in [
        ("CustomizationID", &hub.specification_id),
        ("ID", &hub.invoice_number),
        ("Note", &hub.invoice_note),
        ("DocumentCurrencyCode", &hub.document_currency),
    ] {
        if let Some(v) = value {
            xml.push_str(&format!("<{tag}>{v}</{tag}>"));
        }
    }
    for name in &hub.line_names {
        xml.push_str(&format!("<InvoiceLine><Item><Name>{name}</Name></Item></InvoiceLine>"));
    }
    xml.push_str(&format!("</{}>", spoke.root()));
    Ok(MappingResult::new(Some(xml), diagnostics))
}

fn spoke_named(name: &str) -> Spoke {
    resolve_spoke(&spokes(), name).expect("bundled spoke").clone()
}


const ENGINE_UBL: &[u8] = br#"<Invoice>
    <ID>INV-42</ID>
    <IssueDate>2026-06-27</IssueDate>
    <DocumentCurrencyCode>eur</DocumentCurrencyCode>
    <LegalMonetaryTotal>
        <PayableAmount currencyID="EUR">119.00</PayableAmount>
    </LegalMonetaryTotal>
    <InvoiceLine><ID>1</ID><InvoicedQuantity>2</InvoicedQuantity><Item><Name>Widget</Name></Item></InvoiceLine>
    <InvoiceLine><ID>2</ID><InvoicedQuantity>3</InvoicedQuantity><Item><Name>Gadget</Name></Item></InvoiceLine>
</Invoice>"#;

#[test]
fn test_to_hub_populates_typed_fields() {
    let engine = Engine::new();
    let result = engine.to_hub(&spoke_named("ubl-invoice"), ENGINE_UBL, read).expect("well-formed");
    assert!(!result.has_errors(), "{:?}", result.diagnostics);
    let hub = result.value.expect("reader always yields a hub");
    // `normalize = ["trim","uppercase"]` upcased the lowercase currency.
    assert_eq!(hub.document_currency.as_deref(), Some("EUR"));
    assert_eq!(hub.invoice_number.as_deref(), Some("INV-42"));
    assert_eq!(hub.payable_amount.as_deref(), Some("119.00"));
    assert_eq!(hub.line_names.len(), 2);
    assert_eq!(hub.line_names[1], "Gadget");
}

#[test]
fn test_transform_roundtrips_through_hub() {
    let engine = Engine::new();
    let out = engine
        .transform(&spoke_named("ubl-invoice"), &spoke_named("ubl-invoice"), ENGINE_UBL, read, write)
        .expect("well-formed");
    assert!(!out.has_errors(), "{:?}", out.diagnostics);
    let xml = out.value.expect("writer yields a document");
    // The transformed document re-parses and preserves the canonical values.
    let again = engine
        .to_hub(&spoke_named("ubl-invoice"), xml.as_bytes(), read)
        .expect("re-parse")
        .value
        .expect("hub");
    assert_eq!(again.invoice_number.as_deref(), Some("INV-42"));
    assert_eq!(again.document_currency.as_deref(), Some("EUR"));
    assert_eq!(again.line_names.len(), 2);
}

#[test]
fn test_transform_omits_empty_target_containers() {
    let engine = Engine::new();
    let out = engine
        .transform(&spoke_named("ubl-invoice"), &spoke_named("ubl-invoice"), ENGINE_UBL, read, write)
        .expect("well-formed");
    assert!(!out.has_errors(), "{:?}", out.diagnostics);
    let xml = out.value.expect("writer yields a document");

    assert!(xml.contains("<ID>INV-42</ID>"));
    assert!(!xml.contains("<AccountingSupplierParty>"), "{xml}");
    assert!(!xml.contains("<TaxAmount/>"), "{xml}");
}

#[test]
fn test_writer_reports_missing_target_required_field() {
    let engine = Engine::new();
    let result = engine
        .transform(&spoke_named("ubl-invoice"), &spoke_named("xrechnung-invoice"), ENGINE_UBL, read, write)
        .expect("well-formed");

    assert!(result.has_errors());
    assert!(result.diagnostics.iter().any(|d| {
        d.code == "REQUIRED_MISSING"
            && d.source_node == "Invoice.CustomizationID"
            && d.canonical_key.as_deref() == Some("SpecificationId")
    }));
}

#[test]
fn test_missing_required_id_is_a_diagnostic_not_an_error() {
    let engine = Engine::new();
    let xml = br#"<Invoice>
        <ID></ID>
        <DocumentCurrencyCode>EUR</DocumentCurrencyCode>
        <LegalMonetaryTotal><PayableAmount currencyID="EUR">1.00</PayableAmount></LegalMonetaryTotal>
        <InvoiceLine><ID>1</ID><InvoicedQuantity>1</InvoicedQuantity><Item><Name>X</Name></Item></InvoiceLine>
    </Invoice>"#;
    let result = engine.to_hub(&spoke_named("ubl-invoice"), xml, read).expect("well-formed");
    // Empty ID is `empty_as_missing` → required-missing diagnostic.
    assert!(result.has_errors());
    assert!(
        result
            .diagnostics
            .iter()
            .any(|d| d.code == "REQUIRED_MISSING" && d.source_node == "Invoice.ID")
    );
}

#[test]
fn test_repeated_note_joins_into_one_canonical_value() {
    // BG-1: `cbc:Note` repeats in UBL; `multiple = "join"` collapses the
    // values into the single canonical `InvoiceNote`, and the writer emits
    // the joined value back as one element.
    let engine = Engine::new();
    let xml = br#"<Invoice>
        <ID>INV-42</ID>
        <Note>first note</Note>
        <Note>  second note </Note>
        <DocumentCurrencyCode>EUR</DocumentCurrencyCode>
        <LegalMonetaryTotal><PayableAmount currencyID="EUR">1.00</PayableAmount></LegalMonetaryTotal>
        <InvoiceLine><ID>1</ID><InvoicedQuantity>1</InvoicedQuantity><Item><Name>X</Name></Item></InvoiceLine>
    </Invoice>"#;
    let result = engine.to_hub(&spoke_named("ubl-invoice"), xml, read).expect("well-formed");
    assert!(!result.has_errors(), "{:?}", result.diagnostics);
    let hub = result.value.expect("hub");
    assert_eq!(
        hub.invoice_note.as_deref(),
        Some("first note\nsecond note"),
        "notes join in source order, each trimmed"
    );

    let out = engine
        .from_hub(&spoke_named("ubl-invoice"), &hub, write)
        .expect("renderable");
    let xml = out.value.expect("document");
    assert_eq!(xml.matches("<Note>").count(), 1, "{xml}");
}

#[test]
fn test_absent_required_element_is_a_diagnostic_not_an_engine_error() {
    // The required `<ID>` element is missing entirely (not just empty). The
    // document must still parse; the reader reports REQUIRED_MISSING.
    let engine = Engine::new();
    let xml = br#"<Invoice>
        <DocumentCurrencyCode>EUR</DocumentCurrencyCode>
        <LegalMonetaryTotal><PayableAmount currencyID="EUR">1.00</PayableAmount></LegalMonetaryTotal>
        <InvoiceLine><ID>1</ID><InvoicedQuantity>1</InvoicedQuantity><Item><Name>X</Name></Item></InvoiceLine>
    </Invoice>"#;
    let result = engine.to_hub(&spoke_named("ubl-invoice"), xml, read).expect("must parse");
    assert!(result.has_errors());
    assert!(
        result
            .diagnostics
            .iter()
            .any(|d| d.code == "REQUIRED_MISSING" && d.source_node == "Invoice.ID"),
        "{:?}",
        result.diagnostics
    );
}

#[test]
fn test_malformed_xml_is_an_engine_error() {
    let engine = Engine::new();
    let err = engine
        .to_hub(&spoke_named("ubl-invoice"), b"not xml <<<", read)
        .unwrap_err();
    assert!(matches!(err, EngineError::Deserialize(_)));
}


fn s(v: &str) -> String {
    v.to_string()
}

#[test]
fn test_parse_args_two_positionals_is_transform() {
    let cmd = parse_args(&[s("in.xml"), s("ubl-invoice")]).expect("valid");
    assert_eq!(
        cmd,
        Command::Transform(Args {
            input: s("in.xml"),
            target_format: s("ubl-invoice"),
            source_format: None,
            output: None,
        })
    );
}

#[test]
fn test_parse_args_from_and_out_flags_are_captured() {
    let cmd = parse_args(&[
        s("in.xml"),
        s("xrechnung-invoice"),
        s("--from"),
        s("ubl-invoice"),
        s("--out"),
        s("out.xml"),
    ])
    .expect("valid");
    assert_eq!(
        cmd,
        Command::Transform(Args {
            input: s("in.xml"),
            target_format: s("xrechnung-invoice"),
            source_format: Some(s("ubl-invoice")),
            output: Some(s("out.xml")),
        })
    );
}

#[test]
fn test_parse_args_flags_before_positionals() {
    let cmd = parse_args(&[
        s("--from"),
        s("ubl-invoice"),
        s("in.xml"),
        s("xrechnung-invoice"),
    ])
    .expect("valid");
    let Command::Transform(a) = cmd else {
        panic!("expected transform");
    };
    assert_eq!(a.source_format, Some(s("ubl-invoice")));
    assert_eq!(a.input, s("in.xml"));
}

#[test]
fn test_parse_args_analyze_alone_has_no_source() {
    assert_eq!(
        parse_args(&[s("--analyze")]).expect("ok"),
        Command::Analyze(None)
    );
}

#[test]
fn test_parse_args_analyze_with_positional_source() {
    assert_eq!(
        parse_args(&[s("--analyze"), s("ubl-invoice")]).expect("ok"),
        Command::Analyze(Some(s("ubl-invoice")))
    );
}

#[test]
fn test_parse_args_analyze_with_from_source() {
    assert_eq!(
        parse_args(&[s("--analyze"), s("--from"), s("ubl-invoice")]).expect("ok"),
        Command::Analyze(Some(s("ubl-invoice")))
    );
}

#[test]
fn test_parse_args_analyze_too_many_sources_is_usage_error() {
    let err = parse_args(&[s("--analyze"), s("a"), s("b")]).expect_err("should fail");
    assert!(matches!(err, CliError::Usage(_)));
}

#[test]
fn test_parse_args_keys_alone_has_no_format() {
    assert_eq!(parse_args(&[s("--keys")]).expect("ok"), Command::Keys(None));
}

#[test]
fn test_parse_args_keys_with_positional_format() {
    assert_eq!(
        parse_args(&[s("--keys"), s("ubl-invoice")]).expect("ok"),
        Command::Keys(Some(s("ubl-invoice")))
    );
}

#[test]
fn test_parse_args_keys_with_from_format() {
    assert_eq!(
        parse_args(&[s("--keys"), s("--from"), s("ubl-invoice")]).expect("ok"),
        Command::Keys(Some(s("ubl-invoice")))
    );
}

#[test]
fn test_parse_args_keys_too_many_formats_is_usage_error() {
    let err = parse_args(&[s("--keys"), s("a"), s("b")]).expect_err("should fail");
    assert!(matches!(err, CliError::Usage(_)));
}

#[test]
fn test_parse_args_keys_and_analyze_combined_is_usage_error() {
    let err = parse_args(&[s("--keys"), s("--analyze")]).expect_err("should fail");
    assert!(matches!(err, CliError::Usage(_)));
}

#[test]
fn test_parse_args_no_args_is_help() {
    assert_eq!(parse_args(&[]).expect("ok"), Command::Help);
}

#[test]
fn test_parse_args_help_flag() {
    assert_eq!(parse_args(&[s("--help")]).expect("ok"), Command::Help);
    assert_eq!(parse_args(&[s("-h")]).expect("ok"), Command::Help);
}

#[test]
fn test_parse_args_list_flag() {
    assert_eq!(
        parse_args(&[s("--list")]).expect("ok"),
        Command::ListFormats
    );
}

#[test]
fn test_parse_args_single_positional_is_usage_error() {
    let err = parse_args(&[s("in.xml")]).expect_err("should fail");
    assert!(matches!(err, CliError::Usage(_)));
    assert_eq!(err.exit_code(), 64);
}

#[test]
fn test_parse_args_three_positionals_is_usage_error() {
    let err = parse_args(&[s("a"), s("b"), s("c")]).expect_err("should fail");
    assert!(matches!(err, CliError::Usage(_)));
}

#[test]
fn test_parse_args_unknown_flag_is_usage_error() {
    let err =
        parse_args(&[s("in.xml"), s("ubl-invoice"), s("--nope")]).expect_err("should fail");
    assert!(matches!(err, CliError::Usage(_)));
}

#[test]
fn test_parse_args_dangling_value_flag_is_usage_error() {
    let err =
        parse_args(&[s("in.xml"), s("ubl-invoice"), s("--from")]).expect_err("should fail");
    assert!(matches!(err, CliError::Usage(_)));
}


#[test]
fn test_render_diagnostics_empty_is_empty() {
    assert_eq!(render_diagnostics(&[]), "");
}

#[test]
fn test_render_diagnostics_formats_each_line() {
    let diags = vec![
        MappingDiagnostic::new(
            Severity::Warning,
            "FALLBACK_USED",
            "Invoice.ID",
            "took fallback",
        ),
        MappingDiagnostic::new(
            Severity::Error,
            "REQUIRED_MISSING",
            "Invoice.ID",
            "is required",
        ),
    ];
    let out = render_diagnostics(&diags);
    assert_eq!(
        out,
        "warning [FALLBACK_USED] Invoice.ID: took fallback\n\
         error [REQUIRED_MISSING] Invoice.ID: is required\n"
    );
}

#[test]
fn test_format_list_contains_every_spoke() {
    let list = format_list(&spokes());
    for spoke in &spokes() {
        assert!(list.contains(spoke.name()), "missing {}", spoke.name());
    }
}


/// A bare-name UBL invoice: valid under both spokes. Its CustomizationID is
/// the plain EN16931 id, so it carries no XRechnung marker.
const DETECT_UBL: &[u8] = br#"<Invoice>
    <CustomizationID>urn:cen.eu:en16931:2017</CustomizationID>
    <ID>INV-1</ID>
    <DocumentCurrencyCode>EUR</DocumentCurrencyCode>
    <LegalMonetaryTotal><PayableAmount currencyID="EUR">1.00</PayableAmount></LegalMonetaryTotal>
    <InvoiceLine><ID>1</ID><InvoicedQuantity>1</InvoicedQuantity><Item><Name>X</Name></Item></InvoiceLine>
</Invoice>"#;

/// Same document carrying the XRechnung CustomizationID marker, plus the
/// `TaxTotal` element the XRechnung source model requires to be present.
const XRECHNUNG: &[u8] = br#"<Invoice>
    <CustomizationID>urn:cen.eu:en16931:2017#compliant#urn:xoev-de:kosit:standard:xrechnung_3.0</CustomizationID>
    <ID>INV-1</ID>
    <DocumentCurrencyCode>EUR</DocumentCurrencyCode>
    <LegalMonetaryTotal><PayableAmount currencyID="EUR">1.00</PayableAmount></LegalMonetaryTotal>
    <TaxTotal><TaxAmount currencyID="EUR">0.00</TaxAmount></TaxTotal>
    <InvoiceLine><ID>1</ID><InvoicedQuantity>1</InvoicedQuantity><Item><Name>X</Name></Item></InvoiceLine>
</Invoice>"#;

#[test]
fn test_detect_source_prefers_marker_match() {
    // The XRechnung marker is present → the CIUS wins over base UBL even
    // though both spokes parse the document cleanly.
    let all = spokes();
    let detected = detect_source(&all, XRECHNUNG).expect("detected");
    assert_eq!(*detected, spoke_named("xrechnung-invoice"));
}

#[test]
fn test_detect_source_falls_back_to_base_when_no_marker() {
    // No XRechnung marker → the markerless base format (DETECT_UBL) is chosen
    // rather than reporting ambiguity.
    let all = spokes();
    let detected = detect_source(&all, DETECT_UBL).expect("detected");
    assert_eq!(*detected, spoke_named("ubl-invoice"));
}

#[test]
fn test_detect_markers_only_on_declaring_spoke() {
    // Exactly the spokes that declare `[meta].detect` expose markers.
    assert_eq!(spoke_named("ubl-invoice").detect_markers(), &Vec::<String>::new());
    assert!(
        spoke_named("xrechnung-invoice")
            .detect_markers()
            .contains(&"xrechnung".to_string())
    );
}

#[test]
fn test_customization_id_extracts_prefixed_and_bare() {
    // Prefix-agnostic: matches by local name.
    let prefixed = br#"<Invoice xmlns:cbc="x"><cbc:CustomizationID> urn:xrechnung_3.0 </cbc:CustomizationID></Invoice>"#;
    assert_eq!(
        customization_id(prefixed).as_deref(),
        Some("urn:xrechnung_3.0")
    );
    assert_eq!(
        customization_id(DETECT_UBL).as_deref(),
        Some("urn:cen.eu:en16931:2017")
    );
}

#[test]
fn test_customization_id_absent_is_none() {
    assert_eq!(customization_id(b"<Invoice><ID>1</ID></Invoice>"), None);
    assert_eq!(customization_id(b"not xml <<<"), None);
}

#[test]
fn test_detect_source_ignores_marker_outside_customization_id() {
    // The word "xrechnung" appears only in other elements, not in the
    // CustomizationID — it must NOT trip detection toward XRechnung.
    let doc = br#"<Invoice>
        <CustomizationID>urn:cen.eu:en16931:2017</CustomizationID>
        <Note>generated by xrechnung-exporter</Note>
        <ID>INV-1</ID>
        <DocumentCurrencyCode>EUR</DocumentCurrencyCode>
        <LegalMonetaryTotal><PayableAmount currencyID="EUR">1.00</PayableAmount></LegalMonetaryTotal>
        <InvoiceLine><ID>1</ID><InvoicedQuantity>1</InvoicedQuantity><Item><Name>X</Name></Item></InvoiceLine>
    </Invoice>"#;
    let all = spokes();
    let detected = detect_source(&all, doc).expect("detected");
    assert_eq!(*detected, spoke_named("ubl-invoice"));
}

#[test]
fn test_spoke_root_from_compiletime_registry() {
    // The generated registry carries each spoke's root XML element, taken
    // from `[meta].root`; no document parsing is needed to know it.
    assert_eq!(spoke_named("ubl-invoice").root(), "Invoice");
    assert_eq!(spoke_named("fatturapa").root(), "FatturaElettronica");
    // `cii-invoice` is inherit-only (`disabled`); Factur-X inherits its tree
    // and is the emitted spoke carrying the `CrossIndustryInvoice` root.
    assert_eq!(
        spoke_named("facturx-invoice").root(),
        "CrossIndustryInvoice"
    );
}

#[test]
fn test_detect_source_by_distinct_root() {
    // FatturaPA declares no CustomizationID markers; its unique root element
    // identifies it through the registry, even on a skeleton document.
    let all = spokes();
    let detected =
        detect_source(&all, b"<FatturaElettronica></FatturaElettronica>").expect("detected");
    assert_eq!(*detected, spoke_named("fatturapa"));
}

#[test]
fn test_detect_source_unknown_root_is_ambiguous() {
    // A root element no spoke registers cannot be identified.
    let err = detect_source(&spokes(), b"<Unknown/>").map(|s| s.name().to_string()).unwrap_err();
    assert!(matches!(err, CliError::AmbiguousSource(_)));
}

#[test]
fn test_resolve_spoke_known_name() {
    // Every bundled spoke must resolve from its own display name.
    for spoke in &spokes() {
        assert_eq!(resolve_spoke(&spokes(), spoke.name()).expect("known"), spoke);
    }
}

#[test]
fn test_resolve_spoke_is_case_insensitive() {
    let all = spokes();
    let name = all[0].name().to_uppercase();
    assert_eq!(resolve_spoke(&all, &name).expect("known"), &all[0]);
}

#[test]
fn test_resolve_spoke_accepts_bare_doc_format_prefix() {
    // The display name carries a version (e.g. `ubl-invoice:2.1`); the bare
    // `ubl-invoice` prefix must resolve to the same spoke.
    for spoke in &spokes() {
        if let Some((prefix, _)) = spoke.name().split_once(':') {
            assert_eq!(resolve_spoke(&spokes(), prefix).expect("prefix resolves"), spoke);
        }
    }
}

#[test]
fn test_resolve_spoke_unknown_name_errors() {
    let err = resolve_spoke(&spokes(), "totally-made-up").map(|s| s.name().to_string()).expect_err("unknown");
    assert!(matches!(err, CliError::UnknownFormat(_)));
    assert_eq!(err.exit_code(), 64);
}


#[test]
fn test_keys_output_full_vocabulary_lists_keys() {
    let out = keys_output(&spokes(), None).expect("ok");
    assert!(out.contains("KEY"));
    assert!(out.contains("main keys across"));
}

#[test]
fn test_keys_output_scoped_shows_covered_and_unused() {
    let out = keys_output(&spokes(), Some("ubl-invoice")).expect("known");
    assert!(out.contains("main keys for"));
    assert!(out.contains("COVERED"));
    assert!(out.contains("UNUSED"));
}

#[test]
fn test_keys_output_unknown_format_is_unknown_format() {
    let err = keys_output(&spokes(), Some("totally-made-up")).expect_err("unknown");
    assert!(matches!(err, CliError::UnknownFormat(_)));
}

#[test]
fn test_analyze_table_unknown_source_is_unknown_format() {
    let err = analyze_table(&spokes(), Some("totally-made-up")).expect_err("unknown");
    assert!(matches!(err, CliError::UnknownFormat(_)));
}

#[test]
fn test_analyze_table_scoped_lists_only_that_source() {
    let table = analyze_table(&spokes(), Some("ubl-invoice")).expect("known");
    assert!(table.contains("legend:"));
    // No spoke other than the scoped one appears in the SOURCE column (every
    // data row starts with the source name).
    let ubl = spoke_named("ubl-invoice").name().to_string();
    for spoke in &spokes() {
        if spoke.name() != ubl {
            assert!(
                !table.lines().any(|l| l.starts_with(spoke.name())),
                "{} should not be a source row",
                spoke.name()
            );
        }
    }
}
/// A minimal but valid UBL invoice covering the required canonical keys.
const CLI_UBL: &[u8] = br#"<Invoice>
    <ID>INV-42</ID>
    <IssueDate>2026-06-27</IssueDate>
    <DocumentCurrencyCode>EUR</DocumentCurrencyCode>
    <LegalMonetaryTotal><PayableAmount currencyID="EUR">119.00</PayableAmount></LegalMonetaryTotal>
    <InvoiceLine><ID>1</ID><InvoicedQuantity>2</InvoicedQuantity><Item><Name>Widget</Name></Item></InvoiceLine>
</Invoice>"#;

fn invoke(args: &[&str], stdin: &[u8]) -> (i32, String, String) {
    let (code, out, err, _) = invoke_all(args, stdin);
    (code, out, err)
}

/// Runs the command line with `stdin` as its standard input; every other file is
/// missing. What it would write to a file comes last.
fn invoke_all(args: &[&str], stdin: &[u8]) -> (i32, String, String, Option<(String, String)>) {
    let argv: Vec<String> = args.iter().map(|s| s.to_string()).collect();
    let input = |a: &Args| {
        if a.input == "-" {
            Ok(stdin.to_vec())
        } else {
            Err(format!("cannot read `{}`: No such file", a.input))
        }
    };
    let exit = run(&argv, &spokes(), input, read, write);
    (exit.code, exit.stdout, exit.stderr, exit.file)
}

#[test]
fn test_transform_explicit_source_writes_xml_to_stdout() {
    let (code, out, err) = invoke(&["-", "ubl-invoice", "--from", "ubl-invoice"], CLI_UBL);
    assert_eq!(code, 0, "stderr: {err}");
    assert!(out.contains("<ID>INV-42</ID>"), "got: {out}");
    assert!(out.ends_with('\n'));
}

#[test]
fn test_transform_auto_detect_source_from_stdin() {
    let (code, out, _err) = invoke(&["-", "ubl-invoice"], CLI_UBL);
    assert_eq!(code, 0);
    assert!(out.contains("<DocumentCurrencyCode>EUR</DocumentCurrencyCode>"));
}

#[test]
fn test_unknown_target_format_exits_64() {
    let (code, out, err) = invoke(&["-", "no-such-format", "--from", "ubl-invoice"], CLI_UBL);
    assert_eq!(code, 64);
    assert!(out.is_empty());
    assert!(err.contains("unknown format"), "stderr: {err}");
}

#[test]
fn test_missing_input_file_exits_74() {
    let (code, _out, err) = invoke(
        &["/no/such/file.xml", "ubl-invoice", "--from", "ubl-invoice"],
        b"",
    );
    assert_eq!(code, 74);
    assert!(err.contains("io error"), "stderr: {err}");
}

#[test]
fn test_malformed_xml_exits_65() {
    let (code, out, err) = invoke(
        &["-", "ubl-invoice", "--from", "ubl-invoice"],
        b"not xml <<<",
    );
    assert_eq!(code, 65);
    assert!(out.is_empty());
    assert!(err.contains("engine error"), "stderr: {err}");
}

#[test]
fn test_missing_required_field_exits_65_with_diagnostics() {
    let bad = br#"<Invoice>
        <ID></ID>
        <DocumentCurrencyCode>EUR</DocumentCurrencyCode>
        <LegalMonetaryTotal><PayableAmount currencyID="EUR">1.00</PayableAmount></LegalMonetaryTotal>
        <InvoiceLine><ID>1</ID><InvoicedQuantity>1</InvoicedQuantity><Item><Name>X</Name></Item></InvoiceLine>
    </Invoice>"#;
    let (code, out, err) = invoke(&["-", "ubl-invoice", "--from", "ubl-invoice"], bad);
    assert_eq!(code, 65, "stderr: {err}");
    assert!(out.is_empty(), "no partial output on error");
    assert!(err.contains("REQUIRED_MISSING"), "stderr: {err}");
}

#[test]
fn test_list_formats_exits_zero() {
    let (code, out, _err) = invoke(&["--list"], b"");
    assert_eq!(code, 0);
    assert!(out.contains("ubl-invoice"));
}

#[test]
fn test_help_exits_zero() {
    let (code, out, _err) = invoke(&["--help"], b"");
    assert_eq!(code, 0);
    assert!(out.contains("USAGE"));
}

#[test]
fn test_out_flag_writes_to_file() {
    let (code, out, err, file) = invoke_all(
        &["-", "ubl-invoice", "--from", "ubl-invoice", "--out", "krab-cli-test.xml"],
        CLI_UBL,
    );
    assert_eq!(code, 0, "stderr: {err}");
    assert!(out.is_empty(), "output went to file, not stdout");
    let (path, written) = file.expect("an output file");
    assert_eq!(path, "krab-cli-test.xml");
    assert!(written.contains("<ID>INV-42</ID>"));
}

#[test]
fn test_analyze_emits_table_with_legend_and_exits_zero() {
    let (code, out, err) = invoke(&["--analyze"], b"");
    assert_eq!(code, 0, "stderr: {err}");
    assert!(out.contains("SOURCE"), "got: {out}");
    assert!(out.contains("STATE"), "got: {out}");
    assert!(out.contains("lossless"), "got: {out}");
    assert!(out.contains("legend:"), "got: {out}");
    // Every ordered pair of the bundled spokes appears (source x target).
    let all = spokes();
    let data_rows = out
        .lines()
        .filter(|l| all.iter().any(|s| l.starts_with(s.name())))
        .count();
    assert_eq!(data_rows, all.len() * all.len());
}

#[test]
fn test_analyze_scoped_to_one_source_exits_zero() {
    let (code, out, err) = invoke(&["--analyze", "ubl-invoice"], b"");
    assert_eq!(code, 0, "stderr: {err}");
    assert!(out.contains("ubl-invoice"), "got: {out}");
    assert!(out.contains("legend:"));
}

#[test]
fn test_analyze_unknown_source_exits_64() {
    let (code, out, err) = invoke(&["--analyze", "no-such-format"], b"");
    assert_eq!(code, 64);
    assert!(out.is_empty());
    assert!(err.contains("unknown format"), "stderr: {err}");
}

#[test]
fn test_keys_lists_hub_vocabulary_and_exits_zero() {
    let (code, out, err) = invoke(&["--keys"], b"");
    assert_eq!(code, 0, "stderr: {err}");
    assert!(out.contains("KEY"), "got: {out}");
    assert!(out.contains("SPOKES"), "got: {out}");
    assert!(out.contains("main keys across"), "got: {out}");
}

#[test]
fn test_keys_scoped_to_one_spoke_shows_sections_and_exits_zero() {
    let (code, out, err) = invoke(&["--keys", "ubl-invoice"], b"");
    assert_eq!(code, 0, "stderr: {err}");
    assert!(out.contains("main keys for ubl-invoice"), "got: {out}");
    assert!(out.contains("COVERED"), "got: {out}");
    assert!(out.contains("UNUSED"), "got: {out}");
}

#[test]
fn test_keys_unknown_format_exits_64() {
    let (code, out, err) = invoke(&["--keys", "no-such-format"], b"");
    assert_eq!(code, 64);
    assert!(out.is_empty());
    assert!(err.contains("unknown format"), "stderr: {err}");
}

#[test]
fn test_help_lists_keys_command() {
    let (code, out, _err) = invoke(&["--help"], b"");
    assert_eq!(code, 0);
    assert!(out.contains("--keys"), "got: {out}");
}


const HANDLE_UBL: &[u8] = br#"<Invoice>
    <ID>INV-42</ID>
    <IssueDate>2026-06-27</IssueDate>
    <DocumentCurrencyCode>EUR</DocumentCurrencyCode>
    <LegalMonetaryTotal>
        <PayableAmount currencyID="EUR">119.00</PayableAmount>
    </LegalMonetaryTotal>
    <InvoiceLine><ID>1</ID><InvoicedQuantity>2</InvoicedQuantity><Item><Name>Widget</Name></Item></InvoiceLine>
</Invoice>"#;

#[test]
fn test_handle_valid_transform_returns_200_xml() {
    let reply = handle(&spokes(), "to=ubl-invoice&from=ubl-invoice", HANDLE_UBL, read, write);
    assert_eq!(reply.status, 200, "{}", reply.body);
    assert!(reply.body.contains("<ID>INV-42</ID>"), "{}", reply.body);
    assert!(reply.warnings.is_empty(), "{}", reply.warnings);
}

#[test]
fn test_handle_detects_source_when_from_absent() {
    let reply = handle(&spokes(), "to=ubl-invoice", HANDLE_UBL, read, write);
    assert_eq!(reply.status, 200, "{}", reply.body);
    assert!(reply.body.contains("<ID>INV-42</ID>"), "{}", reply.body);
}

#[test]
fn test_handle_missing_to_returns_400() {
    let reply = handle(&spokes(), "", HANDLE_UBL, read, write);
    assert_eq!(reply.status, 400);
    assert!(
        reply.body.contains("to="),
        "names the parameter: {}",
        reply.body
    );
}

#[test]
fn test_handle_unknown_target_returns_400() {
    let reply = handle(&spokes(), "to=not-a-format", HANDLE_UBL, read, write);
    assert_eq!(reply.status, 400);
    assert!(reply.body.contains("not-a-format"), "{}", reply.body);
}

#[test]
fn test_handle_unknown_source_returns_400() {
    let reply = handle(&spokes(), "to=ubl-invoice&from=not-a-format", HANDLE_UBL, read, write);
    assert_eq!(reply.status, 400);
    assert!(reply.body.contains("not-a-format"), "{}", reply.body);
}

#[test]
fn test_handle_undetectable_source_returns_400() {
    let reply = handle(&spokes(), "to=ubl-invoice", b"<Mystery/>", read, write);
    assert_eq!(reply.status, 400, "{}", reply.body);
}

#[test]
fn test_handle_malformed_xml_returns_400() {
    let reply = handle(&spokes(), "to=ubl-invoice&from=ubl-invoice", b"not xml <<<", read, write);
    assert_eq!(reply.status, 400, "{}", reply.body);
}

#[test]
fn test_handle_mapping_errors_return_422_with_diagnostics() {
    // Plain UBL lacks the XRechnung-required CustomizationID: the writer
    // reports REQUIRED_MISSING (see the crate-level tests).
    let reply = handle(&spokes(), "to=xrechnung-invoice&from=ubl-invoice", HANDLE_UBL, read, write);
    assert_eq!(reply.status, 422, "{}", reply.body);
    assert!(reply.body.contains("REQUIRED_MISSING"), "{}", reply.body);
}

#[test]
fn test_formats_is_json_listing_every_spoke() {
    let names: Vec<String> =
        serde_json::from_str(&formats(&spokes())).expect("formats() emits valid JSON");
    for spoke in &spokes() {
        assert!(
            names.iter().any(|n| n == spoke.name()),
            "{} missing from {names:?}",
            spoke.name()
        );
    }
}

#[test]
fn test_analyze_full_matrix_renders_table() {
    let table = analyze(&spokes(), "").expect("no scope is valid");
    assert!(table.contains("legend:"), "{table}");
}

#[test]
fn test_analyze_scoped_to_known_source_renders_table() {
    let table = analyze(&spokes(), "from=ubl-invoice").expect("known format");
    assert!(table.contains("legend:"), "{table}");
}

#[test]
fn test_analyze_unknown_source_is_problem_text() {
    let problem = analyze(&spokes(), "from=not-a-format").expect_err("unknown format");
    assert!(problem.contains("not-a-format"), "{problem}");
}

#[test]
fn test_transform_keeps_the_diagnostics_of_both_halves() {
    let noted = vec![MappingDiagnostic::new(Severity::Warning, "A", "n", "read")];
    let written = MappingResult::new(
        Some("<x/>".to_string()),
        vec![MappingDiagnostic::new(Severity::Info, "B", "n", "write")],
    );
    let both = combine(noted, Ok(written)).unwrap();
    let codes: Vec<&str> = both.diagnostics.iter().map(|d| d.code.as_str()).collect();
    assert_eq!(codes, ["A", "B"]);
    assert_eq!(both.value.as_deref(), Some("<x/>"));
    let failed = combine(vec![], Err("no".to_string())).unwrap_err();
    assert_eq!(failed, EngineError::Serialize("no".to_string()));
}

#[test]
fn test_engine_errors_in_words() {
    assert_eq!(
        EngineError::Deserialize("x".to_string()).message(),
        "source deserialization failed: x"
    );
    assert_eq!(
        EngineError::Serialize("x".to_string()).message(),
        "target serialization failed: x"
    );
}

#[test]
fn test_every_cli_error_has_a_message_and_an_exit_code() {
    for (e, code) in [
        (CliError::Usage("m".to_string()), 64),
        (CliError::UnknownFormat("m".to_string()), 64),
        (CliError::AmbiguousSource("m".to_string()), 64),
        (CliError::Io("m".to_string()), 74),
        (CliError::Engine("m".to_string()), 65),
        (CliError::Mapping("m".to_string()), 65),
    ] {
        assert_eq!(e.exit_code(), code, "{e:?}");
        assert!(e.message().contains('m'));
    }
}

#[test]
fn test_a_document_ends_its_line() {
    let plain = MappingResult::new(Some("<x/>".to_string()), vec![]);
    assert_eq!(document(Ok(plain)).unwrap().0, "<x/>\n");
    let ended = MappingResult::new(Some("<x/>\n".to_string()), vec![]);
    assert_eq!(document(Ok(ended)).unwrap().0, "<x/>\n");
}

#[test]
fn test_nothing_is_delivered_on_a_mapping_error() {
    let result = MappingResult::new(Some("<x/>".to_string()), vec![missing("A", "K")]);
    let err = deliver(&None, Ok(result)).unwrap_err();
    assert!(matches!(err, CliError::Mapping(_)), "{err:?}");
}

#[test]
fn test_roots_are_read_by_local_name() {
    assert_eq!(root_element(b"<?xml version=\"1.0\"?><u:Invoice xmlns:u=\"x\"/>").as_deref(), Some("Invoice"));
    assert_eq!(root_element(b""), None);
    assert_eq!(root_element(b"<a").as_deref(), None);
}

#[test]
fn test_markers_decide_between_formats_of_one_root() {
    let all = spokes();
    let by = |root: Option<&str>, id: Option<&str>| {
        detect_by_signature(&all, root, id).map(|s| s.name().to_string())
    };
    assert_eq!(by(Some("Invoice"), Some("urn:PEPPOL:bis")).unwrap(), "peppol-invoice:2.1");
    assert_eq!(by(Some("Invoice"), None).unwrap(), "ubl-invoice:2.1");
    assert!(matches!(by(None, None).unwrap_err(), CliError::AmbiguousSource(_)));
}

#[test]
fn test_query_parameters() {
    assert_eq!(param("a=1&to=x&to=y", "to").as_deref(), Some("x"));
    assert_eq!(param("to", "to"), None);
    assert_eq!(param("", "to"), None);
}

#[test]
fn test_health_returns_200_ok() {
    let page = health();
    assert_eq!((page.status, page.body.as_str()), (200, "ok"));
}

#[test]
fn test_formats_returns_json_array() {
    let page = formats_page(&spokes());
    assert_eq!(page.status, 200);
    assert_eq!(page.content_type, "application/json");
    let names: Vec<String> = serde_json::from_str(&page.body).expect("valid JSON");
    assert!(!names.is_empty());
}

#[test]
fn test_analyze_known_source_returns_table() {
    let page = analyze_page(&spokes(), "from=ubl-invoice");
    assert_eq!(page.status, 200);
    assert!(page.body.contains("legend:"));
}

#[test]
fn test_analyze_unknown_source_returns_400() {
    let page = analyze_page(&spokes(), "from=not-a-format");
    assert_eq!(page.status, 400);
    assert!(page.body.contains("not-a-format"));
}

#[test]
fn test_unknown_route_returns_404_usage() {
    let page = not_found();
    assert_eq!(page.status, 404);
    assert!(page.body.contains("/transform"));
}

#[test]
fn test_format_names_are_escaped_in_json() {
    let mut odd = spoke_named("ubl-invoice");
    odd.name = "a\"\\/\u{8}\t\n\u{c}\r\u{1}\u{1f}\u{7f}ä".to_string();
    let all = [odd, spoke_named("fatturapa")];
    let want = "[\"a\\\"\\\\/\\b\\t\\n\\f\\r\\u0001\\u001f\u{7f}ä\",\"fatturapa:2.1\"]";
    assert_eq!(formats(&all), want);
    assert_eq!(formats(&[]), "[]");
}

#[test]
fn test_loaded_spokes_have_different_names() {
    let all = spokes();
    for (i, spoke) in all.iter().enumerate() {
        assert!(all[i + 1..].iter().all(|other| other.name() != spoke.name()));
    }
}

#[test]
fn test_only_warnings_go_into_the_warnings_of_a_reply() {
    let with = |diagnostics: Vec<MappingDiagnostic>| {
        reply(Ok(MappingResult::new(Some("<x/>".to_string()), diagnostics)))
    };
    let note = |severity: Severity, code: &str| MappingDiagnostic::new(severity, code, "n", "a\nb");
    let quiet = with(vec![note(Severity::Info, "FALLBACK_USED")]);
    assert_eq!((quiet.status, quiet.warnings.as_str()), (200, ""));
    let mixed = with(vec![
        note(Severity::Warning, "FIRST"),
        note(Severity::Info, "FALLBACK_USED"),
        note(Severity::Warning, "SECOND"),
    ]);
    assert_eq!(mixed.warnings, "warning [FIRST] n: a; b; warning [SECOND] n: a; b");
    assert_eq!(with(vec![]).warnings, "");
}

#[test]
fn test_a_line_feed_behind_the_document_does_not_matter() {
    for tail in ["", "\n", "\n\n  "] {
        let xml = format!("<a:Invoice><CustomizationID> x </CustomizationID></a:Invoice>{tail}");
        assert_eq!(root_element(xml.as_bytes()).as_deref(), Some("Invoice"));
        assert_eq!(customization_id(xml.as_bytes()).as_deref(), Some("x"));
        let plain = format!("<Invoice><ID>1</ID></Invoice>{tail}");
        assert_eq!(customization_id(plain.as_bytes()), None);
    }
    assert_eq!(customization_id(b"<a><b></a>"), None);
}

#[test]
fn test_the_first_spoke_that_answers_to_a_name_wins() {
    let ubl = spoke_named("ubl-invoice");
    let twice = [ubl.clone(), ubl.clone()];
    let found = resolve_spoke(&twice, "UBL-Invoice").expect("known");
    assert!(std::ptr::eq(found, &twice[0]));
}

#[test]
fn test_replies_of_the_engine() {
    let ok = reply(Ok(MappingResult::new(
        Some("<x/>".to_string()),
        vec![MappingDiagnostic::new(Severity::Warning, "W", "n", "m")],
    )));
    assert_eq!((ok.status, ok.body.as_str()), (200, "<x/>"));
    assert_eq!(ok.warnings, "warning [W] n: m");
    let bad = reply(Ok(MappingResult::new(None, vec![missing("A", "K")])));
    assert_eq!(bad.status, 422);
    assert_eq!(reply(Err(EngineError::Deserialize("x".to_string()))).status, 400);
    assert_eq!(reply(Err(EngineError::Serialize("x".to_string()))).status, 500);
}
