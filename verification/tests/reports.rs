//! What the engine reports of its spokes: tables, loss analysis, key coverage.
use std::collections::BTreeSet;

use einvoice::dsl::compile::{compile, known_adapters, SpokeInput};
use einvoice::dsl::loader::{load_files, SourceFile};
use einvoice::dsl::devtool::render_check;
use einvoice::engine::analysis::{
    analyze, analyze_all, classify, join_fields, render_table, text_set, TransformState,
};
use einvoice::engine::keys::{
    hub_keys, render_hub_keys, render_spoke_keys, spoke_keys, CoveredKey, KeyInfo, SpokeKeys,
    UnusedKey,
};
use einvoice::engine::registry::{
    assert_clean, build, collect_spokes, generate_files, pascal_of,
};
use einvoice::engine::spoke::Spoke;
use einvoice::engine::table::aligned;
use einvoice::ordmap::TextSet;

/// The spokes of a small set of mappings: UBL, two formats built on it, one on a
/// disabled base, and one with a tree of its own.
fn spokes() -> Vec<Spoke> {
    let head = |format: &str, root: &str, extra: &str| {
        format!(
            "[meta]\ndoc_format = \"{format}\"\nformat_version = \"2.1\"\nmapping_version = \"1.0\"\n\
             canonical_model = \"canonical-invoice:1.0\"\nroot = \"{root}\"\n{extra}\n"
        )
    };
    let node = |id: &str, ty: &str, key: &str, extra: &str| {
        format!("[{id}]\ntype = \"{ty}\"\ncanonical_key = \"{key}\"\n{extra}\n")
    };
    let ubl = head("ubl-invoice", "Invoice", "")
        + &node("Invoice.CustomizationID", "identifier", "SpecificationId", "")
        + &node("Invoice.ID", "identifier", "InvoiceNumber", "required = true")
        + &node("Invoice.Note", "string", "InvoiceNote", "multiple = \"join\"\njoin_with = \"\\n\"")
        + &node("Invoice.DocumentCurrencyCode", "currency", "DocumentCurrency", "required = true")
        + &node("Invoice.LegalMonetaryTotal.PayableAmount", "decimal", "PayableAmount", "")
        + &node("InvoiceLine", "collection", "InvoiceLines", "")
        + &node("InvoiceLine.ID", "identifier", "LineId", "");
    let xrechnung = head(
        "xrechnung-invoice",
        "Invoice",
        "inherits = \"ubl-invoice:2.1\"\ndetect = [\"xrechnung\"]",
    ) + &node("Invoice.CustomizationID", "identifier", "SpecificationId", "required = true");
    let peppol = head(
        "peppol-invoice",
        "Invoice",
        "inherits = \"ubl-invoice:2.1\"\ndetect = [\"peppol\"]",
    ) + &node("Invoice.BuyerReference", "identifier", "BuyerReference", "required = true");
    let cii = head("cii-invoice", "CrossIndustryInvoice", "disabled = true")
        + &node("CrossIndustryInvoice.Doc.ID", "identifier", "InvoiceNumber", "required = true");
    let facturx = head("facturx-invoice", "CrossIndustryInvoice", "inherits = \"cii-invoice:2.1\"");
    let fattura = head("fatturapa", "FatturaElettronica", "")
        + &node("FatturaElettronica.Numero", "identifier", "InvoiceNumber", "required = true")
        + &node("FatturaElettronica.Divisa", "currency", "DocumentCurrency", "");
    let files: Vec<SourceFile> = [
        ("cii", cii),
        ("facturx", facturx),
        ("fatturapa", fattura),
        ("peppol", peppol),
        ("ubl", ubl),
        ("xrechnung", xrechnung),
    ]
    .into_iter()
    .map(|(name, text)| SourceFile { path: format!("{name}.toml"), text: Ok(text) })
    .collect();
    let loaded = load_files("mappings", &files).expect("loads");
    let inputs: Vec<SpokeInput> = loaded
        .spokes
        .iter()
        .map(|s| SpokeInput { id: s.slug.clone(), chain: s.chain.as_slice() })
        .collect();
    let out = compile(&inputs, &known_adapters());
    assert!(!out.has_errors(), "{:?}", out.diagnostics);
    collect_spokes(&out).into_iter().map(|e| e.spoke).collect()
}


#[test]
fn test_aligned_pads_to_column_width_without_trailing_space() {
    let rows = vec![
        vec!["a".to_string(), "long-value".to_string()],
        vec!["bb".to_string(), "x".to_string()],
    ];
    let out = aligned(&vec!["H1".to_string(), "H2".to_string()], &rows);
    let lines: Vec<&str> = out.lines().collect();
    // Header, rule, then two data rows.
    assert_eq!(lines.len(), 4);
    // First column padded to width 2 ("bb"); last column never padded.
    assert_eq!(lines[2], "a   long-value");
    assert_eq!(lines[3], "bb  x");
    for line in lines {
        assert_eq!(line, line.trim_end(), "no trailing whitespace");
    }
}


fn set(items: &[&str]) -> TextSet {
    text_set(&items.iter().map(|s| s.to_string()).collect())
}

#[test]
fn test_classify_subset_and_no_drop_is_lossless() {
    let s = set(&["A", "B"]);
    let t = set(&["A", "B", "C"]);
    let r = set(&["A"]);
    assert_eq!(classify(&s, &t, &r), TransformState::Lossless);
}

#[test]
fn test_classify_required_filled_but_drops_is_lossful() {
    // Source carries B, target has no slot for it → B is dropped.
    let s = set(&["A", "B"]);
    let t = set(&["A"]);
    let r = set(&["A"]);
    assert_eq!(classify(&s, &t, &r), TransformState::Lossful);
}

#[test]
fn test_classify_some_required_missing_is_partial() {
    // Target requires A and B; source only has A.
    let s = set(&["A"]);
    let t = set(&["A", "B"]);
    let r = set(&["A", "B"]);
    assert_eq!(classify(&s, &t, &r), TransformState::Partial);
}

#[test]
fn test_classify_no_required_filled_is_error() {
    // Target requires B; source provides none of the required set.
    let s = set(&["A"]);
    let t = set(&["B"]);
    let r = set(&["B"]);
    assert_eq!(classify(&s, &t, &r), TransformState::Error);
}

#[test]
fn test_classify_target_without_required_is_never_error() {
    // No required fields → cannot be partial or error, only loss matters.
    let s = set(&["A", "B"]);
    let t = set(&["A"]);
    let empty = set(&[]);
    assert_eq!(classify(&s, &t, &empty), TransformState::Lossful);
    assert_eq!(classify(&t, &s, &empty), TransformState::Lossless);
}

#[test]
fn test_analyze_identity_is_lossless() {
    // A spoke can always represent everything it produces.
    for spoke in &spokes() {
        let report = analyze(spoke, spoke);
        assert_eq!(
            report.state,
            TransformState::Lossless,
            "identity transform of {} should be lossless",
            spoke.name()
        );
        assert!(report.missing_required.is_empty());
        assert!(report.dropped.is_empty());
    }
}

#[test]
fn test_analyze_all_covers_every_pair() {
    let all = spokes();
    let reports = analyze_all(&all, &all);
    assert_eq!(reports.len(), all.len() * all.len());
}

#[test]
fn test_render_table_has_header_legend_and_a_row_per_report() {
    let all = spokes();
    let reports = analyze_all(&all, &all);
    let table = render_table(&reports);
    assert!(table.contains("SOURCE"));
    assert!(table.contains("STATE"));
    assert!(table.contains("legend:"));
    // Header + rule + one line per report + a blank line before the legend.
    let row_lines = table
        .lines()
        .filter(|l| l.contains(all[0].name()))
        .count();
    assert!(row_lines >= 1);
    assert!(table.ends_with('\n'));
}

#[test]
fn test_join_fields_summarizes_overflow() {
    let many = vec![
        "a".to_string(),
        "b".to_string(),
        "c".to_string(),
        "d".to_string(),
    ];
    assert_eq!(join_fields(&many), "a, b, c, (+1 more)");
    assert_eq!(join_fields(&many[..2].to_vec()), "a, b");
}


#[test]
fn test_hub_keys_unions_every_spoke_footprint() {
    let all = spokes();
    let keys = hub_keys(&all);
    // The vocabulary is exactly the union of every spoke's covered keys.
    let union: BTreeSet<String> = all
        .iter()
        .flat_map(|s| s.covered_keys().iter().map(|k| k.to_string()))
        .collect();
    let listed: BTreeSet<String> = keys.iter().map(|k| k.key.clone()).collect();
    assert_eq!(listed, union);
}

#[test]
fn test_hub_keys_are_sorted_and_unique() {
    let keys = hub_keys(&spokes());
    let sorted: Vec<String> = {
        let mut v: Vec<String> = keys.iter().map(|k| k.key.clone()).collect();
        v.sort();
        v.dedup();
        v
    };
    assert_eq!(
        keys.iter().map(|k| k.key.clone()).collect::<Vec<_>>(),
        sorted
    );
}

#[test]
fn test_hub_keys_definers_match_covering_spokes() {
    // For a non-trivial key, `defined_by` is exactly the spokes covering it.
    let all = spokes();
    let keys = hub_keys(&all);
    let sample = keys.first().expect("at least one main key");
    let expected: Vec<String> = all
        .iter()
        .filter(|s| s.covered_keys().contains(&sample.key))
        .map(|s| s.name().to_string())
        .collect();
    assert_eq!(sample.defined_by, expected);
    assert!(!sample.defined_by.is_empty());
}

#[test]
fn test_required_by_is_subset_of_defined_by() {
    for info in hub_keys(&spokes()) {
        for r in &info.required_by {
            assert!(
                info.defined_by.contains(r),
                "{} required by {r} but not in defined_by",
                info.key
            );
        }
    }
}

#[test]
fn test_spoke_keys_partition_the_hub() {
    let total = hub_keys(&spokes()).len();
    for spoke in &spokes() {
        let view = spoke_keys(&spokes(), spoke);
        assert_eq!(
            view.covered.len() + view.unused.len(),
            total,
            "{} covered+unused must cover the whole hub",
            spoke.name()
        );
        // No key is both covered and unused.
        let covered: BTreeSet<&str> = view.covered.iter().map(|c| c.key.as_str()).collect();
        for u in &view.unused {
            assert!(!covered.contains(u.key.as_str()));
        }
    }
}

#[test]
fn test_spoke_keys_covered_matches_generated_footprint() {
    for spoke in &spokes() {
        let view = spoke_keys(&spokes(), spoke);
        let covered: BTreeSet<String> = view.covered.iter().map(|c| c.key.clone()).collect();
        let expected: BTreeSet<String> =
            spoke.covered_keys().iter().map(|k| k.to_string()).collect();
        assert_eq!(covered, expected, "{}", spoke.name());
    }
}

#[test]
fn test_spoke_keys_are_sorted() {
    for spoke in &spokes() {
        let view = spoke_keys(&spokes(), spoke);
        assert!(view.covered.windows(2).all(|w| w[0].key < w[1].key));
        assert!(view.unused.windows(2).all(|w| w[0].key < w[1].key));
        for key in spoke.covered_keys() {
            assert!(view.covered.iter().any(|c| c.key == *key), "{key}");
        }
    }
}

#[test]
fn test_spoke_keys_unused_are_defined_by_someone_else() {
    for spoke in &spokes() {
        for u in spoke_keys(&spokes(), spoke).unused {
            assert!(!u.defined_by.is_empty(), "{} has no definers", u.key);
            assert!(
                !u.defined_by.contains(&spoke.name().to_string()),
                "{} listed as definer of its own unused key {}",
                spoke.name(),
                u.key
            );
        }
    }
}

#[test]
fn test_spoke_keys_required_flag_tracks_generated_required() {
    for spoke in &spokes() {
        let view = spoke_keys(&spokes(), spoke);
        let required: BTreeSet<String> = spoke
            .required_keys()
            .iter()
            .map(|k| k.to_string())
            .collect();
        for c in view.covered {
            assert_eq!(
                c.required,
                required.contains(&c.key),
                "{} required flag wrong for {}",
                spoke.name(),
                c.key
            );
        }
    }
}

#[test]
fn test_render_hub_keys_has_header_and_summary() {
    let table = render_hub_keys(&hub_keys(&spokes()), spokes().len());
    assert!(table.contains("KEY"));
    assert!(table.contains("DEFINED"));
    assert!(table.contains("SPOKES"));
    assert!(table.contains("main keys across"));
    assert!(table.ends_with('\n'));
}

#[test]
fn test_render_hub_keys_marks_required_with_star() {
    // Build an info with one required and one non-required definer.
    let keys = vec![KeyInfo {
        key: "InvoiceNumber".into(),
        defined_by: vec!["a".into(), "b".into()],
        required_by: vec!["a".into()],
    }];
    let table = render_hub_keys(&keys, 2);
    assert!(table.contains("a*, b"), "got: {table}");
}

#[test]
fn test_render_spoke_keys_has_both_sections() {
    let view = SpokeKeys {
        spoke: "ubl-invoice".into(),
        covered: vec![CoveredKey {
            key: "InvoiceNumber".into(),
            required: true,
        }],
        unused: vec![UnusedKey {
            key: "BuyerName".into(),
            defined_by: vec!["peppol-invoice".into()],
        }],
    };
    let out = render_spoke_keys(&view);
    assert!(out.contains("COVERED"));
    assert!(out.contains("✓ InvoiceNumber (required)"));
    assert!(out.contains("UNUSED"));
    assert!(out.contains("· BuyerName — defined by: peppol-invoice"));
    assert!(out.contains("1 covered, 1 unused of 2 total"));
}

#[test]
fn test_render_spoke_keys_empty_sections_say_none() {
    let view = SpokeKeys {
        spoke: "x".into(),
        covered: Vec::new(),
        unused: Vec::new(),
    };
    let out = render_spoke_keys(&view);
    assert_eq!(out.matches("(none)").count(), 2);
}

#[test]
fn test_states_have_a_label_and_a_glyph() {
    for (state, label) in [
        (TransformState::Lossless, "lossless"),
        (TransformState::Lossful, "lossful"),
        (TransformState::Partial, "partial"),
        (TransformState::Error, "error"),
    ] {
        assert_eq!(state.label(), label);
        assert!(!state.glyph().is_alphanumeric());
    }
}

#[test]
fn test_report_explains_its_state() {
    let all = spokes();
    let fattura = all.iter().find(|s| s.root() == "FatturaElettronica").unwrap();
    let ubl = all.iter().find(|s| s.name() == "ubl-invoice:2.1").unwrap();
    let report = analyze(ubl, fattura);
    assert_eq!(report.state, TransformState::Lossful);
    assert!(report.missing_required.is_empty());
    assert!(report.dropped.contains(&"InvoiceNote".to_string()), "{:?}", report.dropped);
    let back = analyze(fattura, ubl);
    assert_eq!(back.state, TransformState::Lossless);
}

#[test]
fn test_variant_names_of_formats() {
    assert_eq!(pascal_of("ubl-invoice"), "UblInvoice");
    assert_eq!(pascal_of("fatturapa"), "Fatturapa");
}

fn mapping(format: &str, body: &str) -> Vec<einvoice::dsl::parse::ParsedMapping> {
    let src = format!(
        "[meta]\ndoc_format = \"{format}\"\nformat_version = \"1\"\nmapping_version = \"1\"\n\
         canonical_model = \"c:1\"\nroot = \"Doc\"\n{body}"
    );
    vec![einvoice::dsl::parse::parse_mapping(&src).expect("parses")]
}

#[test]
fn test_build_writes_a_hub_each_spoke_and_the_dispatch() {
    let body = "[Doc.ID]\ntype = \"identifier\"\ncanonical_key = \"InvoiceNumber\"";
    let (a, b) = (mapping("alpha", body), mapping("beta", body));
    let inputs = [
        SpokeInput { id: "alpha".to_string(), chain: a.as_slice() },
        SpokeInput { id: "beta".to_string(), chain: b.as_slice() },
    ];
    let files = build(&inputs, &known_adapters()).expect("clean");
    let text = |name: &str| {
        files.iter().find(|(f, _)| f == name).map(|(_, t)| t.as_str()).expect(name)
    };
    assert!(text("hub.rs").contains("pub struct MainKey {"));
    assert!(text("shared_0.rs").contains("pub struct Doc {"));
    // The shared module is the source module of the first spoke that has it.
    assert!(text("shared_0.rs").starts_with(
        "// Generated shared source model. Do not edit by hand.\n// Source model: alpha:1\n\n"
    ));
    let dispatch = files.iter().map(|(_, t)| t).find(|t| t.contains("pub enum Spoke {")).unwrap();
    assert!(dispatch.contains("Alpha,") && dispatch.contains("Beta,"), "{dispatch}");
    // The second spoke is the first one again: it gets no file of its own.
    assert!(files.iter().all(|(f, _)| f != "beta.rs"));
    let out = compile(&inputs, &known_adapters());
    assert!(assert_clean(&out).is_ok());
    assert_eq!(generate_files(&out), files);
}

#[test]
fn test_build_agrees_with_check() {
    for body in [
        "[Doc.X]\ntype = \"string\"\ncanonical_key = \"X\"",
        "[Doc.X]\ntype = \"string\"\nadapter = \"nope\"",
        "[Doc.X]\ntype = \"string\"\nmultiple = \"join\"",
    ] {
        let a = mapping("alpha", body);
        let inputs = [SpokeInput { id: "alpha".to_string(), chain: a.as_slice() }];
        let check = render_check(&compile(&inputs, &known_adapters()));
        assert_eq!(build(&inputs, &known_adapters()).is_ok(), check.exit_code == 0, "{body}");
    }
}

#[test]
fn test_build_refuses_what_does_not_compile_clean() {
    let a = mapping("alpha", "[Doc.X]\ntype = \"string\"\nmin_items = 1");
    let inputs = [SpokeInput { id: "alpha".to_string(), chain: a.as_slice() }];
    let err = build(&inputs, &known_adapters()).unwrap_err();
    assert!(err.starts_with("mappings did not compile clean:\n"), "{err}");
    assert!(err.contains("E041"), "{err}");
}
