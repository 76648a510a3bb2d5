//! The developer commands.
use einvoice::dsl::compile::{compile, CompileOutput, SpokeInput};
use einvoice::dsl::devtool::{render_check, render_report, run};
use einvoice::dsl::error::ConfigError;
use einvoice::dsl::loader::{load_files, LoadOutput, SourceFile};
use einvoice::dsl::parse::{parse_mapping, ParsedMapping};
use einvoice::ordmap::TextSet;

fn no_load(_dir: &str) -> Result<LoadOutput, ConfigError> {
    unreachable!("nothing to load")
}


fn output(bodies: &[(&str, &str)]) -> CompileOutput {
    let chains: Vec<(String, Vec<ParsedMapping>)> = bodies
        .iter()
        .enumerate()
        .map(|(i, (id, body))| {
            let src = format!(
                r#"
                [meta]
                doc_format = "f"
                format_version = "1"
                mapping_version = "1"
                source_model = "s{i}:1"
                canonical_model = "c:1"
                root = "Doc"
                {body}
            "#
            );
            ((*id).to_string(), vec![parse_mapping(&src).unwrap()])
        })
        .collect();
    let spokes: Vec<SpokeInput> = chains
        .iter()
        .map(|(id, chain)| SpokeInput {
            id: id.clone(),
            chain,
        })
        .collect();
    compile(&spokes, &TextSet::new())
}

#[test]
fn test_check_clean_exits_zero() {
    let out = output(&[(
        "ubl",
        r#"[Doc.ID]
        type = "identifier"
        canonical_key = "InvoiceNumber""#,
    )]);
    let rendered = render_check(&out);
    assert_eq!(rendered.exit_code, 0);
    assert!(rendered.stdout.contains("0 error(s)"));
}

#[test]
fn test_check_invalid_node_exits_one_and_reports_code() {
    // `min_items` on a scalar is an error-severity diagnostic (E041).
    let out = output(&[(
        "ubl",
        r#"[Doc.X]
        type = "string"
        min_items = 1"#,
    )]);
    let rendered = render_check(&out);
    assert_eq!(rendered.exit_code, 1);
    assert!(rendered.stdout.contains("E041"));
}

#[test]
fn test_report_renders_matrix_and_gaps() {
    let out = output(&[
        (
            "a",
            r#"[Doc.ID]
            type = "identifier"
            canonical_key = "InvoiceNumber""#,
        ),
        (
            "b",
            r#"[Doc.ID]
            type = "string""#,
        ),
    ]);
    let rendered = render_report(&out);
    assert!(rendered.stdout.contains("coverage matrix"));
    assert!(rendered.stdout.contains("InvoiceNumber"));
    // Spoke b maps nothing canonical, so it gaps InvoiceNumber.
    assert!(rendered.stdout.contains("b is missing"));
}

#[test]
fn test_no_args_is_usage() {
    assert_eq!(run(&[], no_load).exit_code, 2);
}

/// A directory with a disabled base and a spoke that inherits it.
fn mappings_dir(dir: &str) -> Result<LoadOutput, ConfigError> {
    let head = |format: &str, extra: &str| {
        format!(
            "[meta]\ndoc_format = \"{format}\"\nformat_version = \"1\"\nmapping_version = \"1\"\n\
             canonical_model = \"c:1\"\nroot = \"Invoice\"\n{extra}\n"
        )
    };
    let mut base = head("cii-invoice", "disabled = true");
    for i in 0..11 {
        base.push_str(&format!("[Invoice.F{i}]\ntype = \"string\"\ncanonical_key = \"K{i}\"\n"));
    }
    let child = head("xrechnung-invoice", "inherits = \"cii-invoice:1\"");
    load_files(
        dir,
        &vec![
            SourceFile { path: "cii.toml".to_string(), text: Ok(base) },
            SourceFile { path: "xrechnung.toml".to_string(), text: Ok(child) },
        ],
    )
}

#[test]
fn test_check_real_mappings_dir_uses_shared_loader() {
    // Inheritance chains resolve, and the disabled base emits no spoke.
    let loaded = mappings_dir("mappings").unwrap();
    let spokes: Vec<SpokeInput> = loaded
        .spokes
        .iter()
        .map(|s| SpokeInput { id: s.slug.clone(), chain: s.chain.as_slice() })
        .collect();
    let out = compile(&spokes, &TextSet::new());
    assert!(!out.has_errors(), "{:?}", out.diagnostics);
    assert!(
        !out.irs.contains_key(&"cii_invoice".to_string()),
        "disabled base must not emit a spoke"
    );
    let xr = out.irs.get(&"xrechnung_invoice".to_string()).unwrap();
    assert!(
        xr.nodes.len() > 10,
        "inherited base nodes must be folded in, got {}",
        xr.nodes.len()
    );
    let rendered = run(&["check".to_string(), "mappings".to_string()], mappings_dir);
    assert_eq!(rendered.exit_code, 0, "{}", rendered.stdout);
}

#[test]
fn test_the_usage_text_is_exact() {
    let out = einvoice::dsl::devtool::usage();
    assert_eq!(
        out.stdout,
        "usage: xtask <command> <mappings-dir>\n\ncommands:\n\
         \u{20} check  <dir>   compile every spoke mapping; report all diagnostics\n\
         \u{20} report <dir>   print the canonical coverage matrix and gap report\n"
    );
}

#[test]
fn test_unknown_command_is_usage() {
    let out = run(&["build".to_string()], no_load);
    assert_eq!(out.exit_code, 2);
    assert!(out.stdout.contains("check"), "{}", out.stdout);
}

#[test]
fn test_command_without_a_directory_says_so() {
    let out = run(&["report".to_string()], no_load);
    assert_eq!(out.exit_code, 2);
    assert!(out.stdout.starts_with("error: a mappings directory is required\n"), "{}", out.stdout);
}

#[test]
fn test_directory_that_does_not_load_exits_two() {
    let out = run(&["check".to_string(), "none".to_string()], |d: &str| load_files(d, &vec![]));
    assert_eq!(out.exit_code, 2);
    assert_eq!(out.stdout, "error: no `*.toml` spokes found in `none`\n");
}

#[test]
fn test_report_of_a_directory_exits_zero() {
    let out = run(&["report".to_string(), "mappings".to_string()], mappings_dir);
    assert_eq!(out.exit_code, 0);
    assert!(out.stdout.contains("K10"), "{}", out.stdout);
}
