//! Loading a directory of mapping files.
use einvoice::dsl::error::ConfigError;
use einvoice::dsl::loader::{load_files, mapping_files, slug_of, LoadOutput, SourceFile};


/// The files of a directory in the order of their paths, as a directory scan
/// hands them over.
fn dir_with(files: &[(&str, &str)]) -> Vec<SourceFile> {
    let mut dir: Vec<SourceFile> = files
        .iter()
        .map(|(name, body)| SourceFile {
            path: format!("mappings/{name}.toml"),
            text: Ok(body.to_string()),
        })
        .collect();
    dir.sort_by(|a, b| a.path.cmp(&b.path));
    dir
}

fn load_dir(files: &Vec<SourceFile>) -> Result<LoadOutput, ConfigError> {
    load_files("mappings", files)
}

fn meta(doc_format: &str, extra: &str) -> String {
    format!(
        r#"
        [meta]
        doc_format = "{doc_format}"
        format_version = "1"
        mapping_version = "1"
        canonical_model = "c:1"
        root = "Doc"
        {extra}

        [Doc.ID]
        type = "identifier"
        canonical_key = "InvoiceNumber"
    "#
    )
}

#[test]
fn test_load_dir_resolves_inheritance_chain() {
    let dir = dir_with(&[
        ("base", &meta("base-fmt", "")),
        ("child", &meta("child-fmt", r#"inherits = "base-fmt:1""#)),
    ]);
    let out = load_dir(&dir).expect("loads");
    assert_eq!(out.spokes.len(), 2);
    let child = out
        .spokes
        .iter()
        .find(|s| s.slug == "child_fmt")
        .expect("child spoke");
    assert_eq!(child.chain.len(), 2, "ancestor-first chain");
    assert_eq!(child.chain[0].meta.doc_format, "base-fmt");
    assert_eq!(child.chain[1].meta.doc_format, "child-fmt");
}

#[test]
fn test_load_dir_unknown_parent_of_a_disabled_base_is_error() {
    let dir = dir_with(&[
        ("plain", &meta("plain-fmt", "")),
        ("base", &meta("base-fmt", "disabled = true\n        inherits = \"ghost:1\"")),
    ]);
    let err = load_dir(&dir).unwrap_err();
    assert_eq!(err.message, "mapping `base-fmt:1` inherits unknown parent `ghost:1`");
}

#[test]
fn test_load_dir_cycle_of_disabled_bases_is_error() {
    let dir = dir_with(&[
        ("plain", &meta("plain-fmt", "")),
        ("a", &meta("a-fmt", "disabled = true\n        inherits = \"b-fmt:1\"")),
        ("b", &meta("b-fmt", "disabled = true\n        inherits = \"a-fmt:1\"")),
    ]);
    let err = load_dir(&dir).unwrap_err();
    assert_eq!(err.message, "inheritance cycle through mapping id `a-fmt:1`");
}

#[test]
fn test_a_disabled_mapping_needs_no_slug() {
    let dir = dir_with(&[
        ("plain", &meta("plain-fmt", "")),
        ("base", &meta("---", "disabled = true")),
    ]);
    assert_eq!(load_dir(&dir).expect("loads").spokes.len(), 1);
}

#[test]
fn test_mapping_files_are_the_sorted_toml_entries() {
    let names = |list: &[&str]| list.iter().map(|s| s.to_string()).collect::<Vec<String>>();
    let entries = names(&[
        "ubl.toml", "README.md", "cii.toml", ".toml", "toml", "a.b.toml", "x.toml.bak", "Z.toml",
        "x.TOML", "..toml", "x.",
    ]);
    assert_eq!(
        mapping_files(entries),
        names(&["..toml", "Z.toml", "a.b.toml", "cii.toml", "ubl.toml"])
    );
    assert!(mapping_files(vec![]).is_empty());
}

#[test]
fn test_the_slug_of_a_slug_is_itself() {
    for format in ["Factur--X!!v1", "_ubl_", "a__b", "X"] {
        let slug = slug_of(format).unwrap();
        assert_eq!(slug_of(&slug).unwrap(), slug);
    }
}

#[test]
fn test_load_dir_skips_disabled_base_but_resolves_it() {
    let dir = dir_with(&[
        ("base", &meta("base-fmt", "disabled = true")),
        ("child", &meta("child-fmt", r#"inherits = "base-fmt:1""#)),
    ]);
    let out = load_dir(&dir).expect("loads");
    // The disabled base emits no spoke but still parents the child's chain.
    assert_eq!(out.spokes.len(), 1);
    assert_eq!(out.spokes[0].slug, "child_fmt");
    assert_eq!(out.spokes[0].chain.len(), 2);
}

#[test]
fn test_load_dir_unknown_parent_is_error() {
    let dir = dir_with(&[("child", &meta("child-fmt", r#"inherits = "ghost:1""#))]);
    let err = load_dir(&dir).unwrap_err();
    assert!(err.message.contains("unknown parent"), "{}", err.message);
}

#[test]
fn test_load_dir_inheritance_cycle_is_error() {
    let dir = dir_with(&[
        ("a", &meta("a-fmt", r#"inherits = "b-fmt:1""#)),
        ("b", &meta("b-fmt", r#"inherits = "a-fmt:1""#)),
    ]);
    let err = load_dir(&dir).unwrap_err();
    assert!(err.message.contains("cycle"), "{}", err.message);
}

#[test]
fn test_load_dir_duplicate_mapping_id_is_error() {
    let dir = dir_with(&[
        ("a", &meta("same-fmt", "")),
        ("b", &meta("same-fmt", "")),
    ]);
    let err = load_dir(&dir).unwrap_err();
    assert!(err.message.contains("same mapping id"), "{}", err.message);
}

#[test]
fn test_load_dir_empty_dir_is_error() {
    let dir = dir_with(&[]);
    let err = load_dir(&dir).unwrap_err();
    assert!(err.message.contains("no `*.toml`"), "{}", err.message);
}

#[test]
fn test_load_dir_lists_scanned_files_sorted() {
    let dir = dir_with(&[("b", &meta("b-fmt", "")), ("a", &meta("a-fmt", ""))]);
    let out = load_dir(&dir).expect("loads");
    let names: Vec<_> = out
        .files
        .iter()
        .map(|p| p.rsplit('/').next().unwrap().to_string())
        .collect();
    assert_eq!(names, ["a.toml", "b.toml"]);
}

#[test]
fn test_slug_of_collapses_non_alphanumerics() {
    assert_eq!(slug_of("ubl-invoice").unwrap(), "ubl_invoice");
    assert_eq!(slug_of("Factur--X!!v1").unwrap(), "factur_x_v1");
}

#[test]
fn test_slug_of_invalid_identifier_is_error() {
    assert!(slug_of("---").is_err());
    assert!(slug_of("1abc").is_err());
}

#[test]
fn test_unreadable_file_is_an_error_that_names_it() {
    let files = vec![SourceFile { path: "m/a.toml".to_string(), text: Err("denied".to_string()) }];
    let err = load_files("m", &files).unwrap_err();
    assert_eq!(err.message, "cannot read `m/a.toml`: denied");
}

#[test]
fn test_unparsable_file_is_an_error_that_names_it() {
    let err = load_dir(&dir_with(&[("a", "stray = 1")])).unwrap_err();
    assert!(err.message.starts_with("mappings/a.toml: "), "{}", err.message);
}

#[test]
fn test_two_formats_with_one_slug_are_an_error() {
    let dir = dir_with(&[("a", &meta("x-fmt", "")), ("b", &meta("x_fmt", ""))]);
    let err = load_dir(&dir).unwrap_err();
    assert!(err.message.contains("derive the same name `x_fmt`"), "{}", err.message);
}

#[test]
fn test_a_mapping_that_inherits_itself_is_a_cycle() {
    let dir = dir_with(&[("a", &meta("a-fmt", r#"inherits = "a-fmt:1""#))]);
    let err = load_dir(&dir).unwrap_err();
    assert_eq!(err.message, "inheritance cycle through mapping id `a-fmt:1`");
}
