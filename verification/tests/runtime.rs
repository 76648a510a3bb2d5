//! What generated mappers call: normalizers, adapters, validators, results.
use einvoice::runtime::adapter::{uppercase_currency, Adapter, AdapterError};
use einvoice::runtime::normalize::{empty_as_missing, lowercase, trim, uppercase, CompactText};
use einvoice::runtime::result::{MappingDiagnostic, MappingResult, Severity};
use einvoice::runtime::validate::{is_currency, is_date, is_datetime, is_unit_code};


#[test]
fn test_is_currency_accepts_three_upper_letters() {
    assert!(is_currency("EUR"));
    assert!(is_currency("USD"));
}

#[test]
fn test_is_currency_rejects_wrong_shape() {
    assert!(!is_currency("eur"));
    assert!(!is_currency("EU"));
    assert!(!is_currency("EURO"));
    assert!(!is_currency("E1R"));
}

#[test]
fn test_is_unit_code_accepts_short_alnum() {
    assert!(is_unit_code("C62"));
    assert!(is_unit_code("KGM"));
    assert!(is_unit_code("EA"));
}

#[test]
fn test_is_unit_code_rejects_empty_or_long_or_symbol() {
    assert!(!is_unit_code(""));
    assert!(!is_unit_code("ABCD"));
    assert!(!is_unit_code("A-B"));
}

#[test]
fn test_is_date_accepts_valid_calendar_shape() {
    assert!(is_date("2026-06-27"));
    assert!(is_date("2000-01-01"));
}

#[test]
fn test_is_date_rejects_bad_shape_or_range() {
    assert!(!is_date("2026-6-27"));
    assert!(!is_date("2026/06/27"));
    assert!(!is_date("2026-13-01"));
    assert!(!is_date("2026-06-32"));
    assert!(!is_date("not-a-date"));
}

#[test]
fn test_is_datetime_accepts_iso_forms() {
    assert!(is_datetime("2026-06-27T10:30:00"));
    assert!(is_datetime("2026-06-27T10:30:00Z"));
    assert!(is_datetime("2026-06-27T10:30:00.500"));
    assert!(is_datetime("2026-06-27T10:30:00+01:00"));
}

#[test]
fn test_is_datetime_holds_the_tail_to_a_fraction_and_a_zone() {
    let with = |tail: &str| is_datetime(&format!("2026-06-27T10:30:00{tail}"));
    for tail in ["", "Z", ".5", ".500", ".500Z", ".5+01:00", "-05:30", "+99:99"] {
        assert!(with(tail), "{tail}");
    }
    for tail in [
        "+x", "+", "-", ".", ".Z", ".5x", "Zx", "ZZ", "+0100", "+01:0", "+01:000", "+01:00Z",
        "Z.5", "z", ".5.5", " ", "+1:00",
    ] {
        assert!(!with(tail), "{tail}");
    }
}

#[test]
fn test_is_datetime_rejects_bad_forms() {
    assert!(!is_datetime("2026-06-27"));
    assert!(!is_datetime("2026-06-27 10:30:00"));
    assert!(!is_datetime("2026-06-27T25:00:00"));
    assert!(!is_datetime("2026-06-27T10:60:00"));
}


#[test]
fn test_uppercase_currency_upcases_text() {
    assert_eq!(uppercase_currency("usd").unwrap(), "USD");
}

#[test]
fn test_uppercase_currency_already_upper_is_unchanged() {
    assert_eq!(uppercase_currency("EUR").unwrap(), "EUR");
}

#[test]
fn test_adapter_error_display() {
    let err = AdapterError {
        adapter: "x".to_string(),
        reason: "bad".to_string(),
    };
    assert_eq!(err.message(), "adapter `x` failed: bad");
}

/// Proves the [`Adapter`] trait is object-safe and usable via the same
/// conversion logic as the free function.
struct UpperCurrency;
impl Adapter for UpperCurrency {
    fn convert(&self, input: &str) -> Result<String, AdapterError> {
        uppercase_currency(input)
    }
}

#[test]
fn test_adapter_trait_object_convert() {
    let a: &dyn Adapter = &UpperCurrency;
    assert_eq!(a.convert("eur").unwrap(), "EUR");
}


fn cs(s: &str) -> CompactText {
    CompactText::new(s)
}

#[test]
fn test_trim_removes_surrounding_whitespace() {
    assert_eq!(trim(cs("  hello  ")).as_str(), "hello");
    assert_eq!(trim(cs("\t\nx\r\n")).as_str(), "x");
    assert_eq!(trim(cs("no-pad")).as_str(), "no-pad");
}

#[test]
fn test_trim_unicode_whitespace() {
    assert_eq!(trim(cs("\u{00A0}hi\u{2003}")).as_str(), "hi");
}

#[test]
fn test_trim_already_trimmed_heap_string_keeps_allocation() {
    // A value past the inline capacity lives on the heap; when nothing
    // needs stripping the same allocation must come back, not a copy.
    let text = "this value is longer than twenty-four bytes";
    assert!(compact_str::CompactString::new(text).is_heap_allocated(), "fixture must be heap");
    let original = cs(text);
    let ptr = original.as_str().as_ptr();
    let trimmed = trim(original);
    assert_eq!(trimmed.as_str(), "this value is longer than twenty-four bytes");
    assert_eq!(trimmed.as_str().as_ptr(), ptr);
}

#[test]
fn test_uppercase() {
    assert_eq!(uppercase(cs("eur")).as_str(), "EUR");
    assert_eq!(uppercase(cs("MiXeD")).as_str(), "MIXED");
}

#[test]
fn test_lowercase() {
    assert_eq!(lowercase(cs("EUR")).as_str(), "eur");
    assert_eq!(lowercase(cs("MiXeD")).as_str(), "mixed");
}

#[test]
fn test_empty_as_missing_on_empty_returns_none() {
    assert_eq!(empty_as_missing(cs("")), None);
}

#[test]
fn test_empty_as_missing_on_nonempty_returns_some() {
    assert_eq!(empty_as_missing(cs("x")), Some(cs("x")));
}

#[test]
fn test_empty_as_missing_on_whitespace_returns_some() {
    // Only the literal empty string maps to None; whitespace is "present".
    assert_eq!(empty_as_missing(cs("   ")), Some(cs("   ")));
}


#[test]
fn test_new_diagnostic_defaults_optional_fields() {
    let d = MappingDiagnostic::new(
        Severity::Warning,
        "FALLBACK_USED",
        "node-7",
        "used fallback",
    );
    assert_eq!(d.severity, Severity::Warning);
    assert_eq!(d.code, "FALLBACK_USED");
    assert_eq!(d.source_node, "node-7");
    assert_eq!(d.message, "used fallback");
    assert_eq!(d.canonical_key, None);
    assert_eq!(d.source_path, None);
    assert_eq!(d.collection_index, None);
    assert!(d.fallback_chain.is_empty());
}

#[test]
fn test_has_errors_with_no_diagnostics_is_false() {
    let r: MappingResult<i32> = MappingResult::new(Some(1), vec![]);
    assert!(!r.has_errors());
}

#[test]
fn test_has_errors_with_only_warning_and_info_is_false() {
    let r: MappingResult<i32> = MappingResult::new(
        Some(1),
        vec![
            MappingDiagnostic::new(Severity::Warning, "W", "n", "w"),
            MappingDiagnostic::new(Severity::Info, "I", "n", "i"),
        ],
    );
    assert!(!r.has_errors());
}

#[test]
fn test_has_errors_with_error_is_true() {
    let r: MappingResult<i32> = MappingResult::new(
        None,
        vec![
            MappingDiagnostic::new(Severity::Info, "I", "n", "i"),
            MappingDiagnostic::new(Severity::Error, "E", "n", "e"),
        ],
    );
    assert!(r.has_errors());
}

#[test]
fn test_new_result_carries_value_and_diagnostics() {
    let diags = vec![MappingDiagnostic::new(Severity::Info, "I", "n", "i")];
    let r = MappingResult::new(Some("v".to_string()), diags.clone());
    assert_eq!(r.value, Some("v".to_string()));
    assert_eq!(r.diagnostics, diags);
}

#[test]
fn test_uppercase_currency_follows_unicode() {
    assert_eq!(uppercase_currency("stra\u{df}e").unwrap(), "STRASSE");
    assert_eq!(lowercase(cs("\u{c4}\u{d6}")).as_str(), "\u{e4}\u{f6}");
}

#[test]
fn test_every_datetime_begins_with_a_date() {
    for s in ["2026-06-27T10:30:00", "2026-06-27T10:30:00.500", "2026-06-27T10:30:00+01:00"] {
        assert!(is_datetime(s) && is_date(&s[..10]));
    }
}
