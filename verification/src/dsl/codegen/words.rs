//! The words that begin a struct or the XML input and output of a module, and texts
//! that do not hold them.
use vstd::prelude::*;

use crate::text::{decimal, has, quoted, split, Text};

verus! {

/// The words that begin a struct, the XML input and the XML output of a module.
pub open spec fn opening_word(k: int) -> Text {
    if k == 0 {
        "pub struct"@
    } else if k == 1 {
        "pub fn from_xml"@
    } else {
        "pub fn to_xml"@
    }
}

/// Whether a text holds none of the words.
pub open spec fn wordless(t: Text) -> bool {
    forall|k: int| 0 <= k < 3 ==> (has(t, #[trigger] opening_word(k)) == false)
}

/// Whether position `i` of a text is where a word begins, as far as the text goes.
spec fn begins(t: Text, i: int, w: Text) -> bool {
    forall|j: int| 0 <= j < w.len() && i + j < t.len() ==> t[i + j] == #[trigger] w[j]
}

/// Whether a text holds none of the words, and does not end inside one.
pub closed spec fn tame(t: Text) -> bool {
    forall|i: int, k: int|
        0 <= i < t.len() && 0 <= k < 3 ==> !#[trigger] begins(t, i, opening_word(k))
}

/// Whether a text cannot stand behind the first letters of a word and carry it on.
pub closed spec fn parts(t: Text) -> bool {
    forall|k: int, a: int|
        0 <= k < 3 && 1 <= a < opening_word(k).len() ==> !#[trigger] begins(
            t,
            0,
            opening_word(k).skip(a),
        )
}

proof fn lemma_word(k: int)
    requires
        0 <= k < 3,
    ensures
        opening_word(k).len() >= 10,
        opening_word(k)[0] == 'p' && opening_word(k)[1] == 'u' && opening_word(k)[2] == 'b'
            && opening_word(k)[3] == ' ',
        opening_word(k)[4] == 's' || opening_word(k)[7] == 'f' || opening_word(k)[7] == 't',
{
    reveal_strlit("pub struct");
    reveal_strlit("pub fn from_xml");
    reveal_strlit("pub fn to_xml");
}

/// A text is wordless where no word stands in it as a whole.
proof fn lemma_wordless(t: Text)
    ensures
        wordless(t) <==> forall|i: int, k: int|
            0 <= i && 0 <= k < 3 && i + opening_word(k).len() <= t.len() ==> !#[trigger] begins(
                t,
                i,
                opening_word(k),
            ),
{
    assert forall|i: int, k: int|
        0 <= i && 0 <= k < 3 && i + opening_word(k).len() <= t.len() implies #[trigger] begins(
        t,
        i,
        opening_word(k),
    ) == (t.subrange(i, i + opening_word(k).len()) == opening_word(k)) by {
        let w = opening_word(k);
        let s = t.subrange(i, i + w.len());
        if begins(t, i, w) {
            assert forall|j: int| 0 <= j < w.len() implies s[j] == w[j] by {
                assert(t[i + j] == w[j]);
            }
            assert(s =~= w);
        }
        if s == w {
            assert forall|j: int| 0 <= j < w.len() && i + j < t.len() implies t[i + j]
                == #[trigger] w[j] by {
                assert(s[j] == w[j]);
            }
        }
    }
    if wordless(t) {
        assert forall|i: int, k: int|
            0 <= i && 0 <= k < 3 && i + opening_word(k).len() <= t.len() implies !#[trigger] begins(
            t,
            i,
            opening_word(k),
        ) by {
            assert(has(t, opening_word(k)) == false);
        }
    } else {
        let k = choose|k: int| 0 <= k < 3 && has(t, #[trigger] opening_word(k));
        let w = opening_word(k);
        let i = choose|i: int|
            0 <= i && i + w.len() <= t.len() && #[trigger] t.subrange(i, i + w.len()) == w;
        assert(begins(t, i, opening_word(k)));
    }
}

proof fn lemma_join_tame(a: Text, b: Text)
    requires
        tame(a),
        tame(b),
    ensures
        tame(a + b),
{
    let t = a + b;
    assert forall|i: int, k: int| 0 <= i < t.len() && 0 <= k < 3 implies !#[trigger] begins(
        t,
        i,
        opening_word(k),
    ) by {
        let w = opening_word(k);
        if begins(t, i, w) {
            if i < a.len() {
                assert forall|j: int| 0 <= j < w.len() && i + j < a.len() implies a[i + j]
                    == #[trigger] w[j] by {
                    assert(t[i + j] == w[j]);
                }
                assert(begins(a, i, w));
            } else {
                let n = i - a.len();
                assert forall|j: int| 0 <= j < w.len() && n + j < b.len() implies b[n + j]
                    == #[trigger] w[j] by {
                    assert(t[i + j] == w[j]);
                }
                assert(begins(b, n, w));
            }
        }
    }
}

proof fn lemma_join_wordless(a: Text, b: Text)
    requires
        tame(a),
        wordless(b),
    ensures
        wordless(a + b),
{
    let t = a + b;
    lemma_wordless(b);
    lemma_wordless(t);
    assert forall|i: int, k: int|
        0 <= i && 0 <= k < 3 && i + opening_word(k).len() <= t.len() implies !#[trigger] begins(
        t,
        i,
        opening_word(k),
    ) by {
        let w = opening_word(k);
        lemma_word(k);
        if begins(t, i, w) {
            if i < a.len() {
                assert forall|j: int| 0 <= j < w.len() && i + j < a.len() implies a[i + j]
                    == #[trigger] w[j] by {
                    assert(t[i + j] == w[j]);
                }
                assert(begins(a, i, w));
            } else {
                let n = i - a.len();
                assert forall|j: int| 0 <= j < w.len() && n + j < b.len() implies b[n + j]
                    == #[trigger] w[j] by {
                    assert(t[i + j] == w[j]);
                }
                assert(begins(b, n, w));
            }
        }
    }
}

proof fn lemma_part(a: Text, b: Text)
    requires
        wordless(a),
        tame(b),
        parts(b),
    ensures
        tame(a + b),
{
    let t = a + b;
    lemma_wordless(a);
    assert forall|i: int, k: int| 0 <= i < t.len() && 0 <= k < 3 implies !#[trigger] begins(
        t,
        i,
        opening_word(k),
    ) by {
        let w = opening_word(k);
        lemma_word(k);
        if begins(t, i, w) {
            if i >= a.len() {
                let n = i - a.len();
                assert forall|j: int| 0 <= j < w.len() && n + j < b.len() implies b[n + j]
                    == #[trigger] w[j] by {
                    assert(t[i + j] == w[j]);
                }
                assert(begins(b, n, w));
            } else if i + w.len() <= a.len() {
                assert forall|j: int| 0 <= j < w.len() && i + j < a.len() implies a[i + j]
                    == #[trigger] w[j] by {
                    assert(t[i + j] == w[j]);
                }
                assert(begins(a, i, w));
            } else {
                let n = a.len() - i;
                let rest = w.skip(n);
                assert forall|j: int| 0 <= j < rest.len() && 0 + j < b.len() implies b[0 + j]
                    == #[trigger] rest[j] by {
                    assert(rest[j] == w[n + j]);
                    assert(t[i + (n + j)] == w[n + j]);
                }
                assert(begins(b, 0, rest));
            }
        }
    }
}

/// Texts that hold none of the words, put together.
pub proof fn lemma_rules()
    ensures
        forall|a: Text, b: Text| tame(a) && tame(b) ==> tame(#[trigger] (a + b)),
        forall|a: Text, b: Text| tame(a) && wordless(b) ==> wordless(#[trigger] (a + b)),
        forall|a: Text, b: Text| wordless(a) && tame(b) && parts(b) ==> tame(#[trigger] (a + b)),
        forall|a: Text| #[trigger] tame(a) ==> wordless(a),
        tame(Seq::<char>::empty()),
{
    assert forall|a: Text, b: Text| tame(a) && tame(b) implies tame(#[trigger] (a + b)) by {
        lemma_join_tame(a, b);
    }
    assert forall|a: Text, b: Text| tame(a) && wordless(b) implies wordless(
        #[trigger] (a + b),
    ) by {
        lemma_join_wordless(a, b);
    }
    assert forall|a: Text, b: Text| wordless(a) && tame(b) && parts(b) implies tame(
        #[trigger] (a + b),
    ) by {
        lemma_part(a, b);
    }
    assert forall|a: Text| #[trigger] tame(a) implies wordless(a) by {
        lemma_wordless(a);
        assert forall|i: int, k: int|
            0 <= i && 0 <= k < 3 && i + opening_word(k).len() <= a.len() implies !#[trigger] begins(
            a,
            i,
            opening_word(k),
        ) by {
            lemma_word(k);
        }
    }
}

/// Whether no word can begin at position `i` of a text, by its first letters.
pub open spec fn calm_at(t: Text, i: int) -> bool {
    t[i] == 'p' ==> i + 1 < t.len() && (t[i + 1] == 'u' ==> i + 2 < t.len() && (t[i + 2] == 'b'
        ==> i + 7 < t.len() && t[i + 4] != 's' && t[i + 7] != 'f' && t[i + 7] != 't'))
}

/// A text in which no word can begin is tame.
pub proof fn lemma_calm(t: Text)
    requires
        forall|i: int| 0 <= i < t.len() ==> #[trigger] calm_at(t, i),
    ensures
        tame(t),
{
    assert forall|i: int, k: int| 0 <= i < t.len() && 0 <= k < 3 implies !#[trigger] begins(
        t,
        i,
        opening_word(k),
    ) by {
        let w = opening_word(k);
        lemma_word(k);
        assert(calm_at(t, i));
        if begins(t, i, w) {
            assert(t[i + 0] == w[0]);
            assert(t[i + 1] == w[1]);
            assert(t[i + 2] == w[2]);
            assert(t[i + 4] == w[4]);
            assert(t[i + 7] == w[7]);
        }
    }
}

/// Whether a text begins with a character that no word has behind its first, or with
/// a space and a letter that no word has behind a space.
pub open spec fn apart(t: Text) -> bool {
    &&& t.len() > 0
    &&& t[0] != 'u' && t[0] != 'b' && t[0] != 's' && t[0] != 't' && t[0] != 'r' && t[0] != 'c'
        && t[0] != 'f' && t[0] != 'n' && t[0] != 'o' && t[0] != 'm' && t[0] != '_' && t[0] != 'x'
        && t[0] != 'l'
    &&& t[0] == ' ' ==> t.len() > 1 && t[1] != 's' && t[1] != 'f' && t[1] != 't'
}

/// A text that is set apart from the words cannot carry one on.
pub proof fn lemma_apart(t: Text)
    requires
        apart(t),
    ensures
        parts(t),
{
    reveal_strlit("pub struct");
    reveal_strlit("pub fn from_xml");
    reveal_strlit("pub fn to_xml");
    assert forall|k: int, a: int| 0 <= k < 3 && 1 <= a < opening_word(k).len() implies !#[trigger] begins(
        t,
        0,
        opening_word(k).skip(a),
    ) by {
        let rest = opening_word(k).skip(a);
        assert(rest[0] == opening_word(k)[a]);
        if begins(t, 0, rest) {
            assert(t[0] == rest[0]);
            if rest.len() > 1 {
                assert(rest[1] == opening_word(k)[a + 1]);
                assert(t[1] == rest[1] || t.len() <= 1);
            }
        }
    }
}

/// The texts that the expressions on paths are made of hold none of the words.
pub proof fn literals_of_paths()
    ensures
        tame("compile_error!(\"unresolved source path `"@),
        tame("` against `"@) && parts("` against `"@),
        tame("` (codegen bug or unvalidated mapping)\")"@) && parts("` (codegen bug or unvalidated mapping)\")"@),
        tame("v"@) && parts("v"@),
        tame("."@) && parts("."@),
        tame(".and_then(|"@) && parts(".and_then(|"@),
        tame("| "@) && parts("| "@),
        tame(")"@) && parts(")"@),
        tame("Some("@) && parts("Some("@),
        tame(".as_str())"@) && parts(".as_str())"@),
        tame(".as_ref()"@) && parts(".as_ref()"@),
        tame(".as_ref().and_then(|"@) && parts(".as_ref().and_then(|"@),
        tame("| Some("@) && parts("| Some("@),
        tame(".as_str()))"@) && parts(".as_str()))"@),
        tame("Some(std::mem::take(&mut "@) && parts("Some(std::mem::take(&mut "@),
        tame("))"@) && parts("))"@),
        tame(".as_mut()"@) && parts(".as_mut()"@),
        tame(".take()"@) && parts(".take()"@),
        tame(".unwrap_or_default()"@) && parts(".unwrap_or_default()"@),
        tame("std::mem::take(&mut "@),
        tame(".as_slice())"@) && parts(".as_slice())"@),
        tame(".unwrap_or(&[])"@) && parts(".unwrap_or(&[])"@),
        tame(".as_slice()"@) && parts(".as_slice()"@),
        tame(".get_or_insert_default()"@) && parts(".get_or_insert_default()"@),
        tame(".map(normalize::trim)"@) && parts(".map(normalize::trim)"@),
        tame(".map(normalize::uppercase)"@) && parts(".map(normalize::uppercase)"@),
        tame(".map(normalize::lowercase)"@) && parts(".map(normalize::lowercase)"@),
        tame(".and_then(normalize::empty_as_missing)"@) && parts(".and_then(normalize::empty_as_missing)"@),
        tame(".map(CompactString::from)"@) && parts(".map(CompactString::from)"@),
        tame("Item"@) && parts("Item"@),
{
    assert(tame("compile_error!(\"unresolved source path `"@)) by {
        reveal_strlit("compile_error!(\"unresolved source path `");
        lemma_calm("compile_error!(\"unresolved source path `"@);
    }
    assert(tame("` against `"@) && parts("` against `"@)) by {
        reveal_strlit("` against `");
        lemma_calm("` against `"@);
        lemma_apart("` against `"@);
    }
    assert(tame("` (codegen bug or unvalidated mapping)\")"@) && parts("` (codegen bug or unvalidated mapping)\")"@)) by {
        reveal_strlit("` (codegen bug or unvalidated mapping)\")");
        lemma_calm("` (codegen bug or unvalidated mapping)\")"@);
        lemma_apart("` (codegen bug or unvalidated mapping)\")"@);
    }
    assert(tame("v"@) && parts("v"@)) by {
        reveal_strlit("v");
        lemma_calm("v"@);
        lemma_apart("v"@);
    }
    assert(tame("."@) && parts("."@)) by {
        reveal_strlit(".");
        lemma_calm("."@);
        lemma_apart("."@);
    }
    assert(tame(".and_then(|"@) && parts(".and_then(|"@)) by {
        reveal_strlit(".and_then(|");
        lemma_calm(".and_then(|"@);
        lemma_apart(".and_then(|"@);
    }
    assert(tame("| "@) && parts("| "@)) by {
        reveal_strlit("| ");
        lemma_calm("| "@);
        lemma_apart("| "@);
    }
    assert(tame(")"@) && parts(")"@)) by {
        reveal_strlit(")");
        lemma_calm(")"@);
        lemma_apart(")"@);
    }
    assert(tame("Some("@) && parts("Some("@)) by {
        reveal_strlit("Some(");
        lemma_calm("Some("@);
        lemma_apart("Some("@);
    }
    assert(tame(".as_str())"@) && parts(".as_str())"@)) by {
        reveal_strlit(".as_str())");
        lemma_calm(".as_str())"@);
        lemma_apart(".as_str())"@);
    }
    assert(tame(".as_ref()"@) && parts(".as_ref()"@)) by {
        reveal_strlit(".as_ref()");
        lemma_calm(".as_ref()"@);
        lemma_apart(".as_ref()"@);
    }
    assert(tame(".as_ref().and_then(|"@) && parts(".as_ref().and_then(|"@)) by {
        reveal_strlit(".as_ref().and_then(|");
        lemma_calm(".as_ref().and_then(|"@);
        lemma_apart(".as_ref().and_then(|"@);
    }
    assert(tame("| Some("@) && parts("| Some("@)) by {
        reveal_strlit("| Some(");
        lemma_calm("| Some("@);
        lemma_apart("| Some("@);
    }
    assert(tame(".as_str()))"@) && parts(".as_str()))"@)) by {
        reveal_strlit(".as_str()))");
        lemma_calm(".as_str()))"@);
        lemma_apart(".as_str()))"@);
    }
    assert(tame("Some(std::mem::take(&mut "@) && parts("Some(std::mem::take(&mut "@)) by {
        reveal_strlit("Some(std::mem::take(&mut ");
        lemma_calm("Some(std::mem::take(&mut "@);
        lemma_apart("Some(std::mem::take(&mut "@);
    }
    assert(tame("))"@) && parts("))"@)) by {
        reveal_strlit("))");
        lemma_calm("))"@);
        lemma_apart("))"@);
    }
    assert(tame(".as_mut()"@) && parts(".as_mut()"@)) by {
        reveal_strlit(".as_mut()");
        lemma_calm(".as_mut()"@);
        lemma_apart(".as_mut()"@);
    }
    assert(tame(".take()"@) && parts(".take()"@)) by {
        reveal_strlit(".take()");
        lemma_calm(".take()"@);
        lemma_apart(".take()"@);
    }
    assert(tame(".unwrap_or_default()"@) && parts(".unwrap_or_default()"@)) by {
        reveal_strlit(".unwrap_or_default()");
        lemma_calm(".unwrap_or_default()"@);
        lemma_apart(".unwrap_or_default()"@);
    }
    assert(tame("std::mem::take(&mut "@)) by {
        reveal_strlit("std::mem::take(&mut ");
        lemma_calm("std::mem::take(&mut "@);
    }
    assert(tame(".as_slice())"@) && parts(".as_slice())"@)) by {
        reveal_strlit(".as_slice())");
        lemma_calm(".as_slice())"@);
        lemma_apart(".as_slice())"@);
    }
    assert(tame(".unwrap_or(&[])"@) && parts(".unwrap_or(&[])"@)) by {
        reveal_strlit(".unwrap_or(&[])");
        lemma_calm(".unwrap_or(&[])"@);
        lemma_apart(".unwrap_or(&[])"@);
    }
    assert(tame(".as_slice()"@) && parts(".as_slice()"@)) by {
        reveal_strlit(".as_slice()");
        lemma_calm(".as_slice()"@);
        lemma_apart(".as_slice()"@);
    }
    assert(tame(".get_or_insert_default()"@) && parts(".get_or_insert_default()"@)) by {
        reveal_strlit(".get_or_insert_default()");
        lemma_calm(".get_or_insert_default()"@);
        lemma_apart(".get_or_insert_default()"@);
    }
    assert(tame(".map(normalize::trim)"@) && parts(".map(normalize::trim)"@)) by {
        reveal_strlit(".map(normalize::trim)");
        lemma_calm(".map(normalize::trim)"@);
        lemma_apart(".map(normalize::trim)"@);
    }
    assert(tame(".map(normalize::uppercase)"@) && parts(".map(normalize::uppercase)"@)) by {
        reveal_strlit(".map(normalize::uppercase)");
        lemma_calm(".map(normalize::uppercase)"@);
        lemma_apart(".map(normalize::uppercase)"@);
    }
    assert(tame(".map(normalize::lowercase)"@) && parts(".map(normalize::lowercase)"@)) by {
        reveal_strlit(".map(normalize::lowercase)");
        lemma_calm(".map(normalize::lowercase)"@);
        lemma_apart(".map(normalize::lowercase)"@);
    }
    assert(tame(".and_then(normalize::empty_as_missing)"@) && parts(".and_then(normalize::empty_as_missing)"@)) by {
        reveal_strlit(".and_then(normalize::empty_as_missing)");
        lemma_calm(".and_then(normalize::empty_as_missing)"@);
        lemma_apart(".and_then(normalize::empty_as_missing)"@);
    }
    assert(tame(".map(CompactString::from)"@) && parts(".map(CompactString::from)"@)) by {
        reveal_strlit(".map(CompactString::from)");
        lemma_calm(".map(CompactString::from)"@);
        lemma_apart(".map(CompactString::from)"@);
    }
    assert(tame("Item"@) && parts("Item"@)) by {
        reveal_strlit("Item");
        lemma_calm("Item"@);
        lemma_apart("Item"@);
    }
}

/// The texts that readers and diagnostics are made of hold none of the words.
pub proof fn literals_of_readers()
    ensures
        tame("let mut diag = MappingDiagnostic::new("@),
        tame(", "@) && parts(", "@),
        tame(");\n"@) && parts(");\n"@),
        tame("diag.canonical_key = Some("@) && parts("diag.canonical_key = Some("@),
        tame(".to_string());\n"@) && parts(".to_string());\n"@),
        tame("diag.source_path = Some("@) && parts("diag.source_path = Some("@),
        tame("diag.collection_index = Some("@) && parts("diag.collection_index = Some("@),
        tame("diag.fallback_chain = "@) && parts("diag.fallback_chain = "@),
        tame(";\n"@) && parts(";\n"@),
        tame("diagnostics.push(diag);\n"@) && parts("diagnostics.push(diag);\n"@),
        tame("is_currency"@) && parts("is_currency"@),
        tame("currency code"@),
        tame("is_date"@) && parts("is_date"@),
        tame("date"@) && parts("date"@),
        tame("is_datetime"@) && parts("is_datetime"@),
        tame("date-time"@) && parts("date-time"@),
        tame("is_unit_code"@) && parts("is_unit_code"@),
        tame("unit code"@),
        tame(".to_string()"@) && parts(".to_string()"@),
        tame("item"@) && parts("item"@),
        tame("element"@) && parts("element"@),
        tame("idx"@) && parts("idx"@),
        tame("    "@) && parts("    "@),
        tame("main"@),
        tame("source"@),
        tame("        "@) && parts("        "@),
        tame("match Decimal::from_str(raw.trim()) {\n"@),
        tame("    Ok(d) => "@) && parts("    Ok(d) => "@),
        tame(" = Some(d),\n"@) && parts(" = Some(d),\n"@),
        tame("    Err(_) => {\n"@) && parts("    Err(_) => {\n"@),
        tame("Severity::Error"@) && parts("Severity::Error"@),
        tame("TYPE_INVALID"@) && parts("TYPE_INVALID"@),
        tame("format!(\"`{raw}` is not a valid decimal\")"@),
        tame("    }\n"@) && parts("    }\n"@),
        tame("}\n"@) && parts("}\n"@),
        tame("match raw.trim().parse::<bool>() {\n"@),
        tame("    Ok(b) => "@) && parts("    Ok(b) => "@),
        tame(" = Some(b),\n"@) && parts(" = Some(b),\n"@),
        tame("format!(\"`{raw}` is not a valid boolean\")"@),
        tame("if validate::"@) && parts("if validate::"@),
        tame("(raw.trim()) {\n"@) && parts("(raw.trim()) {\n"@),
        tame(" = Some(raw);\n"@) && parts(" = Some(raw);\n"@),
        tame("} else {\n"@) && parts("} else {\n"@),
        tame("format!(\"`{raw}` is not a valid "@),
        tame("\")"@) && parts("\")"@),
        tame("."@) && parts("."@),
        tame("let adapted = match adapter::"@),
        tame("(&raw) {\n"@) && parts("(&raw) {\n"@),
        tame("    Ok(s) => Some(CompactString::from(s)),\n"@) && parts("    Ok(s) => Some(CompactString::from(s)),\n"@),
        tame("    Err(err) => {\n"@) && parts("    Err(err) => {\n"@),
        tame("ADAPTER_FAILED"@) && parts("ADAPTER_FAILED"@),
        tame("err.to_string()"@) && parts("err.to_string()"@),
        tame("        None\n"@) && parts("        None\n"@),
        tame("};\n"@) && parts("};\n"@),
        tame("if let Some(raw) = adapted {\n"@) && parts("if let Some(raw) = adapted {\n"@),
        tame("Some(s)"@) && parts("Some(s)"@),
        tame("let values: Vec<CompactString> = "@),
        tame(".into_iter().filter_map(|s| "@) && parts(".into_iter().filter_map(|s| "@),
        tame(").collect();\n"@) && parts(").collect();\n"@),
        tame("Some(s.as_str())"@) && parts("Some(s.as_str())"@),
        tame(".iter().filter_map(|s| "@) && parts(".iter().filter_map(|s| "@),
        tame("if values.len() > 1 {\n"@) && parts("if values.len() > 1 {\n"@),
        tame("format!(\"found {} values for single-valued `"@),
        tame("`\", values.len())"@) && parts("`\", values.len())"@),
        tame("MULTIPLE_VALUES"@) && parts("MULTIPLE_VALUES"@),
        tame("let value: Option<CompactString> = if values.len() == 1 { values.into_iter().next() } else { None };\n"@),
        tame("format!(\"using the first of {} values for `"@),
        tame("Severity::Warning"@) && parts("Severity::Warning"@),
        tame("let value: Option<CompactString> = values.into_iter().next();\n"@),
        tame("let value: Option<CompactString> = if values.is_empty() { None } else { Some(values.join("@),
        tame(").into()) };\n"@) && parts(").into()) };\n"@),
        tame("if value.is_none() {\n"@) && parts("if value.is_none() {\n"@),
        tame("    value = "@) && parts("    value = "@),
        tame("    if value.is_some() {\n"@) && parts("    if value.is_some() {\n"@),
        tame("format!(\"used fallback `"@),
        tame("` for `"@) && parts("` for `"@),
        tame("`\")"@) && parts("`\")"@),
        tame("Severity::Info"@) && parts("Severity::Info"@),
        tame("FALLBACK_USED"@) && parts("FALLBACK_USED"@),
        tame("// "@) && parts("// "@),
        tame(" -> "@) && parts(" -> "@),
        tame(" (multiple)\n"@) && parts(" (multiple)\n"@),
        tame("\n"@) && parts("\n"@),
        tame("let value: Option<CompactString> = "@),
        tame("let mut value: Option<CompactString> = "@),
        tame("vec!["@) && parts("vec!["@),
        tame("]"@) && parts("]"@),
        tame("if let Some(raw) = value {\n"@) && parts("if let Some(raw) = value {\n"@),
        tame("REQUIRED_MISSING"@) && parts("REQUIRED_MISSING"@),
        tame("\"required value is missing\""@) && parts("\"required value is missing\""@),
        tame("            "@) && parts("            "@),
        tame(": copy of "@) && parts(": copy of "@),
        tame(", consistency check\n"@) && parts(", consistency check\n"@),
        tame("{\n"@) && parts("{\n"@),
        tame("    let mut clone_value = None;\n"@) && parts("    let mut clone_value = None;\n"@),
        tame("clone_value"@),
        tame("    if let Some(found) = clone_value {\n"@) && parts("    if let Some(found) = clone_value {\n"@),
        tame("        if "@) && parts("        if "@),
        tame(".as_ref() != Some(&found) {\n"@) && parts(".as_ref() != Some(&found) {\n"@),
        tame("format!(\"copy value `{found}` does not match the canonical `"@),
        tame("` value\")"@) && parts("` value\")"@),
        tame("CLONE_MISMATCH"@) && parts("CLONE_MISMATCH"@),
        tame("        }\n"@) && parts("        }\n"@),
        tame("count"@),
        tame("elements"@) && parts("elements"@),
        tame(" (collection)\n"@) && parts(" (collection)\n"@),
        tame("let "@),
        tame(" = "@) && parts(" = "@),
        tame(".len();\n"@) && parts(".len();\n"@),
        tame(".reserve("@) && parts(".reserve("@),
        tame("for ("@),
        tame(", mut "@) && parts(", mut "@),
        tame(") in "@) && parts(") in "@),
        tame(".into_iter().enumerate() {\n"@) && parts(".into_iter().enumerate() {\n"@),
        tame(".iter().enumerate() {\n"@) && parts(".iter().enumerate() {\n"@),
        tame("let mut "@),
        tame("::default();\n"@) && parts("::default();\n"@),
        tame(".push("@) && parts(".push("@),
        tame("if "@) && parts("if "@),
        tame(" < "@) && parts(" < "@),
        tame(" {\n"@) && parts(" {\n"@),
        tame("format!(\"collection `"@),
        tame("` has {"@) && parts("` has {"@),
        tame("} items, expected at least "@) && parts("} items, expected at least "@),
        tame("MIN_ITEMS"@) && parts("MIN_ITEMS"@),
        tame("/// Reads the typed source document into the canonical hub, consuming it\n"@) && parts("/// Reads the typed source document into the canonical hub, consuming it\n"@),
        tame("/// so uniquely-read values move instead of clone.\n"@) && parts("/// so uniquely-read values move instead of clone.\n"@),
        tame("pub fn read(mut source: "@) && parts("pub fn read(mut source: "@),
        tame(") -> MappingResult<MainKey> {\n"@) && parts(") -> MappingResult<MainKey> {\n"@),
        tame("    let mut diagnostics: Vec<MappingDiagnostic> = Vec::new();\n"@) && parts("    let mut diagnostics: Vec<MappingDiagnostic> = Vec::new();\n"@),
        tame("    let mut main = MainKey::default();\n"@) && parts("    let mut main = MainKey::default();\n"@),
        tame("    MappingResult::new(Some(main), diagnostics)\n"@) && parts("    MappingResult::new(Some(main), diagnostics)\n"@),
{
    assert(tame("let mut diag = MappingDiagnostic::new("@)) by {
        reveal_strlit("let mut diag = MappingDiagnostic::new(");
        lemma_calm("let mut diag = MappingDiagnostic::new("@);
    }
    assert(tame(", "@) && parts(", "@)) by {
        reveal_strlit(", ");
        lemma_calm(", "@);
        lemma_apart(", "@);
    }
    assert(tame(");\n"@) && parts(");\n"@)) by {
        reveal_strlit(");\n");
        lemma_calm(");\n"@);
        lemma_apart(");\n"@);
    }
    assert(tame("diag.canonical_key = Some("@) && parts("diag.canonical_key = Some("@)) by {
        reveal_strlit("diag.canonical_key = Some(");
        lemma_calm("diag.canonical_key = Some("@);
        lemma_apart("diag.canonical_key = Some("@);
    }
    assert(tame(".to_string());\n"@) && parts(".to_string());\n"@)) by {
        reveal_strlit(".to_string());\n");
        lemma_calm(".to_string());\n"@);
        lemma_apart(".to_string());\n"@);
    }
    assert(tame("diag.source_path = Some("@) && parts("diag.source_path = Some("@)) by {
        reveal_strlit("diag.source_path = Some(");
        lemma_calm("diag.source_path = Some("@);
        lemma_apart("diag.source_path = Some("@);
    }
    assert(tame("diag.collection_index = Some("@) && parts("diag.collection_index = Some("@)) by {
        reveal_strlit("diag.collection_index = Some(");
        lemma_calm("diag.collection_index = Some("@);
        lemma_apart("diag.collection_index = Some("@);
    }
    assert(tame("diag.fallback_chain = "@) && parts("diag.fallback_chain = "@)) by {
        reveal_strlit("diag.fallback_chain = ");
        lemma_calm("diag.fallback_chain = "@);
        lemma_apart("diag.fallback_chain = "@);
    }
    assert(tame(";\n"@) && parts(";\n"@)) by {
        reveal_strlit(";\n");
        lemma_calm(";\n"@);
        lemma_apart(";\n"@);
    }
    assert(tame("diagnostics.push(diag);\n"@) && parts("diagnostics.push(diag);\n"@)) by {
        reveal_strlit("diagnostics.push(diag);\n");
        lemma_calm("diagnostics.push(diag);\n"@);
        lemma_apart("diagnostics.push(diag);\n"@);
    }
    assert(tame("is_currency"@) && parts("is_currency"@)) by {
        reveal_strlit("is_currency");
        lemma_calm("is_currency"@);
        lemma_apart("is_currency"@);
    }
    assert(tame("currency code"@)) by {
        reveal_strlit("currency code");
        lemma_calm("currency code"@);
    }
    assert(tame("is_date"@) && parts("is_date"@)) by {
        reveal_strlit("is_date");
        lemma_calm("is_date"@);
        lemma_apart("is_date"@);
    }
    assert(tame("date"@) && parts("date"@)) by {
        reveal_strlit("date");
        lemma_calm("date"@);
        lemma_apart("date"@);
    }
    assert(tame("is_datetime"@) && parts("is_datetime"@)) by {
        reveal_strlit("is_datetime");
        lemma_calm("is_datetime"@);
        lemma_apart("is_datetime"@);
    }
    assert(tame("date-time"@) && parts("date-time"@)) by {
        reveal_strlit("date-time");
        lemma_calm("date-time"@);
        lemma_apart("date-time"@);
    }
    assert(tame("is_unit_code"@) && parts("is_unit_code"@)) by {
        reveal_strlit("is_unit_code");
        lemma_calm("is_unit_code"@);
        lemma_apart("is_unit_code"@);
    }
    assert(tame("unit code"@)) by {
        reveal_strlit("unit code");
        lemma_calm("unit code"@);
    }
    assert(tame(".to_string()"@) && parts(".to_string()"@)) by {
        reveal_strlit(".to_string()");
        lemma_calm(".to_string()"@);
        lemma_apart(".to_string()"@);
    }
    assert(tame("item"@) && parts("item"@)) by {
        reveal_strlit("item");
        lemma_calm("item"@);
        lemma_apart("item"@);
    }
    assert(tame("element"@) && parts("element"@)) by {
        reveal_strlit("element");
        lemma_calm("element"@);
        lemma_apart("element"@);
    }
    assert(tame("idx"@) && parts("idx"@)) by {
        reveal_strlit("idx");
        lemma_calm("idx"@);
        lemma_apart("idx"@);
    }
    assert(tame("    "@) && parts("    "@)) by {
        reveal_strlit("    ");
        lemma_calm("    "@);
        lemma_apart("    "@);
    }
    assert(tame("main"@)) by {
        reveal_strlit("main");
        lemma_calm("main"@);
    }
    assert(tame("source"@)) by {
        reveal_strlit("source");
        lemma_calm("source"@);
    }
    assert(tame("        "@) && parts("        "@)) by {
        reveal_strlit("        ");
        lemma_calm("        "@);
        lemma_apart("        "@);
    }
    assert(tame("match Decimal::from_str(raw.trim()) {\n"@)) by {
        reveal_strlit("match Decimal::from_str(raw.trim()) {\n");
        lemma_calm("match Decimal::from_str(raw.trim()) {\n"@);
    }
    assert(tame("    Ok(d) => "@) && parts("    Ok(d) => "@)) by {
        reveal_strlit("    Ok(d) => ");
        lemma_calm("    Ok(d) => "@);
        lemma_apart("    Ok(d) => "@);
    }
    assert(tame(" = Some(d),\n"@) && parts(" = Some(d),\n"@)) by {
        reveal_strlit(" = Some(d),\n");
        lemma_calm(" = Some(d),\n"@);
        lemma_apart(" = Some(d),\n"@);
    }
    assert(tame("    Err(_) => {\n"@) && parts("    Err(_) => {\n"@)) by {
        reveal_strlit("    Err(_) => {\n");
        lemma_calm("    Err(_) => {\n"@);
        lemma_apart("    Err(_) => {\n"@);
    }
    assert(tame("Severity::Error"@) && parts("Severity::Error"@)) by {
        reveal_strlit("Severity::Error");
        lemma_calm("Severity::Error"@);
        lemma_apart("Severity::Error"@);
    }
    assert(tame("TYPE_INVALID"@) && parts("TYPE_INVALID"@)) by {
        reveal_strlit("TYPE_INVALID");
        lemma_calm("TYPE_INVALID"@);
        lemma_apart("TYPE_INVALID"@);
    }
    assert(tame("format!(\"`{raw}` is not a valid decimal\")"@)) by {
        reveal_strlit("format!(\"`{raw}` is not a valid decimal\")");
        lemma_calm("format!(\"`{raw}` is not a valid decimal\")"@);
    }
    assert(tame("    }\n"@) && parts("    }\n"@)) by {
        reveal_strlit("    }\n");
        lemma_calm("    }\n"@);
        lemma_apart("    }\n"@);
    }
    assert(tame("}\n"@) && parts("}\n"@)) by {
        reveal_strlit("}\n");
        lemma_calm("}\n"@);
        lemma_apart("}\n"@);
    }
    assert(tame("match raw.trim().parse::<bool>() {\n"@)) by {
        reveal_strlit("match raw.trim().parse::<bool>() {\n");
        lemma_calm("match raw.trim().parse::<bool>() {\n"@);
    }
    assert(tame("    Ok(b) => "@) && parts("    Ok(b) => "@)) by {
        reveal_strlit("    Ok(b) => ");
        lemma_calm("    Ok(b) => "@);
        lemma_apart("    Ok(b) => "@);
    }
    assert(tame(" = Some(b),\n"@) && parts(" = Some(b),\n"@)) by {
        reveal_strlit(" = Some(b),\n");
        lemma_calm(" = Some(b),\n"@);
        lemma_apart(" = Some(b),\n"@);
    }
    assert(tame("format!(\"`{raw}` is not a valid boolean\")"@)) by {
        reveal_strlit("format!(\"`{raw}` is not a valid boolean\")");
        lemma_calm("format!(\"`{raw}` is not a valid boolean\")"@);
    }
    assert(tame("if validate::"@) && parts("if validate::"@)) by {
        reveal_strlit("if validate::");
        lemma_calm("if validate::"@);
        lemma_apart("if validate::"@);
    }
    assert(tame("(raw.trim()) {\n"@) && parts("(raw.trim()) {\n"@)) by {
        reveal_strlit("(raw.trim()) {\n");
        lemma_calm("(raw.trim()) {\n"@);
        lemma_apart("(raw.trim()) {\n"@);
    }
    assert(tame(" = Some(raw);\n"@) && parts(" = Some(raw);\n"@)) by {
        reveal_strlit(" = Some(raw);\n");
        lemma_calm(" = Some(raw);\n"@);
        lemma_apart(" = Some(raw);\n"@);
    }
    assert(tame("} else {\n"@) && parts("} else {\n"@)) by {
        reveal_strlit("} else {\n");
        lemma_calm("} else {\n"@);
        lemma_apart("} else {\n"@);
    }
    assert(tame("format!(\"`{raw}` is not a valid "@)) by {
        reveal_strlit("format!(\"`{raw}` is not a valid ");
        lemma_calm("format!(\"`{raw}` is not a valid "@);
    }
    assert(tame("\")"@) && parts("\")"@)) by {
        reveal_strlit("\")");
        lemma_calm("\")"@);
        lemma_apart("\")"@);
    }
    assert(tame("."@) && parts("."@)) by {
        reveal_strlit(".");
        lemma_calm("."@);
        lemma_apart("."@);
    }
    assert(tame("let adapted = match adapter::"@)) by {
        reveal_strlit("let adapted = match adapter::");
        lemma_calm("let adapted = match adapter::"@);
    }
    assert(tame("(&raw) {\n"@) && parts("(&raw) {\n"@)) by {
        reveal_strlit("(&raw) {\n");
        lemma_calm("(&raw) {\n"@);
        lemma_apart("(&raw) {\n"@);
    }
    assert(tame("    Ok(s) => Some(CompactString::from(s)),\n"@) && parts("    Ok(s) => Some(CompactString::from(s)),\n"@)) by {
        reveal_strlit("    Ok(s) => Some(CompactString::from(s)),\n");
        lemma_calm("    Ok(s) => Some(CompactString::from(s)),\n"@);
        lemma_apart("    Ok(s) => Some(CompactString::from(s)),\n"@);
    }
    assert(tame("    Err(err) => {\n"@) && parts("    Err(err) => {\n"@)) by {
        reveal_strlit("    Err(err) => {\n");
        lemma_calm("    Err(err) => {\n"@);
        lemma_apart("    Err(err) => {\n"@);
    }
    assert(tame("ADAPTER_FAILED"@) && parts("ADAPTER_FAILED"@)) by {
        reveal_strlit("ADAPTER_FAILED");
        lemma_calm("ADAPTER_FAILED"@);
        lemma_apart("ADAPTER_FAILED"@);
    }
    assert(tame("err.to_string()"@) && parts("err.to_string()"@)) by {
        reveal_strlit("err.to_string()");
        lemma_calm("err.to_string()"@);
        lemma_apart("err.to_string()"@);
    }
    assert(tame("        None\n"@) && parts("        None\n"@)) by {
        reveal_strlit("        None\n");
        lemma_calm("        None\n"@);
        lemma_apart("        None\n"@);
    }
    assert(tame("};\n"@) && parts("};\n"@)) by {
        reveal_strlit("};\n");
        lemma_calm("};\n"@);
        lemma_apart("};\n"@);
    }
    assert(tame("if let Some(raw) = adapted {\n"@) && parts("if let Some(raw) = adapted {\n"@)) by {
        reveal_strlit("if let Some(raw) = adapted {\n");
        lemma_calm("if let Some(raw) = adapted {\n"@);
        lemma_apart("if let Some(raw) = adapted {\n"@);
    }
    assert(tame("Some(s)"@) && parts("Some(s)"@)) by {
        reveal_strlit("Some(s)");
        lemma_calm("Some(s)"@);
        lemma_apart("Some(s)"@);
    }
    assert(tame("let values: Vec<CompactString> = "@)) by {
        reveal_strlit("let values: Vec<CompactString> = ");
        lemma_calm("let values: Vec<CompactString> = "@);
    }
    assert(tame(".into_iter().filter_map(|s| "@) && parts(".into_iter().filter_map(|s| "@)) by {
        reveal_strlit(".into_iter().filter_map(|s| ");
        lemma_calm(".into_iter().filter_map(|s| "@);
        lemma_apart(".into_iter().filter_map(|s| "@);
    }
    assert(tame(").collect();\n"@) && parts(").collect();\n"@)) by {
        reveal_strlit(").collect();\n");
        lemma_calm(").collect();\n"@);
        lemma_apart(").collect();\n"@);
    }
    assert(tame("Some(s.as_str())"@) && parts("Some(s.as_str())"@)) by {
        reveal_strlit("Some(s.as_str())");
        lemma_calm("Some(s.as_str())"@);
        lemma_apart("Some(s.as_str())"@);
    }
    assert(tame(".iter().filter_map(|s| "@) && parts(".iter().filter_map(|s| "@)) by {
        reveal_strlit(".iter().filter_map(|s| ");
        lemma_calm(".iter().filter_map(|s| "@);
        lemma_apart(".iter().filter_map(|s| "@);
    }
    assert(tame("if values.len() > 1 {\n"@) && parts("if values.len() > 1 {\n"@)) by {
        reveal_strlit("if values.len() > 1 {\n");
        lemma_calm("if values.len() > 1 {\n"@);
        lemma_apart("if values.len() > 1 {\n"@);
    }
    assert(tame("format!(\"found {} values for single-valued `"@)) by {
        reveal_strlit("format!(\"found {} values for single-valued `");
        lemma_calm("format!(\"found {} values for single-valued `"@);
    }
    assert(tame("`\", values.len())"@) && parts("`\", values.len())"@)) by {
        reveal_strlit("`\", values.len())");
        lemma_calm("`\", values.len())"@);
        lemma_apart("`\", values.len())"@);
    }
    assert(tame("MULTIPLE_VALUES"@) && parts("MULTIPLE_VALUES"@)) by {
        reveal_strlit("MULTIPLE_VALUES");
        lemma_calm("MULTIPLE_VALUES"@);
        lemma_apart("MULTIPLE_VALUES"@);
    }
    assert(tame("let value: Option<CompactString> = if values.len() == 1 { values.into_iter().next() } else { None };\n"@)) by {
        reveal_strlit("let value: Option<CompactString> = if values.len() == 1 { values.into_iter().next() } else { None };\n");
        lemma_calm("let value: Option<CompactString> = if values.len() == 1 { values.into_iter().next() } else { None };\n"@);
    }
    assert(tame("format!(\"using the first of {} values for `"@)) by {
        reveal_strlit("format!(\"using the first of {} values for `");
        lemma_calm("format!(\"using the first of {} values for `"@);
    }
    assert(tame("Severity::Warning"@) && parts("Severity::Warning"@)) by {
        reveal_strlit("Severity::Warning");
        lemma_calm("Severity::Warning"@);
        lemma_apart("Severity::Warning"@);
    }
    assert(tame("let value: Option<CompactString> = values.into_iter().next();\n"@)) by {
        reveal_strlit("let value: Option<CompactString> = values.into_iter().next();\n");
        lemma_calm("let value: Option<CompactString> = values.into_iter().next();\n"@);
    }
    assert(tame("let value: Option<CompactString> = if values.is_empty() { None } else { Some(values.join("@)) by {
        reveal_strlit("let value: Option<CompactString> = if values.is_empty() { None } else { Some(values.join(");
        lemma_calm("let value: Option<CompactString> = if values.is_empty() { None } else { Some(values.join("@);
    }
    assert(tame(").into()) };\n"@) && parts(").into()) };\n"@)) by {
        reveal_strlit(").into()) };\n");
        lemma_calm(").into()) };\n"@);
        lemma_apart(").into()) };\n"@);
    }
    assert(tame("if value.is_none() {\n"@) && parts("if value.is_none() {\n"@)) by {
        reveal_strlit("if value.is_none() {\n");
        lemma_calm("if value.is_none() {\n"@);
        lemma_apart("if value.is_none() {\n"@);
    }
    assert(tame("    value = "@) && parts("    value = "@)) by {
        reveal_strlit("    value = ");
        lemma_calm("    value = "@);
        lemma_apart("    value = "@);
    }
    assert(tame("    if value.is_some() {\n"@) && parts("    if value.is_some() {\n"@)) by {
        reveal_strlit("    if value.is_some() {\n");
        lemma_calm("    if value.is_some() {\n"@);
        lemma_apart("    if value.is_some() {\n"@);
    }
    assert(tame("format!(\"used fallback `"@)) by {
        reveal_strlit("format!(\"used fallback `");
        lemma_calm("format!(\"used fallback `"@);
    }
    assert(tame("` for `"@) && parts("` for `"@)) by {
        reveal_strlit("` for `");
        lemma_calm("` for `"@);
        lemma_apart("` for `"@);
    }
    assert(tame("`\")"@) && parts("`\")"@)) by {
        reveal_strlit("`\")");
        lemma_calm("`\")"@);
        lemma_apart("`\")"@);
    }
    assert(tame("Severity::Info"@) && parts("Severity::Info"@)) by {
        reveal_strlit("Severity::Info");
        lemma_calm("Severity::Info"@);
        lemma_apart("Severity::Info"@);
    }
    assert(tame("FALLBACK_USED"@) && parts("FALLBACK_USED"@)) by {
        reveal_strlit("FALLBACK_USED");
        lemma_calm("FALLBACK_USED"@);
        lemma_apart("FALLBACK_USED"@);
    }
    assert(tame("// "@) && parts("// "@)) by {
        reveal_strlit("// ");
        lemma_calm("// "@);
        lemma_apart("// "@);
    }
    assert(tame(" -> "@) && parts(" -> "@)) by {
        reveal_strlit(" -> ");
        lemma_calm(" -> "@);
        lemma_apart(" -> "@);
    }
    assert(tame(" (multiple)\n"@) && parts(" (multiple)\n"@)) by {
        reveal_strlit(" (multiple)\n");
        lemma_calm(" (multiple)\n"@);
        lemma_apart(" (multiple)\n"@);
    }
    assert(tame("\n"@) && parts("\n"@)) by {
        reveal_strlit("\n");
        lemma_calm("\n"@);
        lemma_apart("\n"@);
    }
    assert(tame("let value: Option<CompactString> = "@)) by {
        reveal_strlit("let value: Option<CompactString> = ");
        lemma_calm("let value: Option<CompactString> = "@);
    }
    assert(tame("let mut value: Option<CompactString> = "@)) by {
        reveal_strlit("let mut value: Option<CompactString> = ");
        lemma_calm("let mut value: Option<CompactString> = "@);
    }
    assert(tame("vec!["@) && parts("vec!["@)) by {
        reveal_strlit("vec![");
        lemma_calm("vec!["@);
        lemma_apart("vec!["@);
    }
    assert(tame("]"@) && parts("]"@)) by {
        reveal_strlit("]");
        lemma_calm("]"@);
        lemma_apart("]"@);
    }
    assert(tame("if let Some(raw) = value {\n"@) && parts("if let Some(raw) = value {\n"@)) by {
        reveal_strlit("if let Some(raw) = value {\n");
        lemma_calm("if let Some(raw) = value {\n"@);
        lemma_apart("if let Some(raw) = value {\n"@);
    }
    assert(tame("REQUIRED_MISSING"@) && parts("REQUIRED_MISSING"@)) by {
        reveal_strlit("REQUIRED_MISSING");
        lemma_calm("REQUIRED_MISSING"@);
        lemma_apart("REQUIRED_MISSING"@);
    }
    assert(tame("\"required value is missing\""@) && parts("\"required value is missing\""@)) by {
        reveal_strlit("\"required value is missing\"");
        lemma_calm("\"required value is missing\""@);
        lemma_apart("\"required value is missing\""@);
    }
    assert(tame("            "@) && parts("            "@)) by {
        reveal_strlit("            ");
        lemma_calm("            "@);
        lemma_apart("            "@);
    }
    assert(tame(": copy of "@) && parts(": copy of "@)) by {
        reveal_strlit(": copy of ");
        lemma_calm(": copy of "@);
        lemma_apart(": copy of "@);
    }
    assert(tame(", consistency check\n"@) && parts(", consistency check\n"@)) by {
        reveal_strlit(", consistency check\n");
        lemma_calm(", consistency check\n"@);
        lemma_apart(", consistency check\n"@);
    }
    assert(tame("{\n"@) && parts("{\n"@)) by {
        reveal_strlit("{\n");
        lemma_calm("{\n"@);
        lemma_apart("{\n"@);
    }
    assert(tame("    let mut clone_value = None;\n"@) && parts("    let mut clone_value = None;\n"@)) by {
        reveal_strlit("    let mut clone_value = None;\n");
        lemma_calm("    let mut clone_value = None;\n"@);
        lemma_apart("    let mut clone_value = None;\n"@);
    }
    assert(tame("clone_value"@)) by {
        reveal_strlit("clone_value");
        lemma_calm("clone_value"@);
    }
    assert(tame("    if let Some(found) = clone_value {\n"@) && parts("    if let Some(found) = clone_value {\n"@)) by {
        reveal_strlit("    if let Some(found) = clone_value {\n");
        lemma_calm("    if let Some(found) = clone_value {\n"@);
        lemma_apart("    if let Some(found) = clone_value {\n"@);
    }
    assert(tame("        if "@) && parts("        if "@)) by {
        reveal_strlit("        if ");
        lemma_calm("        if "@);
        lemma_apart("        if "@);
    }
    assert(tame(".as_ref() != Some(&found) {\n"@) && parts(".as_ref() != Some(&found) {\n"@)) by {
        reveal_strlit(".as_ref() != Some(&found) {\n");
        lemma_calm(".as_ref() != Some(&found) {\n"@);
        lemma_apart(".as_ref() != Some(&found) {\n"@);
    }
    assert(tame("format!(\"copy value `{found}` does not match the canonical `"@)) by {
        reveal_strlit("format!(\"copy value `{found}` does not match the canonical `");
        lemma_calm("format!(\"copy value `{found}` does not match the canonical `"@);
    }
    assert(tame("` value\")"@) && parts("` value\")"@)) by {
        reveal_strlit("` value\")");
        lemma_calm("` value\")"@);
        lemma_apart("` value\")"@);
    }
    assert(tame("CLONE_MISMATCH"@) && parts("CLONE_MISMATCH"@)) by {
        reveal_strlit("CLONE_MISMATCH");
        lemma_calm("CLONE_MISMATCH"@);
        lemma_apart("CLONE_MISMATCH"@);
    }
    assert(tame("        }\n"@) && parts("        }\n"@)) by {
        reveal_strlit("        }\n");
        lemma_calm("        }\n"@);
        lemma_apart("        }\n"@);
    }
    assert(tame("count"@)) by {
        reveal_strlit("count");
        lemma_calm("count"@);
    }
    assert(tame("elements"@) && parts("elements"@)) by {
        reveal_strlit("elements");
        lemma_calm("elements"@);
        lemma_apart("elements"@);
    }
    assert(tame(" (collection)\n"@) && parts(" (collection)\n"@)) by {
        reveal_strlit(" (collection)\n");
        lemma_calm(" (collection)\n"@);
        lemma_apart(" (collection)\n"@);
    }
    assert(tame("let "@)) by {
        reveal_strlit("let ");
        lemma_calm("let "@);
    }
    assert(tame(" = "@) && parts(" = "@)) by {
        reveal_strlit(" = ");
        lemma_calm(" = "@);
        lemma_apart(" = "@);
    }
    assert(tame(".len();\n"@) && parts(".len();\n"@)) by {
        reveal_strlit(".len();\n");
        lemma_calm(".len();\n"@);
        lemma_apart(".len();\n"@);
    }
    assert(tame(".reserve("@) && parts(".reserve("@)) by {
        reveal_strlit(".reserve(");
        lemma_calm(".reserve("@);
        lemma_apart(".reserve("@);
    }
    assert(tame("for ("@)) by {
        reveal_strlit("for (");
        lemma_calm("for ("@);
    }
    assert(tame(", mut "@) && parts(", mut "@)) by {
        reveal_strlit(", mut ");
        lemma_calm(", mut "@);
        lemma_apart(", mut "@);
    }
    assert(tame(") in "@) && parts(") in "@)) by {
        reveal_strlit(") in ");
        lemma_calm(") in "@);
        lemma_apart(") in "@);
    }
    assert(tame(".into_iter().enumerate() {\n"@) && parts(".into_iter().enumerate() {\n"@)) by {
        reveal_strlit(".into_iter().enumerate() {\n");
        lemma_calm(".into_iter().enumerate() {\n"@);
        lemma_apart(".into_iter().enumerate() {\n"@);
    }
    assert(tame(".iter().enumerate() {\n"@) && parts(".iter().enumerate() {\n"@)) by {
        reveal_strlit(".iter().enumerate() {\n");
        lemma_calm(".iter().enumerate() {\n"@);
        lemma_apart(".iter().enumerate() {\n"@);
    }
    assert(tame("let mut "@)) by {
        reveal_strlit("let mut ");
        lemma_calm("let mut "@);
    }
    assert(tame("::default();\n"@) && parts("::default();\n"@)) by {
        reveal_strlit("::default();\n");
        lemma_calm("::default();\n"@);
        lemma_apart("::default();\n"@);
    }
    assert(tame(".push("@) && parts(".push("@)) by {
        reveal_strlit(".push(");
        lemma_calm(".push("@);
        lemma_apart(".push("@);
    }
    assert(tame("if "@) && parts("if "@)) by {
        reveal_strlit("if ");
        lemma_calm("if "@);
        lemma_apart("if "@);
    }
    assert(tame(" < "@) && parts(" < "@)) by {
        reveal_strlit(" < ");
        lemma_calm(" < "@);
        lemma_apart(" < "@);
    }
    assert(tame(" {\n"@) && parts(" {\n"@)) by {
        reveal_strlit(" {\n");
        lemma_calm(" {\n"@);
        lemma_apart(" {\n"@);
    }
    assert(tame("format!(\"collection `"@)) by {
        reveal_strlit("format!(\"collection `");
        lemma_calm("format!(\"collection `"@);
    }
    assert(tame("` has {"@) && parts("` has {"@)) by {
        reveal_strlit("` has {");
        lemma_calm("` has {"@);
        lemma_apart("` has {"@);
    }
    assert(tame("} items, expected at least "@) && parts("} items, expected at least "@)) by {
        reveal_strlit("} items, expected at least ");
        lemma_calm("} items, expected at least "@);
        lemma_apart("} items, expected at least "@);
    }
    assert(tame("MIN_ITEMS"@) && parts("MIN_ITEMS"@)) by {
        reveal_strlit("MIN_ITEMS");
        lemma_calm("MIN_ITEMS"@);
        lemma_apart("MIN_ITEMS"@);
    }
    assert(tame("/// Reads the typed source document into the canonical hub, consuming it\n"@) && parts("/// Reads the typed source document into the canonical hub, consuming it\n"@)) by {
        reveal_strlit("/// Reads the typed source document into the canonical hub, consuming it\n");
        lemma_calm("/// Reads the typed source document into the canonical hub, consuming it\n"@);
        lemma_apart("/// Reads the typed source document into the canonical hub, consuming it\n"@);
    }
    assert(tame("/// so uniquely-read values move instead of clone.\n"@) && parts("/// so uniquely-read values move instead of clone.\n"@)) by {
        reveal_strlit("/// so uniquely-read values move instead of clone.\n");
        lemma_calm("/// so uniquely-read values move instead of clone.\n"@);
        lemma_apart("/// so uniquely-read values move instead of clone.\n"@);
    }
    assert(tame("pub fn read(mut source: "@) && parts("pub fn read(mut source: "@)) by {
        reveal_strlit("pub fn read(mut source: ");
        lemma_calm("pub fn read(mut source: "@);
        lemma_apart("pub fn read(mut source: "@);
    }
    assert(tame(") -> MappingResult<MainKey> {\n"@) && parts(") -> MappingResult<MainKey> {\n"@)) by {
        reveal_strlit(") -> MappingResult<MainKey> {\n");
        lemma_calm(") -> MappingResult<MainKey> {\n"@);
        lemma_apart(") -> MappingResult<MainKey> {\n"@);
    }
    assert(tame("    let mut diagnostics: Vec<MappingDiagnostic> = Vec::new();\n"@) && parts("    let mut diagnostics: Vec<MappingDiagnostic> = Vec::new();\n"@)) by {
        reveal_strlit("    let mut diagnostics: Vec<MappingDiagnostic> = Vec::new();\n");
        lemma_calm("    let mut diagnostics: Vec<MappingDiagnostic> = Vec::new();\n"@);
        lemma_apart("    let mut diagnostics: Vec<MappingDiagnostic> = Vec::new();\n"@);
    }
    assert(tame("    let mut main = MainKey::default();\n"@) && parts("    let mut main = MainKey::default();\n"@)) by {
        reveal_strlit("    let mut main = MainKey::default();\n");
        lemma_calm("    let mut main = MainKey::default();\n"@);
        lemma_apart("    let mut main = MainKey::default();\n"@);
    }
    assert(tame("    MappingResult::new(Some(main), diagnostics)\n"@) && parts("    MappingResult::new(Some(main), diagnostics)\n"@)) by {
        reveal_strlit("    MappingResult::new(Some(main), diagnostics)\n");
        lemma_calm("    MappingResult::new(Some(main), diagnostics)\n"@);
        lemma_apart("    MappingResult::new(Some(main), diagnostics)\n"@);
    }
}

/// The texts that writers are made of hold none of the words.
pub proof fn literals_of_writers()
    ensures
        tame("value.to_compact_string()"@) && parts("value.to_compact_string()"@),
        tame("value"@) && parts("value"@),
        tame("value.clone()"@) && parts("value.clone()"@),
        tame("hub_item"@) && parts("hub_item"@),
        tame("element"@) && parts("element"@),
        tame("idx"@) && parts("idx"@),
        tame("    "@) && parts("    "@),
        tame("main"@),
        tame("source"@),
        tame("CompactString::from("@) && parts("CompactString::from("@),
        tame(")"@) && parts(")"@),
        tame("// constant -> "@) && parts("// constant -> "@),
        tame("\n"@) && parts("\n"@),
        tame(" = Some("@) && parts(" = Some("@),
        tame(");\n"@) && parts(");\n"@),
        tame(" = "@) && parts(" = "@),
        tame(";\n"@) && parts(";\n"@),
        tame("Severity::Error"@) && parts("Severity::Error"@),
        tame("REQUIRED_MISSING"@) && parts("REQUIRED_MISSING"@),
        tame("\"required value is missing\""@) && parts("\"required value is missing\""@),
        tame("        "@) && parts("        "@),
        tame("// "@) && parts("// "@),
        tame(" -> "@) && parts(" -> "@),
        tame("if let Some(value) = "@) && parts("if let Some(value) = "@),
        tame("."@) && parts("."@),
        tame(".take() {\n"@) && parts(".take() {\n"@),
        tame("if let Some(value) = &"@) && parts("if let Some(value) = &"@),
        tame(" {\n"@) && parts(" {\n"@),
        tame("    let rendered = "@) && parts("    let rendered = "@),
        tame("    if !rendered.is_empty() {\n"@) && parts("    if !rendered.is_empty() {\n"@),
        tame(".push(rendered);\n"@) && parts(".push(rendered);\n"@),
        tame(" = Some(rendered);\n"@) && parts(" = Some(rendered);\n"@),
        tame(" = rendered;\n"@) && parts(" = rendered;\n"@),
        tame("    } else {\n"@) && parts("    } else {\n"@),
        tame("    }\n"@) && parts("    }\n"@),
        tame("} else {\n"@) && parts("} else {\n"@),
        tame("}\n"@) && parts("}\n"@),
        tame("written_count"@) && parts("written_count"@),
        tame(" (collection)\n"@) && parts(" (collection)\n"@),
        tame("let mut "@),
        tame(" = 0usize;\n"@) && parts(" = 0usize;\n"@),
        tame("hub_items"@) && parts("hub_items"@),
        tame("let "@),
        tame(" = std::mem::take(&mut "@) && parts(" = std::mem::take(&mut "@),
        tame("if !"@) && parts("if !"@),
        tame(".is_empty() {\n"@) && parts(".is_empty() {\n"@),
        tame(".reserve("@) && parts(".reserve("@),
        tame(".len());\n"@) && parts(".len());\n"@),
        tame("for ("@),
        tame(", mut "@) && parts(", mut "@),
        tame(") in "@) && parts(") in "@),
        tame(".into_iter().enumerate() {\n"@) && parts(".into_iter().enumerate() {\n"@),
        tame(".len()"@) && parts(".len()"@),
        tame("if "@) && parts("if "@),
        tame(" > 0 {\n"@) && parts(" > 0 {\n"@),
        tame(", "@) && parts(", "@),
        tame(".iter().enumerate() {\n"@) && parts(".iter().enumerate() {\n"@),
        tame("::default();\n"@) && parts("::default();\n"@),
        tame(".push("@) && parts(".push("@),
        tame(" += 1;\n"@) && parts(" += 1;\n"@),
        tame(" < "@) && parts(" < "@),
        tame("format!(\"collection `"@),
        tame("` has {"@) && parts("` has {"@),
        tame("} items, expected at least "@) && parts("} items, expected at least "@),
        tame("\")"@) && parts("\")"@),
        tame("MIN_ITEMS"@) && parts("MIN_ITEMS"@),
        tame("/// Writes the canonical hub back into a typed source document, consuming\n"@) && parts("/// Writes the canonical hub back into a typed source document, consuming\n"@),
        tame("/// the hub so uniquely-written values move instead of clone.\n"@) && parts("/// the hub so uniquely-written values move instead of clone.\n"@),
        tame("pub fn write(mut main: MainKey) -> MappingResult<"@) && parts("pub fn write(mut main: MainKey) -> MappingResult<"@),
        tame("> {\n"@) && parts("> {\n"@),
        tame("    let mut diagnostics: Vec<MappingDiagnostic> = Vec::new();\n"@) && parts("    let mut diagnostics: Vec<MappingDiagnostic> = Vec::new();\n"@),
        tame("    let mut source = "@) && parts("    let mut source = "@),
        tame("    MappingResult::new(Some(source), diagnostics)\n"@) && parts("    MappingResult::new(Some(source), diagnostics)\n"@),
{
    assert(tame("value.to_compact_string()"@) && parts("value.to_compact_string()"@)) by {
        reveal_strlit("value.to_compact_string()");
        lemma_calm("value.to_compact_string()"@);
        lemma_apart("value.to_compact_string()"@);
    }
    assert(tame("value"@) && parts("value"@)) by {
        reveal_strlit("value");
        lemma_calm("value"@);
        lemma_apart("value"@);
    }
    assert(tame("value.clone()"@) && parts("value.clone()"@)) by {
        reveal_strlit("value.clone()");
        lemma_calm("value.clone()"@);
        lemma_apart("value.clone()"@);
    }
    assert(tame("hub_item"@) && parts("hub_item"@)) by {
        reveal_strlit("hub_item");
        lemma_calm("hub_item"@);
        lemma_apart("hub_item"@);
    }
    assert(tame("element"@) && parts("element"@)) by {
        reveal_strlit("element");
        lemma_calm("element"@);
        lemma_apart("element"@);
    }
    assert(tame("idx"@) && parts("idx"@)) by {
        reveal_strlit("idx");
        lemma_calm("idx"@);
        lemma_apart("idx"@);
    }
    assert(tame("    "@) && parts("    "@)) by {
        reveal_strlit("    ");
        lemma_calm("    "@);
        lemma_apart("    "@);
    }
    assert(tame("main"@)) by {
        reveal_strlit("main");
        lemma_calm("main"@);
    }
    assert(tame("source"@)) by {
        reveal_strlit("source");
        lemma_calm("source"@);
    }
    assert(tame("CompactString::from("@) && parts("CompactString::from("@)) by {
        reveal_strlit("CompactString::from(");
        lemma_calm("CompactString::from("@);
        lemma_apart("CompactString::from("@);
    }
    assert(tame(")"@) && parts(")"@)) by {
        reveal_strlit(")");
        lemma_calm(")"@);
        lemma_apart(")"@);
    }
    assert(tame("// constant -> "@) && parts("// constant -> "@)) by {
        reveal_strlit("// constant -> ");
        lemma_calm("// constant -> "@);
        lemma_apart("// constant -> "@);
    }
    assert(tame("\n"@) && parts("\n"@)) by {
        reveal_strlit("\n");
        lemma_calm("\n"@);
        lemma_apart("\n"@);
    }
    assert(tame(" = Some("@) && parts(" = Some("@)) by {
        reveal_strlit(" = Some(");
        lemma_calm(" = Some("@);
        lemma_apart(" = Some("@);
    }
    assert(tame(");\n"@) && parts(");\n"@)) by {
        reveal_strlit(");\n");
        lemma_calm(");\n"@);
        lemma_apart(");\n"@);
    }
    assert(tame(" = "@) && parts(" = "@)) by {
        reveal_strlit(" = ");
        lemma_calm(" = "@);
        lemma_apart(" = "@);
    }
    assert(tame(";\n"@) && parts(";\n"@)) by {
        reveal_strlit(";\n");
        lemma_calm(";\n"@);
        lemma_apart(";\n"@);
    }
    assert(tame("Severity::Error"@) && parts("Severity::Error"@)) by {
        reveal_strlit("Severity::Error");
        lemma_calm("Severity::Error"@);
        lemma_apart("Severity::Error"@);
    }
    assert(tame("REQUIRED_MISSING"@) && parts("REQUIRED_MISSING"@)) by {
        reveal_strlit("REQUIRED_MISSING");
        lemma_calm("REQUIRED_MISSING"@);
        lemma_apart("REQUIRED_MISSING"@);
    }
    assert(tame("\"required value is missing\""@) && parts("\"required value is missing\""@)) by {
        reveal_strlit("\"required value is missing\"");
        lemma_calm("\"required value is missing\""@);
        lemma_apart("\"required value is missing\""@);
    }
    assert(tame("        "@) && parts("        "@)) by {
        reveal_strlit("        ");
        lemma_calm("        "@);
        lemma_apart("        "@);
    }
    assert(tame("// "@) && parts("// "@)) by {
        reveal_strlit("// ");
        lemma_calm("// "@);
        lemma_apart("// "@);
    }
    assert(tame(" -> "@) && parts(" -> "@)) by {
        reveal_strlit(" -> ");
        lemma_calm(" -> "@);
        lemma_apart(" -> "@);
    }
    assert(tame("if let Some(value) = "@) && parts("if let Some(value) = "@)) by {
        reveal_strlit("if let Some(value) = ");
        lemma_calm("if let Some(value) = "@);
        lemma_apart("if let Some(value) = "@);
    }
    assert(tame("."@) && parts("."@)) by {
        reveal_strlit(".");
        lemma_calm("."@);
        lemma_apart("."@);
    }
    assert(tame(".take() {\n"@) && parts(".take() {\n"@)) by {
        reveal_strlit(".take() {\n");
        lemma_calm(".take() {\n"@);
        lemma_apart(".take() {\n"@);
    }
    assert(tame("if let Some(value) = &"@) && parts("if let Some(value) = &"@)) by {
        reveal_strlit("if let Some(value) = &");
        lemma_calm("if let Some(value) = &"@);
        lemma_apart("if let Some(value) = &"@);
    }
    assert(tame(" {\n"@) && parts(" {\n"@)) by {
        reveal_strlit(" {\n");
        lemma_calm(" {\n"@);
        lemma_apart(" {\n"@);
    }
    assert(tame("    let rendered = "@) && parts("    let rendered = "@)) by {
        reveal_strlit("    let rendered = ");
        lemma_calm("    let rendered = "@);
        lemma_apart("    let rendered = "@);
    }
    assert(tame("    if !rendered.is_empty() {\n"@) && parts("    if !rendered.is_empty() {\n"@)) by {
        reveal_strlit("    if !rendered.is_empty() {\n");
        lemma_calm("    if !rendered.is_empty() {\n"@);
        lemma_apart("    if !rendered.is_empty() {\n"@);
    }
    assert(tame(".push(rendered);\n"@) && parts(".push(rendered);\n"@)) by {
        reveal_strlit(".push(rendered);\n");
        lemma_calm(".push(rendered);\n"@);
        lemma_apart(".push(rendered);\n"@);
    }
    assert(tame(" = Some(rendered);\n"@) && parts(" = Some(rendered);\n"@)) by {
        reveal_strlit(" = Some(rendered);\n");
        lemma_calm(" = Some(rendered);\n"@);
        lemma_apart(" = Some(rendered);\n"@);
    }
    assert(tame(" = rendered;\n"@) && parts(" = rendered;\n"@)) by {
        reveal_strlit(" = rendered;\n");
        lemma_calm(" = rendered;\n"@);
        lemma_apart(" = rendered;\n"@);
    }
    assert(tame("    } else {\n"@) && parts("    } else {\n"@)) by {
        reveal_strlit("    } else {\n");
        lemma_calm("    } else {\n"@);
        lemma_apart("    } else {\n"@);
    }
    assert(tame("    }\n"@) && parts("    }\n"@)) by {
        reveal_strlit("    }\n");
        lemma_calm("    }\n"@);
        lemma_apart("    }\n"@);
    }
    assert(tame("} else {\n"@) && parts("} else {\n"@)) by {
        reveal_strlit("} else {\n");
        lemma_calm("} else {\n"@);
        lemma_apart("} else {\n"@);
    }
    assert(tame("}\n"@) && parts("}\n"@)) by {
        reveal_strlit("}\n");
        lemma_calm("}\n"@);
        lemma_apart("}\n"@);
    }
    assert(tame("written_count"@) && parts("written_count"@)) by {
        reveal_strlit("written_count");
        lemma_calm("written_count"@);
        lemma_apart("written_count"@);
    }
    assert(tame(" (collection)\n"@) && parts(" (collection)\n"@)) by {
        reveal_strlit(" (collection)\n");
        lemma_calm(" (collection)\n"@);
        lemma_apart(" (collection)\n"@);
    }
    assert(tame("let mut "@)) by {
        reveal_strlit("let mut ");
        lemma_calm("let mut "@);
    }
    assert(tame(" = 0usize;\n"@) && parts(" = 0usize;\n"@)) by {
        reveal_strlit(" = 0usize;\n");
        lemma_calm(" = 0usize;\n"@);
        lemma_apart(" = 0usize;\n"@);
    }
    assert(tame("hub_items"@) && parts("hub_items"@)) by {
        reveal_strlit("hub_items");
        lemma_calm("hub_items"@);
        lemma_apart("hub_items"@);
    }
    assert(tame("let "@)) by {
        reveal_strlit("let ");
        lemma_calm("let "@);
    }
    assert(tame(" = std::mem::take(&mut "@) && parts(" = std::mem::take(&mut "@)) by {
        reveal_strlit(" = std::mem::take(&mut ");
        lemma_calm(" = std::mem::take(&mut "@);
        lemma_apart(" = std::mem::take(&mut "@);
    }
    assert(tame("if !"@) && parts("if !"@)) by {
        reveal_strlit("if !");
        lemma_calm("if !"@);
        lemma_apart("if !"@);
    }
    assert(tame(".is_empty() {\n"@) && parts(".is_empty() {\n"@)) by {
        reveal_strlit(".is_empty() {\n");
        lemma_calm(".is_empty() {\n"@);
        lemma_apart(".is_empty() {\n"@);
    }
    assert(tame(".reserve("@) && parts(".reserve("@)) by {
        reveal_strlit(".reserve(");
        lemma_calm(".reserve("@);
        lemma_apart(".reserve("@);
    }
    assert(tame(".len());\n"@) && parts(".len());\n"@)) by {
        reveal_strlit(".len());\n");
        lemma_calm(".len());\n"@);
        lemma_apart(".len());\n"@);
    }
    assert(tame("for ("@)) by {
        reveal_strlit("for (");
        lemma_calm("for ("@);
    }
    assert(tame(", mut "@) && parts(", mut "@)) by {
        reveal_strlit(", mut ");
        lemma_calm(", mut "@);
        lemma_apart(", mut "@);
    }
    assert(tame(") in "@) && parts(") in "@)) by {
        reveal_strlit(") in ");
        lemma_calm(") in "@);
        lemma_apart(") in "@);
    }
    assert(tame(".into_iter().enumerate() {\n"@) && parts(".into_iter().enumerate() {\n"@)) by {
        reveal_strlit(".into_iter().enumerate() {\n");
        lemma_calm(".into_iter().enumerate() {\n"@);
        lemma_apart(".into_iter().enumerate() {\n"@);
    }
    assert(tame(".len()"@) && parts(".len()"@)) by {
        reveal_strlit(".len()");
        lemma_calm(".len()"@);
        lemma_apart(".len()"@);
    }
    assert(tame("if "@) && parts("if "@)) by {
        reveal_strlit("if ");
        lemma_calm("if "@);
        lemma_apart("if "@);
    }
    assert(tame(" > 0 {\n"@) && parts(" > 0 {\n"@)) by {
        reveal_strlit(" > 0 {\n");
        lemma_calm(" > 0 {\n"@);
        lemma_apart(" > 0 {\n"@);
    }
    assert(tame(", "@) && parts(", "@)) by {
        reveal_strlit(", ");
        lemma_calm(", "@);
        lemma_apart(", "@);
    }
    assert(tame(".iter().enumerate() {\n"@) && parts(".iter().enumerate() {\n"@)) by {
        reveal_strlit(".iter().enumerate() {\n");
        lemma_calm(".iter().enumerate() {\n"@);
        lemma_apart(".iter().enumerate() {\n"@);
    }
    assert(tame("::default();\n"@) && parts("::default();\n"@)) by {
        reveal_strlit("::default();\n");
        lemma_calm("::default();\n"@);
        lemma_apart("::default();\n"@);
    }
    assert(tame(".push("@) && parts(".push("@)) by {
        reveal_strlit(".push(");
        lemma_calm(".push("@);
        lemma_apart(".push("@);
    }
    assert(tame(" += 1;\n"@) && parts(" += 1;\n"@)) by {
        reveal_strlit(" += 1;\n");
        lemma_calm(" += 1;\n"@);
        lemma_apart(" += 1;\n"@);
    }
    assert(tame(" < "@) && parts(" < "@)) by {
        reveal_strlit(" < ");
        lemma_calm(" < "@);
        lemma_apart(" < "@);
    }
    assert(tame("format!(\"collection `"@)) by {
        reveal_strlit("format!(\"collection `");
        lemma_calm("format!(\"collection `"@);
    }
    assert(tame("` has {"@) && parts("` has {"@)) by {
        reveal_strlit("` has {");
        lemma_calm("` has {"@);
        lemma_apart("` has {"@);
    }
    assert(tame("} items, expected at least "@) && parts("} items, expected at least "@)) by {
        reveal_strlit("} items, expected at least ");
        lemma_calm("} items, expected at least "@);
        lemma_apart("} items, expected at least "@);
    }
    assert(tame("\")"@) && parts("\")"@)) by {
        reveal_strlit("\")");
        lemma_calm("\")"@);
        lemma_apart("\")"@);
    }
    assert(tame("MIN_ITEMS"@) && parts("MIN_ITEMS"@)) by {
        reveal_strlit("MIN_ITEMS");
        lemma_calm("MIN_ITEMS"@);
        lemma_apart("MIN_ITEMS"@);
    }
    assert(tame("/// Writes the canonical hub back into a typed source document, consuming\n"@) && parts("/// Writes the canonical hub back into a typed source document, consuming\n"@)) by {
        reveal_strlit("/// Writes the canonical hub back into a typed source document, consuming\n");
        lemma_calm("/// Writes the canonical hub back into a typed source document, consuming\n"@);
        lemma_apart("/// Writes the canonical hub back into a typed source document, consuming\n"@);
    }
    assert(tame("/// the hub so uniquely-written values move instead of clone.\n"@) && parts("/// the hub so uniquely-written values move instead of clone.\n"@)) by {
        reveal_strlit("/// the hub so uniquely-written values move instead of clone.\n");
        lemma_calm("/// the hub so uniquely-written values move instead of clone.\n"@);
        lemma_apart("/// the hub so uniquely-written values move instead of clone.\n"@);
    }
    assert(tame("pub fn write(mut main: MainKey) -> MappingResult<"@) && parts("pub fn write(mut main: MainKey) -> MappingResult<"@)) by {
        reveal_strlit("pub fn write(mut main: MainKey) -> MappingResult<");
        lemma_calm("pub fn write(mut main: MainKey) -> MappingResult<"@);
        lemma_apart("pub fn write(mut main: MainKey) -> MappingResult<"@);
    }
    assert(tame("> {\n"@) && parts("> {\n"@)) by {
        reveal_strlit("> {\n");
        lemma_calm("> {\n"@);
        lemma_apart("> {\n"@);
    }
    assert(tame("    let mut diagnostics: Vec<MappingDiagnostic> = Vec::new();\n"@) && parts("    let mut diagnostics: Vec<MappingDiagnostic> = Vec::new();\n"@)) by {
        reveal_strlit("    let mut diagnostics: Vec<MappingDiagnostic> = Vec::new();\n");
        lemma_calm("    let mut diagnostics: Vec<MappingDiagnostic> = Vec::new();\n"@);
        lemma_apart("    let mut diagnostics: Vec<MappingDiagnostic> = Vec::new();\n"@);
    }
    assert(tame("    let mut source = "@) && parts("    let mut source = "@)) by {
        reveal_strlit("    let mut source = ");
        lemma_calm("    let mut source = "@);
        lemma_apart("    let mut source = "@);
    }
    assert(tame("    MappingResult::new(Some(source), diagnostics)\n"@) && parts("    MappingResult::new(Some(source), diagnostics)\n"@)) by {
        reveal_strlit("    MappingResult::new(Some(source), diagnostics)\n");
        lemma_calm("    MappingResult::new(Some(source), diagnostics)\n"@);
        lemma_apart("    MappingResult::new(Some(source), diagnostics)\n"@);
    }
}

/// The texts that stand before the mappers hold none of the words.
pub proof fn literals_of_heads()
    ensures
        tame("use std::str::FromStr as _;\n"@),
        tame("use compact_str::{CompactString, ToCompactString as _};\n"@),
        tame("use rust_decimal::Decimal;\n"@),
        tame("use einvoice_transformator::result::{MappingDiagnostic, MappingResult, Severity};\n"@),
        tame("use einvoice_transformator::{adapter, normalize, validate};\n"@),
        tame("use "@),
        tame("::*;\n"@) && parts("::*;\n"@),
        tame("\n"@) && parts("\n"@),
        tame("// Mapping: "@) && parts("// Mapping: "@),
        tame(" v"@) && parts(" v"@),
        tame("// Generated spoke mapper. Do not edit by hand.\n"@) && parts("// Generated spoke mapper. Do not edit by hand.\n"@),
        tame("// Source model: "@) && parts("// Source model: "@),
        tame(" (structs shared)\n"@) && parts(" (structs shared)\n"@),
        tame("pub use "@) && parts("pub use "@),
{
    assert(tame("use std::str::FromStr as _;\n"@)) by {
        reveal_strlit("use std::str::FromStr as _;\n");
        lemma_calm("use std::str::FromStr as _;\n"@);
    }
    assert(tame("use compact_str::{CompactString, ToCompactString as _};\n"@)) by {
        reveal_strlit("use compact_str::{CompactString, ToCompactString as _};\n");
        lemma_calm("use compact_str::{CompactString, ToCompactString as _};\n"@);
    }
    assert(tame("use rust_decimal::Decimal;\n"@)) by {
        reveal_strlit("use rust_decimal::Decimal;\n");
        lemma_calm("use rust_decimal::Decimal;\n"@);
    }
    assert(tame("use einvoice_transformator::result::{MappingDiagnostic, MappingResult, Severity};\n"@)) by {
        reveal_strlit("use einvoice_transformator::result::{MappingDiagnostic, MappingResult, Severity};\n");
        lemma_calm("use einvoice_transformator::result::{MappingDiagnostic, MappingResult, Severity};\n"@);
    }
    assert(tame("use einvoice_transformator::{adapter, normalize, validate};\n"@)) by {
        reveal_strlit("use einvoice_transformator::{adapter, normalize, validate};\n");
        lemma_calm("use einvoice_transformator::{adapter, normalize, validate};\n"@);
    }
    assert(tame("use "@)) by {
        reveal_strlit("use ");
        lemma_calm("use "@);
    }
    assert(tame("::*;\n"@) && parts("::*;\n"@)) by {
        reveal_strlit("::*;\n");
        lemma_calm("::*;\n"@);
        lemma_apart("::*;\n"@);
    }
    assert(tame("\n"@) && parts("\n"@)) by {
        reveal_strlit("\n");
        lemma_calm("\n"@);
        lemma_apart("\n"@);
    }
    assert(tame("// Mapping: "@) && parts("// Mapping: "@)) by {
        reveal_strlit("// Mapping: ");
        lemma_calm("// Mapping: "@);
        lemma_apart("// Mapping: "@);
    }
    assert(tame(" v"@) && parts(" v"@)) by {
        reveal_strlit(" v");
        lemma_calm(" v"@);
        lemma_apart(" v"@);
    }
    assert(tame("// Generated spoke mapper. Do not edit by hand.\n"@) && parts("// Generated spoke mapper. Do not edit by hand.\n"@)) by {
        reveal_strlit("// Generated spoke mapper. Do not edit by hand.\n");
        lemma_calm("// Generated spoke mapper. Do not edit by hand.\n"@);
        lemma_apart("// Generated spoke mapper. Do not edit by hand.\n"@);
    }
    assert(tame("// Source model: "@) && parts("// Source model: "@)) by {
        reveal_strlit("// Source model: ");
        lemma_calm("// Source model: "@);
        lemma_apart("// Source model: "@);
    }
    assert(tame(" (structs shared)\n"@) && parts(" (structs shared)\n"@)) by {
        reveal_strlit(" (structs shared)\n");
        lemma_calm(" (structs shared)\n"@);
        lemma_apart(" (structs shared)\n"@);
    }
    assert(tame("pub use "@) && parts("pub use "@)) by {
        reveal_strlit("pub use ");
        lemma_calm("pub use "@);
        lemma_apart("pub use "@);
    }
}

/// A number in decimal holds none of the words.
pub proof fn lemma_decimals()
    ensures
        forall|n: nat| tame(#[trigger] decimal(n)),
{
    assert forall|n: nat| tame(#[trigger] decimal(n)) by {
        lemma_digits(n);
        lemma_calm(decimal(n));
    }
}

proof fn lemma_digits(n: nat)
    ensures
        forall|i: int| 0 <= i < decimal(n).len() ==> #[trigger] decimal(n)[i] != 'p',
    decreases n,
{
    if n >= 10 {
        lemma_digits(n / 10);
        let head = decimal(n / 10);
        assert forall|i: int| 0 <= i < decimal(n).len() implies #[trigger] decimal(n)[i]
            != 'p' by {
            if i < head.len() {
                assert(decimal(n)[i] == head[i]);
            }
        }
    }
}

/// A part of a text that holds none of the words holds none.
proof fn lemma_part_of(t: Text, a: int, b: int)
    requires
        wordless(t),
        0 <= a <= b <= t.len(),
    ensures
        wordless(t.subrange(a, b)),
{
    let s = t.subrange(a, b);
    lemma_wordless(t);
    lemma_wordless(s);
    assert forall|i: int, k: int|
        0 <= i && 0 <= k < 3 && i + opening_word(k).len() <= s.len() implies !#[trigger] begins(
        s,
        i,
        opening_word(k),
    ) by {
        let w = opening_word(k);
        if begins(s, i, w) {
            assert forall|j: int| 0 <= j < w.len() && a + i + j < t.len() implies t[a + i + j]
                == #[trigger] w[j] by {
                assert(s[i + j] == w[j]);
            }
            assert(begins(t, a + i, w));
        }
    }
}

/// Whether a piece stands in a text, from position `a` on.
spec fn stands_at(t: Text, piece: Text, a: int) -> bool {
    0 <= a && a + piece.len() <= t.len() && t.subrange(a, a + piece.len()) == piece
}

proof fn lemma_pieces_stand(t: Text, sep: char, i: int) -> (a: int)
    requires
        0 <= i < split(t, sep).len(),
    ensures
        stands_at(t, split(t, sep)[i], a),
        i == split(t, sep).len() - 1 ==> a + split(t, sep)[i].len() == t.len(),
    decreases t.len(),
{
    let all = split(t, sep);
    if t.len() == 0 {
        assert(t.subrange(0, 0) =~= all[i]);
        0
    } else {
        let front = t.drop_last();
        let head = split(front, sep);
        crate::text::lemma_split_nonempty(front, sep);
        if t.last() == sep {
            if i < head.len() {
                let a = lemma_pieces_stand(front, sep, i);
                assert(all[i] == head[i]);
                assert(t.subrange(a, a + head[i].len()) =~= front.subrange(a, a + head[i].len()));
                a
            } else {
                let a = t.len() as int;
                assert(t.subrange(a, a) =~= all[i]);
                a
            }
        } else {
            let a = lemma_pieces_stand(front, sep, i);
            if i < head.len() - 1 {
                assert(all[i] == head[i]);
                assert(t.subrange(a, a + head[i].len()) =~= front.subrange(a, a + head[i].len()));
            } else {
                let piece = head.last().push(t.last());
                assert(all[i] == piece);
                assert(front.subrange(a, a + head[i].len()) == head[i]);
                assert forall|j: int| 0 <= j < piece.len() implies t.subrange(
                    a,
                    a + piece.len(),
                )[j] == piece[j] by {
                    if j < head.last().len() {
                        assert(front.subrange(a, a + head[i].len())[j] == head[i][j]);
                    }
                }
                assert(t.subrange(a, a + piece.len()) =~= piece);
            }
            a
        }
    }
}

/// The pieces of a text that holds none of the words hold none.
pub proof fn lemma_pieces(t: Text, sep: char)
    requires
        wordless(t),
    ensures
        forall|i: int| 0 <= i < split(t, sep).len() ==> wordless(#[trigger] split(t, sep)[i]),
{
    assert forall|i: int| 0 <= i < split(t, sep).len() implies wordless(
        #[trigger] split(t, sep)[i],
    ) by {
        let a = lemma_pieces_stand(t, sep, i);
        lemma_part_of(t, a, a + split(t, sep)[i].len());
    }
}

/// Whether writing a text as a literal adds none of the words.
pub open spec fn plain_quotes() -> bool {
    forall|x: Text| wordless(x) ==> wordless(#[trigger] quoted(x))
}

} // verus!
