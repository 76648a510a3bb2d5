//! Decoding plain TOML values into the fields of a mapping file.
use vstd::prelude::*;

use crate::dsl::multiple::{policy_of_keyword, MultiplePolicy};
use crate::dsl::normalize::{op_of_keyword, NormalizeOp};
use crate::dsl::types::{type_of_keyword, MappingType};
use crate::dsl::value::{lemma_tree, TomlV, TomlValue};
use crate::text::{outcome, quote, quoted, same, signed_decimal, signed_decimal_of, Text};

verus! {

/// A floating-point text with a decimal point, unless it is not finite.
pub open spec fn with_point(f: Text) -> Text {
    if f.contains('.') || f == "NaN"@ || f == "inf"@ || f == "-inf"@ {
        f
    } else {
        f + ".0"@
    }
}

/// What a value is called in a type error.
pub open spec fn described(v: TomlV) -> Text {
    match v {
        TomlV::Text(s) => "string "@ + quoted(s),
        TomlV::Integer(i) => "integer `"@ + signed_decimal(i as int) + "`"@,
        TomlV::Float(f) => "floating point `"@ + with_point(f) + "`"@,
        TomlV::Boolean(b) => if b {
            "boolean `true`"@
        } else {
            "boolean `false`"@
        },
        TomlV::Datetime(s) => "string "@ + quoted(s),
        TomlV::Array(_) => "sequence"@,
        TomlV::Table(_) => "map"@,
    }
}

/// The error for a value of the wrong type.
pub open spec fn wrong_type(v: TomlV, expected: Text) -> Text {
    "invalid type: "@ + described(v) + ", expected "@ + expected
}

/// The name of a value's type.
pub open spec fn kind_name(v: TomlV) -> Text {
    match v {
        TomlV::Text(_) => "string"@,
        TomlV::Integer(_) => "integer"@,
        TomlV::Float(_) => "float"@,
        TomlV::Boolean(_) => "boolean"@,
        TomlV::Datetime(_) => "datetime"@,
        TomlV::Array(_) => "array"@,
        TomlV::Table(_) => "table"@,
    }
}

/// The text a value holds; a date or time counts as its text.
pub open spec fn text_value(v: TomlV) -> Result<Text, Text> {
    match v {
        TomlV::Text(s) => Ok(s),
        TomlV::Datetime(s) => Ok(s),
        _ => Err(wrong_type(v, "a string"@)),
    }
}

/// The boolean a value holds.
pub open spec fn bool_value(v: TomlV) -> Result<bool, Text> {
    match v {
        TomlV::Boolean(b) => Ok(b),
        _ => Err(wrong_type(v, "a boolean"@)),
    }
}

/// The size a value holds.
pub open spec fn size_value(v: TomlV) -> Result<usize, Text> {
    match v {
        TomlV::Integer(i) => if 0 <= i <= usize::MAX {
            Ok(i as usize)
        } else {
            Err("invalid value: "@ + described(v) + ", expected usize"@)
        },
        _ => Err(wrong_type(v, "usize"@)),
    }
}

/// The texts of the items, or the error of the first item that holds none.
pub open spec fn texts_upto(items: Seq<TomlV>) -> Result<Seq<Text>, Text>
    decreases items.len(),
{
    if items.len() == 0 {
        Ok(Seq::empty())
    } else {
        match texts_upto(items.drop_last()) {
            Err(e) => Err(e),
            Ok(head) => match text_value(items.last()) {
                Err(e) => Err(e),
                Ok(t) => Ok(head.push(t)),
            },
        }
    }
}

/// The list of texts a value holds.
pub open spec fn texts_value(v: TomlV) -> Result<Seq<Text>, Text> {
    match v {
        TomlV::Array(items) => texts_upto(items),
        _ => Err(wrong_type(v, "a sequence"@)),
    }
}

/// The name a value gives for a choice without data, and what is wrong with the
/// value apart from the name, if anything.
pub open spec fn choice_name(v: TomlV) -> Result<(Text, Option<Text>), Text> {
    match v {
        TomlV::Text(s) => Ok((s, None)),
        TomlV::Table(entries) => if entries.len() == 0 {
            Err("wanted exactly 1 element, found 0 elements"@)
        } else if entries.len() != 1 {
            Err("wanted exactly 1 element, more than 1 element"@)
        } else {
            Ok((entries[0].0, unit_problem(entries[0].1)))
        },
        _ => Err("invalid type: unit variant, expected string only"@),
    }
}

/// What is wrong with the value of a choice without data.
pub open spec fn unit_problem(v: TomlV) -> Option<Text> {
    match v {
        TomlV::Array(items) => if items.len() == 0 {
            None
        } else {
            Some("expected empty array"@)
        },
        TomlV::Table(entries) => if entries.len() == 0 {
            None
        } else {
            Some("expected empty table"@)
        },
        _ => Some("expected table, found "@ + kind_name(v)),
    }
}

/// The choice a value makes, given what its name stands for.
pub open spec fn choice<T>(
    v: TomlV,
    of_name: spec_fn(Text) -> Option<T>,
    expected: Text,
) -> Result<T, Text> {
    match choice_name(v) {
        Err(e) => Err(e),
        Ok((name, problem)) => match of_name(name) {
            None => Err("unknown variant `"@ + name + "`, expected "@ + expected),
            Some(t) => match problem {
                Some(e) => Err(e),
                None => Ok(t),
            },
        },
    }
}

/// The mapping type a value names.
pub open spec fn type_value(v: TomlV) -> Result<MappingType, Text> {
    choice(
        v,
        |w: Text| type_of_keyword(w),
        "one of `string`, `identifier`, `date`, `datetime`, `decimal`, `currency`, `unit_code`, `boolean`, `collection`"@,
    )
}

/// The repetition policy a value names.
pub open spec fn policy_value(v: TomlV) -> Result<MultiplePolicy, Text> {
    choice(v, |w: Text| policy_of_keyword(w), "one of `error`, `first`, `join`"@)
}

/// The normalization step a value names.
pub open spec fn op_value(v: TomlV) -> Result<NormalizeOp, Text> {
    choice(
        v,
        |w: Text| op_of_keyword(w),
        "one of `trim`, `uppercase`, `lowercase`, `empty_as_missing`"@,
    )
}

/// The steps the items name, or the error of the first item that names none.
pub open spec fn ops_upto(items: Seq<TomlV>) -> Result<Seq<NormalizeOp>, Text>
    decreases items.len(),
{
    if items.len() == 0 {
        Ok(Seq::empty())
    } else {
        match ops_upto(items.drop_last()) {
            Err(e) => Err(e),
            Ok(head) => match op_value(items.last()) {
                Err(e) => Err(e),
                Ok(t) => Ok(head.push(t)),
            },
        }
    }
}

/// The list of normalization steps a value names.
pub open spec fn ops_value(v: TomlV) -> Result<Seq<NormalizeOp>, Text> {
    match v {
        TomlV::Array(items) => ops_upto(items),
        _ => Err(wrong_type(v, "a sequence"@)),
    }
}

// ---------------------------------------------------------------------------
// The decoders
// ---------------------------------------------------------------------------

/// A floating-point text with a decimal point, unless it is not finite.
fn pointed(f: &str) -> (out: String)
    ensures
        out@ == with_point(f@),
{
    let chars = crate::text::chars_of(f);
    let i = crate::text::index_of(&chars, '.');
    proof {
        crate::text::lemma_find(f@, '.');
    }
    if i < chars.len() {
        assert(f@[i as int] == '.');
        return f.to_string();
    }
    assert(!f@.contains('.'));
    let mut out = f.to_string();
    if !same(f, "NaN") && !same(f, "inf") && !same(f, "-inf") {
        out.push_str(".0");
    }
    out
}

/// What a value is called in a type error.
fn describe(v: &TomlValue) -> (out: String)
    ensures
        out@ == described(v@),
{
    match v {
        TomlValue::Text(s) => {
            let mut out = "string ".to_string();
            out.push_str(quote(s.as_str()).as_str());
            out
        },
        TomlValue::Integer(i) => {
            let mut out = "integer `".to_string();
            out.push_str(signed_decimal_of(*i).as_str());
            out.push_str("`");
            out
        },
        TomlValue::Float(f) => {
            let mut out = "floating point `".to_string();
            out.push_str(pointed(f.as_str()).as_str());
            out.push_str("`");
            out
        },
        TomlValue::Boolean(b) => {
            if *b {
                "boolean `true`".to_string()
            } else {
                "boolean `false`".to_string()
            }
        },
        TomlValue::Datetime(s) => {
            let mut out = "string ".to_string();
            out.push_str(quote(s.as_str()).as_str());
            out
        },
        TomlValue::Array(_) => "sequence".to_string(),
        TomlValue::Table(_) => "map".to_string(),
    }
}

/// The error for a value of the wrong type.
pub fn wrong_type_error(v: &TomlValue, expected: &str) -> (out: String)
    ensures
        out@ == wrong_type(v@, expected@),
{
    let mut out = "invalid type: ".to_string();
    out.push_str(describe(v).as_str());
    out.push_str(", expected ");
    out.push_str(expected);
    out
}

/// The text a value holds.
pub fn decode_text(v: &TomlValue) -> (r: Result<String, String>)
    ensures
        outcome(r) == text_value(v@),
{
    match v {
        TomlValue::Text(s) => Ok(s.clone()),
        TomlValue::Datetime(s) => Ok(s.clone()),
        _ => Err(wrong_type_error(v, "a string")),
    }
}

/// The boolean a value holds.
pub fn decode_bool(v: &TomlValue) -> (r: Result<bool, String>)
    ensures
        outcome(r) == bool_value(v@),
{
    match v {
        TomlValue::Boolean(b) => Ok(*b),
        _ => Err(wrong_type_error(v, "a boolean")),
    }
}

/// The size a value holds.
pub fn decode_size(v: &TomlValue) -> (r: Result<usize, String>)
    ensures
        outcome(r) == size_value(v@),
{
    match v {
        TomlValue::Integer(i) => {
            if *i >= 0 && *i as u64 <= usize::MAX as u64 {
                Ok(*i as usize)
            } else {
                let mut out = "invalid value: ".to_string();
                out.push_str(describe(v).as_str());
                out.push_str(", expected usize");
                Err(out)
            }
        },
        _ => Err(wrong_type_error(v, "usize")),
    }
}

/// The list of texts a value holds.
pub fn decode_texts(v: &TomlValue) -> (r: Result<Vec<String>, String>)
    ensures
        outcome(r) == texts_value(v@),
{
    proof {
        lemma_tree(*v);
    }
    match v {
        TomlValue::Array(items) => {
            let ghost views = items.deep_view();
            let mut out: Vec<String> = Vec::new();
            let mut i: usize = 0;
            assert(out.deep_view() =~= Seq::<Text>::empty());
            while i < items.len()
                invariant
                    i <= items.len(),
                    views == items.deep_view(),
                    v@ == TomlV::Array(views),
                    texts_upto(views.take(i as int)) == Ok::<Seq<Text>, Text>(out.deep_view()),
                decreases items.len() - i,
            {
                proof {
                    assert(views.take(i + 1).drop_last() =~= views.take(i as int));
                    assert(views[i as int] == items@[i as int]@);
                }
                match decode_text(&items[i]) {
                    Err(e) => {
                        proof {
                            lemma_texts_fail(views, i + 1);
                        }
                        return Err(e);
                    },
                    Ok(t) => {
                        let ghost before = out.deep_view();
                        out.push(t);
                        assert(out.deep_view() =~= before.push(t@));
                    },
                }
                i += 1;
            }
            assert(views.take(items.len() as int) =~= views);
            Ok(out)
        },
        _ => Err(wrong_type_error(v, "a sequence")),
    }
}

/// A list fails with the error of its first failing prefix.
proof fn lemma_texts_fail(items: Seq<TomlV>, n: int)
    requires
        0 <= n <= items.len(),
        texts_upto(items.take(n)) is Err,
    ensures
        texts_upto(items) == texts_upto(items.take(n)),
    decreases items.len() - n,
{
    if n < items.len() {
        assert(items.take(n + 1).drop_last() =~= items.take(n));
        lemma_texts_fail(items, n + 1);
    } else {
        assert(items.take(n) =~= items);
    }
}

/// A list fails with the error of its first failing prefix.
proof fn lemma_ops_fail(items: Seq<TomlV>, n: int)
    requires
        0 <= n <= items.len(),
        ops_upto(items.take(n)) is Err,
    ensures
        ops_upto(items) == ops_upto(items.take(n)),
    decreases items.len() - n,
{
    if n < items.len() {
        assert(items.take(n + 1).drop_last() =~= items.take(n));
        lemma_ops_fail(items, n + 1);
    } else {
        assert(items.take(n) =~= items);
    }
}

/// The name of a value's type.
fn name_of_type(v: &TomlValue) -> (s: &'static str)
    ensures
        s@ == kind_name(v@),
{
    match v {
        TomlValue::Text(_) => "string",
        TomlValue::Integer(_) => "integer",
        TomlValue::Float(_) => "float",
        TomlValue::Boolean(_) => "boolean",
        TomlValue::Datetime(_) => "datetime",
        TomlValue::Array(_) => "array",
        TomlValue::Table(_) => "table",
    }
}

/// What is wrong with the value of a choice without data.
fn problem_of_unit(v: &TomlValue) -> (r: Option<String>)
    ensures
        r.deep_view() == unit_problem(v@),
{
    proof {
        lemma_tree(*v);
    }
    match v {
        TomlValue::Array(items) => {
            if items.len() == 0 {
                None
            } else {
                Some("expected empty array".to_string())
            }
        },
        TomlValue::Table(entries) => {
            if entries.len() == 0 {
                None
            } else {
                Some("expected empty table".to_string())
            }
        },
        _ => {
            let mut out = "expected table, found ".to_string();
            out.push_str(name_of_type(v));
            Some(out)
        },
    }
}

/// The name a value gives for a choice, and what else is wrong with it.
fn name_of_choice(v: &TomlValue) -> (r: Result<(String, Option<String>), String>)
    ensures
        outcome(r) == choice_name(v@),
{
    proof {
        lemma_tree(*v);
    }
    match v {
        TomlValue::Text(s) => Ok((s.clone(), None)),
        TomlValue::Table(entries) => {
            if entries.len() == 0 {
                Err("wanted exactly 1 element, found 0 elements".to_string())
            } else if entries.len() != 1 {
                Err("wanted exactly 1 element, more than 1 element".to_string())
            } else {
                assert(entries.deep_view()[0] == (entries@[0].0@, entries@[0].1@));
                Ok((entries[0].0.clone(), problem_of_unit(&entries[0].1)))
            }
        },
        _ => Err("invalid type: unit variant, expected string only".to_string()),
    }
}

/// The error for a name that stands for no choice.
fn unknown_variant(name: &str, expected: &str) -> (out: String)
    ensures
        out@ == "unknown variant `"@ + name@ + "`, expected "@ + expected@,
{
    let mut out = "unknown variant `".to_string();
    out.push_str(name);
    out.push_str("`, expected ");
    out.push_str(expected);
    out
}

/// The mapping type a value names.
pub fn decode_type(v: &TomlValue) -> (r: Result<MappingType, String>)
    ensures
        outcome(r) == type_value(v@),
{
    match name_of_choice(v) {
        Err(e) => Err(e),
        Ok((name, problem)) => match MappingType::from_keyword(name.as_str()) {
            None => Err(
                unknown_variant(
                    name.as_str(),
                    "one of `string`, `identifier`, `date`, `datetime`, `decimal`, `currency`, `unit_code`, `boolean`, `collection`",
                ),
            ),
            Some(t) => match problem {
                Some(e) => Err(e),
                None => Ok(t),
            },
        },
    }
}

/// The repetition policy a value names.
pub fn decode_policy(v: &TomlValue) -> (r: Result<MultiplePolicy, String>)
    ensures
        outcome(r) == policy_value(v@),
{
    match name_of_choice(v) {
        Err(e) => Err(e),
        Ok((name, problem)) => match MultiplePolicy::from_keyword(name.as_str()) {
            None => Err(unknown_variant(name.as_str(), "one of `error`, `first`, `join`")),
            Some(t) => match problem {
                Some(e) => Err(e),
                None => Ok(t),
            },
        },
    }
}

/// The normalization step a value names.
fn decode_op(v: &TomlValue) -> (r: Result<NormalizeOp, String>)
    ensures
        outcome(r) == op_value(v@),
{
    match name_of_choice(v) {
        Err(e) => Err(e),
        Ok((name, problem)) => match NormalizeOp::from_keyword(name.as_str()) {
            None => Err(
                unknown_variant(
                    name.as_str(),
                    "one of `trim`, `uppercase`, `lowercase`, `empty_as_missing`",
                ),
            ),
            Some(t) => match problem {
                Some(e) => Err(e),
                None => Ok(t),
            },
        },
    }
}

/// The list of normalization steps a value names.
pub fn decode_ops(v: &TomlValue) -> (r: Result<Vec<NormalizeOp>, String>)
    ensures
        outcome(r) == ops_value(v@),
{
    proof {
        lemma_tree(*v);
    }
    match v {
        TomlValue::Array(items) => {
            let ghost views = items.deep_view();
            let mut out: Vec<NormalizeOp> = Vec::new();
            let mut i: usize = 0;
            assert(out.deep_view() =~= Seq::<NormalizeOp>::empty());
            while i < items.len()
                invariant
                    i <= items.len(),
                    views == items.deep_view(),
                    v@ == TomlV::Array(views),
                    ops_upto(views.take(i as int)) == Ok::<Seq<NormalizeOp>, Text>(
                        out.deep_view(),
                    ),
                decreases items.len() - i,
            {
                proof {
                    assert(views.take(i + 1).drop_last() =~= views.take(i as int));
                    assert(views[i as int] == items@[i as int]@);
                }
                match decode_op(&items[i]) {
                    Err(e) => {
                        proof {
                            lemma_ops_fail(views, i + 1);
                        }
                        return Err(e);
                    },
                    Ok(t) => {
                        let ghost before = out.deep_view();
                        out.push(t);
                        assert(out.deep_view() =~= before.push(t));
                    },
                }
                i += 1;
            }
            assert(views.take(items.len() as int) =~= views);
            Ok(out)
        },
        _ => Err(wrong_type_error(v, "a sequence")),
    }
}

} // verus!
