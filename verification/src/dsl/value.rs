//! TOML documents as a tree of plain values.
use vstd::prelude::*;

use core::ops::Range;

use crate::text::Text;

verus! {

/// A TOML value. The entries of a table stand in the order of their keys.
#[derive(Debug)]
pub enum TomlValue {
    /// A string.
    Text(String),
    /// An integer.
    Integer(i64),
    /// A floating-point number, as its shortest decimal text.
    Float(String),
    /// A boolean.
    Boolean(bool),
    /// A date, a time, or both, as written in TOML.
    Datetime(String),
    /// An array.
    Array(Vec<TomlValue>),
    /// A table.
    Table(Vec<(String, TomlValue)>),
}

/// The model of a [`TomlValue`].
pub enum TomlV {
    Text(Text),
    Integer(i64),
    Float(Text),
    Boolean(bool),
    Datetime(Text),
    Array(Seq<TomlV>),
    Table(Seq<(Text, TomlV)>),
}

/// The model of a value.
pub open spec fn tree(v: TomlValue) -> TomlV
    decreases v,
{
    match v {
        TomlValue::Text(s) => TomlV::Text(s@),
        TomlValue::Integer(i) => TomlV::Integer(i),
        TomlValue::Float(s) => TomlV::Float(s@),
        TomlValue::Boolean(b) => TomlV::Boolean(b),
        TomlValue::Datetime(s) => TomlV::Datetime(s@),
        TomlValue::Array(items) => TomlV::Array(
            Seq::new(
                items@.len(),
                |i: int|
                    if 0 <= i < items@.len() {
                        tree(items@[i])
                    } else {
                        arbitrary()
                    },
            ),
        ),
        TomlValue::Table(entries) => TomlV::Table(
            Seq::new(
                entries@.len(),
                |i: int|
                    if 0 <= i < entries@.len() {
                        (entries@[i].0@, tree(entries@[i].1))
                    } else {
                        arbitrary()
                    },
            ),
        ),
    }
}

impl View for TomlValue {
    type V = TomlV;

    open spec fn view(&self) -> TomlV {
        tree(*self)
    }
}

impl DeepView for TomlValue {
    type V = TomlV;

    open spec fn deep_view(&self) -> TomlV {
        self@
    }
}

/// The model of an array or a table is made of the models of what it holds.
pub proof fn lemma_tree(v: TomlValue)
    ensures
        v matches TomlValue::Array(items) ==> v@ == TomlV::Array(items.deep_view()),
        v matches TomlValue::Table(entries) ==> v@ == TomlV::Table(entries.deep_view()),
{
    match v {
        TomlValue::Array(items) => {
            assert(v@->Array_0 =~= items.deep_view());
        },
        TomlValue::Table(entries) => {
            assert(v@->Table_0 =~= entries.deep_view());
        },
        _ => {},
    }
}

/// Why a text is not a TOML document: what is wrong, and the byte range.
pub struct TomlError {
    /// What is wrong.
    pub message: String,
    /// Where it is wrong.
    pub span: Option<Range<usize>>,
}

/// A value of the `toml` crate.
#[verifier::external_type_specification]
#[verifier::external_body]
pub struct ExTomlCrateValue(toml::Value);

/// The entries of the root table of a TOML document, or why the text is none:
/// what is wrong, and where.
pub uninterp spec fn toml_document(src: Text) -> Result<
    Seq<(Text, TomlV)>,
    (Text, Option<Range<usize>>),
>;

/// A value of the `toml` crate as a plain value: one variant for one variant.
#[verifier::external_body]
fn plain(v: toml::Value) -> TomlValue {
    match v {
        toml::Value::String(s) => TomlValue::Text(s),
        toml::Value::Integer(i) => TomlValue::Integer(i),
        toml::Value::Float(f) => TomlValue::Float(f.to_string()),
        toml::Value::Boolean(b) => TomlValue::Boolean(b),
        toml::Value::Datetime(d) => TomlValue::Datetime(d.to_string()),
        toml::Value::Array(a) => TomlValue::Array(a.into_iter().map(plain).collect()),
        toml::Value::Table(t) => TomlValue::Table(t.into_iter().map(|(k, w)| (k, plain(w))).collect()),
    }
}

/// `toml::from_str` on a document: its root table, or the crate's message and
/// byte range. The outcome depends on the text alone.
#[verifier::external_body]
pub(crate) fn toml_parse(src: &str) -> (r: Result<Vec<(String, TomlValue)>, TomlError>)
    ensures
        match r {
            Ok(t) => toml_document(src@) == Ok::<
                Seq<(Text, TomlV)>,
                (Text, Option<Range<usize>>),
            >(t.deep_view()),
            Err(e) => toml_document(src@) == Err::<
                Seq<(Text, TomlV)>,
                (Text, Option<Range<usize>>),
            >((e.message@, e.span)),
        },
{
    match toml::from_str::<toml::Table>(src) {
        Ok(t) => Ok(t.into_iter().map(|(k, v)| (k, plain(v))).collect()),
        Err(e) => Err(TomlError { message: e.to_string(), span: e.span() }),
    }
}

} // verus!
