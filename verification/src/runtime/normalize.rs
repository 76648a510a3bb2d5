//! Normalization of a value that was read, each step from an owned text to an
//! owned text.
use vstd::prelude::*;

use crate::runtime::adapter::{lowercased, to_lower, to_upper, uppercased};
use crate::text::{same, trimmed, Text};

verus! {

/// An owned text in a `compact_str::CompactString`, which holds short texts inline.
#[verifier::external_body]
#[derive(Debug, PartialEq, Eq)]
pub struct CompactText {
    inner: compact_str::CompactString,
}

/// The characters that a compact text holds.
pub uninterp spec fn compact_chars(s: CompactText) -> Text;

impl CompactText {
    /// `<CompactString as From<&str>>::from`: holds the characters of the slice.
    #[verifier::external_body]
    pub fn new(s: &str) -> (r: CompactText)
        ensures
            compact_chars(r) == s@,
    {
        CompactText { inner: compact_str::CompactString::from(s) }
    }

    /// `CompactString::as_str`: the characters as a slice.
    #[verifier::external_body]
    pub fn as_str(&self) -> (r: &str)
        ensures
            r@ == compact_chars(*self),
    {
        self.inner.as_str()
    }

    /// `CompactString::is_empty`: whether there are no characters.
    #[verifier::external_body]
    pub fn is_empty(&self) -> (r: bool)
        ensures
            r == (compact_chars(*self).len() == 0),
    {
        self.inner.is_empty()
    }
}

/// Strips white space from both ends; a text without any is handed back untouched.
pub fn trim(s: CompactText) -> (r: CompactText)
    ensures
        compact_chars(r) == crate::text::trim(compact_chars(s)),
        crate::text::trim(compact_chars(s)) == compact_chars(s) ==> r == s,
{
    let text = trimmed(s.as_str());
    if same(text.as_str(), s.as_str()) {
        s
    } else {
        CompactText::new(text.as_str())
    }
}

/// Upper-cases a text.
pub fn uppercase(s: CompactText) -> (r: CompactText)
    ensures
        compact_chars(r) == uppercased(compact_chars(s)),
{
    CompactText::new(to_upper(s.as_str()).as_str())
}

/// Lower-cases a text.
pub fn lowercase(s: CompactText) -> (r: CompactText)
    ensures
        compact_chars(r) == lowercased(compact_chars(s)),
{
    CompactText::new(to_lower(s.as_str()).as_str())
}

/// `None` for the empty text; white space alone is a text.
pub fn empty_as_missing(s: CompactText) -> (r: Option<CompactText>)
    ensures
        r == if compact_chars(s).len() == 0 {
            None
        } else {
            Some(s)
        },
{
    if s.is_empty() {
        None
    } else {
        Some(s)
    }
}

} // verus!
