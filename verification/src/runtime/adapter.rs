//! Adapters: named, pure conversions of a text.
use vstd::prelude::*;

use crate::text::Text;

verus! {

/// Why an adapter could not convert a text.
#[derive(Debug, Clone, PartialEq, Eq)]
pub struct AdapterError {
    /// The name of the adapter.
    pub adapter: String,
    /// Why the conversion failed.
    pub reason: String,
}

/// The message of an adapter error.
pub open spec fn adapter_message(adapter: Text, reason: Text) -> Text {
    "adapter `"@ + adapter + "` failed: "@ + reason
}

impl AdapterError {
    /// The message of the error.
    pub fn message(&self) -> (out: String)
        ensures
            out@ == adapter_message(self.adapter@, self.reason@),
    {
        let mut out = "adapter `".to_string();
        out.push_str(self.adapter.as_str());
        out.push_str("` failed: ");
        out.push_str(self.reason.as_str());
        out
    }
}

/// A deterministic conversion of a text without side effects.
pub trait Adapter {
    /// The converted text, or why it cannot be converted.
    fn convert(&self, input: &str) -> Result<String, AdapterError>;
}

/// The upper-case form of a text, as Unicode defines it.
pub uninterp spec fn uppercased(s: Text) -> Text;

/// `str::to_uppercase`: the upper-case form of a text, which depends on the text
/// alone.
#[verifier::external_body]
pub(crate) fn to_upper(s: &str) -> (out: String)
    ensures
        out@ == uppercased(s@),
{
    s.to_uppercase()
}

/// The lower-case form of a text, as Unicode defines it.
pub uninterp spec fn lowercased(s: Text) -> Text;

/// `str::to_lowercase`: the lower-case form of a text, which depends on the text
/// alone.
#[verifier::external_body]
pub(crate) fn to_lower(s: &str) -> (out: String)
    ensures
        out@ == lowercased(s@),
{
    s.to_lowercase()
}

/// Upper-cases a text; never fails.
pub fn uppercase_currency(input: &str) -> (r: Result<String, AdapterError>)
    ensures
        r matches Ok(s) && s@ == uppercased(input@),
{
    Ok(to_upper(input))
}

} // verus!
