//! The `[meta]` table of a mapping file.
use vstd::prelude::*;

use crate::text::Text;

verus! {

/// The identity of a spoke and of its mapping.
#[derive(Debug, PartialEq, Eq)]
pub struct MappingMeta {
    /// The document format, such as `ubl-invoice`.
    pub doc_format: String,
    /// The version of the document format.
    pub format_version: String,
    /// The version of this mapping.
    pub mapping_version: String,
    /// The canonical model it maps onto.
    pub canonical_model: String,
    /// The root XML element.
    pub root: Option<String>,
    /// An explicit id of the source model.
    pub source_model: Option<String>,
    /// Substrings that tell the format apart from others with the same root.
    pub detect: Vec<String>,
    /// The id of the mapping this one inherits from.
    pub inherits: Option<String>,
    /// Whether the mapping only serves to be inherited from.
    pub disabled: bool,
    /// Free text.
    pub description: Option<String>,
}

/// The model of a [`MappingMeta`].
#[verifier::ext_equal]
pub struct MetaV {
    pub doc_format: Text,
    pub format_version: Text,
    pub mapping_version: Text,
    pub canonical_model: Text,
    pub root: Option<Text>,
    pub source_model: Option<Text>,
    pub detect: Seq<Text>,
    pub inherits: Option<Text>,
    pub disabled: bool,
    pub description: Option<Text>,
}

impl View for MappingMeta {
    type V = MetaV;

    open spec fn view(&self) -> MetaV {
        MetaV {
            doc_format: self.doc_format@,
            format_version: self.format_version@,
            mapping_version: self.mapping_version@,
            canonical_model: self.canonical_model@,
            root: self.root.deep_view(),
            source_model: self.source_model.deep_view(),
            detect: self.detect.deep_view(),
            inherits: self.inherits.deep_view(),
            disabled: self.disabled,
            description: self.description.deep_view(),
        }
    }
}

impl DeepView for MappingMeta {
    type V = MetaV;

    open spec fn deep_view(&self) -> MetaV {
        self@
    }
}

/// A copy of an optional string.
pub fn clone_opt(o: &Option<String>) -> (r: Option<String>)
    ensures
        r == *o,
{
    match o {
        Some(s) => Some(s.clone()),
        None => None,
    }
}

/// A copy of a list of strings.
pub fn clone_strings(v: &Vec<String>) -> (r: Vec<String>)
    ensures
        r@ == v@,
{
    let mut r: Vec<String> = Vec::new();
    let mut i: usize = 0;
    while i < v.len()
        invariant
            i <= v.len(),
            r@ =~= v@.take(i as int),
        decreases v.len() - i,
    {
        r.push(v[i].clone());
        i += 1;
    }
    assert(v@.take(v.len() as int) =~= v@);
    r
}

impl Clone for MappingMeta {
    fn clone(&self) -> (r: MappingMeta)
        ensures
            r@ == self@,
    {
        MappingMeta {
            doc_format: self.doc_format.clone(),
            format_version: self.format_version.clone(),
            mapping_version: self.mapping_version.clone(),
            canonical_model: self.canonical_model.clone(),
            root: clone_opt(&self.root),
            source_model: clone_opt(&self.source_model),
            detect: clone_strings(&self.detect),
            inherits: clone_opt(&self.inherits),
            disabled: self.disabled,
            description: clone_opt(&self.description),
        }
    }
}

/// The id a mapping is known by: its explicit source-model id, or
/// `<doc_format>:<format_version>`.
pub open spec fn meta_id(meta: MetaV) -> Text {
    match meta.source_model {
        Some(id) => id,
        None => meta.doc_format + ":"@ + meta.format_version,
    }
}

impl MappingMeta {
    /// The id this mapping is known by.
    pub fn id(&self) -> (s: String)
        ensures
            s@ == meta_id(self@),
    {
        match &self.source_model {
            Some(id) => id.clone(),
            None => {
                let mut s = self.doc_format.clone();
                s.push_str(":");
                s.push_str(self.format_version.as_str());
                s
            },
        }
    }
}

} // verus!
