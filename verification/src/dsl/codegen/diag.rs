//! Generated code that builds and pushes one diagnostic.
use vstd::prelude::*;

use crate::text::{quote, quoted, Text};

verus! {

/// The diagnostic that a piece of generated code pushes. The message and the
/// severity are Rust expressions; the other fields are values.
pub struct DiagSpec<'a> {
    severity: &'a str,
    code: &'a str,
    node_id: &'a str,
    msg: &'a str,
    canonical_key: Option<&'a str>,
    source_path: Option<&'a str>,
    index_var: Option<&'a str>,
    fallback_chain: Option<&'a str>,
}

/// The model of a [`DiagSpec`].
#[verifier::ext_equal]
pub struct DiagSpecV {
    pub severity: Text,
    pub code: Text,
    pub node_id: Text,
    pub msg: Text,
    pub key: Option<Text>,
    pub path: Option<Text>,
    pub index: Option<Text>,
    pub chain: Option<Text>,
}

/// The text of an optional slice.
pub open spec fn text_of(o: Option<&str>) -> Option<Text> {
    match o {
        Some(s) => Some(s@),
        None => None,
    }
}

impl<'a> View for DiagSpec<'a> {
    type V = DiagSpecV;

    closed spec fn view(&self) -> DiagSpecV {
        DiagSpecV {
            severity: self.severity@,
            code: self.code@,
            node_id: self.node_id@,
            msg: self.msg@,
            key: text_of(self.canonical_key),
            path: text_of(self.source_path),
            index: text_of(self.index_var),
            chain: text_of(self.fallback_chain),
        }
    }
}

/// A diagnostic with no optional field.
pub open spec fn plain_diag(severity: Text, code: Text, node_id: Text, msg: Text) -> DiagSpecV {
    DiagSpecV { severity, code, node_id, msg, key: None, path: None, index: None, chain: None }
}

/// A diagnostic on the value of a key, in the current item of a collection if
/// there is one.
pub open spec fn value_diag(
    severity: Text,
    code: Text,
    node_id: Text,
    msg: Text,
    key: Text,
    index: Option<Text>,
) -> DiagSpecV {
    DiagSpecV { key: Some(key), index, ..plain_diag(severity, code, node_id, msg) }
}

/// A diagnostic on the value of a key at a path.
pub open spec fn path_diag(
    severity: Text,
    code: Text,
    node_id: Text,
    msg: Text,
    key: Text,
    path: Text,
    index: Option<Text>,
) -> DiagSpecV {
    DiagSpecV { path: Some(path), ..value_diag(severity, code, node_id, msg, key, index) }
}

impl<'a> DiagSpec<'a> {
    /// A diagnostic with no optional field.
    pub fn new(severity: &'a str, code: &'a str, node_id: &'a str, msg: &'a str) -> (d: Self)
        ensures
            d@ == plain_diag(severity@, code@, node_id@, msg@),
    {
        DiagSpec {
            severity,
            code,
            node_id,
            msg,
            canonical_key: None,
            source_path: None,
            index_var: None,
            fallback_chain: None,
        }
    }

    /// With a canonical key.
    pub fn key(self, key: &'a str) -> (d: Self)
        ensures
            d@ == (DiagSpecV { key: Some(key@), ..self@ }),
    {
        DiagSpec { canonical_key: Some(key), ..self }
    }

    /// With a source path.
    pub fn path(self, path: &'a str) -> (d: Self)
        ensures
            d@ == (DiagSpecV { path: Some(path@), ..self@ }),
    {
        DiagSpec { source_path: Some(path), ..self }
    }

    /// With the variable that holds the index in a collection, if there is one.
    pub fn index(self, index_var: Option<&'a str>) -> (d: Self)
        ensures
            d@ == (DiagSpecV { index: text_of(index_var), ..self@ }),
    {
        DiagSpec { index_var, ..self }
    }

    /// With an expression for the chain of fallbacks.
    pub fn chain(self, chain: &'a str) -> (d: Self)
        ensures
            d@ == (DiagSpecV { chain: Some(chain@), ..self@ }),
    {
        DiagSpec { fallback_chain: Some(chain), ..self }
    }

    /// Appends the generated code, each line behind `pad`.
    pub fn emit(&self, out: &mut String, pad: &str)
        ensures
            final(out)@ == diag_code(old(out)@, self@, pad@),
    {
        out.push_str(pad);
        out.push_str("let mut diag = MappingDiagnostic::new(");
        out.push_str(self.severity);
        out.push_str(", ");
        out.push_str(quote(self.code).as_str());
        out.push_str(", ");
        out.push_str(quote(self.node_id).as_str());
        out.push_str(", ");
        out.push_str(self.msg);
        out.push_str(");\n");
        if let Some(key) = self.canonical_key {
            out.push_str(pad);
            out.push_str("diag.canonical_key = Some(");
            out.push_str(quote(key).as_str());
            out.push_str(".to_string());\n");
        }
        if let Some(path) = self.source_path {
            out.push_str(pad);
            out.push_str("diag.source_path = Some(");
            out.push_str(quote(path).as_str());
            out.push_str(".to_string());\n");
        }
        if let Some(idx) = self.index_var {
            out.push_str(pad);
            out.push_str("diag.collection_index = Some(");
            out.push_str(idx);
            out.push_str(");\n");
        }
        if let Some(chain) = self.fallback_chain {
            out.push_str(pad);
            out.push_str("diag.fallback_chain = ");
            out.push_str(chain);
            out.push_str(";\n");
        }
        out.push_str(pad);
        out.push_str("diagnostics.push(diag);\n");
    }
}

/// The text `t` with the code that pushes a diagnostic, each line behind `pad`.
pub open spec fn diag_code(t: Text, d: DiagSpecV, pad: Text) -> Text {
    let t = t + pad + "let mut diag = MappingDiagnostic::new("@ + d.severity + ", "@ + quoted(d.code) + ", "@ + quoted(d.node_id) + ", "@ + d.msg + ");\n"@;
    let t = if d.key is Some {
        let t = t + pad + "diag.canonical_key = Some("@ + quoted(d.key->0) + ".to_string());\n"@;
        t
    } else {
        t
    };
    let t = if d.path is Some {
        let t = t + pad + "diag.source_path = Some("@ + quoted(d.path->0) + ".to_string());\n"@;
        t
    } else {
        t
    };
    let t = if d.index is Some {
        let t = t + pad + "diag.collection_index = Some("@ + d.index->0 + ");\n"@;
        t
    } else {
        t
    };
    let t = if d.chain is Some {
        let t = t + pad + "diag.fallback_chain = "@ + d.chain->0 + ";\n"@;
        t
    } else {
        t
    };
    let t = t + pad + "diagnostics.push(diag);\n"@;
    t
}

} // verus!
