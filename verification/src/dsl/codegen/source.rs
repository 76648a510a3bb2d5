//! The generated source structs, their emptiness checks, and their XML input and
//! output.
use vstd::prelude::*;

use crate::dsl::source_model::meta::{
    FieldMeta, FieldType, FieldV, FieldsV, ModelV, SourceModelMeta, StructMeta, StructsV,
};
use crate::text::{join, join_strings, quote, quoted, Text};

verus! {

/// The Rust type of a source field.
pub open spec fn source_type(f: FieldV) -> Text {
    match f.ty {
        None => if f.repeated {
            "Vec<CompactString>"@
        } else if f.optional {
            "Option<CompactString>"@
        } else {
            "CompactString"@
        },
        Some(name) => if f.repeated {
            "Vec<"@ + name + ">"@
        } else {
            "Option<Box<"@ + name + ">>"@
        },
    }
}

/// The Rust type of a source field.
fn source_field_type(field: &FieldMeta) -> (out: String)
    ensures
        out@ == source_type(field@),
{
    match &field.ty {
        FieldType::Scalar => {
            if field.repeated {
                "Vec<CompactString>".to_string()
            } else if field.optional {
                "Option<CompactString>".to_string()
            } else {
                "CompactString".to_string()
            }
        },
        FieldType::Struct(name) => {
            if field.repeated {
                let mut out = "Vec<".to_string();
                out.push_str(name.as_str());
                out.push_str(">");
                out
            } else {
                let mut out = "Option<Box<".to_string();
                out.push_str(name.as_str());
                out.push_str(">>");
                out
            }
        },
    }
}

/// The settings of a field's serde attribute: its XML name, and what stands for
/// an absent value.
pub open spec fn serde_parts(f: FieldV) -> Seq<Text> {
    let name = match f.xml {
        Some(x) => seq!["rename = "@ + quoted(x)],
        None => Seq::empty(),
    };
    if f.repeated {
        name.push("default"@).push("skip_serializing_if = \"Vec::is_empty\""@)
    } else if f.optional || f.ty is Some {
        name.push("default"@).push("skip_serializing_if = \"Option::is_none\""@)
    } else {
        name
    }
}

/// The serde attribute of a field, if it needs one.
pub open spec fn attr_of(f: FieldV) -> Option<Text> {
    if serde_parts(f).len() == 0 {
        None
    } else {
        Some("#[serde("@ + join(serde_parts(f), ", "@) + ")]"@)
    }
}

/// The serde attribute of a field, if it needs one.
pub fn serde_attr(field: &FieldMeta) -> (r: Option<String>)
    ensures
        r.deep_view() == attr_of(field@),
{
    let mut parts: Vec<String> = Vec::new();
    if let Some(xml) = &field.xml {
        let mut rename = "rename = ".to_string();
        rename.push_str(quote(xml.as_str()).as_str());
        parts.push(rename);
        assert(parts.deep_view() =~= seq!["rename = "@ + quoted(xml@)]);
    } else {
        assert(parts.deep_view() =~= Seq::<Text>::empty());
    }
    let ghost name = parts.deep_view();
    let nested = match &field.ty {
        FieldType::Struct(_) => true,
        FieldType::Scalar => false,
    };
    if field.repeated {
        parts.push("default".to_string());
        parts.push("skip_serializing_if = \"Vec::is_empty\"".to_string());
        assert(parts.deep_view() =~= name.push("default"@).push(
            "skip_serializing_if = \"Vec::is_empty\""@,
        ));
    } else if field.optional || nested {
        parts.push("default".to_string());
        parts.push("skip_serializing_if = \"Option::is_none\"".to_string());
        assert(parts.deep_view() =~= name.push("default"@).push(
            "skip_serializing_if = \"Option::is_none\""@,
        ));
    }
    assert(parts.deep_view() == serde_parts(field@));
    if parts.len() == 0 {
        None
    } else {
        let mut out = "#[serde(".to_string();
        out.push_str(join_strings(&parts, ", ").as_str());
        out.push_str(")]");
        Some(out)
    }
}

/// The expression that tells whether a field is empty.
pub open spec fn empty_check(name: Text, f: FieldV) -> Text {
    if f.repeated || !(f.optional || f.ty is Some) {
        "self."@ + name + ".is_empty()"@
    } else {
        "self."@ + name + ".as_ref().map_or(true, |value| value.is_empty())"@
    }
}

/// The expression that tells whether a field is empty.
fn empty_check_of(name: &str, field: &FieldMeta) -> (out: String)
    ensures
        out@ == empty_check(name@, field@),
{
    let nested = match &field.ty {
        FieldType::Struct(_) => true,
        FieldType::Scalar => false,
    };
    let mut out = "self.".to_string();
    out.push_str(name);
    if field.repeated || !(field.optional || nested) {
        out.push_str(".is_empty()");
    } else {
        out.push_str(".as_ref().map_or(true, |value| value.is_empty())");
    }
    out
}

/// The text `t` with the emptiness checks of the first `n` fields.
pub open spec fn empty_checks(t: Text, fields: FieldsV, n: int) -> Text
    decreases n,
{
    if n <= 0 {
        t
    } else if n == 1 {
        t + "        "@ + empty_check(fields[0].0, fields[0].1) + "\n"@
    } else {
        empty_checks(t, fields, n - 1) + "            && "@ + empty_check(
            fields[n - 1].0,
            fields[n - 1].1,
        ) + "\n"@
    }
}

/// The text `t` with the emptiness check of a struct.
pub open spec fn is_empty_text(t: Text, name: Text, fields: FieldsV) -> Text {
    let t = t + "impl "@ + name + " {\n    pub fn is_empty(&self) -> bool {\n"@;
    let t = if fields.len() == 0 {
        t + "        true\n"@
    } else {
        empty_checks(t, fields, fields.len() as int)
    };
    t + "    }\n}\n"@
}

/// Generates the emptiness check of a struct.
fn generate_is_empty_impl(out: &mut String, name: &str, meta: &StructMeta)
    ensures
        final(out)@ == is_empty_text(old(out)@, name@, meta@),
{
    out.push_str("impl ");
    out.push_str(name);
    out.push_str(" {\n    pub fn is_empty(&self) -> bool {\n");
    if meta.fields.len() == 0 {
        out.push_str("        true\n");
    } else {
        let ghost t = out@;
        let mut i: usize = 0;
        while i < meta.fields.len()
            invariant
                i <= meta@.len(),
                out@ == empty_checks(t, meta@, i as int),
            decreases meta@.len() - i,
        {
            if i == 0 {
                out.push_str("        ");
            } else {
                out.push_str("            && ");
            }
            out.push_str(
                empty_check_of(meta.fields.key_at(i).as_str(), meta.fields.value_at(i)).as_str(),
            );
            out.push_str("\n");
            i += 1;
        }
    }
    out.push_str("    }\n}\n");
}

/// The text `t` with the declaration of a source field.
pub open spec fn source_field(t: Text, name: Text, f: FieldV) -> Text
{
    let t = if attr_of(f) is Some {
        let t = t + "    "@ + attr_of(f)->0 + "\n"@;
        t
    } else {
        t
    };
    let t = t + "    pub "@ + name + ": "@ + source_type(f) + ",\n"@;
    t
}

/// Declares a source field with its serde attribute.
fn declare_field(out: &mut String, name: &str, field: &FieldMeta)
    ensures
        final(out)@ == source_field(old(out)@, name@, field@),
{
    if let Some(attr) = serde_attr(field) {
        out.push_str("    ");
        out.push_str(attr.as_str());
        out.push_str("\n");
    }
    out.push_str("    pub ");
    out.push_str(name);
    out.push_str(": ");
    out.push_str(source_field_type(field).as_str());
    out.push_str(",\n");
}

/// The text `t` with the declarations of the first `n` fields.
pub open spec fn source_fields(t: Text, fields: FieldsV, n: int) -> Text
    decreases n,
{
    if n <= 0 {
        t
    } else {
        source_field(source_fields(t, fields, n - 1), fields[n - 1].0, fields[n - 1].1)
    }
}

/// The text `t` with a source struct and its emptiness check.
pub open spec fn struct_text(t: Text, name: Text, fields: FieldsV) -> Text {
    let t = t
        + "#[derive(Debug, Clone, Default, PartialEq, Eq, Serialize, Deserialize)]\npub struct "@
        + name + " {\n"@;
    let t = source_fields(t, fields, fields.len() as int) + "}\n"@;
    is_empty_text(t, name, fields)
}

/// Generates a source struct and its emptiness check.
fn generate_one_struct(out: &mut String, name: &str, meta: &StructMeta)
    ensures
        final(out)@ == struct_text(old(out)@, name@, meta@),
{
    out.push_str(
        "#[derive(Debug, Clone, Default, PartialEq, Eq, Serialize, Deserialize)]\npub struct ",
    );
    out.push_str(name);
    out.push_str(" {\n");
    let ghost t = out@;
    let mut i: usize = 0;
    while i < meta.fields.len()
        invariant
            i <= meta@.len(),
            out@ == source_fields(t, meta@, i as int),
        decreases meta@.len() - i,
    {
        declare_field(out, meta.fields.key_at(i).as_str(), meta.fields.value_at(i));
        i += 1;
    }
    out.push_str("}\n");
    generate_is_empty_impl(out, name, meta);
}

/// The text `t` with the first `n` source structs.
pub open spec fn structs_text(t: Text, structs: StructsV, n: int) -> Text
    decreases n,
{
    if n <= 0 {
        t + "// --- typed source structs ---\n"@
    } else {
        struct_text(structs_text(t, structs, n - 1), structs[n - 1].0, structs[n - 1].1) + "\n"@
    }
}

/// Generates every source struct of a model.
fn generate_source_structs(out: &mut String, source: &SourceModelMeta)
    ensures
        final(out)@ == structs_text(
            old(out)@,
            source@.structs,
            source@.structs.len() as int,
        ),
{
    out.push_str("// --- typed source structs ---\n");
    let ghost structs = source@.structs;
    let mut i: usize = 0;
    while i < source.structs.len()
        invariant
            i <= structs.len(),
            structs == source@.structs,
            out@ == structs_text(old(out)@, structs, i as int),
        decreases structs.len() - i,
    {
        generate_one_struct(out, source.structs.key_at(i).as_str(), source.structs.value_at(i));
        out.push_str("\n");
        i += 1;
    }
}

/// The text `t` with the XML input and output of the root struct.
pub open spec fn xml_io(t: Text, root: Text) -> Text
{
    let t = t + "/// Deserializes source XML bytes into the typed `"@ + root + "`.\n"@;
    let t = t + "pub fn from_xml(bytes: &[u8]) -> Result<"@ + root + ", quick_xml::DeError> {\n"@;
    let t = t + "    let s = std::str::from_utf8(bytes)\n"@;
    let t = t + "        .map_err(|e| quick_xml::DeError::Custom(format!(\"invalid utf-8: {e}\")))?;\n"@;
    let t = t + "    quick_xml::de::from_str(s)\n"@;
    let t = t + "}\n\n"@;
    let t = t + "/// Serializes a typed `"@ + root + "` back into XML.\n"@;
    let t = t + "pub fn to_xml(source: &"@ + root + ") -> Result<String, quick_xml::SeError> {\n"@;
    let t = t + "    quick_xml::se::to_string_with_root("@ + quoted(root) + ", source)\n"@;
    let t = t + "}\n"@;
    t
}

/// Generates the XML input and output of the root struct.
fn generate_xml_io(out: &mut String, root: &str)
    ensures
        final(out)@ == xml_io(old(out)@, root@),
{
    out.push_str("/// Deserializes source XML bytes into the typed `");
    out.push_str(root);
    out.push_str("`.\n");
    out.push_str("pub fn from_xml(bytes: &[u8]) -> Result<");
    out.push_str(root);
    out.push_str(", quick_xml::DeError> {\n");
    out.push_str("    let s = std::str::from_utf8(bytes)\n");
    out.push_str("        .map_err(|e| quick_xml::DeError::Custom(format!(\"invalid utf-8: {e}\")))?;\n");
    out.push_str("    quick_xml::de::from_str(s)\n");
    out.push_str("}\n\n");
    out.push_str("/// Serializes a typed `");
    out.push_str(root);
    out.push_str("` back into XML.\n");
    out.push_str("pub fn to_xml(source: &");
    out.push_str(root);
    out.push_str(") -> Result<String, quick_xml::SeError> {\n");
    out.push_str("    quick_xml::se::to_string_with_root(");
    out.push_str(quote(root).as_str());
    out.push_str(", source)\n");
    out.push_str("}\n");
}

/// The text `t` with the source section of a module: the structs and their XML
/// input and output.
pub open spec fn source_section_text(t: Text, model: ModelV) -> Text {
    xml_io(structs_text(t, model.structs, model.structs.len() as int) + "\n"@, model.root)
}

/// Generates the source section of a module.
pub fn source_section(out: &mut String, source: &SourceModelMeta)
    ensures
        final(out)@ == source_section_text(old(out)@, source@),
{
    generate_source_structs(out, source);
    out.push_str("\n");
    generate_xml_io(out, source.root.as_str());
}

} // verus!
