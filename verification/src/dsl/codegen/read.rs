//! The generated reader: from a source document to the hub.
use vstd::prelude::*;

use crate::dsl::codegen::access::{
    access_expr, access_of, collection_item_struct, collection_slice_expr, collection_take_expr,
    item_struct_at, list_slice_of, list_take_of, normalize_chain, normalized, take_expr, take_of,
};
use crate::dsl::codegen::diag::{
    diag_code, path_diag, text_of, value_diag, DiagSpec, DiagSpecV,
};
use crate::dsl::codegen::naming::{field_of, item_of, item_struct_name, snake_case};
use crate::dsl::codegen::plan::{
    generable, id_len, joins, lemma_picked_play, lemma_picked_scalars, lemma_room, picked, plays, room,
    Frame, FrameV, GenCtx, Role,
};
use crate::dsl::codegen::sharing::{repeats, Shared};
use crate::dsl::ir::{scopes_ascend, IrNodesV};
use crate::dsl::multiple::MultiplePolicy;
use crate::dsl::node::{min_items_of, NodeV, SourceNode};
use crate::dsl::normalize::NormalizeOp;
use crate::dsl::source_model::meta::{ModelV, SourceModelMeta};
use crate::dsl::types::MappingType;
use crate::ordmap::lookup;
use crate::dsl::node::NodeId;
use crate::text::{decimal, decimal_of, quote, quoted, Text};

verus! {

/// Where the code of a value reads from and assigns to.
pub struct Target<'a> {
    pub struct_var: &'a str,
    pub base_var: &'a str,
    pub index_var: Option<&'a str>,
    pub owned: bool,
}

/// The model of a [`Target`].
#[verifier::ext_equal]
pub struct TargetV {
    pub struct_var: Text,
    pub base: Text,
    pub index: Option<Text>,
    pub owned: bool,
}

impl<'a> View for Target<'a> {
    type V = TargetV;

    open spec fn view(&self) -> TargetV {
        TargetV {
            struct_var: self.struct_var@,
            base: self.base_var@,
            index: text_of(self.index_var),
            owned: self.owned,
        }
    }
}

/// The runtime check of a type that is a restricted text, and what such a text is
/// called.
pub open spec fn validator_of(ty: MappingType) -> Option<(Text, Text)> {
    match ty {
        MappingType::Currency => Some(("is_currency"@, "currency code"@)),
        MappingType::Date => Some(("is_date"@, "date"@)),
        MappingType::Datetime => Some(("is_datetime"@, "date-time"@)),
        MappingType::UnitCode => Some(("is_unit_code"@, "unit code"@)),
        _ => None,
    }
}

/// The runtime check of a type that is a restricted text.
fn lexical_validator(ty: MappingType) -> (r: Option<(&'static str, &'static str)>)
    ensures
        match r {
            Some(v) => validator_of(ty) == Some((v.0@, v.1@)),
            None => validator_of(ty) is None,
        },
{
    match ty {
        MappingType::Currency => Some(("is_currency", "currency code")),
        MappingType::Date => Some(("is_date", "date")),
        MappingType::Datetime => Some(("is_datetime", "date-time")),
        MappingType::UnitCode => Some(("is_unit_code", "unit code")),
        _ => None,
    }
}

/// The expression that reads one optional text.
pub open spec fn value_expr(
    model: ModelV,
    start: Text,
    path: Text,
    ops: Seq<NormalizeOp>,
    target: TargetV,
    take: bool,
) -> Text {
    let access = if take {
        take_of(model, start, path, target.base)
    } else {
        access_of(model, start, path, target.base)
    };
    normalized(access, ops, take, ops.len() as int)
}

/// The expression that reads one optional text.
fn read_one_value(
    source: &SourceModelMeta,
    start_struct: &str,
    path: &str,
    normalize: &Vec<NormalizeOp>,
    target: &Target,
    take: bool,
) -> (out: String)
    ensures
        out@ == value_expr(source@, start_struct@, path@, normalize.deep_view(), target@, take),
{
    let access = if take {
        take_expr(source, start_struct, path, target.base_var)
    } else {
        access_expr(source, start_struct, path, target.base_var)
    };
    normalize_chain(access.as_str(), normalize, take)
}

/// The expressions for a node and the first `n` of its fallbacks.
pub open spec fn chain_items(node: NodeV, n: int) -> Text
    decreases n,
{
    if n <= 0 {
        quoted(node.id) + ".to_string()"@
    } else {
        chain_items(node, n - 1) + ", "@ + quoted(node.fallbacks[n - 1]) + ".to_string()"@
    }
}

/// The expressions for a node and its fallbacks.
fn fallback_chain_literal(node: &SourceNode) -> (out: String)
    ensures
        out@ == chain_items(node@, node@.fallbacks.len() as int),
{
    let mut out = quote(node.id.as_str());
    out.push_str(".to_string()");
    let mut i: usize = 0;
    while i < node.fallbacks.len()
        invariant
            i <= node.fallbacks.len(),
            out@ == chain_items(node@, i as int),
        decreases node.fallbacks.len() - i,
    {
        out.push_str(", ");
        out.push_str(quote(node.fallbacks[i].as_str()).as_str());
        out.push_str(".to_string()");
        i += 1;
    }
    out
}

/// The text `t` with the code that decodes `raw` and assigns it to `lhs`.
pub open spec fn decode_code(
    t: Text,
    node: NodeV,
    key: Text,
    pad: Text,
    lhs: Text,
    target: TargetV,
) -> Text {
    let inner4 = pad + "    "@;
    let inner8 = pad + "        "@;
    if node.source_type == MappingType::Decimal {
        let t = t + pad + "match Decimal::from_str(raw.trim()) {\n"@;
        let t = t + pad + "    Ok(d) => "@ + lhs + " = Some(d),\n"@;
        let t = t + pad + "    Err(_) => {\n"@;
        let t = diag_code(
            t,
            value_diag(
                "Severity::Error"@,
                "TYPE_INVALID"@,
                node.id,
                "format!(\"`{raw}` is not a valid decimal\")"@,
                key,
                target.index,
            ),
            inner8,
        );
        let t = t + pad + "    }\n"@;
        let t = t + pad + "}\n"@;
        t
    } else if node.source_type == MappingType::Boolean {
        let t = t + pad + "match raw.trim().parse::<bool>() {\n"@;
        let t = t + pad + "    Ok(b) => "@ + lhs + " = Some(b),\n"@;
        let t = t + pad + "    Err(_) => {\n"@;
        let t = diag_code(
            t,
            value_diag(
                "Severity::Error"@,
                "TYPE_INVALID"@,
                node.id,
                "format!(\"`{raw}` is not a valid boolean\")"@,
                key,
                target.index,
            ),
            inner8,
        );
        let t = t + pad + "    }\n"@;
        let t = t + pad + "}\n"@;
        t
    } else if validator_of(node.source_type) is Some {
        let t = t + pad + "if validate::"@ + (validator_of(node.source_type)->0).0
            + "(raw.trim()) {\n"@;
        let t = t + pad + "    "@ + lhs + " = Some(raw);\n"@;
        let t = t + pad + "} else {\n"@;
        let msg = "format!(\"`{raw}` is not a valid "@ + (validator_of(node.source_type)->0).1
            + "\")"@;
        let t = diag_code(
            t,
            value_diag("Severity::Error"@, "TYPE_INVALID"@, node.id, msg, key, target.index),
            inner4,
        );
        let t = t + pad + "}\n"@;
        t
    } else {
        let t = t + pad + lhs + " = Some(raw);\n"@;
        t
    }
}

/// Generates the code that decodes `raw` and assigns it to `lhs`.
fn decode_body(
    out: &mut String,
    node: &SourceNode,
    key: &str,
    pad: &str,
    lhs: &str,
    target: &Target,
)
    ensures
        final(out)@ == decode_code(old(out)@, node@, key@, pad@, lhs@, target@),
{
    let mut inner4_text = pad.to_string();
    inner4_text.push_str("    ");
    let inner4 = inner4_text.as_str();
    let mut inner8_text = pad.to_string();
    inner8_text.push_str("        ");
    let inner8 = inner8_text.as_str();
    if node.source_type == MappingType::Decimal {
        out.push_str(pad);
        out.push_str("match Decimal::from_str(raw.trim()) {\n");
        out.push_str(pad);
        out.push_str("    Ok(d) => ");
        out.push_str(lhs);
        out.push_str(" = Some(d),\n");
        out.push_str(pad);
        out.push_str("    Err(_) => {\n");
        DiagSpec::new(
            "Severity::Error",
            "TYPE_INVALID",
            node.id.as_str(),
            "format!(\"`{raw}` is not a valid decimal\")",
        )
        .key(key)
        .index(target.index_var)
        .emit(out, inner8);
        out.push_str(pad);
        out.push_str("    }\n");
        out.push_str(pad);
        out.push_str("}\n");
    } else if node.source_type == MappingType::Boolean {
        out.push_str(pad);
        out.push_str("match raw.trim().parse::<bool>() {\n");
        out.push_str(pad);
        out.push_str("    Ok(b) => ");
        out.push_str(lhs);
        out.push_str(" = Some(b),\n");
        out.push_str(pad);
        out.push_str("    Err(_) => {\n");
        DiagSpec::new(
            "Severity::Error",
            "TYPE_INVALID",
            node.id.as_str(),
            "format!(\"`{raw}` is not a valid boolean\")",
        )
        .key(key)
        .index(target.index_var)
        .emit(out, inner8);
        out.push_str(pad);
        out.push_str("    }\n");
        out.push_str(pad);
        out.push_str("}\n");
    } else if let Some((validator, human)) = lexical_validator(node.source_type) {
        out.push_str(pad);
        out.push_str("if validate::");
        out.push_str(validator);
        out.push_str("(raw.trim()) {\n");
        out.push_str(pad);
        out.push_str("    ");
        out.push_str(lhs);
        out.push_str(" = Some(raw);\n");
        out.push_str(pad);
        out.push_str("} else {\n");
        let mut msg = "format!(\"`{raw}` is not a valid ".to_string();
        msg.push_str(human);
        msg.push_str("\")");
        DiagSpec::new(
            "Severity::Error",
            "TYPE_INVALID",
            node.id.as_str(),
            msg.as_str(),
        )
        .key(key)
        .index(target.index_var)
        .emit(out, inner4);
        out.push_str(pad);
        out.push_str("}\n");
    } else {
        out.push_str(pad);
        out.push_str(lhs);
        out.push_str(" = Some(raw);\n");
    }
}

/// The text `t` with the code that adapts and decodes `raw` into the field of a key.
pub open spec fn assign_code(t: Text, node: NodeV, key: Text, pad: Text, target: TargetV) -> Text {
    let lhs = target.struct_var + "."@ + field_of(key);
    let inner4 = pad + "    "@;
    let inner8 = pad + "        "@;
    if node.adapter is Some {
        let t = t + pad + "let adapted = match adapter::"@ + node.adapter->0 + "(&raw) {\n"@;
        let t = t + pad + "    Ok(s) => Some(CompactString::from(s)),\n"@;
        let t = t + pad + "    Err(err) => {\n"@;
        let t = diag_code(
            t,
            value_diag(
                "Severity::Error"@,
                "ADAPTER_FAILED"@,
                node.id,
                "err.to_string()"@,
                key,
                target.index,
            ),
            inner8,
        );
        let t = t + pad + "        None\n"@;
        let t = t + pad + "    }\n"@;
        let t = t + pad + "};\n"@;
        let t = t + pad + "if let Some(raw) = adapted {\n"@;
        let t = decode_code(t, node, key, inner4, lhs, target);
        let t = t + pad + "}\n"@;
        t
    } else {
        decode_code(t, node, key, pad, lhs, target)
    }
}

/// Generates the code that adapts and decodes `raw` into the field of a key.
fn decode_and_assign(out: &mut String, node: &SourceNode, key: &str, pad: &str, target: &Target)
    ensures
        final(out)@ == assign_code(old(out)@, node@, key@, pad@, target@),
{
    let mut lhs = target.struct_var.to_string();
    lhs.push_str(".");
    lhs.push_str(snake_case(key).as_str());
    let mut inner4_text = pad.to_string();
    inner4_text.push_str("    ");
    let inner4 = inner4_text.as_str();
    let mut inner8_text = pad.to_string();
    inner8_text.push_str("        ");
    let inner8 = inner8_text.as_str();
    if let Some(adapter) = &node.adapter {
        out.push_str(pad);
        out.push_str("let adapted = match adapter::");
        out.push_str(adapter.as_str());
        out.push_str("(&raw) {\n");
        out.push_str(pad);
        out.push_str("    Ok(s) => Some(CompactString::from(s)),\n");
        out.push_str(pad);
        out.push_str("    Err(err) => {\n");
        DiagSpec::new(
            "Severity::Error",
            "ADAPTER_FAILED",
            node.id.as_str(),
            "err.to_string()",
        )
        .key(key)
        .index(target.index_var)
        .emit(out, inner8);
        out.push_str(pad);
        out.push_str("        None\n");
        out.push_str(pad);
        out.push_str("    }\n");
        out.push_str(pad);
        out.push_str("};\n");
        out.push_str(pad);
        out.push_str("if let Some(raw) = adapted {\n");
        decode_body(out, node, key, inner4, lhs.as_str(), target);
        out.push_str(pad);
        out.push_str("}\n");
    } else {
        decode_body(out, node, key, pad, lhs.as_str(), target);
    }
}

/// The text `t` with the code that reads a value that may occur many times.
pub open spec fn many_code(
    t: Text,
    model: ModelV,
    start: Text,
    node: NodeV,
    key: Text,
    policy: MultiplePolicy,
    pad: Text,
    target: TargetV,
    take: bool,
) -> Text {
    let inner4 = pad + "    "@;
    let t = if take {
        let vec_expr = list_take_of(model, start, node.source_path, target.base);
        let item_chain = normalized("Some(s)"@, node.normalize, true, node.normalize.len() as int);
        let t = t + pad + "let values: Vec<CompactString> = "@ + vec_expr
            + ".into_iter().filter_map(|s| "@ + item_chain + ").collect();\n"@;
        t
    } else {
        let vec_expr = list_slice_of(model, start, node.source_path, target.base);
        let item_chain = normalized(
            "Some(s.as_str())"@,
            node.normalize,
            false,
            node.normalize.len() as int,
        );
        let t = t + pad + "let values: Vec<CompactString> = "@ + vec_expr
            + ".iter().filter_map(|s| "@ + item_chain + ").collect();\n"@;
        t
    };
    match policy {
        MultiplePolicy::Error => {
            let t = t + pad + "if values.len() > 1 {\n"@;
            let msg = "format!(\"found {} values for single-valued `"@ + key
                + "`\", values.len())"@;
            let t = diag_code(
                t,
                path_diag(
                    "Severity::Error"@,
                    "MULTIPLE_VALUES"@,
                    node.id,
                    msg,
                    key,
                    node.source_path,
                    target.index,
                ),
                inner4,
            );
            let t = t + pad + "}\n"@;
            let t = t + pad
                + "let value: Option<CompactString> = if values.len() == 1 { values.into_iter().next() } else { None };\n"@;
            t
        },
        MultiplePolicy::First => {
            let t = t + pad + "if values.len() > 1 {\n"@;
            let msg = "format!(\"using the first of {} values for `"@ + key + "`\", values.len())"@;
            let t = diag_code(
                t,
                path_diag(
                    "Severity::Warning"@,
                    "MULTIPLE_VALUES"@,
                    node.id,
                    msg,
                    key,
                    node.source_path,
                    target.index,
                ),
                inner4,
            );
            let t = t + pad + "}\n"@;
            let t = t + pad + "let value: Option<CompactString> = values.into_iter().next();\n"@;
            t
        },
        MultiplePolicy::Join => {
            let t = t + pad
                + "let value: Option<CompactString> = if values.is_empty() { None } else { Some(values.join("@
                + quoted(node.join_with->0) + ").into()) };\n"@;
            t
        },
    }
}

/// Generates the code that reads a value that may occur many times.
fn read_multi_values(
    out: &mut String,
    source: &SourceModelMeta,
    start_struct: &str,
    node: &SourceNode,
    key: &str,
    policy: MultiplePolicy,
    pad: &str,
    target: &Target,
    take: bool,
)
    requires
        policy == MultiplePolicy::Join ==> node@.join_with is Some,
    ensures
        final(out)@ == many_code(
            old(out)@,
            source@,
            start_struct@,
            node@,
            key@,
            policy,
            pad@,
            target@,
            take,
        ),
{
    let mut inner4_text = pad.to_string();
    inner4_text.push_str("    ");
    let inner4 = inner4_text.as_str();
    if take {
        let vec_expr = collection_take_expr(
            source,
            start_struct,
            node.source_path.as_str(),
            target.base_var,
        );
        let item_chain = normalize_chain("Some(s)", &node.normalize, true);
        out.push_str(pad);
        out.push_str("let values: Vec<CompactString> = ");
        out.push_str(vec_expr.as_str());
        out.push_str(".into_iter().filter_map(|s| ");
        out.push_str(item_chain.as_str());
        out.push_str(").collect();\n");
    } else {
        let vec_expr = collection_slice_expr(
            source,
            start_struct,
            node.source_path.as_str(),
            target.base_var,
        );
        let item_chain = normalize_chain("Some(s.as_str())", &node.normalize, false);
        out.push_str(pad);
        out.push_str("let values: Vec<CompactString> = ");
        out.push_str(vec_expr.as_str());
        out.push_str(".iter().filter_map(|s| ");
        out.push_str(item_chain.as_str());
        out.push_str(").collect();\n");
    }
    match policy {
        MultiplePolicy::Error => {
            out.push_str(pad);
            out.push_str("if values.len() > 1 {\n");
            let mut msg = "format!(\"found {} values for single-valued `".to_string();
            msg.push_str(key);
            msg.push_str("`\", values.len())");
            DiagSpec::new(
                "Severity::Error",
                "MULTIPLE_VALUES",
                node.id.as_str(),
                msg.as_str(),
            )
            .key(key)
            .path(node.source_path.as_str())
            .index(target.index_var)
            .emit(out, inner4);
            out.push_str(pad);
            out.push_str("}\n");
            out.push_str(pad);
            out.push_str("let value: Option<CompactString> = if values.len() == 1 { values.into_iter().next() } else { None };\n");
        },
        MultiplePolicy::First => {
            out.push_str(pad);
            out.push_str("if values.len() > 1 {\n");
            let mut msg = "format!(\"using the first of {} values for `".to_string();
            msg.push_str(key);
            msg.push_str("`\", values.len())");
            DiagSpec::new(
                "Severity::Warning",
                "MULTIPLE_VALUES",
                node.id.as_str(),
                msg.as_str(),
            )
            .key(key)
            .path(node.source_path.as_str())
            .index(target.index_var)
            .emit(out, inner4);
            out.push_str(pad);
            out.push_str("}\n");
            out.push_str(pad);
            out.push_str("let value: Option<CompactString> = values.into_iter().next();\n");
        },
        MultiplePolicy::Join => {
            if let Some(sep) = &node.join_with {
                out.push_str(pad);
                out.push_str("let value: Option<CompactString> = if values.is_empty() { None } else { Some(values.join(");
                out.push_str(quote(sep.as_str()).as_str());
                out.push_str(").into()) };\n");
            }
        },
    }
}

/// The text `t` with the code that tries one fallback.
pub open spec fn fallback_code(
    t: Text,
    model: ModelV,
    start: Text,
    node: NodeV,
    key: Text,
    fb_id: Text,
    fb: NodeV,
    chain: Text,
    pad: Text,
    target: TargetV,
    take: bool,
) -> Text
{
    let inner8 = pad + "        "@;
    let t = t + pad + "if value.is_none() {\n"@;
    let t = t + pad + "    value = "@
        + value_expr(model, start, fb.source_path, fb.normalize, target, take) + ";\n"@;
    let t = t + pad + "    if value.is_some() {\n"@;
    let msg = "format!(\"used fallback `"@ + fb_id + "` for `"@ + key + "`\")"@;
    let t = diag_code(
        t,
        (DiagSpecV {
            chain: Some(chain),
            ..path_diag(
                "Severity::Info"@,
                "FALLBACK_USED"@,
                node.id,
                msg,
                key,
                fb.source_path,
                target.index,
            )
        }),
        inner8,
    );
    let t = t + pad + "    }\n"@;
    let t = t + pad + "}\n"@;
    t
}

/// Generates the code that tries one fallback.
fn read_fallback(
    out: &mut String,
    ctx: &GenCtx,
    start_struct: &str,
    node: &SourceNode,
    key: &str,
    fb_id: &str,
    fb: &SourceNode,
    chain: &str,
    pad: &str,
    target: &Target,
    take: bool,
)
    ensures
        final(out)@ == fallback_code(
            old(out)@,
            ctx.source@,
            start_struct@,
            node@,
            key@,
            fb_id@,
            fb@,
            chain@,
            pad@,
            target@,
            take,
        ),
{
    let mut inner8_text = pad.to_string();
    inner8_text.push_str("        ");
    let inner8 = inner8_text.as_str();
    out.push_str(pad);
    out.push_str("if value.is_none() {\n");
    let value = read_one_value(
        ctx.source,
        start_struct,
        fb.source_path.as_str(),
        &fb.normalize,
        target,
        take,
    );
    out.push_str(pad);
    out.push_str("    value = ");
    out.push_str(value.as_str());
    out.push_str(";\n");
    out.push_str(pad);
    out.push_str("    if value.is_some() {\n");
    let mut msg = "format!(\"used fallback `".to_string();
    msg.push_str(fb_id);
    msg.push_str("` for `");
    msg.push_str(key);
    msg.push_str("`\")");
    DiagSpec::new(
        "Severity::Info",
        "FALLBACK_USED",
        node.id.as_str(),
        msg.as_str(),
    )
    .key(key)
    .path(fb.source_path.as_str())
    .index(target.index_var)
    .chain(chain)
    .emit(out, inner8);
    out.push_str(pad);
    out.push_str("    }\n");
    out.push_str(pad);
    out.push_str("}\n");
}

/// The text `t` with the code that tries the first `n` fallbacks in turn.
pub open spec fn fallbacks_code(
    t: Text,
    nodes: IrNodesV,
    model: ModelV,
    start: Text,
    node: NodeV,
    key: Text,
    chain: Text,
    pad: Text,
    target: TargetV,
    shared: Seq<Text>,
    n: int,
) -> Text
    decreases n,
{
    if n <= 0 {
        t
    } else {
        let t = fallbacks_code(
            t,
            nodes,
            model,
            start,
            node,
            key,
            chain,
            pad,
            target,
            shared,
            n - 1,
        );
        let fb_id = node.fallbacks[n - 1];
        match lookup::<NodeId, NodeV>(nodes, fb_id) {
            Some(fb) => fallback_code(
                t,
                model,
                start,
                node,
                key,
                fb_id,
                fb,
                chain,
                pad,
                target,
                target.owned && !repeats(shared, fb.source_path),
            ),
            None => t,
        }
    }
}

/// Generates the code that tries the fallbacks in turn.
fn read_fallbacks(
    out: &mut String,
    ctx: &GenCtx,
    start_struct: &str,
    node: &SourceNode,
    key: &str,
    chain: &str,
    pad: &str,
    target: &Target,
    shared: &Shared,
)
    ensures
        final(out)@ == fallbacks_code(
            old(out)@,
            ctx.ir@.nodes,
            ctx.source@,
            start_struct@,
            node@,
            key@,
            chain@,
            pad@,
            target@,
            shared@,
            node@.fallbacks.len() as int,
        ),
{
    let ghost t = out@;
    let mut i: usize = 0;
    while i < node.fallbacks.len()
        invariant
            i <= node.fallbacks.len(),
            out@ == fallbacks_code(
                t,
                ctx.ir@.nodes,
                ctx.source@,
                start_struct@,
                node@,
                key@,
                chain@,
                pad@,
                target@,
                shared@,
                i as int,
            ),
        decreases node.fallbacks.len() - i,
    {
        let fb_id = &node.fallbacks[i];
        assert(node@.fallbacks[i as int] == fb_id@);
        if let Some(fb) = ctx.ir.nodes.get(fb_id) {
            let take = target.owned && !shared.has(&fb.source_path);
            read_fallback(
                out,
                ctx,
                start_struct,
                node,
                key,
                fb_id.as_str(),
                fb,
                chain,
                pad,
                target,
                take,
            );
        }
        i += 1;
    }
}

/// The text `t` with the code that reads one scalar.
pub open spec fn scalar_code(
    t: Text,
    nodes: IrNodesV,
    model: ModelV,
    node: NodeV,
    start: Text,
    pad: Text,
    target: TargetV,
    shared: Seq<Text>,
) -> Text {
    let key = node.canonical_key->0;
    let inner4 = pad + "    "@;
    let take = target.owned && !repeats(shared, node.source_path);
    let t = match node.multiple {
        Some(policy) => {
            let t = t + pad + "// "@ + node.id + " -> "@ + key + " (multiple)\n"@;
            many_code(t, model, start, node, key, policy, pad, target, take)
        },
        None => {
            let t = t + pad + "// "@ + node.id + " -> "@ + key + "\n"@;
            if node.fallbacks.len() == 0 {
                let t = t + pad + "let value: Option<CompactString> = "@
                    + value_expr(model, start, node.source_path, node.normalize, target, take)
                    + ";\n"@;
                t
            } else {
                let t = t + pad + "let mut value: Option<CompactString> = "@
                    + value_expr(model, start, node.source_path, node.normalize, target, take)
                    + ";\n"@;
                let chain = "vec!["@ + chain_items(node, node.fallbacks.len() as int) + "]"@;
                let t = fallbacks_code(
            t,
            nodes,
            model,
            start,
            node,
            key,
            chain,
            pad,
            target,
            shared,
            node.fallbacks.len() as int,
        );
                t
            }
        },
    };
    let t = t + pad + "if let Some(raw) = value {\n"@;
    let t = assign_code(t, node, key, inner4, target);
    let t = if node.required {
        let t = t + pad + "} else {\n"@;
        let t = diag_code(
            t,
            path_diag(
                "Severity::Error"@,
                "REQUIRED_MISSING"@,
                node.id,
                "\"required value is missing\""@,
                key,
                node.source_path,
                target.index,
            ),
            inner4,
        );
        t
    } else {
        t
    };
    let t = t + pad + "}\n"@;
    t
}

/// Generates the code that reads one scalar.
fn read_scalar_block(
    out: &mut String,
    ctx: &GenCtx,
    node: &SourceNode,
    start_struct: &str,
    pad: &str,
    target: &Target,
    shared: &Shared,
)
    requires
        plays(node@, Role::Scalar),
        joins(node@),
    ensures
        final(out)@ == scalar_code(
            old(out)@,
            ctx.ir@.nodes,
            ctx.source@,
            node@,
            start_struct@,
            pad@,
            target@,
            shared@,
        ),
{
    let key = match &node.canonical_key {
        Some(k) => k.as_str(),
        None => "",
    };
    let mut inner4_text = pad.to_string();
    inner4_text.push_str("    ");
    let inner4 = inner4_text.as_str();
    let take = target.owned && !shared.has(&node.source_path);
    if let Some(policy) = node.multiple {
        out.push_str(pad);
        out.push_str("// ");
        out.push_str(node.id.as_str());
        out.push_str(" -> ");
        out.push_str(key);
        out.push_str(" (multiple)\n");
        read_multi_values(
            out,
            ctx.source,
            start_struct,
            node,
            key,
            policy,
            pad,
            target,
            take,
        );
    } else {
        out.push_str(pad);
        out.push_str("// ");
        out.push_str(node.id.as_str());
        out.push_str(" -> ");
        out.push_str(key);
        out.push_str("\n");
        let value = read_one_value(
            ctx.source,
            start_struct,
            node.source_path.as_str(),
            &node.normalize,
            target,
            take,
        );
        if node.fallbacks.len() == 0 {
            out.push_str(pad);
            out.push_str("let value: Option<CompactString> = ");
            out.push_str(value.as_str());
            out.push_str(";\n");
        } else {
            out.push_str(pad);
            out.push_str("let mut value: Option<CompactString> = ");
            out.push_str(value.as_str());
            out.push_str(";\n");
            let mut chain = "vec![".to_string();
            chain.push_str(fallback_chain_literal(node).as_str());
            chain.push_str("]");
            read_fallbacks(
    out,
    ctx,
    start_struct,
    node,
    key,
    chain.as_str(),
    pad,
    target,
    shared,
);
        }
    }
    out.push_str(pad);
    out.push_str("if let Some(raw) = value {\n");
    decode_and_assign(out, node, key, inner4, target);
    if node.required {
        out.push_str(pad);
        out.push_str("} else {\n");
        DiagSpec::new(
            "Severity::Error",
            "REQUIRED_MISSING",
            node.id.as_str(),
            "\"required value is missing\"",
        )
        .key(key)
        .path(node.source_path.as_str())
        .index(target.index_var)
        .emit(out, inner4);
    }
    out.push_str(pad);
    out.push_str("}\n");
}

/// The text `t` with the code that compares a copy with the value it copies.
pub open spec fn clone_code(
    t: Text,
    model: ModelV,
    node: NodeV,
    start: Text,
    pad: Text,
    target: TargetV,
    shared: Seq<Text>,
) -> Text {
    let key = node.clone_of->0;
    let body = pad + "    "@;
    let inner8 = pad + "        "@;
    let deep = body + "            "@;
    let canonical = target.struct_var + "."@ + field_of(key);
    let take = target.owned && !repeats(shared, node.source_path);
    let t = t + pad + "// "@ + node.id + ": copy of "@ + key + ", consistency check\n"@;
    let t = t + pad + "{\n"@;
    let t = t + body + "let value: Option<CompactString> = "@
        + value_expr(model, start, node.source_path, node.normalize, target, take) + ";\n"@;
    let t = t + body + "if let Some(raw) = value {\n"@;
    let t = t + body + "    let mut clone_value = None;\n"@;
    let t = decode_code(t, node, key, inner8, "clone_value"@, target);
    let t = t + body + "    if let Some(found) = clone_value {\n"@;
    let t = t + body + "        if "@ + canonical + ".as_ref() != Some(&found) {\n"@;
    let msg = "format!(\"copy value `{found}` does not match the canonical `"@ + key
        + "` value\")"@;
    let t = diag_code(
        t,
        path_diag(
            "Severity::Warning"@,
            "CLONE_MISMATCH"@,
            node.id,
            msg,
            key,
            node.source_path,
            target.index,
        ),
        deep,
    );
    let t = t + body + "        }\n"@;
    let t = t + body + "    }\n"@;
    let t = t + body + "}\n"@;
    let t = t + pad + "}\n"@;
    t
}

/// Generates the code that compares a copy with the value it copies.
fn read_clone_check_block(
    out: &mut String,
    ctx: &GenCtx,
    node: &SourceNode,
    start_struct: &str,
    pad: &str,
    target: &Target,
    shared: &Shared,
)
    requires
        plays(node@, Role::Clone),
    ensures
        final(out)@ == clone_code(
            old(out)@,
            ctx.source@,
            node@,
            start_struct@,
            pad@,
            target@,
            shared@,
        ),
{
    let key = match &node.clone_of {
        Some(k) => k.as_str(),
        None => "",
    };
    let mut body_text = pad.to_string();
    body_text.push_str("    ");
    let body = body_text.as_str();
    let mut inner8_text = pad.to_string();
    inner8_text.push_str("        ");
    let inner8 = inner8_text.as_str();
    let mut deep_text = body.to_string();
    deep_text.push_str("            ");
    let deep = deep_text.as_str();
    let mut canonical = target.struct_var.to_string();
    canonical.push_str(".");
    canonical.push_str(snake_case(key).as_str());
    let take = target.owned && !shared.has(&node.source_path);
    out.push_str(pad);
    out.push_str("// ");
    out.push_str(node.id.as_str());
    out.push_str(": copy of ");
    out.push_str(key);
    out.push_str(", consistency check\n");
    out.push_str(pad);
    out.push_str("{\n");
    let value = read_one_value(
        ctx.source,
        start_struct,
        node.source_path.as_str(),
        &node.normalize,
        target,
        take,
    );
    out.push_str(body);
    out.push_str("let value: Option<CompactString> = ");
    out.push_str(value.as_str());
    out.push_str(";\n");
    out.push_str(body);
    out.push_str("if let Some(raw) = value {\n");
    out.push_str(body);
    out.push_str("    let mut clone_value = None;\n");
    decode_body(out, node, key, inner8, "clone_value", target);
    out.push_str(body);
    out.push_str("    if let Some(found) = clone_value {\n");
    out.push_str(body);
    out.push_str("        if ");
    out.push_str(canonical.as_str());
    out.push_str(".as_ref() != Some(&found) {\n");
    let mut msg = "format!(\"copy value `{found}` does not match the canonical `".to_string();
    msg.push_str(key);
    msg.push_str("` value\")");
    DiagSpec::new(
        "Severity::Warning",
        "CLONE_MISMATCH",
        node.id.as_str(),
        msg.as_str(),
    )
    .key(key)
    .path(node.source_path.as_str())
    .index(target.index_var)
    .emit(out, deep);
    out.push_str(body);
    out.push_str("        }\n");
    out.push_str(body);
    out.push_str("    }\n");
    out.push_str(body);
    out.push_str("}\n");
    out.push_str(pad);
    out.push_str("}\n");
}

/// The paths of the first `n` of a list of ids that exist.
pub open spec fn id_paths(nodes: IrNodesV, ids: Seq<Text>, n: int) -> Seq<Text>
    decreases n,
{
    if n <= 0 {
        Seq::empty()
    } else {
        let head = id_paths(nodes, ids, n - 1);
        match lookup::<NodeId, NodeV>(nodes, ids[n - 1]) {
            Some(fb) => head.push(fb.source_path),
            None => head,
        }
    }
}

/// The paths that the first `n` of a list of scalars read, fallbacks included.
pub open spec fn scalar_paths(nodes: IrNodesV, list: Seq<NodeV>, n: int) -> Seq<Text>
    decreases n,
{
    if n <= 0 {
        Seq::empty()
    } else {
        let node = list[n - 1];
        scalar_paths(nodes, list, n - 1).push(node.source_path) + id_paths(
            nodes,
            node.fallbacks,
            node.fallbacks.len() as int,
        )
    }
}

/// The paths of a list of nodes.
pub open spec fn own_paths(list: Seq<NodeV>) -> Seq<Text> {
    Seq::new(list.len(), |i: int| list[i].source_path)
}

/// The paths that are read inside a scope.
pub open spec fn read_paths(nodes: IrNodesV, scope: Option<Text>) -> Seq<Text> {
    let scalars = picked(nodes, Role::Scalar, scope);
    scalar_paths(nodes, scalars, scalars.len() as int) + own_paths(
        picked(nodes, Role::Clone, scope),
    ) + own_paths(picked(nodes, Role::Collection, scope))
}

/// Appends the paths of a list of nodes.
fn push_paths(out: &mut Vec<String>, list: &Vec<&SourceNode>)
    ensures
        final(out).deep_view() == old(out).deep_view() + own_paths(list.deep_view()),
{
    let ghost start = out.deep_view();
    let ghost added = own_paths(list.deep_view());
    let mut i: usize = 0;
    assert(start + added.take(0) =~= start);
    while i < list.len()
        invariant
            i <= list.len(),
            added == own_paths(list.deep_view()),
            out.deep_view() =~= start + added.take(i as int),
        decreases list.len() - i,
    {
        let ghost before = out.deep_view();
        out.push(list[i].source_path.clone());
        proof {
            assert(out.deep_view() =~= before.push(list@[i as int].source_path@));
            assert(added[i as int] == list@[i as int].source_path@);
            assert(start + added.take(i + 1) =~= (start + added.take(i as int)).push(
                added[i as int],
            ));
        }
        i += 1;
    }
    assert(added.take(i as int) =~= added);
}

/// Appends the paths of the fallbacks that exist.
fn push_fallback_paths(out: &mut Vec<String>, ctx: &GenCtx, node: &SourceNode)
    ensures
        final(out).deep_view() == old(out).deep_view() + id_paths(
            ctx.ir@.nodes,
            node@.fallbacks,
            node@.fallbacks.len() as int,
        ),
{
    let ghost start = out.deep_view();
    let ghost nodes = ctx.ir@.nodes;
    let mut i: usize = 0;
    assert(start + Seq::<Text>::empty() =~= start);
    while i < node.fallbacks.len()
        invariant
            i <= node.fallbacks.len(),
            nodes == ctx.ir@.nodes,
            out.deep_view() =~= start + id_paths(nodes, node@.fallbacks, i as int),
        decreases node.fallbacks.len() - i,
    {
        assert(node@.fallbacks[i as int] == node.fallbacks@[i as int]@);
        if let Some(fb) = ctx.ir.nodes.get(&node.fallbacks[i]) {
            let ghost before = out.deep_view();
            out.push(fb.source_path.clone());
            proof {
                assert(out.deep_view() =~= before.push(fb.source_path@));
                let head = id_paths(nodes, node@.fallbacks, i as int);
                assert(start + head.push(fb.source_path@) =~= (start + head).push(fb.source_path@));
            }
        }
        i += 1;
    }
}

/// The paths that are read more than once inside a scope.
fn shared_read_paths(
    ctx: &GenCtx,
    scalars: &Vec<&SourceNode>,
    clones: &Vec<&SourceNode>,
    collections: &Vec<&SourceNode>,
    Ghost(scope): Ghost<Option<Text>>,
) -> (r: Shared)
    requires
        scalars.deep_view() == picked(ctx.ir@.nodes, Role::Scalar, scope),
        clones.deep_view() == picked(ctx.ir@.nodes, Role::Clone, scope),
        collections.deep_view() == picked(ctx.ir@.nodes, Role::Collection, scope),
    ensures
        r@ == read_paths(ctx.ir@.nodes, scope),
{
    let ghost nodes = ctx.ir@.nodes;
    let ghost list = scalars.deep_view();
    let mut paths: Vec<String> = Vec::new();
    let mut i: usize = 0;
    assert(paths.deep_view() =~= Seq::<Text>::empty());
    while i < scalars.len()
        invariant
            i <= scalars.len(),
            nodes == ctx.ir@.nodes,
            list == scalars.deep_view(),
            paths.deep_view() == scalar_paths(nodes, list, i as int),
        decreases scalars.len() - i,
    {
        let ghost before = paths.deep_view();
        assert(list[i as int] == scalars@[i as int]@);
        paths.push(scalars[i].source_path.clone());
        assert(paths.deep_view() =~= before.push(list[i as int].source_path));
        push_fallback_paths(&mut paths, ctx, scalars[i]);
        i += 1;
    }
    push_paths(&mut paths, clones);
    push_paths(&mut paths, collections);
    Shared::of(&paths)
}

/// The text `t` with the code of the first `n` of a list of scalars.
pub open spec fn scalars_code(
    t: Text,
    nodes: IrNodesV,
    model: ModelV,
    start: Text,
    pad: Text,
    target: TargetV,
    shared: Seq<Text>,
    list: Seq<NodeV>,
    n: int,
) -> Text
    decreases n,
{
    if n <= 0 {
        t
    } else {
        let t = scalars_code(t, nodes, model, start, pad, target, shared, list, n - 1);
        scalar_code(t + "\n"@, nodes, model, list[n - 1], start, pad, target, shared)
    }
}

/// Generates the code of a list of scalars.
fn read_scalars(
    out: &mut String,
    ctx: &GenCtx,
    start_struct: &str,
    pad: &str,
    target: &Target,
    shared: &Shared,
    list: &Vec<&SourceNode>,
)
    requires
        forall|i: int| 0 <= i < list@.len() ==> plays(#[trigger] list.deep_view()[i], Role::Scalar) && joins(
            list.deep_view()[i],
        ),
    ensures
        final(out)@ == scalars_code(
            old(out)@,
            ctx.ir@.nodes,
            ctx.source@,
            start_struct@,
            pad@,
            target@,
            shared@,
            list.deep_view(),
            list@.len() as int,
        ),
{
    let ghost t = out@;
    let ghost views = list.deep_view();
    let mut i: usize = 0;
    while i < list.len()
        invariant
            i <= list.len(),
            views == list.deep_view(),
            forall|i: int| 0 <= i < views.len() ==> plays(#[trigger] views[i], Role::Scalar) && joins(
                views[i],
            ),
            out@ == scalars_code(
                t,
                ctx.ir@.nodes,
                ctx.source@,
                start_struct@,
                pad@,
                target@,
                shared@,
                views,
                i as int,
            ),
        decreases list.len() - i,
    {
        assert(views[i as int] == list@[i as int]@);
        out.push_str("\n");
        read_scalar_block(out, ctx, list[i], start_struct, pad, target, shared);
        i += 1;
    }
}

/// The text `t` with the code of the first `n` of a list of copies.
pub open spec fn clones_code(
    t: Text,
    model: ModelV,
    start: Text,
    pad: Text,
    target: TargetV,
    shared: Seq<Text>,
    list: Seq<NodeV>,
    n: int,
) -> Text
    decreases n,
{
    if n <= 0 {
        t
    } else {
        let t = clones_code(t, model, start, pad, target, shared, list, n - 1);
        clone_code(t + "\n"@, model, list[n - 1], start, pad, target, shared)
    }
}

/// Generates the code of a list of copies.
fn read_clones(
    out: &mut String,
    ctx: &GenCtx,
    start_struct: &str,
    pad: &str,
    target: &Target,
    shared: &Shared,
    list: &Vec<&SourceNode>,
)
    requires
        forall|i: int| 0 <= i < list@.len() ==> plays(#[trigger] list.deep_view()[i], Role::Clone),
    ensures
        final(out)@ == clones_code(
            old(out)@,
            ctx.source@,
            start_struct@,
            pad@,
            target@,
            shared@,
            list.deep_view(),
            list@.len() as int,
        ),
{
    let ghost t = out@;
    let ghost views = list.deep_view();
    let mut i: usize = 0;
    while i < list.len()
        invariant
            i <= list.len(),
            views == list.deep_view(),
            forall|i: int| 0 <= i < views.len() ==> plays(#[trigger] views[i], Role::Clone),
            out@ == clones_code(
                t,
                ctx.source@,
                start_struct@,
                pad@,
                target@,
                shared@,
                views,
                i as int,
            ),
        decreases list.len() - i,
    {
        assert(views[i as int] == list@[i as int]@);
        out.push_str("\n");
        read_clone_check_block(out, ctx, list[i], start_struct, pad, target, shared);
        i += 1;
    }
}

/// Where the code inside a collection reads from and assigns to.
pub open spec fn inner_target(f: FrameV, owned: bool) -> TargetV {
    TargetV {
        struct_var: "item"@ + decimal(f.depth),
        base: "element"@ + decimal(f.depth),
        index: Some("idx"@ + decimal(f.depth)),
        owned,
    }
}

/// Where the code of a collection inside another one stands.
pub open spec fn inner_frame(f: FrameV, item_struct: Text, owned: bool) -> FrameV {
    FrameV {
        depth: f.depth + 1,
        pad: f.pad + "    "@,
        parent_hub: "item"@ + decimal(f.depth),
        parent_src: "element"@ + decimal(f.depth),
        parent_struct: item_struct,
        owned,
    }
}

/// The text `t` with the code that opens the loop over a collection.
pub open spec fn opening_code(t: Text, model: ModelV, coll: NodeV, f: FrameV, owned: bool) -> Text {
    let key = coll.canonical_key->0;
    let d = decimal(f.depth);
    let elem = "element"@ + d;
    let item = "item"@ + d;
    let idx = "idx"@ + d;
    let count = "count"@ + d;
    let elements = "elements"@ + d;
    let body = f.pad + "    "@;
    let t = t + f.pad + "// "@ + coll.id + " -> "@ + key + " (collection)\n"@;
    let t = if owned {
        let list_expr = list_take_of(model, f.parent_struct, coll.source_path, f.parent_src);
        let t = t + f.pad + "let "@ + elements + " = "@ + list_expr + ";\n"@;
        let t = t + f.pad + "let "@ + count + " = "@ + elements + ".len();\n"@;
        let t = t + f.pad + f.parent_hub + "."@ + field_of(key) + ".reserve("@ + count + ");\n"@;
        let t = t + f.pad + "for ("@ + idx + ", mut "@ + elem + ") in "@ + elements
            + ".into_iter().enumerate() {\n"@;
        t
    } else {
        let list_expr = list_slice_of(model, f.parent_struct, coll.source_path, f.parent_src);
        let t = t + f.pad + "let "@ + elements + " = "@ + list_expr + ";\n"@;
        let t = t + f.pad + "let "@ + count + " = "@ + elements + ".len();\n"@;
        let t = t + f.pad + f.parent_hub + "."@ + field_of(key) + ".reserve("@ + count + ");\n"@;
        let t = t + f.pad + "for ("@ + idx + ", "@ + elem + ") in "@ + elements
            + ".iter().enumerate() {\n"@;
        t
    };
    let t = t + body + "let mut "@ + item + " = "@ + item_of(key) + "::default();\n"@;
    t
}

/// The text `t` with the code that closes the loop over a collection and counts
/// its items.
pub open spec fn closing_code(t: Text, coll: NodeV, f: FrameV) -> Text {
    let key = coll.canonical_key->0;
    let d = decimal(f.depth);
    let elem = "element"@ + d;
    let item = "item"@ + d;
    let idx = "idx"@ + d;
    let count = "count"@ + d;
    let elements = "elements"@ + d;
    let body = f.pad + "    "@;
    let t = t + "\n"@;
    let t = t + body + f.parent_hub + "."@ + field_of(key) + ".push("@ + item + ");\n"@;
    let t = t + f.pad + "}\n"@;
    let t = if min_items_of(coll) > 0 {
        let t = t + f.pad + "if "@ + count + " < "@ + decimal(min_items_of(coll) as nat) + " {\n"@;
        let msg = "format!(\"collection `"@ + key + "` has {"@ + count
            + "} items, expected at least "@ + decimal(min_items_of(coll) as nat) + "\")"@;
        let t = diag_code(
            t,
            path_diag("Severity::Error"@, "MIN_ITEMS"@, coll.id, msg, key, coll.source_path, None),
            body,
        );
        let t = t + f.pad + "}\n"@;
        t
    } else {
        t
    };
    t
}

/// The text `t` with the code that reads one collection.
pub open spec fn collection_code(
    t: Text,
    nodes: IrNodesV,
    model: ModelV,
    coll: NodeV,
    f: FrameV,
    shared: Seq<Text>,
) -> Text
    decreases room(nodes, coll.id), 1int, 0int,
    when scopes_ascend(nodes)
{
    let owned = f.owned && !repeats(shared, coll.source_path);
    let item_struct = item_struct_at(model, f.parent_struct, coll.source_path);
    let inside = Some(coll.id);
    let inner_shared = read_paths(nodes, inside);
    let target = inner_target(f, owned);
    let pad = f.pad + "    "@;
    let scalars = picked(nodes, Role::Scalar, inside);
    let copies = picked(nodes, Role::Clone, inside);
    let t = opening_code(t, model, coll, f, owned);
    let t = scalars_code(
        t,
        nodes,
        model,
        item_struct,
        pad,
        target,
        inner_shared,
        scalars,
        scalars.len() as int,
    );
    let t = clones_code(
        t,
        model,
        item_struct,
        pad,
        target,
        inner_shared,
        copies,
        copies.len() as int,
    );
    let t = nested_code(
        t,
        nodes,
        model,
        coll.id,
        inner_frame(f, item_struct, owned),
        inner_shared,
        picked(nodes, Role::Collection, inside).len() as int,
    );
    closing_code(t, coll, f)
}

/// The text `t` with the code that reads the first `n` of the collections inside
/// the collection `outer`.
pub open spec fn nested_code(
    t: Text,
    nodes: IrNodesV,
    model: ModelV,
    outer: Text,
    f: FrameV,
    shared: Seq<Text>,
    n: int,
) -> Text
    decreases room(nodes, outer), 0int, n,
    when scopes_ascend(nodes) && n <= picked(nodes, Role::Collection, Some(outer)).len()
{
    if n <= 0 {
        t
    } else {
        proof {
            lemma_room(nodes, outer);
        }
        let t = nested_code(t, nodes, model, outer, f, shared, n - 1);
        collection_code(
            t + "\n"@,
            nodes,
            model,
            picked(nodes, Role::Collection, Some(outer))[n - 1],
            f,
            shared,
        )
    }
}

/// Generates the code that opens the loop over a collection.
fn open_collection(out: &mut String, ctx: &GenCtx, coll: &SourceNode, frame: &Frame, owned: bool)
    requires
        plays(coll@, Role::Collection),
    ensures
        final(out)@ == opening_code(old(out)@, ctx.source@, coll@, frame@, owned),
{
    let key = match &coll.canonical_key {
        Some(k) => k.as_str(),
        None => "",
    };
    let hub_item = item_struct_name(key);
    let hub_field = snake_case(key);
    let d = decimal_of(frame.depth as u64);
    let mut elem = "element".to_string();
    elem.push_str(d.as_str());
    let mut item = "item".to_string();
    item.push_str(d.as_str());
    let mut idx = "idx".to_string();
    idx.push_str(d.as_str());
    let mut count = "count".to_string();
    count.push_str(d.as_str());
    let mut elements = "elements".to_string();
    elements.push_str(d.as_str());
    let mut body_text = frame.pad.to_string();
    body_text.push_str("    ");
    let body = body_text.as_str();
    out.push_str(frame.pad);
    out.push_str("// ");
    out.push_str(coll.id.as_str());
    out.push_str(" -> ");
    out.push_str(key);
    out.push_str(" (collection)\n");
    if owned {
        let list_expr = collection_take_expr(
            ctx.source,
            frame.parent_struct,
            coll.source_path.as_str(),
            frame.parent_src,
        );
        out.push_str(frame.pad);
        out.push_str("let ");
        out.push_str(elements.as_str());
        out.push_str(" = ");
        out.push_str(list_expr.as_str());
        out.push_str(";\n");
        out.push_str(frame.pad);
        out.push_str("let ");
        out.push_str(count.as_str());
        out.push_str(" = ");
        out.push_str(elements.as_str());
        out.push_str(".len();\n");
        out.push_str(frame.pad);
        out.push_str(frame.parent_hub);
        out.push_str(".");
        out.push_str(hub_field.as_str());
        out.push_str(".reserve(");
        out.push_str(count.as_str());
        out.push_str(");\n");
        out.push_str(frame.pad);
        out.push_str("for (");
        out.push_str(idx.as_str());
        out.push_str(", mut ");
        out.push_str(elem.as_str());
        out.push_str(") in ");
        out.push_str(elements.as_str());
        out.push_str(".into_iter().enumerate() {\n");
    } else {
        let list_expr = collection_slice_expr(
            ctx.source,
            frame.parent_struct,
            coll.source_path.as_str(),
            frame.parent_src,
        );
        out.push_str(frame.pad);
        out.push_str("let ");
        out.push_str(elements.as_str());
        out.push_str(" = ");
        out.push_str(list_expr.as_str());
        out.push_str(";\n");
        out.push_str(frame.pad);
        out.push_str("let ");
        out.push_str(count.as_str());
        out.push_str(" = ");
        out.push_str(elements.as_str());
        out.push_str(".len();\n");
        out.push_str(frame.pad);
        out.push_str(frame.parent_hub);
        out.push_str(".");
        out.push_str(hub_field.as_str());
        out.push_str(".reserve(");
        out.push_str(count.as_str());
        out.push_str(");\n");
        out.push_str(frame.pad);
        out.push_str("for (");
        out.push_str(idx.as_str());
        out.push_str(", ");
        out.push_str(elem.as_str());
        out.push_str(") in ");
        out.push_str(elements.as_str());
        out.push_str(".iter().enumerate() {\n");
    }
    out.push_str(body);
    out.push_str("let mut ");
    out.push_str(item.as_str());
    out.push_str(" = ");
    out.push_str(hub_item.as_str());
    out.push_str("::default();\n");
}

/// Generates the code that closes the loop over a collection and counts its items.
fn close_collection(out: &mut String, coll: &SourceNode, frame: &Frame)
    requires
        plays(coll@, Role::Collection),
    ensures
        final(out)@ == closing_code(old(out)@, coll@, frame@),
{
    let key = match &coll.canonical_key {
        Some(k) => k.as_str(),
        None => "",
    };
    let hub_field = snake_case(key);
    let min = coll.effective_min_items();
    let d = decimal_of(frame.depth as u64);
    let mut elem = "element".to_string();
    elem.push_str(d.as_str());
    let mut item = "item".to_string();
    item.push_str(d.as_str());
    let mut idx = "idx".to_string();
    idx.push_str(d.as_str());
    let mut count = "count".to_string();
    count.push_str(d.as_str());
    let mut elements = "elements".to_string();
    elements.push_str(d.as_str());
    let mut body_text = frame.pad.to_string();
    body_text.push_str("    ");
    let body = body_text.as_str();
    out.push_str("\n");
    out.push_str(body);
    out.push_str(frame.parent_hub);
    out.push_str(".");
    out.push_str(hub_field.as_str());
    out.push_str(".push(");
    out.push_str(item.as_str());
    out.push_str(");\n");
    out.push_str(frame.pad);
    out.push_str("}\n");
    if min > 0 {
        let min_text = decimal_of(min as u64);
        out.push_str(frame.pad);
        out.push_str("if ");
        out.push_str(count.as_str());
        out.push_str(" < ");
        out.push_str(min_text.as_str());
        out.push_str(" {\n");
        let mut msg = "format!(\"collection `".to_string();
        msg.push_str(key);
        msg.push_str("` has {");
        msg.push_str(count.as_str());
        msg.push_str("} items, expected at least ");
        msg.push_str(min_text.as_str());
        msg.push_str("\")");
        DiagSpec::new(
            "Severity::Error",
            "MIN_ITEMS",
            coll.id.as_str(),
            msg.as_str(),
        )
        .key(key)
        .path(coll.source_path.as_str())
        .emit(out, body);
        out.push_str(frame.pad);
        out.push_str("}\n");
    }
}

/// Generates the code that reads one collection.
#[verifier::rlimit(60)]
fn read_collection_block(
    out: &mut String,
    ctx: &GenCtx,
    coll: &SourceNode,
    frame: &Frame,
    shared: &Shared,
)
    requires
        ctx.wf(),
        generable(ctx.ir@.nodes),
        plays(coll@, Role::Collection),
        frame.depth <= coll@.id.len(),
    ensures
        final(out)@ == collection_code(
            old(out)@,
            ctx.ir@.nodes,
            ctx.source@,
            coll@,
            frame@,
            shared@,
        ),
    decreases room(ctx.ir@.nodes, coll@.id),
{
    let ghost nodes = ctx.ir@.nodes;
    let ghost model = ctx.source@;
    let ghost inside = Some(coll@.id);
    let owned = frame.owned && !shared.has(&coll.source_path);
    let item_struct = collection_item_struct(
        ctx.source,
        frame.parent_struct,
        coll.source_path.as_str(),
    );
    let children = ctx.plan.children_of(&coll.id);
    let nested = ctx.plan.nested_collections_of(&coll.id);
    let clones = ctx.plan.clones_of(&coll.id);
    let inner_shared = shared_read_paths(ctx, &children, &clones, &nested, Ghost(inside));
    let d = decimal_of(frame.depth as u64);
    let mut elem = "element".to_string();
    elem.push_str(d.as_str());
    let mut item = "item".to_string();
    item.push_str(d.as_str());
    let mut idx = "idx".to_string();
    idx.push_str(d.as_str());
    let mut pad = frame.pad.to_string();
    pad.push_str("    ");
    let target = Target {
        struct_var: item.as_str(),
        base_var: elem.as_str(),
        index_var: Some(idx.as_str()),
        owned,
    };
    proof {
        lemma_picked_scalars(nodes, inside);
        lemma_picked_play(nodes, Role::Clone, inside);
        lemma_picked_play(nodes, Role::Collection, inside);
        lemma_room(nodes, coll@.id);
        assert(target@ == inner_target(frame@, owned));
    }
    open_collection(out, ctx, coll, frame, owned);
    read_scalars(out, ctx, item_struct.as_str(), pad.as_str(), &target, &inner_shared, &children);
    read_clones(out, ctx, item_struct.as_str(), pad.as_str(), &target, &inner_shared, &clones);
    let ghost before = out@;
    let ghost views = nested.deep_view();
    let ghost inner = inner_frame(frame@, item_struct@, owned);
    let mut i: usize = 0;
    while i < nested.len()
        invariant
            i <= nested.len(),
            ctx.wf(),
            generable(nodes),
            nodes == ctx.ir@.nodes,
            model == ctx.source@,
            frame.depth <= coll@.id.len(),
            views == nested.deep_view(),
            views == picked(nodes, Role::Collection, Some(coll@.id)),
            inner == inner_frame(frame@, item_struct@, owned),
            item@ == "item"@ + decimal(frame.depth as nat),
            elem@ == "element"@ + decimal(frame.depth as nat),
            pad@ == frame.pad@ + "    "@,
            forall|j: int|
                0 <= j < views.len() ==> plays(#[trigger] views[j], Role::Collection)
                    && views[j].id.len() > coll@.id.len() && 0 <= room(nodes, views[j].id) < room(
                    nodes,
                    coll@.id,
                ),
            out@ == nested_code(
                before,
                nodes,
                model,
                coll@.id,
                inner,
                inner_shared@,
                i as int,
            ),
        decreases nested.len() - i,
    {
        assert(views[i as int] == nested@[i as int]@);
        let length = id_len(&nested[i].id);
        let inner_exec = Frame {
            depth: frame.depth + 1,
            pad: pad.as_str(),
            parent_hub: item.as_str(),
            parent_src: elem.as_str(),
            parent_struct: item_struct.as_str(),
            owned,
        };
        assert(inner_exec@ == inner);
        out.push_str("\n");
        read_collection_block(out, ctx, nested[i], &inner_exec, &inner_shared);
        i += 1;
    }
    close_collection(out, coll, frame);
}

/// The names and indentation of the code at the top of a reader or writer.
pub open spec fn root_frame(model: ModelV) -> FrameV {
    FrameV {
        depth: 0,
        pad: "    "@,
        parent_hub: "main"@,
        parent_src: "source"@,
        parent_struct: model.root,
        owned: true,
    }
}

/// The text `t` with the code that reads the first `n` of the collections at the
/// root.
pub open spec fn root_collections_code(
    t: Text,
    nodes: IrNodesV,
    model: ModelV,
    shared: Seq<Text>,
    n: int,
) -> Text
    decreases n,
{
    if n <= 0 {
        t
    } else {
        let t = root_collections_code(t, nodes, model, shared, n - 1);
        collection_code(
            t + "\n"@,
            nodes,
            model,
            picked(nodes, Role::Collection, None)[n - 1],
            root_frame(model),
            shared,
        )
    }
}

/// The text `t` with the first lines of the generated reader.
pub open spec fn reader_head(t: Text, root: Text) -> Text {
    let t = t + "/// Reads the typed source document into the canonical hub, consuming it\n"@;
    let t = t + "/// so uniquely-read values move instead of clone.\n"@;
    let t = t + "pub fn read(mut source: "@ + root + ") -> MappingResult<MainKey> {\n"@;
    let t = t + "    let mut diagnostics: Vec<MappingDiagnostic> = Vec::new();\n"@;
    t + "    let mut main = MainKey::default();\n"@
}

/// Where the code at the root reads from and assigns to.
pub open spec fn root_target() -> TargetV {
    TargetV { struct_var: "main"@, base: "source"@, index: None, owned: true }
}

/// The text `t` with the generated reader.
pub open spec fn reader_code(t: Text, nodes: IrNodesV, model: ModelV, root: Text) -> Text {
    let shared = read_paths(nodes, None);
    let scalars = picked(nodes, Role::Scalar, None);
    let copies = picked(nodes, Role::Clone, None);
    let t = reader_head(t, root);
    let t = scalars_code(
        t,
        nodes,
        model,
        model.root,
        "    "@,
        root_target(),
        shared,
        scalars,
        scalars.len() as int,
    );
    let t = clones_code(
        t,
        model,
        model.root,
        "    "@,
        root_target(),
        shared,
        copies,
        copies.len() as int,
    );
    let t = root_collections_code(
        t,
        nodes,
        model,
        shared,
        picked(nodes, Role::Collection, None).len() as int,
    );
    let t = t + "\n"@;
    let t = t + "    MappingResult::new(Some(main), diagnostics)\n"@;
    t + "}\n"@
}

/// Generates the first lines of the reader.
fn read_head(out: &mut String, root: &str)
    ensures
        final(out)@ == reader_head(old(out)@, root@),
{
    out.push_str("/// Reads the typed source document into the canonical hub, consuming it\n");
    out.push_str("/// so uniquely-read values move instead of clone.\n");
    out.push_str("pub fn read(mut source: ");
    out.push_str(root);
    out.push_str(") -> MappingResult<MainKey> {\n");
    out.push_str("    let mut diagnostics: Vec<MappingDiagnostic> = Vec::new();\n");
    out.push_str("    let mut main = MainKey::default();\n");
}

/// Generates the code of the collections at the root.
#[verifier::rlimit(40)]
fn read_root_collections(
    out: &mut String,
    ctx: &GenCtx,
    collections: &Vec<&SourceNode>,
    shared: &Shared,
)
    requires
        ctx.wf(),
        generable(ctx.ir@.nodes),
        collections.deep_view() == picked(ctx.ir@.nodes, Role::Collection, None),
    ensures
        final(out)@ == root_collections_code(
            old(out)@,
            ctx.ir@.nodes,
            ctx.source@,
            shared@,
            collections@.len() as int,
        ),
{
    let ghost nodes = ctx.ir@.nodes;
    let ghost model = ctx.source@;
    let ghost before = out@;
    let ghost views = collections.deep_view();
    proof {
        lemma_picked_play(nodes, Role::Collection, None);
    }
    let frame = Frame {
        depth: 0,
        pad: "    ",
        parent_hub: "main",
        parent_src: "source",
        parent_struct: ctx.source.root.as_str(),
        owned: true,
    };
    assert(frame@ == root_frame(model));
    let mut i: usize = 0;
    while i < collections.len()
        invariant
            i <= collections.len(),
            ctx.wf(),
            generable(nodes),
            nodes == ctx.ir@.nodes,
            model == ctx.source@,
            views == collections.deep_view(),
            views == picked(nodes, Role::Collection, None),
            frame@ == root_frame(model),
            forall|j: int|
                0 <= j < views.len() ==> plays(#[trigger] views[j], Role::Collection),
            out@ == root_collections_code(before, nodes, model, shared@, i as int),
        decreases collections.len() - i,
    {
        assert(views[i as int] == collections@[i as int]@);
        out.push_str("\n");
        read_collection_block(out, ctx, collections[i], &frame, shared);
        i += 1;
    }
}

/// Generates the reader.
pub fn generate_read(out: &mut String, ctx: &GenCtx, root: &str)
    requires
        ctx.wf(),
        generable(ctx.ir@.nodes),
    ensures
        final(out)@ == reader_code(old(out)@, ctx.ir@.nodes, ctx.source@, root@),
{
    let ghost nodes = ctx.ir@.nodes;
    let scalars = ctx.plan.at_root(Role::Scalar);
    let clones = ctx.plan.at_root(Role::Clone);
    let collections = ctx.plan.at_root(Role::Collection);
    let shared = shared_read_paths(ctx, &scalars, &clones, &collections, Ghost(None));
    let target = Target {
        struct_var: "main",
        base_var: "source",
        index_var: None,
        owned: true,
    };
    proof {
        lemma_picked_scalars(nodes, None);
        lemma_picked_play(nodes, Role::Clone, None);
        assert(target@ == root_target());
    }
    let start = ctx.source.root.as_str();
    read_head(out, root);
    read_scalars(out, ctx, start, "    ", &target, &shared, &scalars);
    read_clones(out, ctx, start, "    ", &target, &shared, &clones);
    read_root_collections(out, ctx, &collections, &shared);
    out.push_str("\n");
    out.push_str("    MappingResult::new(Some(main), diagnostics)\n");
    out.push_str("}\n");
}

} // verus!
