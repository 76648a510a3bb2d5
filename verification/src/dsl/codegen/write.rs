//! The generated writer: from the hub to a source document.
use vstd::prelude::*;

use crate::dsl::codegen::access::{
    any_optional, assign_target_expr, collection_item_struct, has_optional, item_struct_at,
    path_segs, target_of, walk_segments, SegV,
};
use crate::dsl::codegen::diag::{diag_code, path_diag, text_of, DiagSpec};
use crate::dsl::codegen::naming::{field_of, snake_case};
use crate::dsl::codegen::plan::{
    generable, id_len, lemma_picked_play, lemma_room, picked, plays, room, Frame, FrameV, GenCtx,
    Role,
};
use crate::dsl::codegen::read::root_frame;
use crate::dsl::codegen::sharing::{repeats, Shared};
use crate::dsl::ir::{scopes_ascend, IrNodesV};
use crate::dsl::node::{min_items_of, NodeV, SourceNode};
use crate::dsl::source_model::meta::{ModelV, SourceModelMeta};
use crate::dsl::types::MappingType;
use crate::text::{decimal, decimal_of, quote, quoted, Text};

verus! {

/// Whether a node has a value in the hub.
pub open spec fn keyed(n: NodeV) -> bool {
    n.canonical_key is Some || n.clone_of is Some
}

/// The key whose value a node is written from.
pub open spec fn hub_key_of(n: NodeV) -> Text {
    match n.canonical_key {
        Some(k) => k,
        None => n.clone_of->0,
    }
}

/// The key whose value a node is written from.
fn hub_key<'a>(node: &'a SourceNode) -> (k: &'a String)
    requires
        keyed(node@),
    ensures
        k@ == hub_key_of(node@),
{
    match &node.canonical_key {
        Some(k) => k,
        None => match &node.clone_of {
            Some(k) => k,
            None => {
                assert(false);
                &node.source_path
            },
        },
    }
}

/// The keys of those of the first `n` nodes that are written from the hub.
pub open spec fn own_keys(list: Seq<NodeV>, n: int) -> Seq<Text>
    decreases n,
{
    if n <= 0 {
        Seq::empty()
    } else {
        let head = own_keys(list, n - 1);
        if list[n - 1].constant is Some {
            head
        } else {
            head.push(hub_key_of(list[n - 1]))
        }
    }
}

/// The keys that are written inside a scope.
pub open spec fn write_keys(nodes: IrNodesV, scope: Option<Text>) -> Seq<Text> {
    let scalars = picked(nodes, Role::Scalar, scope);
    let copies = picked(nodes, Role::Clone, scope);
    let collections = picked(nodes, Role::Collection, scope);
    own_keys(scalars, scalars.len() as int) + own_keys(copies, copies.len() as int) + own_keys(
        collections,
        collections.len() as int,
    )
}

/// Appends the keys of the nodes that are written from the hub.
fn push_keys(out: &mut Vec<String>, list: &Vec<&SourceNode>)
    requires
        forall|i: int| 0 <= i < list@.len() ==> keyed(#[trigger] list.deep_view()[i]),
    ensures
        final(out).deep_view() == old(out).deep_view() + own_keys(
            list.deep_view(),
            list@.len() as int,
        ),
{
    let ghost start = out.deep_view();
    let ghost views = list.deep_view();
    let mut i: usize = 0;
    assert(start + Seq::<Text>::empty() =~= start);
    while i < list.len()
        invariant
            i <= list.len(),
            views == list.deep_view(),
            forall|i: int| 0 <= i < views.len() ==> keyed(#[trigger] views[i]),
            out.deep_view() =~= start + own_keys(views, i as int),
        decreases list.len() - i,
    {
        assert(views[i as int] == list@[i as int]@);
        if list[i].constant.is_none() {
            let ghost before = out.deep_view();
            let key = hub_key(list[i]);
            out.push(key.clone());
            proof {
                assert(out.deep_view() =~= before.push(key@));
                let head = own_keys(views, i as int);
                assert(start + head.push(key@) =~= (start + head).push(key@));
            }
        }
        i += 1;
    }
}

/// The keys that are written more than once inside a scope.
fn shared_hub_keys(
    ctx: &GenCtx,
    scalars: &Vec<&SourceNode>,
    clones: &Vec<&SourceNode>,
    collections: &Vec<&SourceNode>,
    Ghost(scope): Ghost<Option<Text>>,
) -> (r: Shared)
    requires
        scalars.deep_view() == picked(ctx.ir@.nodes, Role::Scalar, scope),
        clones.deep_view() == picked(ctx.ir@.nodes, Role::Clone, scope),
        collections.deep_view() == picked(ctx.ir@.nodes, Role::Collection, scope),
    ensures
        r@ == write_keys(ctx.ir@.nodes, scope),
{
    let ghost nodes = ctx.ir@.nodes;
    proof {
        lemma_picked_play(nodes, Role::Scalar, scope);
        lemma_picked_play(nodes, Role::Clone, scope);
        lemma_picked_play(nodes, Role::Collection, scope);
    }
    let mut keys: Vec<String> = Vec::new();
    assert(keys.deep_view() =~= Seq::<Text>::empty());
    push_keys(&mut keys, scalars);
    push_keys(&mut keys, clones);
    push_keys(&mut keys, collections);
    proof {
        let a = own_keys(scalars.deep_view(), scalars@.len() as int);
        assert(Seq::<Text>::empty() + a =~= a);
    }
    Shared::of(&keys)
}

/// The last field of a path, if the path resolves.
pub open spec fn leaf_of(model: ModelV, start: Text, path: Text) -> Option<SegV> {
    match path_segs(model, start, path) {
        Some(segs) => Some(segs.last()),
        None => None,
    }
}

/// Whether the last field of a path is held in an `Option`.
pub open spec fn leaf_optional(model: ModelV, start: Text, path: Text) -> bool {
    leaf_of(model, start, path) matches Some(s) && s.optional
}

/// Whether the last field of a path is a list of texts.
pub open spec fn leaf_repeated(model: ModelV, start: Text, path: Text) -> bool {
    leaf_of(model, start, path) matches Some(s) && s.repeated && s.struct_name is None
}

/// Whether the last field of a path is held in an `Option`, and whether it is a
/// list of texts.
fn leaf_shape(source: &SourceModelMeta, start_struct: &str, path: &str) -> (r: (bool, bool))
    ensures
        r.0 == leaf_optional(source@, start_struct@, path@),
        r.1 == leaf_repeated(source@, start_struct@, path@),
{
    match walk_segments(source, start_struct, path) {
        Some(segs) => {
            assert(segs.deep_view().last() == segs@.last().deep_view());
            let last = &segs[segs.len() - 1];
            (last.optional, last.repeated && last.struct_name.is_none())
        },
        None => (false, false),
    }
}

/// Whether a path leads through a field held in an `Option`.
pub open spec fn crosses_optional(model: ModelV, start: Text, path: Text) -> bool {
    path_segs(model, start, path) matches Some(segs) && any_optional(segs)
}

/// Whether a path leads through a field held in an `Option`.
fn crosses_boxed(source: &SourceModelMeta, start_struct: &str, path: &str) -> (r: bool)
    ensures
        r == crosses_optional(source@, start_struct@, path@),
{
    match walk_segments(source, start_struct, path) {
        Some(segs) => has_optional(&segs),
        None => false,
    }
}

/// The text `t` with the code that writes a constant.
pub open spec fn constant_code(
    t: Text,
    model: ModelV,
    node: NodeV,
    start: Text,
    src_var: Text,
    pad: Text,
) -> Text {
    let place = target_of(model, start, node.source_path, src_var);
    let value = "CompactString::from("@ + quoted(node.constant->0) + ")"@;
    let t = t + pad + "// constant -> "@ + node.source_path + "\n"@;
    let t = if leaf_optional(model, start, node.source_path) {
        let t = t + pad + place + " = Some("@ + value + ");\n"@;
        t
    } else {
        let t = t + pad + place + " = "@ + value + ";\n"@;
        t
    };
    t
}

/// Generates the code that writes a constant.
fn write_constant_block(
    out: &mut String,
    source: &SourceModelMeta,
    node: &SourceNode,
    start_struct: &str,
    src_var: &str,
    pad: &str,
)
    requires
        plays(node@, Role::Constant),
    ensures
        final(out)@ == constant_code(
            old(out)@,
            source@,
            node@,
            start_struct@,
            src_var@,
            pad@,
        ),
{
    let lit = match &node.constant {
        Some(k) => k.as_str(),
        None => "",
    };
    let (optional, _repeated) = leaf_shape(source, start_struct, node.source_path.as_str());
    let place = assign_target_expr(source, start_struct, node.source_path.as_str(), src_var);
    let mut value = "CompactString::from(".to_string();
    value.push_str(quote(lit).as_str());
    value.push_str(")");
    out.push_str(pad);
    out.push_str("// constant -> ");
    out.push_str(node.source_path.as_str());
    out.push_str("\n");
    if optional {
        out.push_str(pad);
        out.push_str(place.as_str());
        out.push_str(" = Some(");
        out.push_str(value.as_str());
        out.push_str(");\n");
    } else {
        out.push_str(pad);
        out.push_str(place.as_str());
        out.push_str(" = ");
        out.push_str(value.as_str());
        out.push_str(";\n");
    }
}

/// The text `t` with the diagnostic on a required value that is missing.
pub open spec fn missing_code(
    t: Text,
    node: NodeV,
    key: Text,
    index: Option<Text>,
    pad: Text,
) -> Text
{
    let t = diag_code(
        t,
        path_diag(
            "Severity::Error"@,
            "REQUIRED_MISSING"@,
            node.id,
            "\"required value is missing\""@,
            key,
            node.source_path,
            index,
        ),
        pad,
    );
    t
}

/// Generates the diagnostic on a required value that is missing.
fn emit_required_missing(
    out: &mut String,
    node: &SourceNode,
    key: &str,
    index_var: Option<&str>,
    pad: &str,
)
    ensures
        final(out)@ == missing_code(old(out)@, node@, key@, text_of(index_var), pad@),
{
    DiagSpec::new(
        "Severity::Error",
        "REQUIRED_MISSING",
        node.id.as_str(),
        "\"required value is missing\"",
    )
    .key(key)
    .path(node.source_path.as_str())
    .index(index_var)
    .emit(out, pad);
}

/// The expression that renders a hub value as text.
pub open spec fn rendered_expr(ty: MappingType, take: bool) -> Text {
    if ty == MappingType::Decimal || ty == MappingType::Boolean {
        "value.to_compact_string()"@
    } else if take {
        "value"@
    } else {
        "value.clone()"@
    }
}

/// The expression that renders a hub value as text.
fn rendered_of(ty: MappingType, take: bool) -> (s: &'static str)
    ensures
        s@ == rendered_expr(ty, take),
{
    if ty == MappingType::Decimal || ty == MappingType::Boolean {
        "value.to_compact_string()"
    } else if take {
        "value"
    } else {
        "value.clone()"
    }
}

/// The text `t` with the code that writes one scalar.
pub open spec fn scalar_write_code(
    t: Text,
    model: ModelV,
    node: NodeV,
    start: Text,
    hub_var: Text,
    src_var: Text,
    index: Option<Text>,
    pad: Text,
    take: bool,
) -> Text {
    let key = hub_key_of(node);
    let inner4 = pad + "    "@;
    let inner8 = pad + "        "@;
    let place = target_of(model, start, node.source_path, src_var);
    let t = t + pad + "// "@ + key + " -> "@ + node.source_path + "\n"@;
    let t = if take {
        let t = t + pad + "if let Some(value) = "@ + hub_var + "."@ + field_of(key)
            + ".take() {\n"@;
        t
    } else {
        let t = t + pad + "if let Some(value) = &"@ + hub_var + "."@ + field_of(key) + " {\n"@;
        t
    };
    let t = t + pad + "    let rendered = "@ + rendered_expr(node.source_type, take) + ";\n"@;
    let t = t + pad + "    if !rendered.is_empty() {\n"@;
    let t = if leaf_repeated(model, start, node.source_path) {
        let t = t + pad + "        "@ + place + ".push(rendered);\n"@;
        t
    } else {
        let t = if leaf_optional(model, start, node.source_path) {
            let t = t + pad + "        "@ + place + " = Some(rendered);\n"@;
            t
        } else {
            let t = t + pad + "        "@ + place + " = rendered;\n"@;
            t
        };
        t
    };
    let t = if node.required {
        let t = t + pad + "    } else {\n"@;
        let t = missing_code(t, node, key, index, inner8);
        let t = t + pad + "    }\n"@;
        let t = t + pad + "} else {\n"@;
        let t = missing_code(t, node, key, index, inner4);
        let t = t + pad + "}\n"@;
        t
    } else {
        let t = t + pad + "    }\n"@;
        let t = t + pad + "}\n"@;
        t
    };
    t
}

/// Generates the code that writes one scalar.
fn write_scalar_block(
    out: &mut String,
    source: &SourceModelMeta,
    node: &SourceNode,
    start_struct: &str,
    hub_var: &str,
    src_var: &str,
    index_var: Option<&str>,
    pad: &str,
    take: bool,
)
    requires
        keyed(node@),
    ensures
        final(out)@ == scalar_write_code(
            old(out)@,
            source@,
            node@,
            start_struct@,
            hub_var@,
            src_var@,
            text_of(index_var),
            pad@,
            take,
        ),
{
    let key = hub_key(node);
    let field = snake_case(key.as_str());
    let (optional, repeated) = leaf_shape(source, start_struct, node.source_path.as_str());
    let ghost index = text_of(index_var);
    let mut inner4_text = pad.to_string();
    inner4_text.push_str("    ");
    let inner4 = inner4_text.as_str();
    let mut inner8_text = pad.to_string();
    inner8_text.push_str("        ");
    let inner8 = inner8_text.as_str();
    let place = assign_target_expr(source, start_struct, node.source_path.as_str(), src_var);
    out.push_str(pad);
    out.push_str("// ");
    out.push_str(key.as_str());
    out.push_str(" -> ");
    out.push_str(node.source_path.as_str());
    out.push_str("\n");
    if take {
        out.push_str(pad);
        out.push_str("if let Some(value) = ");
        out.push_str(hub_var);
        out.push_str(".");
        out.push_str(field.as_str());
        out.push_str(".take() {\n");
    } else {
        out.push_str(pad);
        out.push_str("if let Some(value) = &");
        out.push_str(hub_var);
        out.push_str(".");
        out.push_str(field.as_str());
        out.push_str(" {\n");
    }
    out.push_str(pad);
    out.push_str("    let rendered = ");
    out.push_str(rendered_of(node.source_type, take));
    out.push_str(";\n");
    out.push_str(pad);
    out.push_str("    if !rendered.is_empty() {\n");
    if repeated {
        out.push_str(pad);
        out.push_str("        ");
        out.push_str(place.as_str());
        out.push_str(".push(rendered);\n");
    } else {
        if optional {
            out.push_str(pad);
            out.push_str("        ");
            out.push_str(place.as_str());
            out.push_str(" = Some(rendered);\n");
        } else {
            out.push_str(pad);
            out.push_str("        ");
            out.push_str(place.as_str());
            out.push_str(" = rendered;\n");
        }
    }
    if node.required {
        out.push_str(pad);
        out.push_str("    } else {\n");
        emit_required_missing(out, node, key.as_str(), index_var, inner8);
        out.push_str(pad);
        out.push_str("    }\n");
        out.push_str(pad);
        out.push_str("} else {\n");
        emit_required_missing(out, node, key.as_str(), index_var, inner4);
        out.push_str(pad);
        out.push_str("}\n");
    } else {
        out.push_str(pad);
        out.push_str("    }\n");
        out.push_str(pad);
        out.push_str("}\n");
    }
}

/// Where the code of a value is written from and to.
#[verifier::ext_equal]
pub struct PlaceV {
    pub start: Text,
    pub hub_var: Text,
    pub src_var: Text,
    pub index: Option<Text>,
    pub pad: Text,
    pub owned: bool,
    pub spaced: bool,
}

/// Where the code of a value is written from and to.
pub struct Place<'a> {
    pub start_struct: &'a str,
    pub hub_var: &'a str,
    pub src_var: &'a str,
    pub index_var: Option<&'a str>,
    pub pad: &'a str,
    pub owned: bool,
    pub spaced: bool,
}

impl<'a> View for Place<'a> {
    type V = PlaceV;

    open spec fn view(&self) -> PlaceV {
        PlaceV {
            start: self.start_struct@,
            hub_var: self.hub_var@,
            src_var: self.src_var@,
            index: text_of(self.index_var),
            pad: self.pad@,
            owned: self.owned,
            spaced: self.spaced,
        }
    }
}

/// The text `t` with an empty line where the code is spaced.
pub open spec fn spacing(t: Text, spaced: bool) -> Text {
    if spaced {
        t + "\n"@
    } else {
        t
    }
}

/// The text `t` with the code of those of the first `n` of a list of scalars that
/// are written from the hub; constants are passed over if `skip` says so.
pub open spec fn scalars_write_code(
    t: Text,
    model: ModelV,
    p: PlaceV,
    shared: Seq<Text>,
    skip: bool,
    list: Seq<NodeV>,
    n: int,
) -> Text
    decreases n,
{
    if n <= 0 {
        t
    } else {
        let t = scalars_write_code(t, model, p, shared, skip, list, n - 1);
        let node = list[n - 1];
        if skip && node.constant is Some {
            t
        } else {
            scalar_write_code(
                spacing(t, p.spaced),
                model,
                node,
                p.start,
                p.hub_var,
                p.src_var,
                p.index,
                p.pad,
                p.owned && !repeats(shared, hub_key_of(node)),
            )
        }
    }
}

/// Generates the code of a list of scalars.
fn write_scalars(
    out: &mut String,
    source: &SourceModelMeta,
    p: &Place,
    shared: &Shared,
    skip: bool,
    list: &Vec<&SourceNode>,
)
    requires
        forall|i: int| 0 <= i < list@.len() ==> keyed(#[trigger] list.deep_view()[i]),
    ensures
        final(out)@ == scalars_write_code(
            old(out)@,
            source@,
            p@,
            shared@,
            skip,
            list.deep_view(),
            list@.len() as int,
        ),
{
    let ghost t = out@;
    let ghost views = list.deep_view();
    let mut i: usize = 0;
    while i < list.len()
        invariant
            i <= list.len(),
            views == list.deep_view(),
            forall|i: int| 0 <= i < views.len() ==> keyed(#[trigger] views[i]),
            out@ == scalars_write_code(t, source@, p@, shared@, skip, views, i as int),
        decreases list.len() - i,
    {
        let node = list[i];
        assert(views[i as int] == node@);
        if !(skip && node.constant.is_some()) {
            if p.spaced {
                out.push_str("\n");
            }
            let take = p.owned && !shared.has(hub_key(node));
            write_scalar_block(
                out,
                source,
                node,
                p.start_struct,
                p.hub_var,
                p.src_var,
                p.index_var,
                p.pad,
                take,
            );
        }
        i += 1;
    }
}

/// The text `t` with the code of the first `n` of a list of constants.
pub open spec fn constants_code(
    t: Text,
    model: ModelV,
    start: Text,
    src_var: Text,
    pad: Text,
    spaced: bool,
    list: Seq<NodeV>,
    n: int,
) -> Text
    decreases n,
{
    if n <= 0 {
        t
    } else {
        let t = constants_code(t, model, start, src_var, pad, spaced, list, n - 1);
        constant_code(spacing(t, spaced), model, list[n - 1], start, src_var, pad)
    }
}

/// Generates the code of a list of constants.
fn write_constants(
    out: &mut String,
    source: &SourceModelMeta,
    start_struct: &str,
    src_var: &str,
    pad: &str,
    spaced: bool,
    list: &Vec<&SourceNode>,
)
    requires
        forall|i: int|
            0 <= i < list@.len() ==> plays(#[trigger] list.deep_view()[i], Role::Constant),
    ensures
        final(out)@ == constants_code(
            old(out)@,
            source@,
            start_struct@,
            src_var@,
            pad@,
            spaced,
            list.deep_view(),
            list@.len() as int,
        ),
{
    let ghost t = out@;
    let ghost views = list.deep_view();
    let mut i: usize = 0;
    while i < list.len()
        invariant
            i <= list.len(),
            views == list.deep_view(),
            forall|i: int| 0 <= i < views.len() ==> plays(#[trigger] views[i], Role::Constant),
            out@ == constants_code(
                t,
                source@,
                start_struct@,
                src_var@,
                pad@,
                spaced,
                views,
                i as int,
            ),
        decreases list.len() - i,
    {
        assert(views[i as int] == list@[i as int]@);
        if spaced {
            out.push_str("\n");
        }
        write_constant_block(out, source, list[i], start_struct, src_var, pad);
        i += 1;
    }
}

/// Where the scalars inside a collection are written from and to.
pub open spec fn inner_place(f: FrameV, item_struct: Text, owned: bool) -> PlaceV {
    PlaceV {
        start: item_struct,
        hub_var: "hub_item"@ + decimal(f.depth),
        src_var: "element"@ + decimal(f.depth),
        index: Some("idx"@ + decimal(f.depth)),
        pad: f.pad + "    "@,
        owned,
        spaced: false,
    }
}

/// Where the code of a collection inside another one stands.
pub open spec fn inner_write_frame(f: FrameV, item_struct: Text, owned: bool) -> FrameV {
    FrameV {
        depth: f.depth + 1,
        pad: f.pad + "    "@,
        parent_hub: "hub_item"@ + decimal(f.depth),
        parent_src: "element"@ + decimal(f.depth),
        parent_struct: item_struct,
        owned,
    }
}

/// The text `t` with the code that opens the loop over a collection.
pub open spec fn write_opening(
    t: Text,
    model: ModelV,
    coll: NodeV,
    f: FrameV,
    item_struct: Text,
    owned: bool,
) -> Text {
    let key = coll.canonical_key->0;
    let d = decimal(f.depth);
    let elem = "element"@ + d;
    let hub_item = "hub_item"@ + d;
    let idx = "idx"@ + d;
    let count = "written_count"@ + d;
    let body = f.pad + "    "@;
    let place = target_of(model, f.parent_struct, coll.source_path, f.parent_src);
    let t = t + f.pad + "// "@ + key + " -> "@ + coll.source_path + " (collection)\n"@;
    let t = t + f.pad + "let mut "@ + count + " = 0usize;\n"@;
    let t = if owned {
        let hub_items = "hub_items"@ + d;
        let t = t + f.pad + "let "@ + hub_items + " = std::mem::take(&mut "@ + f.parent_hub + "."@
            + field_of(key) + ");\n"@;
        let t = if crosses_optional(model, f.parent_struct, coll.source_path) {
            let t = t + f.pad + "if !"@ + hub_items + ".is_empty() {\n"@;
            let t = t + f.pad + "    "@ + place + ".reserve("@ + hub_items + ".len());\n"@;
            let t = t + f.pad + "}\n"@;
            t
        } else {
            let t = t + f.pad + place + ".reserve("@ + hub_items + ".len());\n"@;
            t
        };
        let t = t + f.pad + "for ("@ + idx + ", mut "@ + hub_item + ") in "@ + hub_items
            + ".into_iter().enumerate() {\n"@;
        t
    } else {
        let hub_len = f.parent_hub + "."@ + field_of(key) + ".len()"@;
        let t = if crosses_optional(model, f.parent_struct, coll.source_path) {
            let t = t + f.pad + "if "@ + hub_len + " > 0 {\n"@;
            let t = t + f.pad + "    "@ + place + ".reserve("@ + hub_len + ");\n"@;
            let t = t + f.pad + "}\n"@;
            t
        } else {
            let t = t + f.pad + place + ".reserve("@ + hub_len + ");\n"@;
            t
        };
        let t = t + f.pad + "for ("@ + idx + ", "@ + hub_item + ") in "@ + f.parent_hub + "."@
            + field_of(key) + ".iter().enumerate() {\n"@;
        t
    };
    let t = t + body + "let mut "@ + elem + " = "@ + item_struct + "::default();\n"@;
    t
}

/// Generates the code that opens the loop over a collection.
fn open_written(
    out: &mut String,
    ctx: &GenCtx,
    coll: &SourceNode,
    frame: &Frame,
    item_struct: &str,
    owned: bool,
)
    requires
        plays(coll@, Role::Collection),
    ensures
        final(out)@ == write_opening(
            old(out)@,
            ctx.source@,
            coll@,
            frame@,
            item_struct@,
            owned,
        ),
{
    let key = match &coll.canonical_key {
        Some(k) => k.as_str(),
        None => "",
    };
    let hub_field = snake_case(key);
    let crosses = crosses_boxed(ctx.source, frame.parent_struct, coll.source_path.as_str());
    let d = decimal_of(frame.depth as u64);
    let mut elem = "element".to_string();
    elem.push_str(d.as_str());
    let mut hub_item = "hub_item".to_string();
    hub_item.push_str(d.as_str());
    let mut idx = "idx".to_string();
    idx.push_str(d.as_str());
    let mut count = "written_count".to_string();
    count.push_str(d.as_str());
    let mut body_text = frame.pad.to_string();
    body_text.push_str("    ");
    let body = body_text.as_str();
    let place = assign_target_expr(
        ctx.source,
        frame.parent_struct,
        coll.source_path.as_str(),
        frame.parent_src,
    );
    out.push_str(frame.pad);
    out.push_str("// ");
    out.push_str(key);
    out.push_str(" -> ");
    out.push_str(coll.source_path.as_str());
    out.push_str(" (collection)\n");
    out.push_str(frame.pad);
    out.push_str("let mut ");
    out.push_str(count.as_str());
    out.push_str(" = 0usize;\n");
    if owned {
        let mut hub_items = "hub_items".to_string();
        hub_items.push_str(d.as_str());
        out.push_str(frame.pad);
        out.push_str("let ");
        out.push_str(hub_items.as_str());
        out.push_str(" = std::mem::take(&mut ");
        out.push_str(frame.parent_hub);
        out.push_str(".");
        out.push_str(hub_field.as_str());
        out.push_str(");\n");
        if crosses {
            out.push_str(frame.pad);
            out.push_str("if !");
            out.push_str(hub_items.as_str());
            out.push_str(".is_empty() {\n");
            out.push_str(frame.pad);
            out.push_str("    ");
            out.push_str(place.as_str());
            out.push_str(".reserve(");
            out.push_str(hub_items.as_str());
            out.push_str(".len());\n");
            out.push_str(frame.pad);
            out.push_str("}\n");
        } else {
            out.push_str(frame.pad);
            out.push_str(place.as_str());
            out.push_str(".reserve(");
            out.push_str(hub_items.as_str());
            out.push_str(".len());\n");
        }
        out.push_str(frame.pad);
        out.push_str("for (");
        out.push_str(idx.as_str());
        out.push_str(", mut ");
        out.push_str(hub_item.as_str());
        out.push_str(") in ");
        out.push_str(hub_items.as_str());
        out.push_str(".into_iter().enumerate() {\n");
    } else {
        let mut hub_len = frame.parent_hub.to_string();
        hub_len.push_str(".");
        hub_len.push_str(hub_field.as_str());
        hub_len.push_str(".len()");
        if crosses {
            out.push_str(frame.pad);
            out.push_str("if ");
            out.push_str(hub_len.as_str());
            out.push_str(" > 0 {\n");
            out.push_str(frame.pad);
            out.push_str("    ");
            out.push_str(place.as_str());
            out.push_str(".reserve(");
            out.push_str(hub_len.as_str());
            out.push_str(");\n");
            out.push_str(frame.pad);
            out.push_str("}\n");
        } else {
            out.push_str(frame.pad);
            out.push_str(place.as_str());
            out.push_str(".reserve(");
            out.push_str(hub_len.as_str());
            out.push_str(");\n");
        }
        out.push_str(frame.pad);
        out.push_str("for (");
        out.push_str(idx.as_str());
        out.push_str(", ");
        out.push_str(hub_item.as_str());
        out.push_str(") in ");
        out.push_str(frame.parent_hub);
        out.push_str(".");
        out.push_str(hub_field.as_str());
        out.push_str(".iter().enumerate() {\n");
    }
    out.push_str(body);
    out.push_str("let mut ");
    out.push_str(elem.as_str());
    out.push_str(" = ");
    out.push_str(item_struct);
    out.push_str("::default();\n");
}

/// The text `t` with the code that tests whether an item holds anything.
pub open spec fn write_test(t: Text, f: FrameV) -> Text {
    let d = decimal(f.depth);
    let elem = "element"@ + d;
    let body = f.pad + "    "@;
    let t = t + body + "if !"@ + elem + ".is_empty() {\n"@;
    t
}

/// Generates the code that tests whether an item holds anything.
fn test_written(out: &mut String, frame: &Frame)
    ensures
        final(out)@ == write_test(old(out)@, frame@),
{
    let d = decimal_of(frame.depth as u64);
    let mut elem = "element".to_string();
    elem.push_str(d.as_str());
    let mut body_text = frame.pad.to_string();
    body_text.push_str("    ");
    let body = body_text.as_str();
    out.push_str(body);
    out.push_str("if !");
    out.push_str(elem.as_str());
    out.push_str(".is_empty() {\n");
}

/// The text `t` with the code that keeps an item, closes the loop and counts the
/// items.
pub open spec fn write_closing(t: Text, model: ModelV, coll: NodeV, f: FrameV) -> Text {
    let key = coll.canonical_key->0;
    let d = decimal(f.depth);
    let elem = "element"@ + d;
    let count = "written_count"@ + d;
    let body = f.pad + "    "@;
    let place = target_of(model, f.parent_struct, coll.source_path, f.parent_src);
    let t = t + body + "    "@ + place + ".push("@ + elem + ");\n"@;
    let t = t + body + "    "@ + count + " += 1;\n"@;
    let t = t + body + "}\n"@;
    let t = t + f.pad + "}\n"@;
    let t = if min_items_of(coll) > 0 {
        let t = t + f.pad + "if "@ + count + " < "@ + decimal(min_items_of(coll) as nat) + " {\n"@;
        let msg = "format!(\"collection `"@ + key + "` has {"@ + count
            + "} items, expected at least "@ + decimal(min_items_of(coll) as nat) + "\")"@;
        let t = diag_code(
            t,
            path_diag("Severity::Error"@, "MIN_ITEMS"@, coll.id, msg, key, coll.source_path, None),
            body,
        );
        let t = t + f.pad + "}\n"@;
        t
    } else {
        t
    };
    t
}

/// Generates the code that keeps an item, closes the loop and counts the items.
fn close_written(out: &mut String, ctx: &GenCtx, coll: &SourceNode, frame: &Frame)
    requires
        plays(coll@, Role::Collection),
    ensures
        final(out)@ == write_closing(old(out)@, ctx.source@, coll@, frame@),
{
    let key = match &coll.canonical_key {
        Some(k) => k.as_str(),
        None => "",
    };
    let min = coll.effective_min_items();
    let d = decimal_of(frame.depth as u64);
    let mut elem = "element".to_string();
    elem.push_str(d.as_str());
    let mut count = "written_count".to_string();
    count.push_str(d.as_str());
    let mut body_text = frame.pad.to_string();
    body_text.push_str("    ");
    let body = body_text.as_str();
    let place = assign_target_expr(
        ctx.source,
        frame.parent_struct,
        coll.source_path.as_str(),
        frame.parent_src,
    );
    out.push_str(body);
    out.push_str("    ");
    out.push_str(place.as_str());
    out.push_str(".push(");
    out.push_str(elem.as_str());
    out.push_str(");\n");
    out.push_str(body);
    out.push_str("    ");
    out.push_str(count.as_str());
    out.push_str(" += 1;\n");
    out.push_str(body);
    out.push_str("}\n");
    out.push_str(frame.pad);
    out.push_str("}\n");
    if min > 0 {
        let min_text = decimal_of(min as u64);
        out.push_str(frame.pad);
        out.push_str("if ");
        out.push_str(count.as_str());
        out.push_str(" < ");
        out.push_str(min_text.as_str());
        out.push_str(" {\n");
        let mut msg = "format!(\"collection `".to_string();
        msg.push_str(key);
        msg.push_str("` has {");
        msg.push_str(count.as_str());
        msg.push_str("} items, expected at least ");
        msg.push_str(min_text.as_str());
        msg.push_str("\")");
        DiagSpec::new(
            "Severity::Error",
            "MIN_ITEMS",
            coll.id.as_str(),
            msg.as_str(),
        )
        .key(key)
        .path(coll.source_path.as_str())
        .emit(out, body);
        out.push_str(frame.pad);
        out.push_str("}\n");
    }
}

/// The text `t` with the code that writes one collection.
pub open spec fn collection_write_code(
    t: Text,
    nodes: IrNodesV,
    model: ModelV,
    coll: NodeV,
    f: FrameV,
    shared: Seq<Text>,
) -> Text
    decreases room(nodes, coll.id), 1int, 0int,
    when scopes_ascend(nodes)
{
    let owned = f.owned && !repeats(shared, coll.canonical_key->0);
    let item_struct = item_struct_at(model, f.parent_struct, coll.source_path);
    let inside = Some(coll.id);
    let inner_shared = write_keys(nodes, inside);
    let p = inner_place(f, item_struct, owned);
    let scalars = picked(nodes, Role::Scalar, inside);
    let copies = picked(nodes, Role::Clone, inside);
    let constants = picked(nodes, Role::Constant, inside);
    let t = write_opening(t, model, coll, f, item_struct, owned);
    let t = scalars_write_code(
        t,
        model,
        p,
        inner_shared,
        true,
        scalars,
        scalars.len() as int,
    );
    let t = scalars_write_code(t, model, p, inner_shared, false, copies, copies.len() as int);
    let t = nested_write_code(
        t,
        nodes,
        model,
        coll.id,
        inner_write_frame(f, item_struct, owned),
        inner_shared,
        picked(nodes, Role::Collection, inside).len() as int,
    );
    let t = write_test(t, f);
    let t = constants_code(
        t,
        model,
        item_struct,
        p.src_var,
        f.pad + "        "@,
        false,
        constants,
        constants.len() as int,
    );
    write_closing(t, model, coll, f)
}

/// The text `t` with the code that writes the first `n` of the collections inside
/// the collection `outer`.
pub open spec fn nested_write_code(
    t: Text,
    nodes: IrNodesV,
    model: ModelV,
    outer: Text,
    f: FrameV,
    shared: Seq<Text>,
    n: int,
) -> Text
    decreases room(nodes, outer), 0int, n,
    when scopes_ascend(nodes) && n <= picked(nodes, Role::Collection, Some(outer)).len()
{
    if n <= 0 {
        t
    } else {
        proof {
            lemma_room(nodes, outer);
        }
        let t = nested_write_code(t, nodes, model, outer, f, shared, n - 1);
        collection_write_code(
            t,
            nodes,
            model,
            picked(nodes, Role::Collection, Some(outer))[n - 1],
            f,
            shared,
        )
    }
}

/// Generates the code that writes one collection.
#[verifier::rlimit(60)]
fn write_collection_block(
    out: &mut String,
    ctx: &GenCtx,
    coll: &SourceNode,
    frame: &Frame,
    shared: &Shared,
)
    requires
        ctx.wf(),
        generable(ctx.ir@.nodes),
        plays(coll@, Role::Collection),
        frame.depth <= coll@.id.len(),
    ensures
        final(out)@ == collection_write_code(
            old(out)@,
            ctx.ir@.nodes,
            ctx.source@,
            coll@,
            frame@,
            shared@,
        ),
    decreases room(ctx.ir@.nodes, coll@.id), 1int,
{
    let ghost nodes = ctx.ir@.nodes;
    let ghost model = ctx.source@;
    let ghost inside = Some(coll@.id);
    let owned = match &coll.canonical_key {
        Some(k) => frame.owned && !shared.has(k),
        None => false,
    };
    let item_struct = collection_item_struct(
        ctx.source,
        frame.parent_struct,
        coll.source_path.as_str(),
    );
    let children = ctx.plan.children_of(&coll.id);
    let nested = ctx.plan.nested_collections_of(&coll.id);
    let clones = ctx.plan.clones_of(&coll.id);
    let constants = ctx.plan.constants_of(&coll.id);
    let inner_shared = shared_hub_keys(ctx, &children, &clones, &nested, Ghost(inside));
    let d = decimal_of(frame.depth as u64);
    let mut elem = "element".to_string();
    elem.push_str(d.as_str());
    let mut hub_item = "hub_item".to_string();
    hub_item.push_str(d.as_str());
    let mut idx = "idx".to_string();
    idx.push_str(d.as_str());
    let mut pad = frame.pad.to_string();
    pad.push_str("    ");
    let mut deep = frame.pad.to_string();
    deep.push_str("        ");
    let p = Place {
        start_struct: item_struct.as_str(),
        hub_var: hub_item.as_str(),
        src_var: elem.as_str(),
        index_var: Some(idx.as_str()),
        pad: pad.as_str(),
        owned,
        spaced: false,
    };
    proof {
        lemma_picked_play(nodes, Role::Scalar, inside);
        lemma_picked_play(nodes, Role::Clone, inside);
        lemma_picked_play(nodes, Role::Constant, inside);
        assert(p@ == inner_place(frame@, item_struct@, owned));
    }
    open_written(out, ctx, coll, frame, item_struct.as_str(), owned);
    write_scalars(out, ctx.source, &p, &inner_shared, true, &children);
    write_scalars(out, ctx.source, &p, &inner_shared, false, &clones);
    write_nested(
        out,
        ctx,
        coll,
        frame,
        hub_item.as_str(),
        elem.as_str(),
        pad.as_str(),
        item_struct.as_str(),
        owned,
        &nested,
        &inner_shared,
    );
    test_written(out, frame);
    write_constants(
        out,
        ctx.source,
        item_struct.as_str(),
        elem.as_str(),
        deep.as_str(),
        false,
        &constants,
    );
    close_written(out, ctx, coll, frame);
}

/// Generates the code that writes the collections inside a collection.
fn write_nested(
    out: &mut String,
    ctx: &GenCtx,
    coll: &SourceNode,
    frame: &Frame,
    hub_item: &str,
    elem: &str,
    pad: &str,
    item_struct: &str,
    owned: bool,
    nested: &Vec<&SourceNode>,
    shared: &Shared,
)
    requires
        ctx.wf(),
        generable(ctx.ir@.nodes),
        frame.depth <= coll@.id.len(),
        hub_item@ == "hub_item"@ + decimal(frame.depth as nat),
        elem@ == "element"@ + decimal(frame.depth as nat),
        pad@ == frame.pad@ + "    "@,
        nested.deep_view() == picked(ctx.ir@.nodes, Role::Collection, Some(coll@.id)),
    ensures
        final(out)@ == nested_write_code(
            old(out)@,
            ctx.ir@.nodes,
            ctx.source@,
            coll@.id,
            inner_write_frame(frame@, item_struct@, owned),
            shared@,
            nested@.len() as int,
        ),
    decreases room(ctx.ir@.nodes, coll@.id), 0int,
{
    let ghost nodes = ctx.ir@.nodes;
    let ghost model = ctx.source@;
    let ghost before = out@;
    let ghost views = nested.deep_view();
    let ghost inner = inner_write_frame(frame@, item_struct@, owned);
    proof {
        lemma_picked_play(nodes, Role::Collection, Some(coll@.id));
        lemma_room(nodes, coll@.id);
    }
    let mut i: usize = 0;
    while i < nested.len()
        invariant
            i <= nested.len(),
            ctx.wf(),
            generable(nodes),
            nodes == ctx.ir@.nodes,
            model == ctx.source@,
            frame.depth <= coll@.id.len(),
            views == nested.deep_view(),
            views == picked(nodes, Role::Collection, Some(coll@.id)),
            inner == inner_write_frame(frame@, item_struct@, owned),
            hub_item@ == "hub_item"@ + decimal(frame.depth as nat),
            elem@ == "element"@ + decimal(frame.depth as nat),
            pad@ == frame.pad@ + "    "@,
            forall|j: int|
                0 <= j < views.len() ==> plays(#[trigger] views[j], Role::Collection)
                    && views[j].id.len() > coll@.id.len() && 0 <= room(nodes, views[j].id) < room(
                    nodes,
                    coll@.id,
                ),
            out@ == nested_write_code(
                before,
                nodes,
                model,
                coll@.id,
                inner,
                shared@,
                i as int,
            ),
        decreases nested.len() - i,
    {
        assert(views[i as int] == nested@[i as int]@);
        let length = id_len(&nested[i].id);
        let inner_exec = Frame {
            depth: frame.depth + 1,
            pad,
            parent_hub: hub_item,
            parent_src: elem,
            parent_struct: item_struct,
            owned,
        };
        assert(inner_exec@ == inner);
        write_collection_block(out, ctx, nested[i], &inner_exec, shared);
        i += 1;
    }
}

/// The text `t` with the code that writes the first `n` of the collections at the
/// root.
pub open spec fn root_collections_write_code(
    t: Text,
    nodes: IrNodesV,
    model: ModelV,
    shared: Seq<Text>,
    n: int,
) -> Text
    decreases n,
{
    if n <= 0 {
        t
    } else {
        let t = root_collections_write_code(t, nodes, model, shared, n - 1);
        collection_write_code(
            t + "\n"@,
            nodes,
            model,
            picked(nodes, Role::Collection, None)[n - 1],
            root_frame(model),
            shared,
        )
    }
}

/// The text `t` with the first lines of the generated writer.
pub open spec fn writer_head(t: Text, root: Text) -> Text {
    let t = t + "/// Writes the canonical hub back into a typed source document, consuming\n"@;
    let t = t + "/// the hub so uniquely-written values move instead of clone.\n"@;
    let t = t + "pub fn write(mut main: MainKey) -> MappingResult<"@ + root + "> {\n"@;
    let t = t + "    let mut diagnostics: Vec<MappingDiagnostic> = Vec::new();\n"@;
    t + "    let mut source = "@ + root + "::default();\n"@
}

/// Where the scalars at the root are written from and to.
pub open spec fn root_place(model: ModelV) -> PlaceV {
    PlaceV {
        start: model.root,
        hub_var: "main"@,
        src_var: "source"@,
        index: None,
        pad: "    "@,
        owned: true,
        spaced: true,
    }
}

/// The text `t` with the generated writer.
pub open spec fn writer_code(t: Text, nodes: IrNodesV, model: ModelV, root: Text) -> Text {
    let shared = write_keys(nodes, None);
    let scalars = picked(nodes, Role::Scalar, None);
    let copies = picked(nodes, Role::Clone, None);
    let constants = picked(nodes, Role::Constant, None);
    let p = root_place(model);
    let t = writer_head(t, root);
    let t = constants_code(
        t,
        model,
        model.root,
        "source"@,
        "    "@,
        true,
        constants,
        constants.len() as int,
    );
    let t = scalars_write_code(t, model, p, shared, true, scalars, scalars.len() as int);
    let t = scalars_write_code(t, model, p, shared, false, copies, copies.len() as int);
    let t = root_collections_write_code(
        t,
        nodes,
        model,
        shared,
        picked(nodes, Role::Collection, None).len() as int,
    );
    let t = t + "\n"@;
    let t = t + "    MappingResult::new(Some(source), diagnostics)\n"@;
    t + "}\n"@
}

/// Generates the first lines of the writer.
fn write_head(out: &mut String, root: &str)
    ensures
        final(out)@ == writer_head(old(out)@, root@),
{
    out.push_str("/// Writes the canonical hub back into a typed source document, consuming\n");
    out.push_str("/// the hub so uniquely-written values move instead of clone.\n");
    out.push_str("pub fn write(mut main: MainKey) -> MappingResult<");
    out.push_str(root);
    out.push_str("> {\n");
    out.push_str("    let mut diagnostics: Vec<MappingDiagnostic> = Vec::new();\n");
    out.push_str("    let mut source = ");
    out.push_str(root);
    out.push_str("::default();\n");
}

/// Generates the code of the collections at the root.
#[verifier::rlimit(40)]
fn write_root_collections(
    out: &mut String,
    ctx: &GenCtx,
    collections: &Vec<&SourceNode>,
    shared: &Shared,
)
    requires
        ctx.wf(),
        generable(ctx.ir@.nodes),
        collections.deep_view() == picked(ctx.ir@.nodes, Role::Collection, None),
    ensures
        final(out)@ == root_collections_write_code(
            old(out)@,
            ctx.ir@.nodes,
            ctx.source@,
            shared@,
            collections@.len() as int,
        ),
{
    let ghost nodes = ctx.ir@.nodes;
    let ghost model = ctx.source@;
    let ghost before = out@;
    let ghost views = collections.deep_view();
    proof {
        lemma_picked_play(nodes, Role::Collection, None);
    }
    let frame = Frame {
        depth: 0,
        pad: "    ",
        parent_hub: "main",
        parent_src: "source",
        parent_struct: ctx.source.root.as_str(),
        owned: true,
    };
    assert(frame@ == root_frame(model));
    let mut i: usize = 0;
    while i < collections.len()
        invariant
            i <= collections.len(),
            ctx.wf(),
            generable(nodes),
            nodes == ctx.ir@.nodes,
            model == ctx.source@,
            views == collections.deep_view(),
            views == picked(nodes, Role::Collection, None),
            frame@ == root_frame(model),
            forall|j: int|
                0 <= j < views.len() ==> plays(#[trigger] views[j], Role::Collection),
            out@ == root_collections_write_code(before, nodes, model, shared@, i as int),
        decreases collections.len() - i,
    {
        assert(views[i as int] == collections@[i as int]@);
        out.push_str("\n");
        write_collection_block(out, ctx, collections[i], &frame, shared);
        i += 1;
    }
}

/// Generates the writer.
pub fn generate_write(out: &mut String, ctx: &GenCtx, root: &str)
    requires
        ctx.wf(),
        generable(ctx.ir@.nodes),
    ensures
        final(out)@ == writer_code(old(out)@, ctx.ir@.nodes, ctx.source@, root@),
{
    let ghost nodes = ctx.ir@.nodes;
    let scalars = ctx.plan.at_root(Role::Scalar);
    let clones = ctx.plan.at_root(Role::Clone);
    let constants = ctx.plan.at_root(Role::Constant);
    let collections = ctx.plan.at_root(Role::Collection);
    let shared = shared_hub_keys(ctx, &scalars, &clones, &collections, Ghost(None));
    let start = ctx.source.root.as_str();
    let p = Place {
        start_struct: start,
        hub_var: "main",
        src_var: "source",
        index_var: None,
        pad: "    ",
        owned: true,
        spaced: true,
    };
    proof {
        lemma_picked_play(nodes, Role::Scalar, None);
        lemma_picked_play(nodes, Role::Clone, None);
        lemma_picked_play(nodes, Role::Constant, None);
        assert(p@ == root_place(ctx.source@));
    }
    write_head(out, root);
    write_constants(out, ctx.source, start, "source", "    ", true, &constants);
    write_scalars(out, ctx.source, &p, &shared, true, &scalars);
    write_scalars(out, ctx.source, &p, &shared, false, &clones);
    write_root_collections(out, ctx, &collections, &shared);
    out.push_str("\n");
    out.push_str("    MappingResult::new(Some(source), diagnostics)\n");
    out.push_str("}\n");
}

} // verus!
