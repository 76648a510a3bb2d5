//! Generated text only ever grows: each piece of code is put behind what is there,
//! and does not depend on it. So the modules of a spoke can be taken apart.
use vstd::prelude::*;

use crate::dsl::codegen::access::item_struct_at;
use crate::dsl::codegen::diag::{diag_code, DiagSpecV};
use crate::dsl::codegen::plan::{lemma_room, picked, room, FrameV, Role};
use crate::dsl::codegen::read::{
    assign_code, clone_code, clones_code, closing_code, collection_code, decode_code,
    fallback_code, fallbacks_code, inner_frame, inner_target, many_code, nested_code, opening_code,
    read_paths, reader_code, reader_head, root_collections_code, scalar_code, scalars_code, TargetV,
};
use crate::dsl::codegen::sharing::repeats;
use crate::dsl::codegen::source::{
    empty_checks, is_empty_text, source_field, source_fields, source_section_text, struct_text,
    structs_text, xml_io,
};
use crate::dsl::codegen::write::{
    collection_write_code, constant_code, constants_code, inner_place, inner_write_frame,
    missing_code, nested_write_code, root_collections_write_code, scalar_write_code,
    scalars_write_code, write_closing, write_keys, write_opening, write_test, writer_code,
    writer_head, PlaceV,
};
use crate::dsl::ir::{scopes_ascend, IrNodesV};
use crate::dsl::multiple::MultiplePolicy;
use crate::dsl::node::NodeV;
use crate::dsl::source_model::meta::{FieldV, FieldsV, ModelV, StructsV};
use crate::text::Text;

verus! {

/// What is put behind a text with `s` in front stands behind it without `s` too.
proof fn lemma_assoc(s: Text)
    ensures
        forall|x: Text, y: Text| #[trigger] ((s + x) + y) == s + (x + y),
{
    assert forall|x: Text, y: Text| #[trigger] ((s + x) + y) == s + (x + y) by {
        assert((s + x) + y =~= s + (x + y));
    }
}

proof fn lemma_diag_code(s: Text, t: Text, d: DiagSpecV, pad: Text)
    ensures
        diag_code(s + t, d, pad) == s + diag_code(t, d, pad),
{
    lemma_assoc(s);
}

proof fn all_diag_code(s: Text)
    ensures
        forall|t: Text, d: DiagSpecV, pad: Text|
            #[trigger] diag_code(s + t, d, pad) == s + diag_code(t, d, pad),
{
    assert forall|t: Text, d: DiagSpecV, pad: Text|
        #[trigger] diag_code(s + t, d, pad) == s + diag_code(t, d, pad) by {
        lemma_diag_code(s, t, d, pad);
    }
}

proof fn lemma_decode_code(
    s: Text,
    t: Text,
    node: NodeV,
    key: Text,
    pad: Text,
    lhs: Text,
    target: TargetV,
)
    ensures
        decode_code(
            s + t,
            node,
            key,
            pad,
            lhs,
            target,
        ) == s + decode_code(t, node, key, pad, lhs, target),
{
    lemma_assoc(s);
    all_diag_code(s);
}

proof fn all_decode_code(s: Text)
    ensures
        forall|t: Text, node: NodeV, key: Text, pad: Text, lhs: Text, target: TargetV|
            #[trigger] decode_code(
                s + t,
                node,
                key,
                pad,
                lhs,
                target,
            ) == s + decode_code(t, node, key, pad, lhs, target),
{
    assert forall|t: Text, node: NodeV, key: Text, pad: Text, lhs: Text, target: TargetV|
        #[trigger] decode_code(
            s + t,
            node,
            key,
            pad,
            lhs,
            target,
        ) == s + decode_code(t, node, key, pad, lhs, target) by {
        lemma_decode_code(s, t, node, key, pad, lhs, target);
    }
}

proof fn lemma_assign_code(s: Text, t: Text, node: NodeV, key: Text, pad: Text, target: TargetV)
    ensures
        assign_code(s + t, node, key, pad, target) == s + assign_code(t, node, key, pad, target),
{
    lemma_assoc(s);
    all_diag_code(s);
    all_decode_code(s);
}

proof fn all_assign_code(s: Text)
    ensures
        forall|t: Text, node: NodeV, key: Text, pad: Text, target: TargetV|
            #[trigger] assign_code(
                s + t,
                node,
                key,
                pad,
                target,
            ) == s + assign_code(t, node, key, pad, target),
{
    assert forall|t: Text, node: NodeV, key: Text, pad: Text, target: TargetV|
        #[trigger] assign_code(
            s + t,
            node,
            key,
            pad,
            target,
        ) == s + assign_code(t, node, key, pad, target) by {
        lemma_assign_code(s, t, node, key, pad, target);
    }
}

proof fn lemma_many_code(
    s: Text,
    t: Text,
    model: ModelV,
    start: Text,
    node: NodeV,
    key: Text,
    policy: MultiplePolicy,
    pad: Text,
    target: TargetV,
    take: bool,
)
    ensures
        many_code(
            s + t,
            model,
            start,
            node,
            key,
            policy,
            pad,
            target,
            take,
        ) == s + many_code(t, model, start, node, key, policy, pad, target, take),
{
    lemma_assoc(s);
    all_diag_code(s);
}

proof fn all_many_code(s: Text)
    ensures
        forall|
            t: Text,
            model: ModelV,
            start: Text,
            node: NodeV,
            key: Text,
            policy: MultiplePolicy,
            pad: Text,
            target: TargetV,
            take: bool,
        |
            #[trigger] many_code(
                s + t,
                model,
                start,
                node,
                key,
                policy,
                pad,
                target,
                take,
            ) == s + many_code(t, model, start, node, key, policy, pad, target, take),
{
    assert forall|
        t: Text,
        model: ModelV,
        start: Text,
        node: NodeV,
        key: Text,
        policy: MultiplePolicy,
        pad: Text,
        target: TargetV,
        take: bool,
    |
        #[trigger] many_code(
            s + t,
            model,
            start,
            node,
            key,
            policy,
            pad,
            target,
            take,
        ) == s + many_code(t, model, start, node, key, policy, pad, target, take) by {
        lemma_many_code(s, t, model, start, node, key, policy, pad, target, take);
    }
}

proof fn lemma_fallback_code(
    s: Text,
    t: Text,
    model: ModelV,
    start: Text,
    node: NodeV,
    key: Text,
    fb_id: Text,
    fb: NodeV,
    chain: Text,
    pad: Text,
    target: TargetV,
    take: bool,
)
    ensures
        fallback_code(
            s + t,
            model,
            start,
            node,
            key,
            fb_id,
            fb,
            chain,
            pad,
            target,
            take,
        ) == s + fallback_code(t, model, start, node, key, fb_id, fb, chain, pad, target, take),
{
    lemma_assoc(s);
    all_diag_code(s);
}

proof fn all_fallback_code(s: Text)
    ensures
        forall|
            t: Text,
            model: ModelV,
            start: Text,
            node: NodeV,
            key: Text,
            fb_id: Text,
            fb: NodeV,
            chain: Text,
            pad: Text,
            target: TargetV,
            take: bool,
        |
            #[trigger] fallback_code(
                s + t,
                model,
                start,
                node,
                key,
                fb_id,
                fb,
                chain,
                pad,
                target,
                take,
            ) == s + fallback_code(t, model, start, node, key, fb_id, fb, chain, pad, target, take),
{
    assert forall|
        t: Text,
        model: ModelV,
        start: Text,
        node: NodeV,
        key: Text,
        fb_id: Text,
        fb: NodeV,
        chain: Text,
        pad: Text,
        target: TargetV,
        take: bool,
    |
        #[trigger] fallback_code(
            s + t,
            model,
            start,
            node,
            key,
            fb_id,
            fb,
            chain,
            pad,
            target,
            take,
        ) == s + fallback_code(t, model, start, node, key, fb_id, fb, chain, pad, target, take) by {
        lemma_fallback_code(s, t, model, start, node, key, fb_id, fb, chain, pad, target, take);
    }
}

proof fn lemma_fallbacks_code(
    s: Text,
    t: Text,
    nodes: IrNodesV,
    model: ModelV,
    start: Text,
    node: NodeV,
    key: Text,
    chain: Text,
    pad: Text,
    target: TargetV,
    shared: Seq<Text>,
    n: int,
)
    ensures
        fallbacks_code(
            s + t,
            nodes,
            model,
            start,
            node,
            key,
            chain,
            pad,
            target,
            shared,
            n,
        ) == s + fallbacks_code(t, nodes, model, start, node, key, chain, pad, target, shared, n),
    decreases n,
{
    lemma_assoc(s);
    all_fallback_code(s);
    if n > 0 {
        lemma_fallbacks_code(
            s,
            t,
            nodes,
            model,
            start,
            node,
            key,
            chain,
            pad,
            target,
            shared,
            n - 1,
        );
    }
}

proof fn all_fallbacks_code(s: Text)
    ensures
        forall|
            t: Text,
            nodes: IrNodesV,
            model: ModelV,
            start: Text,
            node: NodeV,
            key: Text,
            chain: Text,
            pad: Text,
            target: TargetV,
            shared: Seq<Text>,
            n: int,
        |
            #[trigger] fallbacks_code(
                s + t,
                nodes,
                model,
                start,
                node,
                key,
                chain,
                pad,
                target,
                shared,
                n,
            ) == s + fallbacks_code(
                t,
                nodes,
                model,
                start,
                node,
                key,
                chain,
                pad,
                target,
                shared,
                n,
            ),
{
    assert forall|
        t: Text,
        nodes: IrNodesV,
        model: ModelV,
        start: Text,
        node: NodeV,
        key: Text,
        chain: Text,
        pad: Text,
        target: TargetV,
        shared: Seq<Text>,
        n: int,
    |
        #[trigger] fallbacks_code(
            s + t,
            nodes,
            model,
            start,
            node,
            key,
            chain,
            pad,
            target,
            shared,
            n,
        ) == s + fallbacks_code(
            t,
            nodes,
            model,
            start,
            node,
            key,
            chain,
            pad,
            target,
            shared,
            n,
        ) by {
        lemma_fallbacks_code(s, t, nodes, model, start, node, key, chain, pad, target, shared, n);
    }
}

pub proof fn lemma_scalar_code(
    s: Text,
    t: Text,
    nodes: IrNodesV,
    model: ModelV,
    node: NodeV,
    start: Text,
    pad: Text,
    target: TargetV,
    shared: Seq<Text>,
)
    ensures
        scalar_code(
            s + t,
            nodes,
            model,
            node,
            start,
            pad,
            target,
            shared,
        ) == s + scalar_code(t, nodes, model, node, start, pad, target, shared),
{
    lemma_assoc(s);
    all_many_code(s);
    all_fallbacks_code(s);
    all_assign_code(s);
    all_diag_code(s);
}

proof fn all_scalar_code(s: Text)
    ensures
        forall|
            t: Text,
            nodes: IrNodesV,
            model: ModelV,
            node: NodeV,
            start: Text,
            pad: Text,
            target: TargetV,
            shared: Seq<Text>,
        |
            #[trigger] scalar_code(
                s + t,
                nodes,
                model,
                node,
                start,
                pad,
                target,
                shared,
            ) == s + scalar_code(t, nodes, model, node, start, pad, target, shared),
{
    assert forall|
        t: Text,
        nodes: IrNodesV,
        model: ModelV,
        node: NodeV,
        start: Text,
        pad: Text,
        target: TargetV,
        shared: Seq<Text>,
    |
        #[trigger] scalar_code(
            s + t,
            nodes,
            model,
            node,
            start,
            pad,
            target,
            shared,
        ) == s + scalar_code(t, nodes, model, node, start, pad, target, shared) by {
        lemma_scalar_code(s, t, nodes, model, node, start, pad, target, shared);
    }
}

pub proof fn lemma_clone_code(
    s: Text,
    t: Text,
    model: ModelV,
    node: NodeV,
    start: Text,
    pad: Text,
    target: TargetV,
    shared: Seq<Text>,
)
    ensures
        clone_code(
            s + t,
            model,
            node,
            start,
            pad,
            target,
            shared,
        ) == s + clone_code(t, model, node, start, pad, target, shared),
{
    lemma_assoc(s);
    all_decode_code(s);
    all_diag_code(s);
}

proof fn all_clone_code(s: Text)
    ensures
        forall|
            t: Text,
            model: ModelV,
            node: NodeV,
            start: Text,
            pad: Text,
            target: TargetV,
            shared: Seq<Text>,
        |
            #[trigger] clone_code(
                s + t,
                model,
                node,
                start,
                pad,
                target,
                shared,
            ) == s + clone_code(t, model, node, start, pad, target, shared),
{
    assert forall|
        t: Text,
        model: ModelV,
        node: NodeV,
        start: Text,
        pad: Text,
        target: TargetV,
        shared: Seq<Text>,
    |
        #[trigger] clone_code(
            s + t,
            model,
            node,
            start,
            pad,
            target,
            shared,
        ) == s + clone_code(t, model, node, start, pad, target, shared) by {
        lemma_clone_code(s, t, model, node, start, pad, target, shared);
    }
}

proof fn lemma_scalars_code(
    s: Text,
    t: Text,
    nodes: IrNodesV,
    model: ModelV,
    start: Text,
    pad: Text,
    target: TargetV,
    shared: Seq<Text>,
    list: Seq<NodeV>,
    n: int,
)
    ensures
        scalars_code(
            s + t,
            nodes,
            model,
            start,
            pad,
            target,
            shared,
            list,
            n,
        ) == s + scalars_code(t, nodes, model, start, pad, target, shared, list, n),
    decreases n,
{
    lemma_assoc(s);
    all_scalar_code(s);
    if n > 0 {
        lemma_scalars_code(s, t, nodes, model, start, pad, target, shared, list, n - 1);
    }
}

proof fn all_scalars_code(s: Text)
    ensures
        forall|
            t: Text,
            nodes: IrNodesV,
            model: ModelV,
            start: Text,
            pad: Text,
            target: TargetV,
            shared: Seq<Text>,
            list: Seq<NodeV>,
            n: int,
        |
            #[trigger] scalars_code(
                s + t,
                nodes,
                model,
                start,
                pad,
                target,
                shared,
                list,
                n,
            ) == s + scalars_code(t, nodes, model, start, pad, target, shared, list, n),
{
    assert forall|
        t: Text,
        nodes: IrNodesV,
        model: ModelV,
        start: Text,
        pad: Text,
        target: TargetV,
        shared: Seq<Text>,
        list: Seq<NodeV>,
        n: int,
    |
        #[trigger] scalars_code(
            s + t,
            nodes,
            model,
            start,
            pad,
            target,
            shared,
            list,
            n,
        ) == s + scalars_code(t, nodes, model, start, pad, target, shared, list, n) by {
        lemma_scalars_code(s, t, nodes, model, start, pad, target, shared, list, n);
    }
}

proof fn lemma_clones_code(
    s: Text,
    t: Text,
    model: ModelV,
    start: Text,
    pad: Text,
    target: TargetV,
    shared: Seq<Text>,
    list: Seq<NodeV>,
    n: int,
)
    ensures
        clones_code(
            s + t,
            model,
            start,
            pad,
            target,
            shared,
            list,
            n,
        ) == s + clones_code(t, model, start, pad, target, shared, list, n),
    decreases n,
{
    lemma_assoc(s);
    all_clone_code(s);
    if n > 0 {
        lemma_clones_code(s, t, model, start, pad, target, shared, list, n - 1);
    }
}

proof fn all_clones_code(s: Text)
    ensures
        forall|
            t: Text,
            model: ModelV,
            start: Text,
            pad: Text,
            target: TargetV,
            shared: Seq<Text>,
            list: Seq<NodeV>,
            n: int,
        |
            #[trigger] clones_code(
                s + t,
                model,
                start,
                pad,
                target,
                shared,
                list,
                n,
            ) == s + clones_code(t, model, start, pad, target, shared, list, n),
{
    assert forall|
        t: Text,
        model: ModelV,
        start: Text,
        pad: Text,
        target: TargetV,
        shared: Seq<Text>,
        list: Seq<NodeV>,
        n: int,
    |
        #[trigger] clones_code(
            s + t,
            model,
            start,
            pad,
            target,
            shared,
            list,
            n,
        ) == s + clones_code(t, model, start, pad, target, shared, list, n) by {
        lemma_clones_code(s, t, model, start, pad, target, shared, list, n);
    }
}

pub proof fn lemma_opening_code(s: Text, t: Text, model: ModelV, coll: NodeV, f: FrameV, owned: bool)
    ensures
        opening_code(s + t, model, coll, f, owned) == s + opening_code(t, model, coll, f, owned),
{
    lemma_assoc(s);
}

proof fn all_opening_code(s: Text)
    ensures
        forall|t: Text, model: ModelV, coll: NodeV, f: FrameV, owned: bool|
            #[trigger] opening_code(
                s + t,
                model,
                coll,
                f,
                owned,
            ) == s + opening_code(t, model, coll, f, owned),
{
    assert forall|t: Text, model: ModelV, coll: NodeV, f: FrameV, owned: bool|
        #[trigger] opening_code(
            s + t,
            model,
            coll,
            f,
            owned,
        ) == s + opening_code(t, model, coll, f, owned) by {
        lemma_opening_code(s, t, model, coll, f, owned);
    }
}

pub proof fn lemma_closing_code(s: Text, t: Text, coll: NodeV, f: FrameV)
    ensures
        closing_code(s + t, coll, f) == s + closing_code(t, coll, f),
{
    lemma_assoc(s);
    all_diag_code(s);
}

proof fn all_closing_code(s: Text)
    ensures
        forall|t: Text, coll: NodeV, f: FrameV|
            #[trigger] closing_code(s + t, coll, f) == s + closing_code(t, coll, f),
{
    assert forall|t: Text, coll: NodeV, f: FrameV|
        #[trigger] closing_code(s + t, coll, f) == s + closing_code(t, coll, f) by {
        lemma_closing_code(s, t, coll, f);
    }
}

pub proof fn lemma_collection_code(
    s: Text,
    t: Text,
    nodes: IrNodesV,
    model: ModelV,
    coll: NodeV,
    f: FrameV,
    shared: Seq<Text>,
)
    requires
        scopes_ascend(nodes),
    ensures
        collection_code(
            s + t,
            nodes,
            model,
            coll,
            f,
            shared,
        ) == s + collection_code(t, nodes, model, coll, f, shared),
    decreases room(nodes, coll.id), 1int, 0int,
{
    lemma_assoc(s);
    all_opening_code(s);
    all_scalars_code(s);
    all_clones_code(s);
    all_closing_code(s);
    let owned = f.owned && !repeats(shared, coll.source_path);
    let item_struct = item_struct_at(model, f.parent_struct, coll.source_path);
    let inside = Some(coll.id);
    let inner_shared = read_paths(nodes, inside);
    let target = inner_target(f, owned);
    let pad = f.pad + "    "@;
    let scalars = picked(nodes, Role::Scalar, inside);
    let copies = picked(nodes, Role::Clone, inside);
    let t1 = opening_code(t, model, coll, f, owned);
    let t2 = scalars_code(
        t1,
        nodes,
        model,
        item_struct,
        pad,
        target,
        inner_shared,
        scalars,
        scalars.len() as int,
    );
    let t3 = clones_code(
        t2,
        model,
        item_struct,
        pad,
        target,
        inner_shared,
        copies,
        copies.len() as int,
    );
    lemma_nested_code(
        s,
        t3,
        nodes,
        model,
        coll.id,
        inner_frame(f, item_struct, owned),
        inner_shared,
        picked(nodes, Role::Collection, inside).len() as int,
    );
}

proof fn lemma_nested_code(
    s: Text,
    t: Text,
    nodes: IrNodesV,
    model: ModelV,
    outer: Text,
    f: FrameV,
    shared: Seq<Text>,
    n: int,
)
    requires
        scopes_ascend(nodes),
        n <= picked(nodes, Role::Collection, Some(outer)).len(),
    ensures
        nested_code(
            s + t,
            nodes,
            model,
            outer,
            f,
            shared,
            n,
        ) == s + nested_code(t, nodes, model, outer, f, shared, n),
    decreases room(nodes, outer), 0int, n,
{
    lemma_assoc(s);
    if n > 0 {
        lemma_room(nodes, outer);
        lemma_nested_code(s, t, nodes, model, outer, f, shared, n - 1);
        lemma_collection_code(
            s,
            nested_code(t, nodes, model, outer, f, shared, n - 1) + "\n"@,
            nodes,
            model,
            picked(nodes, Role::Collection, Some(outer))[n - 1],
            f,
            shared,
        );
    }
}

proof fn all_collection_code(s: Text, nodes: IrNodesV)
    requires
        scopes_ascend(nodes),
    ensures
        forall|t: Text, model: ModelV, coll: NodeV, f: FrameV, shared: Seq<Text>|
            #[trigger] collection_code(
                s + t,
                nodes,
                model,
                coll,
                f,
                shared,
            ) == s + collection_code(t, nodes, model, coll, f, shared),
{
    assert forall|t: Text, model: ModelV, coll: NodeV, f: FrameV, shared: Seq<Text>|
        #[trigger] collection_code(
            s + t,
            nodes,
            model,
            coll,
            f,
            shared,
        ) == s + collection_code(t, nodes, model, coll, f, shared) by {
        lemma_collection_code(s, t, nodes, model, coll, f, shared);
    }
}

proof fn lemma_root_collections_code(
    s: Text,
    t: Text,
    nodes: IrNodesV,
    model: ModelV,
    shared: Seq<Text>,
    n: int,
)
    requires
        scopes_ascend(nodes),
    ensures
        root_collections_code(
            s + t,
            nodes,
            model,
            shared,
            n,
        ) == s + root_collections_code(t, nodes, model, shared, n),
    decreases n,
{
    lemma_assoc(s);
    all_collection_code(s, nodes);
    if n > 0 {
        lemma_root_collections_code(s, t, nodes, model, shared, n - 1);
    }
}

proof fn all_root_collections_code(s: Text, nodes: IrNodesV)
    requires
        scopes_ascend(nodes),
    ensures
        forall|t: Text, model: ModelV, shared: Seq<Text>, n: int|
            #[trigger] root_collections_code(
                s + t,
                nodes,
                model,
                shared,
                n,
            ) == s + root_collections_code(t, nodes, model, shared, n),
{
    assert forall|t: Text, model: ModelV, shared: Seq<Text>, n: int|
        #[trigger] root_collections_code(
            s + t,
            nodes,
            model,
            shared,
            n,
        ) == s + root_collections_code(t, nodes, model, shared, n) by {
        lemma_root_collections_code(s, t, nodes, model, shared, n);
    }
}

pub proof fn lemma_reader_head(s: Text, t: Text, root: Text)
    ensures
        reader_head(s + t, root) == s + reader_head(t, root),
{
    lemma_assoc(s);
}

proof fn all_reader_head(s: Text)
    ensures
        forall|t: Text, root: Text|
            #[trigger] reader_head(s + t, root) == s + reader_head(t, root),
{
    assert forall|t: Text, root: Text|
        #[trigger] reader_head(s + t, root) == s + reader_head(t, root) by {
        lemma_reader_head(s, t, root);
    }
}

pub proof fn lemma_reader_code(s: Text, t: Text, nodes: IrNodesV, model: ModelV, root: Text)
    requires
        scopes_ascend(nodes),
    ensures
        reader_code(s + t, nodes, model, root) == s + reader_code(t, nodes, model, root),
{
    lemma_assoc(s);
    all_reader_head(s);
    all_scalars_code(s);
    all_clones_code(s);
    all_root_collections_code(s, nodes);
}

pub proof fn lemma_constant_code(
    s: Text,
    t: Text,
    model: ModelV,
    node: NodeV,
    start: Text,
    src_var: Text,
    pad: Text,
)
    ensures
        constant_code(
            s + t,
            model,
            node,
            start,
            src_var,
            pad,
        ) == s + constant_code(t, model, node, start, src_var, pad),
{
    lemma_assoc(s);
}

proof fn all_constant_code(s: Text)
    ensures
        forall|t: Text, model: ModelV, node: NodeV, start: Text, src_var: Text, pad: Text|
            #[trigger] constant_code(
                s + t,
                model,
                node,
                start,
                src_var,
                pad,
            ) == s + constant_code(t, model, node, start, src_var, pad),
{
    assert forall|t: Text, model: ModelV, node: NodeV, start: Text, src_var: Text, pad: Text|
        #[trigger] constant_code(
            s + t,
            model,
            node,
            start,
            src_var,
            pad,
        ) == s + constant_code(t, model, node, start, src_var, pad) by {
        lemma_constant_code(s, t, model, node, start, src_var, pad);
    }
}

proof fn lemma_missing_code(
    s: Text,
    t: Text,
    node: NodeV,
    key: Text,
    index: Option<Text>,
    pad: Text,
)
    ensures
        missing_code(s + t, node, key, index, pad) == s + missing_code(t, node, key, index, pad),
{
    lemma_assoc(s);
    all_diag_code(s);
}

proof fn all_missing_code(s: Text)
    ensures
        forall|t: Text, node: NodeV, key: Text, index: Option<Text>, pad: Text|
            #[trigger] missing_code(
                s + t,
                node,
                key,
                index,
                pad,
            ) == s + missing_code(t, node, key, index, pad),
{
    assert forall|t: Text, node: NodeV, key: Text, index: Option<Text>, pad: Text|
        #[trigger] missing_code(
            s + t,
            node,
            key,
            index,
            pad,
        ) == s + missing_code(t, node, key, index, pad) by {
        lemma_missing_code(s, t, node, key, index, pad);
    }
}

pub proof fn lemma_scalar_write_code(
    s: Text,
    t: Text,
    model: ModelV,
    node: NodeV,
    start: Text,
    hub_var: Text,
    src_var: Text,
    index: Option<Text>,
    pad: Text,
    take: bool,
)
    ensures
        scalar_write_code(
            s + t,
            model,
            node,
            start,
            hub_var,
            src_var,
            index,
            pad,
            take,
        ) == s + scalar_write_code(t, model, node, start, hub_var, src_var, index, pad, take),
{
    lemma_assoc(s);
    all_missing_code(s);
}

proof fn all_scalar_write_code(s: Text)
    ensures
        forall|
            t: Text,
            model: ModelV,
            node: NodeV,
            start: Text,
            hub_var: Text,
            src_var: Text,
            index: Option<Text>,
            pad: Text,
            take: bool,
        |
            #[trigger] scalar_write_code(
                s + t,
                model,
                node,
                start,
                hub_var,
                src_var,
                index,
                pad,
                take,
            ) == s + scalar_write_code(t, model, node, start, hub_var, src_var, index, pad, take),
{
    assert forall|
        t: Text,
        model: ModelV,
        node: NodeV,
        start: Text,
        hub_var: Text,
        src_var: Text,
        index: Option<Text>,
        pad: Text,
        take: bool,
    |
        #[trigger] scalar_write_code(
            s + t,
            model,
            node,
            start,
            hub_var,
            src_var,
            index,
            pad,
            take,
        ) == s + scalar_write_code(t, model, node, start, hub_var, src_var, index, pad, take) by {
        lemma_scalar_write_code(s, t, model, node, start, hub_var, src_var, index, pad, take);
    }
}

proof fn lemma_scalars_write_code(
    s: Text,
    t: Text,
    model: ModelV,
    p: PlaceV,
    shared: Seq<Text>,
    skip: bool,
    list: Seq<NodeV>,
    n: int,
)
    ensures
        scalars_write_code(
            s + t,
            model,
            p,
            shared,
            skip,
            list,
            n,
        ) == s + scalars_write_code(t, model, p, shared, skip, list, n),
    decreases n,
{
    lemma_assoc(s);
    all_scalar_write_code(s);
    if n > 0 {
        lemma_scalars_write_code(s, t, model, p, shared, skip, list, n - 1);
    }
}

proof fn all_scalars_write_code(s: Text)
    ensures
        forall|
            t: Text,
            model: ModelV,
            p: PlaceV,
            shared: Seq<Text>,
            skip: bool,
            list: Seq<NodeV>,
            n: int,
        |
            #[trigger] scalars_write_code(
                s + t,
                model,
                p,
                shared,
                skip,
                list,
                n,
            ) == s + scalars_write_code(t, model, p, shared, skip, list, n),
{
    assert forall|
        t: Text,
        model: ModelV,
        p: PlaceV,
        shared: Seq<Text>,
        skip: bool,
        list: Seq<NodeV>,
        n: int,
    |
        #[trigger] scalars_write_code(
            s + t,
            model,
            p,
            shared,
            skip,
            list,
            n,
        ) == s + scalars_write_code(t, model, p, shared, skip, list, n) by {
        lemma_scalars_write_code(s, t, model, p, shared, skip, list, n);
    }
}

proof fn lemma_constants_code(
    s: Text,
    t: Text,
    model: ModelV,
    start: Text,
    src_var: Text,
    pad: Text,
    spaced: bool,
    list: Seq<NodeV>,
    n: int,
)
    ensures
        constants_code(
            s + t,
            model,
            start,
            src_var,
            pad,
            spaced,
            list,
            n,
        ) == s + constants_code(t, model, start, src_var, pad, spaced, list, n),
    decreases n,
{
    lemma_assoc(s);
    all_constant_code(s);
    if n > 0 {
        lemma_constants_code(s, t, model, start, src_var, pad, spaced, list, n - 1);
    }
}

proof fn all_constants_code(s: Text)
    ensures
        forall|
            t: Text,
            model: ModelV,
            start: Text,
            src_var: Text,
            pad: Text,
            spaced: bool,
            list: Seq<NodeV>,
            n: int,
        |
            #[trigger] constants_code(
                s + t,
                model,
                start,
                src_var,
                pad,
                spaced,
                list,
                n,
            ) == s + constants_code(t, model, start, src_var, pad, spaced, list, n),
{
    assert forall|
        t: Text,
        model: ModelV,
        start: Text,
        src_var: Text,
        pad: Text,
        spaced: bool,
        list: Seq<NodeV>,
        n: int,
    |
        #[trigger] constants_code(
            s + t,
            model,
            start,
            src_var,
            pad,
            spaced,
            list,
            n,
        ) == s + constants_code(t, model, start, src_var, pad, spaced, list, n) by {
        lemma_constants_code(s, t, model, start, src_var, pad, spaced, list, n);
    }
}

pub proof fn lemma_write_opening(
    s: Text,
    t: Text,
    model: ModelV,
    coll: NodeV,
    f: FrameV,
    item_struct: Text,
    owned: bool,
)
    ensures
        write_opening(
            s + t,
            model,
            coll,
            f,
            item_struct,
            owned,
        ) == s + write_opening(t, model, coll, f, item_struct, owned),
{
    lemma_assoc(s);
}

proof fn all_write_opening(s: Text)
    ensures
        forall|t: Text, model: ModelV, coll: NodeV, f: FrameV, item_struct: Text, owned: bool|
            #[trigger] write_opening(
                s + t,
                model,
                coll,
                f,
                item_struct,
                owned,
            ) == s + write_opening(t, model, coll, f, item_struct, owned),
{
    assert forall|t: Text, model: ModelV, coll: NodeV, f: FrameV, item_struct: Text, owned: bool|
        #[trigger] write_opening(
            s + t,
            model,
            coll,
            f,
            item_struct,
            owned,
        ) == s + write_opening(t, model, coll, f, item_struct, owned) by {
        lemma_write_opening(s, t, model, coll, f, item_struct, owned);
    }
}

pub proof fn lemma_write_test(s: Text, t: Text, f: FrameV)
    ensures
        write_test(s + t, f) == s + write_test(t, f),
{
    lemma_assoc(s);
}

proof fn all_write_test(s: Text)
    ensures
        forall|t: Text, f: FrameV|
            #[trigger] write_test(s + t, f) == s + write_test(t, f),
{
    assert forall|t: Text, f: FrameV|
        #[trigger] write_test(s + t, f) == s + write_test(t, f) by {
        lemma_write_test(s, t, f);
    }
}

pub proof fn lemma_write_closing(s: Text, t: Text, model: ModelV, coll: NodeV, f: FrameV)
    ensures
        write_closing(s + t, model, coll, f) == s + write_closing(t, model, coll, f),
{
    lemma_assoc(s);
    all_diag_code(s);
}

proof fn all_write_closing(s: Text)
    ensures
        forall|t: Text, model: ModelV, coll: NodeV, f: FrameV|
            #[trigger] write_closing(s + t, model, coll, f) == s + write_closing(t, model, coll, f),
{
    assert forall|t: Text, model: ModelV, coll: NodeV, f: FrameV|
        #[trigger] write_closing(s + t, model, coll, f) == s + write_closing(t, model, coll, f) by {
        lemma_write_closing(s, t, model, coll, f);
    }
}

pub proof fn lemma_collection_write_code(
    s: Text,
    t: Text,
    nodes: IrNodesV,
    model: ModelV,
    coll: NodeV,
    f: FrameV,
    shared: Seq<Text>,
)
    requires
        scopes_ascend(nodes),
    ensures
        collection_write_code(
            s + t,
            nodes,
            model,
            coll,
            f,
            shared,
        ) == s + collection_write_code(t, nodes, model, coll, f, shared),
    decreases room(nodes, coll.id), 1int, 0int,
{
    lemma_assoc(s);
    all_write_opening(s);
    all_scalars_write_code(s);
    all_write_test(s);
    all_constants_code(s);
    all_write_closing(s);
    let owned = f.owned && !repeats(shared, coll.canonical_key->0);
    let item_struct = item_struct_at(model, f.parent_struct, coll.source_path);
    let inside = Some(coll.id);
    let inner_shared = write_keys(nodes, inside);
    let p = inner_place(f, item_struct, owned);
    let scalars = picked(nodes, Role::Scalar, inside);
    let copies = picked(nodes, Role::Clone, inside);
    let t1 = write_opening(t, model, coll, f, item_struct, owned);
    let t2 = scalars_write_code(t1, model, p, inner_shared, true, scalars, scalars.len() as int);
    let t3 = scalars_write_code(t2, model, p, inner_shared, false, copies, copies.len() as int);
    lemma_nested_write_code(
        s,
        t3,
        nodes,
        model,
        coll.id,
        inner_write_frame(f, item_struct, owned),
        inner_shared,
        picked(nodes, Role::Collection, inside).len() as int,
    );
}

proof fn lemma_nested_write_code(
    s: Text,
    t: Text,
    nodes: IrNodesV,
    model: ModelV,
    outer: Text,
    f: FrameV,
    shared: Seq<Text>,
    n: int,
)
    requires
        scopes_ascend(nodes),
        n <= picked(nodes, Role::Collection, Some(outer)).len(),
    ensures
        nested_write_code(
            s + t,
            nodes,
            model,
            outer,
            f,
            shared,
            n,
        ) == s + nested_write_code(t, nodes, model, outer, f, shared, n),
    decreases room(nodes, outer), 0int, n,
{
    lemma_assoc(s);
    if n > 0 {
        lemma_room(nodes, outer);
        lemma_nested_write_code(s, t, nodes, model, outer, f, shared, n - 1);
        lemma_collection_write_code(
            s,
            nested_write_code(t, nodes, model, outer, f, shared, n - 1),
            nodes,
            model,
            picked(nodes, Role::Collection, Some(outer))[n - 1],
            f,
            shared,
        );
    }
}

proof fn all_collection_write_code(s: Text, nodes: IrNodesV)
    requires
        scopes_ascend(nodes),
    ensures
        forall|t: Text, model: ModelV, coll: NodeV, f: FrameV, shared: Seq<Text>|
            #[trigger] collection_write_code(
                s + t,
                nodes,
                model,
                coll,
                f,
                shared,
            ) == s + collection_write_code(t, nodes, model, coll, f, shared),
{
    assert forall|t: Text, model: ModelV, coll: NodeV, f: FrameV, shared: Seq<Text>|
        #[trigger] collection_write_code(
            s + t,
            nodes,
            model,
            coll,
            f,
            shared,
        ) == s + collection_write_code(t, nodes, model, coll, f, shared) by {
        lemma_collection_write_code(s, t, nodes, model, coll, f, shared);
    }
}

proof fn lemma_root_collections_write_code(
    s: Text,
    t: Text,
    nodes: IrNodesV,
    model: ModelV,
    shared: Seq<Text>,
    n: int,
)
    requires
        scopes_ascend(nodes),
    ensures
        root_collections_write_code(
            s + t,
            nodes,
            model,
            shared,
            n,
        ) == s + root_collections_write_code(t, nodes, model, shared, n),
    decreases n,
{
    lemma_assoc(s);
    all_collection_write_code(s, nodes);
    if n > 0 {
        lemma_root_collections_write_code(s, t, nodes, model, shared, n - 1);
    }
}

proof fn all_root_collections_write_code(s: Text, nodes: IrNodesV)
    requires
        scopes_ascend(nodes),
    ensures
        forall|t: Text, model: ModelV, shared: Seq<Text>, n: int|
            #[trigger] root_collections_write_code(
                s + t,
                nodes,
                model,
                shared,
                n,
            ) == s + root_collections_write_code(t, nodes, model, shared, n),
{
    assert forall|t: Text, model: ModelV, shared: Seq<Text>, n: int|
        #[trigger] root_collections_write_code(
            s + t,
            nodes,
            model,
            shared,
            n,
        ) == s + root_collections_write_code(t, nodes, model, shared, n) by {
        lemma_root_collections_write_code(s, t, nodes, model, shared, n);
    }
}

pub proof fn lemma_writer_head(s: Text, t: Text, root: Text)
    ensures
        writer_head(s + t, root) == s + writer_head(t, root),
{
    lemma_assoc(s);
}

proof fn all_writer_head(s: Text)
    ensures
        forall|t: Text, root: Text|
            #[trigger] writer_head(s + t, root) == s + writer_head(t, root),
{
    assert forall|t: Text, root: Text|
        #[trigger] writer_head(s + t, root) == s + writer_head(t, root) by {
        lemma_writer_head(s, t, root);
    }
}

pub proof fn lemma_writer_code(s: Text, t: Text, nodes: IrNodesV, model: ModelV, root: Text)
    requires
        scopes_ascend(nodes),
    ensures
        writer_code(s + t, nodes, model, root) == s + writer_code(t, nodes, model, root),
{
    lemma_assoc(s);
    all_writer_head(s);
    all_constants_code(s);
    all_scalars_write_code(s);
    all_root_collections_write_code(s, nodes);
}

proof fn lemma_empty_checks(s: Text, t: Text, fields: FieldsV, n: int)
    ensures
        empty_checks(s + t, fields, n) == s + empty_checks(t, fields, n),
    decreases n,
{
    lemma_assoc(s);
    if n > 0 {
        lemma_empty_checks(s, t, fields, n - 1);
    }
}

proof fn all_empty_checks(s: Text)
    ensures
        forall|t: Text, fields: FieldsV, n: int|
            #[trigger] empty_checks(s + t, fields, n) == s + empty_checks(t, fields, n),
{
    assert forall|t: Text, fields: FieldsV, n: int|
        #[trigger] empty_checks(s + t, fields, n) == s + empty_checks(t, fields, n) by {
        lemma_empty_checks(s, t, fields, n);
    }
}

proof fn lemma_is_empty_text(s: Text, t: Text, name: Text, fields: FieldsV)
    ensures
        is_empty_text(s + t, name, fields) == s + is_empty_text(t, name, fields),
{
    lemma_assoc(s);
    all_empty_checks(s);
}

proof fn all_is_empty_text(s: Text)
    ensures
        forall|t: Text, name: Text, fields: FieldsV|
            #[trigger] is_empty_text(s + t, name, fields) == s + is_empty_text(t, name, fields),
{
    assert forall|t: Text, name: Text, fields: FieldsV|
        #[trigger] is_empty_text(s + t, name, fields) == s + is_empty_text(t, name, fields) by {
        lemma_is_empty_text(s, t, name, fields);
    }
}

proof fn lemma_source_field(s: Text, t: Text, name: Text, f: FieldV)
    ensures
        source_field(s + t, name, f) == s + source_field(t, name, f),
{
    lemma_assoc(s);
}

proof fn all_source_field(s: Text)
    ensures
        forall|t: Text, name: Text, f: FieldV|
            #[trigger] source_field(s + t, name, f) == s + source_field(t, name, f),
{
    assert forall|t: Text, name: Text, f: FieldV|
        #[trigger] source_field(s + t, name, f) == s + source_field(t, name, f) by {
        lemma_source_field(s, t, name, f);
    }
}

proof fn lemma_source_fields(s: Text, t: Text, fields: FieldsV, n: int)
    ensures
        source_fields(s + t, fields, n) == s + source_fields(t, fields, n),
    decreases n,
{
    lemma_assoc(s);
    all_source_field(s);
    if n > 0 {
        lemma_source_fields(s, t, fields, n - 1);
    }
}

proof fn all_source_fields(s: Text)
    ensures
        forall|t: Text, fields: FieldsV, n: int|
            #[trigger] source_fields(s + t, fields, n) == s + source_fields(t, fields, n),
{
    assert forall|t: Text, fields: FieldsV, n: int|
        #[trigger] source_fields(s + t, fields, n) == s + source_fields(t, fields, n) by {
        lemma_source_fields(s, t, fields, n);
    }
}

proof fn lemma_struct_text(s: Text, t: Text, name: Text, fields: FieldsV)
    ensures
        struct_text(s + t, name, fields) == s + struct_text(t, name, fields),
{
    lemma_assoc(s);
    all_source_fields(s);
    all_is_empty_text(s);
}

proof fn all_struct_text(s: Text)
    ensures
        forall|t: Text, name: Text, fields: FieldsV|
            #[trigger] struct_text(s + t, name, fields) == s + struct_text(t, name, fields),
{
    assert forall|t: Text, name: Text, fields: FieldsV|
        #[trigger] struct_text(s + t, name, fields) == s + struct_text(t, name, fields) by {
        lemma_struct_text(s, t, name, fields);
    }
}

proof fn lemma_structs_text(s: Text, t: Text, structs: StructsV, n: int)
    ensures
        structs_text(s + t, structs, n) == s + structs_text(t, structs, n),
    decreases n,
{
    lemma_assoc(s);
    all_struct_text(s);
    if n > 0 {
        lemma_structs_text(s, t, structs, n - 1);
    }
}

proof fn all_structs_text(s: Text)
    ensures
        forall|t: Text, structs: StructsV, n: int|
            #[trigger] structs_text(s + t, structs, n) == s + structs_text(t, structs, n),
{
    assert forall|t: Text, structs: StructsV, n: int|
        #[trigger] structs_text(s + t, structs, n) == s + structs_text(t, structs, n) by {
        lemma_structs_text(s, t, structs, n);
    }
}

proof fn lemma_xml_io(s: Text, t: Text, root: Text)
    ensures
        xml_io(s + t, root) == s + xml_io(t, root),
{
    lemma_assoc(s);
}

proof fn all_xml_io(s: Text)
    ensures
        forall|t: Text, root: Text|
            #[trigger] xml_io(s + t, root) == s + xml_io(t, root),
{
    assert forall|t: Text, root: Text|
        #[trigger] xml_io(s + t, root) == s + xml_io(t, root) by {
        lemma_xml_io(s, t, root);
    }
}

pub proof fn lemma_source_section_text(s: Text, t: Text, model: ModelV)
    ensures
        source_section_text(s + t, model) == s + source_section_text(t, model),
{
    lemma_assoc(s);
    all_structs_text(s);
    all_xml_io(s);
}

} // verus!
