//! The mappers of a spoke declare no struct and no XML input or output: the words
//! that begin one do not stand in them, unless the mapping itself holds them.
use vstd::prelude::*;

use crate::dsl::codegen::access::{
    access_of, access_text, filled, item_struct_at, list_slice_of, list_take_of, normalized,
    opened, path_segs, seg_of, segs_from, step_call, take_of, take_text, target_of,
    unresolved_text, SegV,
};
use crate::dsl::codegen::diag::{diag_code, DiagSpecV};
use crate::dsl::codegen::naming::field_of;
use crate::dsl::codegen::plan::{
    generable, joins, lemma_room, picked, picked_upto, plays, room, FrameV, Role,
};
use crate::dsl::codegen::read::{
    assign_code, chain_items, clone_code, clones_code, closing_code, collection_code, decode_code,
    fallback_code, fallbacks_code, inner_frame, inner_target, many_code, nested_code, opening_code,
    read_paths, reader_code, reader_head, root_collections_code, scalar_code, scalars_code,
    value_expr, TargetV,
};
use crate::dsl::codegen::sharing::repeats;
use crate::dsl::codegen::spoke::{
    imports_text, law_two_modules_carry_the_spoke, mapper_module_head, mapper_module_text,
    mappers_text, mapping_line,
};
use crate::dsl::codegen::words::{
    lemma_decimals, lemma_pieces, lemma_rules, literals_of_heads, literals_of_paths,
    literals_of_readers, literals_of_writers, parts, plain_quotes, tame, wordless,
};
use crate::dsl::codegen::write::{
    collection_write_code, constant_code, constants_code, inner_place, inner_write_frame, keyed,
    missing_code, nested_write_code, root_collections_write_code, scalar_write_code,
    scalars_write_code, write_closing, write_keys, write_opening, write_test, writer_code,
    writer_head, PlaceV,
};
use crate::dsl::ir::{IrNodesV, IrV};
use crate::dsl::multiple::MultiplePolicy;
use crate::dsl::node::{NodeId, NodeV};
use crate::dsl::normalize::NormalizeOp;
use crate::dsl::source_model::meta::{FieldV, FieldsV, ModelV, StructsV};
use crate::ordmap::{lemma_lookup_none, lookup};
use crate::text::{has, quoted, split, Text};

verus! {

/// Whether a canonical key holds none of the words, as it is and as a field name.
pub open spec fn plain_key(key: Text) -> bool {
    wordless(key) && wordless(field_of(key))
}

/// Whether an optional text holds none of the words.
pub open spec fn plain_index(t: Option<Text>) -> bool {
    t is Some ==> wordless(t->0)
}

/// Whether the names and texts of a node hold none of the words.
pub open spec fn plain_node(n: NodeV) -> bool {
    &&& wordless(n.id) && wordless(n.source_path)
    &&& n.canonical_key is Some ==> plain_key(n.canonical_key->0)
    &&& n.clone_of is Some ==> plain_key(n.clone_of->0)
    &&& plain_index(n.adapter) && plain_index(n.constant) && plain_index(n.join_with)
    &&& forall|i: int| 0 <= i < n.fallbacks.len() ==> wordless(#[trigger] n.fallbacks[i])
}

/// Whether the names and texts of a mapping's nodes hold none of the words.
pub open spec fn plain_nodes(nodes: IrNodesV) -> bool {
    forall|i: int| 0 <= i < nodes.len() ==> plain_node((#[trigger] nodes[i]).1)
}

/// Whether the names of a source model's structs hold none of the words.
pub open spec fn plain_model(model: ModelV) -> bool {
    &&& wordless(model.root)
    &&& forall|i: int| 0 <= i < model.structs.len() ==> plain_fields((#[trigger] model.structs[i]).1)
}

/// Whether the structs that fields hold have names without any of the words.
pub open spec fn plain_fields(fields: FieldsV) -> bool {
    forall|i: int| 0 <= i < fields.len() ==> plain_index((#[trigger] fields[i]).1.ty)
}

spec fn plain_target(target: TargetV) -> bool {
    wordless(target.struct_var) && wordless(target.base) && plain_index(target.index)
}

spec fn plain_frame(f: FrameV) -> bool {
    tame(f.pad) && wordless(f.parent_hub) && wordless(f.parent_src) && wordless(f.parent_struct)
}

spec fn plain_place(p: PlaceV) -> bool {
    tame(p.pad) && wordless(p.start) && wordless(p.hub_var) && wordless(p.src_var) && plain_index(
        p.index,
    )
}

spec fn plain_diag(d: DiagSpecV) -> bool {
    &&& wordless(d.severity) && wordless(d.code) && wordless(d.node_id) && wordless(d.msg)
    &&& plain_index(d.key) && plain_index(d.path) && plain_index(d.index) && plain_index(d.chain)
}

spec fn plain_list(list: Seq<NodeV>, role: Role) -> bool {
    forall|i: int|
        0 <= i < list.len() ==> plain_node(#[trigger] list[i]) && plays(list[i], role) && (role
            == Role::Scalar ==> joins(list[i]))
}

spec fn plain_segs(segs: Seq<SegV>) -> bool {
    &&& segs.len() > 0
    &&& forall|i: int|
        0 <= i < segs.len() ==> wordless((#[trigger] segs[i]).name) && plain_index(
            segs[i].struct_name,
        )
}

// ---------------------------------------------------------------------------
// Names and expressions
// ---------------------------------------------------------------------------

proof fn lemma_picked_upto_plain(nodes: IrNodesV, role: Role, scope: Option<Text>, n: int)
    requires
        generable(nodes),
        plain_nodes(nodes),
        0 <= n <= nodes.len(),
    ensures
        plain_list(picked_upto(nodes, role, scope, n), role),
    decreases n,
{
    if n > 0 {
        lemma_picked_upto_plain(nodes, role, scope, n - 1);
        let a = picked_upto(nodes, role, scope, n - 1);
        let b = picked_upto(nodes, role, scope, n);
        assert(plain_node(nodes[n - 1].1));
        assert forall|i: int| 0 <= i < b.len() implies plain_node(#[trigger] b[i]) && plays(
            b[i],
            role,
        ) && (role == Role::Scalar ==> joins(b[i])) by {
            if i < a.len() {
                assert(b[i] == a[i]);
            }
        }
    }
}

proof fn lemma_picked_plain(nodes: IrNodesV, role: Role, scope: Option<Text>)
    requires
        generable(nodes),
        plain_nodes(nodes),
    ensures
        plain_list(picked(nodes, role, scope), role),
{
    lemma_picked_upto_plain(nodes, role, scope, nodes.len() as int);
}

proof fn lemma_lookups(nodes: IrNodesV)
    requires
        plain_nodes(nodes),
    ensures
        forall|id: Text|
            (#[trigger] lookup::<NodeId, NodeV>(nodes, id)) is Some ==> plain_node(
                lookup::<NodeId, NodeV>(nodes, id)->0,
            ),
{
    assert forall|id: Text|
        (#[trigger] lookup::<NodeId, NodeV>(nodes, id)) is Some implies plain_node(
        lookup::<NodeId, NodeV>(nodes, id)->0,
    ) by {
        lemma_lookup_none::<NodeId, NodeV>(nodes, id);
        let i = choose|i: int|
            0 <= i < nodes.len() && (#[trigger] nodes[i]).0 == id && Some(nodes[i].1) == lookup::<
                NodeId,
                NodeV,
            >(nodes, id);
        assert(plain_node(nodes[i].1));
    }
}

proof fn lemma_segs_from(structs: StructsV, name: Text, segs: Seq<Text>)
    requires
        forall|i: int| 0 <= i < structs.len() ==> plain_fields((#[trigger] structs[i]).1),
        forall|i: int| 0 <= i < segs.len() ==> wordless(#[trigger] segs[i]),
    ensures
        segs_from(structs, name, segs) is Some ==> plain_segs(segs_from(structs, name, segs)->0),
    decreases segs.len(),
{
    if let Some(fields) = lookup::<String, FieldsV>(structs, name) {
        lemma_lookup_none::<String, FieldsV>(structs, name);
        let s = choose|s: int|
            0 <= s < structs.len() && (#[trigger] structs[s]).0 == name && Some(structs[s].1)
                == lookup::<String, FieldsV>(structs, name);
        assert(plain_fields(structs[s].1));
        if segs.len() > 0 {
            assert(wordless(segs[0]));
            lemma_lookup_none::<String, FieldV>(fields, segs[0]);
            if let Some(f) = lookup::<String, FieldV>(fields, segs[0]) {
                let p = choose|p: int|
                    0 <= p < fields.len() && (#[trigger] fields[p]).0 == segs[0] && Some(
                        fields[p].1,
                    ) == lookup::<String, FieldV>(fields, segs[0]);
                assert(plain_index(fields[p].1.ty));
                if segs.len() > 1 && f.ty is Some {
                    let tail = segs.drop_first();
                    assert forall|i: int| 0 <= i < tail.len() implies wordless(
                        #[trigger] tail[i],
                    ) by {
                        assert(tail[i] == segs[i + 1]);
                    }
                    lemma_segs_from(structs, f.ty->0, tail);
                    if let Some(rest) = segs_from(structs, f.ty->0, tail) {
                        let all = seq![seg_of(segs[0], f)] + rest;
                        assert forall|i: int| 0 <= i < all.len() implies wordless(
                            (#[trigger] all[i]).name,
                        ) && plain_index(all[i].struct_name) by {
                            if i > 0 {
                                assert(all[i] == rest[i - 1]);
                            }
                        }
                    }
                }
            }
        }
    }
}

proof fn lemma_path_segs(model: ModelV, start: Text, path: Text)
    requires
        plain_model(model),
        wordless(path),
    ensures
        path_segs(model, start, path) is Some ==> plain_segs(path_segs(model, start, path)->0),
{
    lemma_pieces(path, '.');
    lemma_segs_from(model.structs, start, split(path, '.'));
}

proof fn lemma_item_struct(model: ModelV, start: Text, path: Text)
    requires
        plain_model(model),
        wordless(path),
    ensures
        wordless(item_struct_at(model, start, path)),
{
    lemma_path_segs(model, start, path);
    if let Some(segs) = path_segs(model, start, path) {
        assert(plain_index(segs[segs.len() - 1].struct_name));
    }
}

proof fn lemma_opened(base: Text, segs: Seq<SegV>, n: int, by: Text)
    requires
        wordless(base),
        plain_segs(segs),
        0 <= n <= segs.len(),
        tame(by),
        parts(by),
    ensures
        tame(opened(base, segs, n, by).expr),
        wordless(opened(base, segs, n, by).recv),
        tame(opened(base, segs, n, by).closers),
    decreases n,
{
    lemma_rules();
    literals_of_paths();
    lemma_decimals();
    if n > 0 {
        lemma_opened(base, segs, n - 1, by);
        assert(wordless(segs[n - 1].name));
    }
}

proof fn lemma_unresolved(path: Text, start: Text)
    requires
        wordless(path),
        wordless(start),
    ensures
        wordless(unresolved_text(path, start)),
{
    lemma_rules();
    literals_of_paths();
}

proof fn lemma_taken(base: Text, path: Text, segs: Seq<SegV>)
    requires
        wordless(base),
        wordless(path),
        plain_segs(segs),
    ensures
        wordless(take_text(base, path, segs)),
        wordless(access_text(base, path, segs)),
{
    lemma_rules();
    literals_of_paths();
    lemma_decimals();
    lemma_opened(base, segs, segs.len() - 1, ".as_mut()"@);
    lemma_opened(base, segs, segs.len() - 1, ".as_ref()"@);
    assert(wordless(segs[segs.len() - 1].name));
}

proof fn lemma_lists(model: ModelV, start: Text, path: Text, base: Text)
    requires
        plain_model(model),
        wordless(start),
        wordless(path),
        wordless(base),
    ensures
        wordless(list_take_of(model, start, path, base)),
        wordless(list_slice_of(model, start, path, base)),
        wordless(take_of(model, start, path, base)),
        wordless(access_of(model, start, path, base)),
{
    lemma_rules();
    literals_of_paths();
    lemma_path_segs(model, start, path);
    lemma_unresolved(path, start);
    if let Some(segs) = path_segs(model, start, path) {
        lemma_taken(base, path, segs);
        lemma_opened(base, segs, segs.len() - 1, ".as_ref()"@);
        assert(wordless(segs[segs.len() - 1].name));
    }
}

proof fn all_lists()
    ensures
        forall|model: ModelV, start: Text, path: Text, base: Text|
            plain_model(model) && wordless(start) && wordless(path) && wordless(base) ==> wordless(
                #[trigger] list_take_of(model, start, path, base),
            ),
        forall|model: ModelV, start: Text, path: Text, base: Text|
            plain_model(model) && wordless(start) && wordless(path) && wordless(base) ==> wordless(
                #[trigger] list_slice_of(model, start, path, base),
            ),
{
    assert forall|model: ModelV, start: Text, path: Text, base: Text|
        plain_model(model) && wordless(start) && wordless(path) && wordless(base) implies wordless(
        #[trigger] list_take_of(model, start, path, base),
    ) by {
        lemma_lists(model, start, path, base);
    }
    assert forall|model: ModelV, start: Text, path: Text, base: Text|
        plain_model(model) && wordless(start) && wordless(path) && wordless(base) implies wordless(
        #[trigger] list_slice_of(model, start, path, base),
    ) by {
        lemma_lists(model, start, path, base);
    }
}

proof fn lemma_filled(base: Text, segs: Seq<SegV>, n: int)
    requires
        wordless(base),
        plain_segs(segs),
        0 <= n <= segs.len(),
    ensures
        wordless(filled(base, segs, n)),
    decreases n,
{
    lemma_rules();
    literals_of_paths();
    if n > 0 {
        lemma_filled(base, segs, n - 1);
        assert(wordless(segs[n - 1].name));
    }
}

proof fn all_targets()
    ensures
        forall|model: ModelV, start: Text, path: Text, base: Text|
            plain_model(model) && wordless(start) && wordless(path) && wordless(base) ==> wordless(
                #[trigger] target_of(model, start, path, base),
            ),
{
    assert forall|model: ModelV, start: Text, path: Text, base: Text|
        plain_model(model) && wordless(start) && wordless(path) && wordless(base) implies wordless(
        #[trigger] target_of(model, start, path, base),
    ) by {
        lemma_path_segs(model, start, path);
        lemma_unresolved(path, start);
        if let Some(segs) = path_segs(model, start, path) {
            lemma_filled(base, segs, segs.len() as int);
        }
    }
}

proof fn lemma_normalized(access: Text, ops: Seq<NormalizeOp>, owned: bool, n: int)
    requires
        wordless(access),
    ensures
        wordless(normalized(access, ops, owned, n)),
    decreases n,
{
    lemma_rules();
    literals_of_paths();
    if n > 0 {
        lemma_normalized(access, ops, owned, n - 1);
        assert(tame(step_call(ops[n - 1])) && parts(step_call(ops[n - 1])));
    }
}

proof fn all_normalized()
    ensures
        forall|access: Text, ops: Seq<NormalizeOp>, owned: bool, n: int|
            wordless(access) ==> wordless(#[trigger] normalized(access, ops, owned, n)),
{
    assert forall|access: Text, ops: Seq<NormalizeOp>, owned: bool, n: int|
        wordless(access) implies wordless(#[trigger] normalized(access, ops, owned, n)) by {
        lemma_normalized(access, ops, owned, n);
    }
}

proof fn all_values()
    ensures
        forall|
            model: ModelV,
            start: Text,
            path: Text,
            ops: Seq<NormalizeOp>,
            target: TargetV,
            take: bool,
        |
            plain_model(model) && wordless(start) && wordless(path) && plain_target(target)
                ==> wordless(#[trigger] value_expr(model, start, path, ops, target, take)),
{
    assert forall|
        model: ModelV,
        start: Text,
        path: Text,
        ops: Seq<NormalizeOp>,
        target: TargetV,
        take: bool,
    |
        plain_model(model) && wordless(start) && wordless(path) && plain_target(
            target,
        ) implies wordless(#[trigger] value_expr(model, start, path, ops, target, take)) by {
        lemma_lists(model, start, path, target.base);
        all_normalized();
    }
}

proof fn lemma_chain(node: NodeV, n: int)
    requires
        plain_quotes(),
        plain_node(node),
        n <= node.fallbacks.len(),
    ensures
        tame(chain_items(node, n)),
    decreases n,
{
    lemma_rules();
    literals_of_readers();
    assert(wordless(quoted(node.id)));
    if n > 0 {
        lemma_chain(node, n - 1);
        assert(wordless(quoted(node.fallbacks[n - 1])));
    }
}

proof fn all_chains()
    requires
        plain_quotes(),
    ensures
        forall|node: NodeV, n: int|
            plain_node(node) && n <= node.fallbacks.len() ==> tame(#[trigger] chain_items(node, n)),
{
    assert forall|node: NodeV, n: int| plain_node(node) && n <= node.fallbacks.len() implies tame(
        #[trigger] chain_items(node, n),
    ) by {
        lemma_chain(node, n);
    }
}

// ---------------------------------------------------------------------------
// The mappers
// ---------------------------------------------------------------------------

proof fn tame_diag_code(t: Text, d: DiagSpecV, pad: Text)
    requires
        plain_quotes(),
        tame(t),
        tame(pad),
        plain_diag(d),
    ensures
        tame(diag_code(t, d, pad)),
{
    lemma_rules();
    literals_of_readers();
}

proof fn all_diag_code()
    requires
        plain_quotes(),
    ensures
        forall|t: Text, d: DiagSpecV, pad: Text|
            tame(t)
                && tame(pad)
                && plain_diag(d)
                ==> tame(#[trigger] diag_code(t, d, pad)),
{
    assert forall|t: Text, d: DiagSpecV, pad: Text|
        tame(t)
            && tame(pad)
            && plain_diag(d)
        implies tame(#[trigger] diag_code(t, d, pad)) by {
        tame_diag_code(t, d, pad);
    }
}

#[verifier::rlimit(60)]
proof fn tame_decode_code(t: Text, node: NodeV, key: Text, pad: Text, lhs: Text, target: TargetV)
    requires
        plain_quotes(),
        tame(t),
        tame(pad),
        plain_node(node),
        wordless(key),
        wordless(lhs),
        plain_target(target),
    ensures
        tame(decode_code(t, node, key, pad, lhs, target)),
{
    lemma_rules();
    literals_of_readers();
    all_diag_code();
}

proof fn all_decode_code()
    requires
        plain_quotes(),
    ensures
        forall|t: Text, node: NodeV, key: Text, pad: Text, lhs: Text, target: TargetV|
            tame(t)
                && tame(pad)
                && plain_node(node)
                && wordless(key)
                && wordless(lhs)
                && plain_target(target)
                ==> tame(#[trigger] decode_code(t, node, key, pad, lhs, target)),
{
    assert forall|t: Text, node: NodeV, key: Text, pad: Text, lhs: Text, target: TargetV|
        tame(t)
            && tame(pad)
            && plain_node(node)
            && wordless(key)
            && wordless(lhs)
            && plain_target(target)
        implies tame(#[trigger] decode_code(t, node, key, pad, lhs, target)) by {
        tame_decode_code(t, node, key, pad, lhs, target);
    }
}

proof fn tame_assign_code(t: Text, node: NodeV, key: Text, pad: Text, target: TargetV)
    requires
        plain_quotes(),
        tame(t),
        tame(pad),
        plain_node(node),
        plain_key(key),
        plain_target(target),
    ensures
        tame(assign_code(t, node, key, pad, target)),
{
    lemma_rules();
    literals_of_readers();
    all_diag_code();
    all_decode_code();
}

proof fn all_assign_code()
    requires
        plain_quotes(),
    ensures
        forall|t: Text, node: NodeV, key: Text, pad: Text, target: TargetV|
            tame(t)
                && tame(pad)
                && plain_node(node)
                && plain_key(key)
                && plain_target(target)
                ==> tame(#[trigger] assign_code(t, node, key, pad, target)),
{
    assert forall|t: Text, node: NodeV, key: Text, pad: Text, target: TargetV|
        tame(t)
            && tame(pad)
            && plain_node(node)
            && plain_key(key)
            && plain_target(target)
        implies tame(#[trigger] assign_code(t, node, key, pad, target)) by {
        tame_assign_code(t, node, key, pad, target);
    }
}

proof fn tame_many_code(
    t: Text,
    model: ModelV,
    start: Text,
    node: NodeV,
    key: Text,
    policy: MultiplePolicy,
    pad: Text,
    target: TargetV,
    take: bool,
)
    requires
        plain_quotes(),
        tame(t),
        plain_model(model),
        wordless(start),
        plain_node(node),
        wordless(key),
        policy == MultiplePolicy::Join ==> node.join_with is Some,
        tame(pad),
        plain_target(target),
    ensures
        tame(many_code(t, model, start, node, key, policy, pad, target, take)),
{
    lemma_rules();
    literals_of_readers();
    all_diag_code();
    all_lists();
    all_normalized();
}

proof fn all_many_code()
    requires
        plain_quotes(),
    ensures
        forall|
            t: Text,
            model: ModelV,
            start: Text,
            node: NodeV,
            key: Text,
            policy: MultiplePolicy,
            pad: Text,
            target: TargetV,
            take: bool,
        |
            tame(t)
                && plain_model(model)
                && wordless(start)
                && plain_node(node)
                && wordless(key)
                && (policy == MultiplePolicy::Join ==> node.join_with is Some)
                && tame(pad)
                && plain_target(target)
                ==> tame(#[trigger] many_code(t, model, start, node, key, policy, pad, target, take)),
{
    assert forall|
        t: Text,
        model: ModelV,
        start: Text,
        node: NodeV,
        key: Text,
        policy: MultiplePolicy,
        pad: Text,
        target: TargetV,
        take: bool,
    |
        tame(t)
            && plain_model(model)
            && wordless(start)
            && plain_node(node)
            && wordless(key)
            && (policy == MultiplePolicy::Join ==> node.join_with is Some)
            && tame(pad)
            && plain_target(target)
        implies tame(#[trigger] many_code(t, model, start, node, key, policy, pad, target, take)) by {
        tame_many_code(t, model, start, node, key, policy, pad, target, take);
    }
}

proof fn tame_fallback_code(
    t: Text,
    model: ModelV,
    start: Text,
    node: NodeV,
    key: Text,
    fb_id: Text,
    fb: NodeV,
    chain: Text,
    pad: Text,
    target: TargetV,
    take: bool,
)
    requires
        plain_quotes(),
        tame(t),
        plain_model(model),
        wordless(start),
        plain_node(node),
        wordless(key),
        wordless(fb_id),
        plain_node(fb),
        wordless(chain),
        tame(pad),
        plain_target(target),
    ensures
        tame(fallback_code(t, model, start, node, key, fb_id, fb, chain, pad, target, take)),
{
    lemma_rules();
    literals_of_readers();
    all_diag_code();
    all_values();
}

proof fn all_fallback_code()
    requires
        plain_quotes(),
    ensures
        forall|
            t: Text,
            model: ModelV,
            start: Text,
            node: NodeV,
            key: Text,
            fb_id: Text,
            fb: NodeV,
            chain: Text,
            pad: Text,
            target: TargetV,
            take: bool,
        |
            tame(t)
                && plain_model(model)
                && wordless(start)
                && plain_node(node)
                && wordless(key)
                && wordless(fb_id)
                && plain_node(fb)
                && wordless(chain)
                && tame(pad)
                && plain_target(target)
                ==> tame(#[trigger] fallback_code(t, model, start, node, key, fb_id, fb, chain, pad, target, take)),
{
    assert forall|
        t: Text,
        model: ModelV,
        start: Text,
        node: NodeV,
        key: Text,
        fb_id: Text,
        fb: NodeV,
        chain: Text,
        pad: Text,
        target: TargetV,
        take: bool,
    |
        tame(t)
            && plain_model(model)
            && wordless(start)
            && plain_node(node)
            && wordless(key)
            && wordless(fb_id)
            && plain_node(fb)
            && wordless(chain)
            && tame(pad)
            && plain_target(target)
        implies tame(#[trigger] fallback_code(t, model, start, node, key, fb_id, fb, chain, pad, target, take)) by {
        tame_fallback_code(t, model, start, node, key, fb_id, fb, chain, pad, target, take);
    }
}

proof fn tame_fallbacks_code(
    t: Text,
    nodes: IrNodesV,
    model: ModelV,
    start: Text,
    node: NodeV,
    key: Text,
    chain: Text,
    pad: Text,
    target: TargetV,
    shared: Seq<Text>,
    n: int,
)
    requires
        plain_quotes(),
        tame(t),
        plain_nodes(nodes),
        plain_model(model),
        wordless(start),
        plain_node(node),
        wordless(key),
        wordless(chain),
        tame(pad),
        plain_target(target),
        n <= node.fallbacks.len(),
    ensures
        tame(fallbacks_code(t, nodes, model, start, node, key, chain, pad, target, shared, n)),
    decreases n,
{
    lemma_rules();
    literals_of_readers();
    all_fallback_code();
    lemma_lookups(nodes);
    if n > 0 {
        tame_fallbacks_code(
            t,
            nodes,
            model,
            start,
            node,
            key,
            chain,
            pad,
            target,
            shared,
            n - 1,
        );
    }
}

proof fn all_fallbacks_code()
    requires
        plain_quotes(),
    ensures
        forall|
            t: Text,
            nodes: IrNodesV,
            model: ModelV,
            start: Text,
            node: NodeV,
            key: Text,
            chain: Text,
            pad: Text,
            target: TargetV,
            shared: Seq<Text>,
            n: int,
        |
            tame(t)
                && plain_nodes(nodes)
                && plain_model(model)
                && wordless(start)
                && plain_node(node)
                && wordless(key)
                && wordless(chain)
                && tame(pad)
                && plain_target(target)
                && n <= node.fallbacks.len()
                ==> tame(#[trigger] fallbacks_code(t, nodes, model, start, node, key, chain, pad, target, shared, n)),
{
    assert forall|
        t: Text,
        nodes: IrNodesV,
        model: ModelV,
        start: Text,
        node: NodeV,
        key: Text,
        chain: Text,
        pad: Text,
        target: TargetV,
        shared: Seq<Text>,
        n: int,
    |
        tame(t)
            && plain_nodes(nodes)
            && plain_model(model)
            && wordless(start)
            && plain_node(node)
            && wordless(key)
            && wordless(chain)
            && tame(pad)
            && plain_target(target)
            && n <= node.fallbacks.len()
        implies tame(#[trigger] fallbacks_code(t, nodes, model, start, node, key, chain, pad, target, shared, n)) by {
        tame_fallbacks_code(t, nodes, model, start, node, key, chain, pad, target, shared, n);
    }
}

proof fn tame_scalar_code(
    t: Text,
    nodes: IrNodesV,
    model: ModelV,
    node: NodeV,
    start: Text,
    pad: Text,
    target: TargetV,
    shared: Seq<Text>,
)
    requires
        plain_quotes(),
        tame(t),
        plain_nodes(nodes),
        plain_model(model),
        plain_node(node),
        plays(node, Role::Scalar),
        joins(node),
        wordless(start),
        tame(pad),
        plain_target(target),
    ensures
        tame(scalar_code(t, nodes, model, node, start, pad, target, shared)),
{
    lemma_rules();
    literals_of_readers();
    all_many_code();
    all_fallbacks_code();
    all_assign_code();
    all_diag_code();
    all_values();
    all_chains();
}

proof fn all_scalar_code()
    requires
        plain_quotes(),
    ensures
        forall|
            t: Text,
            nodes: IrNodesV,
            model: ModelV,
            node: NodeV,
            start: Text,
            pad: Text,
            target: TargetV,
            shared: Seq<Text>,
        |
            tame(t)
                && plain_nodes(nodes)
                && plain_model(model)
                && plain_node(node)
                && plays(node, Role::Scalar)
                && joins(node)
                && wordless(start)
                && tame(pad)
                && plain_target(target)
                ==> tame(#[trigger] scalar_code(t, nodes, model, node, start, pad, target, shared)),
{
    assert forall|
        t: Text,
        nodes: IrNodesV,
        model: ModelV,
        node: NodeV,
        start: Text,
        pad: Text,
        target: TargetV,
        shared: Seq<Text>,
    |
        tame(t)
            && plain_nodes(nodes)
            && plain_model(model)
            && plain_node(node)
            && plays(node, Role::Scalar)
            && joins(node)
            && wordless(start)
            && tame(pad)
            && plain_target(target)
        implies tame(#[trigger] scalar_code(t, nodes, model, node, start, pad, target, shared)) by {
        tame_scalar_code(t, nodes, model, node, start, pad, target, shared);
    }
}

proof fn tame_clone_code(
    t: Text,
    model: ModelV,
    node: NodeV,
    start: Text,
    pad: Text,
    target: TargetV,
    shared: Seq<Text>,
)
    requires
        plain_quotes(),
        tame(t),
        plain_model(model),
        plain_node(node),
        plays(node, Role::Clone),
        wordless(start),
        tame(pad),
        plain_target(target),
    ensures
        tame(clone_code(t, model, node, start, pad, target, shared)),
{
    lemma_rules();
    literals_of_readers();
    all_decode_code();
    all_diag_code();
    all_values();
}

proof fn all_clone_code()
    requires
        plain_quotes(),
    ensures
        forall|
            t: Text,
            model: ModelV,
            node: NodeV,
            start: Text,
            pad: Text,
            target: TargetV,
            shared: Seq<Text>,
        |
            tame(t)
                && plain_model(model)
                && plain_node(node)
                && plays(node, Role::Clone)
                && wordless(start)
                && tame(pad)
                && plain_target(target)
                ==> tame(#[trigger] clone_code(t, model, node, start, pad, target, shared)),
{
    assert forall|
        t: Text,
        model: ModelV,
        node: NodeV,
        start: Text,
        pad: Text,
        target: TargetV,
        shared: Seq<Text>,
    |
        tame(t)
            && plain_model(model)
            && plain_node(node)
            && plays(node, Role::Clone)
            && wordless(start)
            && tame(pad)
            && plain_target(target)
        implies tame(#[trigger] clone_code(t, model, node, start, pad, target, shared)) by {
        tame_clone_code(t, model, node, start, pad, target, shared);
    }
}

proof fn tame_scalars_code(
    t: Text,
    nodes: IrNodesV,
    model: ModelV,
    start: Text,
    pad: Text,
    target: TargetV,
    shared: Seq<Text>,
    list: Seq<NodeV>,
    n: int,
)
    requires
        plain_quotes(),
        tame(t),
        plain_nodes(nodes),
        plain_model(model),
        wordless(start),
        tame(pad),
        plain_target(target),
        plain_list(list, Role::Scalar),
        n <= list.len(),
    ensures
        tame(scalars_code(t, nodes, model, start, pad, target, shared, list, n)),
    decreases n,
{
    lemma_rules();
    literals_of_readers();
    all_scalar_code();
    if n > 0 {
        tame_scalars_code(t, nodes, model, start, pad, target, shared, list, n - 1);
    }
}

proof fn all_scalars_code()
    requires
        plain_quotes(),
    ensures
        forall|
            t: Text,
            nodes: IrNodesV,
            model: ModelV,
            start: Text,
            pad: Text,
            target: TargetV,
            shared: Seq<Text>,
            list: Seq<NodeV>,
            n: int,
        |
            tame(t)
                && plain_nodes(nodes)
                && plain_model(model)
                && wordless(start)
                && tame(pad)
                && plain_target(target)
                && plain_list(list, Role::Scalar)
                && n <= list.len()
                ==> tame(#[trigger] scalars_code(t, nodes, model, start, pad, target, shared, list, n)),
{
    assert forall|
        t: Text,
        nodes: IrNodesV,
        model: ModelV,
        start: Text,
        pad: Text,
        target: TargetV,
        shared: Seq<Text>,
        list: Seq<NodeV>,
        n: int,
    |
        tame(t)
            && plain_nodes(nodes)
            && plain_model(model)
            && wordless(start)
            && tame(pad)
            && plain_target(target)
            && plain_list(list, Role::Scalar)
            && n <= list.len()
        implies tame(#[trigger] scalars_code(t, nodes, model, start, pad, target, shared, list, n)) by {
        tame_scalars_code(t, nodes, model, start, pad, target, shared, list, n);
    }
}

proof fn tame_clones_code(
    t: Text,
    model: ModelV,
    start: Text,
    pad: Text,
    target: TargetV,
    shared: Seq<Text>,
    list: Seq<NodeV>,
    n: int,
)
    requires
        plain_quotes(),
        tame(t),
        plain_model(model),
        wordless(start),
        tame(pad),
        plain_target(target),
        plain_list(list, Role::Clone),
        n <= list.len(),
    ensures
        tame(clones_code(t, model, start, pad, target, shared, list, n)),
    decreases n,
{
    lemma_rules();
    literals_of_readers();
    all_clone_code();
    if n > 0 {
        tame_clones_code(t, model, start, pad, target, shared, list, n - 1);
    }
}

proof fn all_clones_code()
    requires
        plain_quotes(),
    ensures
        forall|
            t: Text,
            model: ModelV,
            start: Text,
            pad: Text,
            target: TargetV,
            shared: Seq<Text>,
            list: Seq<NodeV>,
            n: int,
        |
            tame(t)
                && plain_model(model)
                && wordless(start)
                && tame(pad)
                && plain_target(target)
                && plain_list(list, Role::Clone)
                && n <= list.len()
                ==> tame(#[trigger] clones_code(t, model, start, pad, target, shared, list, n)),
{
    assert forall|
        t: Text,
        model: ModelV,
        start: Text,
        pad: Text,
        target: TargetV,
        shared: Seq<Text>,
        list: Seq<NodeV>,
        n: int,
    |
        tame(t)
            && plain_model(model)
            && wordless(start)
            && tame(pad)
            && plain_target(target)
            && plain_list(list, Role::Clone)
            && n <= list.len()
        implies tame(#[trigger] clones_code(t, model, start, pad, target, shared, list, n)) by {
        tame_clones_code(t, model, start, pad, target, shared, list, n);
    }
}

proof fn tame_opening_code(t: Text, model: ModelV, coll: NodeV, f: FrameV, owned: bool)
    requires
        plain_quotes(),
        tame(t),
        plain_model(model),
        plain_node(coll),
        plays(coll, Role::Collection),
        plain_frame(f),
    ensures
        tame(opening_code(t, model, coll, f, owned)),
{
    lemma_rules();
    literals_of_readers();
    all_lists();
    lemma_decimals();
    literals_of_paths();
}

proof fn all_opening_code()
    requires
        plain_quotes(),
    ensures
        forall|t: Text, model: ModelV, coll: NodeV, f: FrameV, owned: bool|
            tame(t)
                && plain_model(model)
                && plain_node(coll)
                && plays(coll, Role::Collection)
                && plain_frame(f)
                ==> tame(#[trigger] opening_code(t, model, coll, f, owned)),
{
    assert forall|t: Text, model: ModelV, coll: NodeV, f: FrameV, owned: bool|
        tame(t)
            && plain_model(model)
            && plain_node(coll)
            && plays(coll, Role::Collection)
            && plain_frame(f)
        implies tame(#[trigger] opening_code(t, model, coll, f, owned)) by {
        tame_opening_code(t, model, coll, f, owned);
    }
}

proof fn tame_closing_code(t: Text, coll: NodeV, f: FrameV)
    requires
        plain_quotes(),
        tame(t),
        plain_node(coll),
        plays(coll, Role::Collection),
        plain_frame(f),
    ensures
        tame(closing_code(t, coll, f)),
{
    lemma_rules();
    literals_of_readers();
    all_diag_code();
    lemma_decimals();
}

proof fn all_closing_code()
    requires
        plain_quotes(),
    ensures
        forall|t: Text, coll: NodeV, f: FrameV|
            tame(t)
                && plain_node(coll)
                && plays(coll, Role::Collection)
                && plain_frame(f)
                ==> tame(#[trigger] closing_code(t, coll, f)),
{
    assert forall|t: Text, coll: NodeV, f: FrameV|
        tame(t)
            && plain_node(coll)
            && plays(coll, Role::Collection)
            && plain_frame(f)
        implies tame(#[trigger] closing_code(t, coll, f)) by {
        tame_closing_code(t, coll, f);
    }
}

#[verifier::rlimit(60)]
proof fn tame_collection_code(
    t: Text,
    nodes: IrNodesV,
    model: ModelV,
    coll: NodeV,
    f: FrameV,
    shared: Seq<Text>,
)
    requires
        plain_quotes(),
        tame(t),
        generable(nodes),
        plain_nodes(nodes),
        plain_model(model),
        plain_node(coll),
        plays(coll, Role::Collection),
        plain_frame(f),
    ensures
        tame(collection_code(t, nodes, model, coll, f, shared)),
    decreases room(nodes, coll.id), 1int, 0int,
{
    lemma_rules();
    literals_of_readers();
    lemma_decimals();
    all_opening_code();
    all_scalars_code();
    all_clones_code();
    all_closing_code();
    let owned = f.owned && !repeats(shared, coll.source_path);
    let item_struct = item_struct_at(model, f.parent_struct, coll.source_path);
    let inside = Some(coll.id);
    let inner_shared = read_paths(nodes, inside);
    let target = inner_target(f, owned);
    let pad = f.pad + "    "@;
    let scalars = picked(nodes, Role::Scalar, inside);
    let copies = picked(nodes, Role::Clone, inside);
    lemma_picked_plain(nodes, Role::Scalar, inside);
    lemma_picked_plain(nodes, Role::Clone, inside);
    lemma_item_struct(model, f.parent_struct, coll.source_path);
    let t1 = opening_code(t, model, coll, f, owned);
    let t2 = scalars_code(
        t1,
        nodes,
        model,
        item_struct,
        pad,
        target,
        inner_shared,
        scalars,
        scalars.len() as int,
    );
    let t3 = clones_code(
        t2,
        model,
        item_struct,
        pad,
        target,
        inner_shared,
        copies,
        copies.len() as int,
    );
    tame_nested_code(
        t3,
        nodes,
        model,
        coll.id,
        inner_frame(f, item_struct, owned),
        inner_shared,
        picked(nodes, Role::Collection, inside).len() as int,
    );
}

proof fn all_collection_code()
    requires
        plain_quotes(),
    ensures
        forall|t: Text, nodes: IrNodesV, model: ModelV, coll: NodeV, f: FrameV, shared: Seq<Text>|
            tame(t)
                && generable(nodes)
                && plain_nodes(nodes)
                && plain_model(model)
                && plain_node(coll)
                && plays(coll, Role::Collection)
                && plain_frame(f)
                ==> tame(#[trigger] collection_code(t, nodes, model, coll, f, shared)),
{
    assert forall|
        t: Text,
        nodes: IrNodesV,
        model: ModelV,
        coll: NodeV,
        f: FrameV,
        shared: Seq<Text>,
    |
        tame(t)
            && generable(nodes)
            && plain_nodes(nodes)
            && plain_model(model)
            && plain_node(coll)
            && plays(coll, Role::Collection)
            && plain_frame(f)
        implies tame(#[trigger] collection_code(t, nodes, model, coll, f, shared)) by {
        tame_collection_code(t, nodes, model, coll, f, shared);
    }
}

proof fn tame_nested_code(
    t: Text,
    nodes: IrNodesV,
    model: ModelV,
    outer: Text,
    f: FrameV,
    shared: Seq<Text>,
    n: int,
)
    requires
        plain_quotes(),
        tame(t),
        generable(nodes),
        plain_nodes(nodes),
        plain_model(model),
        plain_frame(f),
        n <= picked(nodes, Role::Collection, Some(outer)).len(),
    ensures
        tame(nested_code(t, nodes, model, outer, f, shared, n)),
    decreases room(nodes, outer), 0int, n,
{
    lemma_rules();
    literals_of_readers();
    if n > 0 {
        lemma_room(nodes, outer);
        lemma_picked_plain(nodes, Role::Collection, Some(outer));
        tame_nested_code(t, nodes, model, outer, f, shared, n - 1);
        tame_collection_code(
            nested_code(t, nodes, model, outer, f, shared, n - 1) + "\n"@,
            nodes,
            model,
            picked(nodes, Role::Collection, Some(outer))[n - 1],
            f,
            shared,
        );
    }
}

proof fn tame_root_collections_code(
    t: Text,
    nodes: IrNodesV,
    model: ModelV,
    shared: Seq<Text>,
    n: int,
)
    requires
        plain_quotes(),
        tame(t),
        generable(nodes),
        plain_nodes(nodes),
        plain_model(model),
        n <= picked(nodes, Role::Collection, None).len(),
    ensures
        tame(root_collections_code(t, nodes, model, shared, n)),
    decreases n,
{
    lemma_rules();
    literals_of_readers();
    all_collection_code();
    lemma_picked_plain(nodes, Role::Collection, None);
    if n > 0 {
        tame_root_collections_code(t, nodes, model, shared, n - 1);
    }
}

proof fn all_root_collections_code()
    requires
        plain_quotes(),
    ensures
        forall|t: Text, nodes: IrNodesV, model: ModelV, shared: Seq<Text>, n: int|
            tame(t)
                && generable(nodes)
                && plain_nodes(nodes)
                && plain_model(model)
                && n <= picked(nodes, Role::Collection, None).len()
                ==> tame(#[trigger] root_collections_code(t, nodes, model, shared, n)),
{
    assert forall|t: Text, nodes: IrNodesV, model: ModelV, shared: Seq<Text>, n: int|
        tame(t)
            && generable(nodes)
            && plain_nodes(nodes)
            && plain_model(model)
            && n <= picked(nodes, Role::Collection, None).len()
        implies tame(#[trigger] root_collections_code(t, nodes, model, shared, n)) by {
        tame_root_collections_code(t, nodes, model, shared, n);
    }
}

proof fn tame_reader_head(t: Text, root: Text)
    requires
        plain_quotes(),
        tame(t),
        wordless(root),
    ensures
        tame(reader_head(t, root)),
{
    lemma_rules();
    literals_of_readers();
}

proof fn all_reader_head()
    requires
        plain_quotes(),
    ensures
        forall|t: Text, root: Text|
            tame(t)
                && wordless(root)
                ==> tame(#[trigger] reader_head(t, root)),
{
    assert forall|t: Text, root: Text|
        tame(t)
            && wordless(root)
        implies tame(#[trigger] reader_head(t, root)) by {
        tame_reader_head(t, root);
    }
}

proof fn tame_reader_code(t: Text, nodes: IrNodesV, model: ModelV, root: Text)
    requires
        plain_quotes(),
        tame(t),
        generable(nodes),
        plain_nodes(nodes),
        plain_model(model),
        wordless(root),
    ensures
        tame(reader_code(t, nodes, model, root)),
{
    lemma_rules();
    literals_of_readers();
    all_reader_head();
    all_scalars_code();
    all_clones_code();
    all_root_collections_code();
    lemma_picked_plain(nodes, Role::Scalar, None);
    lemma_picked_plain(nodes, Role::Clone, None);
    lemma_picked_plain(nodes, Role::Collection, None);
    lemma_picked_plain(nodes, Role::Constant, None);
}

proof fn tame_constant_code(
    t: Text,
    model: ModelV,
    node: NodeV,
    start: Text,
    src_var: Text,
    pad: Text,
)
    requires
        plain_quotes(),
        tame(t),
        plain_model(model),
        plain_node(node),
        plays(node, Role::Constant),
        wordless(start),
        wordless(src_var),
        tame(pad),
    ensures
        tame(constant_code(t, model, node, start, src_var, pad)),
{
    lemma_rules();
    literals_of_readers();
    literals_of_writers();
    all_targets();
}

proof fn all_constant_code()
    requires
        plain_quotes(),
    ensures
        forall|t: Text, model: ModelV, node: NodeV, start: Text, src_var: Text, pad: Text|
            tame(t)
                && plain_model(model)
                && plain_node(node)
                && plays(node, Role::Constant)
                && wordless(start)
                && wordless(src_var)
                && tame(pad)
                ==> tame(#[trigger] constant_code(t, model, node, start, src_var, pad)),
{
    assert forall|t: Text, model: ModelV, node: NodeV, start: Text, src_var: Text, pad: Text|
        tame(t)
            && plain_model(model)
            && plain_node(node)
            && plays(node, Role::Constant)
            && wordless(start)
            && wordless(src_var)
            && tame(pad)
        implies tame(#[trigger] constant_code(t, model, node, start, src_var, pad)) by {
        tame_constant_code(t, model, node, start, src_var, pad);
    }
}

proof fn tame_missing_code(t: Text, node: NodeV, key: Text, index: Option<Text>, pad: Text)
    requires
        plain_quotes(),
        tame(t),
        plain_node(node),
        wordless(key),
        plain_index(index),
        tame(pad),
    ensures
        tame(missing_code(t, node, key, index, pad)),
{
    lemma_rules();
    literals_of_readers();
    literals_of_writers();
    all_diag_code();
}

proof fn all_missing_code()
    requires
        plain_quotes(),
    ensures
        forall|t: Text, node: NodeV, key: Text, index: Option<Text>, pad: Text|
            tame(t)
                && plain_node(node)
                && wordless(key)
                && plain_index(index)
                && tame(pad)
                ==> tame(#[trigger] missing_code(t, node, key, index, pad)),
{
    assert forall|t: Text, node: NodeV, key: Text, index: Option<Text>, pad: Text|
        tame(t)
            && plain_node(node)
            && wordless(key)
            && plain_index(index)
            && tame(pad)
        implies tame(#[trigger] missing_code(t, node, key, index, pad)) by {
        tame_missing_code(t, node, key, index, pad);
    }
}

proof fn tame_scalar_write_code(
    t: Text,
    model: ModelV,
    node: NodeV,
    start: Text,
    hub_var: Text,
    src_var: Text,
    index: Option<Text>,
    pad: Text,
    take: bool,
)
    requires
        plain_quotes(),
        tame(t),
        plain_model(model),
        plain_node(node),
        keyed(node),
        wordless(start),
        wordless(hub_var),
        wordless(src_var),
        plain_index(index),
        tame(pad),
    ensures
        tame(scalar_write_code(t, model, node, start, hub_var, src_var, index, pad, take)),
{
    lemma_rules();
    literals_of_readers();
    literals_of_writers();
    all_missing_code();
    all_targets();
}

proof fn all_scalar_write_code()
    requires
        plain_quotes(),
    ensures
        forall|
            t: Text,
            model: ModelV,
            node: NodeV,
            start: Text,
            hub_var: Text,
            src_var: Text,
            index: Option<Text>,
            pad: Text,
            take: bool,
        |
            tame(t)
                && plain_model(model)
                && plain_node(node)
                && keyed(node)
                && wordless(start)
                && wordless(hub_var)
                && wordless(src_var)
                && plain_index(index)
                && tame(pad)
                ==> tame(#[trigger] scalar_write_code(t, model, node, start, hub_var, src_var, index, pad, take)),
{
    assert forall|
        t: Text,
        model: ModelV,
        node: NodeV,
        start: Text,
        hub_var: Text,
        src_var: Text,
        index: Option<Text>,
        pad: Text,
        take: bool,
    |
        tame(t)
            && plain_model(model)
            && plain_node(node)
            && keyed(node)
            && wordless(start)
            && wordless(hub_var)
            && wordless(src_var)
            && plain_index(index)
            && tame(pad)
        implies tame(#[trigger] scalar_write_code(t, model, node, start, hub_var, src_var, index, pad, take)) by {
        tame_scalar_write_code(t, model, node, start, hub_var, src_var, index, pad, take);
    }
}

proof fn tame_scalars_write_code(
    t: Text,
    model: ModelV,
    p: PlaceV,
    shared: Seq<Text>,
    skip: bool,
    list: Seq<NodeV>,
    n: int,
)
    requires
        plain_quotes(),
        tame(t),
        plain_model(model),
        plain_place(p),
        plain_list(list, Role::Scalar) || plain_list(list, Role::Clone),
        n <= list.len(),
    ensures
        tame(scalars_write_code(t, model, p, shared, skip, list, n)),
    decreases n,
{
    lemma_rules();
    literals_of_readers();
    literals_of_writers();
    all_scalar_write_code();
    if n > 0 {
        tame_scalars_write_code(t, model, p, shared, skip, list, n - 1);
    }
}

proof fn all_scalars_write_code()
    requires
        plain_quotes(),
    ensures
        forall|
            t: Text,
            model: ModelV,
            p: PlaceV,
            shared: Seq<Text>,
            skip: bool,
            list: Seq<NodeV>,
            n: int,
        |
            tame(t)
                && plain_model(model)
                && plain_place(p)
                && (plain_list(list, Role::Scalar) || plain_list(list, Role::Clone))
                && n <= list.len()
                ==> tame(#[trigger] scalars_write_code(t, model, p, shared, skip, list, n)),
{
    assert forall|
        t: Text,
        model: ModelV,
        p: PlaceV,
        shared: Seq<Text>,
        skip: bool,
        list: Seq<NodeV>,
        n: int,
    |
        tame(t)
            && plain_model(model)
            && plain_place(p)
            && (plain_list(list, Role::Scalar) || plain_list(list, Role::Clone))
            && n <= list.len()
        implies tame(#[trigger] scalars_write_code(t, model, p, shared, skip, list, n)) by {
        tame_scalars_write_code(t, model, p, shared, skip, list, n);
    }
}

proof fn tame_constants_code(
    t: Text,
    model: ModelV,
    start: Text,
    src_var: Text,
    pad: Text,
    spaced: bool,
    list: Seq<NodeV>,
    n: int,
)
    requires
        plain_quotes(),
        tame(t),
        plain_model(model),
        wordless(start),
        wordless(src_var),
        tame(pad),
        plain_list(list, Role::Constant),
        n <= list.len(),
    ensures
        tame(constants_code(t, model, start, src_var, pad, spaced, list, n)),
    decreases n,
{
    lemma_rules();
    literals_of_readers();
    literals_of_writers();
    all_constant_code();
    if n > 0 {
        tame_constants_code(t, model, start, src_var, pad, spaced, list, n - 1);
    }
}

proof fn all_constants_code()
    requires
        plain_quotes(),
    ensures
        forall|
            t: Text,
            model: ModelV,
            start: Text,
            src_var: Text,
            pad: Text,
            spaced: bool,
            list: Seq<NodeV>,
            n: int,
        |
            tame(t)
                && plain_model(model)
                && wordless(start)
                && wordless(src_var)
                && tame(pad)
                && plain_list(list, Role::Constant)
                && n <= list.len()
                ==> tame(#[trigger] constants_code(t, model, start, src_var, pad, spaced, list, n)),
{
    assert forall|
        t: Text,
        model: ModelV,
        start: Text,
        src_var: Text,
        pad: Text,
        spaced: bool,
        list: Seq<NodeV>,
        n: int,
    |
        tame(t)
            && plain_model(model)
            && wordless(start)
            && wordless(src_var)
            && tame(pad)
            && plain_list(list, Role::Constant)
            && n <= list.len()
        implies tame(#[trigger] constants_code(t, model, start, src_var, pad, spaced, list, n)) by {
        tame_constants_code(t, model, start, src_var, pad, spaced, list, n);
    }
}

#[verifier::rlimit(60)]
proof fn tame_write_opening(
    t: Text,
    model: ModelV,
    coll: NodeV,
    f: FrameV,
    item_struct: Text,
    owned: bool,
)
    requires
        plain_quotes(),
        tame(t),
        plain_model(model),
        plain_node(coll),
        plays(coll, Role::Collection),
        plain_frame(f),
        wordless(item_struct),
    ensures
        tame(write_opening(t, model, coll, f, item_struct, owned)),
{
    lemma_rules();
    literals_of_readers();
    literals_of_writers();
    all_targets();
    lemma_decimals();
}

proof fn all_write_opening()
    requires
        plain_quotes(),
    ensures
        forall|t: Text, model: ModelV, coll: NodeV, f: FrameV, item_struct: Text, owned: bool|
            tame(t)
                && plain_model(model)
                && plain_node(coll)
                && plays(coll, Role::Collection)
                && plain_frame(f)
                && wordless(item_struct)
                ==> tame(#[trigger] write_opening(t, model, coll, f, item_struct, owned)),
{
    assert forall|t: Text, model: ModelV, coll: NodeV, f: FrameV, item_struct: Text, owned: bool|
        tame(t)
            && plain_model(model)
            && plain_node(coll)
            && plays(coll, Role::Collection)
            && plain_frame(f)
            && wordless(item_struct)
        implies tame(#[trigger] write_opening(t, model, coll, f, item_struct, owned)) by {
        tame_write_opening(t, model, coll, f, item_struct, owned);
    }
}

proof fn tame_write_test(t: Text, f: FrameV)
    requires
        plain_quotes(),
        tame(t),
        plain_frame(f),
    ensures
        tame(write_test(t, f)),
{
    lemma_rules();
    literals_of_readers();
    literals_of_writers();
    lemma_decimals();
}

proof fn all_write_test()
    requires
        plain_quotes(),
    ensures
        forall|t: Text, f: FrameV|
            tame(t)
                && plain_frame(f)
                ==> tame(#[trigger] write_test(t, f)),
{
    assert forall|t: Text, f: FrameV|
        tame(t)
            && plain_frame(f)
        implies tame(#[trigger] write_test(t, f)) by {
        tame_write_test(t, f);
    }
}

proof fn tame_write_closing(t: Text, model: ModelV, coll: NodeV, f: FrameV)
    requires
        plain_quotes(),
        tame(t),
        plain_model(model),
        plain_node(coll),
        plays(coll, Role::Collection),
        plain_frame(f),
    ensures
        tame(write_closing(t, model, coll, f)),
{
    lemma_rules();
    literals_of_readers();
    literals_of_writers();
    all_diag_code();
    all_targets();
    lemma_decimals();
}

proof fn all_write_closing()
    requires
        plain_quotes(),
    ensures
        forall|t: Text, model: ModelV, coll: NodeV, f: FrameV|
            tame(t)
                && plain_model(model)
                && plain_node(coll)
                && plays(coll, Role::Collection)
                && plain_frame(f)
                ==> tame(#[trigger] write_closing(t, model, coll, f)),
{
    assert forall|t: Text, model: ModelV, coll: NodeV, f: FrameV|
        tame(t)
            && plain_model(model)
            && plain_node(coll)
            && plays(coll, Role::Collection)
            && plain_frame(f)
        implies tame(#[trigger] write_closing(t, model, coll, f)) by {
        tame_write_closing(t, model, coll, f);
    }
}

#[verifier::rlimit(60)]
proof fn tame_collection_write_code(
    t: Text,
    nodes: IrNodesV,
    model: ModelV,
    coll: NodeV,
    f: FrameV,
    shared: Seq<Text>,
)
    requires
        plain_quotes(),
        tame(t),
        generable(nodes),
        plain_nodes(nodes),
        plain_model(model),
        plain_node(coll),
        plays(coll, Role::Collection),
        plain_frame(f),
    ensures
        tame(collection_write_code(t, nodes, model, coll, f, shared)),
    decreases room(nodes, coll.id), 1int, 0int,
{
    lemma_rules();
    literals_of_readers();
    literals_of_writers();
    lemma_decimals();
    all_write_opening();
    all_scalars_write_code();
    all_write_test();
    all_constants_code();
    all_write_closing();
    let owned = f.owned && !repeats(shared, coll.canonical_key->0);
    let item_struct = item_struct_at(model, f.parent_struct, coll.source_path);
    let inside = Some(coll.id);
    let inner_shared = write_keys(nodes, inside);
    let p = inner_place(f, item_struct, owned);
    let scalars = picked(nodes, Role::Scalar, inside);
    let copies = picked(nodes, Role::Clone, inside);
    lemma_picked_plain(nodes, Role::Scalar, inside);
    lemma_picked_plain(nodes, Role::Clone, inside);
    lemma_picked_plain(nodes, Role::Constant, inside);
    lemma_item_struct(model, f.parent_struct, coll.source_path);
    let t1 = write_opening(t, model, coll, f, item_struct, owned);
    let t2 = scalars_write_code(t1, model, p, inner_shared, true, scalars, scalars.len() as int);
    let t3 = scalars_write_code(t2, model, p, inner_shared, false, copies, copies.len() as int);
    tame_nested_write_code(
        t3,
        nodes,
        model,
        coll.id,
        inner_write_frame(f, item_struct, owned),
        inner_shared,
        picked(nodes, Role::Collection, inside).len() as int,
    );
}

proof fn all_collection_write_code()
    requires
        plain_quotes(),
    ensures
        forall|t: Text, nodes: IrNodesV, model: ModelV, coll: NodeV, f: FrameV, shared: Seq<Text>|
            tame(t)
                && generable(nodes)
                && plain_nodes(nodes)
                && plain_model(model)
                && plain_node(coll)
                && plays(coll, Role::Collection)
                && plain_frame(f)
                ==> tame(#[trigger] collection_write_code(t, nodes, model, coll, f, shared)),
{
    assert forall|
        t: Text,
        nodes: IrNodesV,
        model: ModelV,
        coll: NodeV,
        f: FrameV,
        shared: Seq<Text>,
    |
        tame(t)
            && generable(nodes)
            && plain_nodes(nodes)
            && plain_model(model)
            && plain_node(coll)
            && plays(coll, Role::Collection)
            && plain_frame(f)
        implies tame(#[trigger] collection_write_code(t, nodes, model, coll, f, shared)) by {
        tame_collection_write_code(t, nodes, model, coll, f, shared);
    }
}

proof fn tame_nested_write_code(
    t: Text,
    nodes: IrNodesV,
    model: ModelV,
    outer: Text,
    f: FrameV,
    shared: Seq<Text>,
    n: int,
)
    requires
        plain_quotes(),
        tame(t),
        generable(nodes),
        plain_nodes(nodes),
        plain_model(model),
        plain_frame(f),
        n <= picked(nodes, Role::Collection, Some(outer)).len(),
    ensures
        tame(nested_write_code(t, nodes, model, outer, f, shared, n)),
    decreases room(nodes, outer), 0int, n,
{
    lemma_rules();
    literals_of_readers();
    literals_of_writers();
    if n > 0 {
        lemma_room(nodes, outer);
        lemma_picked_plain(nodes, Role::Collection, Some(outer));
        tame_nested_write_code(t, nodes, model, outer, f, shared, n - 1);
        tame_collection_write_code(
            nested_write_code(t, nodes, model, outer, f, shared, n - 1),
            nodes,
            model,
            picked(nodes, Role::Collection, Some(outer))[n - 1],
            f,
            shared,
        );
    }
}

proof fn tame_root_collections_write_code(
    t: Text,
    nodes: IrNodesV,
    model: ModelV,
    shared: Seq<Text>,
    n: int,
)
    requires
        plain_quotes(),
        tame(t),
        generable(nodes),
        plain_nodes(nodes),
        plain_model(model),
        n <= picked(nodes, Role::Collection, None).len(),
    ensures
        tame(root_collections_write_code(t, nodes, model, shared, n)),
    decreases n,
{
    lemma_rules();
    literals_of_readers();
    literals_of_writers();
    all_collection_write_code();
    lemma_picked_plain(nodes, Role::Collection, None);
    if n > 0 {
        tame_root_collections_write_code(t, nodes, model, shared, n - 1);
    }
}

proof fn all_root_collections_write_code()
    requires
        plain_quotes(),
    ensures
        forall|t: Text, nodes: IrNodesV, model: ModelV, shared: Seq<Text>, n: int|
            tame(t)
                && generable(nodes)
                && plain_nodes(nodes)
                && plain_model(model)
                && n <= picked(nodes, Role::Collection, None).len()
                ==> tame(#[trigger] root_collections_write_code(t, nodes, model, shared, n)),
{
    assert forall|t: Text, nodes: IrNodesV, model: ModelV, shared: Seq<Text>, n: int|
        tame(t)
            && generable(nodes)
            && plain_nodes(nodes)
            && plain_model(model)
            && n <= picked(nodes, Role::Collection, None).len()
        implies tame(#[trigger] root_collections_write_code(t, nodes, model, shared, n)) by {
        tame_root_collections_write_code(t, nodes, model, shared, n);
    }
}

proof fn tame_writer_head(t: Text, root: Text)
    requires
        plain_quotes(),
        tame(t),
        wordless(root),
    ensures
        tame(writer_head(t, root)),
{
    lemma_rules();
    literals_of_readers();
    literals_of_writers();
}

proof fn all_writer_head()
    requires
        plain_quotes(),
    ensures
        forall|t: Text, root: Text|
            tame(t)
                && wordless(root)
                ==> tame(#[trigger] writer_head(t, root)),
{
    assert forall|t: Text, root: Text|
        tame(t)
            && wordless(root)
        implies tame(#[trigger] writer_head(t, root)) by {
        tame_writer_head(t, root);
    }
}

proof fn tame_writer_code(t: Text, nodes: IrNodesV, model: ModelV, root: Text)
    requires
        plain_quotes(),
        tame(t),
        generable(nodes),
        plain_nodes(nodes),
        plain_model(model),
        wordless(root),
    ensures
        tame(writer_code(t, nodes, model, root)),
{
    lemma_rules();
    literals_of_readers();
    literals_of_writers();
    all_writer_head();
    all_constants_code();
    all_scalars_write_code();
    all_root_collections_write_code();
    lemma_picked_plain(nodes, Role::Scalar, None);
    lemma_picked_plain(nodes, Role::Clone, None);
    lemma_picked_plain(nodes, Role::Collection, None);
    lemma_picked_plain(nodes, Role::Constant, None);
}

// ---------------------------------------------------------------------------
// The module
// ---------------------------------------------------------------------------

/// Whether the names and texts of a mapping and of its source model, and the paths of
/// the modules, hold none of the words.
pub open spec fn plain_mapping(
    ir: IrV,
    model: ModelV,
    hub_module: Text,
    structs_module: Text,
) -> bool {
    &&& plain_nodes(ir.nodes)
    &&& plain_model(model)
    &&& wordless(model.model_id)
    &&& wordless(ir.meta.doc_format)
    &&& wordless(ir.meta.mapping_version)
    &&& wordless(hub_module)
    &&& wordless(structs_module)
}

/// The line that takes the structs from another module.
pub open spec fn reexport(structs_module: Text) -> Text {
    "pub use "@ + structs_module + "::*;\n"@
}

/// The module of a spoke whose structs stand in another module takes them from there,
/// and declares no struct and no XML input or output of its own: `pub struct`,
/// `pub fn from_xml` and `pub fn to_xml` stand neither before nor in its mappers, as
/// long as no name or text of the mapping holds them and writing a text as a literal
/// adds none of them.
pub proof fn law_mapper_module_declares_no_struct(
    ir: IrV,
    model: ModelV,
    hub_module: Text,
    structs_module: Text,
)
    requires
        generable(ir.nodes),
        plain_mapping(ir, model, hub_module, structs_module),
    ensures
        has(
            mapper_module_text(ir, model, hub_module, structs_module),
            reexport(structs_module),
        ),
        wordless(mapper_module_head(ir, model, hub_module, structs_module)),
        plain_quotes() ==> wordless(mappers_text(Seq::empty(), ir, model)),
        plain_quotes() ==> wordless(
            mapper_module_text(ir, model, hub_module, structs_module),
        ),
{
    let head = mapper_module_head(ir, model, hub_module, structs_module);
    let none = Seq::<char>::empty();
    lemma_head(ir, model, hub_module, structs_module);
    law_two_modules_carry_the_spoke(ir, model, hub_module, structs_module);
    lemma_reexport(ir, model, hub_module, structs_module);
    if plain_quotes() {
        lemma_mappers(ir, model);
        lemma_rules();
    }
}

proof fn lemma_head(ir: IrV, model: ModelV, hub_module: Text, structs_module: Text)
    requires
        plain_mapping(ir, model, hub_module, structs_module),
    ensures
        tame(mapper_module_head(ir, model, hub_module, structs_module)),
        wordless(mapper_module_head(ir, model, hub_module, structs_module)),
{
    lemma_rules();
    literals_of_heads();
}

proof fn lemma_mappers(ir: IrV, model: ModelV)
    requires
        plain_quotes(),
        generable(ir.nodes),
        plain_nodes(ir.nodes),
        plain_model(model),
    ensures
        tame(mappers_text(Seq::empty(), ir, model)),
        wordless(mappers_text(Seq::empty(), ir, model)),
{
    lemma_rules();
    literals_of_heads();
    tame_reader_code(Seq::empty(), ir.nodes, model, model.root);
    tame_writer_code(
        reader_code(Seq::empty(), ir.nodes, model, model.root) + "\n"@,
        ir.nodes,
        model,
        model.root,
    );
}

proof fn lemma_reexport(ir: IrV, model: ModelV, hub_module: Text, structs_module: Text)
    requires
        generable(ir.nodes),
    ensures
        has(
            mapper_module_text(ir, model, hub_module, structs_module),
            reexport(structs_module),
        ),
{
    law_two_modules_carry_the_spoke(ir, model, hub_module, structs_module);
    let whole = mapper_module_text(ir, model, hub_module, structs_module);
    let t = "// Generated spoke mapper. Do not edit by hand.\n"@;
    let t = t + "// Source model: "@ + model.model_id + " (structs shared)\n"@;
    let t = mapping_line(t, ir);
    let before = t + "\n"@;
    let line = reexport(structs_module);
    let with = before + "pub use "@ + structs_module + "::*;\n"@;
    lemma_stands(before, "pub use "@, structs_module, "::*;\n"@);
    let imports = imports_text(with + "\n"@, hub_module) + "\n"@;
    lemma_imports(with, hub_module);
    let mappers = mappers_text(Seq::empty(), ir, model);
    assert(whole == imports + mappers);
    assert(with.is_prefix_of(imports));
    lemma_prefix_stands(with, imports, mappers, before.len() as int, line);
}

proof fn lemma_stands(before: Text, a: Text, b: Text, c: Text)
    ensures
        (before + a + b + c).subrange(
            before.len() as int,
            (before.len() + (a + b + c).len()) as int,
        ) == a + b + c,
{
    let n = before.len() as int;
    assert((before + a + b + c).subrange(n, n + (a + b + c).len()) =~= a + b + c);
}

proof fn lemma_imports(with: Text, hub_module: Text)
    ensures
        with.is_prefix_of(imports_text(with + "\n"@, hub_module) + "\n"@),
{
    let all = imports_text(with + "\n"@, hub_module) + "\n"@;
    assert(all.subrange(0, with.len() as int) =~= with);
}

proof fn lemma_prefix_stands(p: Text, q: Text, rest: Text, at: int, line: Text)
    requires
        p.is_prefix_of(q),
        0 <= at,
        at + line.len() <= p.len(),
        p.subrange(at, at + line.len()) == line,
    ensures
        has(q + rest, line),
{
    let t = q + rest;
    let n = at + line.len();
    assert forall|i: int| 0 <= i < line.len() implies t.subrange(at, n)[i] == line[i] by {
        assert(q.subrange(0, p.len() as int)[at + i] == p[at + i]);
        assert(p.subrange(at, n)[i] == p[at + i]);
    }
    assert(t.subrange(at, n) =~= line);
}

} // verus!
