//! What mappers read from and write to.
use vstd::prelude::*;

use crate::dsl::codegen::access::{access_of, item_struct_at, path_segs, step_call, take_of};
use crate::dsl::codegen::access_laws::{law_paths_are_followed, leads};
use crate::dsl::codegen::decl_laws::law_steps_are_called_in_order;
use crate::dsl::codegen::plan::FrameV;
use crate::dsl::codegen::read::{
    chain_items, inner_frame, inner_target, root_frame, root_target, value_expr, TargetV,
};
use crate::dsl::codegen::whole_laws::cat;
use crate::dsl::codegen::write::{
    crosses_optional, hub_key_of, inner_place, inner_write_frame, leaf_optional, leaf_repeated,
    root_place,
};
use crate::dsl::node::NodeV;
use crate::dsl::normalize::NormalizeOp;
use crate::dsl::source_model::meta::ModelV;
use crate::text::{decimal, join, quoted, Text};
use crate::text_laws::law_decimal_is_the_number;

verus! {

/// The expression that reads a value gives what its path leads to, moved, or borrowed and
/// copied, and applies the normalization steps to it, each once and in their order.
pub proof fn law_values_are_read_and_normalized(
    model: ModelV,
    start: Text,
    path: Text,
    ops: Seq<NormalizeOp>,
    target: TargetV,
    take: bool,
)
    requires
        path_segs(model, start, path) is Some,
    ensures
        exists|access: Text|
            #[trigger] leads(access, target.base, path_segs(model, start, path)->0) && value_expr(
                model,
                start,
                path,
                ops,
                target,
                take,
            ) == (if take {
                access
            } else {
                access + ".map(CompactString::from)"@
            }) + cat(ops.map_values(|op: NormalizeOp| step_call(op))),
{
    law_paths_are_followed(model, start, path, target.base);
    let access = if take {
        take_of(model, start, path, target.base)
    } else {
        access_of(model, start, path, target.base)
    };
    law_steps_are_called_in_order(access, ops, take);
    assert(leads(access, target.base, path_segs(model, start, path)->0));
}

/// What is assigned at the end of a path depends on its last field alone: whether that is
/// optional, or a list of texts; room is made carefully where any field on the way is
/// optional; and the items of a list are of the struct that the list names.
pub proof fn law_last_field_decides(model: ModelV, start: Text, path: Text)
    ensures
        path_segs(model, start, path) matches Some(segs) ==> {
            let last = segs[segs.len() - 1];
            &&& leaf_optional(model, start, path) <==> last.optional
            &&& leaf_repeated(model, start, path) <==> last.repeated && last.struct_name is None
            &&& crosses_optional(model, start, path) <==> exists|i: int|
                0 <= i < segs.len() && (#[trigger] segs[i]).optional
            &&& last.struct_name is Some ==> Some(item_struct_at(model, start, path))
                == last.struct_name
            &&& last.struct_name is None ==> item_struct_at(model, start, path) == model.root
        },
        path_segs(model, start, path) is None ==> !leaf_optional(model, start, path)
            && !leaf_repeated(model, start, path) && !crosses_optional(model, start, path)
            && item_struct_at(model, start, path) == model.root,
{
}

/// A node is written from its own key, and a copy from the key that it copies.
pub proof fn law_copies_are_written_from_what_they_copy(n: NodeV)
    ensures
        n.canonical_key matches Some(key) ==> hub_key_of(n) == key,
        n.canonical_key is None ==> (n.clone_of matches Some(key) ==> hub_key_of(n) == key),
{
}

proof fn lemma_chain(node: NodeV, n: int)
    requires
        0 <= n <= node.fallbacks.len(),
    ensures
        chain_items(node, n) == join(
            (seq![node.id] + node.fallbacks.take(n)).map_values(
                |id: Text| quoted(id) + ".to_string()"@,
            ),
            ", "@,
        ),
    decreases n,
{
    let f = |id: Text| quoted(id) + ".to_string()"@;
    let parts = (seq![node.id] + node.fallbacks.take(n)).map_values(f);
    if n == 0 {
        assert(parts =~= seq![quoted(node.id) + ".to_string()"@]);
    } else {
        lemma_chain(node, n - 1);
        let before = (seq![node.id] + node.fallbacks.take(n - 1)).map_values(f);
        let x = quoted(node.fallbacks[n - 1]) + ".to_string()"@;
        assert(parts.drop_last() =~= before);
        assert(parts.last() == x);
        let j = join(before, ", "@);
        assert(j + ", "@ + quoted(node.fallbacks[n - 1]) + ".to_string()"@ =~= j + ", "@ + x);
    }
}

/// The chain of a fallback names the node and then every one of its fallbacks, in order.
pub proof fn law_chains_name_the_node_and_its_fallbacks(node: NodeV)
    ensures
        chain_items(node, node.fallbacks.len() as int) == join(
            (seq![node.id] + node.fallbacks).map_values(
                |id: Text| quoted(id) + ".to_string()"@,
            ),
            ", "@,
        ),
{
    lemma_chain(node, node.fallbacks.len() as int);
    assert(node.fallbacks.take(node.fallbacks.len() as int) =~= node.fallbacks);
}

proof fn lemma_numbered(word: Text, a: nat, b: nat)
    requires
        a != b,
    ensures
        word + decimal(a) != word + decimal(b),
{
    law_decimal_is_the_number(a);
    law_decimal_is_the_number(b);
    if word + decimal(a) == word + decimal(b) {
        let k = word.len() as int;
        assert((word + decimal(a)).skip(k) =~= decimal(a));
        assert((word + decimal(b)).skip(k) =~= decimal(b));
    }
}

/// A collection inside another is read into the item of the outer one, from its element,
/// one level deeper and further indented; its own variables have other names.
pub proof fn law_nested_readers_start_from_the_outer_item(
    f: FrameV,
    item_struct: Text,
    owned: bool,
    model: ModelV,
)
    ensures
        ({
            let g = inner_frame(f, item_struct, owned);
            let outer = inner_target(f, owned);
            let inner = inner_target(g, owned);
            &&& g.parent_hub == outer.struct_var && g.parent_src == outer.base
            &&& g.parent_struct == item_struct && g.owned == owned
            &&& g.depth == f.depth + 1
            &&& g.pad == f.pad + "    "@
            &&& outer.owned == owned
            &&& inner.struct_var != outer.struct_var && inner.base != outer.base
            &&& inner.index is Some && outer.index is Some && inner.index->0 != outer.index->0
            &&& root_frame(model).parent_hub == root_target().struct_var
            &&& root_frame(model).parent_src == root_target().base
            &&& root_target().index is None
            &&& root_frame(model).parent_struct == model.root
        }),
{
    lemma_numbered("item"@, f.depth, f.depth + 1);
    lemma_numbered("element"@, f.depth, f.depth + 1);
    lemma_numbered("idx"@, f.depth, f.depth + 1);
}

/// A collection inside another is written from the item of the outer one into its element,
/// one level deeper and further indented; its own variables have other names.
pub proof fn law_nested_writers_start_from_the_outer_item(
    f: FrameV,
    item_struct: Text,
    owned: bool,
    model: ModelV,
)
    ensures
        ({
            let g = inner_write_frame(f, item_struct, owned);
            let outer = inner_place(f, item_struct, owned);
            let inner = inner_place(g, item_struct, owned);
            &&& g.parent_hub == outer.hub_var && g.parent_src == outer.src_var
            &&& g.parent_struct == outer.start && outer.start == item_struct
            &&& g.owned == owned && outer.owned == owned
            &&& g.depth == f.depth + 1
            &&& g.pad == f.pad + "    "@ && outer.pad == g.pad
            &&& inner.hub_var != outer.hub_var && inner.src_var != outer.src_var
            &&& inner.index is Some && outer.index is Some && inner.index->0 != outer.index->0
            &&& root_place(model).hub_var == root_frame(model).parent_hub
            &&& root_place(model).src_var == root_frame(model).parent_src
            &&& root_place(model).index is None
            &&& root_place(model).start == model.root
        }),
{
    lemma_numbered("hub_item"@, f.depth, f.depth + 1);
    lemma_numbered("element"@, f.depth, f.depth + 1);
    lemma_numbered("idx"@, f.depth, f.depth + 1);
}

} // verus!
