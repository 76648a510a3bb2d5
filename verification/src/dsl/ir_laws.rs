//! Which nodes of a mapping are compiled, and with what.
use vstd::prelude::*;

use crate::dsl::error::DiagnosticV;
use crate::dsl::ir::{active_nodes, ir_of, model_of, root_of};
use crate::dsl::meta::meta_id;
use crate::dsl::node::{descends_from, min_items_of, nearest, parent_of, NodeId, NodeV, RawV};
use crate::dsl::parse::{NodesV, ParsedV};
use crate::dsl::resolve::{
    defaulted, is_off, kept, kept_upto, law_kept, lemma_kept_ascending, lemma_merged_ascending,
    lemma_typed_ascending, merged, missing_type, typed_upto, untyped_upto,
};
use crate::dsl::source_model::synth::{is_coll, synth};
use crate::ordmap::{ascending, lemma_lookup_at, lemma_lookup_none, lookup};
use crate::text::{lemma_rfind, rfind, Text};

verus! {

/// The id above a node is what stands before its last dot; a node without a dot has none.
pub proof fn law_parent_stands_before_the_last_dot(a: Text, b: Text)
    requires
        !b.contains('.'),
    ensures
        parent_of(a + "."@ + b) == Some(a),
        parent_of(b) is None,
        descends_from(a + "."@ + b, a),
{
    reveal_strlit(".");
    let all = a + "."@ + b;
    lemma_rfind(all, '.');
    let k = rfind(all, '.');
    assert(all[a.len() as int] == '.');
    if k > a.len() {
        assert(all[k] == b[k - a.len() - 1]);
        assert(b.contains(b[k - a.len() - 1]));
    }
    assert(all.take(k) =~= a);
    lemma_rfind(b, '.');
    let j = rfind(b, '.');
    if j >= 0 {
        assert(b.contains(b[j]));
    }
    assert(all.subrange(0, a.push('.').len() as int) =~= a.push('.'));
}

/// Whether a node is switched off: there is a node that is disabled, and it is the node
/// itself or stands above it.
pub open spec fn switched_off(nodes: NodesV, id: Text) -> bool {
    exists|a: Text|
        #![trigger lookup::<NodeId, RawV>(nodes, a)]
        (a == id || a.push('.').is_prefix_of(id)) && (lookup::<NodeId, RawV>(
            nodes,
            a,
        ) matches Some(r) && r.disabled == Some(true))
}

proof fn lemma_off(nodes: NodesV, id: Text)
    requires
        ascending::<NodeId, RawV>(nodes),
    ensures
        is_off(nodes, id) <==> switched_off(nodes, id),
{
    if is_off(nodes, id) {
        let i = choose|i: int|
            0 <= i < nodes.len() && crate::dsl::node::raw_disabled((#[trigger] nodes[i]).1) && (
            nodes[i].0 == id || descends_from(id, nodes[i].0));
        lemma_lookup_at::<NodeId, RawV>(nodes, i);
    }
    if switched_off(nodes, id) {
        let a = choose|a: Text|
            #![trigger lookup::<NodeId, RawV>(nodes, a)]
            (a == id || a.push('.').is_prefix_of(id)) && (lookup::<NodeId, RawV>(
                nodes,
                a,
            ) matches Some(r) && r.disabled == Some(true));
        lemma_lookup_none::<NodeId, RawV>(nodes, a);
        let i = choose|i: int|
            0 <= i < nodes.len() && (#[trigger] nodes[i]).0 == a && Some(nodes[i].1) == lookup::<
                NodeId,
                RawV,
            >(nodes, a);
        assert(nodes[i].0 == a);
    }
}

/// The nodes that are compiled are those of the chain that are not switched off,
/// unchanged: a disabled node takes everything under it along, and nothing else.
pub proof fn law_disabled_nodes_take_what_is_under_them(chain: Seq<ParsedV>, id: Text, raw: RawV)
    ensures
        lookup::<NodeId, RawV>(active_nodes(chain), id) == Some(raw) <==> lookup::<NodeId, RawV>(
            merged(chain),
            id,
        ) == Some(raw) && !switched_off(merged(chain), id),
        ascending::<NodeId, RawV>(active_nodes(chain)),
{
    let all = merged(chain);
    let n = all.len() as int;
    let on = kept(all);
    lemma_merged_ascending(chain);
    lemma_kept_ascending(all, n);
    lemma_off(all, id);
    law_kept(all, n);
    assert(all.take(n) =~= all);
    lemma_lookup_none::<NodeId, RawV>(all, id);
    lemma_lookup_none::<NodeId, RawV>(on, id);
    if lookup::<NodeId, RawV>(on, id) == Some(raw) {
        let j = choose|j: int|
            0 <= j < on.len() && (#[trigger] on[j]).0 == id && Some(on[j].1) == lookup::<
                NodeId,
                RawV,
            >(on, id);
        assert(kept_upto(all, n)[j] == on[j]);
        let i = choose|i: int| 0 <= i < all.len() && all[i] == on[j];
        lemma_lookup_at::<NodeId, RawV>(all, i);
    }
    if lookup::<NodeId, RawV>(all, id) == Some(raw) && !switched_off(all, id) {
        let i = choose|i: int|
            0 <= i < all.len() && (#[trigger] all[i]).0 == id && Some(all[i].1) == lookup::<
                NodeId,
                RawV,
            >(all, id);
        assert(on.contains(all[i]));
        let j = choose|j: int| 0 <= j < on.len() && on[j] == all[i];
        lemma_lookup_at::<NodeId, RawV>(on, j);
    }
}

/// Whether a compiled node is what was written, with what was left out filled in: not
/// required, no fallbacks, no normalization.
pub open spec fn compiles_to(raw: RawV, n: NodeV) -> bool {
    &&& Some(n.source_type) == raw.ty
    &&& n.canonical_key == raw.canonical_key
    &&& n.required <==> raw.required == Some(true)
    &&& raw.fallbacks matches Some(f) ==> n.fallbacks == f
    &&& raw.fallbacks is None ==> n.fallbacks.len() == 0
    &&& raw.normalize matches Some(ops) ==> n.normalize == ops
    &&& raw.normalize is None ==> n.normalize.len() == 0
    &&& n.multiple == raw.multiple
    &&& n.min_items == raw.min_items
    &&& n.join_with == raw.join_with
    &&& n.adapter == raw.adapter
    &&& n.constant == raw.constant
    &&& n.clone_of == raw.clone_of
    &&& n.description == raw.description
}

proof fn lemma_typed(nodes: NodesV, paths: Seq<(Text, Text)>, n: int, i: int)
    requires
        0 <= i < n <= nodes.len(),
        nodes[i].1.ty is Some,
    ensures
        exists|j: int|
            0 <= j < typed_upto(nodes, paths, n).len() && (#[trigger] typed_upto(nodes, paths, n)[j])
                == (
                nodes[i].0,
                defaulted(nodes, paths, nodes[i].0, nodes[i].1, nodes[i].1.ty->0),
            ),
    decreases n,
{
    let want = (
        nodes[i].0,
        defaulted(nodes, paths, nodes[i].0, nodes[i].1, nodes[i].1.ty->0),
    );
    let all = typed_upto(nodes, paths, n);
    if i < n - 1 {
        lemma_typed(nodes, paths, n - 1, i);
        let head = typed_upto(nodes, paths, n - 1);
        let j = choose|j: int| 0 <= j < head.len() && (#[trigger] head[j]) == want;
        assert(all[j] == head[j]);
    } else {
        assert(all[all.len() - 1] == want);
    }
}

proof fn lemma_typed_from(nodes: NodesV, paths: Seq<(Text, Text)>, n: int, j: int)
    requires
        0 <= n <= nodes.len(),
        0 <= j < typed_upto(nodes, paths, n).len(),
    ensures
        exists|i: int|
            0 <= i < n && (#[trigger] nodes[i]).1.ty is Some && typed_upto(nodes, paths, n)[j] == (
                nodes[i].0,
                defaulted(nodes, paths, nodes[i].0, nodes[i].1, nodes[i].1.ty->0),
            ),
    decreases n,
{
    let all = typed_upto(nodes, paths, n);
    let head = typed_upto(nodes, paths, n - 1);
    if n > 0 {
        if j < head.len() {
            lemma_typed_from(nodes, paths, n - 1, j);
            assert(all[j] == head[j]);
        } else {
            assert(nodes[n - 1].1.ty is Some);
        }
    }
}

/// A node is compiled if, and only if, it is active and has a type, and then it is what
/// was written. Its scope is the nearest collection above it.
pub proof fn law_compiled_nodes_are_the_typed_ones(chain: Seq<ParsedV>, id: Text)
    ensures
        ({
            let active = active_nodes(chain);
            let found = lookup::<NodeId, NodeV>(ir_of(chain).nodes, id);
            let raw = lookup::<NodeId, RawV>(active, id);
            &&& found is Some <==> raw is Some && raw->0.ty is Some
            &&& found is Some ==> compiles_to(raw->0, found->0) && found->0.id == id
            &&& found is Some ==> found->0.scope == nearest(id, |a: Text| is_coll(active, a))
            &&& found is Some ==> (lookup::<NodeId, Text>(
                synth(active, root_of(chain.last().meta)).paths,
                id,
            ) matches Some(p) ==> found->0.source_path == p)
        }),
{
    let active = active_nodes(chain);
    let all = merged(chain);
    lemma_merged_ascending(chain);
    lemma_kept_ascending(all, all.len() as int);
    let n = active.len() as int;
    let paths = synth(active, root_of(chain.last().meta)).paths;
    let typed = ir_of(chain).nodes;
    lemma_typed_ascending(active, paths, n);
    lemma_lookup_none::<NodeId, RawV>(active, id);
    lemma_lookup_none::<NodeId, NodeV>(typed, id);
    let raw = lookup::<NodeId, RawV>(active, id);
    let found = lookup::<NodeId, NodeV>(typed, id);
    if raw is Some && raw->0.ty is Some {
        let i = choose|i: int|
            0 <= i < active.len() && (#[trigger] active[i]).0 == id && Some(active[i].1) == raw;
        lemma_typed(active, paths, n, i);
        let j = choose|j: int|
            0 <= j < typed.len() && (#[trigger] typed[j]) == (
                active[i].0,
                defaulted(active, paths, active[i].0, active[i].1, active[i].1.ty->0),
            );
        lemma_lookup_at::<NodeId, NodeV>(typed, j);
    }
    if found is Some {
        let j = choose|j: int|
            0 <= j < typed.len() && (#[trigger] typed[j]).0 == id && Some(typed[j].1) == found;
        lemma_typed_from(active, paths, n, j);
        let i = choose|i: int|
            0 <= i < n && (#[trigger] active[i]).1.ty is Some && typed[j] == (
                active[i].0,
                defaulted(active, paths, active[i].0, active[i].1, active[i].1.ty->0),
            );
        lemma_lookup_at::<NodeId, RawV>(active, i);
    }
}

proof fn lemma_untyped(nodes: NodesV, n: int, i: int)
    requires
        0 <= i < n <= nodes.len(),
        nodes[i].1.ty is None,
    ensures
        untyped_upto(nodes, n).contains(missing_type(nodes[i].0)),
    decreases n,
{
    let all = untyped_upto(nodes, n);
    let want = missing_type(nodes[i].0);
    if i < n - 1 {
        lemma_untyped(nodes, n - 1, i);
        let head = untyped_upto(nodes, n - 1);
        let j = choose|j: int| 0 <= j < head.len() && head[j] == want;
        assert(all[j] == want);
    } else {
        assert(all[all.len() - 1] == want);
    }
}

proof fn lemma_untyped_from(nodes: NodesV, n: int, j: int)
    requires
        0 <= n <= nodes.len(),
        0 <= j < untyped_upto(nodes, n).len(),
    ensures
        exists|i: int|
            0 <= i < n && (#[trigger] nodes[i]).1.ty is None && untyped_upto(nodes, n)[j]
                == missing_type(nodes[i].0),
    decreases n,
{
    let all = untyped_upto(nodes, n);
    let head = untyped_upto(nodes, n - 1);
    if n > 0 {
        if j < head.len() {
            lemma_untyped_from(nodes, n - 1, j);
            assert(all[j] == head[j]);
        } else {
            assert(nodes[n - 1].1.ty is None);
        }
    }
}

/// Every active node without a type is reported, and no other: there is one report for
/// each.
pub proof fn law_nodes_without_a_type_are_reported(nodes: NodesV, id: Text)
    requires
        ascending::<NodeId, RawV>(nodes),
    ensures
        (exists|d: DiagnosticV|
            #[trigger] untyped_upto(nodes, nodes.len() as int).contains(d) && d.source_node == Some(
                id,
            )) <==> (lookup::<NodeId, RawV>(nodes, id) matches Some(raw) && raw.ty is None),
        typed_upto(nodes, Seq::empty(), nodes.len() as int).len() + untyped_upto(
            nodes,
            nodes.len() as int,
        ).len() == nodes.len(),
{
    let n = nodes.len() as int;
    let all = untyped_upto(nodes, n);
    lemma_lookup_none::<NodeId, RawV>(nodes, id);
    if lookup::<NodeId, RawV>(nodes, id) is Some && lookup::<NodeId, RawV>(nodes, id)->0.ty is None {
        let i = choose|i: int|
            0 <= i < nodes.len() && (#[trigger] nodes[i]).0 == id && Some(nodes[i].1) == lookup::<
                NodeId,
                RawV,
            >(nodes, id);
        lemma_untyped(nodes, n, i);
        assert(all.contains(missing_type(id)));
    }
    if exists|d: DiagnosticV| #[trigger] all.contains(d) && d.source_node == Some(id) {
        let d = choose|d: DiagnosticV| #[trigger] all.contains(d) && d.source_node == Some(id);
        let j = choose|j: int| 0 <= j < all.len() && all[j] == d;
        lemma_untyped_from(nodes, n, j);
        let i = choose|i: int|
            0 <= i < n && (#[trigger] nodes[i]).1.ty is None && all[j] == missing_type(nodes[i].0);
        lemma_lookup_at::<NodeId, RawV>(nodes, i);
    }
    lemma_each_counted(nodes, n);
}

proof fn lemma_each_counted(nodes: NodesV, n: int)
    requires
        0 <= n <= nodes.len(),
    ensures
        typed_upto(nodes, Seq::empty(), n).len() + untyped_upto(nodes, n).len() == n,
    decreases n,
{
    if n > 0 {
        lemma_each_counted(nodes, n - 1);
    }
}

/// The meta table of a compiled mapping is that of the leaf of its chain, and so are the
/// root and the id of its source model; a mapping that names no root has `Root`.
pub proof fn law_leaf_names_the_model(chain: Seq<ParsedV>, root: Text)
    requires
        chain.len() > 0,
    ensures
        ir_of(chain).meta == chain[chain.len() - 1].meta,
        chain.last().meta.root == Some(root) ==> model_of(chain).root == root,
        chain.last().meta.root is None ==> model_of(chain).root == "Root"@,
        model_of(chain).model_id == meta_id(chain.last().meta),
{
}

/// A collection needs the items that are declared for it; without a declaration it needs
/// one if it is required, and none if it is not.
pub proof fn law_required_collections_need_an_item(n: NodeV)
    ensures
        n.min_items is Some ==> Some(min_items_of(n)) == n.min_items,
        n.min_items is None ==> min_items_of(n) <= 1 && (min_items_of(n) == 1 <==> n.required),
{
}

} // verus!
