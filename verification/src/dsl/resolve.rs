//! Inheritance, disabled nodes and defaults.
use vstd::prelude::*;

use crate::dsl::error::{node_error, Diagnostic, DiagnosticV};
use crate::dsl::meta::clone_opt;
use crate::dsl::node::{
    clone_ops, descends_from, nearest, raw_disabled, NodeId, NodeV, RawNode, RawV, SourceNode,
};
use crate::dsl::parse::{NodesV, ParsedMapping, ParsedV};
use crate::dsl::source_model::synth::{is_coll, is_collection_node, scope_in};
use crate::dsl::types::MappingType;
use crate::ordmap::{ascending, has_key, lookup, put, Key, OrdMap};
use crate::text::{lt, Text};

verus! {

/// The nodes of `base` with the first `n` of `nodes` laid over them, each
/// replacing the node of the same id as a whole.
pub open spec fn overlay_upto(base: NodesV, nodes: NodesV, n: int) -> NodesV
    decreases n,
{
    if n <= 0 {
        base
    } else {
        put::<NodeId, RawV>(overlay_upto(base, nodes, n - 1), nodes[n - 1].0, nodes[n - 1].1)
    }
}

/// The nodes of an inheritance chain, from the base to the leaf.
pub open spec fn merged(chain: Seq<ParsedV>) -> NodesV
    decreases chain.len(),
{
    if chain.len() == 0 {
        Seq::empty()
    } else {
        let own = chain.last().nodes;
        overlay_upto(merged(chain.drop_last()), own, own.len() as int)
    }
}

/// Merges the nodes of an inheritance chain: a node of a later mapping replaces
/// the node of the same id of an earlier one.
pub fn merge_inheritance(chain: &[ParsedMapping]) -> (r: OrdMap<NodeId, RawNode>)
    ensures
        r@ == merged(chain.deep_view()),
{
    let mut out: OrdMap<NodeId, RawNode> = OrdMap::new();
    let mut c: usize = 0;
    while c < chain.len()
        invariant
            c <= chain@.len(),
            out@ == merged(chain.deep_view().take(c as int)),
        decreases chain@.len() - c,
    {
        let nodes = &chain[c].nodes;
        let ghost base = out@;
        let mut i: usize = 0;
        while i < nodes.len()
            invariant
                i <= nodes@.len(),
                out@ == overlay_upto(base, nodes@, i as int),
            decreases nodes@.len() - i,
        {
            out.insert(nodes.key_at(i).clone(), nodes.value_at(i).clone());
            i += 1;
        }
        proof {
            let views = chain.deep_view();
            assert(views.take(c + 1).drop_last() =~= views.take(c as int));
            assert(views.take(c + 1).last() == chain@[c as int]@);
        }
        c += 1;
    }
    assert(chain.deep_view().take(chain@.len() as int) =~= chain.deep_view());
    out
}

/// Laying nodes over others keeps ids ascending, and an id has the node laid
/// over if there is one, else the node below.
pub proof fn law_overlay(base: NodesV, nodes: NodesV, n: int, id: Text)
    requires
        ascending::<NodeId, RawV>(base),
        ascending::<NodeId, RawV>(nodes),
        0 <= n <= nodes.len(),
    ensures
        ascending::<NodeId, RawV>(overlay_upto(base, nodes, n)),
        lookup::<NodeId, RawV>(overlay_upto(base, nodes, n), id) == (if has_key::<NodeId, RawV>(
            nodes.take(n),
            id,
        ) {
            lookup::<NodeId, RawV>(nodes.take(n), id)
        } else {
            lookup::<NodeId, RawV>(base, id)
        }),
    decreases n,
{
    if n > 0 {
        let (k, v) = nodes[n - 1];
        let below = overlay_upto(base, nodes, n - 1);
        law_overlay(base, nodes, n - 1, id);
        crate::ordmap::lemma_put_ascending::<NodeId, RawV>(below, k, v);
        crate::ordmap::lemma_put_lookup::<NodeId, RawV>(below, k, v, id);
        let (s, t) = (nodes.take(n - 1), nodes.take(n));
        assert(ascending::<NodeId, RawV>(s));
        crate::ordmap::lemma_put_last::<NodeId, RawV>(nodes, n - 1);
        crate::ordmap::lemma_put_lookup::<NodeId, RawV>(s, k, v, id);
        assert(t == put::<NodeId, RawV>(s, k, v));
    } else {
        assert(nodes.take(0) =~= Seq::empty());
    }
}

/// The node of an id in an inheritance chain is the one of the last mapping that
/// has it, taken as a whole; an id no mapping has is in none.
pub proof fn law_inheritance_takes_the_last(chain: Seq<ParsedV>, id: Text)
    requires
        forall|c: int|
            0 <= c < chain.len() ==> ascending::<NodeId, RawV>((#[trigger] chain[c]).nodes),
    ensures
        ascending::<NodeId, RawV>(merged(chain)),
        chain.len() > 0 && has_key::<NodeId, RawV>(chain.last().nodes, id) ==> lookup::<
            NodeId,
            RawV,
        >(merged(chain), id) == lookup::<NodeId, RawV>(chain.last().nodes, id),
        chain.len() > 0 && !has_key::<NodeId, RawV>(chain.last().nodes, id) ==> lookup::<
            NodeId,
            RawV,
        >(merged(chain), id) == lookup::<NodeId, RawV>(merged(chain.drop_last()), id),
        chain.len() == 0 ==> lookup::<NodeId, RawV>(merged(chain), id) is None,
    decreases chain.len(),
{
    if chain.len() > 0 {
        let own = chain.last().nodes;
        law_inheritance_takes_the_last(chain.drop_last(), id);
        law_overlay(merged(chain.drop_last()), own, own.len() as int, id);
        assert(own.take(own.len() as int) =~= own);
    }
}

proof fn lemma_overlay_ascending(base: NodesV, nodes: NodesV, n: int)
    requires
        ascending::<NodeId, RawV>(base),
    ensures
        ascending::<NodeId, RawV>(overlay_upto(base, nodes, n)),
    decreases n,
{
    if n > 0 {
        let (k, v) = nodes[n - 1];
        lemma_overlay_ascending(base, nodes, n - 1);
        crate::ordmap::lemma_put_ascending::<NodeId, RawV>(overlay_upto(base, nodes, n - 1), k, v);
    }
}

/// The nodes of an inheritance chain stand in id order.
pub proof fn lemma_merged_ascending(chain: Seq<ParsedV>)
    ensures
        ascending::<NodeId, RawV>(merged(chain)),
    decreases chain.len(),
{
    if chain.len() > 0 {
        let own = chain.last().nodes;
        lemma_merged_ascending(chain.drop_last());
        lemma_overlay_ascending(merged(chain.drop_last()), own, own.len() as int);
    }
}

/// Whether a node is switched off: it or an ancestor of it is disabled.
pub open spec fn is_off(nodes: NodesV, id: Text) -> bool {
    exists|i: int|
        0 <= i < nodes.len() && raw_disabled((#[trigger] nodes[i]).1) && (nodes[i].0 == id
            || descends_from(id, nodes[i].0))
}

/// The first `n` nodes without those that are switched off.
pub open spec fn kept_upto(nodes: NodesV, n: int) -> NodesV
    decreases n,
{
    if n <= 0 {
        Seq::empty()
    } else if is_off(nodes, nodes[n - 1].0) {
        kept_upto(nodes, n - 1)
    } else {
        kept_upto(nodes, n - 1).push(nodes[n - 1])
    }
}

/// The nodes that are not switched off.
pub open spec fn kept(nodes: NodesV) -> NodesV {
    kept_upto(nodes, nodes.len() as int)
}

/// A kept node is one of the nodes and is not switched off; a node that is not
/// switched off is kept.
pub proof fn law_kept(nodes: NodesV, n: int)
    requires
        0 <= n <= nodes.len(),
    ensures
        forall|j: int|
            #![trigger kept_upto(nodes, n)[j]]
            0 <= j < kept_upto(nodes, n).len() ==> nodes.take(n).contains(kept_upto(nodes, n)[j])
                && !is_off(nodes, kept_upto(nodes, n)[j].0),
        forall|j: int|
            0 <= j < n && !is_off(nodes, (#[trigger] nodes[j]).0) ==> kept_upto(
                nodes,
                n,
            ).contains(nodes[j]),
    decreases n,
{
    if n > 0 {
        law_kept(nodes, n - 1);
        let (a, b) = (kept_upto(nodes, n - 1), kept_upto(nodes, n));
        assert forall|j: int| 0 <= j < b.len() implies #[trigger] nodes.take(n).contains(b[j])
            && !is_off(nodes, b[j].0) by {
            if j < a.len() {
                assert(b[j] == a[j]);
                assert(nodes.take(n - 1).contains(a[j]));
                let m = nodes.take(n - 1).index_of(a[j]);
                assert(nodes.take(n - 1)[m] == a[j]);
                assert(nodes.take(n)[m] == a[j]);
            } else {
                assert(nodes.take(n)[n - 1] == b[j]);
            }
        }
        assert forall|j: int| 0 <= j < n && !is_off(nodes, (#[trigger] nodes[j]).0) implies b.contains(
            nodes[j],
        ) by {
            if j < n - 1 {
                assert(a.contains(nodes[j]));
                let m = a.index_of(nodes[j]);
                assert(a[m] == nodes[j]);
                assert(b[m] == nodes[j]);
            } else {
                assert(b[b.len() - 1] == nodes[j]);
            }
        }
    }
}

/// Removing the nodes that are switched off keeps the ids ascending.
pub proof fn lemma_kept_ascending(nodes: NodesV, n: int)
    requires
        ascending::<NodeId, RawV>(nodes),
        0 <= n <= nodes.len(),
    ensures
        ascending::<NodeId, RawV>(kept_upto(nodes, n)),
        forall|j: int|
            0 <= j < kept_upto(nodes, n).len() && n < nodes.len() ==> lt(
                (#[trigger] kept_upto(nodes, n)[j]).0,
                nodes[n].0,
            ),
    decreases n,
{
    if n > 0 {
        lemma_kept_ascending(nodes, n - 1);
        let (a, b) = (kept_upto(nodes, n - 1), kept_upto(nodes, n));
        assert forall|j: int| 0 <= j < b.len() && n < nodes.len() implies lt(
            (#[trigger] b[j]).0,
            nodes[n].0,
        ) by {
            assert(NodeId::before(nodes[n - 1].0, nodes[n].0));
            if j < a.len() {
                assert(b[j] == a[j]);
                crate::text::lemma_lt_transitive(a[j].0, nodes[n - 1].0, nodes[n].0);
            }
        }
        assert(ascending::<NodeId, RawV>(b)) by {
            assert forall|i: int, j: int| 0 <= i < j < b.len() implies NodeId::before(
                (#[trigger] b[i]).0,
                (#[trigger] b[j]).0,
            ) by {
                assert(b[i] == a[i]);
                if j < a.len() {
                    assert(b[j] == a[j]);
                }
            }
        }
    }
}

/// Whether a node or an ancestor of it is disabled.
fn switched_off(nodes: &OrdMap<NodeId, RawNode>, id: &NodeId) -> (r: bool)
    ensures
        r == is_off(nodes@, id@),
{
    let mut i: usize = 0;
    while i < nodes.len()
        invariant
            i <= nodes@.len(),
            forall|j: int|
                0 <= j < i ==> !(raw_disabled((#[trigger] nodes@[j]).1) && (nodes@[j].0 == id@
                    || descends_from(id@, nodes@[j].0))),
        decreases nodes@.len() - i,
    {
        let other = nodes.key_at(i);
        if nodes.value_at(i).is_disabled() && (crate::text::same(other.as_str(), id.as_str())
            || id.is_descendant_of(other)) {
            assert(raw_disabled(nodes@[i as int].1));
            return true;
        }
        i += 1;
    }
    false
}

/// Removes every disabled node and all nodes below one.
pub fn remove_disabled(nodes: OrdMap<NodeId, RawNode>) -> (r: OrdMap<NodeId, RawNode>)
    ensures
        r@ == kept(nodes@),
{
    let mut out: OrdMap<NodeId, RawNode> = OrdMap::new();
    nodes.sorted();
    let mut i: usize = 0;
    while i < nodes.len()
        invariant
            i <= nodes@.len(),
            ascending::<NodeId, RawV>(nodes@),
            out@ == kept_upto(nodes@, i as int),
        decreases nodes@.len() - i,
    {
        if !switched_off(&nodes, nodes.key_at(i)) {
            proof {
                lemma_kept_ascending(nodes@, i as int);
                crate::ordmap::lemma_put_push::<NodeId, RawV>(
                    out@,
                    nodes@[i as int].0,
                    nodes@[i as int].1,
                );
            }
            out.insert(nodes.key_at(i).clone(), nodes.value_at(i).clone());
        }
        i += 1;
    }
    out
}

/// The texts of the optional list, none if it is absent.
pub open spec fn or_empty<T>(o: Option<Seq<T>>) -> Seq<T> {
    match o {
        Some(v) => v,
        None => Seq::empty(),
    }
}

/// A node with every default filled in.
pub open spec fn defaulted(
    nodes: NodesV,
    paths: Seq<(Text, Text)>,
    id: Text,
    raw: RawV,
    ty: MappingType,
) -> NodeV {
    NodeV {
        id,
        scope: scope_in(nodes, id),
        source_path: match lookup::<NodeId, Text>(paths, id) {
            Some(p) => p,
            None => Seq::empty(),
        },
        source_type: ty,
        canonical_key: raw.canonical_key,
        required: raw.required == Some(true),
        fallbacks: or_empty(raw.fallbacks),
        multiple: raw.multiple,
        min_items: raw.min_items,
        join_with: raw.join_with,
        normalize: or_empty(raw.normalize),
        adapter: raw.adapter,
        constant: raw.constant,
        clone_of: raw.clone_of,
        description: raw.description,
    }
}

/// The error for a node without a type.
pub open spec fn missing_type(id: Text) -> DiagnosticV {
    node_error(
        "E002"@,
        id,
        "active node `"@ + id + "` is missing required `type`"@,
    )
}

/// The first `n` nodes that have a type, with defaults.
pub open spec fn typed_upto(nodes: NodesV, paths: Seq<(Text, Text)>, n: int) -> Seq<(Text, NodeV)>
    decreases n,
{
    if n <= 0 {
        Seq::empty()
    } else {
        let (id, raw) = nodes[n - 1];
        let head = typed_upto(nodes, paths, n - 1);
        match raw.ty {
            Some(ty) => head.push((id, defaulted(nodes, paths, id, raw, ty))),
            None => head,
        }
    }
}

/// The errors for those of the first `n` nodes that have no type.
pub open spec fn untyped_upto(nodes: NodesV, n: int) -> Seq<DiagnosticV>
    decreases n,
{
    if n <= 0 {
        Seq::empty()
    } else {
        let (id, raw) = nodes[n - 1];
        let head = untyped_upto(nodes, n - 1);
        match raw.ty {
            Some(_) => head,
            None => head.push(missing_type(id)),
        }
    }
}

/// Filling in defaults keeps the ids ascending.
pub proof fn lemma_typed_ascending(nodes: NodesV, paths: Seq<(Text, Text)>, n: int)
    requires
        ascending::<NodeId, RawV>(nodes),
        0 <= n <= nodes.len(),
    ensures
        ascending::<NodeId, NodeV>(typed_upto(nodes, paths, n)),
        forall|j: int|
            0 <= j < typed_upto(nodes, paths, n).len() && n < nodes.len() ==> lt(
                (#[trigger] typed_upto(nodes, paths, n)[j]).0,
                nodes[n].0,
            ),
    decreases n,
{
    if n > 0 {
        lemma_typed_ascending(nodes, paths, n - 1);
        let (a, b) = (typed_upto(nodes, paths, n - 1), typed_upto(nodes, paths, n));
        assert forall|j: int| 0 <= j < b.len() && n < nodes.len() implies lt(
            (#[trigger] b[j]).0,
            nodes[n].0,
        ) by {
            assert(NodeId::before(nodes[n - 1].0, nodes[n].0));
            if j < a.len() {
                assert(b[j] == a[j]);
                crate::text::lemma_lt_transitive(a[j].0, nodes[n - 1].0, nodes[n].0);
            }
        }
        assert(ascending::<NodeId, NodeV>(b)) by {
            assert forall|i: int, j: int| 0 <= i < j < b.len() implies NodeId::before(
                (#[trigger] b[i]).0,
                (#[trigger] b[j]).0,
            ) by {
                assert(b[i] == a[i]);
                if j < a.len() {
                    assert(b[j] == a[j]);
                }
            }
        }
    }
}

/// The ids that a list of texts gives.
fn ids_of(v: &Option<Vec<String>>) -> (r: Vec<NodeId>)
    ensures
        r.deep_view() == or_empty(v.deep_view()),
{
    let mut r: Vec<NodeId> = Vec::new();
    match v {
        None => {
            assert(r.deep_view() =~= Seq::<Text>::empty());
        },
        Some(list) => {
            let mut i: usize = 0;
            while i < list.len()
                invariant
                    i <= list.len(),
                    r.deep_view() =~= list.deep_view().take(i as int),
                decreases list.len() - i,
            {
                let ghost before = r.deep_view();
                let id = NodeId::new(list[i].as_str());
                r.push(id);
                assert(r.deep_view() =~= before.push(list.deep_view()[i as int]));
                i += 1;
            }
            assert(list.deep_view().take(list.len() as int) =~= list.deep_view());
        },
    }
    r
}

/// Fills in the defaults of every node that has a type, and reports those that
/// have none.
pub fn apply_defaults(
    nodes: &OrdMap<NodeId, RawNode>,
    source_paths: &OrdMap<NodeId, String>,
) -> (r: (OrdMap<NodeId, SourceNode>, Vec<Diagnostic>))
    ensures
        r.0@ == typed_upto(nodes@, source_paths@, nodes@.len() as int),
        r.1.deep_view() == untyped_upto(nodes@, nodes@.len() as int),
{
    let mut out: OrdMap<NodeId, SourceNode> = OrdMap::new();
    let mut diags: Vec<Diagnostic> = Vec::new();
    nodes.sorted();
    let mut i: usize = 0;
    assert(diags.deep_view() =~= Seq::<DiagnosticV>::empty());
    while i < nodes.len()
        invariant
            i <= nodes@.len(),
            ascending::<NodeId, RawV>(nodes@),
            out@ == typed_upto(nodes@, source_paths@, i as int),
            diags.deep_view() == untyped_upto(nodes@, i as int),
        decreases nodes@.len() - i,
    {
        let id = nodes.key_at(i);
        let raw = nodes.value_at(i);
        match raw.ty {
            None => {
                let ghost before = diags.deep_view();
                let mut message = "active node `".to_string();
                message.push_str(id.as_str());
                message.push_str("` is missing required `type`");
                let d = Diagnostic::about("E002", id.as_str(), message);
                diags.push(d);
                assert(diags.deep_view() =~= before.push(d@));
            },
            Some(ty) => {
                let holds_items = |a: &NodeId| -> (b: bool)
                    ensures
                        b == is_coll(nodes@, a@),
                    { is_collection_node(nodes, a) };
                let scope = id.nearest_collection_scope(holds_items);
                assert(scope@ == nearest(id@, |a: Text| is_coll(nodes@, a)));
                let source_path = match source_paths.get(id) {
                    Some(p) => p.clone(),
                    None => String::new(),
                };
                let normalize = match &raw.normalize {
                    Some(ops) => clone_ops(ops),
                    None => Vec::new(),
                };
                assert(normalize.deep_view() =~= or_empty(raw@.normalize));
                let node = SourceNode {
                    id: id.clone(),
                    scope,
                    source_path,
                    source_type: ty,
                    canonical_key: clone_opt(&raw.canonical_key),
                    required: raw.required.unwrap_or(false),
                    fallbacks: ids_of(&raw.fallbacks),
                    multiple: raw.multiple,
                    min_items: raw.min_items,
                    join_with: clone_opt(&raw.join_with),
                    normalize,
                    adapter: clone_opt(&raw.adapter),
                    constant: clone_opt(&raw.constant),
                    clone_of: clone_opt(&raw.clone_of),
                    description: clone_opt(&raw.description),
                };
                proof {
                    assert(node@ =~= defaulted(nodes@, source_paths@, id@, raw@, ty));
                    lemma_typed_ascending(nodes@, source_paths@, i as int);
                    crate::ordmap::lemma_put_push::<NodeId, NodeV>(out@, id@, node@);
                }
                out.insert(id.clone(), node);
            },
        }
        i += 1;
    }
    (out, diags)
}

} // verus!
