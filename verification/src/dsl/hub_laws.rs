//! What holds of every derived hub.
use vstd::prelude::*;

use crate::dsl::codegen::naming::field_of;
use crate::dsl::hub::{
    canonical_scope, declare_key, derive_node, derive_nodes, derived, field_declared, hub_get,
    inside, new_key, CFieldV, CanonicalScope, DeriveV, ScopeV,
};
use crate::dsl::ir::{scopes_ascend, IrNodesV, IrV};
use crate::dsl::node::{NodeId, NodeV};
use crate::dsl::types::MappingType;
use crate::ordmap::{ascending, lookup, put};
use crate::text::Text;

verus! {

/// What the derivation keeps: each hub field stands under its own scope and key,
/// its generated name belongs to its key alone, and the key of a collection
/// belongs to one scope alone.
pub open spec fn derive_inv(st: DeriveV) -> bool {
    &&& ascending::<(CanonicalScope, String), CFieldV>(st.hub)
    &&& ascending::<String, ScopeV>(st.collections)
    &&& ascending::<(CanonicalScope, String), Text>(st.names)
    &&& forall|s: ScopeV, k: Text|
        #![trigger hub_get(st.hub, s, k)]
        hub_get(st.hub, s, k) matches Some(f) ==> {
            &&& f.key == k && f.scope == s
            &&& f.is_collection == (f.ty == MappingType::Collection)
            &&& lookup::<(CanonicalScope, String), Text>(st.names, (s, field_of(k))) == Some(k)
            &&& f.is_collection ==> lookup::<String, ScopeV>(st.collections, k) == Some(s)
        }
}

/// Whether every field of one hub is in another.
pub open spec fn hub_grows(a: DeriveV, b: DeriveV) -> bool {
    &&& forall|s: ScopeV, k: Text|
        #![trigger hub_get(b.hub, s, k)]
        hub_get(a.hub, s, k) is Some ==> hub_get(b.hub, s, k) == hub_get(a.hub, s, k)
    &&& a.diags.len() <= b.diags.len()
}

proof fn lemma_new_key(st: DeriveV, n: NodeV, key: Text, scope: ScopeV)
    requires
        derive_inv(st),
        hub_get(st.hub, scope, key) is None,
    ensures
        derive_inv(new_key(st, n, key, scope)),
        hub_grows(st, new_key(st, n, key, scope)),
        new_key(st, n, key, scope).diags.len() == st.diags.len() ==> hub_get(
            new_key(st, n, key, scope).hub,
            scope,
            key,
        ) == Some(field_declared(n, key, scope)),
{
    let f = field_declared(n, key, scope);
    let name = field_of(key);
    let t = new_key(st, n, key, scope);
    if t.diags.len() == st.diags.len() {
        crate::ordmap::lemma_put_ascending::<(CanonicalScope, String), CFieldV>(
            st.hub,
            (scope, key),
            f,
        );
        crate::ordmap::lemma_put_ascending::<(CanonicalScope, String), Text>(
            st.names,
            (scope, name),
            key,
        );
        crate::ordmap::lemma_put_ascending::<String, ScopeV>(st.collections, key, scope);
        crate::ordmap::lemma_put_lookup::<(CanonicalScope, String), CFieldV>(
            st.hub,
            (scope, key),
            f,
            (scope, key),
        );
        assert forall|s: ScopeV, k: Text|
            #![trigger hub_get(t.hub, s, k)]
            true implies (hub_get(st.hub, s, k) is Some ==> hub_get(t.hub, s, k) == hub_get(
            st.hub,
            s,
            k,
        )) && (hub_get(t.hub, s, k) matches Some(g) ==> {
            &&& g.key == k && g.scope == s
            &&& g.is_collection == (g.ty == MappingType::Collection)
            &&& lookup::<(CanonicalScope, String), Text>(t.names, (s, field_of(k))) == Some(k)
            &&& g.is_collection ==> lookup::<String, ScopeV>(t.collections, k) == Some(s)
        }) by {
            crate::ordmap::lemma_put_lookup::<(CanonicalScope, String), CFieldV>(
                st.hub,
                (scope, key),
                f,
                (s, k),
            );
            crate::ordmap::lemma_put_lookup::<(CanonicalScope, String), Text>(
                st.names,
                (scope, name),
                key,
                (s, field_of(k)),
            );
            crate::ordmap::lemma_put_lookup::<String, ScopeV>(st.collections, key, scope, k);
            assert(hub_get(st.hub, s, k) == hub_get(st.hub, s, k));
        }
    }
}

proof fn lemma_declare_key(st: DeriveV, n: NodeV, key: Text, scope: ScopeV)
    requires
        derive_inv(st),
    ensures
        derive_inv(declare_key(st, n, key, scope)),
        hub_grows(st, declare_key(st, n, key, scope)),
        declare_key(st, n, key, scope).diags.len() == st.diags.len() ==> (hub_get(
            declare_key(st, n, key, scope).hub,
            scope,
            key,
        ) matches Some(g) && g.ty == n.source_type),
{
    let st2 = DeriveV {
        declared: put::<(CanonicalScope, String), Text>(st.declared, (scope, key), n.id),
        ..st
    };
    assert(derive_inv(st2)) by {
        assert forall|s: ScopeV, k: Text|
            #![trigger hub_get(st2.hub, s, k)]
            hub_get(st2.hub, s, k) == hub_get(st.hub, s, k) by {}
    }
    if hub_get(st2.hub, scope, key) is None {
        lemma_new_key(st2, n, key, scope);
    }
}

proof fn lemma_derive_node(st: DeriveV, nodes: IrNodesV, n: NodeV)
    requires
        derive_inv(st),
    ensures
        derive_inv(derive_node(st, nodes, n)),
        hub_grows(st, derive_node(st, nodes, n)),
        derive_node(st, nodes, n).diags.len() == st.diags.len() ==> hub_holds(
            derive_node(st, nodes, n),
            nodes,
            n,
        ),
{
    if let Some(key) = n.canonical_key {
        if let Some(scope) = canonical_scope(nodes, n.scope) {
            lemma_declare_key(st, n, key, scope);
        }
    }
}

/// Whether the hub has the field that a node maps to, with the type of the node.
pub open spec fn hub_holds(st: DeriveV, nodes: IrNodesV, n: NodeV) -> bool {
    n.canonical_key matches Some(key) ==> (canonical_scope(nodes, n.scope) matches Some(scope)
        && hub_get(st.hub, scope, key) matches Some(f) && f.ty == n.source_type)
}

proof fn lemma_derive_nodes(st: DeriveV, nodes: IrNodesV, n: int)
    requires
        derive_inv(st),
        0 <= n <= nodes.len(),
    ensures
        derive_inv(derive_nodes(st, nodes, n)),
        hub_grows(st, derive_nodes(st, nodes, n)),
        derive_nodes(st, nodes, n).diags.len() == st.diags.len() ==> forall|i: int|
            0 <= i < n ==> hub_holds(derive_nodes(st, nodes, n), nodes, (#[trigger] nodes[i]).1),
    decreases n,
{
    let t = derive_nodes(st, nodes, n);
    if n <= 0 {
        assert forall|s: ScopeV, k: Text|
            #![trigger hub_get(t.hub, s, k)]
            hub_get(t.hub, s, k) == hub_get(st.hub, s, k) by {}
    } else {
        let u = derive_nodes(st, nodes, n - 1);
        lemma_derive_nodes(st, nodes, n - 1);
        lemma_derive_node(u, nodes, nodes[n - 1].1);
        assert forall|s: ScopeV, k: Text|
            #![trigger hub_get(t.hub, s, k)]
            hub_get(st.hub, s, k) is Some implies hub_get(t.hub, s, k) == hub_get(
            st.hub,
            s,
            k,
        ) by {
            assert(hub_get(u.hub, s, k) == hub_get(st.hub, s, k));
        }
        if t.diags.len() == st.diags.len() {
            assert forall|i: int| 0 <= i < n implies hub_holds(
                t,
                nodes,
                (#[trigger] nodes[i]).1,
            ) by {
                if i < n - 1 {
                    assert(hub_holds(u, nodes, nodes[i].1));
                }
            }
        }
    }
}

proof fn lemma_derived(mappings: Seq<IrV>)
    ensures
        derive_inv(derived(mappings)),
        derived(mappings).diags.len() == 0 ==> forall|m: int, i: int|
            #![trigger mappings[m].nodes[i]]
            0 <= m < mappings.len() && 0 <= i < mappings[m].nodes.len() ==> hub_holds(
                derived(mappings),
                mappings[m].nodes,
                mappings[m].nodes[i].1,
            ),
    decreases mappings.len(),
{
    let t = derived(mappings);
    if mappings.len() == 0 {
        assert forall|s: ScopeV, k: Text|
            #![trigger hub_get(t.hub, s, k)]
            hub_get(t.hub, s, k) is None by {}
    } else {
        let u = derived(mappings.drop_last());
        let nodes = mappings.last().nodes;
        lemma_derived(mappings.drop_last());
        lemma_derive_nodes(u, nodes, nodes.len() as int);
        if t.diags.len() == 0 {
            assert forall|m: int, i: int|
                #![trigger mappings[m].nodes[i]]
                0 <= m < mappings.len() && 0 <= i < mappings[m].nodes.len() implies hub_holds(
                t,
                mappings[m].nodes,
                mappings[m].nodes[i].1,
            ) by {
                if m < mappings.len() - 1 {
                    assert(mappings.drop_last()[m].nodes[i] == mappings[m].nodes[i]);
                    assert(hub_holds(u, mappings[m].nodes, mappings[m].nodes[i].1));
                }
            }
        }
    }
}

/// The fields of a derived hub stand under their own scopes and keys, in order.
pub proof fn law_hub_fields_in_place(mappings: Seq<IrV>, scope: ScopeV, key: Text)
    ensures
        ascending::<(CanonicalScope, String), CFieldV>(derived(mappings).hub),
        hub_get(derived(mappings).hub, scope, key) matches Some(f) ==> f.key == key && f.scope
            == scope && f.is_collection == (f.ty == MappingType::Collection),
{
    lemma_derived(mappings);
}

/// Two different keys of one scope of a derived hub never share a generated
/// field name.
pub proof fn law_hub_field_names_distinct(mappings: Seq<IrV>, scope: ScopeV, a: Text, b: Text)
    requires
        hub_get(derived(mappings).hub, scope, a) is Some,
        hub_get(derived(mappings).hub, scope, b) is Some,
        a != b,
    ensures
        field_of(a) != field_of(b),
{
    lemma_derived(mappings);
}

/// A derived hub has each collection key in one scope only, so that each item
/// struct is defined once.
pub proof fn law_hub_collection_keys_distinct(
    mappings: Seq<IrV>,
    s: ScopeV,
    t: ScopeV,
    key: Text,
)
    requires
        hub_get(derived(mappings).hub, s, key) matches Some(f) && f.is_collection,
        hub_get(derived(mappings).hub, t, key) matches Some(g) && g.is_collection,
    ensures
        s == t,
{
    lemma_derived(mappings);
}

/// When deriving the hub raises no complaint, every node of every spoke with a
/// canonical key has its field in the hub, with its own type.
pub proof fn law_clean_hub_covers_every_key(mappings: Seq<IrV>, m: int, i: int)
    requires
        derived(mappings).diags.len() == 0,
        0 <= m < mappings.len(),
        0 <= i < mappings[m].nodes.len(),
    ensures
        ({
            let n = mappings[m].nodes[i].1;
            n.canonical_key matches Some(key) ==> (canonical_scope(
                mappings[m].nodes,
                n.scope,
            ) matches Some(scope) && hub_get(derived(mappings).hub, scope, key) matches Some(f)
                && f.ty == n.source_type)
        }),
{
    lemma_derived(mappings);
    assert(hub_holds(derived(mappings), mappings[m].nodes, mappings[m].nodes[i].1));
}

/// When deriving the hub raises no complaint, two nodes that map one key of one
/// scope declare it with the same type, whichever spokes they belong to.
pub proof fn law_shared_keys_have_one_type(mappings: Seq<IrV>, m: int, i: int, p: int, j: int)
    requires
        derived(mappings).diags.len() == 0,
        0 <= m < mappings.len(),
        0 <= i < mappings[m].nodes.len(),
        0 <= p < mappings.len(),
        0 <= j < mappings[p].nodes.len(),
        mappings[m].nodes[i].1.canonical_key is Some,
        mappings[m].nodes[i].1.canonical_key == mappings[p].nodes[j].1.canonical_key,
        canonical_scope(mappings[m].nodes, mappings[m].nodes[i].1.scope) == canonical_scope(
            mappings[p].nodes,
            mappings[p].nodes[j].1.scope,
        ),
    ensures
        mappings[m].nodes[i].1.source_type == mappings[p].nodes[j].1.source_type,
{
    law_clean_hub_covers_every_key(mappings, m, i);
    law_clean_hub_covers_every_key(mappings, p, j);
}

/// The scope inside a collection is that of the collection with its key behind it, and there
/// is none where the collection has no key or stands in no scope itself.
pub proof fn law_scopes_nest(nodes: IrNodesV, i: int)
    requires
        scopes_ascend(nodes),
        ascending::<NodeId, NodeV>(nodes),
        0 <= i < nodes.len(),
    ensures
        ({
            let c = nodes[i].1;
            match canonical_scope(nodes, c.scope) {
                Some(outer) => canonical_scope(nodes, Some(c.id)) == (match c.canonical_key {
                    Some(key) => Some(inside(outer, key)),
                    None => None,
                }),
                None => canonical_scope(nodes, Some(c.id)) is None,
            }
        }),
        canonical_scope(nodes, None) == Some::<ScopeV>(None),
{
    crate::ordmap::lemma_lookup_at::<NodeId, NodeV>(nodes, i);
    assert(nodes[i].1.id == nodes[i].0);
}

} // verus!
