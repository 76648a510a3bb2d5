//! When spokes agree on the hub.
use vstd::prelude::*;

use crate::dsl::codegen::naming::field_of;
use crate::dsl::hub::{
    canonical_scope, derive_node, derive_nodes, derived, field_declared, hub_get, new_key, CFieldV,
    CanonicalScope, DeriveV, ScopeV,
};
use crate::dsl::ir::IrV;
use crate::dsl::types::MappingType;
use crate::ordmap::{ascending, lemma_put_ascending, lemma_put_lookup, lookup, put};
use crate::text::Text;

verus! {

/// Whether a node of a spoke maps a key of a scope.
pub open spec fn maps_key(mappings: Seq<IrV>, m: int, i: int, scope: ScopeV, key: Text) -> bool {
    &&& 0 <= m < mappings.len()
    &&& 0 <= i < mappings[m].nodes.len()
    &&& mappings[m].nodes[i].1.canonical_key == Some(key)
    &&& canonical_scope(mappings[m].nodes, mappings[m].nodes[i].1.scope) == Some(scope)
}

/// The type of a node of a spoke.
pub open spec fn type_at(mappings: Seq<IrV>, m: int, i: int) -> MappingType {
    mappings[m].nodes[i].1.source_type
}

/// Whether some node maps a key of a scope with a type.
pub open spec fn mapped_as(
    mappings: Seq<IrV>,
    scope: ScopeV,
    key: Text,
    ty: MappingType,
) -> bool {
    exists|m: int, i: int|
        #[trigger] maps_key(mappings, m, i, scope, key) && type_at(mappings, m, i) == ty
}

/// Whether everything that a derivation holds comes from a node.
spec fn comes_from_nodes(st: DeriveV, mappings: Seq<IrV>) -> bool {
    &&& ascending::<(CanonicalScope, String), CFieldV>(st.hub)
    &&& ascending::<String, ScopeV>(st.collections)
    &&& ascending::<(CanonicalScope, String), Text>(st.names)
    &&& ascending::<(CanonicalScope, String), Text>(st.declared)
    &&& forall|s: ScopeV, k: Text|
        #![trigger hub_get(st.hub, s, k)]
        hub_get(st.hub, s, k) matches Some(f) ==> mapped_as(mappings, s, k, f.ty)
            && f.is_collection == (f.ty == MappingType::Collection)
    &&& forall|k: Text|
        #![trigger lookup::<String, ScopeV>(st.collections, k)]
        lookup::<String, ScopeV>(st.collections, k) matches Some(s) ==> mapped_as(
            mappings,
            s,
            k,
            MappingType::Collection,
        )
    &&& forall|s: ScopeV, name: Text|
        #![trigger lookup::<(CanonicalScope, String), Text>(st.names, (s, name))]
        lookup::<(CanonicalScope, String), Text>(st.names, (s, name)) matches Some(k) ==> field_of(k)
            == name && exists|ty: MappingType| mapped_as(mappings, s, k, ty)
}

proof fn lemma_new_key(st: DeriveV, mappings: Seq<IrV>, m: int, i: int, key: Text, scope: ScopeV)
    requires
        comes_from_nodes(st, mappings),
        maps_key(mappings, m, i, scope, key),
    ensures
        comes_from_nodes(new_key(st, mappings[m].nodes[i].1, key, scope), mappings),
{
    let n = mappings[m].nodes[i].1;
    let f = field_declared(n, key, scope);
    let name = field_of(key);
    let t = new_key(st, n, key, scope);
    assert(mapped_as(mappings, scope, key, n.source_type)) by {
        assert(type_at(mappings, m, i) == n.source_type);
    }
    lemma_put_ascending::<(CanonicalScope, String), CFieldV>(st.hub, (scope, key), f);
    lemma_put_ascending::<(CanonicalScope, String), Text>(st.names, (scope, name), key);
    lemma_put_ascending::<String, ScopeV>(st.collections, key, scope);
    if t.diags.len() == st.diags.len() {
        assert forall|s: ScopeV, k: Text|
            #![trigger hub_get(t.hub, s, k)]
            hub_get(t.hub, s, k) is Some implies mapped_as(
            mappings,
            s,
            k,
            hub_get(t.hub, s, k)->0.ty,
        ) && hub_get(t.hub, s, k)->0.is_collection == (hub_get(t.hub, s, k)->0.ty
            == MappingType::Collection) by {
            lemma_put_lookup::<(CanonicalScope, String), CFieldV>(st.hub, (scope, key), f, (s, k));
            assert(hub_get(st.hub, s, k) == hub_get(st.hub, s, k));
        }
        assert forall|k: Text|
            #![trigger lookup::<String, ScopeV>(t.collections, k)]
            lookup::<String, ScopeV>(t.collections, k) is Some implies mapped_as(
            mappings,
            lookup::<String, ScopeV>(t.collections, k)->0,
            k,
            MappingType::Collection,
        ) by {
            lemma_put_lookup::<String, ScopeV>(st.collections, key, scope, k);
            assert(lookup::<String, ScopeV>(st.collections, k) == lookup::<String, ScopeV>(
                st.collections,
                k,
            ));
        }
        assert forall|s: ScopeV, nm: Text|
            #![trigger lookup::<(CanonicalScope, String), Text>(t.names, (s, nm))]
            lookup::<(CanonicalScope, String), Text>(t.names, (s, nm)) is Some implies field_of(
            lookup::<(CanonicalScope, String), Text>(t.names, (s, nm))->0,
        ) == nm && exists|ty: MappingType|
            mapped_as(
                mappings,
                s,
                lookup::<(CanonicalScope, String), Text>(t.names, (s, nm))->0,
                ty,
            ) by {
            lemma_put_lookup::<(CanonicalScope, String), Text>(
                st.names,
                (scope, name),
                key,
                (s, nm),
            );
            let now = lookup::<(CanonicalScope, String), Text>(t.names, (s, nm))->0;
            if (s, nm) == (scope, name) {
                assert(now == key);
                assert(mapped_as(mappings, s, now, n.source_type));
            } else {
                assert(lookup::<(CanonicalScope, String), Text>(st.names, (s, nm)) == Some(now));
                let ty = choose|ty: MappingType| mapped_as(mappings, s, now, ty);
                assert(mapped_as(mappings, s, now, ty));
            }
        }
    }
}

proof fn lemma_node(st: DeriveV, mappings: Seq<IrV>, m: int, i: int)
    requires
        comes_from_nodes(st, mappings),
        0 <= m < mappings.len(),
        0 <= i < mappings[m].nodes.len(),
    ensures
        comes_from_nodes(
            derive_node(st, mappings[m].nodes, mappings[m].nodes[i].1),
            mappings,
        ),
{
    let nodes = mappings[m].nodes;
    let n = nodes[i].1;
    if n.canonical_key is Some && canonical_scope(nodes, n.scope) is Some {
        let key = n.canonical_key->0;
        let scope = canonical_scope(nodes, n.scope)->0;
        assert(maps_key(mappings, m, i, scope, key));
        let st2 = DeriveV {
            declared: put::<(CanonicalScope, String), Text>(st.declared, (scope, key), n.id),
            ..st
        };
        lemma_put_ascending::<(CanonicalScope, String), Text>(st.declared, (scope, key), n.id);
        assert(comes_from_nodes(st2, mappings)) by {
            assert forall|s: ScopeV, k: Text|
                #![trigger hub_get(st2.hub, s, k)]
                hub_get(st2.hub, s, k) == hub_get(st.hub, s, k) by {}
        }
        lemma_new_key(st2, mappings, m, i, key, scope);
    }
}

proof fn lemma_nodes(st: DeriveV, mappings: Seq<IrV>, m: int, n: int)
    requires
        comes_from_nodes(st, mappings),
        0 <= m < mappings.len(),
        0 <= n <= mappings[m].nodes.len(),
    ensures
        comes_from_nodes(derive_nodes(st, mappings[m].nodes, n), mappings),
    decreases n,
{
    let t = derive_nodes(st, mappings[m].nodes, n);
    if n == 0 {
        assert forall|s: ScopeV, k: Text|
            #![trigger hub_get(t.hub, s, k)]
            hub_get(t.hub, s, k) == hub_get(st.hub, s, k) by {}
    } else {
        lemma_nodes(st, mappings, m, n - 1);
        lemma_node(derive_nodes(st, mappings[m].nodes, n - 1), mappings, m, n - 1);
    }
}

proof fn lemma_all(mappings: Seq<IrV>, k: int)
    requires
        0 <= k <= mappings.len(),
    ensures
        comes_from_nodes(derived(mappings.take(k)), mappings),
    decreases k,
{
    let t = derived(mappings.take(k));
    if k == 0 {
        assert forall|s: ScopeV, x: Text|
            #![trigger hub_get(t.hub, s, x)]
            hub_get(t.hub, s, x) is None by {}
    } else {
        lemma_all(mappings, k - 1);
        assert(mappings.take(k).drop_last() =~= mappings.take(k - 1));
        assert(mappings.take(k).last() == mappings[k - 1]);
        lemma_nodes(
            derived(mappings.take(k - 1)),
            mappings,
            k - 1,
            mappings[k - 1].nodes.len() as int,
        );
    }
}

/// A hub has no field but those that some node of some spoke maps, with the type of such
/// a node.
pub proof fn law_hub_has_only_mapped_fields(mappings: Seq<IrV>, scope: ScopeV, key: Text)
    ensures
        hub_get(derived(mappings).hub, scope, key) matches Some(f) ==> mapped_as(
            mappings,
            scope,
            key,
            f.ty,
        ),
{
    lemma_all(mappings, mappings.len() as int);
    assert(mappings.take(mappings.len() as int) =~= mappings);
}

/// Whether spokes agree: every collection around a mapped node has a key; no spoke maps a
/// key of a scope twice; nodes that map the same key of the same scope have the same type;
/// a collection key stands in one scope; and different keys of a scope have different
/// field names.
pub open spec fn agree(mappings: Seq<IrV>) -> bool {
    &&& forall|m: int, i: int|
        #![trigger mappings[m].nodes[i]]
        0 <= m < mappings.len() && 0 <= i < mappings[m].nodes.len()
            && mappings[m].nodes[i].1.canonical_key is Some ==> canonical_scope(
            mappings[m].nodes,
            mappings[m].nodes[i].1.scope,
        ) is Some
    &&& forall|m: int, i: int, j: int, s: ScopeV, k: Text|
        #[trigger] maps_key(mappings, m, i, s, k) && #[trigger] maps_key(mappings, m, j, s, k) ==> i
            == j
    &&& forall|m: int, i: int, p: int, j: int, s: ScopeV, k: Text|
        #[trigger] maps_key(mappings, m, i, s, k) && #[trigger] maps_key(mappings, p, j, s, k)
            ==> type_at(mappings, m, i) == type_at(mappings, p, j)
    &&& forall|s: ScopeV, t: ScopeV, k: Text|
        #[trigger] mapped_as(mappings, s, k, MappingType::Collection) && #[trigger] mapped_as(
            mappings,
            t,
            k,
            MappingType::Collection,
        ) ==> s == t
    &&& forall|s: ScopeV, a: Text, b: Text, ta: MappingType, tb: MappingType|
        #[trigger] mapped_as(mappings, s, a, ta) && #[trigger] mapped_as(mappings, s, b, tb)
            && field_of(a) == field_of(b) ==> a == b
}

/// Whether what a derivation has declared in a spoke comes from its first nodes.
spec fn declared_before(st: DeriveV, mappings: Seq<IrV>, m: int, n: int) -> bool {
    forall|s: ScopeV, k: Text|
        #![trigger lookup::<(CanonicalScope, String), Text>(st.declared, (s, k))]
        lookup::<(CanonicalScope, String), Text>(st.declared, (s, k)) is Some ==> exists|i: int|
            i < n && #[trigger] maps_key(mappings, m, i, s, k)
}

proof fn lemma_quiet_node(st: DeriveV, mappings: Seq<IrV>, m: int, n: int)
    requires
        agree(mappings),
        comes_from_nodes(st, mappings),
        declared_before(st, mappings, m, n),
        0 <= m < mappings.len(),
        0 <= n < mappings[m].nodes.len(),
    ensures
        derive_node(st, mappings[m].nodes, mappings[m].nodes[n].1).diags == st.diags,
        declared_before(
            derive_node(st, mappings[m].nodes, mappings[m].nodes[n].1),
            mappings,
            m,
            n + 1,
        ),
{
    let nodes = mappings[m].nodes;
    let node = nodes[n].1;
    let t = derive_node(st, nodes, node);
    if node.canonical_key is Some {
        assert(mappings[m].nodes[n].1.canonical_key is Some);
        let key = node.canonical_key->0;
        let scope = canonical_scope(nodes, node.scope)->0;
        assert(maps_key(mappings, m, n, scope, key));
        assert(mapped_as(mappings, scope, key, node.source_type)) by {
            assert(type_at(mappings, m, n) == node.source_type);
        }
        let first = lookup::<(CanonicalScope, String), Text>(st.declared, (scope, key));
        if first is Some {
            let i = choose|i: int| i < n && #[trigger] maps_key(mappings, m, i, scope, key);
            assert(i == n);
        }
        let st2 = DeriveV {
            declared: put::<(CanonicalScope, String), Text>(st.declared, (scope, key), node.id),
            ..st
        };
        let g = hub_get(st.hub, scope, key);
        if g is Some {
            let (p, j) = choose|p: int, j: int|
                #[trigger] maps_key(mappings, p, j, scope, key) && type_at(mappings, p, j)
                    == g->0.ty;
            assert(type_at(mappings, m, n) == type_at(mappings, p, j));
        } else {
            let taken = lookup::<String, ScopeV>(st2.collections, key);
            if node.source_type == MappingType::Collection && taken is Some {
                assert(mapped_as(mappings, taken->0, key, MappingType::Collection));
                assert(taken->0 == scope);
            }
            let other = lookup::<(CanonicalScope, String), Text>(
                st2.names,
                (scope, field_of(key)),
            );
            if other is Some {
                assert(lookup::<(CanonicalScope, String), Text>(st.names, (scope, field_of(key)))
                    == other);
                let ty = choose|ty: MappingType| mapped_as(mappings, scope, other->0, ty);
                assert(mapped_as(mappings, scope, other->0, ty));
                assert(other->0 == key);
            }
        }
        assert(t.declared == st2.declared);
        assert forall|s: ScopeV, k: Text|
            #![trigger lookup::<(CanonicalScope, String), Text>(t.declared, (s, k))]
            lookup::<(CanonicalScope, String), Text>(t.declared, (s, k)) is Some implies exists|
            i: int,
        | i < n + 1 && #[trigger] maps_key(mappings, m, i, s, k) by {
            lemma_put_lookup::<(CanonicalScope, String), Text>(
                st.declared,
                (scope, key),
                node.id,
                (s, k),
            );
            if (s, k) == (scope, key) {
                assert(maps_key(mappings, m, n, s, k));
            } else {
                assert(lookup::<(CanonicalScope, String), Text>(st.declared, (s, k)) is Some);
                let i = choose|i: int| i < n && #[trigger] maps_key(mappings, m, i, s, k);
                assert(maps_key(mappings, m, i, s, k));
            }
        }
    } else {
        assert forall|s: ScopeV, k: Text|
            #![trigger lookup::<(CanonicalScope, String), Text>(t.declared, (s, k))]
            lookup::<(CanonicalScope, String), Text>(t.declared, (s, k)) is Some implies exists|
            i: int,
        | i < n + 1 && #[trigger] maps_key(mappings, m, i, s, k) by {
            let i = choose|i: int| i < n && #[trigger] maps_key(mappings, m, i, s, k);
            assert(maps_key(mappings, m, i, s, k));
        }
    }
}

proof fn lemma_quiet_nodes(st: DeriveV, mappings: Seq<IrV>, m: int, n: int)
    requires
        agree(mappings),
        comes_from_nodes(st, mappings),
        0 <= m < mappings.len(),
        0 <= n <= mappings[m].nodes.len(),
    ensures
        derive_nodes(st, mappings[m].nodes, n).diags == st.diags,
        declared_before(derive_nodes(st, mappings[m].nodes, n), mappings, m, n),
    decreases n,
{
    if n == 0 {
        let t = derive_nodes(st, mappings[m].nodes, 0);
        assert forall|s: ScopeV, k: Text|
            #![trigger lookup::<(CanonicalScope, String), Text>(t.declared, (s, k))]
            lookup::<(CanonicalScope, String), Text>(t.declared, (s, k)) is None by {}
    } else {
        lemma_quiet_nodes(st, mappings, m, n - 1);
        lemma_nodes(st, mappings, m, n - 1);
        lemma_quiet_node(derive_nodes(st, mappings[m].nodes, n - 1), mappings, m, n - 1);
    }
}

proof fn lemma_quiet(mappings: Seq<IrV>, k: int)
    requires
        agree(mappings),
        0 <= k <= mappings.len(),
    ensures
        derived(mappings.take(k)).diags.len() == 0,
    decreases k,
{
    if k > 0 {
        lemma_quiet(mappings, k - 1);
        lemma_all(mappings, k - 1);
        assert(mappings.take(k).drop_last() =~= mappings.take(k - 1));
        assert(mappings.take(k).last() == mappings[k - 1]);
        lemma_quiet_nodes(
            derived(mappings.take(k - 1)),
            mappings,
            k - 1,
            mappings[k - 1].nodes.len() as int,
        );
    }
}

/// Spokes that agree derive a hub without complaint.
pub proof fn law_agreeing_spokes_raise_no_complaint(mappings: Seq<IrV>)
    requires
        agree(mappings),
    ensures
        derived(mappings).diags.len() == 0,
{
    lemma_quiet(mappings, mappings.len() as int);
    assert(mappings.take(mappings.len() as int) =~= mappings);
}

} // verus!
