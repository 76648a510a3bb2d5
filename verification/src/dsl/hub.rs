//! The canonical hub, derived as the union of every spoke's canonical keys.
use vstd::prelude::*;

use crate::dsl::codegen::naming::{field_of, snake_case};
use crate::dsl::error::{node_error, Diagnostic, DiagnosticV};
use crate::dsl::ir::{scopes_ascend, IrNodesV, IrV, MappingIr};
use crate::dsl::meta::clone_strings;
use crate::dsl::node::{NodeId, NodeV, Scope, SourceNode};
use crate::dsl::types::{type_keyword, MappingType};
use crate::ordmap::{lookup, put, Key, OrdMap};
use crate::text::{less, lt, same, Text};

verus! {

/// Where a canonical key stands: at the root, or inside the collections of a
/// chain of canonical keys, from the outermost.
#[derive(Debug, PartialEq, Eq, PartialOrd, Ord, Hash)]
pub enum CanonicalScope {
    /// Not inside any collection.
    Root,
    /// Inside the last of these nested collections.
    Collection(Vec<String>),
}

/// The model of a [`CanonicalScope`]: the chain, or `None` for the root.
pub type ScopeV = Option<Seq<Text>>;

impl View for CanonicalScope {
    type V = ScopeV;

    open spec fn view(&self) -> ScopeV {
        match self {
            CanonicalScope::Root => None,
            CanonicalScope::Collection(chain) => Some(chain.deep_view()),
        }
    }
}

impl DeepView for CanonicalScope {
    type V = ScopeV;

    open spec fn deep_view(&self) -> ScopeV {
        self@
    }
}

impl Clone for CanonicalScope {
    fn clone(&self) -> (r: CanonicalScope)
        ensures
            r@ == self@,
    {
        match self {
            CanonicalScope::Root => CanonicalScope::Root,
            CanonicalScope::Collection(chain) => CanonicalScope::Collection(clone_strings(chain)),
        }
    }
}

/// The scope inside the collection `key` of a scope.
pub open spec fn inside(scope: ScopeV, key: Text) -> ScopeV {
    match scope {
        None => Some(seq![key]),
        Some(chain) => Some(chain.push(key)),
    }
}

/// Dictionary order of lists of texts.
pub open spec fn lt_list(a: Seq<Text>, b: Seq<Text>) -> bool
    decreases b.len(),
{
    if b.len() == 0 {
        false
    } else if a.len() == 0 {
        true
    } else if a[0] == b[0] {
        lt_list(a.drop_first(), b.drop_first())
    } else {
        lt(a[0], b[0])
    }
}

/// The order of scopes: the root first, then by chain.
pub open spec fn scope_lt(a: ScopeV, b: ScopeV) -> bool {
    match (a, b) {
        (None, Some(_)) => true,
        (Some(x), Some(y)) => lt_list(x, y),
        _ => false,
    }
}

proof fn lemma_lt_list_irreflexive(a: Seq<Text>)
    ensures
        !lt_list(a, a),
    decreases a.len(),
{
    if a.len() > 0 {
        lemma_lt_list_irreflexive(a.drop_first());
    }
}

proof fn lemma_lt_list_transitive(a: Seq<Text>, b: Seq<Text>, c: Seq<Text>)
    requires
        lt_list(a, b),
        lt_list(b, c),
    ensures
        lt_list(a, c),
    decreases c.len(),
{
    if a.len() > 0 {
        if a[0] == b[0] && b[0] == c[0] {
            lemma_lt_list_transitive(a.drop_first(), b.drop_first(), c.drop_first());
        } else if a[0] != b[0] && b[0] != c[0] {
            crate::text::lemma_lt_transitive(a[0], b[0], c[0]);
            crate::text::lemma_lt_irreflexive(a[0]);
        }
    }
}

proof fn lemma_lt_list_total(a: Seq<Text>, b: Seq<Text>)
    ensures
        lt_list(a, b) || lt_list(b, a) || a == b,
    decreases b.len(),
{
    if a.len() == 0 && b.len() == 0 {
        assert(a =~= b);
    } else if a.len() > 0 && b.len() > 0 {
        if a[0] == b[0] {
            lemma_lt_list_total(a.drop_first(), b.drop_first());
            if a.drop_first() == b.drop_first() {
                assert(a =~= seq![a[0]] + a.drop_first());
                assert(b =~= seq![b[0]] + b.drop_first());
            }
        } else {
            crate::text::lemma_lt_total(a[0], b[0]);
        }
    }
}

/// Whether two lists hold the same texts.
pub fn same_list(a: &Vec<String>, b: &Vec<String>) -> (r: bool)
    ensures
        r == (a.deep_view() == b.deep_view()),
{
    if a.len() != b.len() {
        assert(a.deep_view().len() != b.deep_view().len());
        return false;
    }
    let mut i: usize = 0;
    while i < a.len()
        invariant
            i <= a.len() == b.len(),
            forall|j: int| 0 <= j < i ==> a.deep_view()[j] == b.deep_view()[j],
        decreases a.len() - i,
    {
        if !same(a[i].as_str(), b[i].as_str()) {
            assert(a.deep_view()[i as int] != b.deep_view()[i as int]);
            return false;
        }
        i += 1;
    }
    assert(a.deep_view() =~= b.deep_view());
    true
}

/// Whether the first list precedes the second.
fn less_list(a: &Vec<String>, b: &Vec<String>) -> (r: bool)
    ensures
        r == lt_list(a.deep_view(), b.deep_view()),
{
    let ghost (x, y) = (a.deep_view(), b.deep_view());
    let mut i: usize = 0;
    assert(x.skip(0) =~= x && y.skip(0) =~= y);
    while i < a.len() && i < b.len() && same(a[i].as_str(), b[i].as_str())
        invariant
            i <= a.len(),
            i <= b.len(),
            x == a.deep_view(),
            y == b.deep_view(),
            lt_list(x, y) == lt_list(x.skip(i as int), y.skip(i as int)),
        decreases a.len() - i,
    {
        proof {
            assert(x.skip(i as int)[0] == y.skip(i as int)[0]);
            assert(x.skip(i as int).drop_first() =~= x.skip(i + 1));
            assert(y.skip(i as int).drop_first() =~= y.skip(i + 1));
        }
        i += 1;
    }
    if i >= b.len() {
        false
    } else if i >= a.len() {
        true
    } else {
        assert(x.skip(i as int)[0] == x[i as int] && y.skip(i as int)[0] == y[i as int]);
        less(a[i].as_str(), b[i].as_str())
    }
}

impl CanonicalScope {
    /// The scope inside the collection `key` of this scope.
    pub fn child(&self, key: &str) -> (r: CanonicalScope)
        ensures
            r@ == inside(self@, key@),
    {
        let mut chain = match self {
            CanonicalScope::Root => Vec::new(),
            CanonicalScope::Collection(chain) => clone_strings(chain),
        };
        let ghost before = chain.deep_view();
        chain.push(key.to_string());
        assert(chain.deep_view() =~= before.push(key@));
        assert(seq![key@] =~= Seq::<Text>::empty().push(key@));
        CanonicalScope::Collection(chain)
    }

    /// Whether two scopes are the same.
    pub fn same_as(&self, other: &CanonicalScope) -> (r: bool)
        ensures
            r == (self@ == other@),
    {
        match (self, other) {
            (CanonicalScope::Root, CanonicalScope::Root) => true,
            (CanonicalScope::Collection(a), CanonicalScope::Collection(b)) => same_list(a, b),
            _ => false,
        }
    }
}

impl Key for (CanonicalScope, String) {
    /// By scope first, then by key.
    open spec fn before(a: (ScopeV, Text), b: (ScopeV, Text)) -> bool {
        scope_lt(a.0, b.0) || (a.0 == b.0 && lt(a.1, b.1))
    }

    proof fn irreflexive(a: (ScopeV, Text)) {
        if let Some(x) = a.0 {
            lemma_lt_list_irreflexive(x);
        }
        crate::text::lemma_lt_irreflexive(a.1);
    }

    proof fn transitive(a: (ScopeV, Text), b: (ScopeV, Text), c: (ScopeV, Text)) {
        if a.0 is Some && b.0 is Some && c.0 is Some && scope_lt(a.0, b.0) && scope_lt(b.0, c.0) {
            lemma_lt_list_transitive(a.0->0, b.0->0, c.0->0);
        }
        if lt(a.1, b.1) && lt(b.1, c.1) {
            crate::text::lemma_lt_transitive(a.1, b.1, c.1);
        }
    }

    proof fn total(a: (ScopeV, Text), b: (ScopeV, Text)) {
        if a.0 is Some && b.0 is Some {
            lemma_lt_list_total(a.0->0, b.0->0);
        }
        crate::text::lemma_lt_total(a.1, b.1);
    }

    fn precedes(&self, other: &Self) -> (r: bool) {
        match (&self.0, &other.0) {
            (CanonicalScope::Root, CanonicalScope::Collection(_)) => true,
            (CanonicalScope::Collection(_), CanonicalScope::Root) => false,
            (CanonicalScope::Root, CanonicalScope::Root) => {
                less(self.1.as_str(), other.1.as_str())
            },
            (CanonicalScope::Collection(x), CanonicalScope::Collection(y)) => {
                less_list(x, y) || (same_list(x, y) && less(self.1.as_str(), other.1.as_str()))
            },
        }
    }

    fn equals(&self, other: &Self) -> (r: bool) {
        self.0.same_as(&other.0) && same(self.1.as_str(), other.1.as_str())
    }
}

/// One field of the hub.
#[derive(Debug, PartialEq, Eq)]
pub struct CanonicalField {
    /// The canonical key.
    pub key: String,
    /// Its type.
    pub ty: MappingType,
    /// Whether it is a collection.
    pub is_collection: bool,
    /// Where it stands.
    pub scope: CanonicalScope,
}

/// The model of a [`CanonicalField`].
#[verifier::ext_equal]
pub struct CFieldV {
    pub key: Text,
    pub ty: MappingType,
    pub is_collection: bool,
    pub scope: ScopeV,
}

impl View for CanonicalField {
    type V = CFieldV;

    open spec fn view(&self) -> CFieldV {
        CFieldV {
            key: self.key@,
            ty: self.ty,
            is_collection: self.is_collection,
            scope: self.scope@,
        }
    }
}

impl DeepView for CanonicalField {
    type V = CFieldV;

    open spec fn deep_view(&self) -> CFieldV {
        self@
    }
}

/// The hub: every canonical field, by scope and key.
#[derive(Debug, PartialEq, Eq)]
pub struct CanonicalModel {
    /// The fields by scope and key.
    pub fields: OrdMap<(CanonicalScope, String), CanonicalField>,
}

/// The fields of a hub, in the order of scope and key.
pub type HubV = Seq<((ScopeV, Text), CFieldV)>;

impl View for CanonicalModel {
    type V = HubV;

    open spec fn view(&self) -> HubV {
        self.fields@
    }
}

/// The field of a scope and key, if the hub has one.
pub open spec fn hub_get(hub: HubV, scope: ScopeV, key: Text) -> Option<CFieldV> {
    lookup::<(CanonicalScope, String), CFieldV>(hub, (scope, key))
}

impl Default for CanonicalModel {
    fn default() -> (m: CanonicalModel)
        ensures
            m@ == Seq::<((ScopeV, Text), CFieldV)>::empty(),
    {
        CanonicalModel { fields: OrdMap::new() }
    }
}

impl CanonicalModel {
    /// The field of a scope and key.
    pub fn get(&self, scope: &CanonicalScope, key: &str) -> (r: Option<&CanonicalField>)
        ensures
            match r {
                Some(f) => hub_get(self@, scope@, key@) == Some(f@),
                None => hub_get(self@, scope@, key@) is None,
            },
    {
        let k = (scope.clone(), key.to_string());
        assert(k.deep_view() == (scope@, key@));
        self.fields.get(&k)
    }

    /// Whether the hub has a field of a scope and key.
    pub fn contains(&self, scope: &CanonicalScope, key: &str) -> (r: bool)
        ensures
            r == hub_get(self@, scope@, key@) is Some,
    {
        self.get(scope, key).is_some()
    }

    /// The number of fields.
    pub fn len(&self) -> (n: usize)
        ensures
            n == self@.len(),
    {
        self.fields.len()
    }

    /// Whether the hub has no field.
    pub fn is_empty(&self) -> (r: bool)
        ensures
            r == (self@.len() == 0),
    {
        self.fields.is_empty()
    }
}

// ---------------------------------------------------------------------------
// Scopes of nodes
// ---------------------------------------------------------------------------

/// The canonical keys of the collections around and including `coll`, from the
/// outermost; `None` if one of them is unknown or has no canonical key.
pub open spec fn chain_keys(nodes: IrNodesV, coll: Text) -> Option<Seq<Text>>
    decreases coll.len(),
{
    match lookup::<NodeId, NodeV>(nodes, coll) {
        None => None,
        Some(n) => match n.canonical_key {
            None => None,
            Some(k) => match n.scope {
                None => Some(seq![k]),
                Some(outer) => if outer.len() >= coll.len() {
                    None
                } else {
                    match chain_keys(nodes, outer) {
                        None => None,
                        Some(c) => Some(c.push(k)),
                    }
                },
            },
        },
    }
}

/// The canonical scope of a node.
pub open spec fn canonical_scope(nodes: IrNodesV, scope: Option<Text>) -> Option<ScopeV> {
    match scope {
        None => Some(None),
        Some(coll) => match chain_keys(nodes, coll) {
            None => None,
            Some(c) => Some(Some(c)),
        },
    }
}

/// The canonical keys of the collections around and including `coll`.
fn collect_chain(nodes: &OrdMap<NodeId, SourceNode>, coll: &NodeId) -> (r: Option<Vec<String>>)
    requires
        scopes_ascend(nodes@),
    ensures
        r.deep_view() == chain_keys(nodes@, coll@),
    decreases coll@.len(),
{
    proof {
        crate::ordmap::lemma_lookup_none::<NodeId, NodeV>(nodes@, coll@);
    }
    let n = match nodes.get(coll) {
        None => {
            return None;
        },
        Some(n) => n,
    };
    let key = match &n.canonical_key {
        None => {
            return None;
        },
        Some(k) => k.clone(),
    };
    match &n.scope {
        Scope::Root => {
            let mut chain: Vec<String> = Vec::new();
            chain.push(key);
            assert(chain.deep_view() =~= seq![key@]);
            Some(chain)
        },
        Scope::Collection(outer) => {
            match collect_chain(nodes, outer) {
                None => None,
                Some(mut chain) => {
                    let ghost before = chain.deep_view();
                    chain.push(key);
                    assert(chain.deep_view() =~= before.push(key@));
                    Some(chain)
                },
            }
        },
    }
}

/// The canonical scope of a node: the canonical keys of the collections around
/// it. `None` if one of them has no canonical key.
pub fn canonical_scope_of(node: &SourceNode, mapping: &MappingIr) -> (r: Option<CanonicalScope>)
    requires
        scopes_ascend(mapping@.nodes),
    ensures
        r.deep_view() == canonical_scope(mapping@.nodes, node@.scope),
{
    match &node.scope {
        Scope::Root => Some(CanonicalScope::Root),
        Scope::Collection(coll) => match collect_chain(&mapping.nodes, coll) {
            None => None,
            Some(chain) => Some(CanonicalScope::Collection(chain)),
        },
    }
}

// ---------------------------------------------------------------------------
// Deriving the hub
// ---------------------------------------------------------------------------

/// The state of the derivation.
#[verifier::ext_equal]
pub struct DeriveV {
    /// The hub so far.
    pub hub: HubV,
    /// The scope of each collection key of the hub.
    pub collections: Seq<(Text, ScopeV)>,
    /// The key behind each generated field name of a scope.
    pub names: Seq<((ScopeV, Text), Text)>,
    /// The node of each key that the current spoke has declared.
    pub declared: Seq<((ScopeV, Text), Text)>,
    /// What is wrong.
    pub diags: Seq<DiagnosticV>,
}

/// The words for a type in a conflict.
pub open spec fn type_words(ty: MappingType, is_collection: bool) -> Text {
    if is_collection {
        "`"@ + type_keyword(ty) + "` collection"@
    } else {
        "`"@ + type_keyword(ty) + "`"@
    }
}

/// A node inside a collection without a canonical key.
pub open spec fn orphan_error(id: Text, key: Text, coll: Text) -> DiagnosticV {
    node_error(
        "E011"@,
        id,
        "node `"@ + id + "` maps `"@ + key + "` inside collection `"@ + coll
            + "`, but that collection has no canonical_key"@,
    )
}

/// A key that two nodes of one spoke map.
pub open spec fn twice_error(id: Text, key: Text, first: Text) -> DiagnosticV {
    node_error(
        "E013"@,
        id,
        "canonical key `"@ + key + "` is mapped by both `"@ + first + "` and `"@ + id
            + "` in this spoke — use `fallbacks` on one node to declare read priority, `clone_of` to mirror the value to a second path, or rename one key"@,
    )
}

/// A key that two spokes declare with different types.
pub open spec fn type_error(id: Text, key: Text, here: CFieldV, there: CFieldV) -> DiagnosticV {
    node_error(
        "E010"@,
        id,
        "canonical key `"@ + key + "` is declared as "@ + type_words(here.ty, here.is_collection)
            + " here but "@ + type_words(there.ty, there.is_collection) + " elsewhere"@,
    )
}

/// A collection key in two scopes.
pub open spec fn item_error(id: Text, key: Text) -> DiagnosticV {
    node_error(
        "E012"@,
        id,
        "canonical collection key `"@ + key
            + "` is used in two different scopes; its generated `"@ + key
            + "Item` struct would be defined twice — rename one of the keys"@,
    )
}

/// Two keys with one generated field name.
pub open spec fn name_error(id: Text, key: Text, other: Text, field: Text) -> DiagnosticV {
    node_error(
        "E012"@,
        id,
        "canonical keys `"@ + other + "` and `"@ + key
            + "` collapse to the same generated hub field `"@ + field + "` — rename one of them"@,
    )
}

/// The derivation with one more diagnostic.
pub open spec fn complain(st: DeriveV, d: DiagnosticV) -> DeriveV {
    DeriveV { diags: st.diags.push(d), ..st }
}

/// The hub field a node declares.
pub open spec fn field_declared(n: NodeV, key: Text, scope: ScopeV) -> CFieldV {
    CFieldV {
        key,
        ty: n.source_type,
        is_collection: n.source_type == MappingType::Collection,
        scope,
    }
}

/// The derivation after a node has declared a key the hub has not.
pub open spec fn new_key(st: DeriveV, n: NodeV, key: Text, scope: ScopeV) -> DeriveV {
    let f = field_declared(n, key, scope);
    let name = field_of(key);
    let taken = lookup::<String, ScopeV>(st.collections, key);
    let other = lookup::<(CanonicalScope, String), Text>(st.names, (scope, name));
    if f.is_collection && taken is Some && taken->0 != scope {
        complain(st, item_error(n.id, key))
    } else if other is Some && other->0 != key {
        complain(st, name_error(n.id, key, other->0, name))
    } else {
        DeriveV {
            hub: put::<(CanonicalScope, String), CFieldV>(st.hub, (scope, key), f),
            collections: if f.is_collection {
                put::<String, ScopeV>(st.collections, key, scope)
            } else {
                st.collections
            },
            names: put::<(CanonicalScope, String), Text>(st.names, (scope, name), key),
            ..st
        }
    }
}

/// The derivation after a node has declared a key in its scope.
pub open spec fn declare_key(st: DeriveV, n: NodeV, key: Text, scope: ScopeV) -> DeriveV {
    let first = lookup::<(CanonicalScope, String), Text>(st.declared, (scope, key));
    if first is Some {
        complain(st, twice_error(n.id, key, first->0))
    } else {
        let st = DeriveV {
            declared: put::<(CanonicalScope, String), Text>(st.declared, (scope, key), n.id),
            ..st
        };
        let f = field_declared(n, key, scope);
        match hub_get(st.hub, scope, key) {
            Some(g) => if g.ty != f.ty || g.is_collection != f.is_collection {
                complain(st, type_error(n.id, key, f, g))
            } else {
                st
            },
            None => new_key(st, n, key, scope),
        }
    }
}

/// The derivation after one more node; a node without a canonical key declares
/// nothing.
pub open spec fn derive_node(st: DeriveV, nodes: IrNodesV, n: NodeV) -> DeriveV {
    match n.canonical_key {
        None => st,
        Some(key) => match canonical_scope(nodes, n.scope) {
            None => complain(st, orphan_error(n.id, key, n.scope->0)),
            Some(scope) => declare_key(st, n, key, scope),
        },
    }
}

/// The derivation after the first `n` nodes of a spoke.
pub open spec fn derive_nodes(st: DeriveV, nodes: IrNodesV, n: int) -> DeriveV
    decreases n,
{
    if n <= 0 {
        DeriveV { declared: Seq::empty(), ..st }
    } else {
        derive_node(derive_nodes(st, nodes, n - 1), nodes, nodes[n - 1].1)
    }
}

/// The derivation after a list of spokes.
pub open spec fn derived(mappings: Seq<IrV>) -> DeriveV
    decreases mappings.len(),
{
    if mappings.len() == 0 {
        DeriveV {
            hub: Seq::empty(),
            collections: Seq::empty(),
            names: Seq::empty(),
            declared: Seq::empty(),
            diags: Seq::empty(),
        }
    } else {
        let nodes = mappings.last().nodes;
        derive_nodes(derived(mappings.drop_last()), nodes, nodes.len() as int)
    }
}

/// The words for a type in a conflict.
fn words_of_type(ty: MappingType, is_collection: bool) -> (out: String)
    ensures
        out@ == type_words(ty, is_collection),
{
    let mut out = "`".to_string();
    out.push_str(ty.as_str());
    if is_collection {
        out.push_str("` collection");
    } else {
        out.push_str("`");
    }
    out
}

/// The derivation in progress.
struct Derivation {
    model: CanonicalModel,
    collections: OrdMap<String, CanonicalScope>,
    names: OrdMap<(CanonicalScope, String), String>,
    declared: OrdMap<(CanonicalScope, String), String>,
    diags: Vec<Diagnostic>,
}

impl Derivation {
    spec fn state(&self) -> DeriveV {
        DeriveV {
            hub: self.model@,
            collections: self.collections@,
            names: self.names@,
            declared: self.declared@,
            diags: self.diags.deep_view(),
        }
    }

    /// Records a diagnostic.
    fn complain(&mut self, code: &str, id: &NodeId, message: String)
        ensures
            final(self).state() == complain(
                old(self).state(),
                node_error(code@, id@, message@),
            ),
    {
        let ghost before = self.diags.deep_view();
        let d = Diagnostic::about(code, id.as_str(), message);
        self.diags.push(d);
        assert(self.diags.deep_view() =~= before.push(d@));
    }

    /// Adds a key the hub has not, or says why it cannot be added.
    fn take_key(&mut self, node: &SourceNode, key: String, scope: CanonicalScope)
        ensures
            final(self).state() == new_key(old(self).state(), node@, key@, scope@),
    {
        let is_collection = node.is_collection();
        if is_collection {
            let elsewhere = match self.collections.get(&key) {
                Some(other) => !other.same_as(&scope),
                None => false,
            };
            if elsewhere {
                let mut message = "canonical collection key `".to_string();
                message.push_str(key.as_str());
                message.push_str("` is used in two different scopes; its generated `");
                message.push_str(key.as_str());
                message.push_str("Item` struct would be defined twice — rename one of the keys");
                self.complain("E012", &node.id, message);
                return;
            }
        }
        let rust_name = snake_case(key.as_str());
        let slot = (scope.clone(), rust_name.clone());
        assert(slot.deep_view() == (scope@, field_of(key@)));
        if let Some(other) = self.names.get(&slot) {
            if !same(other.as_str(), key.as_str()) {
                let mut message = "canonical keys `".to_string();
                message.push_str(other.as_str());
                message.push_str("` and `");
                message.push_str(key.as_str());
                message.push_str("` collapse to the same generated hub field `");
                message.push_str(rust_name.as_str());
                message.push_str("` — rename one of them");
                self.complain("E012", &node.id, message);
                return;
            }
        }
        if is_collection {
            self.collections.insert(key.clone(), scope.clone());
        }
        self.names.insert(slot, key.clone());
        let field = CanonicalField {
            key: key.clone(),
            ty: node.source_type,
            is_collection,
            scope: scope.clone(),
        };
        let at = (scope, key);
        assert(at.deep_view() == (scope@, key@));
        self.model.fields.insert(at, field);
    }

    /// Declares a key in its scope.
    fn declare(&mut self, node: &SourceNode, key: String, scope: CanonicalScope)
        ensures
            final(self).state() == declare_key(old(self).state(), node@, key@, scope@),
    {
        let at = (scope.clone(), key.clone());
        assert(at.deep_view() == (scope@, key@));
        if let Some(first) = self.declared.get(&at) {
            let mut message = "canonical key `".to_string();
            message.push_str(key.as_str());
            message.push_str("` is mapped by both `");
            message.push_str(first.as_str());
            message.push_str("` and `");
            message.push_str(node.id.as_str());
            message.push_str(
                "` in this spoke — use `fallbacks` on one node to declare read priority, `clone_of` to mirror the value to a second path, or rename one key",
            );
            self.complain("E013", &node.id, message);
            return;
        }
        self.declared.insert(at, node.id.as_str().to_string());
        let is_collection = node.is_collection();
        let mut conflict: Option<String> = None;
        let mut known = false;
        if let Some(existing) = self.model.get(&scope, key.as_str()) {
            known = true;
            if existing.ty != node.source_type || existing.is_collection != is_collection {
                let mut message = "canonical key `".to_string();
                message.push_str(key.as_str());
                message.push_str("` is declared as ");
                message.push_str(words_of_type(node.source_type, is_collection).as_str());
                message.push_str(" here but ");
                message.push_str(words_of_type(existing.ty, existing.is_collection).as_str());
                message.push_str(" elsewhere");
                conflict = Some(message);
            }
        }
        if let Some(message) = conflict {
            self.complain("E010", &node.id, message);
        } else if !known {
            self.take_key(node, key, scope);
        }
    }

    /// Takes one node of a spoke into account.
    fn node(&mut self, mapping: &MappingIr, node: &SourceNode)
        requires
            scopes_ascend(mapping@.nodes),
        ensures
            final(self).state() == derive_node(old(self).state(), mapping@.nodes, node@),
    {
        let key = match &node.canonical_key {
            None => {
                return;
            },
            Some(k) => k.clone(),
        };
        match canonical_scope_of(node, mapping) {
            Some(scope) => {
                self.declare(node, key, scope);
            },
            None => {
                if let Scope::Collection(coll) = &node.scope {
                    let mut message = "node `".to_string();
                    message.push_str(node.id.as_str());
                    message.push_str("` maps `");
                    message.push_str(key.as_str());
                    message.push_str("` inside collection `");
                    message.push_str(coll.as_str());
                    message.push_str("`, but that collection has no canonical_key");
                    self.complain("E011", &node.id, message);
                }
            },
        }
    }
}

/// Derives the hub from the spokes: the union of their canonical keys, and an
/// error for every key that cannot be part of it.
pub fn derive_hub(mappings: &[&MappingIr]) -> (r: (CanonicalModel, Vec<Diagnostic>))
    requires
        forall|m: int| 0 <= m < mappings@.len() ==> scopes_ascend((#[trigger] mappings@[m])@.nodes),
    ensures
        r.0@ == derived(mappings.deep_view()).hub,
        r.1.deep_view() == derived(mappings.deep_view()).diags,
{
    let mut d = Derivation {
        model: CanonicalModel::default(),
        collections: OrdMap::new(),
        names: OrdMap::new(),
        declared: OrdMap::new(),
        diags: Vec::new(),
    };
    let ghost views = mappings.deep_view();
    assert(d.diags.deep_view() =~= Seq::<DiagnosticV>::empty());
    let mut m: usize = 0;
    while m < mappings.len()
        invariant
            m <= mappings@.len(),
            views == mappings.deep_view(),
            forall|k: int|
                0 <= k < mappings@.len() ==> scopes_ascend((#[trigger] mappings@[k])@.nodes),
            d.state() == derived(views.take(m as int)),
        decreases mappings@.len() - m,
    {
        let mapping: &MappingIr = mappings[m];
        let ghost nodes = mapping@.nodes;
        let ghost start = d.state();
        d.declared = OrdMap::new();
        assert(scopes_ascend(mappings@[m as int]@.nodes));
        let mut i: usize = 0;
        while i < mapping.nodes.len()
            invariant
                i <= nodes.len(),
                nodes == mapping@.nodes,
                scopes_ascend(nodes),
                d.state() == derive_nodes(start, nodes, i as int),
            decreases nodes.len() - i,
        {
            d.node(mapping, mapping.nodes.value_at(i));
            i += 1;
        }
        proof {
            assert(views.take(m + 1).drop_last() =~= views.take(m as int));
            assert(views.take(m + 1).last() == mapping@);
        }
        m += 1;
    }
    assert(views.take(views.len() as int) =~= views);
    (d.model, d.diags)
}

} // verus!
