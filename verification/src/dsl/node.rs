//! Mapping nodes: ids, scopes, nodes as written, and nodes as compiled.
use vstd::prelude::*;

use crate::dsl::meta::{clone_opt, clone_strings};
use crate::dsl::multiple::MultiplePolicy;
use crate::dsl::normalize::NormalizeOp;
use crate::dsl::types::MappingType;
use crate::ordmap::Key;
use crate::text::{chars_of, less, lt, rfind, same, split, split_at_char, string_of, Text};

verus! {

/// A dotted node id such as `Invoice.LegalMonetaryTotal`.
#[derive(Debug, PartialEq, Eq, PartialOrd, Ord, Hash)]
pub struct NodeId(String);

impl View for NodeId {
    type V = Text;

    closed spec fn view(&self) -> Text {
        self.0@
    }
}

impl DeepView for NodeId {
    type V = Text;

    open spec fn deep_view(&self) -> Text {
        self@
    }
}

impl Clone for NodeId {
    fn clone(&self) -> (r: NodeId)
        ensures
            r@ == self@,
    {
        NodeId(self.0.clone())
    }
}

impl Key for NodeId {
    open spec fn before(a: Text, b: Text) -> bool {
        lt(a, b)
    }

    proof fn irreflexive(a: Text) {
        crate::text::lemma_lt_irreflexive(a);
    }

    proof fn transitive(a: Text, b: Text, c: Text) {
        crate::text::lemma_lt_transitive(a, b, c);
    }

    proof fn total(a: Text, b: Text) {
        crate::text::lemma_lt_total(a, b);
    }

    fn precedes(&self, other: &Self) -> (r: bool) {
        less(self.0.as_str(), other.0.as_str())
    }

    fn equals(&self, other: &Self) -> (r: bool) {
        same(self.0.as_str(), other.0.as_str())
    }
}

/// The id one level up: what stands before the last dot.
pub open spec fn parent_of(id: Text) -> Option<Text> {
    let i = rfind(id, '.');
    if i < 0 {
        None
    } else {
        Some(id.take(i))
    }
}

/// Whether `id` lies below `ancestor`: it is `ancestor`, a dot, and more.
pub open spec fn descends_from(id: Text, ancestor: Text) -> bool {
    ancestor.push('.').is_prefix_of(id)
}

/// The nearest proper ancestor of `id` that satisfies `is_collection`.
pub open spec fn nearest(id: Text, is_collection: spec_fn(Text) -> bool) -> Option<Text>
    decreases id.len(),
{
    match parent_of(id) {
        None => None,
        Some(a) => if a.len() >= id.len() {
            None
        } else if is_collection(a) {
            Some(a)
        } else {
            nearest(a, is_collection)
        },
    }
}

/// A parent is shorter than its child.
pub proof fn lemma_parent_shorter(id: Text)
    ensures
        parent_of(id) matches Some(a) ==> a.len() < id.len() && descends_from(id, a),
{
    crate::text::lemma_rfind(id, '.');
    let i = rfind(id, '.');
    if i >= 0 {
        assert(id.take(i).push('.') =~= id.subrange(0, i + 1));
    }
}

/// Descending is transitive.
pub proof fn lemma_descends_transitive(a: Text, b: Text, c: Text)
    requires
        descends_from(a, b),
        descends_from(b, c),
    ensures
        descends_from(a, c),
{
    assert(a.subrange(0, c.push('.').len() as int) =~= c.push('.')) by {
        assert(b.subrange(0, c.push('.').len() as int) =~= c.push('.'));
        assert(a.subrange(0, b.push('.').len() as int) =~= b.push('.'));
        assert forall|i: int| 0 <= i < c.push('.').len() implies a[i] == #[trigger] c.push(
            '.',
        )[i] by {
            assert(a.subrange(0, b.push('.').len() as int)[i] == b.push('.')[i]);
            assert(b.subrange(0, c.push('.').len() as int)[i] == c.push('.')[i]);
        }
    }
}

/// The nearest collection above a node is a proper ancestor of it, and is one.
pub proof fn lemma_nearest(id: Text, is_collection: spec_fn(Text) -> bool)
    ensures
        nearest(id, is_collection) matches Some(a) ==> a.len() < id.len() && is_collection(a)
            && descends_from(id, a),
    decreases id.len(),
{
    lemma_parent_shorter(id);
    if let Some(a) = parent_of(id) {
        if !is_collection(a) {
            lemma_nearest(a, is_collection);
            if let Some(b) = nearest(a, is_collection) {
                lemma_descends_transitive(id, a, b);
            }
        }
    }
}

/// What lies above a node is its parent or lies above its parent.
proof fn lemma_above_is_parent_or_higher(id: Text, a: Text)
    requires
        descends_from(id, a),
    ensures
        parent_of(id) is Some,
        a.len() <= parent_of(id)->0.len(),
        a == parent_of(id)->0 || descends_from(parent_of(id)->0, a),
{
    crate::text::lemma_rfind(id, '.');
    let i = rfind(id, '.');
    let n = a.len() as int;
    let head = a.push('.');
    assert(id.subrange(0, n + 1) =~= head);
    assert(id[n] == head[n]);
    assert(n <= i);
    assert forall|k: int| 0 <= k < n implies id[k] == a[k] by {
        assert(id.subrange(0, n + 1)[k] == head[k]);
    }
    let p = id.take(i);
    if n == i {
        assert(p =~= a);
    } else {
        assert(p.subrange(0, n + 1) =~= head);
    }
}

/// The nearest collection above a node is the longest of its proper ancestors that
/// is one; there is none exactly where no proper ancestor is one.
pub proof fn law_nearest_is_longest(id: Text, is_collection: spec_fn(Text) -> bool, a: Text)
    requires
        descends_from(id, a),
        is_collection(a),
    ensures
        nearest(id, is_collection) matches Some(n) && is_collection(n) && descends_from(id, n)
            && n.len() >= a.len() && (n.len() == a.len() ==> n == a),
    decreases id.len(),
{
    lemma_parent_shorter(id);
    lemma_above_is_parent_or_higher(id, a);
    let p = parent_of(id)->0;
    if !is_collection(p) {
        law_nearest_is_longest(p, is_collection, a);
        lemma_descends_transitive(id, p, nearest(p, is_collection)->0);
    }
}

/// Two ancestors of a node with the same length are the same.
proof fn lemma_same_ancestor(id: Text, a: Text, b: Text)
    requires
        descends_from(id, a),
        descends_from(id, b),
        a.len() == b.len(),
    ensures
        a == b,
{
    let n = a.len() as int;
    assert(id.subrange(0, n + 1) == a.push('.') && id.subrange(0, n + 1) == b.push('.'));
    assert(a =~= a.push('.').take(n));
    assert(b =~= b.push('.').take(n));
}

/// Of two ancestors of a node the longer one lies below the other.
proof fn lemma_longer_is_below(id: Text, a: Text, b: Text)
    requires
        descends_from(id, a),
        descends_from(id, b),
        b.len() < a.len(),
    ensures
        descends_from(a, b),
{
    let (n, m) = (b.len() as int, a.len() as int);
    assert(id.subrange(0, m + 1) == a.push('.'));
    assert forall|k: int| 0 <= k <= n implies a[k] == #[trigger] b.push('.')[k] by {
        assert(id.subrange(0, n + 1)[k] == b.push('.')[k]);
        assert(id.subrange(0, m + 1)[k] == a.push('.')[k]);
    }
    assert(a.subrange(0, n + 1) =~= b.push('.'));
}

/// Every ancestor of a node that is longer than the parent of one of them is no
/// shorter than that one.
proof fn lemma_none_between(id: Text, below: Text, a: Text)
    requires
        below == id || descends_from(id, below),
        parent_of(below) == Some(a),
    ensures
        forall|b: Text|
            #[trigger] descends_from(id, b) && b.len() > a.len() ==> b.len() >= below.len(),
{
    assert forall|b: Text| #[trigger] descends_from(id, b) && b.len() > a.len() implies b.len()
        >= below.len() by {
        if b.len() < below.len() {
            if below != id {
                lemma_longer_is_below(id, below, b);
            }
            lemma_above_is_parent_or_higher(below, b);
        }
    }
}

/// Whether a predicate on nodes may deny the node with this id.
pub open spec fn denied<F: Fn(&NodeId) -> bool>(is_collection: F, a: Text) -> bool {
    exists|n: NodeId| n@ == a && #[trigger] call_ensures(is_collection, (&n,), false)
}

/// Whether a predicate on nodes may deny every ancestor of `id` that is nearer
/// than `a`.
pub open spec fn nearer_denied<F: Fn(&NodeId) -> bool>(
    is_collection: F,
    id: Text,
    a: Text,
) -> bool {
    forall|b: Text|
        #[trigger] descends_from(id, b) && b.len() > a.len() ==> denied(is_collection, b)
}

/// Where a node stands: at the root, or inside a collection.
#[derive(Debug, PartialEq, Eq, PartialOrd, Ord, Hash)]
pub enum Scope {
    /// Not inside any collection.
    Root,
    /// Inside the collection with this id.
    Collection(NodeId),
}

impl View for Scope {
    type V = Option<Text>;

    /// The id of the surrounding collection, if there is one.
    open spec fn view(&self) -> Option<Text> {
        match self {
            Scope::Root => None,
            Scope::Collection(id) => Some(id@),
        }
    }
}

impl DeepView for Scope {
    type V = Option<Text>;

    open spec fn deep_view(&self) -> Option<Text> {
        self@
    }
}

impl Clone for Scope {
    fn clone(&self) -> (r: Scope)
        ensures
            r@ == self@,
    {
        match self {
            Scope::Root => Scope::Root,
            Scope::Collection(id) => Scope::Collection(id.clone()),
        }
    }
}

impl NodeId {
    /// An id from its text.
    pub fn new(id: &str) -> (r: NodeId)
        ensures
            r@ == id@,
    {
        NodeId(id.to_string())
    }

    /// The text of the id.
    pub fn as_str(&self) -> (s: &str)
        ensures
            s@ == self@,
    {
        self.0.as_str()
    }

    /// The segments between the dots.
    pub fn segments(&self) -> (r: Vec<String>)
        ensures
            r.deep_view() == split(self@, '.'),
            r@.len() > 0,
    {
        split_at_char(self.0.as_str(), '.')
    }

    /// The id one level up, if the id has a dot.
    pub fn parent(&self) -> (r: Option<NodeId>)
        ensures
            r.deep_view() == parent_of(self@),
    {
        let chars = chars_of(self.0.as_str());
        let mut i: usize = chars.len();
        assert(chars@.take(i as int) =~= chars@);
        while i > 0
            invariant
                i <= chars.len(),
                chars@ == self@,
                rfind(chars@, '.') == rfind(chars@.take(i as int), '.'),
            decreases i,
        {
            if chars[i - 1] == '.' {
                let head = string_of(&chars, 0, i - 1);
                assert(chars@.subrange(0, i - 1) =~= self@.take(i - 1));
                return Some(NodeId(head));
            }
            proof {
                assert(chars@.take(i as int).drop_last() =~= chars@.take(i - 1));
            }
            i -= 1;
        }
        None
    }

    /// Whether this id lies below `ancestor`.
    pub fn is_descendant_of(&self, ancestor: &NodeId) -> (r: bool)
        ensures
            r == descends_from(self@, ancestor@),
    {
        let mut prefix = ancestor.0.clone();
        prefix.push('.');
        crate::text::starts_with(self.0.as_str(), prefix.as_str())
    }

    /// The scope of this id: its nearest proper ancestor that is a collection. The
    /// predicate is asked about proper ancestors alone, the nearest first, and about
    /// none behind the first that it affirms.
    pub fn nearest_collection_scope<F: Fn(&NodeId) -> bool>(&self, is_collection: F) -> (r: Scope)
        requires
            forall|a: &NodeId|
                descends_from(self@, a@) && nearer_denied(is_collection, self@, a@)
                    ==> #[trigger] call_requires(is_collection, (a,)),
        ensures
            forall|p: spec_fn(Text) -> bool|
                (forall|a: &NodeId, b: bool|
                    descends_from(self@, a@) && #[trigger] call_ensures(is_collection, (a,), b)
                        ==> b == p(a@)) ==> r@ == #[trigger] nearest(self@, p),
    {
        let mut ancestor = self.parent();
        proof {
            lemma_parent_shorter(self@);
        }
        let ghost mut below = self@;
        loop
            invariant
                forall|a: &NodeId|
                    descends_from(self@, a@) && nearer_denied(is_collection, self@, a@)
                        ==> #[trigger] call_requires(is_collection, (a,)),
                ancestor.deep_view() == parent_of(below),
                below == self@ || descends_from(self@, below),
                forall|b: Text|
                    #[trigger] descends_from(self@, b) && b.len() >= below.len() ==> denied(
                        is_collection,
                        b,
                    ),
                forall|p: spec_fn(Text) -> bool|
                    (forall|a: &NodeId, b: bool|
                        descends_from(self@, a@) && #[trigger] call_ensures(
                            is_collection,
                            (a,),
                            b,
                        ) ==> b == p(a@)) ==> #[trigger] nearest(self@, p) == nearest(below, p),
            decreases below.len(),
        {
            proof {
                lemma_parent_shorter(below);
            }
            match ancestor {
                None => {
                    return Scope::Root;
                },
                Some(a) => {
                    proof {
                        if below != self@ {
                            lemma_descends_transitive(self@, below, a@);
                        }
                        lemma_none_between(self@, below, a@);
                    }
                    if is_collection(&a) {
                        return Scope::Collection(a);
                    }
                    ancestor = a.parent();
                    proof {
                        assert(denied(is_collection, a@));
                        assert forall|b: Text|
                            #[trigger] descends_from(self@, b) && b.len() >= a@.len() implies denied(
                            is_collection,
                            b,
                        ) by {
                            if b.len() == a@.len() {
                                lemma_same_ancestor(self@, a@, b);
                            }
                        }
                        below = a@;
                    }
                },
            }
        }
    }
}

/// A mapping node as its file writes it.
#[derive(Debug, PartialEq, Eq)]
pub struct RawNode {
    pub xml: Option<String>,
    pub ty: Option<MappingType>,
    pub canonical_key: Option<String>,
    pub required: Option<bool>,
    pub fallbacks: Option<Vec<String>>,
    pub description: Option<String>,
    pub min_items: Option<usize>,
    pub multiple: Option<MultiplePolicy>,
    pub join_with: Option<String>,
    pub normalize: Option<Vec<NormalizeOp>>,
    pub adapter: Option<String>,
    pub constant: Option<String>,
    pub clone_of: Option<String>,
    pub disabled: Option<bool>,
}

/// The model of a [`RawNode`].
#[verifier::ext_equal]
pub struct RawV {
    pub xml: Option<Text>,
    pub ty: Option<MappingType>,
    pub canonical_key: Option<Text>,
    pub required: Option<bool>,
    pub fallbacks: Option<Seq<Text>>,
    pub description: Option<Text>,
    pub min_items: Option<usize>,
    pub multiple: Option<MultiplePolicy>,
    pub join_with: Option<Text>,
    pub normalize: Option<Seq<NormalizeOp>>,
    pub adapter: Option<Text>,
    pub constant: Option<Text>,
    pub clone_of: Option<Text>,
    pub disabled: Option<bool>,
}

impl View for RawNode {
    type V = RawV;

    open spec fn view(&self) -> RawV {
        RawV {
            xml: self.xml.deep_view(),
            ty: self.ty,
            canonical_key: self.canonical_key.deep_view(),
            required: self.required,
            fallbacks: self.fallbacks.deep_view(),
            description: self.description.deep_view(),
            min_items: self.min_items,
            multiple: self.multiple,
            join_with: self.join_with.deep_view(),
            normalize: self.normalize.deep_view(),
            adapter: self.adapter.deep_view(),
            constant: self.constant.deep_view(),
            clone_of: self.clone_of.deep_view(),
            disabled: self.disabled,
        }
    }
}

impl DeepView for RawNode {
    type V = RawV;

    open spec fn deep_view(&self) -> RawV {
        self@
    }
}

/// A node that writes no field.
pub open spec fn empty_raw() -> RawV {
    RawV {
        xml: None,
        ty: None,
        canonical_key: None,
        required: None,
        fallbacks: None,
        description: None,
        min_items: None,
        multiple: None,
        join_with: None,
        normalize: None,
        adapter: None,
        constant: None,
        clone_of: None,
        disabled: None,
    }
}

impl Default for RawNode {
    fn default() -> (r: RawNode)
        ensures
            r@ == empty_raw(),
    {
        RawNode {
            xml: None,
            ty: None,
            canonical_key: None,
            required: None,
            fallbacks: None,
            description: None,
            min_items: None,
            multiple: None,
            join_with: None,
            normalize: None,
            adapter: None,
            constant: None,
            clone_of: None,
            disabled: None,
        }
    }
}

/// A copy of a list of normalization steps.
pub fn clone_ops(v: &Vec<NormalizeOp>) -> (r: Vec<NormalizeOp>)
    ensures
        r@ == v@,
{
    let mut r: Vec<NormalizeOp> = Vec::new();
    let mut i: usize = 0;
    while i < v.len()
        invariant
            i <= v.len(),
            r@ =~= v@.take(i as int),
        decreases v.len() - i,
    {
        r.push(v[i]);
        i += 1;
    }
    assert(v@.take(v.len() as int) =~= v@);
    r
}

impl Clone for RawNode {
    fn clone(&self) -> (r: RawNode)
        ensures
            r@ == self@,
    {
        RawNode {
            xml: clone_opt(&self.xml),
            ty: self.ty,
            canonical_key: clone_opt(&self.canonical_key),
            required: self.required,
            fallbacks: match &self.fallbacks {
                Some(v) => Some(clone_strings(v)),
                None => None,
            },
            description: clone_opt(&self.description),
            min_items: self.min_items,
            multiple: self.multiple,
            join_with: clone_opt(&self.join_with),
            normalize: match &self.normalize {
                Some(v) => Some(clone_ops(v)),
                None => None,
            },
            adapter: clone_opt(&self.adapter),
            constant: clone_opt(&self.constant),
            clone_of: clone_opt(&self.clone_of),
            disabled: self.disabled,
        }
    }
}

/// Whether a node switches itself off.
pub open spec fn raw_disabled(n: RawV) -> bool {
    n.disabled == Some(true)
}

impl RawNode {
    /// Whether the node switches itself off.
    pub fn is_disabled(&self) -> (r: bool)
        ensures
            r == raw_disabled(self@),
    {
        self.disabled.unwrap_or(false)
    }

    /// Whether the node writes any field but `description` and `disabled`.
    pub fn has_active_field(&self) -> (r: bool)
        ensures
            r == (self@ != (RawV {
                description: self@.description,
                disabled: self@.disabled,
                ..empty_raw()
            })),
    {
        self.xml.is_some() || self.ty.is_some() || self.canonical_key.is_some()
            || self.required.is_some() || self.fallbacks.is_some() || self.min_items.is_some()
            || self.multiple.is_some() || self.join_with.is_some() || self.normalize.is_some()
            || self.adapter.is_some() || self.constant.is_some() || self.clone_of.is_some()
    }
}

/// A mapping node with every default filled in.
#[derive(Debug, PartialEq, Eq)]
pub struct SourceNode {
    pub id: NodeId,
    pub scope: Scope,
    pub source_path: String,
    pub source_type: MappingType,
    pub canonical_key: Option<String>,
    pub required: bool,
    pub fallbacks: Vec<NodeId>,
    pub multiple: Option<MultiplePolicy>,
    pub min_items: Option<usize>,
    pub join_with: Option<String>,
    pub normalize: Vec<NormalizeOp>,
    pub adapter: Option<String>,
    pub constant: Option<String>,
    pub clone_of: Option<String>,
    pub description: Option<String>,
}

/// The model of a [`SourceNode`].
#[verifier::ext_equal]
pub struct NodeV {
    pub id: Text,
    pub scope: Option<Text>,
    pub source_path: Text,
    pub source_type: MappingType,
    pub canonical_key: Option<Text>,
    pub required: bool,
    pub fallbacks: Seq<Text>,
    pub multiple: Option<MultiplePolicy>,
    pub min_items: Option<usize>,
    pub join_with: Option<Text>,
    pub normalize: Seq<NormalizeOp>,
    pub adapter: Option<Text>,
    pub constant: Option<Text>,
    pub clone_of: Option<Text>,
    pub description: Option<Text>,
}

impl View for SourceNode {
    type V = NodeV;

    open spec fn view(&self) -> NodeV {
        NodeV {
            id: self.id@,
            scope: self.scope@,
            source_path: self.source_path@,
            source_type: self.source_type,
            canonical_key: self.canonical_key.deep_view(),
            required: self.required,
            fallbacks: self.fallbacks.deep_view(),
            multiple: self.multiple,
            min_items: self.min_items,
            join_with: self.join_with.deep_view(),
            normalize: self.normalize.deep_view(),
            adapter: self.adapter.deep_view(),
            constant: self.constant.deep_view(),
            clone_of: self.clone_of.deep_view(),
            description: self.description.deep_view(),
        }
    }
}

impl DeepView for SourceNode {
    type V = NodeV;

    open spec fn deep_view(&self) -> NodeV {
        self@
    }
}

impl Clone for SourceNode {
    fn clone(&self) -> (r: SourceNode)
        ensures
            r@ == self@,
    {
        let mut fallbacks: Vec<NodeId> = Vec::new();
        let mut i: usize = 0;
        while i < self.fallbacks.len()
            invariant
                i <= self.fallbacks.len(),
                fallbacks.deep_view() =~= self.fallbacks.deep_view().take(i as int),
            decreases self.fallbacks.len() - i,
        {
            let ghost before = fallbacks.deep_view();
            fallbacks.push(self.fallbacks[i].clone());
            assert(fallbacks.deep_view() =~= before.push(self.fallbacks.deep_view()[i as int]));
            i += 1;
        }
        assert(fallbacks.deep_view() =~= self.fallbacks.deep_view());
        SourceNode {
            id: self.id.clone(),
            scope: self.scope.clone(),
            source_path: self.source_path.clone(),
            source_type: self.source_type,
            canonical_key: clone_opt(&self.canonical_key),
            required: self.required,
            fallbacks,
            multiple: self.multiple,
            min_items: self.min_items,
            join_with: clone_opt(&self.join_with),
            normalize: clone_ops(&self.normalize),
            adapter: clone_opt(&self.adapter),
            constant: clone_opt(&self.constant),
            clone_of: clone_opt(&self.clone_of),
            description: clone_opt(&self.description),
        }
    }
}

/// The least number of items a collection must have: as declared, or one if it
/// is required, or none.
pub open spec fn min_items_of(n: NodeV) -> usize {
    match n.min_items {
        Some(k) => k,
        None => if n.required {
            1
        } else {
            0
        },
    }
}

impl SourceNode {
    /// Whether the node is a collection.
    pub fn is_collection(&self) -> (r: bool)
        ensures
            r == (self@.source_type == MappingType::Collection),
    {
        self.source_type.is_collection()
    }

    /// Whether the node maps to no canonical key.
    pub fn is_helper(&self) -> (r: bool)
        ensures
            r == (self@.canonical_key is None),
    {
        self.canonical_key.is_none()
    }

    /// The least number of items the collection must have.
    pub fn effective_min_items(&self) -> (k: usize)
        ensures
            k == min_items_of(self@),
    {
        self.min_items.unwrap_or(
            if self.required {
                1
            } else {
                0
            },
        )
    }
}

} // verus!
