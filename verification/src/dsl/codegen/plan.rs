//! Sorting the nodes of a mapping by what code is generated for them.
use vstd::prelude::*;

use crate::dsl::ir::{scopes_ascend, IrNodesV, MappingIr};
use crate::dsl::multiple::MultiplePolicy;
use crate::dsl::node::{NodeId, NodeV, Scope, SourceNode};
use crate::dsl::source_model::meta::SourceModelMeta;
use crate::dsl::types::MappingType;
use crate::ordmap::{ascending, lookup, OrdMap};
use crate::text::{chars_of, Text};

verus! {

/// What code is generated for a node.
#[derive(Clone, Copy)]
pub enum Role {
    /// A value that maps to a canonical key.
    Scalar,
    /// A collection that maps to a canonical key.
    Collection,
    /// A constant written to the source.
    Constant,
    /// A second place of a canonical value.
    Clone,
}

/// Whether a node has a role.
pub open spec fn plays(n: NodeV, role: Role) -> bool {
    let collection = n.source_type == MappingType::Collection;
    match role {
        Role::Scalar => !collection && n.canonical_key is Some,
        Role::Collection => collection && n.canonical_key is Some,
        Role::Constant => !collection && n.constant is Some,
        Role::Clone => !collection && n.clone_of is Some,
    }
}

/// Those of the first `n` nodes that stand in a scope and have a role.
pub open spec fn picked_upto(nodes: IrNodesV, role: Role, scope: Option<Text>, n: int) -> Seq<NodeV>
    decreases n,
{
    if n <= 0 {
        Seq::empty()
    } else {
        let head = picked_upto(nodes, role, scope, n - 1);
        let node = nodes[n - 1].1;
        if node.scope == scope && plays(node, role) {
            head.push(node)
        } else {
            head
        }
    }
}

/// The nodes that stand in a scope and have a role, in id order.
pub open spec fn picked(nodes: IrNodesV, role: Role, scope: Option<Text>) -> Seq<NodeV> {
    picked_upto(nodes, role, scope, nodes.len() as int)
}

/// A picked node is one of the nodes, stands in the scope and has the role.
proof fn lemma_picked(nodes: IrNodesV, role: Role, scope: Option<Text>, n: int)
    requires
        0 <= n <= nodes.len(),
    ensures
        forall|j: int|
            #![trigger picked_upto(nodes, role, scope, n)[j]]
            0 <= j < picked_upto(nodes, role, scope, n).len() ==> {
                let p = picked_upto(nodes, role, scope, n)[j];
                &&& p.scope == scope
                &&& plays(p, role)
                &&& exists|i: int| 0 <= i < n && (#[trigger] nodes[i]).1 == p
            },
    decreases n,
{
    if n > 0 {
        lemma_picked(nodes, role, scope, n - 1);
        let a = picked_upto(nodes, role, scope, n - 1);
        let b = picked_upto(nodes, role, scope, n);
        assert forall|j: int| 0 <= j < b.len() implies ({
            let p = #[trigger] b[j];
            &&& p.scope == scope
            &&& plays(p, role)
            &&& exists|i: int| 0 <= i < n && (#[trigger] nodes[i]).1 == p
        }) by {
            if j < a.len() {
                assert(b[j] == a[j]);
                let i = choose|i: int| 0 <= i < n - 1 && (#[trigger] nodes[i]).1 == a[j];
                assert(nodes[i].1 == b[j]);
            } else {
                assert(nodes[n - 1].1 == b[j]);
            }
        }
    }
}

/// The picked nodes have the role.
pub proof fn lemma_picked_play(nodes: IrNodesV, role: Role, scope: Option<Text>)
    ensures
        forall|j: int|
            #![trigger picked(nodes, role, scope)[j]]
            0 <= j < picked(nodes, role, scope).len() ==> plays(
                picked(nodes, role, scope)[j],
                role,
            ),
{
    lemma_picked(nodes, role, scope, nodes.len() as int);
}

proof fn lemma_all_picked(nodes: IrNodesV, role: Role, scope: Option<Text>, n: int, i: int)
    requires
        0 <= i < n <= nodes.len(),
        nodes[i].1.scope == scope,
        plays(nodes[i].1, role),
    ensures
        picked_upto(nodes, role, scope, n).contains(nodes[i].1),
    decreases n,
{
    let head = picked_upto(nodes, role, scope, n - 1);
    let all = picked_upto(nodes, role, scope, n);
    if i == n - 1 {
        assert(all[all.len() - 1] == nodes[i].1);
    } else {
        lemma_all_picked(nodes, role, scope, n - 1, i);
        let j = choose|j: int| 0 <= j < head.len() && head[j] == nodes[i].1;
        assert(all[j] == nodes[i].1);
    }
}

/// A plan holds a node under a role and a scope exactly where the node stands in
/// that scope and has that role: no mapped node is forgotten, and none appears
/// where it does not belong.
pub proof fn law_plan_holds_every_node(nodes: IrNodesV, role: Role, scope: Option<Text>, i: int)
    requires
        0 <= i < nodes.len(),
    ensures
        nodes[i].1.scope == scope && plays(nodes[i].1, role) ==> picked(
            nodes,
            role,
            scope,
        ).contains(nodes[i].1),
        forall|j: int|
            #![trigger picked(nodes, role, scope)[j]]
            0 <= j < picked(nodes, role, scope).len() ==> {
                let p = picked(nodes, role, scope)[j];
                &&& p.scope == scope
                &&& plays(p, role)
                &&& exists|k: int| 0 <= k < nodes.len() && (#[trigger] nodes[k]).1 == p
            },
{
    let n = nodes.len() as int;
    lemma_picked(nodes, role, scope, n);
    if nodes[i].1.scope == scope && plays(nodes[i].1, role) {
        lemma_all_picked(nodes, role, scope, n, i);
    }
}

/// What the generators of one spoke work on.
pub struct GenCtx<'a> {
    /// The mapping.
    pub ir: &'a MappingIr,
    /// Its source model.
    pub source: &'a SourceModelMeta,
    /// Its nodes by role.
    pub plan: &'a MappingPlan<'a>,
}

impl<'a> GenCtx<'a> {
    /// Whether the lists are those of the mapping.
    pub open spec fn wf(&self) -> bool {
        self.plan.wf() && self.plan.nodes() == self.ir@.nodes
    }
}

/// Where the code of a collection stands: how deep, behind which indentation, and
/// between which variables.
pub struct Frame<'a> {
    pub depth: usize,
    pub pad: &'a str,
    pub parent_hub: &'a str,
    pub parent_src: &'a str,
    pub parent_struct: &'a str,
    pub owned: bool,
}

/// The model of a [`Frame`].
#[verifier::ext_equal]
pub struct FrameV {
    pub depth: nat,
    pub pad: Text,
    pub parent_hub: Text,
    pub parent_src: Text,
    pub parent_struct: Text,
    pub owned: bool,
}

/// Whether code can be generated for the nodes: ids grow with the nesting, and
/// values that are joined say with what.
pub open spec fn generable(nodes: IrNodesV) -> bool {
    &&& scopes_ascend(nodes)
    &&& forall|i: int|
        0 <= i < nodes.len() && plays((#[trigger] nodes[i]).1, Role::Scalar) ==> joins(nodes[i].1)
}

/// Whether a node says with what its values are joined, if they are.
pub open spec fn joins(n: NodeV) -> bool {
    n.multiple == Some(MultiplePolicy::Join) ==> n.join_with is Some
}

/// The length of the longest id of the first `n` nodes.
pub open spec fn longest(nodes: IrNodesV, n: int) -> nat
    decreases n,
{
    if n <= 0 {
        0
    } else {
        let l = longest(nodes, n - 1);
        if nodes[n - 1].0.len() > l {
            nodes[n - 1].0.len()
        } else {
            l
        }
    }
}

/// The number of characters of an id.
pub fn id_len(id: &NodeId) -> (n: usize)
    ensures
        n == id@.len(),
{
    chars_of(id.as_str()).len()
}

/// How many more levels an id can have below it.
pub open spec fn room(nodes: IrNodesV, id: Text) -> int {
    longest(nodes, nodes.len() as int) - id.len()
}

proof fn lemma_longest(nodes: IrNodesV, n: int, i: int)
    requires
        0 <= i < n <= nodes.len(),
    ensures
        nodes[i].0.len() <= longest(nodes, n),
    decreases n,
{
    if i < n - 1 {
        lemma_longest(nodes, n - 1, i);
    }
}

/// A nested collection has less room than the collection around it.
pub proof fn lemma_room(nodes: IrNodesV, coll: Text)
    requires
        scopes_ascend(nodes),
    ensures
        forall|j: int|
            #![trigger picked(nodes, Role::Collection, Some(coll))[j]]
            0 <= j < picked(nodes, Role::Collection, Some(coll)).len() ==> {
                let p = picked(nodes, Role::Collection, Some(coll))[j];
                &&& p.id.len() > coll.len()
                &&& 0 <= room(nodes, p.id) < room(nodes, coll)
            },
{
    let list = picked(nodes, Role::Collection, Some(coll));
    lemma_picked(nodes, Role::Collection, Some(coll), nodes.len() as int);
    assert forall|j: int| 0 <= j < list.len() implies (#[trigger] list[j]).id.len() > coll.len()
        && 0 <= room(nodes, list[j].id) < room(nodes, coll) by {
        let i = choose|i: int| 0 <= i < nodes.len() && (#[trigger] nodes[i]).1 == list[j];
        lemma_longest(nodes, nodes.len() as int, i);
    }
}

/// The picked scalars of nodes that code can be generated for.
pub proof fn lemma_picked_scalars(nodes: IrNodesV, scope: Option<Text>)
    requires
        generable(nodes),
    ensures
        forall|j: int|
            #![trigger picked(nodes, Role::Scalar, scope)[j]]
            0 <= j < picked(nodes, Role::Scalar, scope).len() ==> plays(
                picked(nodes, Role::Scalar, scope)[j],
                Role::Scalar,
            ) && joins(picked(nodes, Role::Scalar, scope)[j]),
{
    let list = picked(nodes, Role::Scalar, scope);
    lemma_picked(nodes, Role::Scalar, scope, nodes.len() as int);
    assert forall|j: int| 0 <= j < list.len() implies plays(#[trigger] list[j], Role::Scalar)
        && joins(list[j]) by {
        let i = choose|i: int| 0 <= i < nodes.len() && (#[trigger] nodes[i]).1 == list[j];
        assert(plays(nodes[i].1, Role::Scalar));
    }
}

impl<'a> View for Frame<'a> {
    type V = FrameV;

    open spec fn view(&self) -> FrameV {
        FrameV {
            depth: self.depth as nat,
            pad: self.pad@,
            parent_hub: self.parent_hub@,
            parent_src: self.parent_src@,
            parent_struct: self.parent_struct@,
            owned: self.owned,
        }
    }
}

/// The lists of nodes of one role by surrounding collection.
pub type ListsV = Seq<(Text, Seq<NodeV>)>;

/// The list of a collection, empty if there is none.
pub open spec fn list_of(lists: ListsV, coll: Text) -> Seq<NodeV> {
    match lookup::<NodeId, Seq<NodeV>>(lists, coll) {
        Some(l) => l,
        None => Seq::empty(),
    }
}

/// Whether `lists` holds, for every collection, those of the first `n` nodes
/// inside it that have a role.
pub open spec fn lists_picked(lists: ListsV, nodes: IrNodesV, role: Role, n: int) -> bool {
    &&& ascending::<NodeId, Seq<NodeV>>(lists)
    &&& forall|coll: Text|
        #[trigger] list_of(lists, coll) == picked_upto(nodes, role, Some(coll), n)
}

/// The nodes of a mapping by role and scope.
pub struct MappingPlan<'a> {
    root_scalars: Vec<&'a SourceNode>,
    root_collections: Vec<&'a SourceNode>,
    root_constants: Vec<&'a SourceNode>,
    root_clones: Vec<&'a SourceNode>,
    children_by_collection: OrdMap<NodeId, Vec<&'a SourceNode>>,
    nested_by_collection: OrdMap<NodeId, Vec<&'a SourceNode>>,
    constants_by_collection: OrdMap<NodeId, Vec<&'a SourceNode>>,
    clones_by_collection: OrdMap<NodeId, Vec<&'a SourceNode>>,
    all: Ghost<IrNodesV>,
}

/// A copy of a list of nodes.
fn copy_list<'a>(list: &Vec<&'a SourceNode>) -> (r: Vec<&'a SourceNode>)
    ensures
        r@ == list@,
{
    let mut r: Vec<&'a SourceNode> = Vec::new();
    let mut i: usize = 0;
    while i < list.len()
        invariant
            i <= list.len(),
            r@ =~= list@.take(i as int),
        decreases list.len() - i,
    {
        r.push(list[i]);
        i += 1;
    }
    assert(list@.take(list.len() as int) =~= list@);
    r
}

/// Appends a node to a list.
fn add_node<'a>(list: &mut Vec<&'a SourceNode>, node: &'a SourceNode)
    ensures
        final(list).deep_view() == old(list).deep_view().push(node@),
{
    let ghost before = list.deep_view();
    list.push(node);
    assert(list.deep_view() =~= before.push(node@));
}

/// Appends a node to the list of a collection.
fn add_to<'a>(
    lists: &mut OrdMap<NodeId, Vec<&'a SourceNode>>,
    coll: &NodeId,
    node: &'a SourceNode,
)
    ensures
        ascending::<NodeId, Seq<NodeV>>(final(lists)@),
        forall|c: Text|
            #[trigger] list_of(final(lists)@, c) == if c == coll@ {
                list_of(old(lists)@, c).push(node@)
            } else {
                list_of(old(lists)@, c)
            },
{
    let ghost before = lists@;
    lists.sorted();
    let mut list = match lists.get(coll) {
        Some(l) => copy_list(l),
        None => Vec::new(),
    };
    assert(list.deep_view() =~= list_of(before, coll@));
    add_node(&mut list, node);
    lists.insert(coll.clone(), list);
    proof {
        let longer = list_of(before, coll@).push(node@);
        crate::ordmap::lemma_put_ascending::<NodeId, Seq<NodeV>>(before, coll@, longer);
        assert forall|c: Text|
            #[trigger] list_of(lists@, c) == if c == coll@ {
                list_of(before, c).push(node@)
            } else {
                list_of(before, c)
            } by {
            crate::ordmap::lemma_put_lookup::<NodeId, Seq<NodeV>>(before, coll@, longer, c);
        }
    }
}

/// The list of a collection.
fn list_in<'a>(lists: &OrdMap<NodeId, Vec<&'a SourceNode>>, coll: &NodeId) -> (r: Vec<
    &'a SourceNode,
>)
    ensures
        r.deep_view() == list_of(lists@, coll@),
{
    match lists.get(coll) {
        Some(l) => copy_list(l),
        None => {
            let r: Vec<&'a SourceNode> = Vec::new();
            assert(r.deep_view() =~= Seq::<NodeV>::empty());
            r
        },
    }
}

/// A node that is not picked leaves the picked nodes unchanged; one that is picked
/// is appended.
proof fn lemma_lists_step(
    before: ListsV,
    after: ListsV,
    nodes: IrNodesV,
    role: Role,
    n: int,
    added: bool,
)
    requires
        0 <= n < nodes.len(),
        lists_picked(before, nodes, role, n),
        added == (nodes[n].1.scope is Some && plays(nodes[n].1, role)),
        !added ==> after == before,
        added ==> ascending::<NodeId, Seq<NodeV>>(after) && forall|c: Text|
            #[trigger] list_of(after, c) == if c == nodes[n].1.scope->0 {
                list_of(before, c).push(nodes[n].1)
            } else {
                list_of(before, c)
            },
    ensures
        lists_picked(after, nodes, role, n + 1),
{
    assert forall|coll: Text|
        #[trigger] list_of(after, coll) == picked_upto(nodes, role, Some(coll), n + 1) by {
        assert(list_of(before, coll) == picked_upto(nodes, role, Some(coll), n));
    }
}

impl<'a> MappingPlan<'a> {
    /// The nodes that were sorted.
    pub closed spec fn nodes(&self) -> IrNodesV {
        self.all@
    }

    /// Whether the lists hold the nodes by role and scope.
    pub closed spec fn wf(&self) -> bool {
        self.planned(self.nodes(), self.nodes().len() as int)
    }

    spec fn planned(&self, nodes: IrNodesV, n: int) -> bool {
        &&& self.root_scalars.deep_view() == picked_upto(nodes, Role::Scalar, None, n)
        &&& self.root_collections.deep_view() == picked_upto(nodes, Role::Collection, None, n)
        &&& self.root_constants.deep_view() == picked_upto(nodes, Role::Constant, None, n)
        &&& self.root_clones.deep_view() == picked_upto(nodes, Role::Clone, None, n)
        &&& lists_picked(self.children_by_collection@, nodes, Role::Scalar, n)
        &&& lists_picked(self.nested_by_collection@, nodes, Role::Collection, n)
        &&& lists_picked(self.constants_by_collection@, nodes, Role::Constant, n)
        &&& lists_picked(self.clones_by_collection@, nodes, Role::Clone, n)
    }

    /// Adds a node of a collection to its lists.
    fn sort_inner(&mut self, parent: &NodeId, node: &'a SourceNode, Ghost(n): Ghost<int>)
        requires
            0 <= n < old(self).nodes().len(),
            old(self).nodes()[n].1 == node@,
            node@.scope == Some(parent@),
            old(self).planned(old(self).nodes(), n),
        ensures
            final(self).nodes() == old(self).nodes(),
            final(self).planned(final(self).nodes(), n + 1),
    {
        let ghost nodes = self.nodes();
        let ghost a = self.children_by_collection@;
        let ghost b = self.nested_by_collection@;
        let ghost c = self.constants_by_collection@;
        let ghost d = self.clones_by_collection@;
        if node.is_collection() {
            if node.canonical_key.is_some() {
                add_to(&mut self.nested_by_collection, parent, node);
            }
        } else {
            if node.constant.is_some() {
                add_to(&mut self.constants_by_collection, parent, node);
            }
            if node.clone_of.is_some() {
                add_to(&mut self.clones_by_collection, parent, node);
            }
            if !node.is_helper() {
                add_to(&mut self.children_by_collection, parent, node);
            }
        }
        proof {
            lemma_lists_step(
                a,
                self.children_by_collection@,
                nodes,
                Role::Scalar,
                n,
                plays(node@, Role::Scalar),
            );
            lemma_lists_step(
                b,
                self.nested_by_collection@,
                nodes,
                Role::Collection,
                n,
                plays(node@, Role::Collection),
            );
            lemma_lists_step(
                c,
                self.constants_by_collection@,
                nodes,
                Role::Constant,
                n,
                plays(node@, Role::Constant),
            );
            lemma_lists_step(
                d,
                self.clones_by_collection@,
                nodes,
                Role::Clone,
                n,
                plays(node@, Role::Clone),
            );
        }
    }

    /// Adds a root node to its lists.
    fn sort_root(&mut self, node: &'a SourceNode, Ghost(n): Ghost<int>)
        requires
            0 <= n < old(self).nodes().len(),
            old(self).nodes()[n].1 == node@,
            node@.scope is None,
            old(self).planned(old(self).nodes(), n),
        ensures
            final(self).nodes() == old(self).nodes(),
            final(self).planned(final(self).nodes(), n + 1),
    {
        let ghost nodes = self.nodes();
        if node.is_collection() {
            if node.canonical_key.is_some() {
                add_node(&mut self.root_collections, node);
            }
        } else {
            if node.constant.is_some() {
                add_node(&mut self.root_constants, node);
            }
            if node.clone_of.is_some() {
                add_node(&mut self.root_clones, node);
            }
            if !node.is_helper() {
                add_node(&mut self.root_scalars, node);
            }
        }
        proof {
            lemma_lists_step(
                self.children_by_collection@,
                self.children_by_collection@,
                nodes,
                Role::Scalar,
                n,
                false,
            );
            lemma_lists_step(
                self.nested_by_collection@,
                self.nested_by_collection@,
                nodes,
                Role::Collection,
                n,
                false,
            );
            lemma_lists_step(
                self.constants_by_collection@,
                self.constants_by_collection@,
                nodes,
                Role::Constant,
                n,
                false,
            );
            lemma_lists_step(
                self.clones_by_collection@,
                self.clones_by_collection@,
                nodes,
                Role::Clone,
                n,
                false,
            );
        }
    }

    /// Sorts the nodes of a mapping by role and scope.
    pub fn build(ir: &'a MappingIr) -> (plan: MappingPlan<'a>)
        ensures
            plan.wf(),
            plan.nodes() == ir@.nodes,
    {
        let ghost nodes = ir@.nodes;
        let mut plan = MappingPlan {
            root_scalars: Vec::new(),
            root_collections: Vec::new(),
            root_constants: Vec::new(),
            root_clones: Vec::new(),
            children_by_collection: OrdMap::new(),
            nested_by_collection: OrdMap::new(),
            constants_by_collection: OrdMap::new(),
            clones_by_collection: OrdMap::new(),
            all: Ghost(nodes),
        };
        assert(plan.root_scalars.deep_view() =~= Seq::<NodeV>::empty());
        assert(plan.root_collections.deep_view() =~= Seq::<NodeV>::empty());
        assert(plan.root_constants.deep_view() =~= Seq::<NodeV>::empty());
        assert(plan.root_clones.deep_view() =~= Seq::<NodeV>::empty());
        let mut i: usize = 0;
        while i < ir.nodes.len()
            invariant
                i <= nodes.len(),
                nodes == ir@.nodes,
                plan.nodes() == nodes,
                plan.planned(nodes, i as int),
            decreases nodes.len() - i,
        {
            let node = ir.nodes.value_at(i);
            match &node.scope {
                Scope::Root => {
                    plan.sort_root(node, Ghost(i as int));
                },
                Scope::Collection(parent) => {
                    plan.sort_inner(parent, node, Ghost(i as int));
                },
            }
            i += 1;
        }
        plan
    }

    /// The root nodes with a role.
    pub fn at_root(&self, role: Role) -> (r: Vec<&'a SourceNode>)
        requires
            self.wf(),
        ensures
            r.deep_view() == picked(self.nodes(), role, None),
    {
        match role {
            Role::Scalar => copy_list(&self.root_scalars),
            Role::Collection => copy_list(&self.root_collections),
            Role::Constant => copy_list(&self.root_constants),
            Role::Clone => copy_list(&self.root_clones),
        }
    }

    /// The scalars of a collection.
    pub fn children_of(&self, coll: &NodeId) -> (r: Vec<&'a SourceNode>)
        requires
            self.wf(),
        ensures
            r.deep_view() == picked(self.nodes(), Role::Scalar, Some(coll@)),
    {
        list_in(&self.children_by_collection, coll)
    }

    /// The collections of a collection.
    pub fn nested_collections_of(&self, coll: &NodeId) -> (r: Vec<
        &'a SourceNode,
    >)
        requires
            self.wf(),
        ensures
            r.deep_view() == picked(self.nodes(), Role::Collection, Some(coll@)),
    {
        list_in(&self.nested_by_collection, coll)
    }

    /// The constants of a collection.
    pub fn constants_of(&self, coll: &NodeId) -> (r: Vec<&'a SourceNode>)
        requires
            self.wf(),
        ensures
            r.deep_view() == picked(self.nodes(), Role::Constant, Some(coll@)),
    {
        list_in(&self.constants_by_collection, coll)
    }

    /// The clones of a collection.
    pub fn clones_of(&self, coll: &NodeId) -> (r: Vec<&'a SourceNode>)
        requires
            self.wf(),
        ensures
            r.deep_view() == picked(self.nodes(), Role::Clone, Some(coll@)),
    {
        list_in(&self.clones_by_collection, coll)
    }
}

} // verus!
