//! The intermediate representation of one spoke.
use vstd::prelude::*;

use crate::dsl::error::{append_all, Diagnostic, DiagnosticV};
use crate::dsl::meta::{meta_id, MappingMeta, MetaV};
use crate::dsl::node::{NodeId, NodeV, SourceNode};
use crate::dsl::parse::{NodesV, ParsedMapping, ParsedV};
use crate::dsl::resolve::{
    apply_defaults, kept, lemma_kept_ascending, lemma_merged_ascending, lemma_typed_ascending,
    merge_inheritance, merged, remove_disabled, typed_upto, untyped_upto,
};
use crate::dsl::source_model::meta::{ModelV, SourceModelMeta};
use crate::dsl::source_model::synth::{scope_in, synth, synthesize_source_model};
use crate::ordmap::{ascending, OrdMap};
use crate::text::Text;

verus! {

/// A compiled mapping: its meta table and its nodes with defaults filled in.
#[derive(Debug, PartialEq, Eq)]
pub struct MappingIr {
    /// The meta table of the leaf mapping.
    pub meta: MappingMeta,
    /// The active nodes by id.
    pub nodes: OrdMap<NodeId, SourceNode>,
}

/// The compiled nodes of a spoke, in id order.
pub type IrNodesV = Seq<(Text, NodeV)>;

/// The model of a [`MappingIr`].
#[verifier::ext_equal]
pub struct IrV {
    pub meta: MetaV,
    pub nodes: IrNodesV,
}

impl View for MappingIr {
    type V = IrV;

    open spec fn view(&self) -> IrV {
        IrV { meta: self.meta@, nodes: self.nodes@ }
    }
}

impl DeepView for MappingIr {
    type V = IrV;

    open spec fn deep_view(&self) -> IrV {
        self@
    }
}

impl Clone for MappingIr {
    fn clone(&self) -> (r: MappingIr)
        ensures
            r@ == self@,
    {
        let mut nodes: OrdMap<NodeId, SourceNode> = OrdMap::new();
        self.nodes.sorted();
        let mut i: usize = 0;
        while i < self.nodes.len()
            invariant
                i <= self.nodes@.len(),
                crate::ordmap::ascending::<NodeId, NodeV>(self.nodes@),
                nodes@ =~= self.nodes@.take(i as int),
            decreases self.nodes@.len() - i,
        {
            proof {
                crate::ordmap::lemma_put_last::<NodeId, NodeV>(self.nodes@, i as int);
            }
            nodes.insert(self.nodes.key_at(i).clone(), self.nodes.value_at(i).clone());
            i += 1;
        }
        MappingIr { meta: self.meta.clone(), nodes }
    }
}

/// Whether every node carries its own id, and every node inside a collection has
/// an id longer than that of the collection, so that walking outwards ends.
pub open spec fn scopes_ascend(nodes: IrNodesV) -> bool {
    forall|i: int|
        0 <= i < nodes.len() ==> (#[trigger] nodes[i]).1.id == nodes[i].0 && (nodes[i].1.scope
            matches Some(c) ==> c.len() < nodes[i].0.len())
}

/// The root element a mapping declares, `Root` if it declares none.
pub open spec fn root_of(meta: MetaV) -> Text {
    match meta.root {
        Some(r) => r,
        None => "Root"@,
    }
}

/// The active nodes of an inheritance chain.
pub open spec fn active_nodes(chain: Seq<ParsedV>) -> NodesV {
    kept(merged(chain))
}

/// The compiled nodes of an inheritance chain.
pub open spec fn ir_of(chain: Seq<ParsedV>) -> IrV {
    let active = active_nodes(chain);
    IrV {
        meta: chain.last().meta,
        nodes: typed_upto(
            active,
            synth(active, root_of(chain.last().meta)).paths,
            active.len() as int,
        ),
    }
}

/// The source model of an inheritance chain.
pub open spec fn model_of(chain: Seq<ParsedV>) -> ModelV {
    let meta = chain.last().meta;
    ModelV {
        model_id: meta_id(meta),
        root: root_of(meta),
        structs: synth(active_nodes(chain), root_of(meta)).structs,
    }
}

/// What is wrong with the nodes of an inheritance chain: those that cannot be
/// placed in the source model, then those without a type.
pub open spec fn ir_diags(chain: Seq<ParsedV>) -> Seq<DiagnosticV> {
    let active = active_nodes(chain);
    synth(active, root_of(chain.last().meta)).diags + untyped_upto(active, active.len() as int)
}

/// The nodes that defaults are filled in for carry their ids and stand inside
/// proper ancestors.
pub proof fn lemma_typed_scopes(nodes: NodesV, paths: Seq<(Text, Text)>, n: int)
    requires
        0 <= n <= nodes.len(),
    ensures
        scopes_ascend(typed_upto(nodes, paths, n)),
    decreases n,
{
    if n > 0 {
        lemma_typed_scopes(nodes, paths, n - 1);
        let a = typed_upto(nodes, paths, n - 1);
        let b = typed_upto(nodes, paths, n);
        let (id, raw) = nodes[n - 1];
        crate::dsl::node::lemma_nearest(
            id,
            |x: Text| crate::dsl::source_model::synth::is_coll(nodes, x),
        );
        assert forall|i: int| 0 <= i < b.len() implies (#[trigger] b[i]).1.id == b[i].0 && (
        b[i].1.scope matches Some(c) ==> c.len() < b[i].0.len()) by {
            if i < a.len() {
                assert(b[i] == a[i]);
            } else {
                assert(b[i].1.scope == scope_in(nodes, id));
            }
        }
    }
}

/// In the nodes of an inheritance chain, every scope is a proper ancestor.
pub proof fn law_ir_scopes_ascend(chain: Seq<ParsedV>)
    requires
        chain.len() > 0,
    ensures
        scopes_ascend(ir_of(chain).nodes),
{
    let active = active_nodes(chain);
    lemma_typed_scopes(
        active,
        synth(active, root_of(chain.last().meta)).paths,
        active.len() as int,
    );
}

/// The compiled nodes of an inheritance chain stand in id order.
pub proof fn law_ir_nodes_ascend(chain: Seq<ParsedV>)
    ensures
        ascending::<NodeId, NodeV>(ir_of(chain).nodes),
{
    let active = active_nodes(chain);
    let all = merged(chain);
    lemma_merged_ascending(chain);
    lemma_kept_ascending(all, all.len() as int);
    lemma_typed_ascending(
        active,
        synth(active, root_of(chain.last().meta)).paths,
        active.len() as int,
    );
}

/// Compiles an inheritance chain, from the base to the leaf, into the IR of the
/// leaf, its source model, and what is wrong with its nodes.
pub fn build_ir(chain: &[ParsedMapping]) -> (r: (MappingIr, SourceModelMeta, Vec<Diagnostic>))
    requires
        chain@.len() > 0,
    ensures
        r.0@ == ir_of(chain.deep_view()),
        r.1@ == model_of(chain.deep_view()),
        r.2.deep_view() == ir_diags(chain.deep_view()),
        scopes_ascend(r.0@.nodes),
{
    proof {
        law_ir_scopes_ascend(chain.deep_view());
    }
    let meta = chain[chain.len() - 1].meta.clone();
    assert(chain.deep_view().last().meta == meta@);
    let root = match &meta.root {
        Some(r) => r.clone(),
        None => "Root".to_string(),
    };
    let model_id = meta.id();
    let all = merge_inheritance(chain);
    let active = remove_disabled(all);
    let (source, paths, mut diags) = synthesize_source_model(
        &active,
        root.as_str(),
        model_id.as_str(),
    );
    let (nodes, default_diags) = apply_defaults(&active, &paths);
    append_all(&mut diags, default_diags);
    (MappingIr { meta, nodes }, source, diags)
}

} // verus!
