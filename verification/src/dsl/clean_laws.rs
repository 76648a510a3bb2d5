//! What holds of mappings that compile without errors.
use vstd::prelude::*;

use crate::dsl::compile::{
    all_prefixed, any_error, build_findings, compiled, irs_upto, lemma_spokes_built, sources_upto,
    spoke_findings, values,
};
use crate::dsl::cycle_laws::{
    is_cycle, law_every_cycle_is_reported, law_every_report_is_a_cycle,
};
use crate::dsl::cycles::cycle_diags;
use crate::dsl::error::{node_error, DiagnosticV, Severity};
use crate::dsl::hub::{derive_nodes, derived, DeriveV};
use crate::dsl::ir::{ir_of, law_ir_nodes_ascend, IrNodesV, IrV};
use crate::dsl::multiple::MultiplePolicy;
use crate::dsl::node::{NodeId, NodeV};
use crate::dsl::parse::ParsedV;
use crate::dsl::source_model::meta::ModelV;
use crate::dsl::source_model::resolve::resolved_from;
use crate::dsl::types::MappingType;
use crate::dsl::validate::{
    adapter_findings, base_of, clone_findings, clone_target_findings, compatible, constant_findings,
    constant_problem, fallback_findings, fallbacks_findings, findings, mapped_in_scope,
    model_id_findings, model_mismatch, node_findings, nodes_findings, only_if, path_findings,
    structural_findings,
};
use crate::ordmap::{
    ascending, lemma_put_ascending, lemma_put_lookup, lookup, member, TextSetV,
};
use crate::text::Text;

verus! {

/// Whether every fallback of a node exists, has a type that can stand in for the
/// node's, and lives in the node's scope.
pub open spec fn fallbacks_hold(n: NodeV, nodes: IrNodesV) -> bool {
    forall|k: int|
        0 <= k < n.fallbacks.len() ==> (lookup::<NodeId, NodeV>(
            nodes,
            #[trigger] n.fallbacks[k],
        ) matches Some(t) && compatible(n.source_type, t.source_type) && t.scope == n.scope)
}

/// Whether the fields of a node go together.
pub open spec fn fields_agree(n: NodeV) -> bool {
    &&& n.multiple == Some(MultiplePolicy::Join) <==> n.join_with is Some
    &&& n.min_items is Some ==> n.source_type == MappingType::Collection
    &&& n.multiple is Some ==> n.fallbacks.len() == 0
    &&& n.constant matches Some(v) ==> n.source_type != MappingType::Collection
        && constant_problem(n.source_type, v) is None && n.fallbacks.len() == 0 && n.multiple
        is None && n.adapter is None && n.normalize.len() == 0
    &&& n.clone_of is Some ==> n.source_type != MappingType::Collection && n.canonical_key is None
        && n.constant is None && n.fallbacks.len() == 0 && n.multiple is None && n.adapter is None
}

/// Whether a node that mirrors a key finds it in its own scope, with its own type.
pub open spec fn mirror_holds(n: NodeV, nodes: IrNodesV) -> bool {
    n.clone_of matches Some(key) ==> (mapped_in_scope(nodes, key, n.scope) matches Some(t)
        && t.source_type == n.source_type)
}

/// Whether the path of a node leads to a field of its kind.
pub open spec fn path_holds(n: NodeV, ir: IrV, model: ModelV) -> bool {
    base_of(ir.nodes, model, n.scope) matches Ok(base) ==> (resolved_from(
        model,
        base,
        n.source_path,
    ) matches Ok(f) && if n.source_type == MappingType::Collection {
        f.repeated
    } else {
        !f.is_struct
    })
}

/// Whether a node breaks none of the rules.
pub open spec fn node_sound(n: NodeV, ir: IrV, model: ModelV, adapters: TextSetV) -> bool {
    &&& fallbacks_hold(n, ir.nodes)
    &&& n.adapter matches Some(a) ==> member(adapters, a)
    &&& fields_agree(n)
    &&& mirror_holds(n, ir.nodes)
    &&& path_holds(n, ir, model)
}

proof fn lemma_fallbacks_hold(n: NodeV, nodes: IrNodesV, k: int)
    requires
        0 <= k <= n.fallbacks.len(),
        fallbacks_findings(n, nodes, k).len() == 0,
    ensures
        forall|j: int|
            0 <= j < k ==> (lookup::<NodeId, NodeV>(nodes, #[trigger] n.fallbacks[j]) matches Some(
                t,
            ) && compatible(n.source_type, t.source_type) && t.scope == n.scope),
    decreases k,
{
    if k > 0 {
        let last = fallback_findings(n, nodes, n.fallbacks[k - 1]);
        assert(fallbacks_findings(n, nodes, k).len() == fallbacks_findings(n, nodes, k - 1).len()
            + last.len());
        lemma_fallbacks_hold(n, nodes, k - 1);
    }
}

proof fn lemma_node_sound(n: NodeV, ir: IrV, model: ModelV, adapters: TextSetV)
    requires
        node_findings(n, ir, model, adapters).len() == 0,
        !model_mismatch(ir, model),
    ensures
        node_sound(n, ir, model, adapters),
{
    let k = n.fallbacks.len() as int;
    let a = path_findings(n, ir, model);
    let b = structural_findings(n);
    let c = fallbacks_findings(n, ir.nodes, k);
    let d = adapter_findings(n, adapters);
    let e = constant_findings(n);
    let f = clone_findings(n, ir.nodes);
    assert(node_findings(n, ir, model, adapters).len() == a.len() + b.len() + c.len() + d.len()
        + e.len() + f.len());
    lemma_fallbacks_hold(n, ir.nodes, k);
}

proof fn lemma_nodes_sound(ir: IrV, model: ModelV, adapters: TextSetV, k: int, i: int)
    requires
        0 <= i < k <= ir.nodes.len(),
        nodes_findings(ir, model, adapters, k).len() == 0,
        !model_mismatch(ir, model),
    ensures
        node_sound(ir.nodes[i].1, ir, model, adapters),
    decreases k,
{
    let head = nodes_findings(ir, model, adapters, k - 1);
    let last = node_findings(ir.nodes[k - 1].1, ir, model, adapters);
    assert(nodes_findings(ir, model, adapters, k).len() == head.len() + last.len());
    if i == k - 1 {
        lemma_node_sound(ir.nodes[i].1, ir, model, adapters);
    } else {
        lemma_nodes_sound(ir, model, adapters, k - 1, i);
    }
}

/// In a mapping without findings every node breaks none of the rules, and no chain
/// of fallbacks leads back to where it began.
pub proof fn law_clean_mapping_is_sound(ir: IrV, model: ModelV, adapters: TextSetV)
    requires
        ascending::<NodeId, NodeV>(ir.nodes),
        findings(ir, model, adapters).len() == 0,
    ensures
        forall|i: int|
            0 <= i < ir.nodes.len() ==> node_sound(
                (#[trigger] ir.nodes[i]).1,
                ir,
                model,
                adapters,
            ),
        forall|p: Seq<Text>| !#[trigger] is_cycle(ir.nodes, p),
{
    let n = ir.nodes.len() as int;
    let a = model_id_findings(ir, model);
    let b = nodes_findings(ir, model, adapters, n);
    let c = cycle_diags(ir.nodes);
    assert(findings(ir, model, adapters).len() == a.len() + b.len() + c.len());
    assert forall|i: int| 0 <= i < n implies node_sound(
        (#[trigger] ir.nodes[i]).1,
        ir,
        model,
        adapters,
    ) by {
        lemma_nodes_sound(ir, model, adapters, n, i);
    }
    assert forall|p: Seq<Text>| !#[trigger] is_cycle(ir.nodes, p) by {
        if is_cycle(ir.nodes, p) {
            law_every_cycle_is_reported(ir.nodes, p);
        }
    }
}

/// Whether everything in a list of findings is an error.
#[verifier::opaque]
pub open spec fn all_errors(s: Seq<DiagnosticV>) -> bool {
    forall|i: int| 0 <= i < s.len() ==> (#[trigger] s[i]).severity == Severity::Error
}

broadcast proof fn lemma_joined_errors(a: Seq<DiagnosticV>, b: Seq<DiagnosticV>)
    requires
        all_errors(a),
        all_errors(b),
    ensures
        #[trigger] all_errors(a + b),
{
    reveal(all_errors);
}

broadcast proof fn lemma_possible_error(cond: bool, code: Text, node: Text, message: Text)
    ensures
        #[trigger] all_errors(only_if(cond, node_error(code, node, message))),
{
    reveal(all_errors);
}

broadcast proof fn lemma_one_error(code: Text, node: Text, message: Text)
    ensures
        #[trigger] all_errors(seq![node_error(code, node, message)]),
{
    reveal(all_errors);
}

proof fn lemma_no_errors()
    ensures
        all_errors(Seq::<DiagnosticV>::empty()),
{
    reveal(all_errors);
}

proof fn lemma_fallbacks_errors(n: NodeV, nodes: IrNodesV, k: int)
    requires
        0 <= k <= n.fallbacks.len(),
    ensures
        all_errors(fallbacks_findings(n, nodes, k)),
    decreases k,
{
    broadcast use {lemma_joined_errors, lemma_possible_error, lemma_one_error};

    lemma_no_errors();
    if k > 0 {
        lemma_fallbacks_errors(n, nodes, k - 1);
        assert(all_errors(fallback_findings(n, nodes, n.fallbacks[k - 1])));
    }
}

proof fn lemma_node_errors(n: NodeV, ir: IrV, model: ModelV, adapters: TextSetV)
    ensures
        all_errors(node_findings(n, ir, model, adapters)),
{
    broadcast use {lemma_joined_errors, lemma_possible_error, lemma_one_error};

    lemma_no_errors();
    lemma_fallbacks_errors(n, ir.nodes, n.fallbacks.len() as int);
    assert(all_errors(path_findings(n, ir, model)));
    assert(all_errors(structural_findings(n)));
    assert(all_errors(adapter_findings(n, adapters)));
    assert(all_errors(constant_findings(n)));
    assert(all_errors(clone_target_findings(n, ir.nodes, n.clone_of->0)));
    assert(all_errors(clone_findings(n, ir.nodes)));
}

proof fn lemma_nodes_errors(ir: IrV, model: ModelV, adapters: TextSetV, k: int)
    requires
        0 <= k <= ir.nodes.len(),
    ensures
        all_errors(nodes_findings(ir, model, adapters, k)),
    decreases k,
{
    lemma_no_errors();
    if k > 0 {
        let head = nodes_findings(ir, model, adapters, k - 1);
        let last = node_findings(ir.nodes[k - 1].1, ir, model, adapters);
        lemma_nodes_errors(ir, model, adapters, k - 1);
        lemma_node_errors(ir.nodes[k - 1].1, ir, model, adapters);
        lemma_joined_errors(head, last);
    }
}

/// Whatever validating a mapping finds is an error.
pub proof fn law_findings_are_errors(ir: IrV, model: ModelV, adapters: TextSetV)
    requires
        ascending::<NodeId, NodeV>(ir.nodes),
    ensures
        all_errors(findings(ir, model, adapters)),
{
    reveal(all_errors);
    lemma_nodes_errors(ir, model, adapters, ir.nodes.len() as int);
    let c = cycle_diags(ir.nodes);
    assert forall|j: int| 0 <= j < c.len() implies (#[trigger] c[j]).severity
        == Severity::Error by {
        law_every_report_is_a_cycle(ir.nodes, j);
    }
}

proof fn lemma_derive_errors(st: DeriveV, nodes: IrNodesV, n: int)
    requires
        0 <= n <= nodes.len(),
        all_errors(st.diags),
    ensures
        all_errors(derive_nodes(st, nodes, n).diags),
    decreases n,
{
    reveal(all_errors);
    if n > 0 {
        lemma_derive_errors(st, nodes, n - 1);
    }
}

/// Whatever deriving the hub finds is an error.
pub proof fn law_hub_findings_are_errors(mappings: Seq<IrV>)
    ensures
        all_errors(derived(mappings).diags),
    decreases mappings.len(),
{
    reveal(all_errors);
    if mappings.len() > 0 {
        law_hub_findings_are_errors(mappings.drop_last());
        let nodes = mappings.last().nodes;
        lemma_derive_errors(derived(mappings.drop_last()), nodes, nodes.len() as int);
    }
}

proof fn lemma_no_spoke_findings(
    spokes: Seq<(Text, Seq<ParsedV>)>,
    irs: Seq<(Text, IrV)>,
    sources: Seq<(Text, ModelV)>,
    adapters: TextSetV,
    n: int,
    k: int,
)
    requires
        0 <= k < n <= spokes.len(),
        !any_error(spoke_findings(spokes, irs, sources, adapters, n)),
    ensures
        !any_error(
            findings(
                lookup::<String, IrV>(irs, spokes[k].0)->0,
                lookup::<String, ModelV>(sources, spokes[k].0)->0,
                adapters,
            ),
        ),
    decreases n,
{
    let id = spokes[n - 1].0;
    let here = findings(
        lookup::<String, IrV>(irs, id)->0,
        lookup::<String, ModelV>(sources, id)->0,
        adapters,
    );
    let head = spoke_findings(spokes, irs, sources, adapters, n - 1);
    let all = spoke_findings(spokes, irs, sources, adapters, n);
    assert(all == head + all_prefixed(id, here));
    assert forall|i: int| 0 <= i < head.len() implies (#[trigger] head[i]).severity
        != Severity::Error by {
        assert(all[i] == head[i]);
    }
    if k == n - 1 {
        assert forall|i: int| 0 <= i < here.len() implies (#[trigger] here[i]).severity
            != Severity::Error by {
            assert(all[head.len() + i].severity == here[i].severity);
        }
    } else {
        lemma_no_spoke_findings(spokes, irs, sources, adapters, n - 1, k);
    }
}

proof fn lemma_irs_ascend(spokes: Seq<(Text, Seq<ParsedV>)>, n: int, id: Text)
    requires
        0 <= n <= spokes.len(),
    ensures
        ascending::<String, IrV>(irs_upto(spokes, n)),
        lookup::<String, IrV>(irs_upto(spokes, n), id) matches Some(ir) ==> ascending::<
            NodeId,
            NodeV,
        >(ir.nodes),
    decreases n,
{
    if n > 0 {
        let (last, chain) = spokes[n - 1];
        let before = irs_upto(spokes, n - 1);
        lemma_irs_ascend(spokes, n - 1, id);
        law_ir_nodes_ascend(chain);
        lemma_put_ascending::<String, IrV>(before, last, ir_of(chain));
        lemma_put_lookup::<String, IrV>(before, last, ir_of(chain), id);
    }
}

/// When a set of spokes compiles without errors, deriving the hub has found
/// nothing, and neither has validating any of the spokes.
pub proof fn law_clean_compile_finds_nothing(
    spokes: Seq<(Text, Seq<ParsedV>)>,
    adapters: TextSetV,
    k: int,
)
    requires
        forall|i: int| 0 <= i < spokes.len() ==> (#[trigger] spokes[i]).1.len() > 0,
        0 <= k < spokes.len(),
        !any_error(compiled(spokes, adapters).diags),
    ensures
        ({
            let out = compiled(spokes, adapters);
            &&& derived(values(out.irs)).diags.len() == 0
            &&& lookup::<String, IrV>(out.irs, spokes[k].0) matches Some(ir) && lookup::<
                String,
                ModelV,
            >(out.sources, spokes[k].0) matches Some(model) && findings(
                ir,
                model,
                adapters,
            ).len() == 0 && ascending::<NodeId, NodeV>(ir.nodes)
        }),
{
    let n = spokes.len() as int;
    let out = compiled(spokes, adapters);
    let irs = irs_upto(spokes, n);
    let sources = sources_upto(spokes, n);
    let hub = derived(values(irs)).diags;
    let head = build_findings(spokes, n);
    let found = spoke_findings(spokes, irs, sources, adapters, n);
    reveal(all_errors);
    lemma_spokes_built(spokes, n);
    law_hub_findings_are_errors(values(irs));
    assert(out.diags == head + hub + found);
    if hub.len() > 0 {
        assert(out.diags[head.len() as int] == hub[0]);
    }
    assert forall|i: int| 0 <= i < found.len() implies (#[trigger] found[i]).severity
        != Severity::Error by {
        assert(out.diags[head.len() + hub.len() + i] == found[i]);
    }
    lemma_no_spoke_findings(spokes, irs, sources, adapters, n, k);
    let ir = lookup::<String, IrV>(irs, spokes[k].0)->0;
    let model = lookup::<String, ModelV>(sources, spokes[k].0)->0;
    lemma_irs_ascend(spokes, n, spokes[k].0);
    law_findings_are_errors(ir, model, adapters);
    let here = findings(ir, model, adapters);
    if here.len() > 0 {
        assert(here[0].severity == Severity::Error);
    }
}

} // verus!
