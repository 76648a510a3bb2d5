//! Which rule each finding on a mapping stands for.
use vstd::prelude::*;

use crate::dsl::cycles::cycle_diags;
use crate::dsl::error::{node_error, DiagnosticV};
use crate::dsl::ir::{IrNodesV, IrV};
use crate::dsl::multiple::MultiplePolicy;
use crate::dsl::node::{NodeId, NodeV};
use crate::dsl::source_model::meta::ModelV;
use crate::dsl::source_model::resolve::resolved_from;
use crate::dsl::types::MappingType;
use crate::dsl::validate::{
    adapter_findings, all_digits, base_of, clone_findings, clone_target_findings, compatible,
    constant_findings, constant_problem, date_shaped, fallback_findings, fallbacks_findings,
    findings, is_decimal, mapped_in_scope, model_id_findings, model_mismatch, node_findings,
    nodes_findings, only_if, path_findings, structural_findings, unsigned,
};
use crate::ordmap::{lookup, member, TextSetV};
use crate::runtime::validate::{currency_shape, date_shape, datetime_shape};
use crate::text::{find, is_digit, is_upper, is_white, lemma_find, trim, Text};
use crate::text_laws::{law_trim_takes_the_white_space_around, lemma_trim_keeps};

verus! {

/// Whether a list of findings holds one of a rule on a node.
#[verifier::opaque]
pub open spec fn tells(s: Seq<DiagnosticV>, node: Text, code: Text) -> bool {
    exists|i: int| 0 <= i < s.len() && (#[trigger] s[i]).source_node == Some(node) && s[i].code == code
}

broadcast proof fn lemma_tells_joined(
    a: Seq<DiagnosticV>,
    b: Seq<DiagnosticV>,
    node: Text,
    code: Text,
)
    ensures
        #[trigger] tells(a + b, node, code) <==> tells(a, node, code) || tells(b, node, code),
{
    reveal(tells);
    let s = a + b;
    if tells(a, node, code) {
        let i = choose|i: int|
            0 <= i < a.len() && (#[trigger] a[i]).source_node == Some(node) && a[i].code == code;
        assert(s[i] == a[i]);
    }
    if tells(b, node, code) {
        let i = choose|i: int|
            0 <= i < b.len() && (#[trigger] b[i]).source_node == Some(node) && b[i].code == code;
        assert(s[i + a.len()] == b[i]);
    }
    if tells(s, node, code) {
        let i = choose|i: int|
            0 <= i < s.len() && (#[trigger] s[i]).source_node == Some(node) && s[i].code == code;
        if i < a.len() {
            assert(s[i] == a[i]);
        } else {
            assert(s[i] == b[i - a.len()]);
        }
    }
}

broadcast proof fn lemma_tells_possible(
    cond: bool,
    k: Text,
    n: Text,
    message: Text,
    node: Text,
    code: Text,
)
    ensures
        #[trigger] tells(only_if(cond, node_error(k, n, message)), node, code) <==> cond && k == code
            && n == node,
{
    reveal(tells);
    let s = only_if(cond, node_error(k, n, message));
    if cond && k == code && n == node {
        assert(s[0].code == code);
    }
}

broadcast proof fn lemma_tells_one(k: Text, n: Text, message: Text, node: Text, code: Text)
    ensures
        #[trigger] tells(seq![node_error(k, n, message)], node, code) <==> k == code && n == node,
{
    reveal(tells);
    let s = seq![node_error(k, n, message)];
    if k == code && n == node {
        assert(s[0].code == code);
    }
}

proof fn lemma_tells_none(node: Text, code: Text)
    ensures
        !tells(Seq::empty(), node, code),
{
    reveal(tells);
}

proof fn lemma_codes()
    ensures
        "E021"@[2] == '2' && "E021"@[3] == '1',
        "E022"@[2] == '2' && "E022"@[3] == '2',
        "E023"@[2] == '2' && "E023"@[3] == '3',
        "E030"@[2] == '3' && "E030"@[3] == '0',
        "E031"@[2] == '3' && "E031"@[3] == '1',
        "E032"@[2] == '3' && "E032"@[3] == '2',
        "E040"@[2] == '4' && "E040"@[3] == '0',
        "E041"@[2] == '4' && "E041"@[3] == '1',
        "E043"@[2] == '4' && "E043"@[3] == '3',
        "E050"@[2] == '5' && "E050"@[3] == '0',
        "E060"@[2] == '6' && "E060"@[3] == '0',
        "E061"@[2] == '6' && "E061"@[3] == '1',
        "E062"@[2] == '6' && "E062"@[3] == '2',
        "E070"@[2] == '7' && "E070"@[3] == '0',
        "E071"@[2] == '7' && "E071"@[3] == '1',
        "E072"@[2] == '7' && "E072"@[3] == '2',
{
    reveal_strlit("E021");
    reveal_strlit("E022");
    reveal_strlit("E023");
    reveal_strlit("E030");
    reveal_strlit("E031");
    reveal_strlit("E032");
    reveal_strlit("E040");
    reveal_strlit("E041");
    reveal_strlit("E043");
    reveal_strlit("E050");
    reveal_strlit("E060");
    reveal_strlit("E061");
    reveal_strlit("E062");
    reveal_strlit("E070");
    reveal_strlit("E071");
    reveal_strlit("E072");
}

/// Whether one of the two types can be read where the other is meant: free text and
/// identifiers are the same kind of text, and any other type is only itself.
pub open spec fn same_kind(a: MappingType, b: MappingType) -> bool {
    a == b || ((a == MappingType::String || a == MappingType::Identifier) && (b
        == MappingType::String || b == MappingType::Identifier))
}

/// Whether some fallback of a node names no node.
pub open spec fn fallback_missing(n: NodeV, nodes: IrNodesV) -> bool {
    exists|k: int|
        0 <= k < n.fallbacks.len() && lookup::<NodeId, NodeV>(
            nodes,
            #[trigger] n.fallbacks[k],
        ) is None
}

/// Whether some fallback of a node is of another kind.
pub open spec fn fallback_other_kind(n: NodeV, nodes: IrNodesV) -> bool {
    exists|k: int|
        0 <= k < n.fallbacks.len() && (lookup::<NodeId, NodeV>(
            nodes,
            #[trigger] n.fallbacks[k],
        ) matches Some(t) && !same_kind(n.source_type, t.source_type))
}

/// Whether some fallback of a node stands in another scope.
pub open spec fn fallback_other_scope(n: NodeV, nodes: IrNodesV) -> bool {
    exists|k: int|
        0 <= k < n.fallbacks.len() && (lookup::<NodeId, NodeV>(
            nodes,
            #[trigger] n.fallbacks[k],
        ) matches Some(t) && n.scope != t.scope)
}

proof fn lemma_fallbacks(n: NodeV, nodes: IrNodesV, k: int, code: Text)
    requires
        0 <= k <= n.fallbacks.len(),
    ensures
        tells(fallbacks_findings(n, nodes, k), n.id, code) <==> {
            ||| code == "E030"@ && exists|j: int|
                0 <= j < k && lookup::<NodeId, NodeV>(nodes, #[trigger] n.fallbacks[j]) is None
            ||| code == "E031"@ && exists|j: int|
                0 <= j < k && (lookup::<NodeId, NodeV>(
                    nodes,
                    #[trigger] n.fallbacks[j],
                ) matches Some(t) && !same_kind(n.source_type, t.source_type))
            ||| code == "E032"@ && exists|j: int|
                0 <= j < k && (lookup::<NodeId, NodeV>(
                    nodes,
                    #[trigger] n.fallbacks[j],
                ) matches Some(t) && n.scope != t.scope)
        },
    decreases k,
{
    broadcast use {lemma_tells_joined, lemma_tells_possible, lemma_tells_one};

    lemma_codes();
    if k <= 0 {
        lemma_tells_none(n.id, code);
    } else {
        lemma_fallbacks(n, nodes, k - 1, code);
        let target = n.fallbacks[k - 1];
        let last = fallback_findings(n, nodes, target);
        let found = lookup::<NodeId, NodeV>(nodes, target);
        assert(tells(last, n.id, code) <==> {
            ||| code == "E030"@ && found is None
            ||| code == "E031"@ && found is Some && !same_kind(n.source_type, found->0.source_type)
            ||| code == "E032"@ && found is Some && n.scope != found->0.scope
        });
        assert(fallbacks_findings(n, nodes, k) == fallbacks_findings(n, nodes, k - 1) + last);
    }
}

/// Whether a field that a constant excludes is set.
pub open spec fn has_more_than_a_constant(n: NodeV) -> bool {
    n.fallbacks.len() > 0 || n.multiple is Some || n.adapter is Some || n.normalize.len() > 0
}

/// Whether a field that a copy excludes is set.
pub open spec fn has_more_than_a_copy(n: NodeV) -> bool {
    n.canonical_key is Some || n.constant is Some || n.fallbacks.len() > 0 || n.multiple is Some
        || n.adapter is Some
}

/// A finding on a node stands for a rule that the node breaks, and for every rule that it
/// breaks there is one. `E030` to `E032`: a fallback that does not exist, is of another
/// kind or stands in another scope. `E040`: joining and what to join with do not go
/// together. `E041`: a least number of items on something else than a collection. `E043`:
/// a choice among values and fallbacks both. `E050`: an adapter that does not exist.
/// `E060` to `E062`: a constant of a collection, one that is no literal of its type, or one
/// with another field. `E070`: a copy that is a collection or has another field.
pub proof fn law_findings_stand_for_broken_rules(
    n: NodeV,
    ir: IrV,
    model: ModelV,
    adapters: TextSetV,
)
    ensures
        ({
            let s = node_findings(n, ir, model, adapters);
            let items = n.source_type == MappingType::Collection;
            let joins = n.multiple == Some(MultiplePolicy::Join);
            &&& tells(s, n.id, "E030"@) <==> fallback_missing(n, ir.nodes)
            &&& tells(s, n.id, "E031"@) <==> fallback_other_kind(n, ir.nodes)
            &&& tells(s, n.id, "E032"@) <==> fallback_other_scope(n, ir.nodes)
            &&& tells(s, n.id, "E040"@) <==> joins != (n.join_with is Some)
            &&& tells(s, n.id, "E041"@) <==> n.min_items is Some && !items
            &&& tells(s, n.id, "E043"@) <==> n.multiple is Some && n.fallbacks.len() > 0
            &&& tells(s, n.id, "E050"@) <==> n.adapter is Some && !member(adapters, n.adapter->0)
            &&& tells(s, n.id, "E060"@) <==> n.constant is Some && items
            &&& tells(s, n.id, "E061"@) <==> n.constant is Some && !items && constant_problem(
                n.source_type,
                n.constant->0,
            ) is Some
            &&& tells(s, n.id, "E062"@) <==> n.constant is Some && !items
                && has_more_than_a_constant(n)
            &&& tells(s, n.id, "E070"@) <==> n.clone_of is Some && (items || has_more_than_a_copy(
                n,
            ))
        }),
{
    lemma_node_tells(n, ir, model, adapters, "E030"@);
    lemma_node_tells(n, ir, model, adapters, "E031"@);
    lemma_node_tells(n, ir, model, adapters, "E032"@);
    lemma_node_tells(n, ir, model, adapters, "E040"@);
    lemma_node_tells(n, ir, model, adapters, "E041"@);
    lemma_node_tells(n, ir, model, adapters, "E043"@);
    lemma_node_tells(n, ir, model, adapters, "E050"@);
    lemma_node_tells(n, ir, model, adapters, "E060"@);
    lemma_node_tells(n, ir, model, adapters, "E061"@);
    lemma_node_tells(n, ir, model, adapters, "E062"@);
    lemma_node_tells(n, ir, model, adapters, "E070"@);
    lemma_codes();
}

proof fn lemma_node_tells(n: NodeV, ir: IrV, model: ModelV, adapters: TextSetV, code: Text)
    ensures
        tells(node_findings(n, ir, model, adapters), n.id, code) <==> {
            let items = n.source_type == MappingType::Collection;
            let joins = n.multiple == Some(MultiplePolicy::Join);
            ||| path_tells(n, ir, model, code)
            ||| code == "E030"@ && fallback_missing(n, ir.nodes)
            ||| code == "E031"@ && fallback_other_kind(n, ir.nodes)
            ||| code == "E032"@ && fallback_other_scope(n, ir.nodes)
            ||| code == "E040"@ && joins != (n.join_with is Some)
            ||| code == "E041"@ && n.min_items is Some && !items
            ||| code == "E043"@ && n.multiple is Some && n.fallbacks.len() > 0
            ||| code == "E050"@ && n.adapter is Some && !member(adapters, n.adapter->0)
            ||| code == "E060"@ && n.constant is Some && items
            ||| code == "E061"@ && n.constant is Some && !items && constant_problem(
                n.source_type,
                n.constant->0,
            ) is Some
            ||| code == "E062"@ && n.constant is Some && !items && has_more_than_a_constant(n)
            ||| code == "E070"@ && n.clone_of is Some && (items || has_more_than_a_copy(n))
            ||| copy_tells(n, ir.nodes, code)
        },
{
    broadcast use {lemma_tells_joined, lemma_tells_possible, lemma_tells_one};

    lemma_tells_none(n.id, code);
    lemma_fallbacks(n, ir.nodes, n.fallbacks.len() as int, code);
    let items = n.source_type == MappingType::Collection;
    let joins = n.multiple == Some(MultiplePolicy::Join);
    assert(tells(structural_findings(n), n.id, code) <==> {
        ||| code == "E040"@ && joins != (n.join_with is Some)
        ||| code == "E041"@ && n.min_items is Some && !items
        ||| code == "E043"@ && n.multiple is Some && n.fallbacks.len() > 0
    });
    assert(tells(adapter_findings(n, adapters), n.id, code) <==> code == "E050"@ && n.adapter
        is Some && !member(adapters, n.adapter->0));
    assert(tells(constant_findings(n), n.id, code) <==> {
        ||| code == "E060"@ && n.constant is Some && items
        ||| code == "E061"@ && n.constant is Some && !items && constant_problem(
            n.source_type,
            n.constant->0,
        ) is Some
        ||| code == "E062"@ && n.constant is Some && !items && has_more_than_a_constant(n)
    });
    assert(tells(path_findings(n, ir, model), n.id, code) <==> path_tells(n, ir, model, code));
    if n.clone_of is Some && !items {
        lemma_mapped(ir.nodes, n.clone_of->0, n.scope);
        let target = clone_target_findings(n, ir.nodes, n.clone_of->0);
        assert(tells(target, n.id, code) <==> copy_tells(n, ir.nodes, code));
    }
    assert(tells(clone_findings(n, ir.nodes), n.id, code) <==> {
        ||| code == "E070"@ && n.clone_of is Some && (items || has_more_than_a_copy(n))
        ||| copy_tells(n, ir.nodes, code)
    });
}

/// Whether a node maps a key in a scope.
pub open spec fn maps_here(n: NodeV, key: Text, scope: Option<Text>) -> bool {
    n.canonical_key == Some(key) && n.scope == scope
}

proof fn lemma_mapped(nodes: IrNodesV, key: Text, scope: Option<Text>)
    ensures
        match mapped_in_scope(nodes, key, scope) {
            None => forall|i: int|
                0 <= i < nodes.len() ==> !maps_here((#[trigger] nodes[i]).1, key, scope),
            Some(t) => exists|i: int|
                0 <= i < nodes.len() && (#[trigger] nodes[i]).1 == t && maps_here(t, key, scope)
                    && forall|j: int|
                    0 <= j < i ==> !maps_here((#[trigger] nodes[j]).1, key, scope),
        },
    decreases nodes.len(),
{
    if nodes.len() > 0 && !maps_here(nodes[0].1, key, scope) {
        let rest = nodes.drop_first();
        lemma_mapped(rest, key, scope);
        if mapped_in_scope(rest, key, scope) is None {
            assert forall|i: int| 0 <= i < nodes.len() implies !maps_here(
                (#[trigger] nodes[i]).1,
                key,
                scope,
            ) by {
                if i > 0 {
                    assert(rest[i - 1] == nodes[i]);
                }
            }
        } else {
            let t = mapped_in_scope(rest, key, scope)->0;
            let i = choose|i: int|
                0 <= i < rest.len() && (#[trigger] rest[i]).1 == t && maps_here(t, key, scope)
                    && forall|j: int|
                    0 <= j < i ==> !maps_here((#[trigger] rest[j]).1, key, scope);
            assert(nodes[i + 1] == rest[i]);
            assert forall|j: int| 0 <= j < i + 1 implies !maps_here(
                (#[trigger] nodes[j]).1,
                key,
                scope,
            ) by {
                if j > 0 {
                    assert(rest[j - 1] == nodes[j]);
                }
            }
        }
    } else if nodes.len() > 0 {
        assert(nodes[0].1 == mapped_in_scope(nodes, key, scope)->0);
    }
}

/// Whether the path of a node breaks a rule: it leads nowhere, to a single field where a
/// collection is meant, or to a struct where a value is.
pub open spec fn path_tells(n: NodeV, ir: IrV, model: ModelV, code: Text) -> bool {
    let items = n.source_type == MappingType::Collection;
    &&& !model_mismatch(ir, model)
    &&& base_of(ir.nodes, model, n.scope) is Ok
    &&& {
        let r = resolved_from(model, base_of(ir.nodes, model, n.scope)->Ok_0, n.source_path);
        ||| code == "E021"@ && r is Err
        ||| code == "E022"@ && r is Ok && items && !r->Ok_0.repeated
        ||| code == "E023"@ && r is Ok && !items && r->Ok_0.is_struct
    }
}

/// Whether a copy breaks a rule: no node of its scope maps what it copies, or the first
/// that does is of another type.
pub open spec fn copy_tells(n: NodeV, nodes: IrNodesV, code: Text) -> bool {
    &&& n.clone_of is Some
    &&& n.source_type != MappingType::Collection
    &&& {
        ||| code == "E071"@ && forall|i: int|
            0 <= i < nodes.len() ==> !maps_here((#[trigger] nodes[i]).1, n.clone_of->0, n.scope)
        ||| code == "E072"@ && exists|i: int|
            0 <= i < nodes.len() && maps_here((#[trigger] nodes[i]).1, n.clone_of->0, n.scope)
                && nodes[i].1.source_type != n.source_type && forall|j: int|
                0 <= j < i ==> !maps_here((#[trigger] nodes[j]).1, n.clone_of->0, n.scope)
    }
}

/// A finding on the path of a node, or on what it copies, comes where the path or the
/// copy breaks a rule, and only there.
pub proof fn law_findings_on_paths_and_copies(
    n: NodeV,
    ir: IrV,
    model: ModelV,
    adapters: TextSetV,
)
    ensures
        ({
            let s = node_findings(n, ir, model, adapters);
            &&& tells(s, n.id, "E021"@) <==> path_tells(n, ir, model, "E021"@)
            &&& tells(s, n.id, "E022"@) <==> path_tells(n, ir, model, "E022"@)
            &&& tells(s, n.id, "E023"@) <==> path_tells(n, ir, model, "E023"@)
            &&& tells(s, n.id, "E071"@) <==> copy_tells(n, ir.nodes, "E071"@)
            &&& tells(s, n.id, "E072"@) <==> copy_tells(n, ir.nodes, "E072"@)
        }),
{
    lemma_node_tells(n, ir, model, adapters, "E021"@);
    lemma_node_tells(n, ir, model, adapters, "E022"@);
    lemma_node_tells(n, ir, model, adapters, "E023"@);
    lemma_node_tells(n, ir, model, adapters, "E071"@);
    lemma_node_tells(n, ir, model, adapters, "E072"@);
    lemma_codes();
}

/// The findings on every node are among the findings on the mapping.
pub proof fn law_every_node_is_checked(
    ir: IrV,
    model: ModelV,
    adapters: TextSetV,
    i: int,
    code: Text,
)
    requires
        0 <= i < ir.nodes.len(),
    ensures
        tells(node_findings(ir.nodes[i].1, ir, model, adapters), ir.nodes[i].1.id, code) ==> tells(
            findings(ir, model, adapters),
            ir.nodes[i].1.id,
            code,
        ),
{
    broadcast use lemma_tells_joined;

    lemma_checked(ir, model, adapters, ir.nodes.len() as int, i, code);
    let a = model_id_findings(ir, model);
    let b = nodes_findings(ir, model, adapters, ir.nodes.len() as int);
    assert(findings(ir, model, adapters) == a + b + cycle_diags(ir.nodes));
}

proof fn lemma_checked(ir: IrV, model: ModelV, adapters: TextSetV, k: int, i: int, code: Text)
    requires
        0 <= i < k <= ir.nodes.len(),
    ensures
        tells(node_findings(ir.nodes[i].1, ir, model, adapters), ir.nodes[i].1.id, code) ==> tells(
            nodes_findings(ir, model, adapters, k),
            ir.nodes[i].1.id,
            code,
        ),
    decreases k,
{
    broadcast use lemma_tells_joined;

    if i < k - 1 {
        lemma_checked(ir, model, adapters, k - 1, i, code);
    }
    assert(nodes_findings(ir, model, adapters, k) == nodes_findings(ir, model, adapters, k - 1)
        + node_findings(ir.nodes[k - 1].1, ir, model, adapters));
}

/// A fallback can stand in for a node of its own kind, and the other way round: it is
/// the same relation from either side.
pub proof fn law_kinds_are_symmetric(a: MappingType, b: MappingType, c: MappingType)
    ensures
        compatible(a, a),
        compatible(a, b) <==> compatible(b, a),
        compatible(a, b) && compatible(b, c) ==> compatible(a, c),
        compatible(a, b) <==> same_kind(a, b),
{
}

proof fn lemma_not_blank(v: Text)
    requires
        v.len() > 0,
        !is_white(v[0]),
        !is_white(v.last()),
    ensures
        trim(v).len() > 0,
{
    let none = Seq::<char>::empty();
    law_trim_takes_the_white_space_around(none, v, none);
    assert(none + v + none =~= v);
}

/// What passes the check of a read value is accepted as a constant of its type: for
/// currencies exactly the same texts, for dates and times at least those.
pub proof fn law_constants_include_what_is_read(v: Text)
    ensures
        constant_problem(MappingType::Currency, v) is None <==> currency_shape(v),
        date_shape(v) ==> constant_problem(MappingType::Date, v) is None,
        datetime_shape(v) ==> constant_problem(MappingType::Datetime, v) is None,
        constant_problem(MappingType::Date, v) is None ==> v.len() == 10 && v[4] == '-' && v[7]
            == '-' && is_digit(v[0]) && is_digit(v[5]) && is_digit(v[8]) && is_digit(v[9]),
        constant_problem(MappingType::Datetime, v) is None ==> v.len() > 10 && v[10] == 'T'
            && constant_problem(MappingType::Date, v.take(10)) is None,
{
    if currency_shape(v) {
        assert(is_upper(v[0]) && is_upper(v[1]) && is_upper(v[2]));
        lemma_not_blank(v);
    }
    if constant_problem(MappingType::Currency, v) is None {
        assert forall|i: int| 0 <= i < 3 implies is_upper(#[trigger] v[i]) by {}
    }
    if date_shape(v) {
        assert(is_digit(v[0]) && is_digit(v[9]));
        lemma_not_blank(v);
        assert(date_shaped(v));
    }
    if datetime_shape(v) {
        let k = find(v, 'T');
        lemma_find(v, 'T');
        let d = v.take(k);
        assert(k == 10);
        assert forall|i: int| 0 <= i < 10 implies if i == 4 || i == 7 {
            #[trigger] v[i] == '-'
        } else {
            is_digit(v[i])
        } by {
            assert(d[i] == v[i]);
        }
        assert(date_shaped(v));
        assert(is_digit(v[0]));
        lemma_trim_keeps(v, 0);
    }
    if constant_problem(MappingType::Datetime, v) is None {
        let d = v.take(10);
        assert forall|i: int| 0 <= i < 10 implies if i == 4 || i == 7 {
            #[trigger] d[i] == '-'
        } else {
            is_digit(d[i])
        } by {
            assert(d[i] == v[i]);
        }
        assert(date_shaped(d));
        assert(is_digit(d[0]) && is_digit(d[9]));
        lemma_not_blank(d);
    }
    if constant_problem(MappingType::Date, v) is None {
        assert(v[4] == '-' && v[7] == '-');
        assert(is_digit(v[0]) && is_digit(v[5]) && is_digit(v[8]) && is_digit(v[9]));
    }
}

/// A text that holds anything but white space is a constant of free text, identifiers and
/// units; one that holds nothing else is no constant at all; and the two truth values are
/// the constants of their type.
pub proof fn law_blank_texts_are_no_constants(v: Text, ty: MappingType)
    ensures
        trim(v).len() == 0 ==> constant_problem(ty, v) is Some,
        trim(v).len() > 0 && (ty == MappingType::String || ty == MappingType::Identifier || ty
            == MappingType::UnitCode) ==> constant_problem(ty, v) is None,
        constant_problem(MappingType::Boolean, v) is None <==> v == "true"@ || v == "false"@,
{
    reveal_strlit("true");
    reveal_strlit("false");
    lemma_not_blank("true"@);
    lemma_not_blank("false"@);
}

/// A constant number is digits, with a sign in front or not, and with a point and more
/// digits behind or not; nothing else is one.
pub proof fn law_constant_numbers(a: Text, b: Text, sign: char, s: Text)
    requires
        all_digits(a),
        all_digits(b),
        sign == '+' || sign == '-',
    ensures
        is_decimal(a),
        is_decimal(a + seq!['.'] + b),
        is_decimal(seq![sign] + a),
        is_decimal(seq![sign] + (a + seq!['.'] + b)),
        constant_problem(MappingType::Decimal, s) is None <==> is_decimal(s),
        is_decimal(s) ==> s.len() > 0 && is_digit(s.last()) && forall|i: int|
            0 <= i < s.len() ==> is_digit(#[trigger] s[i]) || s[i] == '.' || i == 0 && (s[i] == '+'
                || s[i] == '-'),
        is_decimal(s) ==> forall|i: int, j: int|
            0 <= i < j < s.len() && s[i] == '.' ==> #[trigger] s[j] != '.' && #[trigger] s[i] == '.',
{
    assert(is_digit(a[0]));
    let both = a + seq!['.'] + b;
    assert(both[0] == a[0]);
    lemma_plain_number(a, b);
    assert(unsigned(a) == a);
    assert(unsigned(both) == both);
    assert((seq![sign] + a).drop_first() =~= a);
    assert((seq![sign] + both).drop_first() =~= both);
    assert((seq![sign] + a)[0] == sign);
    assert((seq![sign] + both)[0] == sign);
    if is_decimal(s) {
        lemma_decimal_chars(s);
        lemma_find(unsigned(s), '.');
        lemma_trim_keeps(s, s.len() - 1);
    }
}

proof fn lemma_plain_number(a: Text, b: Text)
    requires
        all_digits(a),
        all_digits(b),
    ensures
        find(a, '.') == a.len(),
        find(a + seq!['.'] + b, '.') == a.len(),
        (a + seq!['.'] + b).take(a.len() as int) == a,
        (a + seq!['.'] + b).skip(a.len() as int + 1) == b,
{
    let both = a + seq!['.'] + b;
    lemma_find(a, '.');
    lemma_find(both, '.');
    if find(a, '.') < a.len() {
        assert(is_digit(a[find(a, '.')]));
    }
    assert(both[a.len() as int] == '.');
    if find(both, '.') < a.len() {
        assert(is_digit(a[find(both, '.')]));
        assert(both[find(both, '.')] == a[find(both, '.')]);
    }
    assert(both.take(a.len() as int) =~= a);
    assert(both.skip(a.len() as int + 1) =~= b);
}

proof fn lemma_decimal_chars(s: Text)
    requires
        is_decimal(s),
    ensures
        s.len() > 0,
        is_digit(s.last()),
        forall|i: int|
            0 <= i < s.len() ==> is_digit(#[trigger] s[i]) || s[i] == '.' || i == 0 && (s[i] == '+'
                || s[i] == '-'),
        forall|i: int, j: int|
            0 <= i < j < s.len() && s[i] == '.' ==> #[trigger] s[j] != '.' && #[trigger] s[i] == '.',
{
    let d = unsigned(s);
    let off = s.len() - d.len();
    let dot = find(d, '.');
    lemma_find(d, '.');
    assert forall|i: int| 0 <= i < d.len() implies is_digit(#[trigger] d[i]) || i == dot by {
        if dot < d.len() {
            if i < dot {
                assert(d.take(dot)[i] == d[i]);
            } else if i > dot {
                assert(d.skip(dot + 1)[i - dot - 1] == d[i]);
            }
        }
    }
    assert forall|i: int| off <= i < s.len() implies #[trigger] s[i] == d[i - off] by {}
    assert(d.last() == s.last());
    if dot < d.len() {
        assert(d.skip(dot + 1).last() == d.last());
        assert(is_digit(d.skip(dot + 1)[d.skip(dot + 1).len() - 1]));
    } else {
        assert(is_digit(d[d.len() - 1]));
    }
}

} // verus!
