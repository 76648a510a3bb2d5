//! Checking a compiled mapping against its source model.
use vstd::prelude::*;

use crate::dsl::cycles::{check_fallback_cycles, cycle_diags};
use crate::dsl::error::{append_all, node_error, Diagnostic, DiagnosticV, Severity};
use crate::dsl::ir::{scopes_ascend, IrNodesV, IrV, MappingIr};
use crate::dsl::multiple::MultiplePolicy;
use crate::dsl::node::{NodeId, NodeV, Scope, SourceNode};
use crate::dsl::source_model::meta::{
    path_error_text, ModelV, PathError, PathErrorV, SourceModelMeta,
};
use crate::dsl::source_model::resolve::{resolve_path_from, resolved_from};
use crate::dsl::types::{type_keyword, MappingType};
use crate::ordmap::{lookup, member, OrdMap, TextSet, TextSetV};
use crate::text::{
    char_is_digit, char_is_upper, chars_of, find, index_of, is_digit, is_upper, outcome, same, trim,
    trimmed, Text,
};

verus! {

/// What a mapping is checked against.
pub struct ValidationInput<'a> {
    /// The compiled mapping.
    pub ir: &'a MappingIr,
    /// Its source model.
    pub source: &'a SourceModelMeta,
    /// The adapters that exist.
    pub adapters: &'a TextSet,
}

// ---------------------------------------------------------------------------
// What each check finds
// ---------------------------------------------------------------------------

/// Nothing, or one finding.
pub open spec fn only_if(cond: bool, d: DiagnosticV) -> Seq<DiagnosticV> {
    if cond {
        seq![d]
    } else {
        Seq::empty()
    }
}

/// Whether the mapping declares another source model than the one supplied.
pub open spec fn model_mismatch(ir: IrV, model: ModelV) -> bool {
    ir.meta.source_model matches Some(declared) && declared != model.model_id
}

/// The finding of a mapping for another source model.
pub open spec fn model_id_findings(ir: IrV, model: ModelV) -> Seq<DiagnosticV> {
    only_if(
        model_mismatch(ir, model),
        DiagnosticV {
            code: "E020"@,
            severity: Severity::Error,
            source_node: None,
            message: "mapping targets source model `"@ + ir.meta.source_model->0
                + "` but the supplied metadata is for `"@ + model.model_id + "`"@,
            span: None,
        },
    )
}

/// The struct of the items of the collection `coll`.
pub open spec fn items_struct(nodes: IrNodesV, model: ModelV, coll: Text) -> Result<Text, PathErrorV>
    decreases coll.len(),
{
    match lookup::<NodeId, NodeV>(nodes, coll) {
        None => Err(PathErrorV::UnknownRoot(coll)),
        Some(c) => {
            let base = match c.scope {
                None => Ok(model.root),
                Some(outer) => if outer.len() >= coll.len() {
                    Err(PathErrorV::Empty)
                } else {
                    items_struct(nodes, model, outer)
                },
            };
            match base {
                Err(e) => Err(e),
                Ok(b) => match resolved_from(model, b, c.source_path) {
                    Err(e) => Err(e),
                    Ok(f) => match f.struct_name {
                        Some(name) => Ok(name),
                        None => Err(
                            PathErrorV::NotAStruct { struct_name: b, field: c.source_path },
                        ),
                    },
                },
            }
        },
    }
}

/// The struct that the path of a node in a scope starts from.
pub open spec fn base_of(nodes: IrNodesV, model: ModelV, scope: Option<Text>) -> Result<
    Text,
    PathErrorV,
> {
    match scope {
        None => Ok(model.root),
        Some(coll) => items_struct(nodes, model, coll),
    }
}

/// The findings on the source path of a node. Nothing is said below a collection
/// whose own path is invalid, or when the source model is another one.
pub open spec fn path_findings(n: NodeV, ir: IrV, model: ModelV) -> Seq<DiagnosticV> {
    if model_mismatch(ir, model) {
        Seq::empty()
    } else {
        match base_of(ir.nodes, model, n.scope) {
            Err(_) => Seq::empty(),
            Ok(base) => match resolved_from(model, base, n.source_path) {
                Err(e) => seq![
                    node_error(
                        "E021"@,
                        n.id,
                        "source path `"@ + n.source_path + "` is invalid: "@ + path_error_text(e),
                    ),
                ],
                Ok(f) => {
                    let collection = n.source_type == MappingType::Collection;
                    only_if(
                        collection && !f.repeated,
                        node_error(
                            "E022"@,
                            n.id,
                            "collection node path `"@ + n.source_path
                                + "` does not resolve to a repeated (Vec) field"@,
                        ),
                    ) + only_if(
                        !collection && f.is_struct,
                        node_error(
                            "E023"@,
                            n.id,
                            "scalar node path `"@ + n.source_path
                                + "` resolves to a struct, not a leaf value"@,
                        ),
                    )
                },
            },
        }
    }
}

/// The findings on fields that do not go together.
pub open spec fn structural_findings(n: NodeV) -> Seq<DiagnosticV> {
    let join = n.multiple == Some(MultiplePolicy::Join);
    only_if(
        join && n.join_with is None,
        node_error("E040"@, n.id, "multiple = \"join\" requires `join_with`"@),
    ) + only_if(
        !join && n.join_with is Some,
        node_error("E040"@, n.id, "`join_with` is only valid with multiple = \"join\""@),
    ) + only_if(
        n.min_items is Some && n.source_type != MappingType::Collection,
        node_error("E041"@, n.id, "`min_items` is only valid on a collection node"@),
    ) + only_if(
        n.multiple is Some && n.fallbacks.len() > 0,
        node_error("E043"@, n.id, "`multiple` cannot be combined with `fallbacks`"@),
    )
}

/// Whether a fallback of one type can stand in for a primary of another.
pub open spec fn compatible(primary: MappingType, fallback: MappingType) -> bool {
    if primary == MappingType::String || primary == MappingType::Identifier {
        fallback == MappingType::String || fallback == MappingType::Identifier
    } else {
        fallback == primary
    }
}

/// The findings on one fallback of a node.
pub open spec fn fallback_findings(n: NodeV, nodes: IrNodesV, target: Text) -> Seq<DiagnosticV> {
    match lookup::<NodeId, NodeV>(nodes, target) {
        None => seq![
            node_error(
                "E030"@,
                n.id,
                "fallback target `"@ + target + "` does not exist or is disabled"@,
            ),
        ],
        Some(t) => only_if(
            !compatible(n.source_type, t.source_type),
            node_error(
                "E031"@,
                n.id,
                "fallback `"@ + target + "` has incompatible type `"@ + type_keyword(t.source_type)
                    + "` for primary type `"@ + type_keyword(n.source_type) + "`"@,
            ),
        ) + only_if(
            t.scope != n.scope,
            node_error(
                "E032"@,
                n.id,
                "fallback `"@ + target
                    + "` is in a different scope; a fallback must share the referring node's scope (codegen reads it against that scope)"@,
            ),
        ),
    }
}

/// The findings on the first `k` fallbacks of a node.
pub open spec fn fallbacks_findings(n: NodeV, nodes: IrNodesV, k: int) -> Seq<DiagnosticV>
    decreases k,
{
    if k <= 0 {
        Seq::empty()
    } else {
        fallbacks_findings(n, nodes, k - 1) + fallback_findings(n, nodes, n.fallbacks[k - 1])
    }
}

/// The finding of an adapter that does not exist.
pub open spec fn adapter_findings(n: NodeV, adapters: TextSetV) -> Seq<DiagnosticV> {
    only_if(
        n.adapter is Some && !member(adapters, n.adapter->0),
        node_error("E050"@, n.id, "unknown adapter `"@ + n.adapter->0 + "`"@),
    )
}

/// Whether a text is non-empty and all digits.
pub open spec fn all_digits(s: Text) -> bool {
    s.len() > 0 && forall|i: int| 0 <= i < s.len() ==> is_digit(#[trigger] s[i])
}

/// Whether the first ten characters have the shape of `YYYY-MM-DD`.
pub open spec fn date_shaped(s: Text) -> bool {
    s.len() >= 10 && forall|i: int|
        0 <= i < 10 ==> if i == 4 || i == 7 {
            #[trigger] s[i] == '-'
        } else {
            is_digit(s[i])
        }
}

/// A number without its sign.
pub open spec fn unsigned(s: Text) -> Text {
    if s.len() > 0 && (s[0] == '+' || s[0] == '-') {
        s.drop_first()
    } else {
        s
    }
}

/// Whether a text is a decimal number: an optional sign, digits, and optionally a
/// point and more digits.
pub open spec fn is_decimal(s: Text) -> bool {
    let d = unsigned(s);
    let dot = find(d, '.');
    if dot < d.len() {
        all_digits(d.take(dot)) && all_digits(d.skip(dot + 1))
    } else {
        all_digits(d)
    }
}

/// Why a text is no constant of a type, if it is none.
pub open spec fn constant_problem(ty: MappingType, v: Text) -> Option<Text> {
    if trim(v).len() == 0 {
        Some("it is empty"@)
    } else {
        match ty {
            MappingType::Boolean => if v == "true"@ || v == "false"@ {
                None
            } else {
                Some("expected `true` or `false`"@)
            },
            MappingType::Currency => if v.len() == 3 && is_upper(v[0]) && is_upper(v[1])
                && is_upper(v[2]) {
                None
            } else {
                Some("expected three uppercase ASCII letters"@)
            },
            MappingType::Decimal => if is_decimal(v) {
                None
            } else {
                Some("expected a plain decimal number"@)
            },
            MappingType::Date => if v.len() == 10 && date_shaped(v) {
                None
            } else {
                Some("expected `YYYY-MM-DD`"@)
            },
            MappingType::Datetime => if v.len() > 10 && date_shaped(v) && v[10] == 'T' {
                None
            } else {
                Some("expected `YYYY-MM-DDThh:mm:ss…`"@)
            },
            _ => None,
        }
    }
}

/// The finding of a constant together with another field.
pub open spec fn constant_clash(n: NodeV, set: bool, field: Text) -> Seq<DiagnosticV> {
    only_if(
        set,
        node_error(
            "E062"@,
            n.id,
            "`constant` cannot be combined with `"@ + field
                + "`; the literal is emitted verbatim on write"@,
        ),
    )
}

/// The findings on the constant of a node.
pub open spec fn constant_findings(n: NodeV) -> Seq<DiagnosticV> {
    match n.constant {
        None => Seq::empty(),
        Some(v) => if n.source_type == MappingType::Collection {
            seq![node_error("E060"@, n.id, "`constant` is not valid on a collection node"@)]
        } else {
            let problem = constant_problem(n.source_type, v);
            only_if(
                problem is Some,
                node_error(
                    "E061"@,
                    n.id,
                    "constant `"@ + v + "` is not a valid `"@ + type_keyword(n.source_type)
                        + "` literal: "@ + problem->0,
                ),
            ) + constant_clash(n, n.fallbacks.len() > 0, "fallbacks"@) + constant_clash(
                n,
                n.multiple is Some,
                "multiple"@,
            ) + constant_clash(n, n.adapter is Some, "adapter"@) + constant_clash(
                n,
                n.normalize.len() > 0,
                "normalize"@,
            )
        },
    }
}

/// The finding of a clone together with another field.
pub open spec fn clone_clash(n: NodeV, set: bool, field: Text) -> Seq<DiagnosticV> {
    only_if(
        set,
        node_error(
            "E070"@,
            n.id,
            "`clone_of` cannot be combined with `"@ + field
                + "`; a clone only mirrors its target key"@,
        ),
    )
}

/// The first node of a scope that maps a key.
pub open spec fn mapped_in_scope(nodes: IrNodesV, key: Text, scope: Option<Text>) -> Option<NodeV>
    decreases nodes.len(),
{
    if nodes.len() == 0 {
        None
    } else if nodes[0].1.canonical_key == Some(key) && nodes[0].1.scope == scope {
        Some(nodes[0].1)
    } else {
        mapped_in_scope(nodes.drop_first(), key, scope)
    }
}

/// The findings on the key a node mirrors.
pub open spec fn clone_target_findings(n: NodeV, nodes: IrNodesV, key: Text) -> Seq<DiagnosticV> {
    match mapped_in_scope(nodes, key, n.scope) {
        None => seq![
            node_error(
                "E071"@,
                n.id,
                "clone_of target `"@ + key + "` is not a canonical key declared in this scope"@,
            ),
        ],
        Some(t) => only_if(
            t.source_type != n.source_type,
            node_error(
                "E072"@,
                n.id,
                "clone of `"@ + key + "` is declared `"@ + type_keyword(n.source_type)
                    + "` but the target is `"@ + type_keyword(t.source_type)
                    + "`; the types must match"@,
            ),
        ),
    }
}

/// The findings on a node that mirrors another key.
pub open spec fn clone_findings(n: NodeV, nodes: IrNodesV) -> Seq<DiagnosticV> {
    match n.clone_of {
        None => Seq::empty(),
        Some(key) => if n.source_type == MappingType::Collection {
            seq![node_error("E070"@, n.id, "`clone_of` is not valid on a collection node"@)]
        } else {
            clone_clash(n, n.canonical_key is Some, "canonical_key"@) + clone_clash(
                n,
                n.constant is Some,
                "constant"@,
            ) + clone_clash(n, n.fallbacks.len() > 0, "fallbacks"@) + clone_clash(
                n,
                n.multiple is Some,
                "multiple"@,
            ) + clone_clash(n, n.adapter is Some, "adapter"@) + clone_target_findings(n, nodes, key)
        },
    }
}

/// All findings on one node.
pub open spec fn node_findings(n: NodeV, ir: IrV, model: ModelV, adapters: TextSetV) -> Seq<
    DiagnosticV,
> {
    path_findings(n, ir, model) + structural_findings(n) + fallbacks_findings(
        n,
        ir.nodes,
        n.fallbacks.len() as int,
    ) + adapter_findings(n, adapters) + constant_findings(n) + clone_findings(n, ir.nodes)
}

/// The findings on the first `k` nodes.
pub open spec fn nodes_findings(ir: IrV, model: ModelV, adapters: TextSetV, k: int) -> Seq<
    DiagnosticV,
>
    decreases k,
{
    if k <= 0 {
        Seq::empty()
    } else {
        nodes_findings(ir, model, adapters, k - 1) + node_findings(
            ir.nodes[k - 1].1,
            ir,
            model,
            adapters,
        )
    }
}

/// All findings on a mapping.
pub open spec fn findings(ir: IrV, model: ModelV, adapters: TextSetV) -> Seq<DiagnosticV> {
    model_id_findings(ir, model) + nodes_findings(ir, model, adapters, ir.nodes.len() as int)
        + cycle_diags(ir.nodes)
}

// ---------------------------------------------------------------------------
// The checks
// ---------------------------------------------------------------------------

/// A finding if a condition holds.
fn one_if(cond: bool, code: &str, node: &NodeId, message: String) -> (r: Vec<Diagnostic>)
    ensures
        r.deep_view() == only_if(cond, node_error(code@, node@, message@)),
{
    let mut r: Vec<Diagnostic> = Vec::new();
    assert(r.deep_view() =~= Seq::<DiagnosticV>::empty());
    if cond {
        let d = Diagnostic::about(code, node.as_str(), message);
        r.push(d);
        assert(r.deep_view() =~= seq![d@]);
    }
    r
}

/// No finding.
fn nothing() -> (r: Vec<Diagnostic>)
    ensures
        r.deep_view() == Seq::<DiagnosticV>::empty(),
{
    let r: Vec<Diagnostic> = Vec::new();
    assert(r.deep_view() =~= Seq::<DiagnosticV>::empty());
    r
}

/// `a`, `b` and `c` in a row.
fn cat3(a: &str, b: &str, c: &str) -> (out: String)
    ensures
        out@ == a@ + b@ + c@,
{
    let mut out = a.to_string();
    out.push_str(b);
    out.push_str(c);
    out
}

impl<'a> ValidationInput<'a> {
    /// Whether the mapping declares another source model than the one supplied.
    fn mismatch(&self) -> (r: bool)
        ensures
            r == model_mismatch(self.ir@, self.source@),
    {
        match &self.ir.meta.source_model {
            Some(declared) => !same(declared.as_str(), self.source.model_id.as_str()),
            None => false,
        }
    }
}

/// Checks that the mapping is for the supplied source model.
fn check_source_model_id(input: &ValidationInput) -> (r: Vec<Diagnostic>)
    ensures
        r.deep_view() == model_id_findings(input.ir@, input.source@),
{
    let mut r: Vec<Diagnostic> = Vec::new();
    assert(r.deep_view() =~= Seq::<DiagnosticV>::empty());
    if input.mismatch() {
        if let Some(declared) = &input.ir.meta.source_model {
            let mut message = cat3(
                "mapping targets source model `",
                declared.as_str(),
                "` but the supplied metadata is for `",
            );
            message.push_str(input.source.model_id.as_str());
            message.push_str("`");
            let d = Diagnostic {
                code: "E020".to_string(),
                severity: Severity::Error,
                source_node: None,
                message,
                span: None,
            };
            r.push(d);
            assert(r.deep_view() =~= seq![d@]);
        }
    }
    r
}

/// The struct of the items of a collection.
fn struct_of_items(
    nodes: &OrdMap<NodeId, SourceNode>,
    source: &SourceModelMeta,
    coll: &NodeId,
) -> (r: Result<String, PathError>)
    requires
        scopes_ascend(nodes@),
    ensures
        outcome(r) == items_struct(nodes@, source@, coll@),
    decreases coll@.len(),
{
    proof {
        crate::ordmap::lemma_lookup_none::<NodeId, NodeV>(nodes@, coll@);
    }
    let c = match nodes.get(coll) {
        None => {
            return Err(PathError::UnknownRoot(coll.as_str().to_string()));
        },
        Some(c) => c,
    };
    let base = match &c.scope {
        Scope::Root => source.root.clone(),
        Scope::Collection(outer) => match struct_of_items(nodes, source, outer) {
            Ok(b) => b,
            Err(e) => {
                return Err(e);
            },
        },
    };
    match resolve_path_from(source, base.as_str(), c.source_path.as_str()) {
        Err(e) => Err(e),
        Ok(f) => match f.struct_name {
            Some(name) => Ok(name),
            None => Err(PathError::NotAStruct { struct_name: base, field: c.source_path.clone() }),
        },
    }
}

/// The struct that the path of a node starts from.
fn base_struct(node: &SourceNode, ir: &MappingIr, source: &SourceModelMeta) -> (r: Result<
    String,
    PathError,
>)
    requires
        scopes_ascend(ir@.nodes),
    ensures
        outcome(r) == base_of(ir@.nodes, source@, node@.scope),
{
    match &node.scope {
        Scope::Root => Ok(source.root.clone()),
        Scope::Collection(coll) => struct_of_items(&ir.nodes, source, coll),
    }
}

/// Checks the source path of a node.
fn check_path(node: &SourceNode, input: &ValidationInput) -> (r: Vec<Diagnostic>)
    requires
        scopes_ascend(input.ir@.nodes),
    ensures
        r.deep_view() == path_findings(node@, input.ir@, input.source@),
{
    if input.mismatch() {
        return nothing();
    }
    let base = match base_struct(node, input.ir, input.source) {
        Ok(b) => b,
        Err(_) => {
            return nothing();
        },
    };
    let path = node.source_path.as_str();
    match resolve_path_from(input.source, base.as_str(), path) {
        Err(e) => {
            let mut message = cat3("source path `", path, "` is invalid: ");
            message.push_str(e.message().as_str());
            one_if(true, "E021", &node.id, message)
        },
        Ok(f) => {
            let mut r = one_if(
                node.is_collection() && !f.repeated,
                "E022",
                &node.id,
                cat3(
                    "collection node path `",
                    path,
                    "` does not resolve to a repeated (Vec) field",
                ),
            );
            append_all(
                &mut r,
                one_if(
                    !node.is_collection() && f.is_struct,
                    "E023",
                    &node.id,
                    cat3("scalar node path `", path, "` resolves to a struct, not a leaf value"),
                ),
            );
            r
        },
    }
}

/// Checks fields that do not go together.
fn check_structural(node: &SourceNode) -> (r: Vec<Diagnostic>)
    ensures
        r.deep_view() == structural_findings(node@),
{
    let join = match node.multiple {
        Some(p) => p == MultiplePolicy::Join,
        None => false,
    };
    let mut r = one_if(
        join && node.join_with.is_none(),
        "E040",
        &node.id,
        "multiple = \"join\" requires `join_with`".to_string(),
    );
    append_all(
        &mut r,
        one_if(
            !join && node.join_with.is_some(),
            "E040",
            &node.id,
            "`join_with` is only valid with multiple = \"join\"".to_string(),
        ),
    );
    append_all(
        &mut r,
        one_if(
            node.min_items.is_some() && !node.is_collection(),
            "E041",
            &node.id,
            "`min_items` is only valid on a collection node".to_string(),
        ),
    );
    append_all(
        &mut r,
        one_if(
            node.multiple.is_some() && node.fallbacks.len() > 0,
            "E043",
            &node.id,
            "`multiple` cannot be combined with `fallbacks`".to_string(),
        ),
    );
    r
}

/// Whether a fallback of one type can stand in for a primary of another.
fn fallback_type_compatible(primary: MappingType, fallback: MappingType) -> (r: bool)
    ensures
        r == compatible(primary, fallback),
{
    if primary == MappingType::String || primary == MappingType::Identifier {
        fallback == MappingType::String || fallback == MappingType::Identifier
    } else {
        fallback == primary
    }
}

/// Whether two scopes are the same.
fn same_scope(a: &Scope, b: &Scope) -> (r: bool)
    ensures
        r == (a@ == b@),
{
    match (a, b) {
        (Scope::Root, Scope::Root) => true,
        (Scope::Collection(x), Scope::Collection(y)) => same(x.as_str(), y.as_str()),
        _ => false,
    }
}

/// Checks one fallback of a node.
fn check_fallback(node: &SourceNode, ir: &MappingIr, target_id: &NodeId) -> (r: Vec<Diagnostic>)
    ensures
        r.deep_view() == fallback_findings(node@, ir@.nodes, target_id@),
{
    let target = match ir.nodes.get(target_id) {
        None => {
            return one_if(
                true,
                "E030",
                &node.id,
                cat3(
                    "fallback target `",
                    target_id.as_str(),
                    "` does not exist or is disabled",
                ),
            );
        },
        Some(t) => t,
    };
    let mut message = cat3("fallback `", target_id.as_str(), "` has incompatible type `");
    message.push_str(target.source_type.as_str());
    message.push_str("` for primary type `");
    message.push_str(node.source_type.as_str());
    message.push_str("`");
    let mut r = one_if(
        !fallback_type_compatible(node.source_type, target.source_type),
        "E031",
        &node.id,
        message,
    );
    append_all(
        &mut r,
        one_if(
            !same_scope(&target.scope, &node.scope),
            "E032",
            &node.id,
            cat3(
                "fallback `",
                target_id.as_str(),
                "` is in a different scope; a fallback must share the referring node's scope (codegen reads it against that scope)",
            ),
        ),
    );
    r
}

/// Checks the fallbacks of a node.
fn check_fallbacks(node: &SourceNode, ir: &MappingIr) -> (r: Vec<Diagnostic>)
    ensures
        r.deep_view() == fallbacks_findings(node@, ir@.nodes, node@.fallbacks.len() as int),
{
    let mut r = nothing();
    let mut k: usize = 0;
    while k < node.fallbacks.len()
        invariant
            k <= node.fallbacks.len(),
            r.deep_view() == fallbacks_findings(node@, ir@.nodes, k as int),
        decreases node.fallbacks.len() - k,
    {
        append_all(&mut r, check_fallback(node, ir, &node.fallbacks[k]));
        k += 1;
    }
    r
}

/// Checks that the adapter of a node exists.
fn check_adapter(node: &SourceNode, adapters: &TextSet) -> (r: Vec<Diagnostic>)
    ensures
        r.deep_view() == adapter_findings(node@, adapters@),
{
    match &node.adapter {
        None => nothing(),
        Some(name) => one_if(
            !adapters.contains_key(name),
            "E050",
            &node.id,
            cat3("unknown adapter `", name.as_str(), "`"),
        ),
    }
}

/// Whether the characters from `from` to `to` are digits, and there are some.
fn digits_between(chars: &Vec<char>, from: usize, to: usize) -> (r: bool)
    requires
        from <= to <= chars.len(),
    ensures
        r == all_digits(chars@.subrange(from as int, to as int)),
{
    let ghost s = chars@.subrange(from as int, to as int);
    let mut i: usize = from;
    while i < to
        invariant
            from <= i <= to <= chars.len(),
            s == chars@.subrange(from as int, to as int),
            forall|j: int| 0 <= j < i - from ==> is_digit(#[trigger] s[j]),
        decreases to - i,
    {
        if !char_is_digit(chars[i]) {
            assert(!is_digit(s[i - from]));
            return false;
        }
        i += 1;
    }
    from < to
}

/// Whether a text is a decimal number.
fn decimal_shaped(value: &str) -> (r: bool)
    ensures
        r == is_decimal(value@),
{
    let mut chars = chars_of(value);
    if chars.len() > 0 && (chars[0] == '+' || chars[0] == '-') {
        chars.remove(0);
    }
    let ghost d = unsigned(value@);
    assert(chars@ =~= d);
    let dot = index_of(&chars, '.');
    let n = chars.len();
    proof {
        assert(d.subrange(0, dot as int) =~= d.take(dot as int));
        assert(d.subrange(0, n as int) =~= d);
        if dot < n {
            assert(d.subrange(dot + 1, n as int) =~= d.skip(dot + 1));
        }
    }
    if dot < n {
        digits_between(&chars, 0, dot) && digits_between(&chars, dot + 1, n)
    } else {
        digits_between(&chars, 0, n)
    }
}

/// Whether the first ten characters have the shape of `YYYY-MM-DD`.
fn starts_like_date(chars: &Vec<char>) -> (r: bool)
    ensures
        r == date_shaped(chars@),
{
    if chars.len() < 10 {
        return false;
    }
    let mut i: usize = 0;
    while i < 10
        invariant
            i <= 10 <= chars.len(),
            forall|j: int|
                0 <= j < i ==> if j == 4 || j == 7 {
                    #[trigger] chars@[j] == '-'
                } else {
                    is_digit(chars@[j])
                },
        decreases 10 - i,
    {
        let c = chars[i];
        let good = if i == 4 || i == 7 {
            c == '-'
        } else {
            char_is_digit(c)
        };
        if !good {
            assert(chars@[i as int] == c);
            return false;
        }
        i += 1;
    }
    true
}

/// Why a text is no constant of a type, if it is none.
fn constant_literal_error(ty: MappingType, value: &str) -> (r: Option<String>)
    ensures
        r.deep_view() == constant_problem(ty, value@),
{
    if trimmed(value).as_str().is_empty() {
        return Some("it is empty".to_string());
    }
    let chars = chars_of(value);
    match ty {
        MappingType::Boolean => {
            if same(value, "true") || same(value, "false") {
                None
            } else {
                Some("expected `true` or `false`".to_string())
            }
        },
        MappingType::Currency => {
            if chars.len() == 3 && char_is_upper(chars[0]) && char_is_upper(chars[1])
                && char_is_upper(chars[2]) {
                None
            } else {
                Some("expected three uppercase ASCII letters".to_string())
            }
        },
        MappingType::Decimal => {
            if decimal_shaped(value) {
                None
            } else {
                Some("expected a plain decimal number".to_string())
            }
        },
        MappingType::Date => {
            if chars.len() == 10 && starts_like_date(&chars) {
                None
            } else {
                Some("expected `YYYY-MM-DD`".to_string())
            }
        },
        MappingType::Datetime => {
            if chars.len() > 10 && starts_like_date(&chars) && chars[10] == 'T' {
                None
            } else {
                Some("expected `YYYY-MM-DDThh:mm:ss…`".to_string())
            }
        },
        _ => None,
    }
}

/// The finding of a constant together with another field.
fn constant_with(node: &SourceNode, set: bool, field: &str) -> (r: Vec<Diagnostic>)
    ensures
        r.deep_view() == constant_clash(node@, set, field@),
{
    one_if(
        set,
        "E062",
        &node.id,
        cat3(
            "`constant` cannot be combined with `",
            field,
            "`; the literal is emitted verbatim on write",
        ),
    )
}

/// Checks the constant of a node.
fn check_constant(node: &SourceNode) -> (r: Vec<Diagnostic>)
    ensures
        r.deep_view() == constant_findings(node@),
{
    let value = match &node.constant {
        None => {
            return nothing();
        },
        Some(v) => v.as_str(),
    };
    if node.is_collection() {
        return one_if(
            true,
            "E060",
            &node.id,
            "`constant` is not valid on a collection node".to_string(),
        );
    }
    let mut r = match constant_literal_error(node.source_type, value) {
        None => nothing(),
        Some(reason) => {
            let mut message = cat3("constant `", value, "` is not a valid `");
            message.push_str(node.source_type.as_str());
            message.push_str("` literal: ");
            message.push_str(reason.as_str());
            one_if(true, "E061", &node.id, message)
        },
    };
    append_all(&mut r, constant_with(node, node.fallbacks.len() > 0, "fallbacks"));
    append_all(&mut r, constant_with(node, node.multiple.is_some(), "multiple"));
    append_all(&mut r, constant_with(node, node.adapter.is_some(), "adapter"));
    append_all(&mut r, constant_with(node, node.normalize.len() > 0, "normalize"));
    r
}

/// The finding of a clone together with another field.
fn clone_with(node: &SourceNode, set: bool, field: &str) -> (r: Vec<Diagnostic>)
    ensures
        r.deep_view() == clone_clash(node@, set, field@),
{
    one_if(
        set,
        "E070",
        &node.id,
        cat3(
            "`clone_of` cannot be combined with `",
            field,
            "`; a clone only mirrors its target key",
        ),
    )
}

/// Whether a node maps a key in a scope.
fn maps_in_scope(node: &SourceNode, key: &str, scope: &Scope) -> (r: bool)
    ensures
        r == (node@.canonical_key == Some(key@) && node@.scope == scope@),
{
    match &node.canonical_key {
        Some(k) => same(k.as_str(), key) && same_scope(&node.scope, scope),
        None => false,
    }
}

/// Checks that the key a node mirrors is mapped in its scope, with its type.
fn check_clone_target(node: &SourceNode, ir: &MappingIr, key: &str) -> (r: Vec<Diagnostic>)
    ensures
        r.deep_view() == clone_target_findings(node@, ir@.nodes, key@),
{
    let ghost nodes = ir@.nodes;
    let mut i: usize = 0;
    assert(nodes.skip(0) =~= nodes);
    while i < ir.nodes.len() && !maps_in_scope(ir.nodes.value_at(i), key, &node.scope)
        invariant
            i <= nodes.len(),
            nodes == ir@.nodes,
            mapped_in_scope(nodes, key@, node@.scope) == mapped_in_scope(
                nodes.skip(i as int),
                key@,
                node@.scope,
            ),
        decreases nodes.len() - i,
    {
        proof {
            assert(nodes.skip(i as int).drop_first() =~= nodes.skip(i + 1));
        }
        i += 1;
    }
    if i == ir.nodes.len() {
        one_if(
            true,
            "E071",
            &node.id,
            cat3(
                "clone_of target `",
                key,
                "` is not a canonical key declared in this scope",
            ),
        )
    } else {
        let target = ir.nodes.value_at(i);
        let mut message = cat3("clone of `", key, "` is declared `");
        message.push_str(node.source_type.as_str());
        message.push_str("` but the target is `");
        message.push_str(target.source_type.as_str());
        message.push_str("`; the types must match");
        one_if(target.source_type != node.source_type, "E072", &node.id, message)
    }
}

/// Checks a node that mirrors another key.
fn check_clone_of(node: &SourceNode, ir: &MappingIr) -> (r: Vec<Diagnostic>)
    ensures
        r.deep_view() == clone_findings(node@, ir@.nodes),
{
    let key = match &node.clone_of {
        None => {
            return nothing();
        },
        Some(k) => k.as_str(),
    };
    if node.is_collection() {
        return one_if(
            true,
            "E070",
            &node.id,
            "`clone_of` is not valid on a collection node".to_string(),
        );
    }
    let mut r = clone_with(node, node.canonical_key.is_some(), "canonical_key");
    append_all(&mut r, clone_with(node, node.constant.is_some(), "constant"));
    append_all(&mut r, clone_with(node, node.fallbacks.len() > 0, "fallbacks"));
    append_all(&mut r, clone_with(node, node.multiple.is_some(), "multiple"));
    append_all(&mut r, clone_with(node, node.adapter.is_some(), "adapter"));
    append_all(&mut r, check_clone_target(node, ir, key));
    r
}

/// Checks one node.
fn check_node(node: &SourceNode, input: &ValidationInput) -> (r: Vec<Diagnostic>)
    requires
        scopes_ascend(input.ir@.nodes),
    ensures
        r.deep_view() == node_findings(node@, input.ir@, input.source@, input.adapters@),
{
    let mut r = check_path(node, input);
    append_all(&mut r, check_structural(node));
    append_all(&mut r, check_fallbacks(node, input.ir));
    append_all(&mut r, check_adapter(node, input.adapters));
    append_all(&mut r, check_constant(node));
    append_all(&mut r, check_clone_of(node, input.ir));
    r
}

/// Validates a mapping: its source model, every node, and the fallback graph.
pub fn validate(input: &ValidationInput) -> (r: Vec<Diagnostic>)
    requires
        scopes_ascend(input.ir@.nodes),
    ensures
        r.deep_view() == findings(input.ir@, input.source@, input.adapters@),
{
    let ghost (ir, model, adapters) = (input.ir@, input.source@, input.adapters@);
    let mut on_nodes = nothing();
    let mut i: usize = 0;
    while i < input.ir.nodes.len()
        invariant
            i <= ir.nodes.len(),
            ir == input.ir@,
            model == input.source@,
            adapters == input.adapters@,
            scopes_ascend(ir.nodes),
            on_nodes.deep_view() == nodes_findings(ir, model, adapters, i as int),
        decreases ir.nodes.len() - i,
    {
        append_all(&mut on_nodes, check_node(input.ir.nodes.value_at(i), input));
        i += 1;
    }
    let mut diags = check_source_model_id(input);
    append_all(&mut diags, on_nodes);
    append_all(&mut diags, check_fallback_cycles(input.ir));
    diags
}

} // verus!
