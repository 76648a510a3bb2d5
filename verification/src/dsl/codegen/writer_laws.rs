//! What generated writers do: which values they write, where, and what they report.
use vstd::prelude::*;

use crate::dsl::codegen::access::target_of;
use crate::dsl::codegen::diag::{path_diag, DiagSpecV};
use crate::dsl::codegen::naming::field_of;
use crate::dsl::codegen::plan::FrameV;
use crate::dsl::codegen::reader_laws::{
    lemma_note, lemma_pieces_behind, lemma_severities, note_code,
};
use crate::dsl::codegen::reader_more::{enforces_least, least_steps, lemma_least};
use crate::dsl::codegen::reader_values::{is_code, lemma_indents, problem};
use crate::dsl::codegen::script::{
    ahead, appended, eval, lemma_ahead, lemma_assigns, lemma_chooses, lemma_evals, lemma_grows,
    lemma_puts, lemma_unwraps, only, run, show, step, write_code, write_step, Code, Expr, Function,
    Local, Machine, Method, Step, Val, World,
};
use crate::dsl::codegen::write::{
    constant_code, hub_key_of, leaf_optional, leaf_repeated, missing_code, rendered_expr,
    scalar_write_code, write_closing, write_test,
};
use crate::dsl::node::NodeV;
use crate::dsl::source_model::meta::ModelV;
use crate::dsl::types::MappingType;
use crate::runtime::result::Severity;
use crate::text::{decimal, quoted, Text};

verus! {

// ---------------------------------------------------------------------------
// Constants
// ---------------------------------------------------------------------------

/// What a place holds once a text was written to it.
pub open spec fn held(text: Text, optional: bool) -> Val {
    if optional {
        Val::Present(Box::new(Val::Words(text)))
    } else {
        Val::Words(text)
    }
}

/// Whether statements write a text to a place, and do nothing else.
pub open spec fn writes_text(c: Code, place: Text, text: Text, optional: bool) -> bool {
    forall|w: World, m: Machine|
        #![trigger run(c, w, m)]
        run(c, w, m) == (Machine { places: m.places.insert(place, held(text, optional)), ..m })
}

spec fn literal(text: Text) -> Expr {
    Expr::Apply(Function::FromText, Box::new(Expr::Literal(text)))
}

spec fn wrapped(e: Expr) -> Expr {
    Expr::Apply(Function::Wrap, Box::new(e))
}

proof fn lemma_constant_words(text: Text)
    ensures
        show(literal(text)) == "CompactString::from("@ + quoted(text) + ")"@,
        show(wrapped(literal(text))) == "Some("@ + show(literal(text)) + ")"@,
        " = Some("@ == " = "@ + "Some("@,
        ");\n"@ == ")"@ + ";\n"@,
{
    lemma_pieces_behind();
    reveal_with_fuel(show, 4);
    reveal_strlit("CompactString::from(");
    reveal_strlit("CompactString::from");
    reveal_strlit("(");
    assert("CompactString::from("@ =~= "CompactString::from"@ + "("@);
    reveal_strlit("Some(");
    reveal_strlit("Some");
    assert("Some("@ =~= "Some"@ + "("@);
    reveal_strlit(" = Some(");
    reveal_strlit(" = ");
    assert(" = Some("@ =~= " = "@ + "Some("@);
    reveal_strlit(");\n");
    reveal_strlit(")");
    reveal_strlit(";\n");
    assert(");\n"@ =~= ")"@ + ";\n"@);
}

/// The code of a constant writes its text to the node's place, whatever the hub holds.
pub proof fn law_constants_are_written(
    model: ModelV,
    node: NodeV,
    start: Text,
    src_var: Text,
    pad: Text,
)
    ensures
        exists|c: Code|
            is_code(|t: Text| constant_code(t, model, node, start, src_var, pad), pad, c)
                && #[trigger] writes_text(
                c,
                target_of(model, start, node.source_path, src_var),
                node.constant->0,
                leaf_optional(model, start, node.source_path),
            ),
{
    let place = target_of(model, start, node.source_path, src_var);
    let text = node.constant->0;
    let optional = leaf_optional(model, start, node.source_path);
    let e = if optional {
        wrapped(literal(text))
    } else {
        literal(text)
    };
    let r = Step::Remark("constant -> "@ + node.source_path);
    let p = Step::Put(place, e);
    let c = ahead(r, only(p));
    lemma_ahead();
    lemma_pieces_behind();
    lemma_constant_words(text);
    reveal_strlit("// constant -> ");
    reveal_strlit("// ");
    reveal_strlit("constant -> ");
    assert("// constant -> "@ =~= "// "@ + "constant -> "@);
    assert forall|t: Text|
        #[trigger] constant_code(t, model, node, start, src_var, pad) == write_code(t, c, pad) by {
        let u = write_step(t, r, pad);
        assert(u == t + pad + "// constant -> "@ + node.source_path + "\n"@);
        assert(write_code(t, c, pad) == write_step(u, p, pad));
    }
    assert(is_code(|t: Text| constant_code(t, model, node, start, src_var, pad), pad, c));
    assert forall|w: World, m: Machine|
        #![trigger run(c, w, m)]
        run(c, w, m) == (Machine { places: m.places.insert(place, held(text, optional)), ..m }) by {
        lemma_evals(w, m);
        lemma_puts(place, e, w, m);
        assert(step(r, w, m) == m);
        assert(eval(literal(text), w, m) == Val::Words(text));
        assert(eval(wrapped(literal(text)), w, m) == Val::Present(Box::new(Val::Words(text))));
    }
    assert(writes_text(c, place, text, optional));
}

// ---------------------------------------------------------------------------
// Scalars
// ---------------------------------------------------------------------------

/// The text that a value of the hub is written as.
pub open spec fn text_of_value(ty: MappingType, v: Val, w: World) -> Val {
    if ty == MappingType::Decimal || ty == MappingType::Boolean {
        Val::Words((w.written)(v))
    } else {
        v
    }
}

/// How a document holds a text: in a list, as an optional value, or as it is.
pub enum Leaf {
    List,
    Optional,
    Plain,
}

/// How the field at a path holds a text.
pub open spec fn leaf_at(model: ModelV, start: Text, path: Text) -> Leaf {
    if leaf_repeated(model, start, path) {
        Leaf::List
    } else if leaf_optional(model, start, path) {
        Leaf::Optional
    } else {
        Leaf::Plain
    }
}

/// What a place holds once a text was written to it.
pub open spec fn with_text(m: Machine, place: Text, leaf: Leaf, text: Text) -> Val {
    match leaf {
        Leaf::List => appended(m, place, Val::Words(text)),
        Leaf::Optional => Val::Present(Box::new(Val::Words(text))),
        Leaf::Plain => Val::Words(text),
    }
}

/// Whether statements write a value of the hub to the document: its text to its place
/// where it has one that is not empty; else nothing is written, and that is reported
/// exactly where the target requires the value.
pub open spec fn writes_value(
    c: Code,
    node: NodeV,
    hub_place: Text,
    place: Text,
    leaf: Leaf,
    index: Option<Text>,
) -> bool {
    let key = hub_key_of(node);
    forall|w: World, m: Machine, v: Val|
        #![trigger run(c, w, m), m.places.contains_pair(hub_place, v)]
        m.places.contains_pair(hub_place, v) && (v is Absent || (v matches Val::Present(x)
            && text_of_value(node.source_type, *x, w) is Words)) ==> {
            let n = run(c, w, m);
            let text = if v is Absent {
                Seq::<char>::empty()
            } else {
                text_of_value(node.source_type, *(v->Present_0), w)->Words_0
            };
            &&& n.counters == m.counters
            &&& text.len() > 0 ==> n.notes == m.notes && n.places == m.places.insert(
                place,
                with_text(m, place, leaf, text),
            )
            &&& text.len() == 0 ==> n.places == m.places && n.notes == if node.required {
                m.notes.push(
                    problem(
                        Severity::Error,
                        "REQUIRED_MISSING"@,
                        node,
                        key,
                        Some(node.source_path),
                        index,
                    ),
                )
            } else {
                m.notes
            }
        }
}

spec fn absent_diag(node: NodeV, key: Text, index: Option<Text>) -> DiagSpecV {
    path_diag(
        "Severity::Error"@,
        "REQUIRED_MISSING"@,
        node.id,
        "\"required value is missing\""@,
        key,
        node.source_path,
        index,
    )
}

spec fn absent_code(node: NodeV, index: Option<Text>) -> Code {
    if node.required {
        note_code(absent_diag(node, hub_key_of(node), index))
    } else {
        Code::Stop
    }
}

spec fn hub_expr(hub_place: Text, take: bool) -> Expr {
    if take {
        Expr::Call(Box::new(Expr::At(hub_place)), Method::Take)
    } else {
        Expr::Refer(Box::new(Expr::At(hub_place)))
    }
}

spec fn rendering(ty: MappingType, take: bool) -> Expr {
    let v = Expr::Get(Local::Value);
    if ty == MappingType::Decimal || ty == MappingType::Boolean {
        Expr::Call(Box::new(v), Method::ToCompactString)
    } else if take {
        v
    } else {
        Expr::Call(Box::new(v), Method::Clone)
    }
}

spec fn has_text() -> Expr {
    Expr::Not(Box::new(Expr::Call(Box::new(Expr::Get(Local::Rendered)), Method::IsEmpty)))
}

spec fn leaf_step(place: Text, leaf: Leaf) -> Step {
    let r = Expr::Get(Local::Rendered);
    match leaf {
        Leaf::List => Step::Append(place, r),
        Leaf::Optional => Step::Put(place, wrapped(r)),
        Leaf::Plain => Step::Put(place, r),
    }
}

spec fn scalar_steps(
    node: NodeV,
    hub_place: Text,
    place: Text,
    leaf: Leaf,
    index: Option<Text>,
    take: bool,
) -> Code {
    ahead(
        Step::Remark(hub_key_of(node) + " -> "@ + node.source_path),
        only(
            Step::WhenSome(
                Local::Value,
                hub_expr(hub_place, take),
                ahead(
                    Step::Let(Local::Rendered, rendering(node.source_type, take)),
                    only(
                        Step::When(
                            has_text(),
                            only(leaf_step(place, leaf)),
                            absent_code(node, index),
                        ),
                    ),
                ),
                absent_code(node, index),
            ),
        ),
    )
}

proof fn lemma_write_words()
    ensures
        show(rendering(MappingType::Decimal, true)) == "value.to_compact_string()"@,
        show(Expr::Get(Local::Value)) == "value"@,
        show(Expr::Call(Box::new(Expr::Get(Local::Value)), Method::Clone)) == "value.clone()"@,
        show(has_text()) == "!rendered.is_empty()"@,
        show(Expr::Get(Local::Rendered)) == "rendered"@,
        show(wrapped(Expr::Get(Local::Rendered))) == "Some(rendered)"@,
        "if let Some(value) = "@ == "if let Some("@ + "value"@ + ") = "@,
        "if let Some(value) = &"@ == "if let Some("@ + "value"@ + ") = "@ + "&"@,
        ".take() {\n"@ == "."@ + "take"@ + "()"@ + " {\n"@,
        "    let rendered = "@ == "    "@ + "let "@ + "rendered"@ + " = "@,
        "    if !rendered.is_empty() {\n"@ == "    "@ + "if "@ + "!rendered.is_empty()"@ + " {\n"@,
        ".push(rendered);\n"@ == ".push("@ + "rendered"@ + ");\n"@,
        " = Some(rendered);\n"@ == " = "@ + "Some(rendered)"@ + ";\n"@,
        " = rendered;\n"@ == " = "@ + "rendered"@ + ";\n"@,
        "    } else {\n"@ == "    "@ + "} else {\n"@,
{
    reveal_with_fuel(show, 4);
    reveal_strlit("value");
    reveal_strlit(".");
    reveal_strlit("()");
    reveal_strlit("to_compact_string");
    reveal_strlit("value.to_compact_string()");
    assert(show(rendering(MappingType::Decimal, true)) =~= "value.to_compact_string()"@);
    reveal_strlit("clone");
    reveal_strlit("value.clone()");
    assert(show(Expr::Call(Box::new(Expr::Get(Local::Value)), Method::Clone))
        =~= "value.clone()"@);
    reveal_strlit("!");
    reveal_strlit("rendered");
    reveal_strlit("is_empty");
    reveal_strlit("!rendered.is_empty()");
    assert(show(has_text()) =~= "!rendered.is_empty()"@);
    reveal_strlit("Some");
    reveal_strlit("(");
    reveal_strlit(")");
    reveal_strlit("Some(rendered)");
    assert(show(wrapped(Expr::Get(Local::Rendered))) =~= "Some(rendered)"@);
    reveal_strlit("if let Some(value) = ");
    reveal_strlit("if let Some(value) = &");
    reveal_strlit("if let Some(");
    reveal_strlit(") = ");
    reveal_strlit("&");
    assert("if let Some(value) = "@ =~= "if let Some("@ + "value"@ + ") = "@);
    assert("if let Some(value) = &"@ =~= "if let Some("@ + "value"@ + ") = "@ + "&"@);
    reveal_strlit(".take() {\n");
    reveal_strlit("take");
    reveal_strlit(" {\n");
    assert(".take() {\n"@ =~= "."@ + "take"@ + "()"@ + " {\n"@);
    reveal_strlit("    let rendered = ");
    reveal_strlit("    ");
    reveal_strlit("let ");
    reveal_strlit(" = ");
    assert("    let rendered = "@ =~= "    "@ + "let "@ + "rendered"@ + " = "@);
    reveal_strlit("    if !rendered.is_empty() {\n");
    reveal_strlit("if ");
    assert("    if !rendered.is_empty() {\n"@ =~= "    "@ + "if "@ + "!rendered.is_empty()"@
        + " {\n"@);
    reveal_strlit(".push(rendered);\n");
    reveal_strlit(".push(");
    reveal_strlit(");\n");
    assert(".push(rendered);\n"@ =~= ".push("@ + "rendered"@ + ");\n"@);
    reveal_strlit(" = Some(rendered);\n");
    reveal_strlit(";\n");
    assert(" = Some(rendered);\n"@ =~= " = "@ + "Some(rendered)"@ + ";\n"@);
    reveal_strlit(" = rendered;\n");
    assert(" = rendered;\n"@ =~= " = "@ + "rendered"@ + ";\n"@);
    reveal_strlit("    } else {\n");
    reveal_strlit("} else {\n");
    assert("    } else {\n"@ =~= "    "@ + "} else {\n"@);
}

proof fn lemma_hub_words(hub_place: Text)
    ensures
        show(hub_expr(hub_place, true)) == hub_place + "."@ + "take"@ + "()"@,
        show(hub_expr(hub_place, false)) == "&"@ + hub_place,
{
    reveal_with_fuel(show, 3);
}

proof fn lemma_leaf_text(t: Text, pad: Text, place: Text, leaf: Leaf)
    ensures
        write_step(t, leaf_step(place, leaf), pad + "        "@) == match leaf {
            Leaf::List => t + pad + "        "@ + place + ".push(rendered);\n"@,
            Leaf::Optional => t + pad + "        "@ + place + " = Some(rendered);\n"@,
            Leaf::Plain => t + pad + "        "@ + place + " = rendered;\n"@,
        },
{
    lemma_pieces_behind();
    lemma_write_words();
}

proof fn lemma_scalar_text(
    model: ModelV,
    node: NodeV,
    start: Text,
    hub_var: Text,
    src_var: Text,
    index: Option<Text>,
    take: bool,
    t: Text,
    pad: Text,
)
    ensures
        scalar_write_code(t, model, node, start, hub_var, src_var, index, pad, take)
            == write_code(
            t,
            scalar_steps(
                node,
                hub_var + "."@ + field_of(hub_key_of(node)),
                target_of(model, start, node.source_path, src_var),
                leaf_at(model, start, node.source_path),
                index,
                take,
            ),
            pad,
        ),
{
    lemma_ahead();
    lemma_pieces_behind();
    lemma_indents();
    lemma_write_words();
    let key = hub_key_of(node);
    let hub_place = hub_var + "."@ + field_of(key);
    lemma_hub_words(hub_place);
    let place = target_of(model, start, node.source_path, src_var);
    let leaf = leaf_at(model, start, node.source_path);
    let d = absent_diag(node, key, index);
    lemma_note(d);
    assert(!(note_code(d) is Stop));
    let ab = absent_code(node, index);
    let p4 = pad + "    "@;
    let p8 = pad + "        "@;
    assert(p4 + "    "@ == p8);
    let r = Step::Remark(key + " -> "@ + node.source_path);
    let t1 = write_step(t, r, pad);
    assert(t1 == t + pad + "// "@ + key + " -> "@ + node.source_path + "\n"@);
    let e = hub_expr(hub_place, take);
    let t2 = t1 + pad + "if let Some("@ + "value"@ + ") = "@ + show(e) + " {\n"@;
    assert(take ==> t2 == t1 + pad + "if let Some(value) = "@ + hub_var + "."@ + field_of(key)
        + ".take() {\n"@);
    assert(!take ==> t2 == t1 + pad + "if let Some(value) = &"@ + hub_var + "."@ + field_of(key)
        + " {\n"@);
    let re = rendering(node.source_type, take);
    assert(show(re) == rendered_expr(node.source_type, take)) by {
        if node.source_type == MappingType::Boolean {
            assert(re == rendering(MappingType::Decimal, true));
        }
    }
    let b = Step::Let(Local::Rendered, re);
    let t3 = write_step(t2, b, p4);
    assert(t3 == t2 + pad + "    let rendered = "@ + rendered_expr(node.source_type, take)
        + ";\n"@);
    let t4 = t3 + pad + "    if !rendered.is_empty() {\n"@;
    assert(t4 == t3 + p4 + "if "@ + show(has_text()) + " {\n"@);
    let l = leaf_step(place, leaf);
    lemma_leaf_text(t4, pad, place, leaf);
    let t5 = write_step(t4, l, p8);
    assert(write_code(t4, only(l), p8) == t5);
    let s = Step::When(has_text(), only(l), ab);
    let t6 = write_step(t3, s, p4);
    if node.required {
        let u = t5 + pad + "    } else {\n"@;
        assert(u == t5 + p4 + "} else {\n"@);
        assert(t6 == write_code(u, note_code(d), p8) + p4 + "}\n"@);
        assert(t6 == missing_code(u, node, key, index, p8) + pad + "    }\n"@);
    } else {
        assert(t6 == t5 + pad + "    }\n"@);
    }
    let inner = ahead(b, only(s));
    assert(write_code(t2, inner, p4) == t6);
    let k = Step::WhenSome(Local::Value, e, inner, ab);
    let t7 = write_step(t1, k, pad);
    if node.required {
        let u = t6 + pad + "} else {\n"@;
        assert(t7 == write_code(u, note_code(d), p4) + pad + "}\n"@);
        assert(t7 == missing_code(u, node, key, index, p4) + pad + "}\n"@);
    } else {
        assert(t7 == t6 + pad + "}\n"@);
    }
    let c = scalar_steps(node, hub_place, place, leaf, index, take);
    assert(write_code(t, c, pad) == t7);
}

proof fn lemma_scalar_runs(
    node: NodeV,
    hub_place: Text,
    place: Text,
    leaf: Leaf,
    index: Option<Text>,
    take: bool,
)
    ensures
        writes_value(
            scalar_steps(node, hub_place, place, leaf, index, take),
            node,
            hub_place,
            place,
            leaf,
            index,
        ),
{
    let c = scalar_steps(node, hub_place, place, leaf, index, take);
    let key = hub_key_of(node);
    assert forall|w: World, m: Machine, v: Val|
        #![trigger run(c, w, m), m.places.contains_pair(hub_place, v)]
        m.places.contains_pair(hub_place, v) && (v is Absent || (v matches Val::Present(x)
            && text_of_value(node.source_type, *x, w) is Words)) implies {
        let n = run(c, w, m);
        let text = if v is Absent {
            Seq::<char>::empty()
        } else {
            text_of_value(node.source_type, *(v->Present_0), w)->Words_0
        };
        &&& n.counters == m.counters
        &&& text.len() > 0 ==> n.notes == m.notes && n.places == m.places.insert(
            place,
            with_text(m, place, leaf, text),
        )
        &&& text.len() == 0 ==> n.places == m.places && n.notes == if node.required {
            m.notes.push(
                problem(
                    Severity::Error,
                    "REQUIRED_MISSING"@,
                    node,
                    key,
                    Some(node.source_path),
                    index,
                ),
            )
        } else {
            m.notes
        }
    } by {
        lemma_scalar_runs_at(node, hub_place, place, leaf, index, take, w, m, v);
    }
}

proof fn lemma_scalar_runs_at(
    node: NodeV,
    hub_place: Text,
    place: Text,
    leaf: Leaf,
    index: Option<Text>,
    take: bool,
    w: World,
    m: Machine,
    v: Val,
)
    requires
        m.places.contains_pair(hub_place, v),
        v is Absent || (v matches Val::Present(x) && text_of_value(node.source_type, *x, w)
            is Words),
    ensures
        ({
            let n = run(scalar_steps(node, hub_place, place, leaf, index, take), w, m);
            let text = if v is Absent {
                Seq::<char>::empty()
            } else {
                text_of_value(node.source_type, *(v->Present_0), w)->Words_0
            };
            &&& n.counters == m.counters
            &&& text.len() > 0 ==> n.notes == m.notes && n.places == m.places.insert(
                place,
                with_text(m, place, leaf, text),
            )
            &&& text.len() == 0 ==> n.places == m.places && n.notes == if node.required {
                m.notes.push(
                    problem(
                        Severity::Error,
                        "REQUIRED_MISSING"@,
                        node,
                        hub_key_of(node),
                        Some(node.source_path),
                        index,
                    ),
                )
            } else {
                m.notes
            }
        }),
{
    lemma_ahead();
    lemma_severities();
    lemma_evals(w, m);
    let key = hub_key_of(node);
    let d = absent_diag(node, key, index);
    lemma_note(d);
    let ab = absent_code(node, index);
    let r = Step::Remark(key + " -> "@ + node.source_path);
    assert(step(r, w, m) == m);
    let e = hub_expr(hub_place, take);
    assert(eval(Expr::At(hub_place), w, m) == v);
    assert(eval(e, w, m) == v);
    let re = rendering(node.source_type, take);
    let b = Step::Let(Local::Rendered, re);
    let l = leaf_step(place, leaf);
    let s = Step::When(has_text(), only(l), ab);
    let inner = ahead(b, only(s));
    let k = Step::WhenSome(Local::Value, e, inner, ab);
    let c = scalar_steps(node, hub_place, place, leaf, index, take);
    assert(run(c, w, m) == step(k, w, m));
    lemma_unwraps(Local::Value, e, inner, ab, w, m);
    if let Val::Present(x) = v {
        let text = text_of_value(node.source_type, *x, w)->Words_0;
        let m1 = Machine { locals: m.locals.insert(Local::Value, *x), ..m };
        lemma_evals(w, m1);
        assert(eval(Expr::Get(Local::Value), w, m1) == *x);
        assert(eval(re, w, m1) == Val::Words(text));
        lemma_assigns(Local::Rendered, re, w, m1);
        let m2 = step(b, w, m1);
        lemma_evals(w, m2);
        let got = Expr::Get(Local::Rendered);
        assert(eval(got, w, m2) == Val::Words(text));
        let empty = Expr::Call(Box::new(got), Method::IsEmpty);
        assert(eval(empty, w, m2) == Val::Flag(text.len() == 0));
        assert(eval(has_text(), w, m2) == Val::Flag(text.len() != 0));
        lemma_chooses(has_text(), only(l), ab, w, m2);
        assert(run(inner, w, m1) == step(s, w, m2));
        assert(run(only(l), w, m2) == step(l, w, m2));
        assert(eval(wrapped(got), w, m2) == Val::Present(Box::new(Val::Words(text))));
        lemma_puts(place, got, w, m2);
        lemma_puts(place, wrapped(got), w, m2);
        lemma_grows(place, got, Seq::empty(), w, m2);
    }
}

/// The code of a node writes the value that the hub holds for its key to the place at
/// its path: appended where the document holds a list there, and wrapped where it is
/// optional. Where the hub holds nothing, or only an empty text, nothing is written, and
/// an error is reported exactly where the node is required.
pub proof fn law_writer_writes_or_reports(
    model: ModelV,
    node: NodeV,
    start: Text,
    hub_var: Text,
    src_var: Text,
    index: Option<Text>,
    pad: Text,
    take: bool,
)
    ensures
        exists|c: Code|
            is_code(
                |t: Text|
                    scalar_write_code(t, model, node, start, hub_var, src_var, index, pad, take),
                pad,
                c,
            ) && #[trigger] writes_value(
                c,
                node,
                hub_var + "."@ + field_of(hub_key_of(node)),
                target_of(model, start, node.source_path, src_var),
                leaf_at(model, start, node.source_path),
                index,
            ),
{
    let hub_place = hub_var + "."@ + field_of(hub_key_of(node));
    let place = target_of(model, start, node.source_path, src_var);
    let leaf = leaf_at(model, start, node.source_path);
    let c = scalar_steps(node, hub_place, place, leaf, index, take);
    assert forall|t: Text|
        #[trigger] scalar_write_code(t, model, node, start, hub_var, src_var, index, pad, take)
            == write_code(t, c, pad) by {
        lemma_scalar_text(model, node, start, hub_var, src_var, index, take, t, pad);
    }
    assert(is_code(
        |t: Text| scalar_write_code(t, model, node, start, hub_var, src_var, index, pad, take),
        pad,
        c,
    ));
    lemma_scalar_runs(node, hub_place, place, leaf, index, take);
}

// ---------------------------------------------------------------------------
// Collections
// ---------------------------------------------------------------------------

/// Whether statements end the writing of one item: they put it to the document and
/// count it exactly where it is not empty.
pub open spec fn counts_item(
    c: Code,
    element: Text,
    place: Text,
    counter: Text,
) -> bool {
    forall|w: World, m: Machine, empty: bool|
        #![trigger run(c, w, m), m.places.contains_pair(element, Val::Record(empty))]
        m.places.contains_pair(element, Val::Record(empty)) && m.counters.dom().contains(counter)
            && place != element ==> {
            let n = run(c, w, m);
            &&& n.notes == m.notes
            &&& empty ==> n == m
            &&& !empty ==> n.counters == m.counters.insert(counter, m.counters[counter] + 1)
                && n.places == m.places.insert(
                place,
                appended(m, place, Val::Record(false)),
            )
        }
}

spec fn kept(element: Text) -> Expr {
    Expr::Not(Box::new(Expr::Call(Box::new(Expr::At(element)), Method::IsEmpty)))
}

spec fn keep_steps(element: Text, place: Text, counter: Text) -> Code {
    ahead(Step::Append(place, Expr::At(element)), only(Step::Grow(counter)))
}

spec fn item_step(element: Text, place: Text, counter: Text) -> Step {
    Step::When(kept(element), keep_steps(element, place, counter), Code::Stop)
}

proof fn lemma_item_text(element: Text, place: Text, counter: Text, t: Text, body: Text)
    ensures
        write_step(t, item_step(element, place, counter), body) == ({
            let t = t + body + "if !"@ + element + ".is_empty() {\n"@;
            let t = t + body + "    "@ + place + ".push("@ + element + ");\n"@;
            let t = t + body + "    "@ + counter + " += 1;\n"@;
            t + body + "}\n"@
        }),
{
    lemma_ahead();
    lemma_pieces_behind();
    reveal_with_fuel(show, 4);
    reveal_strlit("if !");
    reveal_strlit("if ");
    reveal_strlit("!");
    assert("if !"@ =~= "if "@ + "!"@);
    reveal_strlit(".is_empty() {\n");
    reveal_strlit(".");
    reveal_strlit("is_empty");
    reveal_strlit("()");
    reveal_strlit(" {\n");
    assert(".is_empty() {\n"@ =~= "."@ + "is_empty"@ + "()"@ + " {\n"@);
    let t1 = t + body + "if !"@ + element + ".is_empty() {\n"@;
    assert(t1 == t + body + "if "@ + show(kept(element)) + " {\n"@);
    let p4 = body + "    "@;
    let a = Step::Append(place, Expr::At(element));
    let t2 = write_step(t1, a, p4);
    let t3 = write_step(t2, Step::Grow(counter), p4);
    assert(write_code(t1, keep_steps(element, place, counter), p4) == t3);
}

proof fn lemma_item_runs(element: Text, place: Text, counter: Text)
    ensures
        counts_item(only(item_step(element, place, counter)), element, place, counter),
{
    let c = only(item_step(element, place, counter));
    assert forall|w: World, m: Machine, empty: bool|
        #![trigger run(c, w, m), m.places.contains_pair(element, Val::Record(empty))]
        m.places.contains_pair(element, Val::Record(empty)) && m.counters.dom().contains(counter)
            && place != element implies {
        let n = run(c, w, m);
        &&& n.notes == m.notes
        &&& empty ==> n == m
        &&& !empty ==> n.counters == m.counters.insert(counter, m.counters[counter] + 1)
            && n.places == m.places.insert(place, appended(m, place, Val::Record(false)))
    } by {
        lemma_ahead();
        lemma_evals(w, m);
        let steps = keep_steps(element, place, counter);
        lemma_chooses(kept(element), steps, Code::Stop, w, m);
        assert(run(c, w, m) == step(item_step(element, place, counter), w, m));
        assert(eval(Expr::At(element), w, m) == Val::Record(empty));
        let called_empty = Expr::Call(Box::new(Expr::At(element)), Method::IsEmpty);
        assert(eval(called_empty, w, m) == Val::Flag(empty));
        assert(eval(kept(element), w, m) == Val::Flag(!empty));
        lemma_grows(place, Expr::At(element), counter, w, m);
        let m1 = step(Step::Append(place, Expr::At(element)), w, m);
        lemma_grows(place, Expr::At(element), counter, w, m1);
    }
}

/// A writer puts an item of a collection to the document, and counts it, exactly where
/// it is not empty. Behind the items it reports an error exactly where it has written
/// fewer than the collection must have: the number that the collection says, else one
/// where it is required.
pub proof fn law_writer_enforces_the_least_number_of_items(
    model: ModelV,
    coll: NodeV,
    f: FrameV,
)
    ensures
        ({
            let element = "element"@ + decimal(f.depth);
            let counter = "written_count"@ + decimal(f.depth);
            let place = target_of(model, f.parent_struct, coll.source_path, f.parent_src);
            exists|a: Code, b: Code|
                (forall|t: Text|
                    #![trigger write_closing(write_test(t, f), model, coll, f)]
                    write_closing(write_test(t, f), model, coll, f) == write_code(
                        write_code(t, a, f.pad + "    "@) + f.pad + "}\n"@,
                        b,
                        f.pad,
                    )) && #[trigger] counts_item(a, element, place, counter)
                    && #[trigger] enforces_least(b, coll, counter)
        }),
{
    lemma_ahead();
    let element = "element"@ + decimal(f.depth);
    let counter = "written_count"@ + decimal(f.depth);
    let place = target_of(model, f.parent_struct, coll.source_path, f.parent_src);
    let s = item_step(element, place, counter);
    let a = only(s);
    let b = least_steps(coll, counter);
    lemma_item_runs(element, place, counter);
    lemma_least(coll, counter);
    let body = f.pad + "    "@;
    assert forall|t: Text|
        #![trigger write_closing(write_test(t, f), model, coll, f)]
        write_closing(write_test(t, f), model, coll, f) == write_code(
            write_code(t, a, body) + f.pad + "}\n"@,
            b,
            f.pad,
        ) by {
        lemma_item_text(element, place, counter, t, body);
        assert(write_code(t, a, body) == write_step(t, s, body));
    }
}

/// Whatever is done for an item that is not empty before it is kept, such as setting its
/// constants, the item is then put to the document and counted, once; and behind the items
/// too few of them are reported.
pub proof fn law_writer_keeps_items_behind_their_constants(
    model: ModelV,
    coll: NodeV,
    f: FrameV,
)
    ensures
        ({
            let element = "element"@ + decimal(f.depth);
            let counter = "written_count"@ + decimal(f.depth);
            let place = target_of(model, f.parent_struct, coll.source_path, f.parent_src);
            let body = f.pad + "    "@;
            exists|keeps: Code, least: Code|
                (forall|t: Text|
                    #![trigger write_closing(t, model, coll, f)]
                    write_closing(t, model, coll, f) == write_code(
                        write_code(t, keeps, body + "    "@) + body + "}\n"@ + f.pad + "}\n"@,
                        least,
                        f.pad,
                    )) && #[trigger] keeps_item(keeps, element, place, counter)
                    && #[trigger] enforces_least(least, coll, counter)
        }),
{
    lemma_ahead();
    let element = "element"@ + decimal(f.depth);
    let counter = "written_count"@ + decimal(f.depth);
    let place = target_of(model, f.parent_struct, coll.source_path, f.parent_src);
    let body = f.pad + "    "@;
    let keeps = keep_steps(element, place, counter);
    let least = least_steps(coll, counter);
    lemma_least(coll, counter);
    let a = Step::Append(place, Expr::At(element));
    assert forall|w: World, m: Machine|
        #![trigger run(keeps, w, m)]
        m.counters.dom().contains(counter) && m.places.dom().contains(element) && place
            != element implies {
        let n = run(keeps, w, m);
        &&& n.notes == m.notes
        &&& n.counters == m.counters.insert(counter, m.counters[counter] + 1)
        &&& n.places == m.places.insert(place, appended(m, place, m.places[element]))
    } by {
        lemma_evals(w, m);
        assert(eval(Expr::At(element), w, m) == m.places[element]);
        lemma_grows(place, Expr::At(element), counter, w, m);
        let m1 = step(a, w, m);
        lemma_grows(place, Expr::At(element), counter, w, m1);
    }
    assert(keeps_item(keeps, element, place, counter));
    assert forall|t: Text|
        #![trigger write_closing(t, model, coll, f)]
        write_closing(t, model, coll, f) == write_code(
            write_code(t, keeps, body + "    "@) + body + "}\n"@ + f.pad + "}\n"@,
            least,
            f.pad,
        ) by {
        lemma_pieces_behind();
        let p4 = body + "    "@;
        let t2 = write_step(t, a, p4);
        let t3 = write_step(t2, Step::Grow(counter), p4);
        assert(write_code(t, keeps, p4) == t3);
    }
}

/// Whether statements put what stands in a place at the end of a list, count it once, and
/// do nothing else.
pub open spec fn keeps_item(c: Code, element: Text, place: Text, counter: Text) -> bool {
    forall|w: World, m: Machine|
        #![trigger run(c, w, m)]
        m.counters.dom().contains(counter) && m.places.dom().contains(element) && place != element
            ==> {
            let n = run(c, w, m);
            &&& n.notes == m.notes
            &&& n.counters == m.counters.insert(counter, m.counters[counter] + 1)
            &&& n.places == m.places.insert(place, appended(m, place, m.places[element]))
        }
}

} // verus!
