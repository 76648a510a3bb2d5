//! What generated readers do with one value: where they take it from, how repeated
//! values are settled, and what is reported.
use vstd::prelude::*;

use crate::dsl::codegen::access::{list_slice_of, list_take_of, normalized};
use crate::dsl::codegen::diag::{path_diag, value_diag, DiagSpecV};
use crate::dsl::codegen::naming::field_of;
use crate::dsl::codegen::read::{
    assign_code, chain_items, fallback_code, fallbacks_code, many_code, scalar_code, value_expr,
    TargetV,
};
use crate::dsl::codegen::reader_laws::{
    decode_steps, lemma_decode_runs_at, lemma_decode_text_at, lemma_note, lemma_pieces_behind,
    lemma_severities, note_code, note_of, reported, typed,
};
use crate::dsl::codegen::script::{
    ahead, both, called, eval, lemma_adapts, lemma_ahead, lemma_assigns, lemma_both, lemma_chooses,
    lemma_evals, lemma_unwraps, only, run, show, step, write_code, write_step, Code, Compare, Expr,
    Function, Local, Machine, Method, Note, Step, Val, World,
};
use crate::dsl::codegen::sharing::repeats;
use crate::dsl::ir::IrNodesV;
use crate::dsl::multiple::MultiplePolicy;
use crate::dsl::node::{NodeId, NodeV};
use crate::dsl::source_model::meta::ModelV;
use crate::ordmap::lookup;
use crate::runtime::result::Severity;
use crate::text::{decimal, join, quoted, Text};

verus! {

/// A diagnostic on a node and its canonical key.
pub open spec fn problem(
    severity: Severity,
    code: Text,
    node: NodeV,
    key: Text,
    path: Option<Text>,
    index: Option<Text>,
) -> Note {
    Note { severity, code, node: node.id, key: Some(key), path, index, chain: None }
}

// ---------------------------------------------------------------------------
// One text
// ---------------------------------------------------------------------------

/// What is stored of a text: the value that it is of the node's type, once the node's
/// adapter has converted it; or the code of what is wrong.
pub open spec fn stored(node: NodeV, raw: Text, w: World) -> Result<Val, Text> {
    let adapted = match node.adapter {
        Some(name) => (w.adapt)(name, raw),
        None => Some(raw),
    };
    match adapted {
        None => Err("ADAPTER_FAILED"@),
        Some(t) => match typed(node.source_type, t, w) {
            Some(v) => Ok(v),
            None => Err("TYPE_INVALID"@),
        },
    }
}

/// Whether a machine has stored what a text is, or reported what is wrong with it.
pub open spec fn has_stored(
    node: NodeV,
    key: Text,
    place: Text,
    index: Option<Text>,
    raw: Text,
    w: World,
    m: Machine,
    n: Machine,
) -> bool {
    &&& n.counters == m.counters
    &&& match stored(node, raw, w) {
        Ok(v) => n.places == m.places.insert(place, Val::Present(Box::new(v))) && n.notes
            == m.notes,
        Err(code) => n.places == m.places && n.notes == m.notes.push(
            problem(Severity::Error, code, node, key, None, index),
        ),
    }
}

spec fn adapter_diag(node: NodeV, key: Text, target: TargetV) -> DiagSpecV {
    value_diag(
        "Severity::Error"@,
        "ADAPTER_FAILED"@,
        node.id,
        "err.to_string()"@,
        key,
        target.index,
    )
}

spec fn adapter_call(name: Text) -> Expr {
    Expr::Apply(Function::Adapter(name), Box::new(Expr::Refer(Box::new(Expr::Get(Local::Raw)))))
}

spec fn assign_steps(node: NodeV, key: Text, target: TargetV) -> Code {
    let lhs = target.struct_var + "."@ + field_of(key);
    let decode = decode_steps(node, key, lhs, target);
    match node.adapter {
        Some(name) => ahead(
            Step::Adapt(adapter_call(name), note_code(adapter_diag(node, key, target))),
            only(Step::WhenSome(Local::Raw, Expr::Get(Local::Adapted), decode, Code::Stop)),
        ),
        None => decode,
    }
}

proof fn lemma_adapter_words(name: Text)
    ensures
        show(adapter_call(name)) == "adapter::"@ + name + "("@ + "&raw"@ + ")"@,
        "let adapted = match adapter::"@ == "let adapted = match "@ + "adapter::"@,
        "(&raw) {\n"@ == "("@ + "&raw"@ + ")"@ + " {\n"@,
        "if let Some(raw) = adapted {\n"@ == "if let Some("@ + "raw"@ + ") = "@ + "adapted"@
            + " {\n"@,
        show(Expr::Get(Local::Adapted)) == "adapted"@,
        show(Expr::Get(Local::Value)) == "value"@,
        "if let Some(raw) = value {\n"@ == "if let Some("@ + "raw"@ + ") = "@ + "value"@ + " {\n"@,
{
    reveal_with_fuel(show, 4);
    reveal_strlit("&raw");
    reveal_strlit("&");
    reveal_strlit("raw");
    assert("&raw"@ =~= "&"@ + "raw"@);
    reveal_strlit("let adapted = match adapter::");
    reveal_strlit("let adapted = match ");
    reveal_strlit("adapter::");
    assert("let adapted = match adapter::"@ =~= "let adapted = match "@ + "adapter::"@);
    reveal_strlit("(&raw) {\n");
    reveal_strlit("(");
    reveal_strlit(")");
    reveal_strlit(" {\n");
    assert("(&raw) {\n"@ =~= "("@ + "&raw"@ + ")"@ + " {\n"@);
    reveal_strlit("if let Some(raw) = adapted {\n");
    reveal_strlit("if let Some(raw) = value {\n");
    reveal_strlit("if let Some(");
    reveal_strlit(") = ");
    reveal_strlit("adapted");
    reveal_strlit("value");
    assert("if let Some(raw) = adapted {\n"@ =~= "if let Some("@ + "raw"@ + ") = "@ + "adapted"@
        + " {\n"@);
    assert("if let Some(raw) = value {\n"@ =~= "if let Some("@ + "raw"@ + ") = "@ + "value"@
        + " {\n"@);
}

proof fn lemma_assign_text(node: NodeV, key: Text, target: TargetV, t: Text, pad: Text)
    ensures
        assign_code(t, node, key, pad, target) == write_code(
            t,
            assign_steps(node, key, target),
            pad,
        ),
{
    lemma_ahead();
    let lhs = target.struct_var + "."@ + field_of(key);
    let decode = decode_steps(node, key, lhs, target);
    match node.adapter {
        Some(name) => {
            lemma_pieces_behind();
            lemma_adapter_words(name);
            let d = adapter_diag(node, key, target);
            lemma_note(d);
            let s1 = Step::Adapt(adapter_call(name), note_code(d));
            let s2 = Step::WhenSome(Local::Raw, Expr::Get(Local::Adapted), decode, Code::Stop);
            let t1 = write_step(t, s1, pad);
            let t2 = t1 + pad + "if let Some(raw) = adapted {\n"@;
            lemma_decode_text_at(node, key, lhs, target, t2, pad + "    "@);
            assert(write_code(t, assign_steps(node, key, target), pad) == write_step(t1, s2, pad));
        },
        None => {
            lemma_decode_text_at(node, key, lhs, target, t, pad);
        },
    }
}

proof fn lemma_assign_runs(node: NodeV, key: Text, target: TargetV, w: World, m: Machine)
    requires
        m.locals.dom().contains(Local::Raw),
        m.locals[Local::Raw] is Words,
    ensures
        has_stored(
            node,
            key,
            target.struct_var + "."@ + field_of(key),
            target.index,
            m.locals[Local::Raw]->Words_0,
            w,
            m,
            run(assign_steps(node, key, target), w, m),
        ),
{
    lemma_ahead();
    lemma_severities();
    let lhs = target.struct_var + "."@ + field_of(key);
    let decode = decode_steps(node, key, lhs, target);
    let raw = m.locals[Local::Raw]->Words_0;
    match node.adapter {
        Some(name) => {
            let d = adapter_diag(node, key, target);
            lemma_note(d);
            let c = note_code(d);
            let e = adapter_call(name);
            lemma_evals(w, m);
            assert(eval(Expr::Refer(Box::new(Expr::Get(Local::Raw))), w, m) == Val::Words(raw));
            lemma_adapts(e, c, w, m);
            let n = step(Step::Adapt(e, c), w, m);
            let got = Expr::Get(Local::Adapted);
            lemma_evals(w, n);
            assert(n.locals.dom().contains(Local::Adapted));
            lemma_unwraps(Local::Raw, got, decode, Code::Stop, w, n);
            let s2 = Step::WhenSome(Local::Raw, got, decode, Code::Stop);
            assert(run(assign_steps(node, key, target), w, m) == step(s2, w, n));
            match (w.adapt)(name, raw) {
                Some(a) => {
                    let k = Machine { locals: n.locals.insert(Local::Raw, Val::Words(a)), ..n };
                    lemma_decode_runs_at(node, key, lhs, target, w, k);
                },
                None => {},
            }
        },
        None => {
            lemma_decode_runs_at(node, key, lhs, target, w, m);
        },
    }
}

// ---------------------------------------------------------------------------
// Repeated values
// ---------------------------------------------------------------------------

/// What repeated values come to: under `error` the only one, under `first` the first,
/// and under `join` all of them with the separator between them; none where there is
/// none.
pub open spec fn settled(policy: MultiplePolicy, values: Seq<Text>, sep: Text) -> Option<Text> {
    if values.len() == 0 {
        None
    } else {
        match policy {
            MultiplePolicy::Error => if values.len() == 1 {
                Some(values[0])
            } else {
                None
            },
            MultiplePolicy::First => Some(values[0]),
            MultiplePolicy::Join => Some(join(values, sep)),
        }
    }
}

/// How grave it is that there are several values, if it is worth a diagnostic.
pub open spec fn objection(policy: MultiplePolicy, values: Seq<Text>) -> Option<Severity> {
    if values.len() <= 1 {
        None
    } else {
        match policy {
            MultiplePolicy::Error => Some(Severity::Error),
            MultiplePolicy::First => Some(Severity::Warning),
            MultiplePolicy::Join => None,
        }
    }
}

/// An optional text as a value.
pub open spec fn optional(t: Option<Text>) -> Val {
    match t {
        Some(x) => Val::Present(Box::new(Val::Words(x))),
        None => Val::Absent,
    }
}

/// The expression that collects the values of a repeated element.
pub open spec fn list_expr(
    model: ModelV,
    start: Text,
    node: NodeV,
    target: TargetV,
    take: bool,
) -> Text {
    let ops = node.normalize;
    if take {
        list_take_of(model, start, node.source_path, target.base)
            + ".into_iter().filter_map(|s| "@ + normalized(
            "Some(s)"@,
            ops,
            true,
            ops.len() as int,
        ) + ").collect()"@
    } else {
        list_slice_of(model, start, node.source_path, target.base) + ".iter().filter_map(|s| "@
            + normalized("Some(s.as_str())"@, ops, false, ops.len() as int) + ").collect()"@
    }
}

spec fn values_len() -> Box<Expr> {
    Box::new(Expr::Call(Box::new(Expr::Get(Local::Values)), Method::Len))
}

spec fn first_value() -> Expr {
    Expr::Call(
        Box::new(Expr::Call(Box::new(Expr::Get(Local::Values)), Method::IntoIter)),
        Method::Next,
    )
}

spec fn several() -> Expr {
    Expr::Is(values_len(), Compare::More, Box::new(Expr::Number(1)))
}

spec fn only_value() -> Expr {
    Expr::Either(
        Box::new(Expr::Is(values_len(), Compare::Same, Box::new(Expr::Number(1)))),
        Box::new(first_value()),
        Box::new(Expr::Nothing),
    )
}

spec fn joined_value(sep: Text) -> Expr {
    Expr::Either(
        Box::new(Expr::Call(Box::new(Expr::Get(Local::Values)), Method::IsEmpty)),
        Box::new(Expr::Nothing),
        Box::new(
            Expr::Apply(
                Function::Wrap,
                Box::new(
                    Expr::Call(
                        Box::new(Expr::Joined(Box::new(Expr::Get(Local::Values)), sep)),
                        Method::Into,
                    ),
                ),
            ),
        ),
    )
}

spec fn several_diag(node: NodeV, key: Text, policy: MultiplePolicy, target: TargetV) -> DiagSpecV {
    if policy == MultiplePolicy::Error {
        path_diag(
            "Severity::Error"@,
            "MULTIPLE_VALUES"@,
            node.id,
            "format!(\"found {} values for single-valued `"@ + key + "`\", values.len())"@,
            key,
            node.source_path,
            target.index,
        )
    } else {
        path_diag(
            "Severity::Warning"@,
            "MULTIPLE_VALUES"@,
            node.id,
            "format!(\"using the first of {} values for `"@ + key + "`\", values.len())"@,
            key,
            node.source_path,
            target.index,
        )
    }
}

spec fn many_steps(
    model: ModelV,
    start: Text,
    node: NodeV,
    key: Text,
    policy: MultiplePolicy,
    target: TargetV,
    take: bool,
) -> Code {
    let collect = Step::Bind(
        false,
        Local::Values,
        "Vec<CompactString>"@,
        Expr::Source(list_expr(model, start, node, target, take)),
    );
    let object = Step::When(
        several(),
        note_code(several_diag(node, key, policy, target)),
        Code::Stop,
    );
    let ty = "Option<CompactString>"@;
    match policy {
        MultiplePolicy::Error => ahead(
            collect,
            ahead(object, only(Step::Bind(false, Local::Value, ty, only_value()))),
        ),
        MultiplePolicy::First => ahead(
            collect,
            ahead(object, only(Step::Bind(false, Local::Value, ty, first_value()))),
        ),
        MultiplePolicy::Join => ahead(
            collect,
            only(Step::Bind(false, Local::Value, ty, joined_value(node.join_with->0))),
        ),
    }
}

proof fn lemma_one()
    ensures
        decimal(1) == "1"@,
{
    reveal_strlit("1");
    assert(decimal(1) =~= "1"@);
}

proof fn lemma_list_words()
    ensures
        show(first_value()) == "values.into_iter().next()"@,
        show(several()) == "values.len() > 1"@,
        show(only_value())
            == "if values.len() == 1 { values.into_iter().next() } else { None }"@,
        forall|sep: Text|
            #[trigger] show(joined_value(sep))
                == "if values.is_empty() { None } else { Some(values.join("@ + quoted(sep)
                + ").into())"@ + " }"@,
{
    lemma_one();
    lemma_pieces_behind();
    reveal_with_fuel(show, 7);
    reveal_strlit("values");
    reveal_strlit(".");
    reveal_strlit("into_iter");
    reveal_strlit("()");
    reveal_strlit("next");
    reveal_strlit("values.into_iter().next()");
    assert(show(first_value()) =~= "values.into_iter().next()"@);
    reveal_strlit("len");
    reveal_strlit(" > ");
    reveal_strlit("1");
    reveal_strlit("values.len() > 1");
    assert(show(several()) =~= "values.len() > 1"@);
    reveal_strlit("if ");
    reveal_strlit(" == ");
    reveal_strlit(" { ");
    reveal_strlit(" } else { ");
    reveal_strlit("None");
    reveal_strlit(" }");
    reveal_strlit("if values.len() == 1 { values.into_iter().next() } else { None }");
    assert(show(only_value())
        =~= "if values.len() == 1 { values.into_iter().next() } else { None }"@);
    assert forall|sep: Text|
        #[trigger] show(joined_value(sep))
            == "if values.is_empty() { None } else { Some(values.join("@ + quoted(sep)
            + ").into())"@ + " }"@ by {
        lemma_joined_words(sep);
    }
}

proof fn lemma_joined_words(sep: Text)
    ensures
        show(joined_value(sep)) == "if values.is_empty() { None } else { Some(values.join("@
            + quoted(sep) + ").into())"@ + " }"@,
{
    lemma_pieces_behind();
    reveal_with_fuel(show, 7);
    reveal_strlit("values");
    reveal_strlit(".");
    reveal_strlit("()");
    reveal_strlit("if ");
    reveal_strlit(" { ");
    reveal_strlit(" } else { ");
    reveal_strlit("None");
    reveal_strlit("is_empty");
    reveal_strlit("Some");
    reveal_strlit("(");
    reveal_strlit(")");
    reveal_strlit(".join(");
    reveal_strlit("into");
    reveal_strlit(").into())");
    reveal_strlit("if values.is_empty() { None } else { Some(values.join(");
    let front = "if "@ + ("values"@ + "."@ + "is_empty"@ + "()"@) + " { "@ + "None"@ + " } else { "@
        + "Some"@ + "("@ + "values"@ + ".join("@;
    assert("if values.is_empty() { None } else { Some(values.join("@ =~= front);
    assert(").into())"@ =~= ")"@ + "."@ + "into"@ + "()"@ + ")"@);
}

proof fn lemma_bind_words()
    ensures
        "let values: Vec<CompactString> = "@ == "let "@ + "values"@ + ": "@ + "Vec<CompactString>"@
            + " = "@,
        "let value: Option<CompactString> = "@ == "let "@ + "value"@ + ": "@
            + "Option<CompactString>"@ + " = "@,
        "let mut value: Option<CompactString> = "@ == "let mut "@ + "value"@ + ": "@
            + "Option<CompactString>"@ + " = "@,
        ").collect();\n"@ == ").collect()"@ + ";\n"@,
        "if values.len() > 1 {\n"@ == "if "@ + "values.len() > 1"@ + " {\n"@,
        "let value: Option<CompactString> = if values.len() == 1 { values.into_iter().next() } else { None };\n"@
            == "let value: Option<CompactString> = "@
            + "if values.len() == 1 { values.into_iter().next() } else { None }"@ + ";\n"@,
        "let value: Option<CompactString> = values.into_iter().next();\n"@
            == "let value: Option<CompactString> = "@ + "values.into_iter().next()"@ + ";\n"@,
        "let value: Option<CompactString> = if values.is_empty() { None } else { Some(values.join("@
            == "let value: Option<CompactString> = "@
            + "if values.is_empty() { None } else { Some(values.join("@,
        ").into()) };\n"@ == ").into())"@ + " }"@ + ";\n"@,
{
    reveal_strlit("let values: Vec<CompactString> = ");
    reveal_strlit("let ");
    reveal_strlit("let mut ");
    reveal_strlit("values");
    reveal_strlit("value");
    reveal_strlit(": ");
    reveal_strlit("Vec<CompactString>");
    reveal_strlit("Option<CompactString>");
    reveal_strlit(" = ");
    assert("let values: Vec<CompactString> = "@ =~= "let "@ + "values"@ + ": "@
        + "Vec<CompactString>"@ + " = "@);
    reveal_strlit("let value: Option<CompactString> = ");
    assert("let value: Option<CompactString> = "@ =~= "let "@ + "value"@ + ": "@
        + "Option<CompactString>"@ + " = "@);
    reveal_strlit("let mut value: Option<CompactString> = ");
    assert("let mut value: Option<CompactString> = "@ =~= "let mut "@ + "value"@ + ": "@
        + "Option<CompactString>"@ + " = "@);
    reveal_strlit(").collect();\n");
    reveal_strlit(").collect()");
    reveal_strlit(";\n");
    assert(").collect();\n"@ =~= ").collect()"@ + ";\n"@);
    reveal_strlit("if values.len() > 1 {\n");
    reveal_strlit("if ");
    reveal_strlit("values.len() > 1");
    reveal_strlit(" {\n");
    assert("if values.len() > 1 {\n"@ =~= "if "@ + "values.len() > 1"@ + " {\n"@);
    lemma_long_bind_words();
    reveal_strlit(").into()) };\n");
    reveal_strlit(").into())");
    reveal_strlit(" }");
    assert(").into()) };\n"@ =~= ").into())"@ + " }"@ + ";\n"@);
}

proof fn lemma_long_bind_words()
    ensures
        "let value: Option<CompactString> = if values.len() == 1 { values.into_iter().next() } else { None };\n"@
            == "let value: Option<CompactString> = "@
            + "if values.len() == 1 { values.into_iter().next() } else { None }"@ + ";\n"@,
        "let value: Option<CompactString> = values.into_iter().next();\n"@
            == "let value: Option<CompactString> = "@ + "values.into_iter().next()"@ + ";\n"@,
        "let value: Option<CompactString> = if values.is_empty() { None } else { Some(values.join("@
            == "let value: Option<CompactString> = "@
            + "if values.is_empty() { None } else { Some(values.join("@,
{
    reveal_strlit("let value: Option<CompactString> = ");
    reveal_strlit(";\n");
    reveal_strlit(
        "let value: Option<CompactString> = if values.len() == 1 { values.into_iter().next() } else { None };\n",
    );
    reveal_strlit("if values.len() == 1 { values.into_iter().next() } else { None }");
    assert("let value: Option<CompactString> = if values.len() == 1 { values.into_iter().next() } else { None };\n"@
        =~= "let value: Option<CompactString> = "@
        + "if values.len() == 1 { values.into_iter().next() } else { None }"@ + ";\n"@);
    reveal_strlit("let value: Option<CompactString> = values.into_iter().next();\n");
    reveal_strlit("values.into_iter().next()");
    assert("let value: Option<CompactString> = values.into_iter().next();\n"@
        =~= "let value: Option<CompactString> = "@ + "values.into_iter().next()"@ + ";\n"@);
    reveal_strlit(
        "let value: Option<CompactString> = if values.is_empty() { None } else { Some(values.join(",
    );
    reveal_strlit("if values.is_empty() { None } else { Some(values.join(");
    assert("let value: Option<CompactString> = if values.is_empty() { None } else { Some(values.join("@
        =~= "let value: Option<CompactString> = "@
        + "if values.is_empty() { None } else { Some(values.join("@);
}

proof fn lemma_many_text(
    model: ModelV,
    start: Text,
    node: NodeV,
    key: Text,
    policy: MultiplePolicy,
    target: TargetV,
    take: bool,
    t: Text,
    pad: Text,
)
    ensures
        many_code(t, model, start, node, key, policy, pad, target, take) == write_code(
            t,
            many_steps(model, start, node, key, policy, target, take),
            pad,
        ),
{
    lemma_ahead();
    lemma_pieces_behind();
    lemma_list_words();
    lemma_bind_words();
    let ty = "Option<CompactString>"@;
    let source = Expr::Source(list_expr(model, start, node, target, take));
    let collect = Step::Bind(false, Local::Values, "Vec<CompactString>"@, source);
    assert(show(source) == list_expr(model, start, node, target, take));
    let t1 = write_step(t, collect, pad);
    assert(t1 == t + pad + "let values: Vec<CompactString> = "@ + list_expr(
        model,
        start,
        node,
        target,
        take,
    ) + ";\n"@);
    let d = several_diag(node, key, policy, target);
    lemma_note(d);
    let object = Step::When(several(), note_code(d), Code::Stop);
    let t2 = write_step(t1, object, pad);
    assert(t2 == write_code(
        t1 + pad + "if "@ + show(several()) + " {\n"@,
        note_code(d),
        pad + "    "@,
    ) + pad + "}\n"@);
    let all = many_steps(model, start, node, key, policy, target, take);
    match policy {
        MultiplePolicy::Error => {
            let last = Step::Bind(false, Local::Value, ty, only_value());
            assert(write_code(t, all, pad) == write_step(t2, last, pad));
        },
        MultiplePolicy::First => {
            let last = Step::Bind(false, Local::Value, ty, first_value());
            assert(write_code(t, all, pad) == write_step(t2, last, pad));
        },
        MultiplePolicy::Join => {
            let last = Step::Bind(false, Local::Value, ty, joined_value(node.join_with->0));
            assert(write_code(t, all, pad) == write_step(t1, last, pad));
        },
    }
}

/// Whether a machine has settled repeated values: the variable `value` holds what they
/// come to, and a diagnostic is reported where they are objected to.
pub open spec fn has_settled(
    node: NodeV,
    key: Text,
    policy: MultiplePolicy,
    index: Option<Text>,
    values: Seq<Text>,
    m: Machine,
    n: Machine,
) -> bool {
    &&& n.locals.dom().contains(Local::Value)
    &&& n.locals[Local::Value] == optional(settled(policy, values, node.join_with->0))
    &&& n.places == m.places && n.counters == m.counters
    &&& n.notes == match objection(policy, values) {
        Some(severity) => m.notes.push(
            problem(severity, "MULTIPLE_VALUES"@, node, key, Some(node.source_path), index),
        ),
        None => m.notes,
    }
}

proof fn lemma_many_runs(
    model: ModelV,
    start: Text,
    node: NodeV,
    key: Text,
    policy: MultiplePolicy,
    target: TargetV,
    take: bool,
    w: World,
    m: Machine,
)
    requires
        (w.source)(list_expr(model, start, node, target, take)) is Many,
    ensures
        has_settled(
            node,
            key,
            policy,
            target.index,
            (w.source)(list_expr(model, start, node, target, take))->Many_0,
            m,
            run(many_steps(model, start, node, key, policy, target, take), w, m),
        ),
{
    lemma_ahead();
    lemma_severities();
    let ty = "Option<CompactString>"@;
    let source = Expr::Source(list_expr(model, start, node, target, take));
    let values = (w.source)(list_expr(model, start, node, target, take))->Many_0;
    lemma_evals(w, m);
    lemma_assigns(Local::Values, source, w, m);
    let m1 = Machine { locals: m.locals.insert(Local::Values, Val::Many(values)), ..m };
    let collect = Step::Bind(false, Local::Values, "Vec<CompactString>"@, source);
    assert(step(collect, w, m) == m1);
    lemma_evals(w, m1);
    let many = Expr::Get(Local::Values);
    assert(eval(many, w, m1) == Val::Many(values));
    assert(eval(*values_len(), w, m1) == Val::Count(values.len() as int));
    assert(eval(several(), w, m1) == Val::Flag(values.len() > 1));
    let d = several_diag(node, key, policy, target);
    lemma_note(d);
    lemma_chooses(several(), note_code(d), Code::Stop, w, m1);
    let object = Step::When(several(), note_code(d), Code::Stop);
    let m2 = step(object, w, m1);
    assert(m2 == if values.len() > 1 {
        reported(m1, note_of(d))
    } else {
        m1
    });
    lemma_evals(w, m2);
    assert(eval(many, w, m2) == Val::Many(values));
    let all = many_steps(model, start, node, key, policy, target, take);
    match policy {
        MultiplePolicy::Error => {
            let last = Step::Bind(false, Local::Value, ty, only_value());
            lemma_assigns(Local::Value, only_value(), w, m2);
            assert(run(all, w, m) == step(last, w, m2));
            assert(eval(*values_len(), w, m2) == Val::Count(values.len() as int));
            assert(eval(first_value(), w, m2) == called(Val::Many(values), Method::Next, w));
            assert(eval(only_value(), w, m2) == optional(
                settled(policy, values, node.join_with->0),
            ));
        },
        MultiplePolicy::First => {
            let last = Step::Bind(false, Local::Value, ty, first_value());
            lemma_assigns(Local::Value, first_value(), w, m2);
            assert(run(all, w, m) == step(last, w, m2));
            assert(eval(first_value(), w, m2) == called(Val::Many(values), Method::Next, w));
        },
        MultiplePolicy::Join => {
            let e = joined_value(node.join_with->0);
            let last = Step::Bind(false, Local::Value, ty, e);
            lemma_assigns(Local::Value, e, w, m1);
            assert(run(all, w, m) == step(last, w, m1));
            let j = Expr::Joined(Box::new(many), node.join_with->0);
            assert(eval(j, w, m1) == Val::Words(join(values, node.join_with->0)));
            let i = Expr::Call(Box::new(j), Method::Into);
            assert(eval(i, w, m1) == Val::Words(join(values, node.join_with->0)));
            let s = Expr::Apply(Function::Wrap, Box::new(i));
            assert(eval(s, w, m1) == Val::Present(
                Box::new(Val::Words(join(values, node.join_with->0))),
            ));
            let c = Expr::Call(Box::new(many), Method::IsEmpty);
            assert(eval(c, w, m1) == Val::Flag(values.len() == 0));
        },
    }
}

// ---------------------------------------------------------------------------
// Fallbacks
// ---------------------------------------------------------------------------

/// What the source document gives for a node, or for the `i`-th of its fallbacks: the
/// node itself is the first, and a fallback that does not exist gives nothing.
pub open spec fn offered(
    nodes: IrNodesV,
    model: ModelV,
    start: Text,
    node: NodeV,
    target: TargetV,
    shared: Seq<Text>,
    w: World,
    i: int,
) -> Val {
    if i == 0 {
        (w.source)(
            value_expr(
                model,
                start,
                node.source_path,
                node.normalize,
                target,
                target.owned && !repeats(shared, node.source_path),
            ),
        )
    } else {
        match lookup::<NodeId, NodeV>(nodes, node.fallbacks[i - 1]) {
            Some(fb) => (w.source)(
                value_expr(
                    model,
                    start,
                    fb.source_path,
                    fb.normalize,
                    target,
                    target.owned && !repeats(shared, fb.source_path),
                ),
            ),
            None => Val::Absent,
        }
    }
}

/// Whether the source document gives a text or nothing for a node and for each of its
/// first `n` fallbacks.
pub open spec fn offers_texts(
    nodes: IrNodesV,
    model: ModelV,
    start: Text,
    node: NodeV,
    target: TargetV,
    shared: Seq<Text>,
    w: World,
    n: int,
) -> bool {
    forall|i: int|
        0 <= i <= n ==> {
            let v = #[trigger] offered(nodes, model, start, node, target, shared, w, i);
            v is Absent || (v matches Val::Present(x) && *x is Words)
        }
}

/// Whether the `k`-th of a node and its first `n` fallbacks is the first to give a text.
pub open spec fn is_first(
    nodes: IrNodesV,
    model: ModelV,
    start: Text,
    node: NodeV,
    target: TargetV,
    shared: Seq<Text>,
    w: World,
    n: int,
    k: int,
) -> bool {
    &&& 0 <= k <= n
    &&& offered(nodes, model, start, node, target, shared, w, k) is Present
    &&& forall|j: int|
        0 <= j < k ==> #[trigger] offered(nodes, model, start, node, target, shared, w, j)
            is Absent
}

/// The diagnostic on the use of the `k`-th fallback.
pub open spec fn fallback_note(
    nodes: IrNodesV,
    node: NodeV,
    key: Text,
    index: Option<Text>,
    chain: Text,
    k: int,
) -> Note {
    let fb = lookup::<NodeId, NodeV>(nodes, node.fallbacks[k - 1])->0;
    Note {
        chain: Some(chain),
        ..problem(Severity::Info, "FALLBACK_USED"@, node, key, Some(fb.source_path), index)
    }
}

spec fn fallback_diag(node: NodeV, key: Text, fb_id: Text, fb: NodeV, chain: Text, target: TargetV) -> DiagSpecV {
    DiagSpecV {
        chain: Some(chain),
        ..path_diag(
            "Severity::Info"@,
            "FALLBACK_USED"@,
            node.id,
            "format!(\"used fallback `"@ + fb_id + "` for `"@ + key + "`\")"@,
            key,
            fb.source_path,
            target.index,
        )
    }
}

spec fn is_none() -> Expr {
    Expr::Call(Box::new(Expr::Get(Local::Value)), Method::IsNone)
}

spec fn is_some() -> Expr {
    Expr::Call(Box::new(Expr::Get(Local::Value)), Method::IsSome)
}

spec fn fallback_step(e: Expr, d: DiagSpecV) -> Step {
    Step::When(
        is_none(),
        ahead(
            Step::Assign(Local::Value, e),
            only(Step::When(is_some(), note_code(d), Code::Stop)),
        ),
        Code::Stop,
    )
}

spec fn fallbacks_steps(
    nodes: IrNodesV,
    model: ModelV,
    start: Text,
    node: NodeV,
    key: Text,
    chain: Text,
    target: TargetV,
    shared: Seq<Text>,
    n: int,
) -> Code
    decreases n,
{
    if n <= 0 {
        Code::Stop
    } else {
        let head = fallbacks_steps(nodes, model, start, node, key, chain, target, shared, n - 1);
        let fb_id = node.fallbacks[n - 1];
        match lookup::<NodeId, NodeV>(nodes, fb_id) {
            Some(fb) => both(
                head,
                only(
                    fallback_step(
                        Expr::Source(
                            value_expr(
                                model,
                                start,
                                fb.source_path,
                                fb.normalize,
                                target,
                                target.owned && !repeats(shared, fb.source_path),
                            ),
                        ),
                        fallback_diag(node, key, fb_id, fb, chain, target),
                    ),
                ),
            ),
            None => head,
        }
    }
}

pub proof fn lemma_indents()
    ensures
        "        "@ == "    "@ + "    "@,
        "    }\n"@ == "    "@ + "}\n"@,
{
    reveal_strlit("        ");
    reveal_strlit("    ");
    reveal_strlit("    }\n");
    reveal_strlit("}\n");
    assert("        "@ =~= "    "@ + "    "@);
    assert("    }\n"@ =~= "    "@ + "}\n"@);
}

proof fn lemma_fallback_words()
    ensures
        show(is_none()) == "value.is_none()"@,
        show(is_some()) == "value.is_some()"@,
        "if value.is_none() {\n"@ == "if "@ + "value.is_none()"@ + " {\n"@,
        "    value = "@ == "    "@ + "value"@ + " = "@,
        "    if value.is_some() {\n"@ == "    "@ + "if "@ + "value.is_some()"@ + " {\n"@,
{
    reveal_with_fuel(show, 3);
    reveal_strlit("value");
    reveal_strlit(".");
    reveal_strlit("is_none");
    reveal_strlit("is_some");
    reveal_strlit("()");
    reveal_strlit("value.is_none()");
    reveal_strlit("value.is_some()");
    assert(show(is_none()) =~= "value.is_none()"@);
    assert(show(is_some()) =~= "value.is_some()"@);
    reveal_strlit("if value.is_none() {\n");
    reveal_strlit("if ");
    reveal_strlit(" {\n");
    assert("if value.is_none() {\n"@ =~= "if "@ + "value.is_none()"@ + " {\n"@);
    reveal_strlit("    value = ");
    reveal_strlit("    ");
    reveal_strlit(" = ");
    assert("    value = "@ =~= "    "@ + "value"@ + " = "@);
    reveal_strlit("    if value.is_some() {\n");
    assert("    if value.is_some() {\n"@ =~= "    "@ + "if "@ + "value.is_some()"@ + " {\n"@);
}

proof fn lemma_fallback_text(
    model: ModelV,
    start: Text,
    node: NodeV,
    key: Text,
    fb_id: Text,
    fb: NodeV,
    chain: Text,
    target: TargetV,
    take: bool,
    t: Text,
    pad: Text,
)
    ensures
        fallback_code(t, model, start, node, key, fb_id, fb, chain, pad, target, take)
            == write_step(
            t,
            fallback_step(
                Expr::Source(value_expr(model, start, fb.source_path, fb.normalize, target, take)),
                fallback_diag(node, key, fb_id, fb, chain, target),
            ),
            pad,
        ),
{
    lemma_ahead();
    lemma_pieces_behind();
    lemma_indents();
    lemma_fallback_words();
    let e = Expr::Source(value_expr(model, start, fb.source_path, fb.normalize, target, take));
    let d = fallback_diag(node, key, fb_id, fb, chain, target);
    lemma_note(d);
    let p4 = pad + "    "@;
    let t1 = t + pad + "if value.is_none() {\n"@;
    let s1 = Step::Assign(Local::Value, e);
    let t2 = write_step(t1, s1, p4);
    assert(t2 == t1 + pad + "    value = "@ + show(e) + ";\n"@);
    let s2 = Step::When(is_some(), note_code(d), Code::Stop);
    let t3 = write_step(t2, s2, p4);
    let u = t2 + pad + "    if value.is_some() {\n"@;
    assert(u == t2 + p4 + "if "@ + show(is_some()) + " {\n"@);
    assert(p4 + "    "@ == pad + "        "@);
    assert(t3 == write_code(u, note_code(d), pad + "        "@) + p4 + "}\n"@);
    assert(write_code(t1, ahead(s1, only(s2)), p4) == t3);
}

proof fn lemma_fallbacks_text(
    nodes: IrNodesV,
    model: ModelV,
    start: Text,
    node: NodeV,
    key: Text,
    chain: Text,
    target: TargetV,
    shared: Seq<Text>,
    n: int,
    t: Text,
    pad: Text,
)
    ensures
        fallbacks_code(t, nodes, model, start, node, key, chain, pad, target, shared, n)
            == write_code(
            t,
            fallbacks_steps(nodes, model, start, node, key, chain, target, shared, n),
            pad,
        ),
    decreases n,
{
    lemma_ahead();
    if n > 0 {
        lemma_fallbacks_text(
            nodes,
            model,
            start,
            node,
            key,
            chain,
            target,
            shared,
            n - 1,
            t,
            pad,
        );
        let head = fallbacks_steps(nodes, model, start, node, key, chain, target, shared, n - 1);
        let u = write_code(t, head, pad);
        let fb_id = node.fallbacks[n - 1];
        if let Some(fb) = lookup::<NodeId, NodeV>(nodes, fb_id) {
            let take = target.owned && !repeats(shared, fb.source_path);
            let s = fallback_step(
                Expr::Source(value_expr(model, start, fb.source_path, fb.normalize, target, take)),
                fallback_diag(node, key, fb_id, fb, chain, target),
            );
            lemma_fallback_text(
                model,
                start,
                node,
                key,
                fb_id,
                fb,
                chain,
                target,
                take,
                u,
                pad,
            );
            lemma_both(head, only(s));
            assert(write_code(u, only(s), pad) == write_step(u, s, pad));
        }
    }
}

/// Whether a machine has found the first text that is offered, and noted the fallback
/// it is from.
pub open spec fn has_found(
    nodes: IrNodesV,
    model: ModelV,
    start: Text,
    node: NodeV,
    key: Text,
    chain: Text,
    target: TargetV,
    shared: Seq<Text>,
    w: World,
    n: int,
    m: Machine,
    f: Machine,
) -> bool {
    &&& f.locals.dom().contains(Local::Value)
    &&& f.places == m.places && f.counters == m.counters
    &&& forall|k: int|
        #[trigger] is_first(nodes, model, start, node, target, shared, w, n, k)
            ==> f.locals[Local::Value] == offered(
            nodes,
            model,
            start,
            node,
            target,
            shared,
            w,
            k,
        ) && f.notes == if k == 0 {
            m.notes
        } else {
            m.notes.push(fallback_note(nodes, node, key, target.index, chain, k))
        }
    &&& (forall|j: int|
        0 <= j <= n ==> #[trigger] offered(nodes, model, start, node, target, shared, w, j)
            is Absent) ==> f.locals[Local::Value] == Val::Absent && f.notes == m.notes
}

proof fn lemma_fallback_runs(e: Expr, d: DiagSpecV, w: World, m: Machine, v: Val)
    requires
        m.locals.dom().contains(Local::Value),
        m.locals[Local::Value] is Absent || m.locals[Local::Value] is Present,
        e is Source,
        v == eval(e, w, m),
        v is Absent || v is Present,
    ensures
        ({
            let n = step(fallback_step(e, d), w, m);
            &&& n.locals.dom().contains(Local::Value)
            &&& n.places == m.places && n.counters == m.counters
            &&& m.locals[Local::Value] is Present ==> n == m
            &&& m.locals[Local::Value] is Absent ==> n.locals[Local::Value] == v && n.notes == (
            if v is Present {
                m.notes.push(note_of(d))
            } else {
                m.notes
            })
        }),
{
    lemma_ahead();
    lemma_note(d);
    lemma_evals(w, m);
    let s1 = Step::Assign(Local::Value, e);
    let s2 = Step::When(is_some(), note_code(d), Code::Stop);
    let inner = ahead(s1, only(s2));
    lemma_chooses(is_none(), inner, Code::Stop, w, m);
    assert(eval(is_none(), w, m) == Val::Flag(m.locals[Local::Value] is Absent));
    lemma_assigns(Local::Value, e, w, m);
    let m1 = step(s1, w, m);
    lemma_evals(w, m1);
    assert(eval(is_some(), w, m1) == Val::Flag(v is Present));
    lemma_chooses(is_some(), note_code(d), Code::Stop, w, m1);
    assert(run(inner, w, m) == step(s2, w, m1));
}

proof fn lemma_fallbacks_run(
    nodes: IrNodesV,
    model: ModelV,
    start: Text,
    node: NodeV,
    key: Text,
    chain: Text,
    target: TargetV,
    shared: Seq<Text>,
    n: int,
    w: World,
    m: Machine,
)
    requires
        0 <= n <= node.fallbacks.len(),
        offers_texts(nodes, model, start, node, target, shared, w, n),
        m.locals.dom().contains(Local::Value),
        m.locals[Local::Value] == offered(nodes, model, start, node, target, shared, w, 0),
    ensures
        has_found(
            nodes,
            model,
            start,
            node,
            key,
            chain,
            target,
            shared,
            w,
            n,
            m,
            run(fallbacks_steps(nodes, model, start, node, key, chain, target, shared, n), w, m),
        ),
    decreases n,
{
    lemma_ahead();
    let all = fallbacks_steps(nodes, model, start, node, key, chain, target, shared, n);
    let f = run(all, w, m);
    if n == 0 {
        assert(f == m);
        assert forall|k: int|
            #[trigger] is_first(nodes, model, start, node, target, shared, w, n, k) implies k
            == 0 by {}
        assert(offered(nodes, model, start, node, target, shared, w, 0) is Absent
            || offered(nodes, model, start, node, target, shared, w, 0) is Present);
    } else {
        assert forall|i: int| 0 <= i <= n - 1 implies {
            let v = #[trigger] offered(nodes, model, start, node, target, shared, w, i);
            v is Absent || (v matches Val::Present(x) && *x is Words)
        } by {}
        lemma_fallbacks_run(nodes, model, start, node, key, chain, target, shared, n - 1, w, m);
        let head = fallbacks_steps(nodes, model, start, node, key, chain, target, shared, n - 1);
        let g = run(head, w, m);
        let fb_id = node.fallbacks[n - 1];
        let last = offered(nodes, model, start, node, target, shared, w, n);
        // Either an earlier one is the first, or all of them give nothing.
        let found = exists|k: int|
            #[trigger] is_first(nodes, model, start, node, target, shared, w, n - 1, k);
        if !found {
            lemma_none_found(nodes, model, start, node, target, shared, w, n - 1);
        } else {
            let k = choose|k: int|
                #[trigger] is_first(nodes, model, start, node, target, shared, w, n - 1, k);
            assert(g.locals[Local::Value] is Present);
        }
        match lookup::<NodeId, NodeV>(nodes, fb_id) {
            Some(fb) => {
                let e = Expr::Source(
                    value_expr(
                        model,
                        start,
                        fb.source_path,
                        fb.normalize,
                        target,
                        target.owned && !repeats(shared, fb.source_path),
                    ),
                );
                let d = fallback_diag(node, key, fb_id, fb, chain, target);
                lemma_severities();
                lemma_evals(w, g);
                assert(eval(e, w, g) == last);
                lemma_fallback_runs(e, d, w, g, last);
                let s = fallback_step(e, d);
                lemma_both(head, only(s));
                assert(f == step(s, w, g));
                assert(note_of(d) == fallback_note(nodes, node, key, target.index, chain, n));
            },
            None => {
                assert(f == g);
            },
        }
        assert forall|k: int|
            #[trigger] is_first(
                nodes,
                model,
                start,
                node,
                target,
                shared,
                w,
                n,
                k,
            ) implies f.locals[Local::Value] == offered(
            nodes,
            model,
            start,
            node,
            target,
            shared,
            w,
            k,
        ) && f.notes == (if k == 0 {
            m.notes
        } else {
            m.notes.push(fallback_note(nodes, node, key, target.index, chain, k))
        }) by {
            if k < n {
                assert(is_first(nodes, model, start, node, target, shared, w, n - 1, k));
            } else if found {
                let j = choose|j: int|
                    #[trigger] is_first(nodes, model, start, node, target, shared, w, n - 1, j);
                assert(offered(nodes, model, start, node, target, shared, w, j) is Absent);
            }
        }
        if forall|j: int|
            0 <= j <= n ==> #[trigger] offered(nodes, model, start, node, target, shared, w, j)
                is Absent {
            assert(last is Absent);
            if found {
                let j = choose|j: int|
                    #[trigger] is_first(nodes, model, start, node, target, shared, w, n - 1, j);
                assert(offered(nodes, model, start, node, target, shared, w, j) is Absent);
            }
        }
    }
}

proof fn lemma_none_found(
    nodes: IrNodesV,
    model: ModelV,
    start: Text,
    node: NodeV,
    target: TargetV,
    shared: Seq<Text>,
    w: World,
    n: int,
)
    requires
        n >= 0,
        offers_texts(nodes, model, start, node, target, shared, w, n),
        forall|k: int| !#[trigger] is_first(nodes, model, start, node, target, shared, w, n, k),
    ensures
        forall|j: int|
            0 <= j <= n ==> #[trigger] offered(nodes, model, start, node, target, shared, w, j)
                is Absent,
{
    if exists|j: int|
        0 <= j <= n && !((#[trigger] offered(nodes, model, start, node, target, shared, w, j))
            is Absent) {
        let j = choose|j: int|
            0 <= j <= n && !((#[trigger] offered(nodes, model, start, node, target, shared, w, j))
                is Absent);
        let k = lemma_least(nodes, model, start, node, target, shared, w, n, j);
        assert(is_first(nodes, model, start, node, target, shared, w, n, k));
    }
}

proof fn lemma_least(
    nodes: IrNodesV,
    model: ModelV,
    start: Text,
    node: NodeV,
    target: TargetV,
    shared: Seq<Text>,
    w: World,
    n: int,
    j: int,
) -> (k: int)
    requires
        0 <= j <= n,
        offers_texts(nodes, model, start, node, target, shared, w, n),
        !(offered(nodes, model, start, node, target, shared, w, j) is Absent),
    ensures
        is_first(nodes, model, start, node, target, shared, w, n, k),
    decreases j,
{
    if exists|i: int|
        0 <= i < j && !((#[trigger] offered(nodes, model, start, node, target, shared, w, i))
            is Absent) {
        let i = choose|i: int|
            0 <= i < j && !((#[trigger] offered(nodes, model, start, node, target, shared, w, i))
                is Absent);
        lemma_least(nodes, model, start, node, target, shared, w, n, i)
    } else {
        j
    }
}

// ---------------------------------------------------------------------------
// A scalar
// ---------------------------------------------------------------------------

spec fn missing_diag(node: NodeV, key: Text, target: TargetV) -> DiagSpecV {
    path_diag(
        "Severity::Error"@,
        "REQUIRED_MISSING"@,
        node.id,
        "\"required value is missing\""@,
        key,
        node.source_path,
        target.index,
    )
}

spec fn store_step(node: NodeV, key: Text, target: TargetV) -> Step {
    Step::WhenSome(
        Local::Raw,
        Expr::Get(Local::Value),
        assign_steps(node, key, target),
        if node.required {
            note_code(missing_diag(node, key, target))
        } else {
            Code::Stop
        },
    )
}

spec fn own_expr(
    model: ModelV,
    start: Text,
    node: NodeV,
    target: TargetV,
    shared: Seq<Text>,
) -> Expr {
    Expr::Source(
        value_expr(
            model,
            start,
            node.source_path,
            node.normalize,
            target,
            target.owned && !repeats(shared, node.source_path),
        ),
    )
}

/// The fallback chain of a node, as it is written in a diagnostic.
pub open spec fn chain_text(node: NodeV) -> Text {
    "vec!["@ + chain_items(node, node.fallbacks.len() as int) + "]"@
}

spec fn single_steps(
    nodes: IrNodesV,
    model: ModelV,
    start: Text,
    node: NodeV,
    key: Text,
    target: TargetV,
    shared: Seq<Text>,
) -> Code {
    ahead(
        Step::Bind(
            node.fallbacks.len() > 0,
            Local::Value,
            "Option<CompactString>"@,
            own_expr(model, start, node, target, shared),
        ),
        fallbacks_steps(
            nodes,
            model,
            start,
            node,
            key,
            chain_text(node),
            target,
            shared,
            node.fallbacks.len() as int,
        ),
    )
}

spec fn scalar_steps(
    nodes: IrNodesV,
    model: ModelV,
    node: NodeV,
    start: Text,
    target: TargetV,
    shared: Seq<Text>,
) -> Code {
    let key = node.canonical_key->0;
    let take = target.owned && !repeats(shared, node.source_path);
    let value = match node.multiple {
        Some(policy) => ahead(
            Step::Remark(node.id + " -> "@ + key + " (multiple)"@),
            many_steps(model, start, node, key, policy, target, take),
        ),
        None => ahead(
            Step::Remark(node.id + " -> "@ + key),
            single_steps(nodes, model, start, node, key, target, shared),
        ),
    };
    both(value, only(store_step(node, key, target)))
}

proof fn lemma_store_text(node: NodeV, key: Text, target: TargetV, t: Text, pad: Text)
    ensures
        write_step(t, store_step(node, key, target), pad) == ({
            let t = t + pad + "if let Some(raw) = value {\n"@;
            let t = assign_code(t, node, key, pad + "    "@, target);
            let t = if node.required {
                crate::dsl::codegen::diag::diag_code(
                    t + pad + "} else {\n"@,
                    missing_diag(node, key, target),
                    pad + "    "@,
                )
            } else {
                t
            };
            t + pad + "}\n"@
        }),
{
    lemma_ahead();
    lemma_pieces_behind();
    lemma_adapter_words(Seq::empty());
    let d = missing_diag(node, key, target);
    lemma_note(d);
    let t1 = t + pad + "if let Some(raw) = value {\n"@;
    lemma_assign_text(node, key, target, t1, pad + "    "@);
    assert(!(note_code(d) is Stop));
}

proof fn lemma_single_text(
    nodes: IrNodesV,
    model: ModelV,
    start: Text,
    node: NodeV,
    key: Text,
    target: TargetV,
    shared: Seq<Text>,
    t: Text,
    pad: Text,
)
    ensures
        write_code(t, single_steps(nodes, model, start, node, key, target, shared), pad) == ({
            let e = value_expr(
                model,
                start,
                node.source_path,
                node.normalize,
                target,
                target.owned && !repeats(shared, node.source_path),
            );
            if node.fallbacks.len() == 0 {
                t + pad + "let value: Option<CompactString> = "@ + e + ";\n"@
            } else {
                fallbacks_code(
                    t + pad + "let mut value: Option<CompactString> = "@ + e + ";\n"@,
                    nodes,
                    model,
                    start,
                    node,
                    key,
                    chain_text(node),
                    pad,
                    target,
                    shared,
                    node.fallbacks.len() as int,
                )
            }
        }),
{
    lemma_ahead();
    lemma_pieces_behind();
    lemma_bind_words();
    let e = own_expr(model, start, node, target, shared);
    let s = Step::Bind(
        node.fallbacks.len() > 0,
        Local::Value,
        "Option<CompactString>"@,
        e,
    );
    let u = write_step(t, s, pad);
    lemma_fallbacks_text(
        nodes,
        model,
        start,
        node,
        key,
        chain_text(node),
        target,
        shared,
        node.fallbacks.len() as int,
        u,
        pad,
    );
}

proof fn lemma_remark_words(node: NodeV, key: Text, t: Text, pad: Text)
    ensures
        write_step(t, Step::Remark(node.id + " -> "@ + key + " (multiple)"@), pad) == t + pad
            + "// "@ + node.id + " -> "@ + key + " (multiple)\n"@,
        write_step(t, Step::Remark(node.id + " -> "@ + key), pad) == t + pad + "// "@ + node.id
            + " -> "@ + key + "\n"@,
{
    lemma_pieces_behind();
    reveal_strlit(" (multiple)\n");
    reveal_strlit(" (multiple)");
    reveal_strlit("\n");
    assert(" (multiple)\n"@ =~= " (multiple)"@ + "\n"@);
}

proof fn lemma_scalar_text(
    nodes: IrNodesV,
    model: ModelV,
    node: NodeV,
    start: Text,
    target: TargetV,
    shared: Seq<Text>,
    t: Text,
    pad: Text,
)
    ensures
        scalar_code(t, nodes, model, node, start, pad, target, shared) == write_code(
            t,
            scalar_steps(nodes, model, node, start, target, shared),
            pad,
        ),
{
    lemma_ahead();
    let key = node.canonical_key->0;
    let take = target.owned && !repeats(shared, node.source_path);
    lemma_remark_words(node, key, t, pad);
    let last = store_step(node, key, target);
    match node.multiple {
        Some(policy) => {
            let r = Step::Remark(node.id + " -> "@ + key + " (multiple)"@);
            let u = write_step(t, r, pad);
            let c = many_steps(model, start, node, key, policy, target, take);
            lemma_many_text(model, start, node, key, policy, target, take, u, pad);
            let v = write_code(u, c, pad);
            lemma_both(ahead(r, c), only(last));
            lemma_store_text(node, key, target, v, pad);
            assert(write_code(t, scalar_steps(nodes, model, node, start, target, shared), pad)
                == write_step(v, last, pad));
        },
        None => {
            let r = Step::Remark(node.id + " -> "@ + key);
            let u = write_step(t, r, pad);
            let c = single_steps(nodes, model, start, node, key, target, shared);
            lemma_single_text(nodes, model, start, node, key, target, shared, u, pad);
            let v = write_code(u, c, pad);
            lemma_both(ahead(r, c), only(last));
            lemma_store_text(node, key, target, v, pad);
            assert(write_code(t, scalar_steps(nodes, model, node, start, target, shared), pad)
                == write_step(v, last, pad));
        },
    }
}

/// Whether a machine has read a value that was got, if any, once `notes` were reported:
/// it is stored at its place or what is wrong with it is reported, and where nothing was
/// got, that is reported exactly if the value is required.
pub open spec fn has_read(
    node: NodeV,
    key: Text,
    place: Text,
    index: Option<Text>,
    got: Option<Text>,
    w: World,
    m: Machine,
    notes: Seq<Note>,
    n: Machine,
) -> bool {
    match got {
        Some(raw) => has_stored(
            node,
            key,
            place,
            index,
            raw,
            w,
            Machine { notes, ..m },
            n,
        ),
        None => n.places == m.places && n.counters == m.counters && n.notes == if node.required {
            notes.push(
                problem(
                    Severity::Error,
                    "REQUIRED_MISSING"@,
                    node,
                    key,
                    Some(node.source_path),
                    index,
                ),
            )
        } else {
            notes
        },
    }
}

proof fn lemma_store_runs(
    node: NodeV,
    key: Text,
    target: TargetV,
    w: World,
    m: Machine,
    got: Option<Text>,
)
    requires
        m.locals.dom().contains(Local::Value),
        m.locals[Local::Value] == optional(got),
    ensures
        has_read(
            node,
            key,
            target.struct_var + "."@ + field_of(key),
            target.index,
            got,
            w,
            m,
            m.notes,
            step(store_step(node, key, target), w, m),
        ),
{
    lemma_ahead();
    lemma_severities();
    lemma_evals(w, m);
    let d = missing_diag(node, key, target);
    lemma_note(d);
    let a = assign_steps(node, key, target);
    let b = if node.required {
        note_code(d)
    } else {
        Code::Stop
    };
    lemma_unwraps(Local::Raw, Expr::Get(Local::Value), a, b, w, m);
    if let Some(raw) = got {
        let k = Machine { locals: m.locals.insert(Local::Raw, Val::Words(raw)), ..m };
        lemma_assign_runs(node, key, target, w, k);
    }
}

/// Whether a text is the code of statements, and those do what they should.
pub open spec fn is_code(text: spec_fn(Text) -> Text, pad: Text, c: Code) -> bool {
    forall|t: Text| #[trigger] text(t) == write_code(t, c, pad)
}

/// Whether statements read a value that occurs once: the first text that the node or
/// one of its fallbacks, in their order, gives; nothing where none does.
pub open spec fn reads_first(
    c: Code,
    nodes: IrNodesV,
    model: ModelV,
    node: NodeV,
    start: Text,
    target: TargetV,
    shared: Seq<Text>,
) -> bool {
    let n = node.fallbacks.len() as int;
    let key = node.canonical_key->0;
    let place = target.struct_var + "."@ + field_of(key);
    forall|w: World, m: Machine|
        #![trigger run(c, w, m)]
        offers_texts(nodes, model, start, node, target, shared, w, n) ==> {
            &&& forall|k: int|
                #[trigger] is_first(nodes, model, start, node, target, shared, w, n, k)
                    ==> has_read(
                    node,
                    key,
                    place,
                    target.index,
                    Some(
                        (*(offered(
                            nodes,
                            model,
                            start,
                            node,
                            target,
                            shared,
                            w,
                            k,
                        )->Present_0))->Words_0,
                    ),
                    w,
                    m,
                    if k == 0 {
                        m.notes
                    } else {
                        m.notes.push(
                            fallback_note(nodes, node, key, target.index, chain_text(node), k),
                        )
                    },
                    run(c, w, m),
                )
            &&& (forall|j: int|
                0 <= j <= n ==> #[trigger] offered(
                    nodes,
                    model,
                    start,
                    node,
                    target,
                    shared,
                    w,
                    j,
                ) is Absent) ==> has_read(
                node,
                key,
                place,
                target.index,
                None,
                w,
                m,
                m.notes,
                run(c, w, m),
            )
        }
}

/// The code of a node whose value occurs once reads the first text that the node or one
/// of its fallbacks gives, notes which fallback that is, stores it where it is of the
/// node's type, and reports what is wrong or, where a required value is missing, that.
pub proof fn law_reader_takes_the_first_value(
    nodes: IrNodesV,
    model: ModelV,
    node: NodeV,
    start: Text,
    pad: Text,
    target: TargetV,
    shared: Seq<Text>,
)
    requires
        node.multiple is None,
    ensures
        exists|c: Code|
            is_code(
                |t: Text| scalar_code(t, nodes, model, node, start, pad, target, shared),
                pad,
                c,
            ) && #[trigger] reads_first(c, nodes, model, node, start, target, shared),
{
    let c = scalar_steps(nodes, model, node, start, target, shared);
    let key = node.canonical_key->0;
    let n = node.fallbacks.len() as int;
    assert forall|t: Text|
        #[trigger] scalar_code(t, nodes, model, node, start, pad, target, shared) == write_code(
            t,
            c,
            pad,
        ) by {
        lemma_scalar_text(nodes, model, node, start, target, shared, t, pad);
    }
    assert(is_code(
        |t: Text| scalar_code(t, nodes, model, node, start, pad, target, shared),
        pad,
        c,
    ));
    let place = target.struct_var + "."@ + field_of(key);
    assert forall|w: World, m: Machine|
        #![trigger run(c, w, m)]
        offers_texts(nodes, model, start, node, target, shared, w, n) implies {
        &&& forall|k: int|
            #[trigger] is_first(nodes, model, start, node, target, shared, w, n, k) ==> has_read(
                node,
                key,
                place,
                target.index,
                Some(
                    (*(offered(
                        nodes,
                        model,
                        start,
                        node,
                        target,
                        shared,
                        w,
                        k,
                    )->Present_0))->Words_0,
                ),
                w,
                m,
                if k == 0 {
                    m.notes
                } else {
                    m.notes.push(
                        fallback_note(nodes, node, key, target.index, chain_text(node), k),
                    )
                },
                run(c, w, m),
            )
        &&& (forall|j: int|
            0 <= j <= n ==> #[trigger] offered(nodes, model, start, node, target, shared, w, j)
                is Absent) ==> has_read(
            node,
            key,
            place,
            target.index,
            None,
            w,
            m,
            m.notes,
            run(c, w, m),
        )
    } by {
        let f = lemma_single_found(nodes, model, node, start, target, shared, w, m);
        let last = store_step(node, key, target);
        assert forall|k: int|
            #[trigger] is_first(nodes, model, start, node, target, shared, w, n, k) implies has_read(
            node,
            key,
            place,
            target.index,
            Some(
                (*(offered(
                    nodes,
                    model,
                    start,
                    node,
                    target,
                    shared,
                    w,
                    k,
                )->Present_0))->Words_0,
            ),
            w,
            m,
            if k == 0 {
                m.notes
            } else {
                m.notes.push(fallback_note(nodes, node, key, target.index, chain_text(node), k))
            },
            run(c, w, m),
        ) by {
            let v = offered(nodes, model, start, node, target, shared, w, k);
            let raw = (*(v->Present_0))->Words_0;
            assert(v == optional(Some(raw)));
            lemma_store_runs(node, key, target, w, f, Some(raw));
        }
        if forall|j: int|
            0 <= j <= n ==> #[trigger] offered(nodes, model, start, node, target, shared, w, j)
                is Absent {
            lemma_store_runs(node, key, target, w, f, None);
        }
    }
    assert(reads_first(c, nodes, model, node, start, target, shared));
}

proof fn lemma_single_found(
    nodes: IrNodesV,
    model: ModelV,
    node: NodeV,
    start: Text,
    target: TargetV,
    shared: Seq<Text>,
    w: World,
    m: Machine,
) -> (f: Machine)
    requires
        node.multiple is None,
        offers_texts(
            nodes,
            model,
            start,
            node,
            target,
            shared,
            w,
            node.fallbacks.len() as int,
        ),
    ensures
        has_found(
            nodes,
            model,
            start,
            node,
            node.canonical_key->0,
            chain_text(node),
            target,
            shared,
            w,
            node.fallbacks.len() as int,
            m,
            f,
        ),
        run(scalar_steps(nodes, model, node, start, target, shared), w, m) == step(
            store_step(node, node.canonical_key->0, target),
            w,
            f,
        ),
{
    lemma_ahead();
    let key = node.canonical_key->0;
    let n = node.fallbacks.len() as int;
    let r = Step::Remark(node.id + " -> "@ + key);
    let c = single_steps(nodes, model, start, node, key, target, shared);
    let last = store_step(node, key, target);
    let e = own_expr(model, start, node, target, shared);
    lemma_both(ahead(r, c), only(last));
    lemma_evals(w, m);
    lemma_assigns(Local::Value, e, w, m);
    let b = Step::Bind(node.fallbacks.len() > 0, Local::Value, "Option<CompactString>"@, e);
    let m1 = step(b, w, m);
    assert(step(r, w, m) == m);
    lemma_fallbacks_run(nodes, model, start, node, key, chain_text(node), target, shared, n, w, m1);
    let rest = fallbacks_steps(
        nodes,
        model,
        start,
        node,
        key,
        chain_text(node),
        target,
        shared,
        n,
    );
    let f = run(rest, w, m1);
    assert(run(c, w, m) == f);
    assert(run(ahead(r, c), w, m) == f);
    f
}

/// Whether statements read repeated values as a policy settles them.
pub open spec fn reads_settled(
    c: Code,
    policy: MultiplePolicy,
    model: ModelV,
    node: NodeV,
    start: Text,
    target: TargetV,
    shared: Seq<Text>,
) -> bool {
    let key = node.canonical_key->0;
    let take = target.owned && !repeats(shared, node.source_path);
    forall|w: World, m: Machine|
        #![trigger run(c, w, m)]
        (w.source)(list_expr(model, start, node, target, take)) is Many ==> {
            let values = (w.source)(list_expr(model, start, node, target, take))->Many_0;
            has_read(
                node,
                key,
                target.struct_var + "."@ + field_of(key),
                target.index,
                settled(policy, values, node.join_with->0),
                w,
                m,
                match objection(policy, values) {
                    Some(severity) => m.notes.push(
                        problem(
                            severity,
                            "MULTIPLE_VALUES"@,
                            node,
                            key,
                            Some(node.source_path),
                            target.index,
                        ),
                    ),
                    None => m.notes,
                },
                run(c, w, m),
            )
        }
}

/// The code of a node whose values repeat reads what its policy makes of them: under
/// `error` the only one, and several are an error; under `first` the first, and several
/// are worth a warning; under `join` all of them, joined. Nothing is read where there is
/// none.
pub proof fn law_reader_settles_repeated_values(
    nodes: IrNodesV,
    model: ModelV,
    node: NodeV,
    policy: MultiplePolicy,
    start: Text,
    pad: Text,
    target: TargetV,
    shared: Seq<Text>,
)
    requires
        node.multiple == Some(policy),
    ensures
        exists|c: Code|
            is_code(
                |t: Text| scalar_code(t, nodes, model, node, start, pad, target, shared),
                pad,
                c,
            ) && #[trigger] reads_settled(
                c,
                policy,
                model,
                node,
                start,
                target,
                shared,
            ),
{
    let c = scalar_steps(nodes, model, node, start, target, shared);
    let key = node.canonical_key->0;
    let take = target.owned && !repeats(shared, node.source_path);
    assert forall|t: Text|
        #[trigger] scalar_code(t, nodes, model, node, start, pad, target, shared) == write_code(
            t,
            c,
            pad,
        ) by {
        lemma_scalar_text(nodes, model, node, start, target, shared, t, pad);
    }
    assert(is_code(
        |t: Text| scalar_code(t, nodes, model, node, start, pad, target, shared),
        pad,
        c,
    ));
    let r = Step::Remark(node.id + " -> "@ + key + " (multiple)"@);
    let body = many_steps(model, start, node, key, policy, target, take);
    let last = store_step(node, key, target);
    lemma_both(ahead(r, body), only(last));
    assert forall|w: World, m: Machine|
        #![trigger run(c, w, m)]
        (w.source)(list_expr(model, start, node, target, take)) is Many implies {
        let values = (w.source)(list_expr(model, start, node, target, take))->Many_0;
        has_read(
            node,
            key,
            target.struct_var + "."@ + field_of(key),
            target.index,
            settled(policy, values, node.join_with->0),
            w,
            m,
            match objection(policy, values) {
                Some(severity) => m.notes.push(
                    problem(
                        severity,
                        "MULTIPLE_VALUES"@,
                        node,
                        key,
                        Some(node.source_path),
                        target.index,
                    ),
                ),
                None => m.notes,
            },
            run(c, w, m),
        )
    } by {
        lemma_ahead();
        let values = (w.source)(list_expr(model, start, node, target, take))->Many_0;
        assert(step(r, w, m) == m);
        lemma_many_runs(model, start, node, key, policy, target, take, w, m);
        let f = run(body, w, m);
        assert(run(c, w, m) == step(last, w, f));
        lemma_store_runs(
            node,
            key,
            target,
            w,
            f,
            settled(policy, values, node.join_with->0),
        );
    }
    assert(reads_settled(c, policy, model, node, start, target, shared));
}

} // verus!
