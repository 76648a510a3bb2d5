//! What generated readers do with copies of values and with collections.
use vstd::prelude::*;

use crate::dsl::codegen::access::{list_slice_of, list_take_of};
use crate::dsl::codegen::diag::{path_diag, DiagSpecV};
use crate::dsl::codegen::naming::{field_of, item_of};
use crate::dsl::codegen::plan::FrameV;
use crate::dsl::codegen::read::{clone_code, closing_code, opening_code, value_expr, TargetV};
use crate::dsl::codegen::reader_laws::{
    decode_steps, lemma_decode_runs_at, lemma_decode_text_at, lemma_note, lemma_pieces_behind,
    lemma_severities, note_code, note_of, reported, type_error, type_message, typed,
};
use crate::dsl::codegen::reader_values::{is_code, lemma_indents, optional, problem};
use crate::dsl::codegen::script::{
    ahead, eval, lemma_ahead, lemma_assigns, lemma_both, lemma_chooses, lemma_evals, lemma_unwraps,
    both, only, run, show, step, write_code, write_step, Code, Compare, Expr, Function, Local,
    Machine, Method, Note, Step, Val, World,
};
use crate::dsl::codegen::sharing::repeats;
use crate::dsl::node::{min_items_of, NodeV};
use crate::dsl::source_model::meta::ModelV;
use crate::runtime::result::Severity;
use crate::text::{decimal, has, lemma_has_inside, lemma_has_self, Text};

verus! {

// ---------------------------------------------------------------------------
// Copies
// ---------------------------------------------------------------------------

/// The diagnostics on a copy of a canonical value: none where the document has no copy
/// or the copy is the same; an error where it is not of the type; a warning where it
/// differs.
pub open spec fn copy_notes(
    node: NodeV,
    key: Text,
    index: Option<Text>,
    copy: Option<Text>,
    canonical: Val,
    w: World,
) -> Seq<Note> {
    match copy {
        None => Seq::empty(),
        Some(raw) => match typed(node.source_type, raw, w) {
            None => seq![problem(Severity::Error, "TYPE_INVALID"@, node, key, None, index)],
            Some(v) => if canonical == Val::Present(Box::new(v)) {
                Seq::empty()
            } else {
                seq![
                    problem(
                        Severity::Warning,
                        "CLONE_MISMATCH"@,
                        node,
                        key,
                        Some(node.source_path),
                        index,
                    ),
                ]
            },
        },
    }
}

spec fn mismatch_diag(node: NodeV, key: Text, target: TargetV) -> DiagSpecV {
    path_diag(
        "Severity::Warning"@,
        "CLONE_MISMATCH"@,
        node.id,
        "format!(\"copy value `{found}` does not match the canonical `"@ + key + "` value\")"@,
        key,
        node.source_path,
        target.index,
    )
}

spec fn differs(canonical: Text) -> Expr {
    Expr::Is(
        Box::new(Expr::Call(Box::new(Expr::At(canonical)), Method::AsRef)),
        Compare::Differ,
        Box::new(
            Expr::Apply(Function::Wrap, Box::new(Expr::Refer(Box::new(Expr::Get(Local::Found))))),
        ),
    )
}

spec fn check_step(node: NodeV, key: Text, target: TargetV) -> Step {
    let canonical = target.struct_var + "."@ + field_of(key);
    Step::WhenSome(
        Local::Found,
        Expr::At("clone_value"@),
        only(Step::When(differs(canonical), note_code(mismatch_diag(node, key, target)), Code::Stop)),
        Code::Stop,
    )
}

spec fn copy_steps(node: NodeV, key: Text, target: TargetV) -> Code {
    ahead(
        Step::Fresh("clone_value"@),
        both(
            decode_steps(node, key, "clone_value"@, target),
            only(check_step(node, key, target)),
        ),
    )
}

spec fn clone_steps(e: Expr, node: NodeV, key: Text, target: TargetV) -> Code {
    ahead(
        Step::Remark(node.id + ": copy of "@ + key + ", consistency check"@),
        only(
            Step::Block(
                ahead(
                    Step::Bind(false, Local::Value, "Option<CompactString>"@, e),
                    only(
                        Step::WhenSome(
                            Local::Raw,
                            Expr::Get(Local::Value),
                            copy_steps(node, key, target),
                            Code::Stop,
                        ),
                    ),
                ),
            ),
        ),
    )
}

proof fn lemma_copy_words(canonical: Text)
    ensures
        show(differs(canonical)) == canonical + ".as_ref() != Some(&found)"@,
        ".as_ref() != Some(&found) {\n"@ == ".as_ref() != Some(&found)"@ + " {\n"@,
        ", consistency check\n"@ == ", consistency check"@ + "\n"@,
        "let value: Option<CompactString> = "@ == "let "@ + "value"@ + ": "@
            + "Option<CompactString>"@ + " = "@,
        "if let Some(raw) = value {\n"@ == "if let Some("@ + "raw"@ + ") = "@ + "value"@ + " {\n"@,
        "    let mut clone_value = None;\n"@ == "    "@ + "let mut "@ + "clone_value"@
            + " = None;\n"@,
        "    if let Some(found) = clone_value {\n"@ == "    "@ + "if let Some("@ + "found"@ + ") = "@
            + "clone_value"@ + " {\n"@,
        "        if "@ == "        "@ + "if "@,
        "        }\n"@ == "        "@ + "}\n"@,
        "            "@ == "        "@ + "    "@,
{
    lemma_pieces_behind();
    reveal_with_fuel(show, 5);
    reveal_strlit(".");
    reveal_strlit("as_ref");
    reveal_strlit("()");
    reveal_strlit(" != ");
    reveal_strlit("Some");
    reveal_strlit("(");
    reveal_strlit("&");
    reveal_strlit("found");
    reveal_strlit(")");
    reveal_strlit(".as_ref() != Some(&found)");
    assert(".as_ref() != Some(&found)"@ =~= "."@ + "as_ref"@ + "()"@ + " != "@ + ("Some"@ + "("@ + (
    "&"@ + "found"@) + ")"@));
    reveal_strlit(".as_ref() != Some(&found) {\n");
    reveal_strlit(" {\n");
    assert(".as_ref() != Some(&found) {\n"@ =~= ".as_ref() != Some(&found)"@ + " {\n"@);
    reveal_strlit(", consistency check\n");
    reveal_strlit(", consistency check");
    reveal_strlit("\n");
    assert(", consistency check\n"@ =~= ", consistency check"@ + "\n"@);
    reveal_strlit("let value: Option<CompactString> = ");
    reveal_strlit("let ");
    reveal_strlit("value");
    reveal_strlit(": ");
    reveal_strlit("Option<CompactString>");
    reveal_strlit(" = ");
    assert("let value: Option<CompactString> = "@ =~= "let "@ + "value"@ + ": "@
        + "Option<CompactString>"@ + " = "@);
    reveal_strlit("if let Some(raw) = value {\n");
    reveal_strlit("if let Some(");
    reveal_strlit("raw");
    reveal_strlit(") = ");
    assert("if let Some(raw) = value {\n"@ =~= "if let Some("@ + "raw"@ + ") = "@ + "value"@
        + " {\n"@);
    reveal_strlit("    let mut clone_value = None;\n");
    reveal_strlit("    ");
    reveal_strlit("let mut ");
    reveal_strlit("clone_value");
    reveal_strlit(" = None;\n");
    assert("    let mut clone_value = None;\n"@ =~= "    "@ + "let mut "@ + "clone_value"@
        + " = None;\n"@);
    reveal_strlit("    if let Some(found) = clone_value {\n");
    assert("    if let Some(found) = clone_value {\n"@ =~= "    "@ + "if let Some("@ + "found"@
        + ") = "@ + "clone_value"@ + " {\n"@);
    reveal_strlit("        if ");
    reveal_strlit("        ");
    reveal_strlit("if ");
    assert("        if "@ =~= "        "@ + "if "@);
    reveal_strlit("        }\n");
    reveal_strlit("}\n");
    assert("        }\n"@ =~= "        "@ + "}\n"@);
    reveal_strlit("            ");
    assert("            "@ =~= "        "@ + "    "@);
}

proof fn lemma_check_text(node: NodeV, key: Text, target: TargetV, t: Text, body: Text)
    ensures
        write_step(t, check_step(node, key, target), body + "    "@) == ({
            let canonical = target.struct_var + "."@ + field_of(key);
            let t = t + body + "    if let Some(found) = clone_value {\n"@;
            let t = t + body + "        if "@ + canonical + ".as_ref() != Some(&found) {\n"@;
            let t = crate::dsl::codegen::diag::diag_code(
                t,
                mismatch_diag(node, key, target),
                body + "            "@,
            );
            let t = t + body + "        }\n"@;
            t + body + "    }\n"@
        }),
{
    lemma_ahead();
    lemma_pieces_behind();
    lemma_indents();
    let canonical = target.struct_var + "."@ + field_of(key);
    lemma_copy_words(canonical);
    let d = mismatch_diag(node, key, target);
    lemma_note(d);
    let p4 = body + "    "@;
    let p8 = body + "        "@;
    assert(p4 + "    "@ == p8);
    let t1 = t + body + "    if let Some(found) = clone_value {\n"@;
    assert(show(Expr::At("clone_value"@)) == "clone_value"@);
    let s = Step::When(differs(canonical), note_code(d), Code::Stop);
    let t2 = t1 + body + "        if "@ + canonical + ".as_ref() != Some(&found) {\n"@;
    assert(t2 == t1 + p8 + "if "@ + show(differs(canonical)) + " {\n"@);
    assert(p8 + "    "@ == body + "            "@);
    let t3 = write_step(t1, s, p8);
    assert(t3 == write_code(t2, note_code(d), p8 + "    "@) + p8 + "}\n"@);
    assert(write_code(t1, only(s), p8) == t3);
    assert(write_step(t, check_step(node, key, target), p4) == t3 + p4 + "}\n"@);
}

proof fn lemma_clone_text(
    model: ModelV,
    node: NodeV,
    start: Text,
    target: TargetV,
    shared: Seq<Text>,
    t: Text,
    pad: Text,
)
    ensures
        clone_code(t, model, node, start, pad, target, shared) == write_code(
            t,
            clone_steps(
                Expr::Source(
                    value_expr(
                        model,
                        start,
                        node.source_path,
                        node.normalize,
                        target,
                        target.owned && !repeats(shared, node.source_path),
                    ),
                ),
                node,
                node.clone_of->0,
                target,
            ),
            pad,
        ),
{
    lemma_ahead();
    lemma_pieces_behind();
    lemma_indents();
    let key = node.clone_of->0;
    let canonical = target.struct_var + "."@ + field_of(key);
    lemma_copy_words(canonical);
    let e = Expr::Source(
        value_expr(
            model,
            start,
            node.source_path,
            node.normalize,
            target,
            target.owned && !repeats(shared, node.source_path),
        ),
    );
    let body = pad + "    "@;
    let p4 = body + "    "@;
    assert(p4 == pad + "        "@);
    let t1 = t + pad + "// "@ + node.id + ": copy of "@ + key + ", consistency check\n"@;
    let r = Step::Remark(node.id + ": copy of "@ + key + ", consistency check"@);
    assert(t1 == write_step(t, r, pad));
    let t2 = t1 + pad + "{\n"@;
    let b = Step::Bind(false, Local::Value, "Option<CompactString>"@, e);
    let t3 = write_step(t2, b, body);
    assert(t3 == t2 + body + "let value: Option<CompactString> = "@ + show(e) + ";\n"@);
    let t4 = t3 + body + "if let Some(raw) = value {\n"@;
    assert(show(Expr::Get(Local::Value)) == "value"@);
    let f = Step::Fresh("clone_value"@);
    let t5 = write_step(t4, f, p4);
    assert(t5 == t4 + body + "    let mut clone_value = None;\n"@);
    let decode = decode_steps(node, key, "clone_value"@, target);
    lemma_decode_text_at(node, key, "clone_value"@, target, t5, p4);
    let t6 = write_code(t5, decode, p4);
    let check = check_step(node, key, target);
    lemma_both(decode, only(check));
    lemma_check_text(node, key, target, t6, body);
    let t7 = write_step(t6, check, p4);
    assert(write_code(t4, copy_steps(node, key, target), p4) == t7);
    let s = Step::WhenSome(
        Local::Raw,
        Expr::Get(Local::Value),
        copy_steps(node, key, target),
        Code::Stop,
    );
    let t8 = write_step(t3, s, body);
    assert(t8 == t7 + body + "}\n"@);
    assert(write_code(t2, ahead(b, only(s)), body) == t8);
    let k = Step::Block(ahead(b, only(s)));
    assert(write_step(t1, k, pad) == t8 + pad + "}\n"@);
}

proof fn lemma_places_differ(struct_var: Text, field: Text)
    ensures
        struct_var + "."@ + field != "clone_value"@,
{
    reveal_strlit(".");
    reveal_strlit("clone_value");
    let p = struct_var + "."@ + field;
    assert(p[struct_var.len() as int] == '.');
    assert(p.contains('.'));
    assert(!"clone_value"@.contains('.'));
}

proof fn lemma_copy_runs(node: NodeV, key: Text, target: TargetV, raw: Text, w: World, m: Machine)
    requires
        m.locals.dom().contains(Local::Raw),
        m.locals[Local::Raw] == Val::Words(raw),
        m.places.dom().contains(target.struct_var + "."@ + field_of(key)),
    ensures
        ({
            let canonical = target.struct_var + "."@ + field_of(key);
            let n = run(copy_steps(node, key, target), w, m);
            &&& n.notes == m.notes + copy_notes(
                node,
                key,
                target.index,
                Some(raw),
                m.places[canonical],
                w,
            )
            &&& n.counters == m.counters
            &&& forall|p: Text|
                p != "clone_value"@ && #[trigger] m.places.dom().contains(p)
                    ==> n.places.dom().contains(p) && n.places[p] == m.places[p]
        }),
{
    lemma_ahead();
    lemma_severities();
    let canonical = target.struct_var + "."@ + field_of(key);
    lemma_places_differ(target.struct_var, field_of(key));
    let cv = "clone_value"@;
    let f = Step::Fresh(cv);
    let m1 = step(f, w, m);
    assert(m1 == Machine { places: m.places.insert(cv, Val::Absent), ..m });
    let decode = decode_steps(node, key, cv, target);
    lemma_decode_runs_at(node, key, cv, target, w, m1);
    let m2 = run(decode, w, m1);
    let check = check_step(node, key, target);
    lemma_both(decode, only(check));
    assert(run(copy_steps(node, key, target), w, m) == step(check, w, m2));
    lemma_evals(w, m2);
    let d = mismatch_diag(node, key, target);
    lemma_note(d);
    let c = Step::When(differs(canonical), note_code(d), Code::Stop);
    lemma_unwraps(Local::Found, Expr::At(cv), only(c), Code::Stop, w, m2);
    let te = note_of(type_error(node, key, type_message(node.source_type), target));
    match typed(node.source_type, raw, w) {
        None => {
            assert(m2.places[cv] == Val::Absent);
            assert(step(check, w, m2) == m2);
            assert(m2.notes =~= m.notes + seq![te]);
        },
        Some(v) => {
            assert(m2.places[cv] == Val::Present(Box::new(v)));
            let m3 = Machine { locals: m2.locals.insert(Local::Found, v), ..m2 };
            lemma_evals(w, m3);
            lemma_chooses(differs(canonical), note_code(d), Code::Stop, w, m3);
            assert(run(only(c), w, m3) == step(c, w, m3));
            let old = m.places[canonical];
            assert(m3.places[canonical] == old);
            let left = Expr::Call(Box::new(Expr::At(canonical)), Method::AsRef);
            assert(eval(left, w, m3) == old);
            let right = Expr::Apply(
                Function::Wrap,
                Box::new(Expr::Refer(Box::new(Expr::Get(Local::Found)))),
            );
            assert(eval(right, w, m3) == Val::Present(Box::new(v)));
            assert(eval(differs(canonical), w, m3) == Val::Flag(old != Val::Present(Box::new(v))));
            if old == Val::Present(Box::new(v)) {
                assert(m2.notes =~= m.notes + Seq::<Note>::empty());
            } else {
                assert(m3.notes.push(note_of(d)) =~= m.notes + seq![note_of(d)]);
            }
        },
    }
}

/// Whether statements compare a copy with its canonical value, and change nothing.
pub open spec fn compares_copy(c: Code, e: Text, node: NodeV, target: TargetV) -> bool {
    let key = node.clone_of->0;
    let canonical = target.struct_var + "."@ + field_of(key);
    forall|w: World, m: Machine, copy: Option<Text>|
        #![trigger run(c, w, m), optional(copy)]
        (w.source)(e) == optional(copy) && m.places.dom().contains(canonical) ==> {
            let n = run(c, w, m);
            &&& n.notes == m.notes + copy_notes(
                node,
                key,
                target.index,
                copy,
                m.places[canonical],
                w,
            )
            &&& n.counters == m.counters
            &&& forall|p: Text|
                p != "clone_value"@ && #[trigger] m.places.dom().contains(p)
                    ==> n.places.dom().contains(p) && n.places[p] == m.places[p]
        }
}

/// The code of a copy of a canonical value stores nothing. It reports a warning exactly
/// where the document has the copy and it differs from the canonical value, and an error
/// where the copy is not of the type.
pub proof fn law_copies_are_compared(
    model: ModelV,
    node: NodeV,
    start: Text,
    pad: Text,
    target: TargetV,
    shared: Seq<Text>,
)
    ensures
        exists|c: Code|
            is_code(|t: Text| clone_code(t, model, node, start, pad, target, shared), pad, c)
                && #[trigger] compares_copy(
                c,
                value_expr(
                    model,
                    start,
                    node.source_path,
                    node.normalize,
                    target,
                    takes(target, shared, node),
                ),
                node,
                target,
            ),
{
    let key = node.clone_of->0;
    let text = value_expr(
        model,
        start,
        node.source_path,
        node.normalize,
        target,
        takes(target, shared, node),
    );
    let e = Expr::Source(text);
    let c = clone_steps(e, node, key, target);
    assert forall|t: Text|
        #[trigger] clone_code(t, model, node, start, pad, target, shared) == write_code(
            t,
            c,
            pad,
        ) by {
        lemma_clone_text(model, node, start, target, shared, t, pad);
    }
    assert(is_code(|t: Text| clone_code(t, model, node, start, pad, target, shared), pad, c));
    let canonical = target.struct_var + "."@ + field_of(key);
    assert forall|w: World, m: Machine, copy: Option<Text>|
        #![trigger run(c, w, m), optional(copy)]
        (w.source)(text) == optional(copy) && m.places.dom().contains(canonical) implies {
        let n = run(c, w, m);
        &&& n.notes == m.notes + copy_notes(
            node,
            key,
            target.index,
            copy,
            m.places[canonical],
            w,
        )
        &&& n.counters == m.counters
        &&& forall|p: Text|
            p != "clone_value"@ && #[trigger] m.places.dom().contains(p)
                ==> n.places.dom().contains(p) && n.places[p] == m.places[p]
    } by {
        lemma_ahead();
        let r = Step::Remark(node.id + ": copy of "@ + key + ", consistency check"@);
        assert(step(r, w, m) == m);
        let b = Step::Bind(false, Local::Value, "Option<CompactString>"@, e);
        let s = Step::WhenSome(
            Local::Raw,
            Expr::Get(Local::Value),
            copy_steps(node, key, target),
            Code::Stop,
        );
        let k = Step::Block(ahead(b, only(s)));
        lemma_evals(w, m);
        lemma_assigns(Local::Value, e, w, m);
        let m1 = step(b, w, m);
        assert(run(c, w, m) == step(k, w, m));
        assert(step(k, w, m) == run(ahead(b, only(s)), w, m));
        assert(run(c, w, m) == step(s, w, m1));
        lemma_evals(w, m1);
        lemma_unwraps(
            Local::Raw,
            Expr::Get(Local::Value),
            copy_steps(node, key, target),
            Code::Stop,
            w,
            m1,
        );
        match copy {
            Some(raw) => {
                let m2 = Machine { locals: m1.locals.insert(Local::Raw, Val::Words(raw)), ..m1 };
                lemma_copy_runs(node, key, target, raw, w, m2);
            },
            None => {
                assert(m.notes =~= m.notes + Seq::<Note>::empty());
            },
        }
    }
    assert(compares_copy(c, text, node, target));
}

/// Whether a node's text is moved out of the document: where the document is owned and
/// nothing else reads the text.
pub open spec fn takes(target: TargetV, shared: Seq<Text>, node: NodeV) -> bool {
    target.owned && !repeats(shared, node.source_path)
}

// ---------------------------------------------------------------------------
// Collections
// ---------------------------------------------------------------------------

/// The least number of items that a collection must have: the one it says, else one
/// where it is required, else none.
pub open spec fn least_items(coll: NodeV) -> nat {
    match coll.min_items {
        Some(n) => n as nat,
        None => if coll.required {
            1
        } else {
            0
        },
    }
}

/// Whether statements report an error exactly where a counter is below the least number
/// of items of a collection, and do nothing else.
pub open spec fn enforces_least(c: Code, coll: NodeV, counter: Text) -> bool {
    forall|w: World, m: Machine|
        #![trigger run(c, w, m)]
        m.counters.dom().contains(counter) && m.counters[counter] >= 0 ==> run(c, w, m) == if
            m.counters[counter] < least_items(coll) {
            reported(
                m,
                problem(
                    Severity::Error,
                    "MIN_ITEMS"@,
                    coll,
                    coll.canonical_key->0,
                    Some(coll.source_path),
                    None,
                ),
            )
        } else {
            m
        }
}

/// The diagnostic on a collection with too few items.
pub open spec fn least_diag(coll: NodeV, count: Text) -> DiagSpecV {
    let key = coll.canonical_key->0;
    path_diag(
        "Severity::Error"@,
        "MIN_ITEMS"@,
        coll.id,
        "format!(\"collection `"@ + key + "` has {"@ + count + "} items, expected at least "@
            + decimal(min_items_of(coll) as nat) + "\")"@,
        key,
        coll.source_path,
        None,
    )
}

/// The statements that enforce the least number of items.
pub open spec fn least_steps(coll: NodeV, count: Text) -> Code {
    if min_items_of(coll) > 0 {
        only(
            Step::When(
                Expr::Is(
                    Box::new(Expr::Counter(count)),
                    Compare::Less,
                    Box::new(Expr::Number(min_items_of(coll) as nat)),
                ),
                note_code(least_diag(coll, count)),
                Code::Stop,
            ),
        )
    } else {
        Code::Stop
    }
}

/// How the least number of items is enforced in generated code.
pub proof fn lemma_least(coll: NodeV, count: Text)
    ensures
        enforces_least(least_steps(coll, count), coll, count),
        forall|t: Text, pad: Text|
            #[trigger] write_code(t, least_steps(coll, count), pad) == if min_items_of(coll) > 0 {
                crate::dsl::codegen::diag::diag_code(
                    t + pad + "if "@ + count + " < "@ + decimal(min_items_of(coll) as nat) + " {\n"@,
                    least_diag(coll, count),
                    pad + "    "@,
                ) + pad + "}\n"@
            } else {
                t
            },
{
    lemma_ahead();
    lemma_severities();
    lemma_pieces_behind();
    let c = least_steps(coll, count);
    let k = min_items_of(coll) as nat;
    assert(k == least_items(coll));
    let e = Expr::Is(
        Box::new(Expr::Counter(count)),
        Compare::Less,
        Box::new(Expr::Number(k)),
    );
    reveal_with_fuel(show, 2);
    assert(show(e) == count + " < "@ + decimal(k));
    let d = least_diag(coll, count);
    lemma_note(d);
    let s = Step::When(e, note_code(d), Code::Stop);
    assert forall|t: Text, pad: Text|
        #[trigger] write_code(t, c, pad) == if k > 0 {
            crate::dsl::codegen::diag::diag_code(
                t + pad + "if "@ + count + " < "@ + decimal(k) + " {\n"@,
                d,
                pad + "    "@,
            ) + pad + "}\n"@
        } else {
            t
        } by {
        if k > 0 {
            assert(write_code(t, c, pad) == write_step(t, s, pad));
        }
    }
    assert forall|w: World, m: Machine|
        #![trigger run(c, w, m)]
        m.counters.dom().contains(count) && m.counters[count] >= 0 implies run(c, w, m) == if
        m.counters[count] < least_items(coll) {
        reported(
            m,
            problem(
                Severity::Error,
                "MIN_ITEMS"@,
                coll,
                coll.canonical_key->0,
                Some(coll.source_path),
                None,
            ),
        )
    } else {
        m
    } by {
        if k > 0 {
            lemma_evals(w, m);
            lemma_chooses(e, note_code(d), Code::Stop, w, m);
            assert(run(c, w, m) == step(s, w, m));
            assert(eval(e, w, m) == Val::Flag(m.counters[count] < k));
        }
    }
}

/// What a reader has behind the fields of an item: the item is put to the hub, and the
/// loop ends.
pub open spec fn item_end(t: Text, coll: NodeV, f: FrameV) -> Text {
    t + "\n"@ + (f.pad + "    "@) + f.parent_hub + "."@ + field_of(coll.canonical_key->0)
        + ".push("@ + ("item"@ + decimal(f.depth)) + ");\n"@ + f.pad + "}\n"@
}

/// A reader puts every item of a collection to the hub, and then reports an error
/// exactly where the document has fewer items than the collection must have.
pub proof fn law_reader_enforces_the_least_number_of_items(coll: NodeV, f: FrameV)
    ensures
        exists|c: Code|
            (forall|t: Text|
                #[trigger] closing_code(t, coll, f) == write_code(
                    item_end(t, coll, f),
                    c,
                    f.pad,
                )) && #[trigger] enforces_least(c, coll, "count"@ + decimal(f.depth)),
{
    let count = "count"@ + decimal(f.depth);
    lemma_least(coll, count);
    let c = least_steps(coll, count);
    assert forall|t: Text|
        #[trigger] closing_code(t, coll, f) == write_code(item_end(t, coll, f), c, f.pad) by {}
}

/// A reader walks the list at the collection's path, item by item, and counts all of
/// it.
pub proof fn law_reader_walks_the_whole_list(
    t: Text,
    model: ModelV,
    coll: NodeV,
    f: FrameV,
    owned: bool,
)
    ensures
        ({
            let d = decimal(f.depth);
            let list = if owned {
                list_take_of(model, f.parent_struct, coll.source_path, f.parent_src)
            } else {
                list_slice_of(model, f.parent_struct, coll.source_path, f.parent_src)
            };
            let code = opening_code(t, model, coll, f, owned);
            &&& has(code, "let elements"@ + d + " = "@ + list + ";\n"@)
            &&& has(code, "let count"@ + d + " = elements"@ + d + ".len();\n"@)
            &&& owned ==> has(
                code,
                "for (idx"@ + d + ", mut element"@ + d + ") in elements"@ + d
                    + ".into_iter().enumerate() {\n"@,
            )
            &&& !owned ==> has(
                code,
                "for (idx"@ + d + ", element"@ + d + ") in elements"@ + d
                    + ".iter().enumerate() {\n"@,
            )
            &&& has(
                code,
                "let mut item"@ + d + " = "@ + item_of(coll.canonical_key->0) + "::default();\n"@,
            )
        }),
{
    lemma_pieces_behind();
    lemma_opening_words();
    let key = coll.canonical_key->0;
    let d = decimal(f.depth);
    let list = if owned {
        list_take_of(model, f.parent_struct, coll.source_path, f.parent_src)
    } else {
        list_slice_of(model, f.parent_struct, coll.source_path, f.parent_src)
    };
    let body = f.pad + "    "@;
    let none = Seq::<char>::empty();
    let a0 = t + f.pad + "// "@ + coll.id + " -> "@ + key + " (collection)\n"@ + f.pad;
    let l1 = "let elements"@ + d + " = "@ + list + ";\n"@;
    let a1 = a0 + l1 + f.pad;
    let l2 = "let count"@ + d + " = elements"@ + d + ".len();\n"@;
    let a2 = a1 + l2 + f.pad + f.parent_hub + "."@ + field_of(key) + ".reserve("@ + ("count"@ + d)
        + ");\n"@ + f.pad;
    let l3 = if owned {
        "for (idx"@ + d + ", mut element"@ + d + ") in elements"@ + d
            + ".into_iter().enumerate() {\n"@
    } else {
        "for (idx"@ + d + ", element"@ + d + ") in elements"@ + d + ".iter().enumerate() {\n"@
    };
    let a3 = a2 + l3 + body;
    let l4 = "let mut item"@ + d + " = "@ + item_of(key) + "::default();\n"@;
    let code = opening_code(t, model, coll, f, owned);
    assert(code == a3 + l4);
    lemma_stands_in(a3, l4, none, code);
    assert(code + none =~= code);
    let r3 = body + l4;
    lemma_stands_in(a2, l3, r3, a2 + l3 + r3);
    assert(a2 + l3 + r3 == code);
    let r2 = f.pad + f.parent_hub + "."@ + field_of(key) + ".reserve("@ + ("count"@ + d) + ");\n"@
        + f.pad + l3 + r3;
    lemma_stands_in(a1, l2, r2, a1 + l2 + r2);
    assert(a1 + l2 + r2 == code);
    let r1 = f.pad + l2 + r2;
    lemma_stands_in(a0, l1, r1, a0 + l1 + r1);
    assert(a0 + l1 + r1 == code);
}

proof fn lemma_stands_in(a: Text, line: Text, b: Text, whole: Text)
    requires
        whole == a + line + b || whole + b == a + line + b,
        whole == a + line + b || b.len() == 0,
    ensures
        has(whole, line),
{
    lemma_has_self(line);
    lemma_has_inside(a, line, b, line);
    if b.len() == 0 {
        assert(a + line + b =~= a + line);
        assert(whole + b =~= whole);
    }
}

proof fn lemma_opening_words()
    ensures
        "let elements"@ == "let "@ + "elements"@,
        "let count"@ == "let "@ + "count"@,
        " = elements"@ == " = "@ + "elements"@,
        "for (idx"@ == "for ("@ + "idx"@,
        ", mut element"@ == ", mut "@ + "element"@,
        ", element"@ == ", "@ + "element"@,
        ") in elements"@ == ") in "@ + "elements"@,
        "let mut item"@ == "let mut "@ + "item"@,
{
    reveal_strlit("let elements");
    reveal_strlit("let ");
    reveal_strlit("elements");
    assert("let elements"@ =~= "let "@ + "elements"@);
    reveal_strlit("let count");
    reveal_strlit("count");
    assert("let count"@ =~= "let "@ + "count"@);
    reveal_strlit(" = elements");
    reveal_strlit(" = ");
    assert(" = elements"@ =~= " = "@ + "elements"@);
    reveal_strlit("for (idx");
    reveal_strlit("for (");
    reveal_strlit("idx");
    assert("for (idx"@ =~= "for ("@ + "idx"@);
    reveal_strlit(", mut element");
    reveal_strlit(", mut ");
    reveal_strlit("element");
    assert(", mut element"@ =~= ", mut "@ + "element"@);
    reveal_strlit(", element");
    reveal_strlit(", ");
    assert(", element"@ =~= ", "@ + "element"@);
    reveal_strlit(") in elements");
    reveal_strlit(") in ");
    assert(") in elements"@ =~= ") in "@ + "elements"@);
    reveal_strlit("let mut item");
    reveal_strlit("let mut ");
    reveal_strlit("item");
    assert("let mut item"@ =~= "let mut "@ + "item"@);
}

} // verus!
