//! What generated readers do: which value they take, when they refuse it, and what
//! they report.
use vstd::prelude::*;

use crate::dsl::codegen::diag::{diag_code, value_diag, DiagSpecV};
use crate::dsl::codegen::read::{decode_code, validator_of, TargetV};
use crate::dsl::codegen::script::{
    ahead, eval, lemma_ahead, lemma_chooses, lemma_evals, lemma_parses, lemma_puts, only, passes,
    run, severity_named, show, step, write_code, write_step, Code, Expr, Function, Local, Machine,
    Method, Note, Step, Val, World,
};
use crate::dsl::node::NodeV;
use crate::dsl::types::MappingType;
use crate::runtime::result::Severity;
use crate::runtime::validate::{currency_shape, date_shape, datetime_shape, unit_shape};
use crate::text::{trim, Text};

verus! {

// ---------------------------------------------------------------------------
// Diagnostics
// ---------------------------------------------------------------------------

/// The statements that report a diagnostic.
pub open spec fn note_code(d: DiagSpecV) -> Code {
    let c = only(Step::Report);
    let c = if d.chain is Some {
        ahead(Step::NoteChain(d.chain->0), c)
    } else {
        c
    };
    let c = if d.index is Some {
        ahead(Step::NoteIndex(d.index->0), c)
    } else {
        c
    };
    let c = if d.path is Some {
        ahead(Step::NotePath(d.path->0), c)
    } else {
        c
    };
    let c = if d.key is Some {
        ahead(Step::NoteKey(d.key->0), c)
    } else {
        c
    };
    ahead(Step::Begin(d.severity, d.code, d.node_id, d.msg), c)
}

/// The diagnostic that is reported.
pub open spec fn note_of(d: DiagSpecV) -> Note {
    Note {
        severity: severity_named(d.severity),
        code: d.code,
        node: d.node_id,
        key: d.key,
        path: d.path,
        index: d.index,
        chain: d.chain,
    }
}

/// A machine after a diagnostic was reported.
pub open spec fn reported(m: Machine, n: Note) -> Machine {
    Machine { draft: n, notes: m.notes.push(n), ..m }
}

proof fn lemma_note_written(d: DiagSpecV, t: Text, pad: Text)
    ensures
        diag_code(t, d, pad) == write_code(t, note_code(d), pad),
{
    lemma_ahead();
    let t0 = write_step(t, Step::Begin(d.severity, d.code, d.node_id, d.msg), pad);
    let t1 = if d.key is Some {
        write_step(t0, Step::NoteKey(d.key->0), pad)
    } else {
        t0
    };
    let t2 = if d.path is Some {
        write_step(t1, Step::NotePath(d.path->0), pad)
    } else {
        t1
    };
    let t3 = if d.index is Some {
        write_step(t2, Step::NoteIndex(d.index->0), pad)
    } else {
        t2
    };
    let t4 = if d.chain is Some {
        write_step(t3, Step::NoteChain(d.chain->0), pad)
    } else {
        t3
    };
    let c4 = only(Step::Report);
    let c3 = if d.chain is Some {
        ahead(Step::NoteChain(d.chain->0), c4)
    } else {
        c4
    };
    let c2 = if d.index is Some {
        ahead(Step::NoteIndex(d.index->0), c3)
    } else {
        c3
    };
    let c1 = if d.path is Some {
        ahead(Step::NotePath(d.path->0), c2)
    } else {
        c2
    };
    let c0 = if d.key is Some {
        ahead(Step::NoteKey(d.key->0), c1)
    } else {
        c1
    };
    assert(note_code(d) == ahead(Step::Begin(d.severity, d.code, d.node_id, d.msg), c0));
    assert(write_code(t, note_code(d), pad) == write_code(t0, c0, pad));
    assert(write_code(t0, c0, pad) == write_code(t1, c1, pad));
    assert(write_code(t1, c1, pad) == write_code(t2, c2, pad));
    assert(write_code(t2, c2, pad) == write_code(t3, c3, pad));
    assert(write_code(t3, c3, pad) == write_code(t4, c4, pad));
    assert(write_code(t4, c4, pad) == write_step(t4, Step::Report, pad));
}

proof fn lemma_note_runs(d: DiagSpecV, w: World, m: Machine)
    ensures
        run(note_code(d), w, m) == reported(m, note_of(d)),
{
    lemma_ahead();
    let m0 = step(Step::Begin(d.severity, d.code, d.node_id, d.msg), w, m);
    let m1 = if d.key is Some {
        step(Step::NoteKey(d.key->0), w, m0)
    } else {
        m0
    };
    let m2 = if d.path is Some {
        step(Step::NotePath(d.path->0), w, m1)
    } else {
        m1
    };
    let m3 = if d.index is Some {
        step(Step::NoteIndex(d.index->0), w, m2)
    } else {
        m2
    };
    let m4 = if d.chain is Some {
        step(Step::NoteChain(d.chain->0), w, m3)
    } else {
        m3
    };
    let c4 = only(Step::Report);
    let c3 = if d.chain is Some {
        ahead(Step::NoteChain(d.chain->0), c4)
    } else {
        c4
    };
    let c2 = if d.index is Some {
        ahead(Step::NoteIndex(d.index->0), c3)
    } else {
        c3
    };
    let c1 = if d.path is Some {
        ahead(Step::NotePath(d.path->0), c2)
    } else {
        c2
    };
    let c0 = if d.key is Some {
        ahead(Step::NoteKey(d.key->0), c1)
    } else {
        c1
    };
    assert(note_code(d) == ahead(Step::Begin(d.severity, d.code, d.node_id, d.msg), c0));
    assert(run(note_code(d), w, m) == run(c0, w, m0));
    assert(run(c0, w, m0) == run(c1, w, m1));
    assert(run(c1, w, m1) == run(c2, w, m2));
    assert(run(c2, w, m2) == run(c3, w, m3));
    assert(run(c3, w, m3) == run(c4, w, m4));
    assert(run(c4, w, m4) == step(Step::Report, w, m4));
    assert(m4.draft == note_of(d));
}

/// The code of a diagnostic reports that diagnostic, and does nothing else.
pub proof fn lemma_note(d: DiagSpecV)
    ensures
        forall|t: Text, pad: Text|
            #[trigger] diag_code(t, d, pad) == write_code(t, note_code(d), pad),
        forall|w: World, m: Machine| #[trigger] run(note_code(d), w, m) == reported(m, note_of(d)),
{
    assert forall|t: Text, pad: Text|
        #[trigger] diag_code(t, d, pad) == write_code(t, note_code(d), pad) by {
        lemma_note_written(d, t, pad);
    }
    assert forall|w: World, m: Machine| #[trigger]
        run(note_code(d), w, m) == reported(m, note_of(d)) by {
        lemma_note_runs(d, w, m);
    }
}

pub proof fn lemma_severities()
    ensures
        severity_named("Severity::Error"@) == Severity::Error,
        severity_named("Severity::Warning"@) == Severity::Warning,
        severity_named("Severity::Info"@) == Severity::Info,
{
    reveal_strlit("Severity::Error");
    reveal_strlit("Severity::Warning");
    reveal_strlit("Severity::Info");
    assert("Severity::Error"@.len() == 15 && "Severity::Warning"@.len() == 17
        && "Severity::Info"@.len() == 14);
}

/// What is put behind a text piece by piece is put behind it at once.
pub proof fn lemma_pieces_behind()
    ensures
        forall|x: Text, a: Text, b: Text| #[trigger] (x + (a + b)) == (x + a) + b,
{
    assert forall|x: Text, a: Text, b: Text| #[trigger] (x + (a + b)) == (x + a) + b by {
        assert(x + (a + b) =~= (x + a) + b);
    }
}

// ---------------------------------------------------------------------------
// Types
// ---------------------------------------------------------------------------

/// What a value of a type is read from a text: its number, its truth value, or the
/// text itself; none where the text, trimmed, is not of the type.
pub open spec fn typed(ty: MappingType, raw: Text, w: World) -> Option<Val> {
    let t = trim(raw);
    match ty {
        MappingType::Decimal => if (w.is_decimal)(t) {
            Some(Val::Amount(t))
        } else {
            None
        },
        MappingType::Boolean => if t == "true"@ {
            Some(Val::Flag(true))
        } else if t == "false"@ {
            Some(Val::Flag(false))
        } else {
            None
        },
        MappingType::Date => if date_shape(t) {
            Some(Val::Words(raw))
        } else {
            None
        },
        MappingType::Datetime => if datetime_shape(t) {
            Some(Val::Words(raw))
        } else {
            None
        },
        MappingType::Currency => if currency_shape(t) {
            Some(Val::Words(raw))
        } else {
            None
        },
        MappingType::UnitCode => if unit_shape(t) {
            Some(Val::Words(raw))
        } else {
            None
        },
        _ => Some(Val::Words(raw)),
    }
}

/// The check that generated code names for a restricted type is the check of the
/// runtime that admits exactly the texts of that type: dates, date-times, currency
/// codes and unit codes. The other types have none.
pub proof fn law_checks_are_those_of_the_type(ty: MappingType, t: Text)
    ensures
        ty == MappingType::Date ==> validator_of(ty) is Some && (passes((validator_of(ty)->0).0, t)
            <==> date_shape(t)),
        ty == MappingType::Datetime ==> validator_of(ty) is Some && (passes(
            (validator_of(ty)->0).0,
            t,
        ) <==> datetime_shape(t)),
        ty == MappingType::Currency ==> validator_of(ty) is Some && (passes(
            (validator_of(ty)->0).0,
            t,
        ) <==> currency_shape(t)),
        ty == MappingType::UnitCode ==> validator_of(ty) is Some && (passes(
            (validator_of(ty)->0).0,
            t,
        ) <==> unit_shape(t)),
        validator_of(ty) is Some ==> ty == MappingType::Date || ty == MappingType::Datetime || ty
            == MappingType::Currency || ty == MappingType::UnitCode,
{
    reveal_strlit("is_currency");
    reveal_strlit("is_date");
    reveal_strlit("is_datetime");
    reveal_strlit("is_unit_code");
    assert("is_currency"@.len() == 11 && "is_date"@.len() == 7 && "is_datetime"@.len() == 11
        && "is_unit_code"@.len() == 12);
    assert("is_currency"@[3] == 'c' && "is_datetime"@[3] == 'd');
}

pub open spec fn trimmed_raw() -> Expr {
    Expr::Call(Box::new(Expr::Get(Local::Raw)), Method::Trim)
}

pub open spec fn type_error(node: NodeV, key: Text, msg: Text, target: TargetV) -> DiagSpecV {
    value_diag("Severity::Error"@, "TYPE_INVALID"@, node.id, msg, key, target.index)
}

/// The statements that decode a text.
pub open spec fn decode_steps(node: NodeV, key: Text, lhs: Text, target: TargetV) -> Code {
    if node.source_type == MappingType::Decimal {
        let d = type_error(
            node,
            key,
            "format!(\"`{raw}` is not a valid decimal\")"@,
            target,
        );
        only(
            Step::Parse(
                Expr::Apply(Function::ParseDecimal, Box::new(trimmed_raw())),
                "d"@,
                lhs,
                note_code(d),
            ),
        )
    } else if node.source_type == MappingType::Boolean {
        let d = type_error(
            node,
            key,
            "format!(\"`{raw}` is not a valid boolean\")"@,
            target,
        );
        only(
            Step::Parse(
                Expr::Call(Box::new(trimmed_raw()), Method::ParseBool),
                "b"@,
                lhs,
                note_code(d),
            ),
        )
    } else if validator_of(node.source_type) is Some {
        let (check, what) = validator_of(node.source_type)->0;
        let d = type_error(
            node,
            key,
            "format!(\"`{raw}` is not a valid "@ + what + "\")"@,
            target,
        );
        only(
            Step::When(
                Expr::Apply(Function::Check(check), Box::new(trimmed_raw())),
                only(Step::Put(lhs, some_raw())),
                note_code(d),
            ),
        )
    } else {
        only(Step::Put(lhs, some_raw()))
    }
}

pub open spec fn some_raw() -> Expr {
    Expr::Apply(Function::Wrap, Box::new(Expr::Get(Local::Raw)))
}

proof fn lemma_decode_words()
    ensures
        "match Decimal::from_str(raw.trim()) {\n"@ == "match "@ + show(
            Expr::Apply(Function::ParseDecimal, Box::new(trimmed_raw())),
        ) + " {\n"@,
        "match raw.trim().parse::<bool>() {\n"@ == "match "@ + show(
            Expr::Call(Box::new(trimmed_raw()), Method::ParseBool),
        ) + " {\n"@,
        "    Ok(d) => "@ == "    Ok("@ + "d"@ + ") => "@,
        "    Ok(b) => "@ == "    Ok("@ + "b"@ + ") => "@,
        " = Some(d),\n"@ == " = Some("@ + "d"@ + "),\n"@,
        " = Some(b),\n"@ == " = Some("@ + "b"@ + "),\n"@,
        " = Some(raw);\n"@ == " = "@ + show(some_raw()) + ";\n"@,
        "(raw.trim()) {\n"@ == "("@ + show(trimmed_raw()) + ")"@ + " {\n"@,
        "if validate::"@ == "if "@ + "validate::"@,
        forall|check: Text|
            #[trigger] show(Expr::Apply(Function::Check(check), Box::new(trimmed_raw())))
                == "validate::"@ + check + "("@ + show(trimmed_raw()) + ")"@,
{
    reveal_with_fuel(show, 4);
    reveal_strlit("match Decimal::from_str(raw.trim()) {\n");
    reveal_strlit("match raw.trim().parse::<bool>() {\n");
    reveal_strlit("match ");
    reveal_strlit(" {\n");
    reveal_strlit("Decimal::from_str");
    reveal_strlit("(");
    reveal_strlit(")");
    reveal_strlit("raw");
    reveal_strlit(".");
    reveal_strlit("trim");
    reveal_strlit("()");
    reveal_strlit("parse::<bool>");
    reveal_strlit("    Ok(d) => ");
    reveal_strlit("    Ok(b) => ");
    reveal_strlit("    Ok(");
    reveal_strlit("d");
    reveal_strlit("b");
    reveal_strlit(") => ");
    reveal_strlit(" = Some(d),\n");
    reveal_strlit(" = Some(b),\n");
    reveal_strlit(" = Some(");
    reveal_strlit("),\n");
    reveal_strlit(" = Some(raw);\n");
    reveal_strlit(" = ");
    reveal_strlit(";\n");
    reveal_strlit("Some");
    reveal_strlit("(raw.trim()) {\n");
    reveal_strlit("if validate::");
    reveal_strlit("if ");
    reveal_strlit("validate::");
    assert("match Decimal::from_str(raw.trim()) {\n"@ =~= "match "@ + show(
        Expr::Apply(Function::ParseDecimal, Box::new(trimmed_raw())),
    ) + " {\n"@);
    assert("match raw.trim().parse::<bool>() {\n"@ =~= "match "@ + show(
        Expr::Call(Box::new(trimmed_raw()), Method::ParseBool),
    ) + " {\n"@);
    assert("    Ok(d) => "@ =~= "    Ok("@ + "d"@ + ") => "@);
    assert("    Ok(b) => "@ =~= "    Ok("@ + "b"@ + ") => "@);
    assert(" = Some(d),\n"@ =~= " = Some("@ + "d"@ + "),\n"@);
    assert(" = Some(b),\n"@ =~= " = Some("@ + "b"@ + "),\n"@);
    assert(" = Some(raw);\n"@ =~= " = "@ + show(some_raw()) + ";\n"@);
    assert("(raw.trim()) {\n"@ =~= "("@ + show(trimmed_raw()) + ")"@ + " {\n"@);
    assert("if validate::"@ =~= "if "@ + "validate::"@);
}

pub open spec fn type_message(ty: MappingType) -> Text {
    if ty == MappingType::Decimal {
        "format!(\"`{raw}` is not a valid decimal\")"@
    } else if ty == MappingType::Boolean {
        "format!(\"`{raw}` is not a valid boolean\")"@
    } else {
        "format!(\"`{raw}` is not a valid "@ + (validator_of(ty)->0).1 + "\")"@
    }
}

pub proof fn lemma_decode_text_at(
    node: NodeV,
    key: Text,
    lhs: Text,
    target: TargetV,
    t: Text,
    pad: Text,
)
    ensures
        decode_code(t, node, key, pad, lhs, target) == write_code(
            t,
            decode_steps(node, key, lhs, target),
            pad,
        ),
{
    lemma_decode_words();
    lemma_pieces_behind();
    lemma_ahead();
    let ty = node.source_type;
    let d = type_error(node, key, type_message(ty), target);
    lemma_note(d);
    let trimmed = Box::new(trimmed_raw());
    if ty == MappingType::Decimal {
        let e = Expr::Apply(Function::ParseDecimal, trimmed);
        let s = Step::Parse(e, "d"@, lhs, note_code(d));
        assert(decode_steps(node, key, lhs, target) == only(s));
        assert(decode_code(t, node, key, pad, lhs, target) == write_step(t, s, pad));
    } else if ty == MappingType::Boolean {
        let e = Expr::Call(trimmed, Method::ParseBool);
        let s = Step::Parse(e, "b"@, lhs, note_code(d));
        assert(decode_steps(node, key, lhs, target) == only(s));
        assert(decode_code(t, node, key, pad, lhs, target) == write_step(t, s, pad));
    } else if validator_of(ty) is Some {
        let check = (validator_of(ty)->0).0;
        let e = Expr::Apply(Function::Check(check), trimmed);
        let a = only(Step::Put(lhs, some_raw()));
        let s = Step::When(e, a, note_code(d));
        assert(decode_steps(node, key, lhs, target) == only(s));
        let t1 = t + pad + "if validate::"@ + check + "(raw.trim()) {\n"@;
        assert(t1 == t + pad + "if "@ + show(e) + " {\n"@);
        let p4 = pad + "    "@;
        let t2 = t1 + pad + "    "@ + lhs + " = Some(raw);\n"@;
        assert(t2 == write_code(t1, a, p4)) by {
            assert(t1 + pad + "    "@ == t1 + p4);
            assert(write_code(t1, a, p4) == write_step(t1, Step::Put(lhs, some_raw()), p4));
        }
        assert(!(note_code(d) is Stop));
        assert(decode_code(t, node, key, pad, lhs, target) == write_step(t, s, pad));
    } else {
        let s = Step::Put(lhs, some_raw());
        assert(decode_steps(node, key, lhs, target) == only(s));
        assert(decode_code(t, node, key, pad, lhs, target) == write_step(t, s, pad));
    }
}

proof fn lemma_decode_text(node: NodeV, key: Text, lhs: Text, target: TargetV)
    ensures
        forall|t: Text, pad: Text|
            #[trigger] decode_code(t, node, key, pad, lhs, target) == write_code(
                t,
                decode_steps(node, key, lhs, target),
                pad,
            ),
{
    assert forall|t: Text, pad: Text|
        #[trigger] decode_code(t, node, key, pad, lhs, target) == write_code(
            t,
            decode_steps(node, key, lhs, target),
            pad,
        ) by {
        lemma_decode_text_at(node, key, lhs, target, t, pad);
    }
}

/// Whether statements read a value of a type from the text in `raw` to a place: they
/// put it there where the text is of the type, and else report one error and leave the
/// place as it is.
pub open spec fn reads_typed(c: Code, ty: MappingType, place: Text, problem: Note) -> bool {
    forall|w: World, m: Machine|
        #![trigger run(c, w, m)]
        m.locals.dom().contains(Local::Raw) && m.locals[Local::Raw] is Words ==> run(c, w, m)
            == match typed(ty, m.locals[Local::Raw]->Words_0, w) {
            Some(v) => Machine { places: m.places.insert(place, Val::Present(Box::new(v))), ..m },
            None => reported(m, problem),
        }
}

/// Whether a text is statements written behind whatever is there.
pub open spec fn written_as(f: spec_fn(Text) -> Text, c: Code, pad: Text) -> bool {
    forall|t: Text| #[trigger] f(t) == write_code(t, c, pad)
}

pub proof fn lemma_decode_runs_at(
    node: NodeV,
    key: Text,
    lhs: Text,
    target: TargetV,
    w: World,
    m: Machine,
)
    requires
        m.locals.dom().contains(Local::Raw),
        m.locals[Local::Raw] is Words,
    ensures
        run(decode_steps(node, key, lhs, target), w, m) == match typed(
            node.source_type,
            m.locals[Local::Raw]->Words_0,
            w,
        ) {
            Some(v) => Machine { places: m.places.insert(lhs, Val::Present(Box::new(v))), ..m },
            None => reported(
                m,
                note_of(type_error(node, key, type_message(node.source_type), target)),
            ),
        },
{
    lemma_ahead();
    let ty = node.source_type;
    let raw = m.locals[Local::Raw]->Words_0;
    let d = type_error(node, key, type_message(ty), target);
    lemma_note(d);
    law_checks_are_those_of_the_type(ty, trim(raw));
    lemma_evals(w, m);
    let trimmed = Box::new(trimmed_raw());
    assert(eval(Expr::Get(Local::Raw), w, m) == Val::Words(raw));
    assert(eval(trimmed_raw(), w, m) == Val::Words(trim(raw)));
    if ty == MappingType::Decimal {
        let e = Expr::Apply(Function::ParseDecimal, trimmed);
        let s = Step::Parse(e, "d"@, lhs, note_code(d));
        lemma_parses(e, "d"@, lhs, note_code(d), w, m);
        assert(run(decode_steps(node, key, lhs, target), w, m) == step(s, w, m));
    } else if ty == MappingType::Boolean {
        let e = Expr::Call(trimmed, Method::ParseBool);
        let s = Step::Parse(e, "b"@, lhs, note_code(d));
        lemma_parses(e, "b"@, lhs, note_code(d), w, m);
        assert(run(decode_steps(node, key, lhs, target), w, m) == step(s, w, m));
    } else if validator_of(ty) is Some {
        let check = (validator_of(ty)->0).0;
        let e = Expr::Apply(Function::Check(check), trimmed);
        let a = only(Step::Put(lhs, some_raw()));
        let s = Step::When(e, a, note_code(d));
        lemma_chooses(e, a, note_code(d), w, m);
        lemma_puts(lhs, some_raw(), w, m);
        assert(run(decode_steps(node, key, lhs, target), w, m) == step(s, w, m));
        assert(eval(e, w, m) == Val::Flag(passes(check, trim(raw))));
        assert(eval(some_raw(), w, m) == Val::Present(Box::new(Val::Words(raw))));
        assert(run(a, w, m) == step(Step::Put(lhs, some_raw()), w, m));
    } else {
        lemma_puts(lhs, some_raw(), w, m);
        assert(eval(some_raw(), w, m) == Val::Present(Box::new(Val::Words(raw))));
        assert(run(decode_steps(node, key, lhs, target), w, m) == step(
            Step::Put(lhs, some_raw()),
            w,
            m,
        ));
    }
}

proof fn lemma_decode_runs(node: NodeV, key: Text, lhs: Text, target: TargetV)
    ensures
        reads_typed(
            decode_steps(node, key, lhs, target),
            node.source_type,
            lhs,
            Note {
                severity: Severity::Error,
                code: "TYPE_INVALID"@,
                node: node.id,
                key: Some(key),
                path: None,
                index: target.index,
                chain: None,
            },
        ),
{
    lemma_severities();
    let c = decode_steps(node, key, lhs, target);
    let problem = Note {
        severity: Severity::Error,
        code: "TYPE_INVALID"@,
        node: node.id,
        key: Some(key),
        path: None,
        index: target.index,
        chain: None,
    };
    let d = type_error(node, key, type_message(node.source_type), target);
    lemma_note(d);
    assert(note_of(d) == problem);
    assert forall|w: World, m: Machine|
        #![trigger run(c, w, m)]
        m.locals.dom().contains(Local::Raw) && m.locals[Local::Raw] is Words implies run(c, w, m)
        == match typed(node.source_type, m.locals[Local::Raw]->Words_0, w) {
        Some(v) => Machine { places: m.places.insert(lhs, Val::Present(Box::new(v))), ..m },
        None => reported(m, problem),
    } by {
        lemma_decode_runs_at(node, key, lhs, target, w, m);
    }
}

/// The code that decodes a value puts it to its place exactly where its text, trimmed,
/// is of the node's type; else it reports that, and the place stays as it is.
pub proof fn law_decoded_values_have_their_type(
    node: NodeV,
    key: Text,
    pad: Text,
    lhs: Text,
    target: TargetV,
)
    ensures
        exists|c: Code|
            written_as(|t: Text| decode_code(t, node, key, pad, lhs, target), c, pad)
                && #[trigger] reads_typed(
                c,
                node.source_type,
                lhs,
                Note {
                    severity: Severity::Error,
                    code: "TYPE_INVALID"@,
                    node: node.id,
                    key: Some(key),
                    path: None,
                    index: target.index,
                    chain: None,
                },
            ),
{
    lemma_decode_text(node, key, lhs, target);
    lemma_decode_runs(node, key, lhs, target);
    let c = decode_steps(node, key, lhs, target);
    assert(written_as(|t: Text| decode_code(t, node, key, pad, lhs, target), c, pad));
}

} // verus!
