//! What generated code does when it runs: the statements that mappers are made of,
//! how they are written, and what they do.
use vstd::prelude::*;

use crate::runtime::result::Severity;
use crate::runtime::validate::{currency_shape, date_shape, datetime_shape, unit_shape};
use crate::text::{decimal, join, quoted, trim, Text};

verus! {

/// A value of generated code.
pub enum Val {
    /// A text.
    Words(Text),
    /// A decimal number, by the text it was parsed from.
    Amount(Text),
    /// A truth value.
    Flag(bool),
    /// A list of texts.
    Many(Seq<Text>),
    /// A number of things.
    Count(int),
    /// A struct, and whether it is empty.
    Record(bool),
    /// A list of structs, by its length.
    Records(int),
    /// `None`.
    Absent,
    /// `Some`.
    Present(Box<Val>),
    /// `Ok`.
    Good(Box<Val>),
    /// `Err`.
    Bad,
    /// What no expression of a mapper is.
    Odd,
}

/// A local variable of generated code.
pub enum Local {
    Value,
    Values,
    Raw,
    Adapted,
    Found,
    Rendered,
}

/// The name of a local variable.
pub open spec fn local_name(v: Local) -> Text {
    match v {
        Local::Value => "value"@,
        Local::Values => "values"@,
        Local::Raw => "raw"@,
        Local::Adapted => "adapted"@,
        Local::Found => "found"@,
        Local::Rendered => "rendered"@,
    }
}

/// A method without arguments.
pub enum Method {
    Len,
    IsEmpty,
    IntoIter,
    Next,
    Trim,
    IsNone,
    IsSome,
    AsRef,
    Into,
    ParseBool,
    Take,
    Clone,
    ToCompactString,
}

/// The name of a method.
pub open spec fn method_name(m: Method) -> Text {
    match m {
        Method::Len => "len"@,
        Method::IsEmpty => "is_empty"@,
        Method::IntoIter => "into_iter"@,
        Method::Next => "next"@,
        Method::Trim => "trim"@,
        Method::IsNone => "is_none"@,
        Method::IsSome => "is_some"@,
        Method::AsRef => "as_ref"@,
        Method::Into => "into"@,
        Method::ParseBool => "parse::<bool>"@,
        Method::Take => "take"@,
        Method::Clone => "clone"@,
        Method::ToCompactString => "to_compact_string"@,
    }
}

/// A function of one argument.
pub enum Function {
    /// `Some`.
    Wrap,
    /// The parser of decimal numbers.
    ParseDecimal,
    /// A check of the runtime, by its name.
    Check(Text),
    /// An adapter of the runtime, by its name.
    Adapter(Text),
    /// The text of a literal.
    FromText,
}

/// The name of a function.
pub open spec fn function_name(f: Function) -> Text {
    match f {
        Function::Wrap => "Some"@,
        Function::ParseDecimal => "Decimal::from_str"@,
        Function::Check(name) => "validate::"@ + name,
        Function::Adapter(name) => "adapter::"@ + name,
        Function::FromText => "CompactString::from"@,
    }
}

/// A comparison.
pub enum Compare {
    Less,
    More,
    Same,
    Differ,
}

/// The sign of a comparison.
pub open spec fn sign(c: Compare) -> Text {
    match c {
        Compare::Less => " < "@,
        Compare::More => " > "@,
        Compare::Same => " == "@,
        Compare::Differ => " != "@,
    }
}

/// An expression.
pub enum Expr {
    /// A local variable.
    Get(Local),
    /// What a place holds, such as a field of the hub.
    At(Text),
    /// An expression on the source document.
    Source(Text),
    /// What a counter has come to.
    Counter(Text),
    /// A number.
    Number(nat),
    /// A text literal.
    Literal(Text),
    /// `None`.
    Nothing,
    /// A call of a method.
    Call(Box<Expr>, Method),
    /// A list of texts, joined.
    Joined(Box<Expr>, Text),
    /// A call of a function.
    Apply(Function, Box<Expr>),
    /// A reference.
    Refer(Box<Expr>),
    /// A negation.
    Not(Box<Expr>),
    /// A comparison.
    Is(Box<Expr>, Compare, Box<Expr>),
    /// A choice.
    Either(Box<Expr>, Box<Expr>, Box<Expr>),
}

/// How an expression is written.
pub open spec fn show(e: Expr) -> Text
    decreases e,
{
    match e {
        Expr::Get(v) => local_name(v),
        Expr::At(place) => place,
        Expr::Source(t) => t,
        Expr::Counter(name) => name,
        Expr::Number(n) => decimal(n),
        Expr::Literal(t) => quoted(t),
        Expr::Nothing => "None"@,
        Expr::Call(x, m) => show(*x) + "."@ + method_name(m) + "()"@,
        Expr::Joined(x, sep) => show(*x) + ".join("@ + quoted(sep) + ")"@,
        Expr::Apply(f, x) => function_name(f) + "("@ + show(*x) + ")"@,
        Expr::Refer(x) => "&"@ + show(*x),
        Expr::Not(x) => "!"@ + show(*x),
        Expr::Is(a, c, b) => show(*a) + sign(c) + show(*b),
        Expr::Either(c, a, b) => "if "@ + show(*c) + " { "@ + show(*a) + " } else { "@ + show(*b)
            + " }"@,
    }
}

/// What generated code depends on besides itself: the source document, the adapters,
/// the parser of decimal numbers, and how the hub's numbers and truth values are
/// written.
pub struct World {
    pub source: spec_fn(Text) -> Val,
    pub adapt: spec_fn(Text, Text) -> Option<Text>,
    pub is_decimal: spec_fn(Text) -> bool,
    pub written: spec_fn(Val) -> Text,
}

/// A diagnostic that generated code reports.
pub struct Note {
    pub severity: Severity,
    pub code: Text,
    pub node: Text,
    pub key: Option<Text>,
    pub path: Option<Text>,
    pub index: Option<Text>,
    pub chain: Option<Text>,
}

/// The state of generated code: its variables, what places and counters hold, the
/// diagnostic it is filling in, and those it has reported.
pub struct Machine {
    pub locals: Map<Local, Val>,
    pub places: Map<Text, Val>,
    pub counters: Map<Text, int>,
    pub draft: Note,
    pub notes: Seq<Note>,
}

/// Whether a text passes the check of the runtime with a name.
pub open spec fn passes(check: Text, t: Text) -> bool {
    ||| check == "is_currency"@ && currency_shape(t)
    ||| check == "is_date"@ && date_shape(t)
    ||| check == "is_datetime"@ && datetime_shape(t)
    ||| check == "is_unit_code"@ && unit_shape(t)
}

/// What a method gives.
pub open spec fn called(v: Val, m: Method, w: World) -> Val {
    match (m, v) {
        (Method::Len, Val::Many(s)) => Val::Count(s.len() as int),
        (Method::IsEmpty, Val::Many(s)) => Val::Flag(s.len() == 0),
        (Method::IsEmpty, Val::Words(t)) => Val::Flag(t.len() == 0),
        (Method::IsEmpty, Val::Record(empty)) => Val::Flag(empty),
        (Method::IntoIter, Val::Many(s)) => v,
        (Method::Next, Val::Many(s)) => if s.len() == 0 {
            Val::Absent
        } else {
            Val::Present(Box::new(Val::Words(s[0])))
        },
        (Method::Trim, Val::Words(t)) => Val::Words(trim(t)),
        (Method::IsNone, Val::Absent) => Val::Flag(true),
        (Method::IsNone, Val::Present(_)) => Val::Flag(false),
        (Method::IsSome, Val::Absent) => Val::Flag(false),
        (Method::IsSome, Val::Present(_)) => Val::Flag(true),
        (Method::AsRef, _) => v,
        (Method::Into, Val::Words(_)) => v,
        (Method::ParseBool, Val::Words(t)) => if t == "true"@ {
            Val::Good(Box::new(Val::Flag(true)))
        } else if t == "false"@ {
            Val::Good(Box::new(Val::Flag(false)))
        } else {
            Val::Bad
        },
        (Method::Take, _) => v,
        (Method::Clone, _) => v,
        (Method::ToCompactString, _) => Val::Words((w.written)(v)),
        _ => Val::Odd,
    }
}

/// What a function gives.
pub open spec fn applied(f: Function, v: Val, w: World) -> Val {
    match (f, v) {
        (Function::Wrap, _) => Val::Present(Box::new(v)),
        (Function::ParseDecimal, Val::Words(t)) => if (w.is_decimal)(t) {
            Val::Good(Box::new(Val::Amount(t)))
        } else {
            Val::Bad
        },
        (Function::Check(name), Val::Words(t)) => Val::Flag(passes(name, t)),
        (Function::Adapter(name), Val::Words(t)) => match (w.adapt)(name, t) {
            Some(a) => Val::Good(Box::new(Val::Words(a))),
            None => Val::Bad,
        },
        (Function::FromText, Val::Words(_)) => v,
        _ => Val::Odd,
    }
}

/// What a comparison gives.
pub open spec fn compared(a: Val, c: Compare, b: Val) -> Val {
    match (c, a, b) {
        (Compare::Less, Val::Count(x), Val::Count(y)) => Val::Flag(x < y),
        (Compare::More, Val::Count(x), Val::Count(y)) => Val::Flag(x > y),
        (Compare::Same, _, _) => Val::Flag(a == b),
        (Compare::Differ, _, _) => Val::Flag(a != b),
        _ => Val::Odd,
    }
}

/// What an expression gives.
pub open spec fn eval(e: Expr, w: World, s: Machine) -> Val
    decreases e,
{
    match e {
        Expr::Get(v) => if s.locals.dom().contains(v) {
            s.locals[v]
        } else {
            Val::Odd
        },
        Expr::At(place) => if s.places.dom().contains(place) {
            s.places[place]
        } else {
            Val::Odd
        },
        Expr::Source(t) => (w.source)(t),
        Expr::Counter(name) => if s.counters.dom().contains(name) {
            Val::Count(s.counters[name])
        } else {
            Val::Odd
        },
        Expr::Number(n) => Val::Count(n as int),
        Expr::Literal(t) => Val::Words(t),
        Expr::Nothing => Val::Absent,
        Expr::Call(x, m) => called(eval(*x, w, s), m, w),
        Expr::Joined(x, sep) => match eval(*x, w, s) {
            Val::Many(all) => Val::Words(join(all, sep)),
            _ => Val::Odd,
        },
        Expr::Apply(f, x) => applied(f, eval(*x, w, s), w),
        Expr::Refer(x) => eval(*x, w, s),
        Expr::Not(x) => match eval(*x, w, s) {
            Val::Flag(b) => Val::Flag(!b),
            _ => Val::Odd,
        },
        Expr::Is(a, c, b) => compared(eval(*a, w, s), c, eval(*b, w, s)),
        Expr::Either(c, a, b) => if eval(*c, w, s) == Val::Flag(true) {
            eval(*a, w, s)
        } else {
            eval(*b, w, s)
        },
    }
}

/// A statement.
pub enum Step {
    /// A comment.
    Remark(Text),
    /// A declaration of a variable with its type.
    Bind(bool, Local, Text, Expr),
    /// A declaration of a variable without its type.
    Let(Local, Expr),
    /// A declaration of a place that holds nothing.
    Fresh(Text),
    /// An assignment to a variable.
    Assign(Local, Expr),
    /// An assignment to a place.
    Put(Text, Expr),
    /// A value that is appended to the list in a place.
    Append(Text, Expr),
    /// A counter that counts one more.
    Grow(Text),
    /// The first line of a diagnostic: its severity, code, node and message.
    Begin(Text, Text, Text, Text),
    /// The canonical key of the diagnostic.
    NoteKey(Text),
    /// The path of the diagnostic.
    NotePath(Text),
    /// The index of the diagnostic.
    NoteIndex(Text),
    /// The fallback chain of the diagnostic.
    NoteChain(Text),
    /// The diagnostic is reported.
    Report,
    /// A block of its own.
    Block(Code),
    /// A choice between two blocks.
    When(Expr, Code, Code),
    /// A block on what an optional value holds, and one where it holds nothing.
    WhenSome(Local, Expr, Code, Code),
    /// A place that takes the outcome of a parser, and a block where it fails.
    Parse(Expr, Text, Text, Code),
    /// A variable that takes the outcome of an adapter, and a block where it fails.
    Adapt(Expr, Code),
}

/// Statements in a row.
pub enum Code {
    Stop,
    Next(Box<Step>, Box<Code>),
}

/// How the keyword of a declaration is written.
pub open spec fn let_word(mutable: bool) -> Text {
    if mutable {
        "let mut "@
    } else {
        "let "@
    }
}

/// The text `t` with a statement written behind it, each line behind `pad`.
pub open spec fn write_step(t: Text, s: Step, pad: Text) -> Text
    decreases s,
{
    match s {
        Step::Remark(x) => t + pad + "// "@ + x + "\n"@,
        Step::Bind(mutable, v, ty, e) => t + pad + let_word(mutable) + local_name(v) + ": "@ + ty
            + " = "@ + show(e) + ";\n"@,
        Step::Let(v, e) => t + pad + "let "@ + local_name(v) + " = "@ + show(e) + ";\n"@,
        Step::Fresh(place) => t + pad + "let mut "@ + place + " = None;\n"@,
        Step::Assign(v, e) => t + pad + local_name(v) + " = "@ + show(e) + ";\n"@,
        Step::Put(place, e) => t + pad + place + " = "@ + show(e) + ";\n"@,
        Step::Append(place, e) => t + pad + place + ".push("@ + show(e) + ");\n"@,
        Step::Grow(name) => t + pad + name + " += 1;\n"@,
        Step::Begin(severity, code, node, message) => t + pad
            + "let mut diag = MappingDiagnostic::new("@ + severity + ", "@ + quoted(code) + ", "@
            + quoted(node) + ", "@ + message + ");\n"@,
        Step::NoteKey(x) => t + pad + "diag.canonical_key = Some("@ + quoted(x)
            + ".to_string());\n"@,
        Step::NotePath(x) => t + pad + "diag.source_path = Some("@ + quoted(x)
            + ".to_string());\n"@,
        Step::NoteIndex(x) => t + pad + "diag.collection_index = Some("@ + x + ");\n"@,
        Step::NoteChain(x) => t + pad + "diag.fallback_chain = "@ + x + ";\n"@,
        Step::Report => t + pad + "diagnostics.push(diag);\n"@,
        Step::Block(a) => write_code(t + pad + "{\n"@, a, pad + "    "@) + pad + "}\n"@,
        Step::When(c, a, b) => {
            let t = t + pad + "if "@ + show(c) + " {\n"@;
            let t = write_code(t, a, pad + "    "@);
            let t = if b is Stop {
                t
            } else {
                write_code(t + pad + "} else {\n"@, b, pad + "    "@)
            };
            t + pad + "}\n"@
        },
        Step::WhenSome(v, e, a, b) => {
            let t = t + pad + "if let Some("@ + local_name(v) + ") = "@ + show(e) + " {\n"@;
            let t = write_code(t, a, pad + "    "@);
            let t = if b is Stop {
                t
            } else {
                write_code(t + pad + "} else {\n"@, b, pad + "    "@)
            };
            t + pad + "}\n"@
        },
        Step::Parse(e, name, place, b) => {
            let t = t + pad + "match "@ + show(e) + " {\n"@;
            let t = t + pad + "    Ok("@ + name + ") => "@ + place + " = Some("@ + name + "),\n"@;
            let t = t + pad + "    Err(_) => {\n"@;
            let t = write_code(t, b, pad + "        "@);
            let t = t + pad + "    }\n"@;
            t + pad + "}\n"@
        },
        Step::Adapt(e, b) => {
            let t = t + pad + "let adapted = match "@ + show(e) + " {\n"@;
            let t = t + pad + "    Ok(s) => Some(CompactString::from(s)),\n"@;
            let t = t + pad + "    Err(err) => {\n"@;
            let t = write_code(t, b, pad + "        "@);
            let t = t + pad + "        None\n"@;
            let t = t + pad + "    }\n"@;
            t + pad + "};\n"@
        },
    }
}

/// The text `t` with statements written behind it.
pub open spec fn write_code(t: Text, c: Code, pad: Text) -> Text
    decreases c,
{
    match c {
        Code::Stop => t,
        Code::Next(s, rest) => write_code(write_step(t, *s, pad), *rest, pad),
    }
}

/// The severity that a path names.
pub open spec fn severity_named(path: Text) -> Severity {
    if path == "Severity::Error"@ {
        Severity::Error
    } else if path == "Severity::Warning"@ {
        Severity::Warning
    } else {
        Severity::Info
    }
}

/// What a statement does.
pub open spec fn step(s: Step, w: World, m: Machine) -> Machine
    decreases s,
{
    match s {
        Step::Remark(_) => m,
        Step::Bind(_, v, _, e) => Machine { locals: m.locals.insert(v, eval(e, w, m)), ..m },
        Step::Let(v, e) => Machine { locals: m.locals.insert(v, eval(e, w, m)), ..m },
        Step::Fresh(place) => Machine { places: m.places.insert(place, Val::Absent), ..m },
        Step::Assign(v, e) => Machine { locals: m.locals.insert(v, eval(e, w, m)), ..m },
        Step::Put(place, e) => Machine { places: m.places.insert(place, eval(e, w, m)), ..m },
        Step::Append(place, e) => Machine {
            places: m.places.insert(place, appended(m, place, eval(e, w, m))),
            ..m
        },
        Step::Grow(name) => Machine {
            counters: m.counters.insert(name, m.counters[name] + 1),
            ..m
        },
        Step::Begin(severity, code, node, _) => Machine {
            draft: Note {
                severity: severity_named(severity),
                code,
                node,
                key: None,
                path: None,
                index: None,
                chain: None,
            },
            ..m
        },
        Step::NoteKey(x) => Machine { draft: Note { key: Some(x), ..m.draft }, ..m },
        Step::NotePath(x) => Machine { draft: Note { path: Some(x), ..m.draft }, ..m },
        Step::NoteIndex(x) => Machine { draft: Note { index: Some(x), ..m.draft }, ..m },
        Step::NoteChain(x) => Machine { draft: Note { chain: Some(x), ..m.draft }, ..m },
        Step::Report => Machine { notes: m.notes.push(m.draft), ..m },
        Step::Block(a) => run(a, w, m),
        Step::When(c, a, b) => if eval(c, w, m) == Val::Flag(true) {
            run(a, w, m)
        } else {
            run(b, w, m)
        },
        Step::WhenSome(v, e, a, b) => match eval(e, w, m) {
            Val::Present(x) => run(a, w, Machine { locals: m.locals.insert(v, *x), ..m }),
            _ => run(b, w, m),
        },
        Step::Parse(e, _, place, b) => match eval(e, w, m) {
            Val::Good(x) => Machine { places: m.places.insert(place, Val::Present(x)), ..m },
            _ => run(b, w, m),
        },
        Step::Adapt(e, b) => match eval(e, w, m) {
            Val::Good(x) => Machine {
                locals: m.locals.insert(Local::Adapted, Val::Present(x)),
                ..m
            },
            _ => {
                let n = run(b, w, m);
                Machine { locals: n.locals.insert(Local::Adapted, Val::Absent), ..n }
            },
        },
    }
}

/// The list in a place with one more text.
pub open spec fn appended(m: Machine, place: Text, v: Val) -> Val {
    match (m.places[place], v) {
        (Val::Many(s), Val::Words(t)) => Val::Many(s.push(t)),
        (Val::Records(n), Val::Record(_)) => Val::Records(n + 1),
        _ => Val::Odd,
    }
}

/// What statements do.
pub open spec fn run(c: Code, w: World, m: Machine) -> Machine
    decreases c,
{
    match c {
        Code::Stop => m,
        Code::Next(s, rest) => run(*rest, w, step(*s, w, m)),
    }
}

/// One statement before others.
pub open spec fn ahead(s: Step, rest: Code) -> Code {
    Code::Next(Box::new(s), Box::new(rest))
}

/// One statement alone.
pub open spec fn only(s: Step) -> Code {
    ahead(s, Code::Stop)
}

/// A statement is written, and run, before those behind it.
pub proof fn lemma_ahead()
    ensures
        forall|s: Step, rest: Code, t: Text, pad: Text|
            #[trigger] write_code(t, ahead(s, rest), pad) == write_code(
                write_step(t, s, pad),
                rest,
                pad,
            ),
        forall|s: Step, rest: Code, w: World, m: Machine|
            #[trigger] run(ahead(s, rest), w, m) == run(rest, w, step(s, w, m)),
        forall|t: Text, pad: Text| #[trigger] write_code(t, Code::Stop, pad) == t,
        forall|w: World, m: Machine| #[trigger] run(Code::Stop, w, m) == m,
{
}

/// What a declaration or an assignment of a variable does.
pub proof fn lemma_assigns(v: Local, e: Expr, w: World, m: Machine)
    ensures
        forall|mutable: bool, ty: Text|
            #[trigger] step(Step::Bind(mutable, v, ty, e), w, m) == (Machine {
                locals: m.locals.insert(v, eval(e, w, m)),
                ..m
            }),
        step(Step::Let(v, e), w, m) == (Machine { locals: m.locals.insert(v, eval(e, w, m)), ..m }),
        step(Step::Assign(v, e), w, m) == (Machine {
            locals: m.locals.insert(v, eval(e, w, m)),
            ..m
        }),
{
}

/// What an assignment to a place does.
pub proof fn lemma_puts(place: Text, e: Expr, w: World, m: Machine)
    ensures
        step(Step::Put(place, e), w, m) == (Machine {
            places: m.places.insert(place, eval(e, w, m)),
            ..m
        }),
{
}

/// What a value that is appended, and a counter that counts one more, do.
pub proof fn lemma_grows(place: Text, e: Expr, name: Text, w: World, m: Machine)
    ensures
        step(Step::Append(place, e), w, m) == (Machine {
            places: m.places.insert(place, appended(m, place, eval(e, w, m))),
            ..m
        }),
        step(Step::Grow(name), w, m) == (Machine {
            counters: m.counters.insert(name, m.counters[name] + 1),
            ..m
        }),
{
}

/// What a choice between blocks does.
pub proof fn lemma_chooses(c: Expr, a: Code, b: Code, w: World, m: Machine)
    ensures
        step(Step::When(c, a, b), w, m) == if eval(c, w, m) == Val::Flag(true) {
            run(a, w, m)
        } else {
            run(b, w, m)
        },
{
}

/// What a block on an optional value does.
pub proof fn lemma_unwraps(v: Local, e: Expr, a: Code, b: Code, w: World, m: Machine)
    ensures
        step(Step::WhenSome(v, e, a, b), w, m) == match eval(e, w, m) {
            Val::Present(x) => run(a, w, Machine { locals: m.locals.insert(v, *x), ..m }),
            _ => run(b, w, m),
        },
{
}

/// What a parser does.
pub proof fn lemma_parses(e: Expr, name: Text, place: Text, b: Code, w: World, m: Machine)
    ensures
        step(Step::Parse(e, name, place, b), w, m) == match eval(e, w, m) {
            Val::Good(x) => Machine { places: m.places.insert(place, Val::Present(x)), ..m },
            _ => run(b, w, m),
        },
{
}

/// What an adapter does.
pub proof fn lemma_adapts(e: Expr, b: Code, w: World, m: Machine)
    ensures
        step(Step::Adapt(e, b), w, m) == match eval(e, w, m) {
            Val::Good(x) => Machine {
                locals: m.locals.insert(Local::Adapted, Val::Present(x)),
                ..m
            },
            _ => {
                let n = run(b, w, m);
                Machine { locals: n.locals.insert(Local::Adapted, Val::Absent), ..n }
            },
        },
{
}

/// What expressions give.
pub proof fn lemma_evals(w: World, m: Machine)
    ensures
        forall|v: Local|
            m.locals.dom().contains(v) ==> #[trigger] eval(Expr::Get(v), w, m) == m.locals[v],
        forall|place: Text|
            m.places.dom().contains(place) ==> #[trigger] eval(Expr::At(place), w, m)
                == m.places[place],
        forall|t: Text| #[trigger] eval(Expr::Source(t), w, m) == (w.source)(t),
        forall|name: Text|
            m.counters.dom().contains(name) ==> #[trigger] eval(Expr::Counter(name), w, m)
                == Val::Count(m.counters[name]),
        forall|n: nat| #[trigger] eval(Expr::Number(n), w, m) == Val::Count(n as int),
        forall|t: Text| #[trigger] eval(Expr::Literal(t), w, m) == Val::Words(t),
        eval(Expr::Nothing, w, m) == Val::Absent,
        forall|x: Box<Expr>, k: Method|
            #[trigger] eval(Expr::Call(x, k), w, m) == called(eval(*x, w, m), k, w),
        forall|x: Box<Expr>, sep: Text|
            #[trigger] eval(Expr::Joined(x, sep), w, m) == match eval(*x, w, m) {
                Val::Many(all) => Val::Words(join(all, sep)),
                _ => Val::Odd,
            },
        forall|f: Function, x: Box<Expr>|
            #[trigger] eval(Expr::Apply(f, x), w, m) == applied(f, eval(*x, w, m), w),
        forall|x: Box<Expr>| #[trigger] eval(Expr::Refer(x), w, m) == eval(*x, w, m),
        forall|x: Box<Expr>|
            #[trigger] eval(Expr::Not(x), w, m) == match eval(*x, w, m) {
                Val::Flag(b) => Val::Flag(!b),
                _ => Val::Odd,
            },
        forall|a: Box<Expr>, c: Compare, b: Box<Expr>|
            #[trigger] eval(Expr::Is(a, c, b), w, m) == compared(
                eval(*a, w, m),
                c,
                eval(*b, w, m),
            ),
        forall|c: Box<Expr>, a: Box<Expr>, b: Box<Expr>|
            #[trigger] eval(Expr::Either(c, a, b), w, m) == if eval(*c, w, m) == Val::Flag(true) {
                eval(*a, w, m)
            } else {
                eval(*b, w, m)
            },
{
}

/// Statements before others.
pub open spec fn both(a: Code, b: Code) -> Code
    decreases a,
{
    match a {
        Code::Stop => b,
        Code::Next(s, rest) => Code::Next(s, Box::new(both(*rest, b))),
    }
}

/// Statements in a row are written one behind the other, and run one after the other.
pub proof fn lemma_both(a: Code, b: Code)
    ensures
        forall|t: Text, pad: Text|
            #[trigger] write_code(t, both(a, b), pad) == write_code(
                write_code(t, a, pad),
                b,
                pad,
            ),
        forall|w: World, m: Machine| #[trigger] run(both(a, b), w, m) == run(b, w, run(a, w, m)),
    decreases a,
{
    match a {
        Code::Stop => {
            assert(both(a, b) == b);
        },
        Code::Next(s, rest) => {
            lemma_both(*rest, b);
            let all = both(a, b);
            assert(all == Code::Next(s, Box::new(both(*rest, b))));
            assert forall|t: Text, pad: Text|
                #[trigger] write_code(t, all, pad) == write_code(write_code(t, a, pad), b, pad) by {
                let u = write_step(t, *s, pad);
                assert(write_code(t, all, pad) == write_code(u, both(*rest, b), pad));
                assert(write_code(t, a, pad) == write_code(u, *rest, pad));
            }
            assert forall|w: World, m: Machine| #[trigger]
                run(all, w, m) == run(b, w, run(a, w, m)) by {
                let n = step(*s, w, m);
                assert(run(all, w, m) == run(both(*rest, b), w, n));
                assert(run(a, w, m) == run(*rest, w, n));
            }
        },
    }
}

} // verus!
