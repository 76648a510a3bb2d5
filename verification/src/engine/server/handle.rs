//! From a query and a body to a reply.
use vstd::prelude::*;

use crate::engine::cli::error::cli_message;
use crate::engine::cli::render::{diagnostics_text, render_diagnostics};
use crate::engine::cli::run::{
    analyze_table, analyze_text, failure_message, failure_text, formats_for, formats_of, is_source,
    is_target,
};
use crate::engine::spoke::{names_of, spoke_names, Spoke, SpokeV};
use crate::engine::transform::{
    engine_message, may_transform, transformed, Engine, EngineError, EngineErrorV, WrittenV,
};
use crate::runtime::result::{
    any_error, any_warning, lemma_warnings_of, only_warnings, warnings_of, MappingDiagnostic, MappingDiagnosticV, MappingResult,
};
use crate::text::{
    chars_of, find, index_of, join, join_strings, lemma_join_split, lemma_split_nonempty,
    lemma_split_pieces, lines, lines_of, outcome, same, split, split_at_char, string_of, strip_cr,
    Text,
};

verus! {

/// A reply: a status, a body, and warnings that go into a header.
#[derive(Debug, Clone, PartialEq, Eq)]
pub struct Reply {
    /// The HTTP status.
    pub status: u16,
    /// The target document, or what is wrong.
    pub body: String,
    /// The warnings among the diagnostics of a success, on one line; empty where
    /// there is none.
    pub warnings: String,
}

/// The model of a [`Reply`].
#[verifier::ext_equal]
pub struct ReplyV {
    pub status: u16,
    pub body: Text,
    pub warnings: Text,
}

impl View for Reply {
    type V = ReplyV;

    open spec fn view(&self) -> ReplyV {
        ReplyV { status: self.status, body: self.body@, warnings: self.warnings@ }
    }
}

/// A reply that says what is wrong.
pub open spec fn problem_of(status: u16, text: Text) -> ReplyV {
    ReplyV { status, body: text, warnings: Seq::empty() }
}

/// A reply that says what is wrong.
pub fn problem(status: u16, text: String) -> (r: Reply)
    ensures
        r@ == problem_of(status, text@),
{
    let warnings = String::new();
    assert(warnings@ =~= Seq::<char>::empty());
    Reply { status, body: text, warnings }
}

/// What stands behind the first equals sign of `kv`, if what stands before it is
/// `name`.
pub open spec fn value_if(kv: Text, name: Text) -> Option<Text> {
    let i = find(kv, '=');
    if i < kv.len() && kv.take(i) == name {
        Some(kv.skip(i + 1))
    } else {
        None
    }
}

/// The value of the first of `parts`, from position `i` on, that sets `name`.
pub open spec fn value_from(parts: Seq<Text>, name: Text, i: int) -> Option<Text>
    decreases parts.len() - i,
{
    if i >= parts.len() {
        None
    } else if value_if(parts[i], name) is Some {
        value_if(parts[i], name)
    } else {
        value_from(parts, name, i + 1)
    }
}

/// The value of a query parameter: the first, if it is not empty.
pub open spec fn param_of(query: Text, name: Text) -> Option<Text> {
    match value_from(split(query, '&'), name, 0) {
        Some(v) => if v.len() == 0 {
            None
        } else {
            Some(v)
        },
        None => None,
    }
}

/// The value of a query parameter: the first, if it is not empty. Nothing is
/// decoded.
pub fn param(query: &str, name: &str) -> (r: Option<String>)
    ensures
        r.deep_view() == param_of(query@, name@),
{
    let parts = split_at_char(query, '&');
    let ghost views = split(query@, '&');
    let mut i: usize = 0;
    while i < parts.len()
        invariant
            i <= parts.len(),
            views == parts.deep_view(),
            views == split(query@, '&'),
            value_from(views, name@, 0) == value_from(views, name@, i as int),
        decreases parts.len() - i,
    {
        assert(views[i as int] == parts@[i as int]@);
        let chars = chars_of(parts[i].as_str());
        let at = index_of(&chars, '=');
        if at < chars.len() {
            let key = string_of(&chars, 0, at);
            assert(key@ =~= views[i as int].take(at as int));
            if same(key.as_str(), name) {
                let value = string_of(&chars, at + 1, chars.len());
                assert(value@ =~= views[i as int].skip(at + 1));
                if at + 1 == chars.len() {
                    return None;
                }
                return Some(value);
            }
        }
        i += 1;
    }
    assert(views.len() == parts@.len());
    None
}

/// The warnings among a list of diagnostics, on one line.
pub open spec fn warning_line(diagnostics: Seq<MappingDiagnosticV>) -> Text {
    join(lines(diagnostics_text(warnings_of(diagnostics))), "; "@)
}

/// The warnings among a list of diagnostics, on one line; empty where there is
/// none.
pub fn render_warnings(diagnostics: &Vec<MappingDiagnostic>) -> (out: String)
    ensures
        out@ == warning_line(diagnostics.deep_view()),
        out@.len() == 0 <==> !any_warning(diagnostics.deep_view()),
        !out@.contains('\n'),
{
    let kept = only_warnings(diagnostics);
    let rendered = render_diagnostics(kept.as_slice());
    proof {
        law_warnings_are_one_line(diagnostics.deep_view());
    }
    join_strings(&lines_of(rendered.as_str()), "; ")
}

/// The warnings of a list of diagnostics stand on one line, which is empty exactly
/// where no diagnostic is a warning.
pub proof fn law_warnings_are_one_line(diagnostics: Seq<MappingDiagnosticV>)
    ensures
        warning_line(diagnostics).len() == 0 <==> !any_warning(diagnostics),
        !warning_line(diagnostics).contains('\n'),
{
    let kept = warnings_of(diagnostics);
    let text = diagnostics_text(kept);
    lemma_warnings_of(diagnostics);
    lemma_diagnostics_text(kept);
    lemma_joined_lines(text);
    if kept.len() == 0 {
        assert(split(text, '\n') =~= seq![Seq::<char>::empty()]);
        assert(lines(text) =~= Seq::<Text>::empty());
    }
}

/// The rendered text of a list of diagnostics that is not empty is a longer text
/// and a line feed.
proof fn lemma_diagnostics_text(diagnostics: Seq<MappingDiagnosticV>)
    ensures
        diagnostics.len() == 0 ==> diagnostics_text(diagnostics) == Seq::<char>::empty(),
        diagnostics.len() > 0 ==> diagnostics_text(diagnostics).len() > 2 && diagnostics_text(
            diagnostics,
        ).last() == '\n',
{
    reveal_strlit(": ");
    reveal_strlit("] ");
    reveal_strlit("\n");
}

/// The lines of a text, joined, hold no line feed, and are not empty where the text
/// is longer than a line ending and ends with one.
proof fn lemma_joined_lines(t: Text)
    ensures
        !join(lines(t), "; "@).contains('\n'),
        t.len() > 2 && t.last() == '\n' ==> join(lines(t), "; "@).len() > 0,
{
    let pieces = split(t, '\n');
    let all = lines(t);
    lemma_split_nonempty(t, '\n');
    lemma_split_pieces(t, '\n');
    reveal_strlit("; ");
    assert forall|i: int| 0 <= i < all.len() implies !(#[trigger] all[i]).contains('\n') by {
        assert(!pieces[i].contains('\n'));
        assert forall|k: int| 0 <= k < all[i].len() implies all[i][k] != '\n' by {
            assert(all[i][k] == pieces[i][k]);
            assert(pieces[i].contains(pieces[i][k]));
        }
    }
    lemma_join_lacks(all, "; "@, '\n');
    if t.len() > 2 && t.last() == '\n' {
        let head = t.drop_last();
        let before = split(head, '\n');
        lemma_split_nonempty(head, '\n');
        lemma_join_split(head, '\n');
        assert(pieces.drop_last() =~= before);
        assert(all == before.map_values(|l: Text| strip_cr(l)));
        if all.len() == 1 {
            assert(before[0] == head);
        } else {
            assert(join(all, "; "@).len() >= 2);
        }
    }
}

/// Texts without a character, joined by one without it, do not hold it.
proof fn lemma_join_lacks(parts: Seq<Text>, sep: Text, c: char)
    requires
        forall|i: int| 0 <= i < parts.len() ==> !(#[trigger] parts[i]).contains(c),
        !sep.contains(c),
    ensures
        !join(parts, sep).contains(c),
    decreases parts.len(),
{
    if parts.len() > 1 {
        let head = parts.drop_last();
        assert forall|i: int| 0 <= i < head.len() implies !(#[trigger] head[i]).contains(c) by {
            assert(head[i] == parts[i]);
        }
        lemma_join_lacks(head, sep, c);
        let (a, b) = (join(head, sep), parts.last());
        assert(!parts[parts.len() - 1].contains(c));
        let whole = a + sep + b;
        assert forall|k: int| 0 <= k < whole.len() implies whole[k] != c by {
            if k < a.len() {
                assert(a.contains(a[k]));
            } else if k < a.len() + sep.len() {
                assert(sep.contains(sep[k - a.len()]));
            } else {
                assert(b.contains(b[k - a.len() - sep.len()]));
            }
        }
    } else if parts.len() == 1 {
        assert(!parts[0].contains(c));
    }
}

/// The reply to the outcome of a transformation: the document; or 400 where the
/// source cannot be read, 500 where the target cannot be rendered, and 422 where a
/// diagnostic is an error or there is no document.
pub open spec fn reply_of(r: Result<WrittenV, EngineErrorV>) -> ReplyV {
    match r {
        Err(EngineErrorV::Deserialize(m)) => problem_of(
            400,
            engine_message(EngineErrorV::Deserialize(m)),
        ),
        Err(EngineErrorV::Serialize(m)) => problem_of(
            500,
            engine_message(EngineErrorV::Serialize(m)),
        ),
        Ok(w) => if w.value is Some && !any_error(w.diagnostics) {
            ReplyV {
                status: 200,
                body: w.value->0,
                warnings: warning_line(w.diagnostics),
            }
        } else {
            problem_of(422, failure_text(w.diagnostics))
        },
    }
}

/// The reply to the outcome of a transformation.
pub fn reply(result: Result<MappingResult<String>, EngineError>) -> (r: Reply)
    ensures
        r@ == reply_of(transformed(result)),
{
    match result {
        Err(EngineError::Deserialize(m)) => problem(
            400,
            EngineError::Deserialize(m).message(),
        ),
        Err(EngineError::Serialize(m)) => problem(500, EngineError::Serialize(m).message()),
        Ok(m) => {
            let failed = m.has_errors();
            match m.value {
                Some(xml) => {
                    if failed {
                        return problem(422, failure_message(m.diagnostics.as_slice()));
                    }
                    Reply { status: 200, body: xml, warnings: render_warnings(&m.diagnostics) }
                },
                None => problem(422, failure_message(m.diagnostics.as_slice())),
            }
        },
    }
}

/// The formats that a query asks for, or the problem with it.
pub open spec fn asked_formats(spokes: Seq<SpokeV>, query: Text, body: Seq<u8>) -> Result<
    (SpokeV, SpokeV),
    ReplyV,
> {
    match param_of(query, "to"@) {
        None => Err(problem_of(400, "missing required query parameter: to=<format>"@)),
        Some(to) => match formats_of(spokes, to, param_of(query, "from"@), body) {
            Err(e) => Err(problem_of(400, cli_message(e))),
            Ok(p) => Ok(p),
        },
    }
}

/// The slice of an optional text.
fn as_slice(o: &Option<String>) -> (r: Option<&str>)
    ensures
        crate::dsl::codegen::diag::text_of(r) == o.deep_view(),
{
    match o {
        Some(s) => Some(s.as_str()),
        None => None,
    }
}

/// The formats that a query asks for, or the problem with it.
pub fn query_formats<'a>(spokes: &'a [Spoke], query: &str, body: &[u8]) -> (r: Result<
    (&'a Spoke, &'a Spoke),
    Reply,
>)
    ensures
        match r {
            Ok(p) => asked_formats(spokes.deep_view(), query@, body@) == Ok::<
                (SpokeV, SpokeV),
                ReplyV,
            >((p.0@, p.1@)),
            Err(e) => asked_formats(spokes.deep_view(), query@, body@) == Err::<
                (SpokeV, SpokeV),
                ReplyV,
            >(e@),
        },
{
    let to = match param(query, "to") {
        Some(to) => to,
        None => {
            return Err(
                problem(400, "missing required query parameter: to=<format>".to_string()),
            );
        },
    };
    let from = param(query, "from");
    match formats_for(spokes, to.as_str(), as_slice(&from), body) {
        Ok(p) => Ok(p),
        Err(e) => Err(problem(400, e.message())),
    }
}

/// Whether a request may be answered with `out`: with the problem of its query, or
/// with the reply to what a transformation between its formats may return.
pub open spec fn may_answer<H, R, W>(
    spokes: Seq<SpokeV>,
    query: Text,
    body: &[u8],
    read: R,
    write: W,
    out: ReplyV,
) -> bool where
    R: FnOnce(&Spoke, &[u8]) -> Result<MappingResult<H>, String>,
    W: FnOnce(&Spoke, &H) -> Result<MappingResult<String>, String>,
 {
    match asked_formats(spokes, query, body@) {
        Err(p) => out == p,
        Ok((f, t)) => exists|from: Spoke, to: Spoke, w: Result<WrittenV, EngineErrorV>|
            from@ == f && to@ == t && #[trigger] may_transform::<H, R, W>(
                read,
                write,
                from,
                to,
                body,
                w,
            ) && out == reply_of(w),
    }
}

/// Answers a request to transform its body: `to` names the target format, and
/// `from` the source format, which is detected where it is absent.
pub fn handle<H, R, W>(
    spokes: &[Spoke],
    query: &str,
    body: &[u8],
    read: R,
    write: W,
) -> (r: Reply) where
    R: FnOnce(&Spoke, &[u8]) -> Result<MappingResult<H>, String>,
    W: FnOnce(&Spoke, &H) -> Result<MappingResult<String>, String>,

    requires
        forall|s: Spoke|
            is_source(asked_formats(spokes.deep_view(), query@, body@), s@)
                ==> #[trigger] call_requires(read, (&s, body)),
        forall|s: Spoke, hub: H|
            is_target(asked_formats(spokes.deep_view(), query@, body@), s@)
                ==> #[trigger] call_requires(write, (&s, &hub)),
    ensures
        may_answer::<H, R, W>(spokes.deep_view(), query@, body, read, write, r@),
{
    let (from, to) = match query_formats(spokes, query, body) {
        Ok(p) => p,
        Err(p) => {
            return p;
        },
    };
    let result = Engine::new().transform(from, to, body, read, write);
    let ghost w = transformed(result);
    let r = reply(result);
    proof {
        let (f, t): (Spoke, Spoke) = (*from, *to);
        assert(f@ == from@ && t@ == to@ && may_transform::<H, R, W>(read, write, f, t, body, w));
    }
    r
}

/// A reply to a transformation is 200 exactly where there is a document and no
/// diagnostic is an error. It then warns exactly where a diagnostic is a warning;
/// any other reply does not.
pub proof fn law_success_means_no_errors(r: Result<WrittenV, EngineErrorV>)
    ensures
        reply_of(r).status == 200 <==> r is Ok && r->Ok_0.value is Some && !any_error(
            r->Ok_0.diagnostics,
        ),
        reply_of(r).status == 200 ==> (reply_of(r).warnings.len() == 0 <==> !any_warning(
            r->Ok_0.diagnostics,
        )),
        reply_of(r).status != 200 ==> reply_of(r).warnings.len() == 0,
{
    if r is Ok {
        law_warnings_are_one_line(r->Ok_0.diagnostics);
    }
}

/// A hexadecimal digit, in lower case.
pub open spec fn hex_digit(n: int) -> char {
    "0123456789abcdef"@[n]
}

/// A character inside a JSON string: quotation marks, backslashes and control
/// characters are escaped.
pub open spec fn json_char(c: char) -> Text {
    if c == '"' {
        "\\\""@
    } else if c == '\\' {
        "\\\\"@
    } else if c == '\u{8}' {
        "\\b"@
    } else if c == '\t' {
        "\\t"@
    } else if c == '\n' {
        "\\n"@
    } else if c == '\u{c}' {
        "\\f"@
    } else if c == '\r' {
        "\\r"@
    } else if (c as int) < 32 {
        "\\u00"@.push(hex_digit(c as int / 16)).push(hex_digit(c as int % 16))
    } else {
        seq![c]
    }
}

/// The characters of a text inside a JSON string.
pub open spec fn json_chars(s: Text) -> Text
    decreases s.len(),
{
    if s.len() == 0 {
        Seq::empty()
    } else {
        json_chars(s.drop_last()) + json_char(s.last())
    }
}

/// A text as a JSON string.
pub open spec fn json_string(s: Text) -> Text {
    "\""@ + json_chars(s) + "\""@
}

/// The JSON array of a list of texts.
pub open spec fn json_array(items: Seq<Text>) -> Text {
    "["@ + join(items.map_values(|s: Text| json_string(s)), ","@) + "]"@
}

/// `serde_json::to_string` of a list of texts: the array of their JSON strings,
/// without spaces. It fails only on a map whose keys are not strings and where a
/// type refuses to be written, and so never on texts.
#[verifier::external_body]
fn to_json(items: &Vec<String>) -> (out: String)
    ensures
        out@ == json_array(items.deep_view()),
{
    serde_json::to_string(items).unwrap_or_default()
}

/// The JSON array of the names of the formats.
pub fn formats(spokes: &[Spoke]) -> (out: String)
    ensures
        out@ == json_array(names_of(spokes.deep_view())),
{
    to_json(&spoke_names(spokes))
}

/// The table of how transformations end, from the format that the query names or
/// from all; or what is wrong with the query.
pub fn analyze(spokes: &[Spoke], query: &str) -> (r: Result<String, String>)
    ensures
        outcome(r) == match analyze_text(spokes.deep_view(), param_of(query@, "from"@)) {
            Ok(t) => Ok::<Text, Text>(t),
            Err(e) => Err(cli_message(e)),
        },
{
    let from = param(query, "from");
    match analyze_table(spokes, as_slice(&from)) {
        Ok(t) => Ok(t),
        Err(e) => Err(e.message()),
    }
}

} // verus!
