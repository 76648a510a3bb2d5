//! What requests ask for and how they are answered.
use vstd::prelude::*;

use crate::engine::cli::run::{failure_text, formats_of};
use crate::engine::server::handle::{
    asked_formats, hex_digit, json_array, json_char, json_chars, json_string, param_of, reply_of,
    value_from, value_if, ReplyV,
};
use crate::engine::server::probe::{is_up, port_of};
use crate::engine::server::router::{declared, next_step, response_of, ActionV, StageV, StepEventV};
use crate::engine::spoke::SpokeV;
use crate::engine::transform::{EngineErrorV, WrittenV};
use crate::runtime::result::any_error;
use crate::text::{
    find, join, lemma_find, lemma_rfind, lemma_split_join, parse_number, rfind, trim, Text,
};

verus! {

/// Whether a part of a query sets a parameter.
pub open spec fn sets(part: Text, name: Text) -> bool {
    (name + "="@).is_prefix_of(part)
}

proof fn lemma_sets(part: Text, name: Text)
    requires
        !name.contains('='),
    ensures
        value_if(part, name) is Some <==> sets(part, name),
        sets(part, name) ==> value_if(part, name) == Some(part.skip(name.len() as int + 1)),
{
    reveal_strlit("=");
    lemma_find(part, '=');
    let k = find(part, '=');
    let p = name + "="@;
    if sets(part, name) {
        assert(part.subrange(0, p.len() as int) == p);
        assert(part[name.len() as int] == p[name.len() as int]);
        if k < name.len() {
            assert(part[k] == p[k] && p[k] == name[k]);
            assert(name.contains('='));
        }
        assert(k == name.len());
        assert(part.take(k) =~= name) by {
            assert forall|i: int| 0 <= i < k implies part[i] == name[i] by {
                assert(part.subrange(0, p.len() as int)[i] == p[i]);
            }
        }
    }
    if value_if(part, name) is Some {
        assert(part.subrange(0, p.len() as int) =~= p) by {
            assert forall|i: int| 0 <= i < p.len() implies part[i] == p[i] by {
                if i < k {
                    assert(part.take(k)[i] == part[i]);
                }
            }
        }
    }
}

proof fn lemma_value_from(parts: Seq<Text>, name: Text, i: int, at: int)
    requires
        !name.contains('='),
        0 <= i <= at <= parts.len(),
        forall|j: int| i <= j < at ==> !sets(#[trigger] parts[j], name),
        at < parts.len() ==> sets(parts[at], name),
    ensures
        value_from(parts, name, i) == if at < parts.len() {
            Some(parts[at].skip(name.len() as int + 1))
        } else {
            None
        },
    decreases at - i,
{
    if i < parts.len() {
        lemma_sets(parts[i], name);
        if i < at {
            assert(!sets(parts[i], name));
            lemma_value_from(parts, name, i + 1, at);
        }
    }
}

/// A parameter has the value that stands behind its name and an equals sign in the first
/// part of the query that sets it; an empty value counts as none, and so does a query
/// that does not set it.
pub proof fn law_first_value_of_a_parameter_counts(parts: Seq<Text>, name: Text, at: int)
    requires
        parts.len() > 0,
        forall|i: int| 0 <= i < parts.len() ==> !(#[trigger] parts[i]).contains('&'),
        !name.contains('='),
        0 <= at <= parts.len(),
        forall|j: int| 0 <= j < at ==> !sets(#[trigger] parts[j], name),
        at < parts.len() ==> sets(parts[at], name),
    ensures
        at < parts.len() && parts[at] != name + "="@ ==> param_of(join(parts, "&"@), name) == Some(
            parts[at].skip(name.len() as int + 1),
        ),
        at < parts.len() && parts[at] == name + "="@ ==> param_of(join(parts, "&"@), name) is None,
        at == parts.len() ==> param_of(join(parts, "&"@), name) is None,
{
    reveal_strlit("&");
    reveal_strlit("=");
    assert("&"@ =~= seq!['&']);
    lemma_split_join(parts, '&');
    lemma_value_from(parts, name, 0, at);
    if at < parts.len() {
        let p = name + "="@;
        let part = parts[at];
        let v = part.skip(name.len() as int + 1);
        if v.len() == 0 {
            assert(part =~= p) by {
                assert(part.subrange(0, p.len() as int) == p);
                assert(part.subrange(0, p.len() as int) =~= part);
            }
        }
    }
}

/// A reply tells by its status what happened: 200 the document, 400 that the source could
/// not be read, 500 that the target could not be written, and 422 that the diagnostics
/// allow no document. Each other body holds the reason.
pub proof fn law_status_tells_what_happened(r: Result<WrittenV, EngineErrorV>)
    ensures
        reply_of(r).status == 400 <==> r matches Err(EngineErrorV::Deserialize(_)),
        reply_of(r).status == 500 <==> r matches Err(EngineErrorV::Serialize(_)),
        reply_of(r).status == 422 <==> (r matches Ok(w) && (w.value is None || any_error(
            w.diagnostics,
        ))),
        reply_of(r).status == 200 ==> r is Ok && r->Ok_0.value == Some(reply_of(r).body),
        r matches Err(EngineErrorV::Deserialize(m)) ==> reply_of(r).body
            == "source deserialization failed: "@ + m,
        r matches Err(EngineErrorV::Serialize(m)) ==> reply_of(r).body
            == "target serialization failed: "@ + m,
        reply_of(r).status == 422 ==> reply_of(r).body == failure_text(r->Ok_0.diagnostics),
        response_of(reply_of(r)).body == reply_of(r).body,
        response_of(reply_of(r)).status == reply_of(r).status,
        response_of(reply_of(r)).content_type == "application/xml"@ <==> reply_of(r).status == 200,
        response_of(reply_of(r)).warnings is Some <==> reply_of(r).warnings.len() > 0,
        response_of(reply_of(r)).warnings is Some ==> response_of(reply_of(r)).warnings->0
            == reply_of(r).warnings,
{
    reveal_strlit("application/xml");
    reveal_strlit("text/plain");
    assert("application/xml"@.len() == 15 && "text/plain"@.len() == 10);
}

/// A request that names no target, or formats that are not known, is refused with 400; and
/// where it names both formats its body is not looked at to find them.
pub proof fn law_formats_come_from_the_query(
    spokes: Seq<SpokeV>,
    query: Text,
    body: Seq<u8>,
    other: Seq<u8>,
)
    ensures
        asked_formats(spokes, query, body) matches Err(p) ==> p.status == 400
            && p.warnings.len() == 0,
        param_of(query, "to"@) is None ==> asked_formats(spokes, query, body) is Err,
        param_of(query, "to"@) is Some ==> (asked_formats(spokes, query, body) is Ok
            <==> formats_of(
            spokes,
            param_of(query, "to"@)->0,
            param_of(query, "from"@),
            body,
        ) is Ok),
        param_of(query, "from"@) is Some ==> asked_formats(spokes, query, body) == asked_formats(
            spokes,
            query,
            other,
        ),
{
}

// ---------------------------------------------------------------------------
// Lists of formats
// ---------------------------------------------------------------------------

/// The number of a hexadecimal digit.
pub open spec fn hex_value(c: char) -> int {
    if '0' <= c <= '9' {
        c as int - '0' as int
    } else {
        c as int - 'a' as int + 10
    }
}

/// What the inside of a JSON string stands for.
pub open spec fn unescaped(t: Text) -> Text
    decreases t.len(),
{
    if t.len() == 0 {
        Seq::empty()
    } else if t[0] != '\\' || t.len() == 1 {
        seq![t[0]] + unescaped(t.skip(1))
    } else if t[1] == 'b' {
        seq!['\u{8}'] + unescaped(t.skip(2))
    } else if t[1] == 't' {
        seq!['\t'] + unescaped(t.skip(2))
    } else if t[1] == 'n' {
        seq!['\n'] + unescaped(t.skip(2))
    } else if t[1] == 'f' {
        seq!['\u{c}'] + unescaped(t.skip(2))
    } else if t[1] == 'r' {
        seq!['\r'] + unescaped(t.skip(2))
    } else if t[1] == 'u' && t.len() >= 6 {
        seq![
            (hex_value(t[2]) * 4096 + hex_value(t[3]) * 256 + hex_value(t[4]) * 16 + hex_value(
                t[5],
            )) as u8 as char,
        ] + unescaped(t.skip(6))
    } else {
        seq![t[1]] + unescaped(t.skip(2))
    }
}

proof fn lemma_hex()
    ensures
        forall|n: int|
            0 <= n < 16 ==> hex_value(#[trigger] hex_digit(n)) == n && hex_digit(n) != '"'
                && hex_digit(n) as int >= 32,
{
    reveal_strlit("0123456789abcdef");
    assert forall|n: int| 0 <= n < 16 implies hex_value(#[trigger] hex_digit(n)) == n && hex_digit(
        n,
    ) != '"' && hex_digit(n) as int >= 32 by {
        let h = "0123456789abcdef"@;
        assert(h[0] == '0' && h[1] == '1' && h[2] == '2' && h[3] == '3');
        assert(h[4] == '4' && h[5] == '5' && h[6] == '6' && h[7] == '7');
        assert(h[8] == '8' && h[9] == '9' && h[10] == 'a' && h[11] == 'b');
        assert(h[12] == 'c' && h[13] == 'd' && h[14] == 'e' && h[15] == 'f');
    }
}

proof fn lemma_one_char(c: char, rest: Text)
    ensures
        unescaped(json_char(c) + rest) == seq![c] + unescaped(rest),
        json_char(c).len() > 0,
        forall|i: int|
            0 <= i < json_char(c).len() ==> (#[trigger] json_char(c)[i]) as int >= 32 && (
            json_char(c)[i] == '"' ==> i > 0 && json_char(c)[i - 1] == '\\'),
{
    reveal_strlit("\\\"");
    reveal_strlit("\\\\");
    reveal_strlit("\\b");
    reveal_strlit("\\t");
    reveal_strlit("\\n");
    reveal_strlit("\\f");
    reveal_strlit("\\r");
    reveal_strlit("\\u00");
    lemma_hex();
    let x = json_char(c);
    let t = x + rest;
    assert(t[0] == x[0]);
    if x.len() == 1 {
        assert(t.skip(1) =~= rest);
    } else if x.len() == 2 {
        assert(t[1] == x[1]);
        assert(t.skip(2) =~= rest);
    } else {
        assert(x.len() == 6);
        assert(t[1] == x[1] && t[2] == x[2] && t[3] == x[3] && t[4] == x[4] && t[5] == x[5]);
        assert(t.skip(6) =~= rest);
        assert(hex_value(x[4]) * 16 + hex_value(x[5]) == c as int);
    }
}

proof fn lemma_json_front(c: char, s: Text)
    ensures
        json_chars(seq![c] + s) == json_char(c) + json_chars(s),
    decreases s.len(),
{
    let all = seq![c] + s;
    let none = Seq::<char>::empty();
    if s.len() == 0 {
        assert(all.drop_last() =~= none);
        assert(json_chars(none) =~= none);
        assert(json_chars(all) =~= json_char(c) + none);
        assert(json_chars(s) =~= none);
    } else {
        lemma_json_front(c, s.drop_last());
        assert(all.drop_last() =~= seq![c] + s.drop_last());
        assert(json_chars(all) =~= json_char(c) + json_chars(s));
    }
}

/// A text in a list of formats is read back as it was: every character that would end the
/// string or may not stand in one is escaped.
pub proof fn law_listed_texts_are_read_back(s: Text)
    ensures
        unescaped(json_chars(s)) == s,
        forall|i: int| 0 <= i < json_chars(s).len() ==> (#[trigger] json_chars(s)[i]) as int >= 32,
    decreases s.len(),
{
    let none = Seq::<char>::empty();
    if s.len() == 0 {
        assert(s =~= none);
    } else {
        let rest = s.drop_first();
        law_listed_texts_are_read_back(rest);
        assert(s =~= seq![s[0]] + rest);
        lemma_json_front(s[0], rest);
        lemma_one_char(s[0], json_chars(rest));
        let all = json_chars(s);
        let x = json_char(s[0]);
        assert forall|i: int| 0 <= i < all.len() implies (#[trigger] all[i]) as int >= 32 by {
            if i < x.len() {
                assert(all[i] == x[i]);
            } else {
                assert(all[i] == json_chars(rest)[i - x.len()]);
            }
        }
    }
}

/// A list of formats holds every one of them as a string, in order, between brackets and
/// with commas between them.
pub proof fn law_lists_hold_every_text(items: Seq<Text>, last: Text)
    ensures
        json_array(Seq::empty()) == "["@ + "]"@,
        json_array(seq![last]) == "["@ + "\""@ + json_chars(last) + "\""@ + "]"@,
        items.len() > 0 ==> json_array(items.push(last)) == json_array(items).drop_last() + ","@
            + "\""@ + json_chars(last) + "\""@ + "]"@,
{
    let f = |s: Text| json_string(s);
    let none = Seq::<char>::empty();
    reveal_strlit("]");
    assert(Seq::<Text>::empty().map_values(f) =~= Seq::<Text>::empty());
    assert("["@ + none + "]"@ =~= "["@ + "]"@);
    assert(seq![last].map_values(f) =~= seq![json_string(last)]);
    assert(json_array(seq![last]) =~= "["@ + "\""@ + json_chars(last) + "\""@ + "]"@);
    if items.len() > 0 {
        let parts = items.map_values(f);
        assert(items.push(last).map_values(f) =~= parts.push(json_string(last)));
        assert(parts.push(json_string(last)).drop_last() =~= parts);
        let inner = join(parts, ","@);
        assert(join(parts.push(json_string(last)), ","@) =~= inner + ","@ + json_string(last));
        assert(json_array(items).drop_last() =~= "["@ + inner);
        assert(json_array(items.push(last)) =~= json_array(items).drop_last() + ","@ + "\""@
            + json_chars(last) + "\""@ + "]"@);
    }
}

// ---------------------------------------------------------------------------
// The steps of a request
// ---------------------------------------------------------------------------

/// A request reserves its length times the blowup before anything of it is read, or as
/// many bytes as can be counted; without a length it is refused.
pub proof fn law_length_decides_the_reservation(value: Option<Text>, blowup: u64)
    ensures
        ({
            let (stage, action) = next_step(StageV::Headers, StepEventV::Length(value), blowup);
            match declared(value) {
                Some(n) => stage == StageV::Admission(n) && (action matches ActionV::Reserve(bytes)
                    && bytes <= n * blowup && (bytes < n * blowup ==> bytes == u64::MAX)),
                None => stage == StageV::Answered && (action matches ActionV::Respond(r) && r.status
                    == 411),
            }
        }),
        value is None ==> declared(value) is None,
        value matches Some(v) ==> declared(value) == parse_number(trim(v)),
{
}

/// The bytes of several pieces of a body, one behind the other.
pub open spec fn received(pieces: Seq<Seq<u8>>) -> Seq<u8>
    decreases pieces.len(),
{
    if pieces.len() == 0 {
        Seq::empty()
    } else {
        pieces[0] + received(pieces.drop_first())
    }
}

/// The stage of a request after pieces of its body have come in.
pub open spec fn after_pieces(stage: StageV, pieces: Seq<Seq<u8>>, blowup: u64) -> StageV
    decreases pieces.len(),
{
    if pieces.len() == 0 {
        stage
    } else {
        after_pieces(
            next_step(stage, StepEventV::Data(pieces[0]), blowup).0,
            pieces.drop_first(),
            blowup,
        )
    }
}

proof fn lemma_after_pieces(n: u64, b: Seq<u8>, pieces: Seq<Seq<u8>>, blowup: u64)
    requires
        b.len() <= n,
    ensures
        after_pieces(StageV::Body(n, b), pieces, blowup) == if b.len() + received(pieces).len()
            <= n {
            StageV::Body(n, b + received(pieces))
        } else {
            StageV::Answered
        },
    decreases pieces.len(),
{
    if pieces.len() == 0 {
        assert(b + received(pieces) =~= b);
    } else {
        let d = pieces[0];
        let rest = pieces.drop_first();
        if b.len() + d.len() <= n {
            lemma_after_pieces(n, b + d, rest, blowup);
            assert((b + d) + received(rest) =~= b + received(pieces));
        } else {
            lemma_answered(rest, blowup);
        }
    }
}

proof fn lemma_answered(pieces: Seq<Seq<u8>>, blowup: u64)
    ensures
        after_pieces(StageV::Answered, pieces, blowup) == StageV::Answered,
    decreases pieces.len(),
{
    if pieces.len() > 0 {
        lemma_answered(pieces.drop_first(), blowup);
    }
}

/// A request that was admitted is transformed with the whole of its body, however it came
/// in pieces, if the body is not longer than was declared; a longer one is answered
/// without.
pub proof fn law_whole_body_is_transformed(n: u64, pieces: Seq<Seq<u8>>, blowup: u64)
    ensures
        ({
            let (body, first) = next_step(StageV::Admission(n), StepEventV::Admitted, blowup);
            let stage = after_pieces(body, pieces, blowup);
            &&& first == ActionV::Read
            &&& received(pieces).len() <= n ==> next_step(stage, StepEventV::End, blowup) == (
                StageV::Transforming,
                ActionV::Transform(received(pieces)),
            )
            &&& received(pieces).len() > n ==> stage == StageV::Answered && next_step(
                stage,
                StepEventV::End,
                blowup,
            ).1 == ActionV::Nothing
        }),
{
    let none = Seq::<u8>::empty();
    lemma_after_pieces(n, none, pieces, blowup);
    assert(none + received(pieces) =~= received(pieces));
}

/// A request whose transformation ends is answered with the reply, and one whose
/// transformation breaks off with 500; what happens to an answered one changes nothing.
pub proof fn law_every_transformation_is_answered(r: ReplyV, event: StepEventV, blowup: u64)
    ensures
        next_step(StageV::Transforming, StepEventV::Replied(r), blowup) == (
            StageV::Answered,
            ActionV::Respond(response_of(r)),
        ),
        next_step(StageV::Transforming, StepEventV::Panicked, blowup).0 == StageV::Answered,
        next_step(StageV::Transforming, StepEventV::Panicked, blowup).1 matches ActionV::Respond(p)
            && p.status == 500 && p.held,
        next_step(StageV::Answered, event, blowup) == (StageV::Answered, ActionV::Nothing),
{
}

// ---------------------------------------------------------------------------
// Health
// ---------------------------------------------------------------------------

/// The port of an address stands behind its last colon; without a colon the address is
/// the port.
pub proof fn law_port_stands_behind_the_last_colon(host: Text, port: Text)
    requires
        !port.contains(':'),
    ensures
        port_of(host + ":"@ + port) == port,
        port_of(port) == port,
{
    reveal_strlit(":");
    let all = host + ":"@ + port;
    lemma_rfind(all, ':');
    let k = rfind(all, ':');
    assert(all[host.len() as int] == ':');
    if k > host.len() {
        assert(all[k] == port[k - host.len() - 1]);
        assert(port.contains(port[k - host.len() - 1]));
    }
    assert(k == host.len());
    assert(all.skip(k + 1) =~= port);
    lemma_rfind(port, ':');
    let j = rfind(port, ':');
    if j >= 0 {
        assert(port.contains(port[j]));
    }
    assert(port.skip(0) =~= port);
}

/// A server is up if, and only if, the status behind the nine bytes of the version is 200.
pub proof fn law_up_means_status_200(version: Seq<u8>, status: Seq<u8>, rest: Seq<u8>, line: Seq<u8>)
    requires
        version.len() == 9,
        status.len() == 3,
    ensures
        is_up(version + status + rest) <==> status == seq![50u8, 48u8, 48u8],
        line.len() < 12 ==> !is_up(line),
{
    let all = version + status + rest;
    assert(all[9] == status[0] && all[10] == status[1] && all[11] == status[2]);
    if is_up(all) {
        assert(status =~= seq![50u8, 48u8, 48u8]);
    }
}

} // verus!
