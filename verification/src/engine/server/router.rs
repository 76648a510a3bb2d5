//! The steps of a request to transform a document: its length, its reservation,
//! its body, its reply. What is awaited in between is the caller's.
use vstd::prelude::*;

use crate::engine::cli::error::cli_message;
use crate::engine::cli::run::analyze_text;
use crate::engine::server::gate::{never_fits_text, NeverFits};
use crate::engine::server::handle::{
    analyze, formats, json_array, param_of, problem, problem_of, Reply, ReplyV,
};
use crate::engine::spoke::{names_of, Spoke};
use crate::engine::table::{byte_len, byte_len_of};
use crate::text::{parse_number, parse_u64, trim, trimmed, Text};

verus! {

/// What is served on unknown routes.
pub open spec fn usage_line() -> Text {
    "POST /transform?to=<format>[&from=<format>] | GET /formats | GET /analyze[?from=<format>] | GET /health"@
}

/// What is served on unknown routes.
pub fn usage() -> (s: &'static str)
    ensures
        s@ == usage_line(),
{
    "POST /transform?to=<format>[&from=<format>] | GET /formats | GET /analyze[?from=<format>] | GET /health"
}

/// A page that takes no request body: its status, its content type, its text.
#[derive(Debug, Clone, PartialEq, Eq)]
pub struct Page {
    /// The status.
    pub status: u16,
    /// The content type.
    pub content_type: &'static str,
    /// The body.
    pub body: String,
}

/// The model of a [`Page`].
#[verifier::ext_equal]
pub struct PageV {
    pub status: u16,
    pub content_type: Text,
    pub body: Text,
}

impl View for Page {
    type V = PageV;

    open spec fn view(&self) -> PageV {
        PageV { status: self.status, content_type: self.content_type@, body: self.body@ }
    }
}

/// A page of plain text.
pub open spec fn text_page(status: u16, body: Text) -> PageV {
    PageV { status, content_type: "text/plain; charset=utf-8"@, body }
}

/// A page of plain text.
fn plain_page(status: u16, body: String) -> (p: Page)
    ensures
        p@ == text_page(status, body@),
{
    Page { status, content_type: "text/plain; charset=utf-8", body }
}

/// `GET /health`: the server is up.
pub fn health() -> (p: Page)
    ensures
        p@ == text_page(200, "ok"@),
{
    plain_page(200, "ok".to_string())
}

/// `GET /formats`: the names of the spokes as JSON.
pub fn formats_page(spokes: &[Spoke]) -> (p: Page)
    ensures
        p@ == (PageV {
            status: 200,
            content_type: "application/json"@,
            body: json_array(names_of(spokes.deep_view())),
        }),
{
    Page { status: 200, content_type: "application/json", body: formats(spokes) }
}

/// `GET /analyze`: the loss analysis as a table, or what is wrong with the request.
pub fn analyze_page(spokes: &[Spoke], query: &str) -> (p: Page)
    ensures
        p@ == match analyze_text(spokes.deep_view(), param_of(query@, "from"@)) {
            Ok(t) => text_page(200, t),
            Err(e) => text_page(400, cli_message(e)),
        },
{
    match analyze(spokes, query) {
        Ok(table) => plain_page(200, table),
        Err(problem) => plain_page(400, problem),
    }
}

/// Any other route.
pub fn not_found() -> (p: Page)
    ensures
        p@ == text_page(404, usage_line()),
{
    plain_page(404, usage().to_string())
}

/// The length that a `Content-Length` header declares, if it can be read.
pub open spec fn declared(value: Option<Text>) -> Option<u64> {
    match value {
        Some(v) => parse_number(trim(v)),
        None => None,
    }
}

/// The length that a `Content-Length` header declares, if there is one and it can
/// be read.
pub fn content_length(value: Option<&str>) -> (r: Option<u64>)
    ensures
        r == declared(crate::dsl::codegen::diag::text_of(value)),
{
    match value {
        Some(v) => parse_u64(trimmed(v).as_str()),
        None => None,
    }
}

/// The bytes that a request reserves: its length times the blowup, at most as many
/// as can be counted.
pub open spec fn reservation_of(length: u64, blowup: u64) -> u64 {
    if length * blowup > u64::MAX {
        u64::MAX
    } else {
        (length * blowup) as u64
    }
}

/// The bytes that a request reserves.
pub fn reservation(length: u64, blowup: u64) -> (n: u64)
    ensures
        n == reservation_of(length, blowup),
{
    match length.checked_mul(blowup) {
        Some(n) => n,
        None => u64::MAX,
    }
}

/// An HTTP response.
#[derive(Debug, Clone, PartialEq, Eq)]
pub struct HttpReply {
    /// The status.
    pub status: u16,
    /// The content type.
    pub content_type: &'static str,
    /// The content length.
    pub content_length: usize,
    /// The warnings header, if there is anything to warn of.
    pub warnings: Option<String>,
    /// Whether the connection is closed.
    pub close: bool,
    /// Whether the bytes that the request reserved stay reserved until the body is
    /// dropped; else nothing is reserved once the response is sent.
    pub held: bool,
    /// The body.
    pub body: String,
}

/// The model of an [`HttpReply`].
#[verifier::ext_equal]
pub struct HttpV {
    pub status: u16,
    pub content_type: Text,
    pub content_length: nat,
    pub warnings: Option<Text>,
    pub close: bool,
    pub held: bool,
    pub body: Text,
}

impl View for HttpReply {
    type V = HttpV;

    open spec fn view(&self) -> HttpV {
        HttpV {
            status: self.status,
            content_type: self.content_type@,
            content_length: self.content_length as nat,
            warnings: self.warnings.deep_view(),
            close: self.close,
            held: self.held,
            body: self.body@,
        }
    }
}

/// The response to a request whose body was not read to its end: plain text, the
/// connection is closed, and nothing stays reserved.
pub open spec fn denial(status: u16, text: Text) -> HttpV {
    HttpV {
        status,
        content_type: "text/plain; charset=utf-8"@,
        content_length: byte_len(text),
        warnings: None,
        close: true,
        held: false,
        body: text,
    }
}

/// The response to a request whose body was not read to its end.
fn deny(status: u16, text: String) -> (r: HttpReply)
    ensures
        r@ == denial(status, text@),
{
    let content_length = byte_len_of(text.as_str());
    HttpReply {
        status,
        content_type: "text/plain; charset=utf-8",
        content_length,
        warnings: None,
        close: true,
        held: false,
        body: text,
    }
}

/// The response for a reply: XML on success, else plain text. What the request
/// reserved stays reserved until the body is dropped.
pub open spec fn response_of(r: ReplyV) -> HttpV {
    HttpV {
        status: r.status,
        content_type: if r.status == 200 {
            "application/xml"@
        } else {
            "text/plain"@
        },
        content_length: byte_len(r.body),
        warnings: if r.warnings.len() == 0 {
            None
        } else {
            Some(r.warnings)
        },
        close: false,
        held: true,
        body: r.body,
    }
}

/// The response for a reply.
pub fn respond(reply: Reply) -> (r: HttpReply)
    ensures
        r@ == response_of(reply@),
{
    let content_length = byte_len_of(reply.body.as_str());
    let content_type = if reply.status == 200 {
        "application/xml"
    } else {
        "text/plain"
    };
    let warnings = if reply.warnings.as_str().is_empty() {
        None
    } else {
        Some(reply.warnings)
    };
    HttpReply {
        status: reply.status,
        content_type,
        content_length,
        warnings,
        close: false,
        held: true,
        body: reply.body,
    }
}

/// Where a request stands.
#[derive(Debug)]
pub enum Stage {
    /// Its headers have been read.
    Headers,
    /// It waits for its reservation; its body has this length.
    Admission(u64),
    /// Its body is being read: the length, and what has come.
    Body(u64, Vec<u8>),
    /// Its body is being transformed.
    Transforming,
    /// It has been answered.
    Answered,
}

/// The model of a [`Stage`].
#[verifier::ext_equal]
pub enum StageV {
    Headers,
    Admission(u64),
    Body(u64, Seq<u8>),
    Transforming,
    Answered,
}

impl View for Stage {
    type V = StageV;

    open spec fn view(&self) -> StageV {
        match self {
            Stage::Headers => StageV::Headers,
            Stage::Admission(n) => StageV::Admission(*n),
            Stage::Body(n, b) => StageV::Body(*n, b@),
            Stage::Transforming => StageV::Transforming,
            Stage::Answered => StageV::Answered,
        }
    }
}

/// What happens to a request.
#[derive(Debug)]
pub enum Event {
    /// The value of its `Content-Length` header, if there is one that is text.
    Length(Option<String>),
    /// Its reservation is held.
    Admitted,
    /// Its reservation can never be held.
    Refused(NeverFits),
    /// A part of its body has come.
    Data(Vec<u8>),
    /// Something has come that is no part of its body.
    NoData,
    /// Its body cannot be read on.
    ReadFailed(String),
    /// Its body is complete.
    End,
    /// The transformation has ended with a reply.
    Replied(Reply),
    /// The transformation has ended without one.
    Panicked,
}

/// The model of an [`Event`].
#[verifier::ext_equal]
pub enum StepEventV {
    Length(Option<Text>),
    Admitted,
    Refused(NeverFits),
    Data(Seq<u8>),
    NoData,
    ReadFailed(Text),
    End,
    Replied(ReplyV),
    Panicked,
}

impl View for Event {
    type V = StepEventV;

    open spec fn view(&self) -> StepEventV {
        match self {
            Event::Length(v) => StepEventV::Length(v.deep_view()),
            Event::Admitted => StepEventV::Admitted,
            Event::Refused(n) => StepEventV::Refused(*n),
            Event::Data(d) => StepEventV::Data(d@),
            Event::NoData => StepEventV::NoData,
            Event::ReadFailed(e) => StepEventV::ReadFailed(e@),
            Event::End => StepEventV::End,
            Event::Replied(r) => StepEventV::Replied(r@),
            Event::Panicked => StepEventV::Panicked,
        }
    }
}

/// What is to be done next.
#[derive(Debug)]
pub enum Action {
    /// Reserve this many bytes.
    Reserve(u64),
    /// Read the next part of the body.
    Read,
    /// Transform this body.
    Transform(Vec<u8>),
    /// Send this response.
    Respond(HttpReply),
    /// Nothing: the event does not belong to the stage.
    Nothing,
}

/// The model of an [`Action`].
#[verifier::ext_equal]
pub enum ActionV {
    Reserve(u64),
    Read,
    Transform(Seq<u8>),
    Respond(HttpV),
    Nothing,
}

impl View for Action {
    type V = ActionV;

    open spec fn view(&self) -> ActionV {
        match self {
            Action::Reserve(n) => ActionV::Reserve(*n),
            Action::Read => ActionV::Read,
            Action::Transform(b) => ActionV::Transform(b@),
            Action::Respond(r) => ActionV::Respond(r@),
            Action::Nothing => ActionV::Nothing,
        }
    }
}

/// The reply to a request whose transformation ended without one.
pub open spec fn internal_error() -> ReplyV {
    problem_of(500, "internal error: transformation panicked"@)
}

/// The next stage of a request and what is to be done, by its stage and what
/// happened: a request without a length is refused with 411, one that can never be
/// reserved with 413, and one whose body fails or exceeds its length with 400.
pub open spec fn next_step(stage: StageV, event: StepEventV, blowup: u64) -> (StageV, ActionV) {
    match (stage, event) {
        (StageV::Headers, StepEventV::Length(v)) => match declared(v) {
            None => (
                StageV::Answered,
                ActionV::Respond(denial(411, "Content-Length required"@)),
            ),
            Some(n) => (StageV::Admission(n), ActionV::Reserve(reservation_of(n, blowup))),
        },
        (StageV::Admission(n), StepEventV::Admitted) => (
            StageV::Body(n, Seq::empty()),
            ActionV::Read,
        ),
        (StageV::Admission(_), StepEventV::Refused(e)) => (
            StageV::Answered,
            ActionV::Respond(denial(413, never_fits_text(e))),
        ),
        (StageV::Body(n, b), StepEventV::Data(d)) => if b.len() + d.len() > n {
            (
                StageV::Answered,
                ActionV::Respond(denial(400, "request body exceeds Content-Length"@)),
            )
        } else {
            (StageV::Body(n, b + d), ActionV::Read)
        },
        (StageV::Body(n, b), StepEventV::NoData) => (StageV::Body(n, b), ActionV::Read),
        (StageV::Body(_, _), StepEventV::ReadFailed(e)) => (
            StageV::Answered,
            ActionV::Respond(denial(400, "failed reading request body: "@ + e)),
        ),
        (StageV::Body(_, b), StepEventV::End) => (StageV::Transforming, ActionV::Transform(b)),
        (StageV::Transforming, StepEventV::Replied(r)) => (
            StageV::Answered,
            ActionV::Respond(response_of(r)),
        ),
        (StageV::Transforming, StepEventV::Panicked) => (
            StageV::Answered,
            ActionV::Respond(response_of(internal_error())),
        ),
        (s, _) => (s, ActionV::Nothing),
    }
}

/// Whether what has been read of a body does not exceed its length.
pub open spec fn within_length(stage: StageV) -> bool {
    stage matches StageV::Body(n, b) ==> b.len() <= n
}

/// The next stage of a request and what is to be done.
pub fn transform_step(stage: Stage, event: Event, blowup: u64) -> (r: (Stage, Action))
    requires
        within_length(stage@),
    ensures
        (r.0@, r.1@) == next_step(stage@, event@, blowup),
        within_length(r.0@),
{
    match (stage, event) {
        (Stage::Headers, Event::Length(v)) => {
            let length = match &v {
                Some(s) => content_length(Some(s.as_str())),
                None => None,
            };
            match length {
                None => (
                    Stage::Answered,
                    Action::Respond(deny(411, "Content-Length required".to_string())),
                ),
                Some(n) => (Stage::Admission(n), Action::Reserve(reservation(n, blowup))),
            }
        },
        (Stage::Admission(n), Event::Admitted) => {
            let body: Vec<u8> = Vec::new();
            assert(body@ =~= Seq::<u8>::empty());
            (Stage::Body(n, body), Action::Read)
        },
        (Stage::Admission(_), Event::Refused(e)) => (
            Stage::Answered,
            Action::Respond(deny(413, e.message())),
        ),
        (Stage::Body(n, b), Event::Data(d)) => {
            if d.len() as u64 > n - b.len() as u64 {
                (
                    Stage::Answered,
                    Action::Respond(
                        deny(400, "request body exceeds Content-Length".to_string()),
                    ),
                )
            } else {
                let mut b = b;
                let mut d = d;
                let ghost (x, y) = (b@, d@);
                b.append(&mut d);
                assert(b@ =~= x + y);
                (Stage::Body(n, b), Action::Read)
            }
        },
        (Stage::Body(n, b), Event::NoData) => (Stage::Body(n, b), Action::Read),
        (Stage::Body(_, _), Event::ReadFailed(e)) => {
            let mut text = "failed reading request body: ".to_string();
            text.push_str(e.as_str());
            (Stage::Answered, Action::Respond(deny(400, text)))
        },
        (Stage::Body(_, b), Event::End) => (Stage::Transforming, Action::Transform(b)),
        (Stage::Transforming, Event::Replied(r)) => (
            Stage::Answered,
            Action::Respond(respond(r)),
        ),
        (Stage::Transforming, Event::Panicked) => (
            Stage::Answered,
            Action::Respond(
                respond(problem(500, "internal error: transformation panicked".to_string())),
            ),
        ),
        (s, _) => (s, Action::Nothing),
    }
}

/// The body that is transformed never exceeds the declared length.
pub proof fn law_body_within_length(n: u64, b: Seq<u8>, event: StepEventV, blowup: u64)
    requires
        b.len() <= n,
    ensures
        next_step(StageV::Body(n, b), event, blowup).1 matches ActionV::Transform(out) ==> out
            == b && out.len() <= n,
        within_length(next_step(StageV::Body(n, b), event, blowup).0),
{
}

/// A response before the body is complete closes the connection and is a refusal;
/// one after it keeps the connection.
pub proof fn law_refusals_close(stage: StageV, event: StepEventV, blowup: u64)
    requires
        next_step(stage, event, blowup).1 is Respond,
    ensures
        ({
            let r = next_step(stage, event, blowup).1->Respond_0;
            &&& (stage is Transforming) == !r.close
            &&& !(stage is Transforming) ==> r.status == 400 || r.status == 411 || r.status == 413
            &&& r.content_length == byte_len(r.body)
            &&& next_step(stage, event, blowup).0 == StageV::Answered
        }),
{
}

/// A reply keeps what its request reserved until its body is dropped; a refusal
/// leaves nothing reserved.
pub proof fn law_only_replies_stay_reserved(stage: StageV, event: StepEventV, blowup: u64)
    requires
        next_step(stage, event, blowup).1 is Respond,
    ensures
        next_step(stage, event, blowup).1->Respond_0.held == (stage is Transforming),
        next_step(stage, event, blowup).1->Respond_0.held
            == !next_step(stage, event, blowup).1->Respond_0.close,
{
}

/// Nothing of a body is read before its reservation is held.
pub proof fn law_reserved_before_read(stage: StageV, event: StepEventV, blowup: u64)
    requires
        next_step(stage, event, blowup).1 is Read,
    ensures
        stage is Body || (stage is Admission && event is Admitted),
{
}

} // verus!
