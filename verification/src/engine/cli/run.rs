//! From arguments to output and exit code. Reading the input and writing the
//! output is left to the caller.
use vstd::prelude::*;

use crate::dsl::codegen::diag::text_of;
use crate::engine::analysis::{analyze_all, render_table, reports_text, reports_upto};
use crate::engine::cli::command::{Args, ArgsV, Command, CommandV};
use crate::engine::cli::detect::{detect_source, resolve_spoke, resolved, source_of};
use crate::engine::cli::error::{cli_message, code_of, CliError, CliErrorV};
use crate::engine::cli::parse::{parse_args, parsed};
use crate::engine::cli::render::{
    diagnostics_text, format_list, formats_text, render_diagnostics, usage, usage_text,
};
use crate::engine::keys::{
    hub_keys, hub_keys_of, hub_keys_text, render_hub_keys, render_spoke_keys, spoke_keys,
    spoke_keys_text, view_of,
};
use crate::engine::spoke::{Spoke, SpokeV};
use crate::engine::transform::{
    engine_message, may_transform, transformed, Engine, EngineError, EngineErrorV, WrittenV,
};
use crate::runtime::result::{any_error, MappingDiagnostic, MappingDiagnosticV, MappingResult};
use crate::text::{chars_of, outcome, trim_end, trimmed_end, Text};

verus! {

/// How transformations end, from one format or from all.
pub open spec fn analyze_text(
    spokes: Seq<SpokeV>,
    source: Option<Text>,
) -> Result<Text, CliErrorV> {
    match source {
        None => Ok(reports_text(reports_upto(spokes, spokes, spokes.len() as int))),
        Some(name) => match resolved(spokes, name) {
            Err(e) => Err(e),
            Ok(s) => Ok(reports_text(reports_upto(seq![s], spokes, 1))),
        },
    }
}

/// The table of how transformations end, from one format or from all.
pub fn analyze_table(spokes: &[Spoke], source: Option<&str>) -> (r: Result<String, CliError>)
    ensures
        outcome(r) == analyze_text(spokes.deep_view(), text_of(source)),
{
    match source {
        None => Ok(render_table(analyze_all(spokes, spokes).as_slice())),
        Some(name) => match resolve_spoke(spokes, name) {
            Err(e) => Err(e),
            Ok(s) => {
                let mut one: Vec<Spoke> = Vec::new();
                one.push(s.clone());
                assert(one.deep_view() =~= seq![s@]);
                Ok(render_table(analyze_all(one.as_slice(), spokes).as_slice()))
            },
        },
    }
}

/// The canonical keys, of one format or of all.
pub open spec fn keys_text(spokes: Seq<SpokeV>, format: Option<Text>) -> Result<Text, CliErrorV> {
    match format {
        None => Ok(hub_keys_text(hub_keys_of(spokes), spokes.len())),
        Some(name) => match resolved(spokes, name) {
            Err(e) => Err(e),
            Ok(s) => Ok(spoke_keys_text(view_of(spokes, s))),
        },
    }
}

/// The canonical keys, of one format or of all.
pub fn keys_output(spokes: &[Spoke], format: Option<&str>) -> (r: Result<String, CliError>)
    ensures
        outcome(r) == keys_text(spokes.deep_view(), text_of(format)),
{
    match format {
        None => {
            assert(spokes.deep_view().len() == spokes@.len());
            Ok(render_hub_keys(hub_keys(spokes).as_slice(), spokes.len()))
        },
        Some(name) => match resolve_spoke(spokes, name) {
            Err(e) => Err(e),
            Ok(s) => Ok(render_spoke_keys(&spoke_keys(spokes, s))),
        },
    }
}

/// What a command prints that transforms nothing.
pub open spec fn command_text(spokes: Seq<SpokeV>, c: CommandV) -> Result<Text, CliErrorV> {
    match c {
        CommandV::Help => Ok(usage_text(spokes) + "\n"@),
        CommandV::ListFormats => Ok(formats_text(spokes) + "\n"@),
        CommandV::Analyze(f) => analyze_text(spokes, f),
        CommandV::Keys(f) => keys_text(spokes, f),
        CommandV::Transform(_) => Ok(Seq::empty()),
    }
}

/// The slice of an optional text.
fn as_slice(o: &Option<String>) -> (r: Option<&str>)
    ensures
        text_of(r) == o.deep_view(),
{
    match o {
        Some(s) => Some(s.as_str()),
        None => None,
    }
}

/// What a command prints that transforms nothing.
pub fn command_output(spokes: &[Spoke], c: &Command) -> (r: Result<String, CliError>)
    ensures
        outcome(r) == command_text(spokes.deep_view(), c.deep_view()),
{
    match c {
        Command::Help => {
            let mut out = usage(spokes);
            out.push_str("\n");
            Ok(out)
        },
        Command::ListFormats => {
            let mut out = format_list(spokes);
            out.push_str("\n");
            Ok(out)
        },
        Command::Analyze(f) => analyze_table(spokes, as_slice(f)),
        Command::Keys(f) => keys_output(spokes, as_slice(f)),
        Command::Transform(_) => {
            let out = String::new();
            assert(out@ =~= Seq::<char>::empty());
            Ok(out)
        },
    }
}

/// The source and the target of a transformation: the target by name, then the
/// source by name or from the document.
pub open spec fn formats_of(
    spokes: Seq<SpokeV>,
    target: Text,
    source: Option<Text>,
    bytes: Seq<u8>,
) -> Result<
    (SpokeV, SpokeV),
    CliErrorV,
> {
    match resolved(spokes, target) {
        Err(e) => Err(e),
        Ok(to) => {
            let from = match source {
                Some(name) => resolved(spokes, name),
                None => source_of(spokes, bytes),
            };
            match from {
                Err(e) => Err(e),
                Ok(from) => Ok((from, to)),
            }
        },
    }
}

/// Whether a pair of formats was found, and a spoke is its source.
pub open spec fn is_source<E>(formats: Result<(SpokeV, SpokeV), E>, spoke: SpokeV) -> bool {
    formats matches Ok(p) && p.0 == spoke
}

/// Whether a pair of formats was found, and a spoke is its target.
pub open spec fn is_target<E>(formats: Result<(SpokeV, SpokeV), E>, spoke: SpokeV) -> bool {
    formats matches Ok(p) && p.1 == spoke
}

/// Whether the arguments ask for a transformation whose source, for this input, is a
/// spoke.
pub open spec fn reads_from(
    spokes: Seq<SpokeV>,
    args: Seq<Text>,
    bytes: Seq<u8>,
    spoke: SpokeV,
) -> bool {
    parsed(args) matches Ok(CommandV::Transform(a)) && is_source(
        formats_of(spokes, a.target, a.source, bytes),
        spoke,
    )
}

/// Whether the arguments ask for a transformation whose target is a spoke.
pub open spec fn writes_to(spokes: Seq<SpokeV>, args: Seq<Text>, spoke: SpokeV) -> bool {
    parsed(args) matches Ok(CommandV::Transform(a)) && resolved(spokes, a.target) == Ok::<
        SpokeV,
        CliErrorV,
    >(spoke)
}

/// The source and the target of a transformation.
pub fn formats_for<'a>(
    spokes: &'a [Spoke],
    target: &str,
    source: Option<&str>,
    bytes: &[u8],
) -> (r: Result<(&'a Spoke, &'a Spoke), CliError>)
    ensures
        match r {
            Ok(p) => formats_of(spokes.deep_view(), target@, text_of(source), bytes@) == Ok::<
                (SpokeV, SpokeV),
                CliErrorV,
            >((p.0@, p.1@)),
            Err(e) => formats_of(spokes.deep_view(), target@, text_of(source), bytes@) == Err::<
                (SpokeV, SpokeV),
                CliErrorV,
            >(e.deep_view()),
        },
{
    let to = match resolve_spoke(spokes, target) {
        Ok(s) => s,
        Err(e) => {
            return Err(e);
        },
    };
    let from = match source {
        Some(name) => resolve_spoke(spokes, name),
        None => detect_source(spokes, bytes),
    };
    match from {
        Ok(s) => Ok((s, to)),
        Err(e) => Err(e),
    }
}

/// A text that ends in a line break.
pub open spec fn closed_line(t: Text) -> Text {
    if t.len() > 0 && t.last() == '\n' {
        t
    } else {
        t + "\n"@
    }
}

/// The problem text on diagnostics with errors.
pub open spec fn failure_text(diagnostics: Seq<MappingDiagnosticV>) -> Text {
    "transformation failed with errors:\n"@ + trim_end(diagnostics_text(diagnostics))
}

/// The problem text on diagnostics with errors.
pub fn failure_message(diagnostics: &[MappingDiagnostic]) -> (out: String)
    ensures
        out@ == failure_text(diagnostics.deep_view()),
{
    let mut out = "transformation failed with errors:\n".to_string();
    out.push_str(trimmed_end(render_diagnostics(diagnostics).as_str()).as_str());
    out
}

/// The document that a transformation yields: with a line break at its end, and
/// only where no diagnostic is an error.
pub open spec fn document_of(r: Result<WrittenV, EngineErrorV>) -> Result<
    (Text, Seq<MappingDiagnosticV>),
    CliErrorV,
> {
    match r {
        Err(e) => Err(CliErrorV::Engine(engine_message(e))),
        Ok(w) => if w.value is Some && !any_error(w.diagnostics) {
            Ok((closed_line(w.value->0), w.diagnostics))
        } else {
            Err(CliErrorV::Mapping(failure_text(w.diagnostics)))
        },
    }
}

/// The document that a transformation yields, with its diagnostics.
pub fn document(result: Result<MappingResult<String>, EngineError>) -> (r: Result<
    (String, Vec<MappingDiagnostic>),
    CliError,
>)
    ensures
        match r {
            Ok(p) => document_of(transformed(result)) == Ok::<
                (Text, Seq<MappingDiagnosticV>),
                CliErrorV,
            >((p.0@, p.1.deep_view())),
            Err(e) => document_of(transformed(result)) == Err::<
                (Text, Seq<MappingDiagnosticV>),
                CliErrorV,
            >(e.deep_view()),
        },
{
    match result {
        Err(e) => Err(CliError::of_engine(&e)),
        Ok(m) => {
            let failed = m.has_errors();
            match m.value {
                Some(xml) => {
                    if failed {
                        return Err(
                            CliError::Mapping(failure_message(m.diagnostics.as_slice())),
                        );
                    }
                    let mut xml = xml;
                    let chars = chars_of(xml.as_str());
                    if chars.len() == 0 || chars[chars.len() - 1] != '\n' {
                        xml.push_str("\n");
                    }
                    Ok((xml, m.diagnostics))
                },
                None => Err(CliError::Mapping(failure_message(m.diagnostics.as_slice()))),
            }
        },
    }
}

/// What an invocation leaves to be written, and its diagnostics.
#[derive(Debug)]
pub struct Done {
    /// What goes to standard output.
    pub stdout: String,
    /// What goes to a file, if anything does: its path and its contents.
    pub file: Option<(String, String)>,
    /// The diagnostics.
    pub diagnostics: Vec<MappingDiagnostic>,
}

/// The model of [`Done`].
#[verifier::ext_equal]
pub struct DoneV {
    pub stdout: Text,
    pub file: Option<(Text, Text)>,
    pub diagnostics: Seq<MappingDiagnosticV>,
}

impl DeepView for Done {
    type V = DoneV;

    open spec fn deep_view(&self) -> DoneV {
        DoneV {
            stdout: self.stdout@,
            file: match self.file {
                Some(f) => Some((f.0@, f.1@)),
                None => None,
            },
            diagnostics: self.diagnostics.deep_view(),
        }
    }
}

/// Only text for standard output.
pub open spec fn printed(t: Text) -> DoneV {
    DoneV { stdout: t, file: None, diagnostics: Seq::empty() }
}

/// What a transformation leaves to be written: its document, to a file if one is
/// named, else to standard output.
pub open spec fn delivered(output: Option<Text>, r: Result<WrittenV, EngineErrorV>) -> Result<
    DoneV,
    CliErrorV,
> {
    match document_of(r) {
        Err(e) => Err(e),
        Ok((xml, diagnostics)) => match output {
            Some(path) => Ok(
                DoneV { stdout: Seq::empty(), file: Some((path, xml)), diagnostics },
            ),
            None => Ok(DoneV { stdout: xml, file: None, diagnostics }),
        },
    }
}

/// What a transformation leaves to be written.
pub fn deliver(
    output: &Option<String>,
    result: Result<MappingResult<String>, EngineError>,
) -> (r: Result<Done, CliError>)
    ensures
        outcome(r) == delivered(output.deep_view(), transformed(result)),
{
    match document(result) {
        Err(e) => Err(e),
        Ok((xml, diagnostics)) => match output {
            Some(path) => {
                let stdout = String::new();
                assert(stdout@ =~= Seq::<char>::empty());
                Ok(Done { stdout, file: Some((path.clone(), xml)), diagnostics })
            },
            None => Ok(Done { stdout: xml, file: None, diagnostics }),
        },
    }
}

/// Whether a conversion of a document may end with `out`: with the error on its
/// formats, or with what a transformation between them may return.
pub open spec fn may_convert<H, R, W>(
    spokes: Seq<SpokeV>,
    args: ArgsV,
    bytes: &[u8],
    read: R,
    write: W,
    out: Result<DoneV, CliErrorV>,
) -> bool where
    R: FnOnce(&Spoke, &[u8]) -> Result<MappingResult<H>, String>,
    W: FnOnce(&Spoke, &H) -> Result<MappingResult<String>, String>,
 {
    match formats_of(spokes, args.target, args.source, bytes@) {
        Err(e) => out == Err::<DoneV, CliErrorV>(e),
        Ok((f, t)) => exists|from: Spoke, to: Spoke, w: Result<WrittenV, EngineErrorV>|
            from@ == f && to@ == t && #[trigger] may_transform::<H, R, W>(
                read,
                write,
                from,
                to,
                bytes,
                w,
            ) && out == delivered(args.output, w),
    }
}

/// Transforms a document as the arguments ask.
pub fn transform<H, R, W>(
    spokes: &[Spoke],
    args: &Args,
    bytes: &[u8],
    read: R,
    write: W,
) -> (r: Result<Done, CliError>) where
    R: FnOnce(&Spoke, &[u8]) -> Result<MappingResult<H>, String>,
    W: FnOnce(&Spoke, &H) -> Result<MappingResult<String>, String>,

    requires
        forall|s: Spoke|
            is_source(
                formats_of(spokes.deep_view(), args@.target, args@.source, bytes@),
                s@,
            ) ==> #[trigger] call_requires(read, (&s, bytes)),
        forall|s: Spoke, hub: H|
            is_target(
                formats_of(spokes.deep_view(), args@.target, args@.source, bytes@),
                s@,
            ) ==> #[trigger] call_requires(write, (&s, &hub)),
    ensures
        may_convert::<H, R, W>(spokes.deep_view(), args@, bytes, read, write, outcome(r)),
{
    let (from, to) = match formats_for(
        spokes,
        args.target_format.as_str(),
        as_slice(&args.source_format),
        bytes,
    ) {
        Ok(p) => p,
        Err(e) => {
            return Err(e);
        },
    };
    let result = Engine::new().transform(from, to, bytes, read, write);
    let ghost w = transformed(result);
    let r = deliver(&args.output, result);
    proof {
        let (f, t): (Spoke, Spoke) = (*from, *to);
        assert(f@ == from@ && t@ == to@ && may_transform::<H, R, W>(read, write, f, t, bytes, w));
    }
    r
}

/// Whether an invocation may end with `out`. Only a transformation reads input,
/// and only a transformation depends on more than the arguments and the spokes.
pub open spec fn may_dispatch<H, I, R, W>(
    spokes: Seq<SpokeV>,
    args: Seq<Text>,
    input: I,
    read: R,
    write: W,
    out: Result<DoneV, CliErrorV>,
) -> bool where
    I: FnOnce(&Args) -> Result<Vec<u8>, String>,
    R: FnOnce(&Spoke, &[u8]) -> Result<MappingResult<H>, String>,
    W: FnOnce(&Spoke, &H) -> Result<MappingResult<String>, String>,
 {
    match parsed(args) {
        Err(e) => out == Err::<DoneV, CliErrorV>(e),
        Ok(CommandV::Transform(a)) => exists|exec: Args, i: Result<Vec<u8>, String>|
            exec@ == a && #[trigger] call_ensures(input, (&exec,), i) && match i {
                Err(m) => out == Err::<DoneV, CliErrorV>(CliErrorV::Io(m@)),
                Ok(v) => exists|bytes: &[u8]|
                    bytes@ == v@ && #[trigger] may_convert::<H, R, W>(
                        spokes,
                        a,
                        bytes,
                        read,
                        write,
                        out,
                    ),
            },
        Ok(c) => out == match command_text(spokes, c) {
            Ok(t) => Ok::<DoneV, CliErrorV>(printed(t)),
            Err(e) => Err(e),
        },
    }
}

/// Does what the arguments ask; `input` reads the document of a transformation.
pub fn dispatch<H, I, R, W>(
    args: &[String],
    spokes: &[Spoke],
    input: I,
    read: R,
    write: W,
) -> (r: Result<Done, CliError>) where
    I: FnOnce(&Args) -> Result<Vec<u8>, String>,
    R: FnOnce(&Spoke, &[u8]) -> Result<MappingResult<H>, String>,
    W: FnOnce(&Spoke, &H) -> Result<MappingResult<String>, String>,

    requires
        forall|a: Args|
            parsed(args.deep_view()) == Ok::<CommandV, CliErrorV>(CommandV::Transform(a@))
                ==> #[trigger] call_requires(input, (&a,)),
        forall|s: Spoke, bytes: &[u8]|
            reads_from(spokes.deep_view(), args.deep_view(), bytes@, s@)
                ==> #[trigger] call_requires(read, (&s, bytes)),
        forall|s: Spoke, hub: H|
            writes_to(spokes.deep_view(), args.deep_view(), s@)
                ==> #[trigger] call_requires(write, (&s, &hub)),
    ensures
        may_dispatch::<H, I, R, W>(
            spokes.deep_view(),
            args.deep_view(),
            input,
            read,
            write,
            outcome(r),
        ),
{
    let command = match parse_args(args) {
        Ok(c) => c,
        Err(e) => {
            return Err(e);
        },
    };
    match &command {
        Command::Transform(a) => {
            let bytes = match input(a) {
                Ok(v) => v,
                Err(m) => {
                    return Err(CliError::Io(m));
                },
            };
            transform(spokes, a, bytes.as_slice(), read, write)
        },
        _ => match command_output(spokes, &command) {
            Ok(text) => {
                let diagnostics: Vec<MappingDiagnostic> = Vec::new();
                assert(diagnostics.deep_view() =~= Seq::<MappingDiagnosticV>::empty());
                Ok(Done { stdout: text, file: None, diagnostics })
            },
            Err(e) => Err(e),
        },
    }
}

/// How the process ends.
#[derive(Debug)]
pub struct Exit {
    /// The exit code.
    pub code: i32,
    /// What goes to standard output.
    pub stdout: String,
    /// What goes to standard error.
    pub stderr: String,
    /// What goes to a file, if anything does: its path and its contents.
    pub file: Option<(String, String)>,
}

/// The model of an [`Exit`].
#[verifier::ext_equal]
pub struct ExitV {
    pub code: i32,
    pub stdout: Text,
    pub stderr: Text,
    pub file: Option<(Text, Text)>,
}

impl View for Exit {
    type V = ExitV;

    open spec fn view(&self) -> ExitV {
        ExitV {
            code: self.code,
            stdout: self.stdout@,
            stderr: self.stderr@,
            file: match self.file {
                Some(f) => Some((f.0@, f.1@)),
                None => None,
            },
        }
    }
}

/// How the process ends: with success and the diagnostics on standard error, or
/// with the code and the message of an error and no output.
pub open spec fn exit_of(r: Result<DoneV, CliErrorV>) -> ExitV {
    match r {
        Ok(d) => ExitV {
            code: 0,
            stdout: d.stdout,
            stderr: diagnostics_text(d.diagnostics),
            file: d.file,
        },
        Err(e) => ExitV {
            code: code_of(e),
            stdout: Seq::empty(),
            stderr: cli_message(e) + "\n"@,
            file: None,
        },
    }
}

/// How the process ends.
pub fn exit(r: Result<Done, CliError>) -> (e: Exit)
    ensures
        e@ == exit_of(outcome(r)),
{
    match r {
        Ok(d) => Exit {
            code: 0,
            stdout: d.stdout,
            stderr: render_diagnostics(d.diagnostics.as_slice()),
            file: d.file,
        },
        Err(e) => {
            let mut stderr = e.message();
            stderr.push_str("\n");
            let stdout = String::new();
            assert(stdout@ =~= Seq::<char>::empty());
            Exit { code: e.exit_code(), stdout, stderr, file: None }
        },
    }
}

/// Runs the command line: what is printed and the exit code. `input` reads the
/// document of a transformation; what goes to a file or a stream is returned.
pub fn run<H, I, R, W>(
    args: &[String],
    spokes: &[Spoke],
    input: I,
    read: R,
    write: W,
) -> (r: Exit) where
    I: FnOnce(&Args) -> Result<Vec<u8>, String>,
    R: FnOnce(&Spoke, &[u8]) -> Result<MappingResult<H>, String>,
    W: FnOnce(&Spoke, &H) -> Result<MappingResult<String>, String>,

    requires
        forall|a: Args|
            parsed(args.deep_view()) == Ok::<CommandV, CliErrorV>(CommandV::Transform(a@))
                ==> #[trigger] call_requires(input, (&a,)),
        forall|s: Spoke, bytes: &[u8]|
            reads_from(spokes.deep_view(), args.deep_view(), bytes@, s@)
                ==> #[trigger] call_requires(read, (&s, bytes)),
        forall|s: Spoke, hub: H|
            writes_to(spokes.deep_view(), args.deep_view(), s@)
                ==> #[trigger] call_requires(write, (&s, &hub)),
    ensures
        exists|out: Result<DoneV, CliErrorV>|
            #[trigger] may_dispatch::<H, I, R, W>(
                spokes.deep_view(),
                args.deep_view(),
                input,
                read,
                write,
                out,
            ) && r@ == exit_of(out),
{
    let out = dispatch(args, spokes, input, read, write);
    exit(out)
}

/// A failing invocation prints nothing on standard output and writes no file.
pub proof fn law_no_output_on_error(r: Result<DoneV, CliErrorV>)
    ensures
        exit_of(r).code != 0 ==> exit_of(r).stdout.len() == 0 && exit_of(r).file is None,
        r is Err ==> exit_of(r).code != 0,
{
}

/// A transformation with an error diagnostic delivers no document.
pub proof fn law_errors_deliver_nothing(
    output: Option<Text>,
    value: Option<Text>,
    diagnostics: Seq<MappingDiagnosticV>,
)
    requires
        any_error(diagnostics),
    ensures
        delivered(output, Ok(WrittenV { value, diagnostics })) == Err::<DoneV, CliErrorV>(
            CliErrorV::Mapping(failure_text(diagnostics)),
        ),
{
}

/// A delivered document ends in a line break.
pub proof fn law_document_ends_its_line(r: Result<WrittenV, EngineErrorV>)
    requires
        document_of(r) is Ok,
    ensures
        (document_of(r)->Ok_0).0.len() > 0,
        (document_of(r)->Ok_0).0.last() == '\n',
{
    reveal_strlit("\n");
}

} // verus!
