//! How an invocation fails, and the exit codes.
use vstd::prelude::*;

use crate::engine::transform::{engine_message, EngineError};
use crate::text::Text;

verus! {

/// How an invocation fails.
#[derive(Debug, Clone, PartialEq, Eq)]
pub enum CliError {
    /// The arguments make no sense.
    Usage(String),
    /// No spoke has this name.
    UnknownFormat(String),
    /// The source format cannot be told.
    AmbiguousSource(String),
    /// Reading or writing failed.
    Io(String),
    /// The bytes could not be parsed or rendered.
    Engine(String),
    /// The mapping noted errors.
    Mapping(String),
}

/// The model of a [`CliError`].
#[verifier::ext_equal]
pub enum CliErrorV {
    Usage(Text),
    UnknownFormat(Text),
    AmbiguousSource(Text),
    Io(Text),
    Engine(Text),
    Mapping(Text),
}

impl DeepView for CliError {
    type V = CliErrorV;

    open spec fn deep_view(&self) -> CliErrorV {
        match self {
            CliError::Usage(m) => CliErrorV::Usage(m@),
            CliError::UnknownFormat(m) => CliErrorV::UnknownFormat(m@),
            CliError::AmbiguousSource(m) => CliErrorV::AmbiguousSource(m@),
            CliError::Io(m) => CliErrorV::Io(m@),
            CliError::Engine(m) => CliErrorV::Engine(m@),
            CliError::Mapping(m) => CliErrorV::Mapping(m@),
        }
    }
}

/// The message of an error.
pub open spec fn cli_message(e: CliErrorV) -> Text {
    match e {
        CliErrorV::Usage(m) => "usage error: "@ + m,
        CliErrorV::UnknownFormat(m) => "unknown format: "@ + m,
        CliErrorV::AmbiguousSource(m) => m,
        CliErrorV::Io(m) => "io error: "@ + m,
        CliErrorV::Engine(m) => "engine error: "@ + m,
        CliErrorV::Mapping(m) => m,
    }
}

/// The exit code of an error.
pub open spec fn code_of(e: CliErrorV) -> i32 {
    match e {
        CliErrorV::Usage(_) => 64,
        CliErrorV::UnknownFormat(_) => 64,
        CliErrorV::AmbiguousSource(_) => 64,
        CliErrorV::Io(_) => 74,
        CliErrorV::Engine(_) => 65,
        CliErrorV::Mapping(_) => 65,
    }
}

/// A text behind a prefix.
fn prefixed(prefix: &str, m: &str) -> (out: String)
    ensures
        out@ == prefix@ + m@,
{
    let mut out = prefix.to_string();
    out.push_str(m);
    out
}

impl CliError {
    /// The message of the error.
    pub fn message(&self) -> (out: String)
        ensures
            out@ == cli_message(self.deep_view()),
    {
        match self {
            CliError::Usage(m) => prefixed("usage error: ", m.as_str()),
            CliError::UnknownFormat(m) => prefixed("unknown format: ", m.as_str()),
            CliError::AmbiguousSource(m) => m.clone(),
            CliError::Io(m) => prefixed("io error: ", m.as_str()),
            CliError::Engine(m) => prefixed("engine error: ", m.as_str()),
            CliError::Mapping(m) => m.clone(),
        }
    }

    /// The exit code of the error, as `sysexits.h` has them.
    pub fn exit_code(&self) -> (code: i32)
        ensures
            code == code_of(self.deep_view()),
    {
        match self {
            CliError::Usage(_) => 64,
            CliError::UnknownFormat(_) => 64,
            CliError::AmbiguousSource(_) => 64,
            CliError::Io(_) => 74,
            CliError::Engine(_) => 65,
            CliError::Mapping(_) => 65,
        }
    }

    /// The failure of the engine as the failure of an invocation.
    pub fn of_engine(e: &EngineError) -> (r: CliError)
        ensures
            r.deep_view() == CliErrorV::Engine(engine_message(e.deep_view())),
    {
        CliError::Engine(e.message())
    }
}

/// No error exits with success.
pub proof fn law_errors_exit_nonzero(e: CliErrorV)
    ensures
        code_of(e) != 0,
{
}

} // verus!
