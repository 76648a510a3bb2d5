//! What an invocation asks for.
use vstd::prelude::*;

use crate::text::Text;

verus! {

/// What an invocation asks for.
#[derive(Debug, Clone, PartialEq, Eq)]
pub enum Command {
    /// Transform a document.
    Transform(Args),
    /// List the formats.
    ListFormats,
    /// Report how transformations end, from one format or from all.
    Analyze(Option<String>),
    /// Show the canonical keys, of one format or of all.
    Keys(Option<String>),
    /// Print how to use the program.
    Help,
}

/// The inputs of a transformation.
#[derive(Debug, Clone, PartialEq, Eq)]
pub struct Args {
    /// The source document: a path, or `-` for standard input.
    pub input: String,
    /// The name of the target format.
    pub target_format: String,
    /// The name of the source format, if it is given.
    pub source_format: Option<String>,
    /// Where the target document goes: a path, or standard output.
    pub output: Option<String>,
}

/// The model of a [`Command`].
#[verifier::ext_equal]
pub enum CommandV {
    Transform(ArgsV),
    ListFormats,
    Analyze(Option<Text>),
    Keys(Option<Text>),
    Help,
}

/// The model of [`Args`].
#[verifier::ext_equal]
pub struct ArgsV {
    pub input: Text,
    pub target: Text,
    pub source: Option<Text>,
    pub output: Option<Text>,
}

impl View for Args {
    type V = ArgsV;

    open spec fn view(&self) -> ArgsV {
        ArgsV {
            input: self.input@,
            target: self.target_format@,
            source: self.source_format.deep_view(),
            output: self.output.deep_view(),
        }
    }
}

impl DeepView for Command {
    type V = CommandV;

    open spec fn deep_view(&self) -> CommandV {
        match self {
            Command::Transform(a) => CommandV::Transform(a@),
            Command::ListFormats => CommandV::ListFormats,
            Command::Analyze(f) => CommandV::Analyze(f.deep_view()),
            Command::Keys(f) => CommandV::Keys(f.deep_view()),
            Command::Help => CommandV::Help,
        }
    }
}

} // verus!
