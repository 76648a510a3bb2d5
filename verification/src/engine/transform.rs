//! Transformation through the hub. The mappers are generated per spoke and handed
//! in; what is decided here is how their outcomes combine.
use vstd::prelude::*;

use crate::engine::spoke::Spoke;
use crate::runtime::result::{MappingDiagnostic, MappingDiagnosticV, MappingResult};
use crate::text::Text;

verus! {

/// The bytes could not be parsed or rendered.
#[derive(Debug, Clone, PartialEq, Eq)]
pub enum EngineError {
    /// The source document could not be read into its typed model.
    Deserialize(String),
    /// The target model could not be rendered.
    Serialize(String),
}

/// The model of an [`EngineError`].
pub enum EngineErrorV {
    Deserialize(Text),
    Serialize(Text),
}

impl DeepView for EngineError {
    type V = EngineErrorV;

    open spec fn deep_view(&self) -> EngineErrorV {
        match self {
            EngineError::Deserialize(m) => EngineErrorV::Deserialize(m@),
            EngineError::Serialize(m) => EngineErrorV::Serialize(m@),
        }
    }
}

/// The message of an engine error.
pub open spec fn engine_message(e: EngineErrorV) -> Text {
    match e {
        EngineErrorV::Deserialize(m) => "source deserialization failed: "@ + m,
        EngineErrorV::Serialize(m) => "target serialization failed: "@ + m,
    }
}

impl EngineError {
    /// The message of the error.
    pub fn message(&self) -> (out: String)
        ensures
            out@ == engine_message(self.deep_view()),
    {
        match self {
            EngineError::Deserialize(m) => {
                let mut out = "source deserialization failed: ".to_string();
                out.push_str(m.as_str());
                out
            },
            EngineError::Serialize(m) => {
                let mut out = "target serialization failed: ".to_string();
                out.push_str(m.as_str());
                out
            },
        }
    }
}

/// The model of a mapping result that holds a text.
#[verifier::ext_equal]
pub struct WrittenV {
    pub value: Option<Text>,
    pub diagnostics: Seq<MappingDiagnosticV>,
}

/// The model of a mapping result that holds a text.
pub open spec fn written(r: MappingResult<String>) -> WrittenV {
    WrittenV { value: r.value.deep_view(), diagnostics: r.diagnostics.deep_view() }
}

/// The model of the outcome of a transformation.
pub open spec fn transformed(r: Result<MappingResult<String>, EngineError>) -> Result<
    WrittenV,
    EngineErrorV,
> {
    match r {
        Ok(m) => Ok(written(m)),
        Err(e) => Err(e.deep_view()),
    }
}

/// The outcome of a transformation whose source was read with the diagnostics
/// `noted` and then written: an error of the writer, or its value, with its
/// diagnostics behind those of the reader.
pub open spec fn combined(
    noted: Seq<MappingDiagnosticV>,
    r: Result<WrittenV, Text>,
) -> Result<WrittenV, EngineErrorV> {
    match r {
        Ok(w) => Ok(WrittenV { value: w.value, diagnostics: noted + w.diagnostics }),
        Err(e) => Err(EngineErrorV::Serialize(e)),
    }
}

/// The model of what a writer returns.
pub open spec fn writer_result(r: Result<MappingResult<String>, String>) -> Result<WrittenV, Text> {
    match r {
        Ok(m) => Ok(written(m)),
        Err(e) => Err(e@),
    }
}

/// The outcome of a transformation, from the diagnostics of the reader and what
/// the writer returned.
pub fn combine(
    noted: Vec<MappingDiagnostic>,
    written_result: Result<MappingResult<String>, String>,
) -> (r: Result<MappingResult<String>, EngineError>)
    ensures
        transformed(r) == combined(noted.deep_view(), writer_result(written_result)),
{
    match written_result {
        Ok(m) => {
            let ghost (a, b) = (noted.deep_view(), m.diagnostics.deep_view());
            let mut diagnostics = noted;
            let mut more = m.diagnostics;
            diagnostics.append(&mut more);
            assert(diagnostics.deep_view() =~= a + b);
            Ok(MappingResult::new(m.value, diagnostics))
        },
        Err(e) => Err(EngineError::Serialize(e)),
    }
}

/// Whether `out` is what a transformation may return, given what its reader and
/// its writer may return: the reader's error; nothing but the reader's diagnostics
/// where there is no hub; else what the writer makes of the hub.
pub open spec fn may_transform<H, R, W>(
    read: R,
    write: W,
    from: Spoke,
    to: Spoke,
    bytes: &[u8],
    out: Result<WrittenV, EngineErrorV>,
) -> bool where
    R: FnOnce(&Spoke, &[u8]) -> Result<MappingResult<H>, String>,
    W: FnOnce(&Spoke, &H) -> Result<MappingResult<String>, String>,
 {
    exists|r: Result<MappingResult<H>, String>|
        #[trigger] call_ensures(read, (&from, bytes), r) && match r {
            Err(e) => out == Err::<WrittenV, EngineErrorV>(EngineErrorV::Deserialize(e@)),
            Ok(m) => match m.value {
                None => out == Ok::<WrittenV, EngineErrorV>(
                    WrittenV { value: None, diagnostics: m.diagnostics.deep_view() },
                ),
                Some(hub) => exists|w: Result<MappingResult<String>, String>|
                    #[trigger] call_ensures(write, (&to, &hub), w) && out == combined(
                        m.diagnostics.deep_view(),
                        writer_result(w),
                    ),
            },
        }
}

/// The engine. It holds no state.
#[derive(Debug, Clone, Copy, PartialEq, Eq, Structural)]
pub struct Engine;

impl Default for Engine {
    fn default() -> (e: Engine)
        ensures
            e == Engine,
    {
        Engine
    }
}

impl Engine {
    /// An engine.
    pub fn new() -> (e: Engine)
        ensures
            e == Engine,
    {
        Engine
    }

    /// Reads a document into the hub.
    pub fn to_hub<H, R>(&self, spoke: &Spoke, bytes: &[u8], read: R) -> (r: Result<
        MappingResult<H>,
        EngineError,
    >) where R: FnOnce(&Spoke, &[u8]) -> Result<MappingResult<H>, String>
        requires
            call_requires(read, (spoke, bytes)),
        ensures
            match r {
                Ok(m) => call_ensures(read, (spoke, bytes), Ok(m)),
                Err(e) => e matches EngineError::Deserialize(text) && call_ensures(
                    read,
                    (spoke, bytes),
                    Err(text),
                ),
            },
    {
        match read(spoke, bytes) {
            Ok(m) => Ok(m),
            Err(text) => Err(EngineError::Deserialize(text)),
        }
    }

    /// Writes the hub as a document.
    pub fn from_hub<H, W>(&self, spoke: &Spoke, hub: &H, write: W) -> (r: Result<
        MappingResult<String>,
        EngineError,
    >) where W: FnOnce(&Spoke, &H) -> Result<MappingResult<String>, String>
        requires
            call_requires(write, (spoke, hub)),
        ensures
            match r {
                Ok(m) => call_ensures(write, (spoke, hub), Ok(m)),
                Err(e) => e matches EngineError::Serialize(text) && call_ensures(
                    write,
                    (spoke, hub),
                    Err(text),
                ),
            },
    {
        match write(spoke, hub) {
            Ok(m) => Ok(m),
            Err(text) => Err(EngineError::Serialize(text)),
        }
    }

    /// Transforms a document from one format to another through the hub. The
    /// diagnostics of the reader come before those of the writer.
    pub fn transform<H, R, W>(
        &self,
        from: &Spoke,
        to: &Spoke,
        bytes: &[u8],
        read: R,
        write: W,
    ) -> (r: Result<MappingResult<String>, EngineError>) where
        R: FnOnce(&Spoke, &[u8]) -> Result<MappingResult<H>, String>,
        W: FnOnce(&Spoke, &H) -> Result<MappingResult<String>, String>,

        requires
            call_requires(read, (from, bytes)),
            forall|m: MappingResult<H>|
                #[trigger] call_ensures(read, (from, bytes), Ok::<MappingResult<H>, String>(m))
                    && m.value is Some ==> call_requires(write, (to, &m.value->0)),
        ensures
            may_transform(read, write, *from, *to, bytes, transformed(r)),
    {
        match read(from, bytes) {
            Err(text) => Err(EngineError::Deserialize(text)),
            Ok(m) => {
                let ghost noted = m.diagnostics.deep_view();
                match m.value {
                    None => {
                        assert(written(MappingResult { value: None, diagnostics: m.diagnostics })
                            == (WrittenV { value: None, diagnostics: noted }));
                        Ok(MappingResult::new(None, m.diagnostics))
                    },
                    Some(hub) => {
                        let w = write(to, &hub);
                        combine(m.diagnostics, w)
                    },
                }
            },
        }
    }
}

} // verus!
