//! The result of a mapper and the diagnostics it carries.
use vstd::prelude::*;

use crate::dsl::meta::{clone_opt, clone_strings};
use crate::text::Text;

verus! {

/// How grave a diagnostic is.
#[derive(Debug, Clone, Copy, PartialEq, Eq, Structural)]
pub enum Severity {
    /// The mapping could not satisfy a requirement.
    Error,
    /// Something worth noting that is no failure.
    Warning,
    /// Where a value came from.
    Info,
}

/// A diagnostic of a mapper run.
#[derive(Debug, PartialEq, Eq)]
pub struct MappingDiagnostic {
    /// How grave it is.
    pub severity: Severity,
    /// A stable code such as `REQUIRED_MISSING`.
    pub code: String,
    /// The node it is about.
    pub source_node: String,
    /// The canonical key involved, if any.
    pub canonical_key: Option<String>,
    /// The path in the source document, if any.
    pub source_path: Option<String>,
    /// The position inside a collection, if any.
    pub collection_index: Option<usize>,
    /// The nodes that were tried in turn.
    pub fallback_chain: Vec<String>,
    /// What happened.
    pub message: String,
}

/// The model of a [`MappingDiagnostic`].
#[verifier::ext_equal]
pub struct MappingDiagnosticV {
    pub severity: Severity,
    pub code: Text,
    pub source_node: Text,
    pub canonical_key: Option<Text>,
    pub source_path: Option<Text>,
    pub collection_index: Option<usize>,
    pub fallback_chain: Seq<Text>,
    pub message: Text,
}

impl View for MappingDiagnostic {
    type V = MappingDiagnosticV;

    open spec fn view(&self) -> MappingDiagnosticV {
        MappingDiagnosticV {
            severity: self.severity,
            code: self.code@,
            source_node: self.source_node@,
            canonical_key: self.canonical_key.deep_view(),
            source_path: self.source_path.deep_view(),
            collection_index: self.collection_index,
            fallback_chain: self.fallback_chain.deep_view(),
            message: self.message@,
        }
    }
}

impl DeepView for MappingDiagnostic {
    type V = MappingDiagnosticV;

    open spec fn deep_view(&self) -> MappingDiagnosticV {
        self@
    }
}

impl Clone for MappingDiagnostic {
    fn clone(&self) -> (r: MappingDiagnostic)
        ensures
            r@ == self@,
    {
        MappingDiagnostic {
            severity: self.severity,
            code: self.code.clone(),
            source_node: self.source_node.clone(),
            canonical_key: clone_opt(&self.canonical_key),
            source_path: clone_opt(&self.source_path),
            collection_index: self.collection_index,
            fallback_chain: clone_strings(&self.fallback_chain),
            message: self.message.clone(),
        }
    }
}

/// A diagnostic that says nothing of where the value stands.
pub open spec fn bare_diagnostic(
    severity: Severity,
    code: Text,
    source_node: Text,
    message: Text,
) -> MappingDiagnosticV {
    MappingDiagnosticV {
        severity,
        code,
        source_node,
        canonical_key: None,
        source_path: None,
        collection_index: None,
        fallback_chain: Seq::empty(),
        message,
    }
}

impl MappingDiagnostic {
    /// A diagnostic that says nothing of where the value stands.
    pub fn new(severity: Severity, code: &str, source_node: &str, message: &str) -> (d:
        MappingDiagnostic)
        ensures
            d@ == bare_diagnostic(severity, code@, source_node@, message@),
    {
        let fallback_chain: Vec<String> = Vec::new();
        assert(fallback_chain.deep_view() =~= Seq::<Text>::empty());
        MappingDiagnostic {
            severity,
            code: code.to_string(),
            source_node: source_node.to_string(),
            canonical_key: None,
            source_path: None,
            collection_index: None,
            fallback_chain,
            message: message.to_string(),
        }
    }
}

/// Whether a list of diagnostics holds an error.
pub open spec fn any_error(diagnostics: Seq<MappingDiagnosticV>) -> bool {
    exists|i: int|
        0 <= i < diagnostics.len() && (#[trigger] diagnostics[i]).severity == Severity::Error
}

/// Whether a list of diagnostics holds a warning.
pub open spec fn any_warning(diagnostics: Seq<MappingDiagnosticV>) -> bool {
    exists|i: int|
        0 <= i < diagnostics.len() && (#[trigger] diagnostics[i]).severity == Severity::Warning
}

/// The warnings among a list of diagnostics, in their order.
pub open spec fn warnings_of(diagnostics: Seq<MappingDiagnosticV>) -> Seq<MappingDiagnosticV> {
    diagnostics.filter(|d: MappingDiagnosticV| d.severity == Severity::Warning)
}

/// The warnings among a list of diagnostics are none exactly where the list holds
/// none.
pub proof fn lemma_warnings_of(diagnostics: Seq<MappingDiagnosticV>)
    ensures
        warnings_of(diagnostics).len() == 0 <==> !any_warning(diagnostics),
{
    broadcast use vstd::seq_lib::group_filter_ensures;

    let p = |d: MappingDiagnosticV| d.severity == Severity::Warning;
    let kept = diagnostics.filter(p);
    if any_warning(diagnostics) {
        let i = choose|i: int|
            0 <= i < diagnostics.len() && (#[trigger] diagnostics[i]).severity
                == Severity::Warning;
        assert(p(diagnostics[i]));
        assert(kept.contains(diagnostics[i]));
    }
    if kept.len() > 0 {
        lemma_filter_kept(diagnostics, p);
        assert(p(kept[0]));
        assert(diagnostics.contains(kept[0]));
        let i = diagnostics.index_of(kept[0]);
        assert(diagnostics[i].severity == Severity::Warning);
    }
}

/// What a filter keeps was there before.
proof fn lemma_filter_kept(
    diagnostics: Seq<MappingDiagnosticV>,
    p: spec_fn(MappingDiagnosticV) -> bool,
)
    ensures
        forall|i: int|
            0 <= i < diagnostics.filter(p).len() ==> diagnostics.contains(
                #[trigger] diagnostics.filter(p)[i],
            ),
    decreases diagnostics.len(),
{
    reveal(Seq::filter);
    if diagnostics.len() > 0 {
        let head = diagnostics.drop_last();
        lemma_filter_kept(head, p);
        let all = diagnostics.filter(p);
        assert forall|i: int| 0 <= i < all.len() implies diagnostics.contains(#[trigger] all[i]) by {
            let kept = head.filter(p);
            if i < kept.len() {
                assert(all[i] == kept[i]);
                let k = head.index_of(kept[i]);
                assert(diagnostics[k] == all[i]);
            } else {
                assert(diagnostics[diagnostics.len() - 1] == all[i]);
            }
        }
    }
}

/// The warnings among a list of diagnostics, in their order.
pub fn only_warnings(diagnostics: &Vec<MappingDiagnostic>) -> (r: Vec<MappingDiagnostic>)
    ensures
        r.deep_view() == warnings_of(diagnostics.deep_view()),
{
    let ghost views = diagnostics.deep_view();
    let mut r: Vec<MappingDiagnostic> = Vec::new();
    let mut i: usize = 0;
    proof {
        reveal(Seq::filter);
        assert(r.deep_view() =~= warnings_of(views.take(0)));
    }
    while i < diagnostics.len()
        invariant
            i <= diagnostics.len(),
            views == diagnostics.deep_view(),
            r.deep_view() == warnings_of(views.take(i as int)),
        decreases diagnostics.len() - i,
    {
        let ghost before = r.deep_view();
        proof {
            reveal(Seq::filter);
            assert(views.take(i + 1).drop_last() =~= views.take(i as int));
            assert(views.take(i + 1).last() == diagnostics@[i as int]@);
        }
        if matches!(diagnostics[i].severity, Severity::Warning) {
            r.push(diagnostics[i].clone());
            assert(r.deep_view() =~= before.push(diagnostics@[i as int]@));
        }
        i += 1;
    }
    assert(views.take(i as int) =~= views);
    r
}

/// What a mapper returns: a value, and what was noted on the way.
#[derive(Debug, Clone, PartialEq)]
pub struct MappingResult<T> {
    /// The value, if one could be built.
    pub value: Option<T>,
    /// The diagnostics, in the order in which they arose.
    pub diagnostics: Vec<MappingDiagnostic>,
}

impl<T> MappingResult<T> {
    /// A result with a value and diagnostics.
    pub fn new(value: Option<T>, diagnostics: Vec<MappingDiagnostic>) -> (r: MappingResult<T>)
        ensures
            r.value == value,
            r.diagnostics == diagnostics,
    {
        MappingResult { value, diagnostics }
    }

    /// Whether one of the diagnostics is an error.
    pub fn has_errors(&self) -> (r: bool)
        ensures
            r == any_error(self.diagnostics.deep_view()),
    {
        let ghost views = self.diagnostics.deep_view();
        let mut i: usize = 0;
        while i < self.diagnostics.len()
            invariant
                i <= self.diagnostics.len(),
                views == self.diagnostics.deep_view(),
                forall|j: int| 0 <= j < i ==> (#[trigger] views[j]).severity != Severity::Error,
            decreases self.diagnostics.len() - i,
        {
            assert(views[i as int] == self.diagnostics@[i as int]@);
            if self.diagnostics[i].severity == Severity::Error {
                assert(any_error(views));
                return true;
            }
            i += 1;
        }
        false
    }
}

} // verus!
