//! Compiling a set of spokes: their IRs and source models, the shared hub, and
//! every diagnostic.
use vstd::prelude::*;

use crate::dsl::error::{append_all, clone_span, Diagnostic, DiagnosticV, Severity};
use crate::dsl::hub::{derive_hub, derived, CanonicalModel, HubV};
use crate::dsl::ir::{build_ir, ir_diags, ir_of, model_of, scopes_ascend, IrV, MappingIr};
use crate::dsl::parse::{ParsedMapping, ParsedV};
use crate::dsl::source_model::meta::{ModelV, SourceModelMeta};
use crate::dsl::validate::{findings, validate, ValidationInput};
use crate::ordmap::{
    ascending, lemma_lookup_none, lemma_put_ascending, lemma_put_keys, lemma_put_lookup, lookup,
    put, with_member, OrdMap, TextSet, TextSetV,
};
use crate::text::Text;

verus! {

/// The adapters that generated mappers can call.
pub open spec fn adapter_names() -> TextSetV {
    with_member(Seq::empty(), "uppercase_currency"@)
}

/// The adapters that generated mappers can call.
pub fn known_adapters() -> (r: TextSet)
    ensures
        r@ == adapter_names(),
{
    let mut r: TextSet = OrdMap::new();
    r.insert("uppercase_currency".to_string(), ());
    r
}

/// One spoke to compile.
pub struct SpokeInput<'a> {
    /// The id of the spoke.
    pub id: String,
    /// Its inheritance chain, from the base to the leaf.
    pub chain: &'a [ParsedMapping],
}

impl<'a> DeepView for SpokeInput<'a> {
    type V = (Text, Seq<ParsedV>);

    open spec fn deep_view(&self) -> (Text, Seq<ParsedV>) {
        (self.id@, self.chain.deep_view())
    }
}

/// What a compilation yields.
#[derive(Debug)]
pub struct CompileOutput {
    /// The IR of each spoke.
    pub irs: OrdMap<String, MappingIr>,
    /// The source model of each spoke.
    pub sources: OrdMap<String, SourceModelMeta>,
    /// The shared hub.
    pub hub: CanonicalModel,
    /// Everything that was found.
    pub diagnostics: Vec<Diagnostic>,
}

/// The model of a [`CompileOutput`].
#[verifier::ext_equal]
pub struct CompileV {
    pub irs: Seq<(Text, IrV)>,
    pub sources: Seq<(Text, ModelV)>,
    pub hub: HubV,
    pub diags: Seq<DiagnosticV>,
}

impl View for CompileOutput {
    type V = CompileV;

    open spec fn view(&self) -> CompileV {
        CompileV {
            irs: self.irs@,
            sources: self.sources@,
            hub: self.hub@,
            diags: self.diagnostics.deep_view(),
        }
    }
}

/// Whether a list of diagnostics has an error.
pub open spec fn any_error(diags: Seq<DiagnosticV>) -> bool {
    exists|i: int| 0 <= i < diags.len() && (#[trigger] diags[i]).severity == Severity::Error
}

impl CompileOutput {
    /// Whether anything found is an error.
    pub fn has_errors(&self) -> (r: bool)
        ensures
            r == any_error(self@.diags),
    {
        let mut i: usize = 0;
        let ghost diags = self@.diags;
        while i < self.diagnostics.len()
            invariant
                i <= self.diagnostics.len(),
                diags == self.diagnostics.deep_view(),
                forall|j: int| 0 <= j < i ==> (#[trigger] diags[j]).severity != Severity::Error,
            decreases self.diagnostics.len() - i,
        {
            if self.diagnostics[i].severity == Severity::Error {
                assert(diags[i as int].severity == Severity::Error);
                return true;
            }
            i += 1;
        }
        false
    }
}

/// A diagnostic with the spoke it belongs to before its node.
pub open spec fn prefixed(spoke: Text, d: DiagnosticV) -> DiagnosticV {
    DiagnosticV {
        source_node: Some(
            match d.source_node {
                Some(node) => spoke + "::"@ + node,
                None => spoke,
            },
        ),
        ..d
    }
}

/// The diagnostics of a spoke.
pub open spec fn all_prefixed(spoke: Text, diags: Seq<DiagnosticV>) -> Seq<DiagnosticV> {
    Seq::new(diags.len(), |i: int| prefixed(spoke, diags[i]))
}

/// Puts the spoke before the node of each diagnostic.
fn prefix_spoke(spoke: &str, diags: Vec<Diagnostic>) -> (r: Vec<Diagnostic>)
    ensures
        r.deep_view() == all_prefixed(spoke@, diags.deep_view()),
{
    let mut r: Vec<Diagnostic> = Vec::new();
    let mut i: usize = 0;
    while i < diags.len()
        invariant
            i <= diags.len(),
            r.deep_view() =~= all_prefixed(spoke@, diags.deep_view()).take(i as int),
        decreases diags.len() - i,
    {
        let d = &diags[i];
        let mut place = spoke.to_string();
        if let Some(node) = &d.source_node {
            place.push_str("::");
            place.push_str(node.as_str());
        }
        let e = Diagnostic {
            code: d.code.clone(),
            severity: d.severity,
            source_node: Some(place),
            message: d.message.clone(),
            span: clone_span(&d.span),
        };
        let ghost before = r.deep_view();
        r.push(e);
        assert(r.deep_view() =~= before.push(prefixed(spoke@, d@)));
        i += 1;
    }
    assert(all_prefixed(spoke@, diags.deep_view()).take(diags.len() as int) =~= all_prefixed(
        spoke@,
        diags.deep_view(),
    ));
    r
}

/// The IRs of the first `n` spokes.
pub open spec fn irs_upto(spokes: Seq<(Text, Seq<ParsedV>)>, n: int) -> Seq<(Text, IrV)>
    decreases n,
{
    if n <= 0 {
        Seq::empty()
    } else {
        put::<String, IrV>(irs_upto(spokes, n - 1), spokes[n - 1].0, ir_of(spokes[n - 1].1))
    }
}

/// The source models of the first `n` spokes.
pub open spec fn sources_upto(spokes: Seq<(Text, Seq<ParsedV>)>, n: int) -> Seq<(Text, ModelV)>
    decreases n,
{
    if n <= 0 {
        Seq::empty()
    } else {
        put::<String, ModelV>(
            sources_upto(spokes, n - 1),
            spokes[n - 1].0,
            model_of(spokes[n - 1].1),
        )
    }
}

/// What building the first `n` spokes has found.
pub open spec fn build_findings(spokes: Seq<(Text, Seq<ParsedV>)>, n: int) -> Seq<DiagnosticV>
    decreases n,
{
    if n <= 0 {
        Seq::empty()
    } else {
        build_findings(spokes, n - 1) + all_prefixed(
            spokes[n - 1].0,
            ir_diags(spokes[n - 1].1),
        )
    }
}

/// What validating the first `n` spokes has found.
pub open spec fn spoke_findings(
    spokes: Seq<(Text, Seq<ParsedV>)>,
    irs: Seq<(Text, IrV)>,
    sources: Seq<(Text, ModelV)>,
    adapters: TextSetV,
    n: int,
) -> Seq<DiagnosticV>
    decreases n,
{
    if n <= 0 {
        Seq::empty()
    } else {
        let id = spokes[n - 1].0;
        spoke_findings(spokes, irs, sources, adapters, n - 1) + all_prefixed(
            id,
            findings(
                lookup::<String, IrV>(irs, id)->0,
                lookup::<String, ModelV>(sources, id)->0,
                adapters,
            ),
        )
    }
}

/// The values of a map, in key order.
pub open spec fn values<W>(m: Seq<(Text, W)>) -> Seq<W> {
    Seq::new(m.len(), |i: int| m[i].1)
}

/// What a set of spokes compiles to.
pub open spec fn compiled(spokes: Seq<(Text, Seq<ParsedV>)>, adapters: TextSetV) -> CompileV {
    let n = spokes.len() as int;
    let irs = irs_upto(spokes, n);
    let sources = sources_upto(spokes, n);
    let hub = derived(values(irs));
    CompileV {
        irs,
        sources,
        hub: hub.hub,
        diags: build_findings(spokes, n) + hub.diags + spoke_findings(
            spokes,
            irs,
            sources,
            adapters,
            n,
        ),
    }
}

/// Whether one of the first `n` spokes is `id`.
pub open spec fn named(spokes: Seq<(Text, Seq<ParsedV>)>, n: int, id: Text) -> bool {
    exists|k: int| 0 <= k < n && (#[trigger] spokes[k]).0 == id
}

/// Every compiled spoke is one of the spokes that were compiled.
pub proof fn lemma_ir_keys(spokes: Seq<(Text, Seq<ParsedV>)>, n: int)
    requires
        0 <= n <= spokes.len(),
    ensures
        ascending::<String, IrV>(irs_upto(spokes, n)),
        forall|j: int|
            0 <= j < irs_upto(spokes, n).len() ==> named(
                spokes,
                n,
                (#[trigger] irs_upto(spokes, n)[j]).0,
            ),
    decreases n,
{
    if n > 0 {
        lemma_ir_keys(spokes, n - 1);
        let id = spokes[n - 1].0;
        let ir = ir_of(spokes[n - 1].1);
        let before = irs_upto(spokes, n - 1);
        let after = irs_upto(spokes, n);
        lemma_put_ascending::<String, IrV>(before, id, ir);
        assert forall|j: int| 0 <= j < after.len() implies named(
            spokes,
            n,
            (#[trigger] after[j]).0,
        ) by {
            lemma_put_keys::<String, IrV>(before, id, ir, j);
            if after[j].0 != id {
                let i = choose|i: int|
                    0 <= i < before.len() && (#[trigger] before[i]).0 == after[j].0;
                assert(named(spokes, n - 1, before[i].0));
            }
        }
    }
}

/// Every spoke that was compiled has a source model.
pub proof fn lemma_source_keys(spokes: Seq<(Text, Seq<ParsedV>)>, n: int)
    requires
        0 <= n <= spokes.len(),
    ensures
        ascending::<String, ModelV>(sources_upto(spokes, n)),
        forall|id: Text| #[trigger]
            named(spokes, n, id) ==> lookup::<String, ModelV>(sources_upto(spokes, n), id) is Some,
    decreases n,
{
    if n > 0 {
        lemma_source_keys(spokes, n - 1);
        let last = spokes[n - 1].0;
        let model = model_of(spokes[n - 1].1);
        let before = sources_upto(spokes, n - 1);
        lemma_put_ascending::<String, ModelV>(before, last, model);
        assert forall|id: Text| #[trigger] named(spokes, n, id) implies lookup::<String, ModelV>(
            sources_upto(spokes, n),
            id,
        ) is Some by {
            lemma_put_lookup::<String, ModelV>(before, last, model, id);
            if id != last {
                let k = choose|k: int| 0 <= k < n && (#[trigger] spokes[k]).0 == id;
                assert(spokes[k].0 == id && k < n - 1);
                assert(named(spokes, n - 1, id));
            }
        }
    }
}

/// Every spoke has an IR and a source model, and every IR is well-formed.
pub proof fn lemma_spokes_built(spokes: Seq<(Text, Seq<ParsedV>)>, n: int)
    requires
        0 <= n <= spokes.len(),
        forall|i: int| 0 <= i < spokes.len() ==> (#[trigger] spokes[i]).1.len() > 0,
    ensures
        ascending::<String, IrV>(irs_upto(spokes, n)),
        ascending::<String, ModelV>(sources_upto(spokes, n)),
        forall|i: int|
            0 <= i < n ==> lookup::<String, IrV>(irs_upto(spokes, n), (#[trigger] spokes[i]).0)
                is Some && lookup::<String, ModelV>(sources_upto(spokes, n), spokes[i].0) is Some,
        forall|j: int|
            0 <= j < irs_upto(spokes, n).len() ==> scopes_ascend(
                (#[trigger] irs_upto(spokes, n)[j]).1.nodes,
            ),
    decreases n,
{
    if n > 0 {
        let (id, chain) = spokes[n - 1];
        let (a, b) = (irs_upto(spokes, n - 1), irs_upto(spokes, n));
        let (c, d) = (sources_upto(spokes, n - 1), sources_upto(spokes, n));
        lemma_spokes_built(spokes, n - 1);
        lemma_put_ascending::<String, IrV>(a, id, ir_of(chain));
        lemma_put_ascending::<String, ModelV>(c, id, model_of(chain));
        assert forall|i: int| 0 <= i < n implies lookup::<String, IrV>(
            b,
            (#[trigger] spokes[i]).0,
        ) is Some && lookup::<String, ModelV>(d, spokes[i].0) is Some by {
            lemma_put_lookup::<String, IrV>(a, id, ir_of(chain), spokes[i].0);
            lemma_put_lookup::<String, ModelV>(
                c,
                id,
                model_of(chain),
                spokes[i].0,
            );
        }
        crate::dsl::ir::law_ir_scopes_ascend(chain);
        crate::ordmap::lemma_slot::<String, IrV>(a, id);
        let s = crate::ordmap::slot::<String, IrV>(a, id);
        assert forall|j: int| 0 <= j < b.len() implies scopes_ascend((#[trigger] b[j]).1.nodes) by {
            if j != s {
                if crate::ordmap::has_key::<String, IrV>(a, id) || j < s {
                    assert(b[j] == a[j]);
                } else {
                    assert(b[j] == a[j - 1]);
                }
            }
        }
    }
}

/// Compiles a set of spokes.
pub fn compile(spokes: &[SpokeInput], adapters: &TextSet) -> (out: CompileOutput)
    requires
        forall|i: int| 0 <= i < spokes@.len() ==> (#[trigger] spokes@[i]).chain@.len() > 0,
    ensures
        out@ == compiled(spokes.deep_view(), adapters@),
        forall|j: int| 0 <= j < out@.irs.len() ==> scopes_ascend((#[trigger] out@.irs[j]).1.nodes),
        forall|j: int|
            0 <= j < out@.irs.len() ==> lookup::<String, ModelV>(
                out@.sources,
                (#[trigger] out@.irs[j]).0,
            ) is Some,
{
    let ghost views = spokes.deep_view();
    let mut irs: OrdMap<String, MappingIr> = OrdMap::new();
    let mut sources: OrdMap<String, SourceModelMeta> = OrdMap::new();
    let mut diagnostics: Vec<Diagnostic> = Vec::new();
    let mut i: usize = 0;
    assert(diagnostics.deep_view() =~= Seq::<DiagnosticV>::empty());
    while i < spokes.len()
        invariant
            i <= spokes@.len(),
            views == spokes.deep_view(),
            forall|k: int| 0 <= k < spokes@.len() ==> (#[trigger] spokes@[k]).chain@.len() > 0,
            irs@ == irs_upto(views, i as int),
            sources@ == sources_upto(views, i as int),
            diagnostics.deep_view() == build_findings(views, i as int),
        decreases spokes@.len() - i,
    {
        let spoke = &spokes[i];
        assert(spokes@[i as int].chain@.len() > 0);
        assert(views[i as int] == (spoke.id@, spoke.chain.deep_view()));
        let (ir, source, found) = build_ir(spoke.chain);
        append_all(&mut diagnostics, prefix_spoke(spoke.id.as_str(), found));
        irs.insert(spoke.id.clone(), ir);
        sources.insert(spoke.id.clone(), source);
        i += 1;
    }
    proof {
        assert forall|k: int| 0 <= k < views.len() implies (#[trigger] views[k]).1.len() > 0 by {
            assert(spokes@[k].chain@.len() > 0);
        }
        lemma_spokes_built(views, views.len() as int);
    }
    let mut all: Vec<&MappingIr> = Vec::new();
    let mut k: usize = 0;
    while k < irs.len()
        invariant
            k <= irs@.len(),
            all@.len() == k,
            forall|j: int| 0 <= j < k ==> (#[trigger] all@[j])@ == irs@[j].1,
        decreases irs@.len() - k,
    {
        all.push(irs.value_at(k));
        k += 1;
    }
    assert(all.deep_view() =~= values(irs@));
    let (hub, hub_found) = derive_hub(all.as_slice());
    append_all(&mut diagnostics, hub_found);
    let mut on_spokes: Vec<Diagnostic> = Vec::new();
    let mut m: usize = 0;
    assert(on_spokes.deep_view() =~= Seq::<DiagnosticV>::empty());
    while m < spokes.len()
        invariant
            m <= spokes@.len(),
            views == spokes.deep_view(),
            forall|q: int|
                0 <= q < views.len() ==> lookup::<String, IrV>(irs@, (#[trigger] views[q]).0)
                    is Some && lookup::<String, ModelV>(sources@, views[q].0) is Some,
            forall|j: int| 0 <= j < irs@.len() ==> scopes_ascend((#[trigger] irs@[j]).1.nodes),
            on_spokes.deep_view() == spoke_findings(
                views,
                irs@,
                sources@,
                adapters@,
                m as int,
            ),
        decreases spokes@.len() - m,
    {
        let spoke = &spokes[m];
        assert(views[m as int].0 == spoke.id@);
        proof {
            lemma_lookup_none::<String, IrV>(irs@, spoke.id@);
        }
        match (irs.get(&spoke.id), sources.get(&spoke.id)) {
            (Some(ir), Some(source)) => {
                let found = validate(&ValidationInput { ir, source, adapters });
                append_all(&mut on_spokes, prefix_spoke(spoke.id.as_str(), found));
            },
            _ => {},
        }
        m += 1;
    }
    append_all(&mut diagnostics, on_spokes);
    proof {
        let n = views.len() as int;
        lemma_ir_keys(views, n);
        lemma_source_keys(views, n);
        assert forall|j: int| 0 <= j < irs@.len() implies lookup::<String, ModelV>(
            sources@,
            (#[trigger] irs@[j]).0,
        ) is Some by {
            assert(named(views, n, irs@[j].0));
        }
    }
    CompileOutput { irs, sources, hub, diagnostics }
}

} // verus!
