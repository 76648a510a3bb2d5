//! What the engine knows of a format.
use vstd::prelude::*;

use crate::dsl::ir::{scopes_ascend, IrV, MappingIr};
use crate::dsl::meta::{clone_strings, meta_id};
use crate::dsl::report::{covered_canonical_fields, footprint, required_canonical_fields};
use crate::dsl::source_model::meta::{ModelV, SourceModelMeta};
use crate::ordmap::{TextSet, TextSetV};
use crate::text::Text;

verus! {

/// A source or target format.
#[derive(Debug, PartialEq, Eq)]
pub struct Spoke {
    /// The display name, such as `ubl-invoice:2.1`.
    pub name: String,
    /// The root element of its documents.
    pub root: String,
    /// Texts that mark a document as one of this format.
    pub detect_markers: Vec<String>,
    /// The labels of the canonical fields it maps.
    pub covered_keys: Vec<String>,
    /// The labels of the canonical fields it requires.
    pub required_keys: Vec<String>,
}

/// The model of a [`Spoke`].
#[verifier::ext_equal]
pub struct SpokeV {
    pub name: Text,
    pub root: Text,
    pub markers: Seq<Text>,
    pub covered: Seq<Text>,
    pub required: Seq<Text>,
}

impl View for Spoke {
    type V = SpokeV;

    open spec fn view(&self) -> SpokeV {
        SpokeV {
            name: self.name@,
            root: self.root@,
            markers: self.detect_markers.deep_view(),
            covered: self.covered_keys.deep_view(),
            required: self.required_keys.deep_view(),
        }
    }
}

impl DeepView for Spoke {
    type V = SpokeV;

    open spec fn deep_view(&self) -> SpokeV {
        self@
    }
}

impl Clone for Spoke {
    fn clone(&self) -> (r: Spoke)
        ensures
            r@ == self@,
    {
        Spoke {
            name: self.name.clone(),
            root: self.root.clone(),
            detect_markers: clone_strings(&self.detect_markers),
            covered_keys: clone_strings(&self.covered_keys),
            required_keys: clone_strings(&self.required_keys),
        }
    }
}

/// The members of a set, in order.
pub open spec fn members(s: TextSetV) -> Seq<Text> {
    Seq::new(s.len(), |i: int| s[i].0)
}

/// The members of a set, in order.
pub fn members_of(s: &TextSet) -> (r: Vec<String>)
    ensures
        r.deep_view() == members(s@),
{
    let ghost all = members(s@);
    let mut r: Vec<String> = Vec::new();
    let mut i: usize = 0;
    while i < s.len()
        invariant
            i <= s@.len(),
            all == members(s@),
            r.deep_view() =~= all.take(i as int),
        decreases s@.len() - i,
    {
        let ghost before = r.deep_view();
        r.push(s.key_at(i).clone());
        assert(r.deep_view() =~= before.push(all[i as int]));
        i += 1;
    }
    assert(all.take(i as int) =~= all);
    r
}

/// What the engine knows of a compiled spoke.
pub open spec fn spoke_of(ir: IrV, model: ModelV) -> SpokeV {
    SpokeV {
        name: meta_id(ir.meta),
        root: model.root,
        markers: ir.meta.detect,
        covered: members(footprint(ir, false)),
        required: members(footprint(ir, true)),
    }
}

impl Spoke {
    /// What the engine knows of a compiled spoke.
    pub fn of(ir: &MappingIr, source: &SourceModelMeta) -> (s: Spoke)
        requires
            scopes_ascend(ir@.nodes),
        ensures
            s@ == spoke_of(ir@, source@),
    {
        Spoke {
            name: ir.meta.id(),
            root: source.root.clone(),
            detect_markers: clone_strings(&ir.meta.detect),
            covered_keys: members_of(&covered_canonical_fields(ir)),
            required_keys: members_of(&required_canonical_fields(ir)),
        }
    }

    /// The display name.
    pub fn name(&self) -> (s: &str)
        ensures
            s@ == self@.name,
    {
        self.name.as_str()
    }

    /// The root element of the documents.
    pub fn root(&self) -> (s: &str)
        ensures
            s@ == self@.root,
    {
        self.root.as_str()
    }

    /// Texts that mark a document as one of this format.
    pub fn detect_markers(&self) -> (r: &Vec<String>)
        ensures
            r.deep_view() == self@.markers,
    {
        &self.detect_markers
    }

    /// The labels of the canonical fields that are mapped.
    pub fn covered_keys(&self) -> (r: &Vec<String>)
        ensures
            r.deep_view() == self@.covered,
    {
        &self.covered_keys
    }

    /// The labels of the canonical fields that are required.
    pub fn required_keys(&self) -> (r: &Vec<String>)
        ensures
            r.deep_view() == self@.required,
    {
        &self.required_keys
    }
}

/// The names of a list of spokes.
pub open spec fn names_of(spokes: Seq<SpokeV>) -> Seq<Text> {
    Seq::new(spokes.len(), |i: int| spokes[i].name)
}

/// The names of a list of spokes.
pub fn spoke_names(spokes: &[Spoke]) -> (r: Vec<String>)
    ensures
        r.deep_view() == names_of(spokes.deep_view()),
{
    let ghost all = names_of(spokes.deep_view());
    let mut r: Vec<String> = Vec::new();
    let mut i: usize = 0;
    while i < spokes.len()
        invariant
            i <= spokes.len(),
            all == names_of(spokes.deep_view()),
            r.deep_view() =~= all.take(i as int),
        decreases spokes.len() - i,
    {
        let ghost before = r.deep_view();
        r.push(spokes[i].name.clone());
        assert(all[i as int] == spokes@[i as int]@.name);
        assert(r.deep_view() =~= before.push(all[i as int]));
        i += 1;
    }
    assert(all.take(i as int) =~= all);
    r
}

} // verus!
