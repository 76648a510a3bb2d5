//! Which spoke a name or a document stands for.
use vstd::prelude::*;

use crate::engine::cli::error::{CliError, CliErrorV};
use crate::engine::cli::xml::{
    customization_id, customization_of, root_element, root_of, xml_events,
};
use crate::engine::spoke::{names_of, spoke_names, Spoke, SpokeV};
use crate::text::{
    ascii_lower, chars_of, contains, find, has, index_of, join, join_strings, outcome, quote,
    quoted, same, string_of, to_ascii_lower, Text,
};

verus! {

/// Whether two texts differ only in the case of ASCII letters.
pub open spec fn alike(a: Text, b: Text) -> bool {
    ascii_lower(a) == ascii_lower(b)
}

/// Whether a name stands for a spoke: it is its name, or what its name holds before
/// the first colon, in any case.
pub open spec fn answers_to(full: Text, name: Text) -> bool {
    let i = find(full, ':');
    alike(full, name) || (i < full.len() && alike(full.take(i), name))
}

/// Whether a name stands for a spoke.
fn matches_name(full: &str, name: &str) -> (r: bool)
    ensures
        r == answers_to(full@, name@),
{
    let wanted = to_ascii_lower(name);
    if same(to_ascii_lower(full).as_str(), wanted.as_str()) {
        return true;
    }
    let chars = chars_of(full);
    let i = index_of(&chars, ':');
    if i >= chars.len() {
        return false;
    }
    assert(full@.subrange(0, i as int) =~= full@.take(i as int));
    let prefix = string_of(&chars, 0, i);
    same(to_ascii_lower(prefix.as_str()).as_str(), wanted.as_str())
}

/// The first spoke, from position `i` on, that a name stands for.
pub open spec fn spoke_from(spokes: Seq<SpokeV>, name: Text, i: int) -> int
    decreases spokes.len() - i,
{
    if i >= spokes.len() || answers_to(spokes[i].name, name) {
        i
    } else {
        spoke_from(spokes, name, i + 1)
    }
}

/// The error on a name that stands for no spoke.
pub open spec fn unknown_format(spokes: Seq<SpokeV>, name: Text) -> CliErrorV {
    CliErrorV::UnknownFormat(
        quoted(name) + " (known formats: "@ + join(names_of(spokes), ", "@) + ")"@,
    )
}

/// The spoke that a name stands for.
pub open spec fn resolved(spokes: Seq<SpokeV>, name: Text) -> Result<SpokeV, CliErrorV> {
    let i = spoke_from(spokes, name, 0);
    if i < spokes.len() {
        Ok(spokes[i])
    } else {
        Err(unknown_format(spokes, name))
    }
}

/// The spoke that a name stands for: the first whose name it is, with or without
/// the version behind the colon, in any case.
pub fn resolve_spoke<'a>(spokes: &'a [Spoke], name: &str) -> (r: Result<&'a Spoke, CliError>)
    ensures
        outcome(r) == resolved(spokes.deep_view(), name@),
{
    let ghost views = spokes.deep_view();
    let mut i: usize = 0;
    while i < spokes.len()
        invariant
            i <= spokes.len(),
            views == spokes.deep_view(),
            spoke_from(views, name@, 0) == spoke_from(views, name@, i as int),
        decreases spokes.len() - i,
    {
        assert(views[i as int] == spokes@[i as int]@);
        if matches_name(spokes[i].name(), name) {
            return Ok(&spokes[i]);
        }
        i += 1;
    }
    let mut message = quote(name);
    message.push_str(" (known formats: ");
    message.push_str(join_strings(&spoke_names(spokes), ", ").as_str());
    message.push_str(")");
    Err(CliError::UnknownFormat(message))
}

proof fn lemma_spoke_from(spokes: Seq<SpokeV>, name: Text, i: int, k: int)
    requires
        0 <= i <= k < spokes.len(),
        answers_to(spokes[k].name, name),
    ensures
        i <= spoke_from(spokes, name, i) <= k,
        answers_to(spokes[spoke_from(spokes, name, i)].name, name),
    decreases k - i,
{
    if !answers_to(spokes[i].name, name) {
        lemma_spoke_from(spokes, name, i + 1, k);
    }
}

/// The name of a spoke, in any case, stands for a spoke.
pub proof fn law_names_resolve(spokes: Seq<SpokeV>, k: int, name: Text)
    requires
        0 <= k < spokes.len(),
        alike(spokes[k].name, name),
    ensures
        resolved(spokes, name) is Ok,
        answers_to(resolved(spokes, name)->Ok_0.name, name),
{
    lemma_spoke_from(spokes, name, 0, k);
}

/// Where no earlier spoke answers to the name of a spoke, the name stands for it, in
/// any case, with or without the version.
pub proof fn law_distinct_names_resolve(spokes: Seq<SpokeV>, k: int, name: Text)
    requires
        0 <= k < spokes.len(),
        answers_to(spokes[k].name, name),
        forall|i: int| 0 <= i < k ==> !answers_to((#[trigger] spokes[i]).name, name),
    ensures
        resolved(spokes, name) == Ok::<SpokeV, CliErrorV>(spokes[k]),
{
    lemma_spoke_from(spokes, name, 0, k);
    let i = spoke_from(spokes, name, 0);
    assert(answers_to(spokes[i].name, name));
}

proof fn lemma_same_spoke(spokes: Seq<SpokeV>, a: Text, b: Text, i: int)
    requires
        0 <= i <= spokes.len(),
        alike(a, b),
    ensures
        spoke_from(spokes, a, i) == spoke_from(spokes, b, i),
    decreases spokes.len() - i,
{
    if i < spokes.len() && !answers_to(spokes[i].name, a) {
        lemma_same_spoke(spokes, a, b, i + 1);
    }
}

/// The case of a name does not matter to which spoke it stands for.
pub proof fn law_case_does_not_matter(spokes: Seq<SpokeV>, a: Text, b: Text)
    requires
        alike(a, b),
    ensures
        resolved(spokes, a) is Ok <==> resolved(spokes, b) is Ok,
        resolved(spokes, a) is Ok ==> resolved(spokes, a) == resolved(spokes, b),
{
    lemma_same_spoke(spokes, a, b, 0);
}

/// Those of the first `n` spokes whose documents have this root element.
pub open spec fn rooted(spokes: Seq<SpokeV>, root: Text, n: int) -> Seq<SpokeV>
    decreases n,
{
    if n <= 0 {
        Seq::empty()
    } else if spokes[n - 1].root == root {
        rooted(spokes, root, n - 1).push(spokes[n - 1])
    } else {
        rooted(spokes, root, n - 1)
    }
}

/// Whether one of the markers of a spoke occurs in a lower-case text, in any case.
pub open spec fn marks(spoke: SpokeV, customization: Text) -> bool {
    exists|i: int|
        0 <= i < spoke.markers.len() && has(
            customization,
            ascii_lower(#[trigger] spoke.markers[i]),
        )
}

/// Those of the first `n` spokes that have a marker in a lower-case text.
pub open spec fn marked(spokes: Seq<SpokeV>, customization: Text, n: int) -> Seq<SpokeV>
    decreases n,
{
    if n <= 0 {
        Seq::empty()
    } else if marks(spokes[n - 1], customization) {
        marked(spokes, customization, n - 1).push(spokes[n - 1])
    } else {
        marked(spokes, customization, n - 1)
    }
}

/// Those of the first `n` spokes that have no markers.
pub open spec fn unmarked(spokes: Seq<SpokeV>, n: int) -> Seq<SpokeV>
    decreases n,
{
    if n <= 0 {
        Seq::empty()
    } else if spokes[n - 1].markers.len() == 0 {
        unmarked(spokes, n - 1).push(spokes[n - 1])
    } else {
        unmarked(spokes, n - 1)
    }
}

/// Of several spokes with the same root element, those that a document may be of:
/// those with a marker in it, or else those without markers.
pub open spec fn chosen(candidates: Seq<SpokeV>, customization: Text) -> Seq<SpokeV> {
    let specific = marked(candidates, customization, candidates.len() as int);
    if specific.len() == 0 {
        unmarked(candidates, candidates.len() as int)
    } else {
        specific
    }
}

/// The spoke of a document with this root element and this `CustomizationID`.
pub open spec fn detected(
    spokes: Seq<SpokeV>,
    root: Option<Text>,
    customization: Option<Text>,
) -> Result<SpokeV, CliErrorV> {
    match root {
        None => Err(
            CliErrorV::AmbiguousSource(
                "could not detect the source format; pass --from <FORMAT>"@,
            ),
        ),
        Some(root) => {
            let candidates = rooted(spokes, root, spokes.len() as int);
            if candidates.len() == 1 {
                Ok(candidates[0])
            } else if candidates.len() == 0 {
                Err(
                    CliErrorV::AmbiguousSource(
                        "could not detect the source format for root <"@ + root
                            + ">; pass --from <FORMAT>"@,
                    ),
                )
            } else {
                let text = match customization {
                    Some(c) => ascii_lower(c),
                    None => Seq::empty(),
                };
                let best = chosen(candidates, text);
                if best.len() == 1 {
                    Ok(best[0])
                } else {
                    Err(
                        CliErrorV::AmbiguousSource(
                            "source format is ambiguous ("@ + join(names_of(candidates), ", "@)
                                + "); pass --from <FORMAT>"@,
                        ),
                    )
                }
            }
        },
    }
}

/// Whether one of the markers of a spoke occurs in a lower-case text.
fn has_marker(spoke: &Spoke, customization: &str) -> (r: bool)
    ensures
        r == marks(spoke@, customization@),
{
    let markers = spoke.detect_markers();
    let ghost views = spoke@.markers;
    let mut i: usize = 0;
    while i < markers.len()
        invariant
            i <= markers.len(),
            views == markers.deep_view(),
            views == spoke@.markers,
            forall|j: int|
                0 <= j < i ==> (has(customization@, ascii_lower(#[trigger] views[j])) == false),
        decreases markers.len() - i,
    {
        assert(views[i as int] == markers@[i as int]@);
        if contains(customization, to_ascii_lower(markers[i].as_str()).as_str()) {
            assert(marks(spoke@, customization@));
            return true;
        }
        i += 1;
    }
    false
}

/// The spokes whose documents have this root element.
fn with_root<'a>(spokes: &'a [Spoke], root: &str) -> (r: Vec<&'a Spoke>)
    ensures
        r.deep_view() == rooted(spokes.deep_view(), root@, spokes@.len() as int),
{
    let ghost views = spokes.deep_view();
    let mut r: Vec<&'a Spoke> = Vec::new();
    let mut i: usize = 0;
    assert(r.deep_view() =~= Seq::<SpokeV>::empty());
    while i < spokes.len()
        invariant
            i <= spokes.len(),
            views == spokes.deep_view(),
            r.deep_view() == rooted(views, root@, i as int),
        decreases spokes.len() - i,
    {
        assert(views[i as int] == spokes@[i as int]@);
        if same(spokes[i].root(), root) {
            let ghost before = r.deep_view();
            r.push(&spokes[i]);
            assert(r.deep_view() =~= before.push(views[i as int]));
        }
        i += 1;
    }
    r
}

/// Of several spokes, those that a document may be of.
fn choose_spokes<'a>(candidates: &Vec<&'a Spoke>, customization: &str) -> (r: Vec<&'a Spoke>)
    ensures
        r.deep_view() == chosen(candidates.deep_view(), customization@),
{
    let ghost views = candidates.deep_view();
    let mut specific: Vec<&'a Spoke> = Vec::new();
    let mut plain: Vec<&'a Spoke> = Vec::new();
    let mut i: usize = 0;
    assert(specific.deep_view() =~= Seq::<SpokeV>::empty());
    assert(plain.deep_view() =~= Seq::<SpokeV>::empty());
    while i < candidates.len()
        invariant
            i <= candidates.len(),
            views == candidates.deep_view(),
            specific.deep_view() == marked(views, customization@, i as int),
            plain.deep_view() == unmarked(views, i as int),
        decreases candidates.len() - i,
    {
        let spoke = candidates[i];
        assert(views[i as int] == spoke@);
        if has_marker(spoke, customization) {
            let ghost before = specific.deep_view();
            specific.push(spoke);
            assert(specific.deep_view() =~= before.push(views[i as int]));
        }
        assert(spoke@.markers.len() == spoke.detect_markers@.len());
        if spoke.detect_markers.len() == 0 {
            let ghost before = plain.deep_view();
            plain.push(spoke);
            assert(plain.deep_view() =~= before.push(views[i as int]));
        }
        i += 1;
    }
    assert(specific@.len() == specific.deep_view().len());
    if specific.len() == 0 {
        plain
    } else {
        specific
    }
}

/// The names of a list of spokes.
fn names_of_refs(spokes: &Vec<&Spoke>) -> (r: Vec<String>)
    ensures
        r.deep_view() == names_of(spokes.deep_view()),
{
    let ghost all = names_of(spokes.deep_view());
    let mut r: Vec<String> = Vec::new();
    let mut i: usize = 0;
    while i < spokes.len()
        invariant
            i <= spokes.len(),
            all == names_of(spokes.deep_view()),
            r.deep_view() =~= all.take(i as int),
        decreases spokes.len() - i,
    {
        let ghost before = r.deep_view();
        r.push(spokes[i].name.clone());
        assert(all[i as int] == spokes@[i as int]@.name);
        assert(r.deep_view() =~= before.push(all[i as int]));
        i += 1;
    }
    assert(all.take(i as int) =~= all);
    r
}

/// The spoke of a document, from its root element and its `CustomizationID`: the
/// only spoke with that root; else the only one of them with a marker in the
/// `CustomizationID`; else, where none has one, the only one without markers.
pub fn detect_by_signature<'a>(
    spokes: &'a [Spoke],
    root: Option<&str>,
    customization: Option<&str>,
) -> (r: Result<&'a Spoke, CliError>)
    ensures
        outcome(r) == detected(
            spokes.deep_view(),
            crate::dsl::codegen::diag::text_of(root),
            crate::dsl::codegen::diag::text_of(customization),
        ),
{
    let root = match root {
        None => {
            return Err(
                CliError::AmbiguousSource(
                    "could not detect the source format; pass --from <FORMAT>".to_string(),
                ),
            );
        },
        Some(root) => root,
    };
    let candidates = with_root(spokes, root);
    assert(candidates@.len() == candidates.deep_view().len());
    if candidates.len() == 1 {
        assert(candidates.deep_view()[0] == candidates@[0]@);
        return Ok(candidates[0]);
    }
    if candidates.len() == 0 {
        let mut message = "could not detect the source format for root <".to_string();
        message.push_str(root);
        message.push_str(">; pass --from <FORMAT>");
        return Err(CliError::AmbiguousSource(message));
    }
    let text = match customization {
        Some(c) => to_ascii_lower(c),
        None => String::new(),
    };
    let best = choose_spokes(&candidates, text.as_str());
    assert(best@.len() == best.deep_view().len());
    if best.len() == 1 {
        assert(best.deep_view()[0] == best@[0]@);
        return Ok(best[0]);
    }
    let mut message = "source format is ambiguous (".to_string();
    message.push_str(join_strings(&names_of_refs(&candidates), ", ").as_str());
    message.push_str("); pass --from <FORMAT>");
    Err(CliError::AmbiguousSource(message))
}

/// The spoke of a document.
pub open spec fn source_of(spokes: Seq<SpokeV>, bytes: Seq<u8>) -> Result<SpokeV, CliErrorV> {
    detected(
        spokes,
        root_of(xml_events(bytes)),
        customization_of(xml_events(bytes), false),
    )
}

/// The slice of an optional text.
fn as_slice(o: &Option<String>) -> (r: Option<&str>)
    ensures
        crate::dsl::codegen::diag::text_of(r) == o.deep_view(),
{
    match o {
        Some(s) => Some(s.as_str()),
        None => None,
    }
}

/// The spoke of a document, from its root element and its `CustomizationID`.
pub fn detect_source<'a>(spokes: &'a [Spoke], bytes: &[u8]) -> (r: Result<&'a Spoke, CliError>)
    ensures
        outcome(r) == source_of(spokes.deep_view(), bytes@),
{
    let root = root_element(bytes);
    let customization = customization_id(bytes);
    detect_by_signature(spokes, as_slice(&root), as_slice(&customization))
}

/// Whatever is detected has the document's root element.
pub proof fn law_detected_has_the_root(
    spokes: Seq<SpokeV>,
    root: Option<Text>,
    customization: Option<Text>,
)
    requires
        detected(spokes, root, customization) is Ok,
    ensures
        root == Some(detected(spokes, root, customization)->Ok_0.root),
        spokes.contains(detected(spokes, root, customization)->Ok_0),
{
    let r = root->0;
    lemma_rooted(spokes, r, spokes.len() as int);
    let candidates = rooted(spokes, r, spokes.len() as int);
    if candidates.len() != 1 {
        let text = match customization {
            Some(c) => ascii_lower(c),
            None => Seq::empty(),
        };
        lemma_marked(candidates, text, candidates.len() as int);
        lemma_unmarked(candidates, candidates.len() as int);
        let best = chosen(candidates, text);
        assert(candidates.contains(best[0]));
        let i = candidates.index_of(best[0]);
        assert(candidates[i].root == r);
    }
}

proof fn lemma_rooted(spokes: Seq<SpokeV>, root: Text, n: int)
    requires
        0 <= n <= spokes.len(),
    ensures
        forall|i: int|
            0 <= i < rooted(spokes, root, n).len() ==> (#[trigger] rooted(spokes, root, n)[i]).root
                == root && spokes.contains(rooted(spokes, root, n)[i]),
    decreases n,
{
    if n > 0 {
        lemma_rooted(spokes, root, n - 1);
        assert(spokes.contains(spokes[n - 1]));
        let a = rooted(spokes, root, n - 1);
        let b = rooted(spokes, root, n);
        assert forall|i: int| 0 <= i < b.len() implies (#[trigger] b[i]).root == root
            && spokes.contains(b[i]) by {
            if i < a.len() {
                assert(b[i] == a[i]);
            }
        }
    }
}

proof fn lemma_marked(spokes: Seq<SpokeV>, customization: Text, n: int)
    requires
        0 <= n <= spokes.len(),
    ensures
        forall|i: int|
            0 <= i < marked(spokes, customization, n).len() ==> spokes.contains(
                #[trigger] marked(spokes, customization, n)[i],
            ) && marks(marked(spokes, customization, n)[i], customization),
    decreases n,
{
    if n > 0 {
        lemma_marked(spokes, customization, n - 1);
        assert(spokes.contains(spokes[n - 1]));
        let a = marked(spokes, customization, n - 1);
        let b = marked(spokes, customization, n);
        assert forall|i: int| 0 <= i < b.len() implies spokes.contains(#[trigger] b[i])
            && marks(b[i], customization) by {
            if i < a.len() {
                assert(b[i] == a[i]);
            }
        }
    }
}

proof fn lemma_unmarked(spokes: Seq<SpokeV>, n: int)
    requires
        0 <= n <= spokes.len(),
    ensures
        forall|i: int|
            0 <= i < unmarked(spokes, n).len() ==> spokes.contains(
                #[trigger] unmarked(spokes, n)[i],
            )
                && unmarked(spokes, n)[i].markers.len() == 0,
    decreases n,
{
    if n > 0 {
        lemma_unmarked(spokes, n - 1);
        assert(spokes.contains(spokes[n - 1]));
        let a = unmarked(spokes, n - 1);
        let b = unmarked(spokes, n);
        assert forall|i: int| 0 <= i < b.len() implies spokes.contains(#[trigger] b[i])
            && b[i].markers.len() == 0 by {
            if i < a.len() {
                assert(b[i] == a[i]);
            }
        }
    }
}

/// A spoke with a marker in the `CustomizationID` wins over those with the same
/// root element that have none: whatever is detected then has such a marker.
pub proof fn law_marker_wins(
    spokes: Seq<SpokeV>,
    root: Text,
    customization: Text,
    k: int,
)
    requires
        0 <= k < spokes.len(),
        spokes[k].root == root,
        marks(spokes[k], ascii_lower(customization)),
        detected(spokes, Some(root), Some(customization)) is Ok,
    ensures
        marks(
            detected(spokes, Some(root), Some(customization))->Ok_0,
            ascii_lower(customization),
        ),
{
    let n = spokes.len() as int;
    let text = ascii_lower(customization);
    lemma_rooted_keeps(spokes, root, n, k);
    let candidates = rooted(spokes, root, n);
    let p = candidates.index_of(spokes[k]);
    if candidates.len() == 1 {
        assert(candidates[0] == spokes[k]);
    } else {
        lemma_marked_keeps(candidates, text, candidates.len() as int, p);
        lemma_marked(candidates, text, candidates.len() as int);
    }
}

proof fn lemma_rooted_keeps(spokes: Seq<SpokeV>, root: Text, n: int, k: int)
    requires
        0 <= k < n <= spokes.len(),
        spokes[k].root == root,
    ensures
        rooted(spokes, root, n).contains(spokes[k]),
    decreases n,
{
    if k < n - 1 {
        lemma_rooted_keeps(spokes, root, n - 1, k);
        let i = rooted(spokes, root, n - 1).index_of(spokes[k]);
        assert(rooted(spokes, root, n)[i] == spokes[k]);
    } else {
        assert(rooted(spokes, root, n).last() == spokes[k]);
    }
}

proof fn lemma_marked_keeps(spokes: Seq<SpokeV>, customization: Text, n: int, k: int)
    requires
        0 <= k < n <= spokes.len(),
        marks(spokes[k], customization),
    ensures
        marked(spokes, customization, n).len() > 0,
    decreases n,
{
    if k < n - 1 {
        lemma_marked_keeps(spokes, customization, n - 1, k);
    }
}

} // verus!
