//! What a transformation from one spoke to another loses, known from the
//! canonical fields that the two map and require.
use vstd::prelude::*;

use crate::engine::spoke::{Spoke, SpokeV};
use crate::engine::table::{aligned, table_text};
use crate::ordmap::{ascending, member, with_member, Key, OrdMap, TextSet, TextSetV};
use crate::text::{
    decimal, decimal_of, has, join, join_strings, join_upto, lemma_has_inside, lemma_has_self,
    lemma_join_has, lt, Text,
};

verus! {

/// How a transformation ends.
#[derive(Debug, Clone, Copy, PartialEq, Eq, Structural)]
pub enum TransformState {
    /// Every required field is filled and nothing is dropped.
    Lossless,
    /// Every required field is filled, but something is dropped.
    Lossful,
    /// Some required fields are filled and some are not.
    Partial,
    /// No required field is filled.
    Error,
}

/// The word for a state.
pub open spec fn state_label(s: TransformState) -> Text {
    match s {
        TransformState::Lossless => "lossless"@,
        TransformState::Lossful => "lossful"@,
        TransformState::Partial => "partial"@,
        TransformState::Error => "error"@,
    }
}

/// The sign for a state.
pub open spec fn state_glyph(s: TransformState) -> char {
    match s {
        TransformState::Lossless => '=',
        TransformState::Lossful => '~',
        TransformState::Partial => '!',
        TransformState::Error => 'x',
    }
}

impl TransformState {
    /// The word for the state.
    pub fn label(self) -> (s: &'static str)
        ensures
            s@ == state_label(self),
    {
        match self {
            TransformState::Lossless => "lossless",
            TransformState::Lossful => "lossful",
            TransformState::Partial => "partial",
            TransformState::Error => "error",
        }
    }

    /// The sign for the state.
    pub fn glyph(self) -> (c: char)
        ensures
            c == state_glyph(self),
    {
        match self {
            TransformState::Lossless => '=',
            TransformState::Lossful => '~',
            TransformState::Partial => '!',
            TransformState::Error => 'x',
        }
    }
}

/// Whether every member of `a` is one of `b`.
pub open spec fn within(a: TextSetV, b: TextSetV) -> bool {
    forall|t: Text| #[trigger] member(a, t) ==> member(b, t)
}

/// Whether `a` and `b` have a member in common.
pub open spec fn meet(a: TextSetV, b: TextSetV) -> bool {
    exists|t: Text| #[trigger] member(a, t) && member(b, t)
}

/// How a transformation ends from a source that maps `s` to a target that maps `t`
/// and requires `r`.
pub open spec fn verdict(s: TextSetV, t: TextSetV, r: TextSetV) -> TransformState {
    if within(r, s) {
        if within(s, t) {
            TransformState::Lossless
        } else {
            TransformState::Lossful
        }
    } else if meet(r, s) {
        TransformState::Partial
    } else {
        TransformState::Error
    }
}

/// Whether every member of `a` is one of `b`.
fn is_subset(a: &TextSet, b: &TextSet) -> (r: bool)
    ensures
        r == within(a@, b@),
{
    a.sorted();
    let mut i: usize = 0;
    while i < a.len()
        invariant
            i <= a@.len(),
            ascending::<String, ()>(a@),
            forall|j: int| 0 <= j < i ==> member(b@, (#[trigger] a@[j]).0),
        decreases a@.len() - i,
    {
        if !b.contains_key(a.key_at(i)) {
            proof {
                crate::ordmap::lemma_lookup_at::<String, ()>(a@, i as int);
                assert(member(a@, a@[i as int].0));
            }
            return false;
        }
        i += 1;
    }
    proof {
        assert forall|t: Text| #[trigger] member(a@, t) implies member(b@, t) by {
            crate::ordmap::lemma_slot::<String, ()>(a@, t);
        }
    }
    true
}

/// Whether `a` and `b` have a member in common.
fn intersects(a: &TextSet, b: &TextSet) -> (r: bool)
    ensures
        r == meet(a@, b@),
{
    a.sorted();
    let mut i: usize = 0;
    while i < a.len()
        invariant
            i <= a@.len(),
            ascending::<String, ()>(a@),
            forall|j: int| 0 <= j < i ==> !member(b@, (#[trigger] a@[j]).0),
        decreases a@.len() - i,
    {
        if b.contains_key(a.key_at(i)) {
            proof {
                crate::ordmap::lemma_lookup_at::<String, ()>(a@, i as int);
                assert(member(a@, a@[i as int].0) && member(b@, a@[i as int].0));
            }
            return true;
        }
        i += 1;
    }
    proof {
        assert forall|t: Text| #[trigger] member(a@, t) implies !member(b@, t) by {
            crate::ordmap::lemma_slot::<String, ()>(a@, t);
        }
    }
    false
}

/// How a transformation ends, from the fields that the source maps, those that the
/// target maps, and those that the target requires.
pub fn classify(
    source_covers: &TextSet,
    target_covers: &TextSet,
    target_required: &TextSet,
) -> (r: TransformState)
    ensures
        r == verdict(source_covers@, target_covers@, target_required@),
{
    if is_subset(target_required, source_covers) {
        if is_subset(source_covers, target_covers) {
            TransformState::Lossless
        } else {
            TransformState::Lossful
        }
    } else if intersects(target_required, source_covers) {
        TransformState::Partial
    } else {
        TransformState::Error
    }
}

/// The set of the first `n` texts of a list.
pub open spec fn set_upto(list: Seq<Text>, n: int) -> TextSetV
    decreases n,
{
    if n <= 0 {
        Seq::empty()
    } else {
        with_member(set_upto(list, n - 1), list[n - 1])
    }
}

/// The set of the texts of a list.
pub open spec fn set_of(list: Seq<Text>) -> TextSetV {
    set_upto(list, list.len() as int)
}

/// The set of the first texts of a list is sorted and holds exactly those.
pub proof fn lemma_set_upto(list: Seq<Text>, n: int)
    requires
        0 <= n <= list.len(),
    ensures
        ascending::<String, ()>(set_upto(list, n)),
        forall|t: Text|
            #[trigger] member(set_upto(list, n), t) == list.take(n).contains(t),
    decreases n,
{
    if n > 0 {
        lemma_set_upto(list, n - 1);
        let s = set_upto(list, n - 1);
        crate::ordmap::lemma_put_ascending::<String, ()>(s, list[n - 1], ());
        assert forall|t: Text|
            #[trigger] member(set_upto(list, n), t) == list.take(n).contains(t) by {
            crate::ordmap::lemma_put_lookup::<String, ()>(s, list[n - 1], (), t);
            assert(member(s, t) == list.take(n - 1).contains(t));
            assert(list.take(n) =~= list.take(n - 1).push(list[n - 1]));
            if list.take(n).contains(t) {
                let i = list.take(n).index_of(t);
                if i < n - 1 {
                    assert(list.take(n - 1)[i] == t);
                }
            }
            if list.take(n - 1).contains(t) {
                let i = list.take(n - 1).index_of(t);
                assert(list.take(n)[i] == t);
            }
            if t == list[n - 1] {
                assert(list.take(n)[n - 1] == t);
            }
        }
    } else {
        assert(list.take(0) =~= Seq::<Text>::empty());
    }
}

/// The set of a list is sorted and holds the texts of the list.
pub proof fn lemma_set_of(list: Seq<Text>)
    ensures
        ascending::<String, ()>(set_of(list)),
        forall|t: Text| #[trigger] member(set_of(list), t) == list.contains(t),
{
    lemma_set_upto(list, list.len() as int);
    assert(list.take(list.len() as int) =~= list);
}

/// The set of the texts of a list.
pub fn text_set(list: &Vec<String>) -> (r: TextSet)
    ensures
        r@ == set_of(list.deep_view()),
{
    let ghost views = list.deep_view();
    let mut r: TextSet = OrdMap::new();
    let mut i: usize = 0;
    while i < list.len()
        invariant
            i <= list.len(),
            views == list.deep_view(),
            r@ == set_upto(views, i as int),
        decreases list.len() - i,
    {
        assert(views[i as int] == list@[i as int]@);
        r.insert(list[i].clone(), ());
        i += 1;
    }
    r
}

/// Those of the first `n` members of `a` that are not members of `b`.
pub open spec fn without_upto(a: TextSetV, b: TextSetV, n: int) -> Seq<Text>
    decreases n,
{
    if n <= 0 {
        Seq::empty()
    } else if member(b, a[n - 1].0) {
        without_upto(a, b, n - 1)
    } else {
        without_upto(a, b, n - 1).push(a[n - 1].0)
    }
}

/// The members of `a` that are not members of `b`, in order.
pub open spec fn without(a: TextSetV, b: TextSetV) -> Seq<Text> {
    without_upto(a, b, a.len() as int)
}

/// The members of `a` that are not members of `b`, in order.
fn difference(a: &TextSet, b: &TextSet) -> (r: Vec<String>)
    ensures
        r.deep_view() == without(a@, b@),
{
    let mut r: Vec<String> = Vec::new();
    let mut i: usize = 0;
    assert(r.deep_view() =~= Seq::<Text>::empty());
    while i < a.len()
        invariant
            i <= a@.len(),
            r.deep_view() == without_upto(a@, b@, i as int),
        decreases a@.len() - i,
    {
        if !b.contains_key(a.key_at(i)) {
            let ghost before = r.deep_view();
            r.push(a.key_at(i).clone());
            assert(r.deep_view() =~= before.push(a@[i as int].0));
        }
        i += 1;
    }
    r
}

/// How a transformation ends, and the fields that explain it.
#[derive(Debug, PartialEq, Eq)]
pub struct TransformReport<'a> {
    /// The spoke that is read.
    pub source: &'a Spoke,
    /// The spoke that is written.
    pub target: &'a Spoke,
    /// How the transformation ends.
    pub state: TransformState,
    /// Fields that the target requires and the source does not map, sorted.
    pub missing_required: Vec<String>,
    /// Fields that the source maps and the target does not, sorted.
    pub dropped: Vec<String>,
}

/// The model of a [`TransformReport`].
#[verifier::ext_equal]
pub struct ReportV {
    pub source: SpokeV,
    pub target: SpokeV,
    pub state: TransformState,
    pub missing: Seq<Text>,
    pub dropped: Seq<Text>,
}

impl<'a> View for TransformReport<'a> {
    type V = ReportV;

    open spec fn view(&self) -> ReportV {
        ReportV {
            source: self.source@,
            target: self.target@,
            state: self.state,
            missing: self.missing_required.deep_view(),
            dropped: self.dropped.deep_view(),
        }
    }
}

impl<'a> DeepView for TransformReport<'a> {
    type V = ReportV;

    open spec fn deep_view(&self) -> ReportV {
        self@
    }
}

/// How the transformation from one spoke to another ends, and why.
pub open spec fn report_of(source: SpokeV, target: SpokeV) -> ReportV {
    let s = set_of(source.covered);
    let t = set_of(target.covered);
    let r = set_of(target.required);
    ReportV {
        source,
        target,
        state: verdict(s, t, r),
        missing: without(r, s),
        dropped: without(s, t),
    }
}

/// How the transformation from one spoke to another ends, and why.
pub fn analyze<'a>(source: &'a Spoke, target: &'a Spoke) -> (r: TransformReport<'a>)
    ensures
        r@ == report_of(source@, target@),
{
    let s = text_set(source.covered_keys());
    let t = text_set(target.covered_keys());
    let r = text_set(target.required_keys());
    let state = classify(&s, &t, &r);
    TransformReport {
        source,
        target,
        state,
        missing_required: difference(&r, &s),
        dropped: difference(&s, &t),
    }
}

proof fn lemma_without_upto(a: TextSetV, b: TextSetV, n: int)
    requires
        0 <= n <= a.len(),
    ensures
        without_upto(a, b, n).len() == 0 <==> forall|j: int|
            0 <= j < n ==> member(b, (#[trigger] a[j]).0),
    decreases n,
{
    if n > 0 {
        lemma_without_upto(a, b, n - 1);
        if without_upto(a, b, n).len() == 0 {
            assert forall|j: int| 0 <= j < n implies member(b, (#[trigger] a[j]).0) by {}
        } else if forall|j: int| 0 <= j < n ==> member(b, (#[trigger] a[j]).0) {
            assert(member(b, a[n - 1].0));
        }
    }
}

/// Nothing is left of `a` without `b` exactly where `a` lies within `b`.
proof fn lemma_without(a: TextSetV, b: TextSetV)
    requires
        ascending::<String, ()>(a),
    ensures
        without(a, b).len() == 0 <==> within(a, b),
{
    lemma_without_upto(a, b, a.len() as int);
    if without(a, b).len() == 0 {
        assert forall|t: Text| #[trigger] member(a, t) implies member(b, t) by {
            crate::ordmap::lemma_slot::<String, ()>(a, t);
        }
    }
    if within(a, b) {
        assert forall|j: int| 0 <= j < a.len() implies member(b, (#[trigger] a[j]).0) by {
            crate::ordmap::lemma_lookup_at::<String, ()>(a, j);
            assert(member(a, a[j].0));
        }
    }
}

/// A spoke that maps what it requires loses nothing against itself.
pub proof fn law_identity_is_lossless(spoke: SpokeV)
    requires
        forall|t: Text| spoke.required.contains(t) ==> #[trigger] spoke.covered.contains(t),
    ensures
        report_of(spoke, spoke).state == TransformState::Lossless,
        report_of(spoke, spoke).missing.len() == 0,
        report_of(spoke, spoke).dropped.len() == 0,
{
    let s = set_of(spoke.covered);
    let r = set_of(spoke.required);
    lemma_set_of(spoke.covered);
    lemma_set_of(spoke.required);
    assert(within(r, s)) by {
        assert forall|t: Text| #[trigger] member(r, t) implies member(s, t) by {
            assert(spoke.required.contains(t));
            assert(spoke.covered.contains(t));
        }
    }
    lemma_without(r, s);
    lemma_without(s, s);
}

/// A target that requires nothing is never reached partially or not at all.
pub proof fn law_no_required_never_fails(source: SpokeV, target: SpokeV)
    requires
        target.required.len() == 0,
    ensures
        report_of(source, target).state == TransformState::Lossless || report_of(
            source,
            target,
        ).state == TransformState::Lossful,
{
    lemma_set_of(target.required);
    assert(within(set_of(target.required), set_of(source.covered)));
}

proof fn lemma_without_members(a: TextSetV, b: TextSetV, n: int, x: Text)
    requires
        ascending::<String, ()>(a),
        0 <= n <= a.len(),
    ensures
        without_upto(a, b, n).contains(x) <==> !member(b, x) && exists|j: int|
            0 <= j < n && (#[trigger] a[j]).0 == x,
        forall|i: int, j: int|
            0 <= i < j < without_upto(a, b, n).len() ==> lt(
                #[trigger] without_upto(a, b, n)[i],
                #[trigger] without_upto(a, b, n)[j],
            ),
        forall|i: int|
            n < a.len() && 0 <= i < without_upto(a, b, n).len() ==> lt(
                #[trigger] without_upto(a, b, n)[i],
                a[n].0,
            ),
    decreases n,
{
    if n > 0 {
        lemma_without_members(a, b, n - 1, x);
        let head = without_upto(a, b, n - 1);
        let all = without_upto(a, b, n);
        let last = a[n - 1].0;
        if head.contains(x) {
            let i = head.index_of(x);
            assert(all[i] == x);
        }
        if all.contains(x) {
            let i = all.index_of(x);
            if i < head.len() {
                assert(head[i] == x);
            } else {
                assert(a[n - 1].0 == x);
            }
        }
        if !member(b, last) {
            assert(all[all.len() - 1] == last);
        }
        if n < a.len() {
            assert(<String as Key>::before(a[n - 1].0, a[n].0));
            assert forall|i: int| 0 <= i < all.len() implies lt(#[trigger] all[i], a[n].0) by {
                if i < head.len() {
                    assert(all[i] == head[i]);
                    crate::text::lemma_lt_transitive(all[i], last, a[n].0);
                }
            }
        }
    }
}

/// The lists of a report are exact: a field is dropped exactly where the source maps
/// it and the target does not, and missing exactly where the target requires it and
/// the source does not map it. Both lists are strictly ascending.
pub proof fn law_report_lists_are_exact(source: SpokeV, target: SpokeV, x: Text)
    ensures
        ({
            let r = report_of(source, target);
            &&& r.source == source && r.target == target
            &&& r.dropped.contains(x) <==> source.covered.contains(x) && !target.covered.contains(
                x,
            )
            &&& r.missing.contains(x) <==> target.required.contains(x) && !source.covered.contains(
                x,
            )
            &&& forall|i: int, j: int|
                0 <= i < j < r.dropped.len() ==> lt(#[trigger] r.dropped[i], #[trigger] r.dropped[j])
            &&& forall|i: int, j: int|
                0 <= i < j < r.missing.len() ==> lt(#[trigger] r.missing[i], #[trigger] r.missing[j])
        }),
{
    let (s, t, r) = (set_of(source.covered), set_of(target.covered), set_of(target.required));
    lemma_set_of(source.covered);
    lemma_set_of(target.covered);
    lemma_set_of(target.required);
    lemma_without_members(s, t, s.len() as int, x);
    lemma_without_members(r, s, r.len() as int, x);
    crate::ordmap::lemma_lookup_none::<String, ()>(s, x);
    crate::ordmap::lemma_lookup_none::<String, ()>(r, x);
    assert(member(s, x) == source.covered.contains(x));
    assert(member(t, x) == target.covered.contains(x));
    assert(member(r, x) == target.required.contains(x));
}

/// A conversion is lossless where the source maps all that the target requires and
/// the target all that the source maps; lossful where only the former holds; partial
/// where the source maps some of what the target requires; and an error where it maps
/// none of it.
pub proof fn law_state_is_exact(source: SpokeV, target: SpokeV)
    ensures
        ({
            let fills = forall|x: Text|
                target.required.contains(x) ==> #[trigger] source.covered.contains(x);
            let carries = forall|x: Text|
                source.covered.contains(x) ==> #[trigger] target.covered.contains(x);
            let helps = exists|x: Text|
                target.required.contains(x) && #[trigger] source.covered.contains(x);
            match report_of(source, target).state {
                TransformState::Lossless => fills && carries,
                TransformState::Lossful => fills && !carries,
                TransformState::Partial => !fills && helps,
                TransformState::Error => !fills && !helps,
            }
        }),
{
    let (s, t, r) = (set_of(source.covered), set_of(target.covered), set_of(target.required));
    lemma_set_of(source.covered);
    lemma_set_of(target.covered);
    lemma_set_of(target.required);
    assert forall|x: Text| #[trigger] member(r, x) == target.required.contains(x) by {}
    if within(r, s) {
        assert forall|x: Text|
            target.required.contains(x) implies #[trigger] source.covered.contains(x) by {
            assert(member(r, x));
            assert(member(s, x));
        }
    } else {
        let x = choose|x: Text| #[trigger] member(r, x) && !member(s, x);
        assert(target.required.contains(x) && !source.covered.contains(x));
    }
    if within(s, t) {
        assert forall|x: Text|
            source.covered.contains(x) implies #[trigger] target.covered.contains(x) by {
            assert(member(s, x));
            assert(member(t, x));
        }
    } else {
        let x = choose|x: Text| #[trigger] member(s, x) && !member(t, x);
        assert(source.covered.contains(x) && !target.covered.contains(x));
    }
    if meet(r, s) {
        let x = choose|x: Text| #[trigger] member(r, x) && member(s, x);
        assert(target.required.contains(x) && source.covered.contains(x));
    } else if exists|x: Text| target.required.contains(x) && #[trigger] source.covered.contains(x) {
        let x = choose|x: Text|
            target.required.contains(x) && #[trigger] source.covered.contains(x);
        assert(member(r, x) && member(s, x));
    }
}

/// The fields of a report explain its state: a required field is missing exactly
/// where the state is partial or an error, and where none is missing, a field is
/// dropped exactly where the state is lossful.
pub proof fn law_report_explains_state(source: SpokeV, target: SpokeV)
    ensures
        ({
            let r = report_of(source, target);
            &&& (r.missing.len() > 0) == (r.state == TransformState::Partial || r.state
                == TransformState::Error)
            &&& r.missing.len() == 0 ==> (r.dropped.len() > 0) == (r.state
                == TransformState::Lossful)
        }),
{
    lemma_set_of(source.covered);
    lemma_set_of(target.covered);
    lemma_set_of(target.required);
    lemma_without(set_of(target.required), set_of(source.covered));
    lemma_without(set_of(source.covered), set_of(target.covered));
}

/// The reports from one source to the first `n` targets.
pub open spec fn reports_from(source: SpokeV, targets: Seq<SpokeV>, n: int) -> Seq<ReportV>
    decreases n,
{
    if n <= 0 {
        Seq::empty()
    } else {
        reports_from(source, targets, n - 1).push(report_of(source, targets[n - 1]))
    }
}

/// The reports from the first `n` sources to every target.
pub open spec fn reports_upto(sources: Seq<SpokeV>, targets: Seq<SpokeV>, n: int) -> Seq<ReportV>
    decreases n,
{
    if n <= 0 {
        Seq::empty()
    } else {
        reports_upto(sources, targets, n - 1) + reports_from(
            sources[n - 1],
            targets,
            targets.len() as int,
        )
    }
}

/// The reports from every source to every target, source by source.
pub fn analyze_all<'a>(sources: &'a [Spoke], targets: &'a [Spoke]) -> (r: Vec<
    TransformReport<'a>,
>)
    ensures
        r.deep_view() == reports_upto(
            sources.deep_view(),
            targets.deep_view(),
            sources@.len() as int,
        ),
{
    let ghost ss = sources.deep_view();
    let ghost ts = targets.deep_view();
    let mut r: Vec<TransformReport<'a>> = Vec::new();
    let mut i: usize = 0;
    assert(r.deep_view() =~= Seq::<ReportV>::empty());
    while i < sources.len()
        invariant
            i <= sources.len(),
            ss == sources.deep_view(),
            ts == targets.deep_view(),
            r.deep_view() == reports_upto(ss, ts, i as int),
        decreases sources.len() - i,
    {
        let ghost before = r.deep_view();
        let mut j: usize = 0;
        assert(before + reports_from(ss[i as int], ts, 0) =~= before);
        while j < targets.len()
            invariant
                i < sources.len(),
                j <= targets.len(),
                ss == sources.deep_view(),
                ts == targets.deep_view(),
                r.deep_view() =~= before + reports_from(ss[i as int], ts, j as int),
            decreases targets.len() - j,
        {
            let ghost here = r.deep_view();
            r.push(analyze(&sources[i], &targets[j]));
            proof {
                let one = report_of(ss[i as int], ts[j as int]);
                assert(r.deep_view() =~= here.push(one));
                let row = reports_from(ss[i as int], ts, j as int);
                assert(before + row.push(one) =~= (before + row).push(one));
            }
            j += 1;
        }
        i += 1;
    }
    r
}

/// Every pair of a source and a target has a report.
pub proof fn law_every_pair_is_reported(sources: Seq<SpokeV>, targets: Seq<SpokeV>)
    ensures
        reports_upto(sources, targets, sources.len() as int).len() == sources.len()
            * targets.len(),
{
    lemma_pairs(sources, targets, sources.len() as int);
}

proof fn lemma_pairs(sources: Seq<SpokeV>, targets: Seq<SpokeV>, n: int)
    requires
        0 <= n <= sources.len(),
    ensures
        reports_upto(sources, targets, n).len() == n * targets.len(),
    decreases n,
{
    if n > 0 {
        lemma_pairs(sources, targets, n - 1);
        lemma_row_len(sources[n - 1], targets, targets.len() as int);
        assert((n - 1) * targets.len() + targets.len() == n * targets.len()) by (nonlinear_arith);
    } else {
        assert(0 * targets.len() == 0) by (nonlinear_arith);
    }
}

proof fn lemma_row_len(source: SpokeV, targets: Seq<SpokeV>, n: int)
    requires
        0 <= n <= targets.len(),
    ensures
        reports_from(source, targets, n).len() == n,
    decreases n,
{
    if n > 0 {
        lemma_row_len(source, targets, n - 1);
    }
}

proof fn lemma_row_at(source: SpokeV, targets: Seq<SpokeV>, n: int, j: int)
    requires
        0 <= j < n <= targets.len(),
    ensures
        reports_from(source, targets, n).len() == n,
        reports_from(source, targets, n)[j] == report_of(source, targets[j]),
    decreases n,
{
    lemma_row_len(source, targets, n);
    lemma_row_len(source, targets, n - 1);
    if j < n - 1 {
        lemma_row_at(source, targets, n - 1, j);
    }
}

proof fn lemma_pair_at(sources: Seq<SpokeV>, targets: Seq<SpokeV>, n: int, i: int, j: int)
    requires
        0 <= i < n <= sources.len(),
        0 <= j < targets.len(),
    ensures
        0 <= i * targets.len() + j < reports_upto(sources, targets, n).len(),
        reports_upto(sources, targets, n)[i * targets.len() + j] == report_of(
            sources[i],
            targets[j],
        ),
    decreases n,
{
    let m = targets.len() as int;
    lemma_pairs(sources, targets, n);
    lemma_pairs(sources, targets, n - 1);
    assert(i * m + j < n * m && 0 <= i * m) by (nonlinear_arith)
        requires
            0 <= i < n,
            0 <= j < m,
    ;
    if i < n - 1 {
        lemma_pair_at(sources, targets, n - 1, i, j);
    } else {
        lemma_row_at(sources[n - 1], targets, m, j);
    }
}

/// The reports stand source by source, and for each source target by target: the
/// report of the `i`-th source and the `j`-th target is about these two.
pub proof fn law_pairs_stand_in_order(
    sources: Seq<SpokeV>,
    targets: Seq<SpokeV>,
    i: int,
    j: int,
)
    requires
        0 <= i < sources.len(),
        0 <= j < targets.len(),
    ensures
        ({
            let all = reports_upto(sources, targets, sources.len() as int);
            let k = i * targets.len() + j;
            &&& 0 <= k < all.len()
            &&& all[k].source == sources[i]
            &&& all[k].target == targets[j]
            &&& all[k] == report_of(sources[i], targets[j])
        }),
{
    lemma_pair_at(sources, targets, sources.len() as int, i, j);
}

/// No two states have the same word or the same sign.
pub proof fn law_states_look_different(a: TransformState, b: TransformState)
    requires
        a != b,
    ensures
        state_label(a) != state_label(b),
        state_glyph(a) != state_glyph(b),
{
    reveal_strlit("lossless");
    reveal_strlit("lossful");
    reveal_strlit("partial");
    reveal_strlit("error");
    assert("lossless"@.len() == 8 && "lossful"@.len() == 7 && "partial"@.len() == 7
        && "error"@.len() == 5);
    assert("lossful"@[0] == 'l' && "partial"@[0] == 'p');
}

/// The legend says of every state its sign and its word, and stands below every table.
pub proof fn law_legend_explains_every_state(reports: Seq<ReportV>, s: TransformState)
    ensures
        has(reports_text(reports), seq![state_glyph(s)] + " "@ + state_label(s)),
{
    let legend =
        "\nlegend: = lossless (no loss)  ~ lossful (fields dropped)  ! partial (some required missing)  x error (no required filled)\n"@;
    reveal_strlit(
        "\nlegend: = lossless (no loss)  ~ lossful (fields dropped)  ! partial (some required missing)  x error (no required filled)\n",
    );
    reveal_strlit(" ");
    reveal_strlit("lossless");
    reveal_strlit("lossful");
    reveal_strlit("partial");
    reveal_strlit("error");
    let front = table_text(report_header(), report_rows(reports));
    let entry = seq![state_glyph(s)] + " "@ + state_label(s);
    let at: int = match s {
        TransformState::Lossless => 9,
        TransformState::Lossful => 31,
        TransformState::Partial => 59,
        TransformState::Error => 94,
    };
    assert(legend.subrange(at, at + entry.len()) =~= entry);
    let k = front.len() + at;
    assert(reports_text(reports).subrange(k, k + entry.len()) =~= legend.subrange(
        at,
        at + entry.len(),
    ));
}

/// A report shows the names of its two formats and, where something is lost or
/// missing, the first fields by name and the number of the others.
pub proof fn law_detail_names_the_fields(r: ReportV, i: int)
    requires
        r.state != TransformState::Lossless,
        ({
            let fields = if r.state == TransformState::Lossful {
                r.dropped
            } else {
                r.missing
            };
            0 <= i < fields.len() && i < 3
        }),
    ensures
        ({
            let fields = if r.state == TransformState::Lossful {
                r.dropped
            } else {
                r.missing
            };
            &&& report_cells(r)[0] == r.source.name && report_cells(r)[1] == r.target.name
            &&& has(report_cells(r)[3], fields[i])
            &&& fields.len() > 3 ==> has(
                report_cells(r)[3],
                decimal((fields.len() - 3) as nat) + " more"@,
            )
        }),
{
    let fields = if r.state == TransformState::Lossful {
        r.dropped
    } else {
        r.missing
    };
    let shown = if fields.len() <= 3 {
        fields
    } else {
        fields.take(3)
    };
    let front = if r.state == TransformState::Lossful {
        "drops "@
    } else {
        "missing required "@
    };
    let listed = join(shown, ", "@);
    lemma_join_has(shown, ", "@, i);
    lemma_has_inside(front, listed, Seq::empty(), fields[i]);
    assert(front + listed + Seq::<char>::empty() =~= front + listed);
    if fields.len() > 3 {
        let count = decimal((fields.len() - 3) as nat);
        let rest = ", (+"@ + count + " more)"@;
        lemma_has_inside(front, listed, rest, fields[i]);
        assert(front + (listed + ", (+"@ + count + " more)"@) =~= front + listed + rest);
        reveal_strlit(" more)");
        reveal_strlit(" more");
        let tail = seq![')'];
        let part = count + " more"@;
        assert(" more)"@ =~= " more"@ + tail);
        let before = front + listed + ", (+"@;
        assert(front + listed + rest =~= before + part + tail);
        lemma_has_self(part);
        lemma_has_inside(before, part, tail, part);
    }
}

/// Up to three fields, and how many more there are.
pub open spec fn fields_text(fields: Seq<Text>) -> Text {
    if fields.len() <= 3 {
        join(fields, ", "@)
    } else {
        join(fields.take(3), ", "@) + ", (+"@ + decimal((fields.len() - 3) as nat) + " more)"@
    }
}

/// Up to three fields, and how many more there are.
pub fn join_fields(fields: &Vec<String>) -> (out: String)
    ensures
        out@ == fields_text(fields.deep_view()),
{
    if fields.len() <= 3 {
        join_strings(fields, ", ")
    } else {
        let mut out = join_upto(fields, 3, ", ");
        out.push_str(", (+");
        out.push_str(decimal_of((fields.len() - 3) as u64).as_str());
        out.push_str(" more)");
        out
    }
}

/// What a transformation costs.
pub open spec fn detail_text(r: ReportV) -> Text {
    match r.state {
        TransformState::Lossless => "—"@,
        TransformState::Lossful => "drops "@ + fields_text(r.dropped),
        _ => "missing required "@ + fields_text(r.missing),
    }
}

/// What a transformation costs.
fn detail(r: &TransformReport) -> (out: String)
    ensures
        out@ == detail_text(r@),
{
    match r.state {
        TransformState::Lossless => "—".to_string(),
        TransformState::Lossful => {
            let mut out = "drops ".to_string();
            out.push_str(join_fields(&r.dropped).as_str());
            out
        },
        TransformState::Partial | TransformState::Error => {
            let mut out = "missing required ".to_string();
            out.push_str(join_fields(&r.missing_required).as_str());
            out
        },
    }
}

/// The cells of a report.
pub open spec fn report_cells(r: ReportV) -> Seq<Text> {
    seq![
        r.source.name,
        r.target.name,
        Seq::<char>::empty().push(state_glyph(r.state)) + " "@ + state_label(r.state),
        detail_text(r),
    ]
}

/// The cells of a list of reports.
pub open spec fn report_rows(reports: Seq<ReportV>) -> Seq<Seq<Text>> {
    Seq::new(reports.len(), |i: int| report_cells(reports[i]))
}

/// The names of the columns.
pub open spec fn report_header() -> Seq<Text> {
    seq!["SOURCE"@, "TARGET"@, "STATE"@, "DETAIL"@]
}

/// The table of a list of reports, with a legend.
pub open spec fn reports_text(reports: Seq<ReportV>) -> Text {
    table_text(report_header(), report_rows(reports))
        + "\nlegend: = lossless (no loss)  ~ lossful (fields dropped)  ! partial (some required missing)  x error (no required filled)\n"@
}

/// The cells of a report.
fn cells_of(r: &TransformReport) -> (cells: Vec<String>)
    ensures
        cells.deep_view() == report_cells(r@),
{
    let mut state = String::new();
    state.push(r.state.glyph());
    state.push_str(" ");
    state.push_str(r.state.label());
    let mut cells: Vec<String> = Vec::new();
    cells.push(r.source.name.clone());
    cells.push(r.target.name.clone());
    cells.push(state);
    cells.push(detail(r));
    assert(cells.deep_view() =~= report_cells(r@));
    cells
}

/// The table of a list of reports, with a legend.
pub fn render_table(reports: &[TransformReport]) -> (out: String)
    ensures
        out@ == reports_text(reports.deep_view()),
{
    let ghost views = reports.deep_view();
    let ghost all = report_rows(views);
    let mut header: Vec<String> = Vec::new();
    header.push("SOURCE".to_string());
    header.push("TARGET".to_string());
    header.push("STATE".to_string());
    header.push("DETAIL".to_string());
    assert(header.deep_view() =~= report_header());
    let mut rows: Vec<Vec<String>> = Vec::new();
    let mut i: usize = 0;
    while i < reports.len()
        invariant
            i <= reports.len(),
            views == reports.deep_view(),
            all == report_rows(views),
            rows.deep_view() =~= all.take(i as int),
        decreases reports.len() - i,
    {
        let ghost before = rows.deep_view();
        let cells = cells_of(&reports[i]);
        assert(all[i as int] == report_cells(reports@[i as int]@));
        rows.push(cells);
        assert(rows.deep_view() =~= before.push(all[i as int]));
        i += 1;
    }
    assert(rows.deep_view() =~= all);
    let mut out = aligned(&header, &rows);
    out.push_str(
        "\nlegend: = lossless (no loss)  ~ lossful (fields dropped)  ! partial (some required missing)  x error (no required filled)\n",
    );
    out
}

} // verus!
