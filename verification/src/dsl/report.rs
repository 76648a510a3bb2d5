//! Reports over a compilation: the coverage matrix, the gaps, and the canonical
//! footprint of a spoke.
use vstd::prelude::*;

use crate::dsl::compile::{CompileOutput, CompileV};
use crate::dsl::gap_laws::{
    gaps_ascend, law_gaps_and_coverage_count, law_gaps_ascend, marks,
};
use crate::dsl::hub::{canonical_scope, canonical_scope_of, CanonicalScope, HubV, ScopeV};
use crate::dsl::ir::{scopes_ascend, IrNodesV, IrV, MappingIr};
use crate::dsl::node::{NodeId, NodeV, SourceNode};
use crate::ordmap::{
    ascending, has_key, lookup, member, put, with_member, Key, OrdMap, TextSet, TextSetV,
};
use crate::text::{join, join_strings, same, Text};

verus! {

/// A canonical field: its scope and its key.
#[derive(Debug, PartialEq, Eq, PartialOrd, Ord)]
pub struct FieldKey {
    /// Where the field stands.
    pub scope: CanonicalScope,
    /// Its canonical key.
    pub key: String,
}

/// The model of a [`FieldKey`].
pub type FieldKeyV = (ScopeV, Text);

impl DeepView for FieldKey {
    type V = FieldKeyV;

    open spec fn deep_view(&self) -> FieldKeyV {
        (self.scope@, self.key@)
    }
}

impl Clone for FieldKey {
    fn clone(&self) -> (r: FieldKey)
        ensures
            r.deep_view() == self.deep_view(),
    {
        FieldKey { scope: self.scope.clone(), key: self.key.clone() }
    }
}

impl Key for FieldKey {
    open spec fn before(a: FieldKeyV, b: FieldKeyV) -> bool {
        <(CanonicalScope, String) as Key>::before(a, b)
    }

    proof fn irreflexive(a: FieldKeyV) {
        <(CanonicalScope, String) as Key>::irreflexive(a);
    }

    proof fn transitive(a: FieldKeyV, b: FieldKeyV, c: FieldKeyV) {
        <(CanonicalScope, String) as Key>::transitive(a, b, c);
    }

    proof fn total(a: FieldKeyV, b: FieldKeyV) {
        <(CanonicalScope, String) as Key>::total(a, b);
    }

    fn precedes(&self, other: &Self) -> (r: bool) {
        let a = (self.scope.clone(), self.key.clone());
        let b = (other.scope.clone(), other.key.clone());
        assert(a.deep_view() == self.deep_view() && b.deep_view() == other.deep_view());
        a.precedes(&b)
    }

    fn equals(&self, other: &Self) -> (r: bool) {
        self.scope.same_as(&other.scope) && same(self.key.as_str(), other.key.as_str())
    }
}

/// The label of a field: the keys of the collections around it and its own,
/// separated by slashes.
pub open spec fn label_of(f: FieldKeyV) -> Text {
    match f.0 {
        None => f.1,
        Some(chain) => join(chain, "/"@) + "/"@ + f.1,
    }
}

impl FieldKey {
    /// The label of the field.
    pub fn label(&self) -> (out: String)
        ensures
            out@ == label_of(self.deep_view()),
    {
        match &self.scope {
            CanonicalScope::Root => self.key.clone(),
            CanonicalScope::Collection(chain) => {
                let mut out = join_strings(chain, "/");
                out.push_str("/");
                out.push_str(self.key.as_str());
                out
            },
        }
    }
}

// ---------------------------------------------------------------------------
// Coverage
// ---------------------------------------------------------------------------

/// Which spokes map which canonical field.
#[derive(Debug, PartialEq, Eq)]
pub struct CoverageMatrix {
    /// The spokes, in id order.
    pub spokes: Vec<String>,
    /// The spokes that map each field.
    pub rows: OrdMap<FieldKey, TextSet>,
}

/// The rows of a coverage matrix.
pub type RowsV = Seq<(FieldKeyV, TextSetV)>;

/// The model of a [`CoverageMatrix`].
#[verifier::ext_equal]
pub struct MatrixV {
    pub spokes: Seq<Text>,
    pub rows: RowsV,
}

impl View for CoverageMatrix {
    type V = MatrixV;

    open spec fn view(&self) -> MatrixV {
        MatrixV { spokes: self.spokes.deep_view(), rows: self.rows@ }
    }
}

/// The ids of the spokes.
pub open spec fn spoke_ids(irs: Seq<(Text, IrV)>) -> Seq<Text> {
    Seq::new(irs.len(), |i: int| irs[i].0)
}

/// An empty row for each of the first `n` hub fields.
pub open spec fn empty_rows(hub: HubV, n: int) -> RowsV
    decreases n,
{
    if n <= 0 {
        Seq::empty()
    } else {
        put::<FieldKey, TextSetV>(empty_rows(hub, n - 1), hub[n - 1].0, Seq::empty())
    }
}

/// The canonical field a node maps, if it maps one.
pub open spec fn mapped_field(nodes: IrNodesV, n: NodeV) -> Option<FieldKeyV> {
    match n.canonical_key {
        None => None,
        Some(key) => match canonical_scope(nodes, n.scope) {
            None => None,
            Some(scope) => Some((scope, key)),
        },
    }
}

/// The row of a field, empty if there is none.
pub open spec fn row_of(rows: RowsV, f: FieldKeyV) -> TextSetV {
    match lookup::<FieldKey, TextSetV>(rows, f) {
        Some(r) => r,
        None => Seq::empty(),
    }
}

/// The rows with the first `n` nodes of a spoke marked.
pub open spec fn marked_nodes(rows: RowsV, spoke: Text, nodes: IrNodesV, n: int) -> RowsV
    decreases n,
{
    if n <= 0 {
        rows
    } else {
        let acc = marked_nodes(rows, spoke, nodes, n - 1);
        match mapped_field(nodes, nodes[n - 1].1) {
            None => acc,
            Some(f) => put::<FieldKey, TextSetV>(acc, f, with_member(row_of(acc, f), spoke)),
        }
    }
}

/// The rows with the first `n` spokes marked.
pub open spec fn marked_spokes(rows: RowsV, irs: Seq<(Text, IrV)>, n: int) -> RowsV
    decreases n,
{
    if n <= 0 {
        rows
    } else {
        let nodes = irs[n - 1].1.nodes;
        marked_nodes(marked_spokes(rows, irs, n - 1), irs[n - 1].0, nodes, nodes.len() as int)
    }
}

/// The coverage matrix of a compilation.
pub open spec fn coverage(out: CompileV) -> MatrixV {
    MatrixV {
        spokes: spoke_ids(out.irs),
        rows: marked_spokes(
            empty_rows(out.hub, out.hub.len() as int),
            out.irs,
            out.irs.len() as int,
        ),
    }
}

/// A copy of a set of texts.
pub fn clone_set(s: &TextSet) -> (r: TextSet)
    ensures
        r@ == s@,
{
    let mut r: TextSet = OrdMap::new();
    s.sorted();
    let mut i: usize = 0;
    while i < s.len()
        invariant
            i <= s@.len(),
            ascending::<String, ()>(s@),
            r@ =~= s@.take(i as int),
        decreases s@.len() - i,
    {
        proof {
            crate::ordmap::lemma_put_last::<String, ()>(s@, i as int);
        }
        r.insert(s.key_at(i).clone(), ());
        i += 1;
    }
    r
}

/// The canonical field a node maps, if it maps one.
fn field_mapped(node: &SourceNode, ir: &MappingIr) -> (r: Option<FieldKey>)
    requires
        scopes_ascend(ir@.nodes),
    ensures
        r.deep_view() == mapped_field(ir@.nodes, node@),
{
    match &node.canonical_key {
        None => None,
        Some(key) => match canonical_scope_of(node, ir) {
            None => None,
            Some(scope) => Some(FieldKey { scope, key: key.clone() }),
        },
    }
}

/// Which spokes map which canonical field.
pub fn coverage_matrix(out: &CompileOutput) -> (m: CoverageMatrix)
    requires
        forall|j: int| 0 <= j < out@.irs.len() ==> scopes_ascend((#[trigger] out@.irs[j]).1.nodes),
    ensures
        m@ == coverage(out@),
{
    let ghost (hub, irs) = (out@.hub, out@.irs);
    let mut rows: OrdMap<FieldKey, TextSet> = OrdMap::new();
    let mut h: usize = 0;
    while h < out.hub.fields.len()
        invariant
            h <= hub.len(),
            hub == out.hub@,
            rows@ == empty_rows(hub, h as int),
        decreases hub.len() - h,
    {
        let at = out.hub.fields.key_at(h);
        let f = FieldKey { scope: at.0.clone(), key: at.1.clone() };
        assert(f.deep_view() == hub[h as int].0);
        rows.insert(f, OrdMap::new());
        h += 1;
    }
    let ghost start = rows@;
    let mut spokes: Vec<String> = Vec::new();
    let mut s: usize = 0;
    while s < out.irs.len()
        invariant
            s <= irs.len(),
            irs == out@.irs,
            forall|j: int| 0 <= j < irs.len() ==> scopes_ascend((#[trigger] irs[j]).1.nodes),
            spokes.deep_view() =~= spoke_ids(irs).take(s as int),
            rows@ == marked_spokes(start, irs, s as int),
        decreases irs.len() - s,
    {
        let spoke = out.irs.key_at(s);
        let ir = out.irs.value_at(s);
        let ghost nodes = ir@.nodes;
        assert(scopes_ascend(irs[s as int].1.nodes));
        let ghost before = spokes.deep_view();
        spokes.push(spoke.clone());
        assert(spokes.deep_view() =~= before.push(irs[s as int].0));
        let ghost base = rows@;
        let mut i: usize = 0;
        while i < ir.nodes.len()
            invariant
                i <= nodes.len(),
                nodes == ir@.nodes,
                scopes_ascend(nodes),
                rows@ == marked_nodes(base, spoke@, nodes, i as int),
            decreases nodes.len() - i,
        {
            if let Some(f) = field_mapped(ir.nodes.value_at(i), ir) {
                let mut row = match rows.get(&f) {
                    Some(r) => clone_set(r),
                    None => OrdMap::new(),
                };
                row.insert(spoke.clone(), ());
                rows.insert(f, row);
            }
            i += 1;
        }
        s += 1;
    }
    assert(spoke_ids(irs).take(irs.len() as int) =~= spoke_ids(irs));
    CoverageMatrix { spokes, rows }
}

/// Whether a spoke of a compilation maps a canonical field.
pub open spec fn maps_field(out: CompileV, spoke: Text, f: FieldKeyV) -> bool {
    exists|s: int, i: int|
        #![trigger out.irs[s].1.nodes[i]]
        0 <= s < out.irs.len() && out.irs[s].0 == spoke && 0 <= i < out.irs[s].1.nodes.len()
            && mapped_field(out.irs[s].1.nodes, out.irs[s].1.nodes[i].1) == Some(f)
}

proof fn lemma_empty_rows(hub: HubV, n: int)
    requires
        0 <= n <= hub.len(),
    ensures
        ascending::<FieldKey, TextSetV>(empty_rows(hub, n)),
        forall|f: FieldKeyV| #[trigger] row_of(empty_rows(hub, n), f) == Seq::<(Text, ())>::empty(),
    decreases n,
{
    if n > 0 {
        lemma_empty_rows(hub, n - 1);
        let a = empty_rows(hub, n - 1);
        crate::ordmap::lemma_put_ascending::<FieldKey, TextSetV>(a, hub[n - 1].0, Seq::empty());
        assert forall|f: FieldKeyV| #[trigger] row_of(empty_rows(hub, n), f) == Seq::<
            (Text, ()),
        >::empty() by {
            crate::ordmap::lemma_put_lookup::<FieldKey, TextSetV>(
                a,
                hub[n - 1].0,
                Seq::empty(),
                f,
            );
            assert(row_of(a, f) == Seq::<(Text, ())>::empty());
        }
    }
}

spec fn rows_ok(rows: RowsV) -> bool {
    &&& ascending::<FieldKey, TextSetV>(rows)
    &&& forall|f: FieldKeyV| ascending::<String, ()>(#[trigger] row_of(rows, f))
}

proof fn lemma_marked_nodes(rows: RowsV, spoke: Text, nodes: IrNodesV, n: int, f: FieldKeyV, t: Text)
    requires
        rows_ok(rows),
        0 <= n <= nodes.len(),
    ensures
        rows_ok(marked_nodes(rows, spoke, nodes, n)),
        member(row_of(marked_nodes(rows, spoke, nodes, n), f), t) <==> member(row_of(rows, f), t)
            || (t == spoke && exists|i: int|
            #![trigger nodes[i]]
            0 <= i < n && mapped_field(nodes, nodes[i].1) == Some(f)),
    decreases n,
{
    if n > 0 {
        lemma_marked_nodes(rows, spoke, nodes, n - 1, f, t);
        let a = marked_nodes(rows, spoke, nodes, n - 1);
        let b = marked_nodes(rows, spoke, nodes, n);
        if let Some(g) = mapped_field(nodes, nodes[n - 1].1) {
            let row = with_member(row_of(a, g), spoke);
            assert(ascending::<String, ()>(row_of(a, g)));
            crate::ordmap::lemma_put_ascending::<FieldKey, TextSetV>(a, g, row);
            crate::ordmap::lemma_put_ascending::<String, ()>(row_of(a, g), spoke, ());
            assert forall|h: FieldKeyV| ascending::<String, ()>(#[trigger] row_of(b, h)) by {
                crate::ordmap::lemma_put_lookup::<FieldKey, TextSetV>(a, g, row, h);
                assert(ascending::<String, ()>(row_of(a, h)));
            }
            crate::ordmap::lemma_put_lookup::<FieldKey, TextSetV>(a, g, row, f);
            crate::ordmap::lemma_put_lookup::<String, ()>(row_of(a, g), spoke, (), t);
        }
        if exists|i: int|
            #![trigger nodes[i]]
            0 <= i < n && mapped_field(nodes, nodes[i].1) == Some(f) {
            let i = choose|i: int|
                #![trigger nodes[i]]
                0 <= i < n && mapped_field(nodes, nodes[i].1) == Some(f);
            assert(i < n - 1 || i == n - 1);
        }
        assert(mapped_field(nodes, nodes[n - 1].1) == mapped_field(nodes, nodes[n - 1].1));
    }
}

proof fn lemma_marked_spokes(rows: RowsV, irs: Seq<(Text, IrV)>, n: int, f: FieldKeyV, t: Text)
    requires
        rows_ok(rows),
        0 <= n <= irs.len(),
    ensures
        rows_ok(marked_spokes(rows, irs, n)),
        member(row_of(marked_spokes(rows, irs, n), f), t) <==> member(row_of(rows, f), t) || exists|
            s: int,
            i: int,
        |
            #![trigger irs[s].1.nodes[i]]
            0 <= s < n && irs[s].0 == t && 0 <= i < irs[s].1.nodes.len() && mapped_field(
                irs[s].1.nodes,
                irs[s].1.nodes[i].1,
            ) == Some(f),
    decreases n,
{
    if n > 0 {
        lemma_marked_spokes(rows, irs, n - 1, f, t);
        let nodes = irs[n - 1].1.nodes;
        lemma_marked_nodes(
            marked_spokes(rows, irs, n - 1),
            irs[n - 1].0,
            nodes,
            nodes.len() as int,
            f,
            t,
        );
        if exists|i: int|
            #![trigger nodes[i]]
            0 <= i < nodes.len() && mapped_field(nodes, nodes[i].1) == Some(f) {
            let i = choose|i: int|
                #![trigger nodes[i]]
                0 <= i < nodes.len() && mapped_field(nodes, nodes[i].1) == Some(f);
            assert(irs[n - 1].1.nodes[i] == nodes[i]);
        }
    }
}

/// The rows of a coverage matrix ascend by field, and each by spoke.
pub proof fn lemma_coverage_rows(out: CompileV)
    ensures
        ascending::<FieldKey, TextSetV>(coverage(out).rows),
        forall|f: FieldKeyV| ascending::<String, ()>(#[trigger] row_of(coverage(out).rows, f)),
{
    let rows = empty_rows(out.hub, out.hub.len() as int);
    lemma_empty_rows(out.hub, out.hub.len() as int);
    assert(rows_ok(rows)) by {
        assert forall|g: FieldKeyV| ascending::<String, ()>(#[trigger] row_of(rows, g)) by {
            assert(row_of(rows, g) == Seq::<(Text, ())>::empty());
        }
    }
    lemma_marked_spokes(
        rows,
        out.irs,
        out.irs.len() as int,
        (None, Seq::empty()),
        Seq::empty(),
    );
}

/// A spoke stands in the row of a field exactly if one of its nodes maps the
/// field.
pub proof fn law_coverage_is_mapping(out: CompileV, spoke: Text, f: FieldKeyV)
    ensures
        member(row_of(coverage(out).rows, f), spoke) <==> maps_field(out, spoke, f),
{
    let rows = empty_rows(out.hub, out.hub.len() as int);
    lemma_empty_rows(out.hub, out.hub.len() as int);
    assert(rows_ok(rows)) by {
        assert forall|g: FieldKeyV| ascending::<String, ()>(#[trigger] row_of(rows, g)) by {
            assert(row_of(rows, g) == Seq::<(Text, ())>::empty());
        }
    }
    assert(row_of(rows, f) == Seq::<(Text, ())>::empty());
    lemma_marked_spokes(rows, out.irs, out.irs.len() as int, f, spoke);
}

// ---------------------------------------------------------------------------
// Gaps
// ---------------------------------------------------------------------------

/// A field that a spoke does not map.
#[derive(Debug, PartialEq, Eq, PartialOrd, Ord)]
pub struct Gap {
    /// The spoke.
    pub spoke: String,
    /// The field.
    pub field: FieldKey,
}

impl DeepView for Gap {
    type V = (Text, FieldKeyV);

    open spec fn deep_view(&self) -> (Text, FieldKeyV) {
        (self.spoke@, self.field.deep_view())
    }
}

/// The gaps of a spoke in the first `n` rows.
pub open spec fn gaps_of(spoke: Text, rows: RowsV, n: int) -> Seq<(Text, FieldKeyV)>
    decreases n,
{
    if n <= 0 {
        Seq::empty()
    } else {
        let head = gaps_of(spoke, rows, n - 1);
        if member(rows[n - 1].1, spoke) {
            head
        } else {
            head.push((spoke, rows[n - 1].0))
        }
    }
}

/// The gaps of the first `n` spokes.
pub open spec fn gaps_upto(spokes: Seq<Text>, rows: RowsV, n: int) -> Seq<(Text, FieldKeyV)>
    decreases n,
{
    if n <= 0 {
        Seq::empty()
    } else {
        gaps_upto(spokes, rows, n - 1) + gaps_of(spokes[n - 1], rows, rows.len() as int)
    }
}

/// The gaps of a compilation, by spoke and then by field.
pub open spec fn gaps(out: CompileV) -> Seq<(Text, FieldKeyV)> {
    let m = coverage(out);
    gaps_upto(m.spokes, m.rows, m.spokes.len() as int)
}

/// The fields that each spoke does not map, by spoke and then by field.
pub fn gap_report(out: &CompileOutput) -> (r: Vec<Gap>)
    requires
        forall|j: int| 0 <= j < out@.irs.len() ==> scopes_ascend((#[trigger] out@.irs[j]).1.nodes),
    ensures
        r.deep_view() == gaps(out@),
        gaps_ascend(r.deep_view()),
        r@.len() + marks(coverage(out@).rows, coverage(out@).rows.len() as int) == coverage(
            out@,
        ).spokes.len() * coverage(out@).rows.len(),
{
    out.irs.sorted();
    proof {
        law_gaps_ascend(out@);
        law_gaps_and_coverage_count(out@);
    }
    let matrix = coverage_matrix(out);
    let ghost (spokes, rows) = (matrix@.spokes, matrix@.rows);
    let mut r: Vec<Gap> = Vec::new();
    let mut s: usize = 0;
    assert(r.deep_view() =~= Seq::<(Text, FieldKeyV)>::empty());
    while s < matrix.spokes.len()
        invariant
            s <= matrix.spokes.len(),
            spokes == matrix.spokes.deep_view(),
            rows == matrix.rows@,
            r.deep_view() == gaps_upto(spokes, rows, s as int),
        decreases matrix.spokes.len() - s,
    {
        let spoke = &matrix.spokes[s];
        assert(spokes[s as int] == spoke@);
        let ghost before = r.deep_view();
        let mut i: usize = 0;
        assert(before =~= before + Seq::<(Text, FieldKeyV)>::empty());
        while i < matrix.rows.len()
            invariant
                i <= rows.len(),
                rows == matrix.rows@,
                r.deep_view() == before + gaps_of(spoke@, rows, i as int),
            decreases rows.len() - i,
        {
            if !matrix.rows.value_at(i).contains_key(spoke) {
                let ghost now = r.deep_view();
                let g = Gap { spoke: spoke.clone(), field: matrix.rows.key_at(i).clone() };
                r.push(g);
                assert(r.deep_view() =~= now.push(g.deep_view()));
            }
            i += 1;
            assert(r.deep_view() =~= before + gaps_of(spoke@, rows, i as int));
        }
        s += 1;
    }
    r
}

proof fn lemma_gaps_of(spoke: Text, rows: RowsV, n: int, f: FieldKeyV)
    requires
        ascending::<FieldKey, TextSetV>(rows),
        0 <= n <= rows.len(),
    ensures
        forall|j: int|
            0 <= j < gaps_of(spoke, rows, n).len() ==> (#[trigger] gaps_of(spoke, rows, n)[j]).0
                == spoke,
        gaps_of(spoke, rows, n).contains((spoke, f)) <==> exists|i: int|
            0 <= i < n && (#[trigger] rows[i]).0 == f && !member(rows[i].1, spoke),
    decreases n,
{
    if n > 0 {
        lemma_gaps_of(spoke, rows, n - 1, f);
        let a = gaps_of(spoke, rows, n - 1);
        let b = gaps_of(spoke, rows, n);
        assert forall|j: int| 0 <= j < b.len() implies (#[trigger] b[j]).0 == spoke by {
            if j < a.len() {
                assert(b[j] == a[j]);
            }
        }
        if a.contains((spoke, f)) {
            let j = a.index_of((spoke, f));
            assert(b[j] == a[j]);
        }
        if b.contains((spoke, f)) {
            let j = b.index_of((spoke, f));
            if j < a.len() {
                assert(a[j] == b[j]);
            }
        }
        if exists|i: int|
            0 <= i < n && (#[trigger] rows[i]).0 == f && !member(rows[i].1, spoke) {
            let i = choose|i: int|
                0 <= i < n && (#[trigger] rows[i]).0 == f && !member(rows[i].1, spoke);
            if i == n - 1 {
                assert(b[b.len() - 1] == (spoke, f));
            }
        }
    }
}

proof fn lemma_gaps_upto(spokes: Seq<Text>, rows: RowsV, n: int, spoke: Text, f: FieldKeyV)
    requires
        ascending::<FieldKey, TextSetV>(rows),
        0 <= n <= spokes.len(),
    ensures
        gaps_upto(spokes, rows, n).contains((spoke, f)) <==> (exists|s: int|
            0 <= s < n && #[trigger] spokes[s] == spoke) && gaps_of(
            spoke,
            rows,
            rows.len() as int,
        ).contains((spoke, f)),
    decreases n,
{
    if n > 0 {
        lemma_gaps_upto(spokes, rows, n - 1, spoke, f);
        let a = gaps_upto(spokes, rows, n - 1);
        let c = gaps_of(spokes[n - 1], rows, rows.len() as int);
        let b = a + c;
        lemma_gaps_of(spokes[n - 1], rows, rows.len() as int, f);
        if b.contains((spoke, f)) {
            let j = b.index_of((spoke, f));
            if j < a.len() {
                assert(a[j] == b[j]);
            } else {
                assert(c[j - a.len()] == b[j]);
                assert(spokes[n - 1] == spoke);
            }
        }
        if a.contains((spoke, f)) {
            let j = a.index_of((spoke, f));
            assert(b[j] == a[j]);
        }
        if spokes[n - 1] == spoke && c.contains((spoke, f)) {
            let j = c.index_of((spoke, f));
            assert(b[a.len() + j] == c[j]);
        }
        if exists|s: int| 0 <= s < n && #[trigger] spokes[s] == spoke {
            let s = choose|s: int| 0 <= s < n && #[trigger] spokes[s] == spoke;
            assert(s < n - 1 || s == n - 1);
        }
    }
}

/// The gaps are the complement of the coverage: a spoke lacks a field of the
/// matrix exactly if it is not in the row of the field.
pub proof fn law_gaps_complement_coverage(out: CompileV, spoke: Text, f: FieldKeyV)
    requires
        coverage(out).spokes.contains(spoke),
        has_key::<FieldKey, TextSetV>(coverage(out).rows, f),
    ensures
        gaps(out).contains((spoke, f)) <==> !member(row_of(coverage(out).rows, f), spoke),
{
    let m = coverage(out);
    let rows = empty_rows(out.hub, out.hub.len() as int);
    lemma_empty_rows(out.hub, out.hub.len() as int);
    assert(rows_ok(rows)) by {
        assert forall|g: FieldKeyV| ascending::<String, ()>(#[trigger] row_of(rows, g)) by {
            assert(row_of(rows, g) == Seq::<(Text, ())>::empty());
        }
    }
    lemma_marked_spokes(rows, out.irs, out.irs.len() as int, f, spoke);
    let n = m.rows.len() as int;
    lemma_gaps_upto(m.spokes, m.rows, m.spokes.len() as int, spoke, f);
    lemma_gaps_of(spoke, m.rows, n, f);
    let s = m.spokes.index_of(spoke);
    assert(m.spokes[s] == spoke);
    crate::ordmap::lemma_lookup_none::<FieldKey, TextSetV>(m.rows, f);
    let i = choose|i: int| 0 <= i < n && (#[trigger] m.rows[i]).0 == f;
    crate::ordmap::lemma_lookup_at::<FieldKey, TextSetV>(m.rows, i);
    if exists|k: int| 0 <= k < n && (#[trigger] m.rows[k]).0 == f && !member(m.rows[k].1, spoke) {
        let k = choose|k: int|
            0 <= k < n && (#[trigger] m.rows[k]).0 == f && !member(m.rows[k].1, spoke);
        crate::ordmap::lemma_lookup_at::<FieldKey, TextSetV>(m.rows, k);
    }
}

// ---------------------------------------------------------------------------
// Fallbacks and footprints
// ---------------------------------------------------------------------------

/// The fallbacks of the first `n` nodes that have any.
pub open spec fn graph_upto(nodes: IrNodesV, n: int) -> Seq<(Text, Seq<Text>)>
    decreases n,
{
    if n <= 0 {
        Seq::empty()
    } else {
        let acc = graph_upto(nodes, n - 1);
        let node = nodes[n - 1].1;
        if node.fallbacks.len() == 0 {
            acc
        } else {
            put::<NodeId, Seq<Text>>(acc, node.id, node.fallbacks)
        }
    }
}

/// The fallbacks of every node that has any.
pub fn fallback_graph(ir: &MappingIr) -> (g: OrdMap<NodeId, Vec<NodeId>>)
    ensures
        g@ == graph_upto(ir@.nodes, ir@.nodes.len() as int),
{
    let ghost nodes = ir@.nodes;
    let mut g: OrdMap<NodeId, Vec<NodeId>> = OrdMap::new();
    let mut i: usize = 0;
    while i < ir.nodes.len()
        invariant
            i <= nodes.len(),
            nodes == ir@.nodes,
            g@ == graph_upto(nodes, i as int),
        decreases nodes.len() - i,
    {
        let node = ir.nodes.value_at(i).clone();
        if node.fallbacks.len() > 0 {
            g.insert(node.id, node.fallbacks);
        }
        i += 1;
    }
    g
}

/// The labels of the fields that the first `n` nodes map, or only of those they
/// require.
pub open spec fn labels_upto(nodes: IrNodesV, required: bool, n: int) -> TextSetV
    decreases n,
{
    if n <= 0 {
        Seq::empty()
    } else {
        let acc = labels_upto(nodes, required, n - 1);
        let node = nodes[n - 1].1;
        if required && !node.required {
            acc
        } else {
            match mapped_field(nodes, node) {
                None => acc,
                Some(f) => with_member(acc, label_of(f)),
            }
        }
    }
}

/// The labels of the fields that a spoke maps, or only of those it requires.
pub open spec fn footprint(ir: IrV, required: bool) -> TextSetV {
    labels_upto(ir.nodes, required, ir.nodes.len() as int)
}

/// The labels of the fields that a spoke maps, or only of those it requires.
fn canonical_field_labels(ir: &MappingIr, required: bool) -> (r: TextSet)
    requires
        scopes_ascend(ir@.nodes),
    ensures
        r@ == footprint(ir@, required),
{
    let ghost nodes = ir@.nodes;
    let mut r: TextSet = OrdMap::new();
    let mut i: usize = 0;
    while i < ir.nodes.len()
        invariant
            i <= nodes.len(),
            nodes == ir@.nodes,
            scopes_ascend(nodes),
            r@ == labels_upto(nodes, required, i as int),
        decreases nodes.len() - i,
    {
        let node = ir.nodes.value_at(i);
        if !required || node.required {
            if let Some(f) = field_mapped(node, ir) {
                r.insert(f.label(), ());
            }
        }
        i += 1;
    }
    r
}

/// The labels of the canonical fields that a spoke maps.
pub fn covered_canonical_fields(ir: &MappingIr) -> (r: TextSet)
    requires
        scopes_ascend(ir@.nodes),
    ensures
        r@ == footprint(ir@, false),
{
    canonical_field_labels(ir, false)
}

/// The labels of the canonical fields that a spoke requires.
pub fn required_canonical_fields(ir: &MappingIr) -> (r: TextSet)
    requires
        scopes_ascend(ir@.nodes),
    ensures
        r@ == footprint(ir@, true),
{
    canonical_field_labels(ir, true)
}

/// What a spoke requires it maps.
pub proof fn law_required_within_covered(ir: IrV, t: Text)
    ensures
        member(footprint(ir, true), t) ==> member(footprint(ir, false), t),
{
    lemma_labels(ir.nodes, ir.nodes.len() as int, t);
}

proof fn lemma_labels(nodes: IrNodesV, n: int, t: Text)
    requires
        0 <= n <= nodes.len(),
    ensures
        ascending::<String, ()>(labels_upto(nodes, true, n)),
        ascending::<String, ()>(labels_upto(nodes, false, n)),
        member(labels_upto(nodes, true, n), t) ==> member(labels_upto(nodes, false, n), t),
    decreases n,
{
    if n > 0 {
        lemma_labels(nodes, n - 1, t);
        if let Some(f) = mapped_field(nodes, nodes[n - 1].1) {
            let (a, b) = (labels_upto(nodes, true, n - 1), labels_upto(nodes, false, n - 1));
            crate::ordmap::lemma_put_ascending::<String, ()>(a, label_of(f), ());
            crate::ordmap::lemma_put_ascending::<String, ()>(b, label_of(f), ());
            crate::ordmap::lemma_put_lookup::<String, ()>(a, label_of(f), (), t);
            crate::ordmap::lemma_put_lookup::<String, ()>(b, label_of(f), (), t);
        }
    }
}

// ---------------------------------------------------------------------------
// Markdown
// ---------------------------------------------------------------------------

/// The header cells of the first `n` spokes.
pub open spec fn header_cells(spokes: Seq<Text>, n: int) -> Text
    decreases n,
{
    if n <= 0 {
        "| Canonical field |"@
    } else {
        header_cells(spokes, n - 1).push(' ') + spokes[n - 1] + " |"@
    }
}

/// `n` rule cells behind a text.
pub open spec fn rule_cells(head: Text, n: int) -> Text
    decreases n,
{
    if n <= 0 {
        head + "\n|---|"@
    } else {
        rule_cells(head, n - 1) + "---|"@
    }
}

/// The cells of a row for the first `n` spokes behind a text.
pub open spec fn row_cells(head: Text, spokes: Seq<Text>, row: (FieldKeyV, TextSetV), n: int) -> Text
    decreases n,
{
    if n <= 0 {
        head + "| "@ + label_of(row.0) + " |"@
    } else {
        row_cells(head, spokes, row, n - 1).push(' ') + (if member(row.1, spokes[n - 1]) {
            "✓"@
        } else {
            "·"@
        }) + " |"@
    }
}

/// The first `n` rows behind the header.
pub open spec fn table_upto(m: MatrixV, n: int) -> Text
    decreases n,
{
    let k = m.spokes.len() as int;
    if n <= 0 {
        rule_cells(header_cells(m.spokes, k), k).push('\n')
    } else {
        row_cells(table_upto(m, n - 1), m.spokes, m.rows[n - 1], k).push('\n')
    }
}

/// A coverage matrix as a Markdown table.
pub open spec fn markdown(m: MatrixV) -> Text {
    table_upto(m, m.rows.len() as int)
}

/// Renders a coverage matrix as a Markdown table: a row for each field, a column
/// for each spoke, and a check mark where the spoke maps the field.
pub fn render_coverage_markdown(matrix: &CoverageMatrix) -> (out: String)
    ensures
        out@ == markdown(matrix@),
{
    let ghost m = matrix@;
    let k: usize = matrix.spokes.len();
    let mut out = "| Canonical field |".to_string();
    let mut s: usize = 0;
    while s < k
        invariant
            s <= k == matrix.spokes.len(),
            m == matrix@,
            out@ == header_cells(m.spokes, s as int),
        decreases k - s,
    {
        out.push(' ');
        out.push_str(matrix.spokes[s].as_str());
        out.push_str(" |");
        s += 1;
    }
    let ghost head = out@;
    out.push_str("\n|---|");
    let mut s: usize = 0;
    while s < k
        invariant
            s <= k,
            out@ == rule_cells(head, s as int),
        decreases k - s,
    {
        out.push_str("---|");
        s += 1;
    }
    out.push('\n');
    let mut r: usize = 0;
    while r < matrix.rows.len()
        invariant
            r <= m.rows.len(),
            m == matrix@,
            k == matrix.spokes.len(),
            out@ == table_upto(m, r as int),
        decreases m.rows.len() - r,
    {
        let ghost before = out@;
        let field = matrix.rows.key_at(r);
        let covered = matrix.rows.value_at(r);
        out.push_str("| ");
        out.push_str(field.label().as_str());
        out.push_str(" |");
        let mut s: usize = 0;
        while s < k
            invariant
                s <= k == matrix.spokes.len(),
                m == matrix@,
                covered@ == m.rows[r as int].1,
                out@ == row_cells(before, m.spokes, m.rows[r as int], s as int),
            decreases k - s,
        {
            out.push(' ');
            assert(m.spokes[s as int] == matrix.spokes@[s as int]@);
            if covered.contains_key(&matrix.spokes[s]) {
                out.push_str("✓");
            } else {
                out.push_str("·");
            }
            out.push_str(" |");
            s += 1;
        }
        out.push('\n');
        r += 1;
    }
    out
}

} // verus!
