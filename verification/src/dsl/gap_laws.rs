//! What holds of every gap report: its order and its length.
use vstd::prelude::*;

use crate::dsl::compile::CompileV;
use crate::dsl::ir::IrV;
use crate::dsl::report::{
    coverage, gaps, gaps_of, gaps_upto, law_coverage_is_mapping, lemma_coverage_rows, maps_field,
    row_of, spoke_ids, FieldKey, FieldKeyV, RowsV,
};
use crate::ordmap::{ascending, lemma_lookup_at, lemma_lookup_none, member, Key, TextSetV};
use crate::text::{lemma_lt_irreflexive, lt, Text};

verus! {

/// Whether a gap precedes another: by spoke, and then by field.
pub open spec fn gap_before(a: (Text, FieldKeyV), b: (Text, FieldKeyV)) -> bool {
    lt(a.0, b.0) || (a.0 == b.0 && <FieldKey as Key>::before(a.1, b.1))
}

/// Whether each gap of a list precedes the next.
pub open spec fn gaps_ascend(list: Seq<(Text, FieldKeyV)>) -> bool {
    forall|i: int, j: int|
        0 <= i < j < list.len() ==> gap_before(#[trigger] list[i], #[trigger] list[j])
}

/// How many spokes stand in the first `n` rows, each counted once for each row.
pub open spec fn marks(rows: RowsV, n: int) -> nat
    decreases n,
{
    if n <= 0 {
        0
    } else {
        marks(rows, n - 1) + rows[n - 1].1.len()
    }
}

proof fn lemma_gaps_of_ascend(spoke: Text, rows: RowsV, n: int)
    requires
        ascending::<FieldKey, TextSetV>(rows),
        0 <= n <= rows.len(),
    ensures
        gaps_ascend(gaps_of(spoke, rows, n)),
        forall|j: int|
            0 <= j < gaps_of(spoke, rows, n).len() ==> (#[trigger] gaps_of(spoke, rows, n)[j]).0
                == spoke,
        forall|j: int|
            #![trigger gaps_of(spoke, rows, n)[j]]
            0 <= j < gaps_of(spoke, rows, n).len() ==> exists|i: int|
                0 <= i < n && (#[trigger] rows[i]).0 == gaps_of(spoke, rows, n)[j].1,
    decreases n,
{
    if n > 0 {
        lemma_gaps_of_ascend(spoke, rows, n - 1);
        let a = gaps_of(spoke, rows, n - 1);
        let b = gaps_of(spoke, rows, n);
        assert forall|j: int| 0 <= j < b.len() implies (#[trigger] b[j]).0 == spoke && exists|i: int|
            0 <= i < n && (#[trigger] rows[i]).0 == b[j].1 by {
            if j < a.len() {
                assert(b[j] == a[j]);
                let i = choose|i: int| 0 <= i < n - 1 && (#[trigger] rows[i]).0 == a[j].1;
                assert(rows[i].0 == b[j].1);
            } else {
                assert(rows[n - 1].0 == b[j].1);
            }
        }
        assert forall|x: int, y: int| 0 <= x < y < b.len() implies gap_before(
            #[trigger] b[x],
            #[trigger] b[y],
        ) by {
            assert(b[x] == a[x]);
            if y < a.len() {
                assert(b[y] == a[y]);
            } else {
                let i = choose|i: int| 0 <= i < n - 1 && (#[trigger] rows[i]).0 == a[x].1;
                assert(<FieldKey as Key>::before(rows[i].0, rows[n - 1].0));
            }
        }
    }
}

proof fn lemma_gaps_upto_ascend(spokes: Seq<Text>, rows: RowsV, n: int)
    requires
        ascending::<FieldKey, TextSetV>(rows),
        forall|i: int, j: int|
            0 <= i < j < spokes.len() ==> lt(#[trigger] spokes[i], #[trigger] spokes[j]),
        0 <= n <= spokes.len(),
    ensures
        gaps_ascend(gaps_upto(spokes, rows, n)),
        forall|j: int|
            #![trigger gaps_upto(spokes, rows, n)[j]]
            0 <= j < gaps_upto(spokes, rows, n).len() ==> exists|s: int|
                0 <= s < n && #[trigger] spokes[s] == gaps_upto(spokes, rows, n)[j].0,
    decreases n,
{
    if n > 0 {
        lemma_gaps_upto_ascend(spokes, rows, n - 1);
        lemma_gaps_of_ascend(spokes[n - 1], rows, rows.len() as int);
        let a = gaps_upto(spokes, rows, n - 1);
        let c = gaps_of(spokes[n - 1], rows, rows.len() as int);
        let b = gaps_upto(spokes, rows, n);
        assert(b == a + c);
        assert forall|j: int| #![trigger b[j]] 0 <= j < b.len() implies exists|s: int|
            0 <= s < n && #[trigger] spokes[s] == b[j].0 by {
            if j < a.len() {
                assert(b[j] == a[j]);
                let s = choose|s: int| 0 <= s < n - 1 && #[trigger] spokes[s] == a[j].0;
                assert(spokes[s] == b[j].0);
            } else {
                assert(b[j] == c[j - a.len()]);
                assert(spokes[n - 1] == b[j].0);
            }
        }
        assert forall|x: int, y: int| 0 <= x < y < b.len() implies gap_before(
            #[trigger] b[x],
            #[trigger] b[y],
        ) by {
            if y < a.len() {
                assert(b[x] == a[x] && b[y] == a[y]);
            } else {
                assert(b[y] == c[y - a.len()]);
                if x < a.len() {
                    assert(b[x] == a[x]);
                    let s = choose|s: int| 0 <= s < n - 1 && #[trigger] spokes[s] == a[x].0;
                    assert(lt(spokes[s], spokes[n - 1]));
                } else {
                    assert(b[x] == c[x - a.len()]);
                }
            }
        }
    }
}

/// Of the first `k` spokes those that stand in a row.
spec fn standing(spokes: Seq<Text>, row: TextSetV, k: int) -> Seq<Text>
    decreases k,
{
    if k <= 0 {
        Seq::empty()
    } else if member(row, spokes[k - 1]) {
        standing(spokes, row, k - 1).push(spokes[k - 1])
    } else {
        standing(spokes, row, k - 1)
    }
}

proof fn lemma_standing(spokes: Seq<Text>, row: TextSetV, k: int)
    requires
        forall|i: int, j: int|
            0 <= i < j < spokes.len() ==> lt(#[trigger] spokes[i], #[trigger] spokes[j]),
        0 <= k <= spokes.len(),
    ensures
        standing(spokes, row, k).no_duplicates(),
        forall|t: Text| #[trigger]
            standing(spokes, row, k).contains(t) <==> member(row, t) && exists|s: int|
                0 <= s < k && #[trigger] spokes[s] == t,
    decreases k,
{
    if k > 0 {
        lemma_standing(spokes, row, k - 1);
        let a = standing(spokes, row, k - 1);
        let b = standing(spokes, row, k);
        let last = spokes[k - 1];
        if a.contains(last) {
            let s = choose|s: int| 0 <= s < k - 1 && #[trigger] spokes[s] == last;
            assert(lt(spokes[s], spokes[k - 1]));
            lemma_lt_irreflexive(last);
        }
        assert(b.no_duplicates()) by {
            assert forall|i: int, j: int| 0 <= i < b.len() && 0 <= j < b.len() && i != j implies b[i]
                != b[j] by {
                if i < a.len() {
                    assert(b[i] == a[i] && a.contains(a[i]));
                }
                if j < a.len() {
                    assert(b[j] == a[j] && a.contains(a[j]));
                }
            }
        }
        assert forall|t: Text| #[trigger]
            b.contains(t) <==> member(row, t) && exists|s: int|
                0 <= s < k && #[trigger] spokes[s] == t by {
            if b.contains(t) {
                let i = b.index_of(t);
                if i < a.len() {
                    assert(a[i] == t);
                    assert(a.contains(t));
                    let s = choose|s: int| 0 <= s < k - 1 && #[trigger] spokes[s] == t;
                    assert(spokes[s] == t);
                } else {
                    assert(spokes[k - 1] == t);
                }
            }
            if member(row, t) && exists|s: int| 0 <= s < k && #[trigger] spokes[s] == t {
                let s = choose|s: int| 0 <= s < k && #[trigger] spokes[s] == t;
                if s < k - 1 {
                    assert(a.contains(t));
                    let i = a.index_of(t);
                    assert(b[i] == t);
                } else {
                    assert(b[b.len() - 1] == t);
                }
            }
        }
    } else {
        assert forall|t: Text| #[trigger]
            standing(spokes, row, k).contains(t) <==> member(row, t) && exists|s: int|
                0 <= s < k && #[trigger] spokes[s] == t by {}
    }
}

/// A row of known spokes has as many entries as spokes stand in it.
proof fn lemma_row_size(spokes: Seq<Text>, row: TextSetV)
    requires
        forall|i: int, j: int|
            0 <= i < j < spokes.len() ==> lt(#[trigger] spokes[i], #[trigger] spokes[j]),
        ascending::<String, ()>(row),
        forall|t: Text| #[trigger] member(row, t) ==> spokes.contains(t),
    ensures
        standing(spokes, row, spokes.len() as int).len() == row.len(),
{
    let n = spokes.len() as int;
    let a = standing(spokes, row, n);
    let names = Seq::new(row.len(), |i: int| row[i].0);
    lemma_standing(spokes, row, n);
    assert(names.no_duplicates()) by {
        assert forall|i: int, j: int|
            0 <= i < names.len() && 0 <= j < names.len() && i != j implies names[i]
            != names[j] by {
            lemma_lookup_at::<String, ()>(row, i);
            lemma_lookup_at::<String, ()>(row, j);
        }
    }
    assert forall|t: Text| a.to_set().contains(t) <==> names.to_set().contains(t) by {
        assert(a.to_set().contains(t) <==> a.contains(t));
        assert(names.to_set().contains(t) <==> names.contains(t));
        lemma_lookup_none::<String, ()>(row, t);
        if names.contains(t) {
            let i = names.index_of(t);
            lemma_lookup_at::<String, ()>(row, i);
            assert(member(row, t));
            assert(spokes.contains(t));
            let s = spokes.index_of(t);
            assert(spokes[s] == t);
        }
        if a.contains(t) {
            assert(member(row, t));
            let i = choose|i: int| 0 <= i < row.len() && (#[trigger] row[i]).0 == t;
            assert(names[i] == t);
        }
    }
    assert(a.to_set() =~= names.to_set());
    a.unique_seq_to_set();
    names.unique_seq_to_set();
}

/// How many of the first `n` rows a spoke stands in.
spec fn hits(spoke: Text, rows: RowsV, n: int) -> nat
    decreases n,
{
    if n <= 0 {
        0
    } else {
        hits(spoke, rows, n - 1) + if member(rows[n - 1].1, spoke) {
            1nat
        } else {
            0nat
        }
    }
}

/// How often the first `k` spokes stand in the first `n` rows.
spec fn all_hits(spokes: Seq<Text>, k: int, rows: RowsV, n: int) -> nat
    decreases n,
{
    if n <= 0 {
        0
    } else {
        all_hits(spokes, k, rows, n - 1) + standing(spokes, rows[n - 1].1, k).len()
    }
}

proof fn lemma_hits(spoke: Text, rows: RowsV, n: int)
    requires
        0 <= n <= rows.len(),
    ensures
        gaps_of(spoke, rows, n).len() + hits(spoke, rows, n) == n,
    decreases n,
{
    if n > 0 {
        lemma_hits(spoke, rows, n - 1);
    }
}

proof fn lemma_all_hits(spokes: Seq<Text>, k: int, rows: RowsV, n: int)
    requires
        0 < k <= spokes.len(),
        0 <= n <= rows.len(),
    ensures
        all_hits(spokes, k, rows, n) == all_hits(spokes, k - 1, rows, n) + hits(
            spokes[k - 1],
            rows,
            n,
        ),
    decreases n,
{
    if n > 0 {
        lemma_all_hits(spokes, k, rows, n - 1);
    }
}

proof fn lemma_no_hits(spokes: Seq<Text>, rows: RowsV, n: int)
    ensures
        all_hits(spokes, 0, rows, n) == 0,
    decreases n,
{
    if n > 0 {
        lemma_no_hits(spokes, rows, n - 1);
    }
}

proof fn lemma_gaps_and_hits(spokes: Seq<Text>, k: int, rows: RowsV)
    requires
        0 <= k <= spokes.len(),
    ensures
        gaps_upto(spokes, rows, k).len() + all_hits(spokes, k, rows, rows.len() as int) == k
            * rows.len(),
    decreases k,
{
    let n = rows.len() as int;
    if k > 0 {
        lemma_gaps_and_hits(spokes, k - 1, rows);
        lemma_hits(spokes[k - 1], rows, n);
        lemma_all_hits(spokes, k, rows, n);
        assert((k - 1) * n + n == k * n) by (nonlinear_arith);
    } else {
        lemma_no_hits(spokes, rows, n);
        assert(k * n == 0) by (nonlinear_arith)
            requires
                k == 0,
        ;
    }
}

proof fn lemma_marks(spokes: Seq<Text>, rows: RowsV, n: int)
    requires
        0 <= n <= rows.len(),
        forall|i: int|
            0 <= i < rows.len() ==> standing(
                spokes,
                (#[trigger] rows[i]).1,
                spokes.len() as int,
            ).len() == rows[i].1.len(),
    ensures
        all_hits(spokes, spokes.len() as int, rows, n) == marks(rows, n),
    decreases n,
{
    if n > 0 {
        lemma_marks(spokes, rows, n - 1);
        assert(standing(spokes, rows[n - 1].1, spokes.len() as int).len()
            == rows[n - 1].1.len());
    }
}

/// A gap report is strictly ascending, by spoke and then by field, and so holds no
/// gap twice.
pub proof fn law_gaps_ascend(out: CompileV)
    requires
        ascending::<String, IrV>(out.irs),
    ensures
        gaps_ascend(gaps(out)),
{
    let m = coverage(out);
    lemma_coverage_rows(out);
    assert forall|i: int, j: int| 0 <= i < j < m.spokes.len() implies lt(
        #[trigger] m.spokes[i],
        #[trigger] m.spokes[j],
    ) by {
        assert(<String as Key>::before(out.irs[i].0, out.irs[j].0));
    }
    lemma_gaps_upto_ascend(m.spokes, m.rows, m.spokes.len() as int);
}

/// Every spoke either stands in the row of a field or has a gap there: the gaps and
/// the entries of the rows are together as many as there are spokes for each row.
pub proof fn law_gaps_and_coverage_count(out: CompileV)
    requires
        ascending::<String, IrV>(out.irs),
    ensures
        gaps(out).len() + marks(coverage(out).rows, coverage(out).rows.len() as int)
            == coverage(out).spokes.len() * coverage(out).rows.len(),
{
    let m = coverage(out);
    let (spokes, rows) = (m.spokes, m.rows);
    let k = spokes.len() as int;
    lemma_coverage_rows(out);
    assert forall|i: int, j: int| 0 <= i < j < spokes.len() implies lt(
        #[trigger] spokes[i],
        #[trigger] spokes[j],
    ) by {
        assert(<String as Key>::before(out.irs[i].0, out.irs[j].0));
    }
    assert forall|i: int| 0 <= i < rows.len() implies standing(
        spokes,
        (#[trigger] rows[i]).1,
        k,
    ).len() == rows[i].1.len() by {
        let f = rows[i].0;
        lemma_lookup_at::<FieldKey, TextSetV>(rows, i);
        assert(row_of(rows, f) == rows[i].1);
        assert forall|t: Text| #[trigger] member(rows[i].1, t) implies spokes.contains(t) by {
            law_coverage_is_mapping(out, t, f);
            assert(maps_field(out, t, f));
            let (s, n) = choose|s: int, n: int|
                #![trigger out.irs[s].1.nodes[n]]
                0 <= s < out.irs.len() && out.irs[s].0 == t && 0 <= n < out.irs[s].1.nodes.len();
            assert(spoke_ids(out.irs)[s] == t);
        }
        lemma_row_size(spokes, rows[i].1);
    }
    lemma_gaps_and_hits(spokes, k, rows);
    lemma_marks(spokes, rows, rows.len() as int);
}

} // verus!
