//! How the columns of a table stand.
use vstd::prelude::*;
use vstd::utf8::encode_scalar;

use crate::engine::table::{
    byte_len, cells_text, fill, repeated, row_text, rows_text, rule_cells, table_text, width,
    widths_of,
};
use crate::text::Text;

verus! {

proof fn lemma_bytes_add(a: Text, b: Text)
    ensures
        byte_len(a + b) == byte_len(a) + byte_len(b),
    decreases a.len(),
{
    if a.len() == 0 {
        assert(a + b =~= b);
    } else {
        lemma_bytes_add(a.drop_first(), b);
        assert((a + b).drop_first() =~= a.drop_first() + b);
        assert((a + b)[0] == a[0]);
    }
}

proof fn lemma_bytes_repeated(c: char, n: nat)
    requires
        (c as u32) < 0x80,
    ensures
        byte_len(repeated(c, n)) == n,
    decreases n,
{
    if n > 0 {
        lemma_bytes_repeated(c, (n - 1) as nat);
        assert(repeated(c, n).drop_first() =~= repeated(c, (n - 1) as nat));
        assert(repeated(c, n)[0] == c);
        assert(encode_scalar(c as u32).len() == 1);
    }
}

proof fn lemma_width(header: Seq<Text>, rows: Seq<Seq<Text>>, col: int, n: int)
    requires
        0 <= n <= rows.len(),
    ensures
        width(header, rows, col, n) >= byte_len(header[col]),
        forall|i: int|
            0 <= i < n ==> width(header, rows, col, n) >= byte_len(#[trigger] rows[i][col]),
        width(header, rows, col, n) == byte_len(header[col]) || exists|i: int|
            0 <= i < n && width(header, rows, col, n) == byte_len(#[trigger] rows[i][col]),
    decreases n,
{
    if n > 0 {
        lemma_width(header, rows, col, n - 1);
        assert(rows[n - 1][col] == rows[n - 1][col]);
    }
}

/// A column is as wide as its widest cell, the header's included.
pub proof fn law_columns_fit_their_widest_cell(
    header: Seq<Text>,
    rows: Seq<Seq<Text>>,
    col: int,
)
    requires
        0 <= col < header.len(),
    ensures
        widths_of(header, rows).len() == header.len(),
        widths_of(header, rows)[col] >= byte_len(header[col]),
        forall|i: int|
            0 <= i < rows.len() ==> widths_of(header, rows)[col] >= byte_len(
                #[trigger] rows[i][col],
            ),
        widths_of(header, rows)[col] == byte_len(header[col]) || exists|i: int|
            0 <= i < rows.len() && widths_of(header, rows)[col] == byte_len(
                #[trigger] rows[i][col],
            ),
        byte_len(rule_cells(widths_of(header, rows))[col]) == widths_of(header, rows)[col],
        forall|i: int|
            0 <= i < rule_cells(widths_of(header, rows))[col].len() ==> (#[trigger] rule_cells(
                widths_of(header, rows),
            )[col][i]) == '-',
{
    lemma_width(header, rows, col, rows.len() as int);
    lemma_bytes_repeated('-', widths_of(header, rows)[col]);
}

/// The byte at which the cell of a column begins: behind the columns before it, each with
/// two spaces behind it.
pub open spec fn begins_at(widths: Seq<nat>, col: int) -> nat
    decreases col,
{
    if col <= 0 {
        0
    } else {
        begins_at(widths, col - 1) + widths[col - 1] + 2
    }
}

/// What stands before the cell of a column.
pub open spec fn in_front(cells: Seq<Text>, widths: Seq<nat>, col: int) -> Text {
    cells_text(Seq::empty(), cells, widths, col) + if col > 0 {
        "  "@
    } else {
        Seq::empty()
    }
}

proof fn lemma_cells_behind(t: Text, cells: Seq<Text>, widths: Seq<nat>, n: int)
    ensures
        cells_text(t, cells, widths, n) == t + cells_text(Seq::empty(), cells, widths, n),
    decreases n,
{
    let none = Seq::<char>::empty();
    if n > 0 {
        lemma_cells_behind(t, cells, widths, n - 1);
        assert(cells_text(t, cells, widths, n) =~= t + cells_text(none, cells, widths, n));
    } else {
        assert(t + none =~= t);
    }
}

/// In every row whose cells fit, the cell of a column begins at the same byte, and only
/// spaces stand between it and the cell before it.
pub proof fn law_cells_of_a_column_begin_together(
    cells: Seq<Text>,
    widths: Seq<nat>,
    col: int,
)
    requires
        0 <= col < cells.len(),
        cells.len() == widths.len(),
        forall|j: int| 0 <= j < cells.len() ==> byte_len(#[trigger] cells[j]) <= widths[j],
    ensures
        byte_len(in_front(cells, widths, col)) == begins_at(widths, col),
        (in_front(cells, widths, col) + cells[col]).is_prefix_of(
            row_text(Seq::empty(), cells, widths),
        ),
        col > 0 ==> exists|n: nat|
            n >= 2 && in_front(cells, widths, col) == in_front(cells, widths, col - 1) + cells[col
                - 1] + #[trigger] repeated(' ', n),
    decreases col,
{
    reveal_strlit("  ");
    let none = Seq::<char>::empty();
    assert("  "@ =~= repeated(' ', 2));
    lemma_front_is_prefix(cells, widths, col, cells.len() as int);
    assert(row_text(none, cells, widths) =~= cells_text(none, cells, widths, cells.len() as int)
        + "\n"@);
    if col > 0 {
        law_cells_of_a_column_begin_together(cells, widths, col - 1);
        let front = in_front(cells, widths, col - 1);
        let cell = cells[col - 1];
        let gap = fill(cell, widths[col - 1]);
        let n = (widths[col - 1] - byte_len(cell)) as nat;
        assert(gap == repeated(' ', n));
        lemma_bytes_repeated(' ', n);
        lemma_bytes_repeated(' ', 2);
        if col == 1 {
            assert(none + cell =~= cell);
            assert(front + cell =~= cell);
        }
        assert(cells_text(none, cells, widths, col) =~= front + cell + gap);
        lemma_bytes_add(front, cell);
        lemma_bytes_add(front + cell, gap);
        lemma_bytes_add(front + cell + gap, "  "@);
        assert(in_front(cells, widths, col) =~= front + cell + gap + "  "@);
        assert(in_front(cells, widths, col) =~= front + cell + repeated(' ', n + 2));
    } else {
        assert(in_front(cells, widths, col) =~= none);
    }
}

proof fn lemma_front_is_prefix(cells: Seq<Text>, widths: Seq<nat>, col: int, n: int)
    requires
        0 <= col < n <= cells.len(),
    ensures
        (in_front(cells, widths, col) + cells[col]).is_prefix_of(
            cells_text(Seq::empty(), cells, widths, n),
        ),
    decreases n,
{
    let none = Seq::<char>::empty();
    let p = in_front(cells, widths, col) + cells[col];
    let whole = cells_text(none, cells, widths, n);
    if n - 1 > col {
        lemma_front_is_prefix(cells, widths, col, n - 1);
        let before = cells_text(none, cells, widths, n - 1);
        assert(before =~= before.subrange(0, p.len() as int) + before.skip(p.len() as int));
        assert(whole.subrange(0, p.len() as int) =~= before.subrange(0, p.len() as int));
    } else {
        if col == 0 {
            assert(in_front(cells, widths, col) =~= none);
        }
        assert(whole.subrange(0, p.len() as int) =~= p);
    }
}

/// A row ends with its last cell and the end of the line.
pub proof fn law_rows_end_with_their_last_cell(t: Text, cells: Seq<Text>, widths: Seq<nat>)
    requires
        cells.len() > 0,
    ensures
        row_text(t, cells, widths) == t + in_front(cells, widths, cells.len() - 1) + cells.last()
            + "\n"@,
{
    let none = Seq::<char>::empty();
    let n = cells.len() as int;
    lemma_cells_behind(t, cells, widths, n);
    lemma_cells_behind(t, cells, widths, n - 1);
    let before = cells_text(none, cells, widths, n - 1);
    if n > 1 {
        assert(cells_text(none, cells, widths, n) =~= before + "  "@ + cells.last());
        assert(row_text(t, cells, widths) =~= t + in_front(cells, widths, n - 1) + cells.last()
            + "\n"@);
    } else {
        assert(before =~= none);
        assert(cells_text(none, cells, widths, n) =~= cells.last());
        assert(in_front(cells, widths, n - 1) =~= none);
        assert(row_text(t, cells, widths) =~= t + in_front(cells, widths, n - 1) + cells.last()
            + "\n"@);
    }
}

/// Adding a row to a table whose columns it does not widen adds one line behind it; a
/// table without rows is the header over its line.
pub proof fn law_rows_stand_in_order(header: Seq<Text>, rows: Seq<Seq<Text>>, row: Seq<Text>)
    requires
        widths_of(header, rows.push(row)) == widths_of(header, rows),
    ensures
        table_text(header, rows.push(row)) == row_text(
            table_text(header, rows),
            row,
            widths_of(header, rows),
        ),
        table_text(header, Seq::empty()) == row_text(
            row_text(Seq::empty(), header, widths_of(header, Seq::empty())),
            rule_cells(widths_of(header, Seq::empty())),
            widths_of(header, Seq::empty()),
        ),
{
    let widths = widths_of(header, rows);
    let t = row_text(Seq::empty(), header, widths);
    let t = row_text(t, rule_cells(widths), widths);
    lemma_rows_same(t, rows, rows.push(row), widths, rows.len() as int);
}

proof fn lemma_rows_same(
    t: Text,
    a: Seq<Seq<Text>>,
    b: Seq<Seq<Text>>,
    widths: Seq<nat>,
    n: int,
)
    requires
        n <= a.len(),
        n <= b.len(),
        forall|i: int| 0 <= i < n ==> #[trigger] a[i] == b[i],
    ensures
        rows_text(t, a, widths, n) == rows_text(t, b, widths, n),
    decreases n,
{
    if n > 0 {
        lemma_rows_same(t, a, b, widths, n - 1);
        assert(a[n - 1] == b[n - 1]);
    }
}

} // verus!
