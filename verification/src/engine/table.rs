//! Plain-text tables with aligned columns.
use vstd::prelude::*;
use vstd::utf8::encode_utf8;

use crate::text::Text;

verus! {

/// How many bytes a text takes as UTF-8.
pub open spec fn byte_len(t: Text) -> nat {
    encode_utf8(t).len()
}

/// How many bytes a text takes as UTF-8.
pub fn byte_len_of(s: &str) -> (n: usize)
    ensures
        n == byte_len(s@),
{
    s.as_bytes().len()
}

/// A character `n` times.
pub open spec fn repeated(c: char, n: nat) -> Text {
    Seq::new(n, |i: int| c)
}

/// Appends a character `n` times.
fn push_repeated(out: &mut String, c: char, n: usize)
    ensures
        final(out)@ == old(out)@ + repeated(c, n as nat),
{
    let ghost start = out@;
    let mut i: usize = 0;
    assert(start + repeated(c, 0) =~= start);
    while i < n
        invariant
            i <= n,
            out@ =~= start + repeated(c, i as nat),
        decreases n - i,
    {
        out.push(c);
        assert(start + repeated(c, (i + 1) as nat) =~= (start + repeated(c, i as nat)).push(c));
        i += 1;
    }
}

/// The bytes of the widest of the header and the first `n` rows of a column.
pub open spec fn width(header: Seq<Text>, rows: Seq<Seq<Text>>, col: int, n: int) -> nat
    decreases n,
{
    if n <= 0 {
        byte_len(header[col])
    } else {
        let w = width(header, rows, col, n - 1);
        let here = byte_len(rows[n - 1][col]);
        if here > w {
            here
        } else {
            w
        }
    }
}

/// The widths of the columns of a table.
pub open spec fn widths_of(header: Seq<Text>, rows: Seq<Seq<Text>>) -> Seq<nat> {
    Seq::new(header.len(), |col: int| width(header, rows, col, rows.len() as int))
}

/// The spaces that fill a cell up to a width.
pub open spec fn fill(cell: Text, width: nat) -> Text {
    repeated(
        ' ',
        if width > byte_len(cell) {
            (width - byte_len(cell)) as nat
        } else {
            0
        },
    )
}

/// The text `t` with the first `n` cells of a row: two spaces between cells, and
/// every cell but the last filled up to its column's width.
pub open spec fn cells_text(t: Text, cells: Seq<Text>, widths: Seq<nat>, n: int) -> Text
    decreases n,
{
    if n <= 0 {
        t
    } else {
        let t = cells_text(t, cells, widths, n - 1);
        let t = if n > 1 {
            t + "  "@
        } else {
            t
        };
        let t = t + cells[n - 1];
        if n < cells.len() {
            t + fill(cells[n - 1], widths[n - 1])
        } else {
            t
        }
    }
}

/// The text `t` with a row.
pub open spec fn row_text(t: Text, cells: Seq<Text>, widths: Seq<nat>) -> Text {
    cells_text(t, cells, widths, cells.len() as int) + "\n"@
}

/// The text `t` with the first `n` rows.
pub open spec fn rows_text(t: Text, rows: Seq<Seq<Text>>, widths: Seq<nat>, n: int) -> Text
    decreases n,
{
    if n <= 0 {
        t
    } else {
        row_text(rows_text(t, rows, widths, n - 1), rows[n - 1], widths)
    }
}

/// The line under the header.
pub open spec fn rule_cells(widths: Seq<nat>) -> Seq<Text> {
    Seq::new(widths.len(), |col: int| repeated('-', widths[col]))
}

/// A table: the header, a line, and the rows.
pub open spec fn table_text(header: Seq<Text>, rows: Seq<Seq<Text>>) -> Text {
    let widths = widths_of(header, rows);
    let t = row_text(Seq::empty(), header, widths);
    let t = row_text(t, rule_cells(widths), widths);
    rows_text(t, rows, widths, rows.len() as int)
}

/// The widths of columns as numbers.
pub open spec fn as_nats(v: Seq<usize>) -> Seq<nat> {
    Seq::new(v.len(), |i: int| v[i] as nat)
}

/// Appends a row.
fn write_row(out: &mut String, cells: &Vec<String>, widths: &Vec<usize>)
    requires
        cells@.len() == widths@.len(),
    ensures
        final(out)@ == row_text(old(out)@, cells.deep_view(), as_nats(widths@)),
{
    let ghost start = out@;
    let ghost views = cells.deep_view();
    let ghost ws = as_nats(widths@);
    let mut i: usize = 0;
    while i < cells.len()
        invariant
            i <= cells.len(),
            cells@.len() == widths@.len(),
            views == cells.deep_view(),
            ws == as_nats(widths@),
            out@ == cells_text(start, views, ws, i as int),
        decreases cells.len() - i,
    {
        assert(views[i as int] == cells@[i as int]@);
        if i > 0 {
            out.push_str("  ");
        }
        out.push_str(cells[i].as_str());
        if i + 1 < cells.len() {
            let len = byte_len_of(cells[i].as_str());
            let missing = if widths[i] > len {
                widths[i] - len
            } else {
                0
            };
            push_repeated(out, ' ', missing);
        }
        i += 1;
    }
    out.push_str("\n");
}

/// Whether every row has a cell in every column.
pub open spec fn rectangular(header: Seq<Text>, rows: Seq<Seq<Text>>) -> bool {
    forall|i: int| 0 <= i < rows.len() ==> (#[trigger] rows[i]).len() == header.len()
}

/// The width of a column.
fn width_of(header: &Vec<String>, rows: &Vec<Vec<String>>, col: usize) -> (w: usize)
    requires
        col < header@.len(),
        rectangular(header.deep_view(), rows.deep_view()),
    ensures
        w == width(header.deep_view(), rows.deep_view(), col as int, rows@.len() as int),
{
    let ghost h = header.deep_view();
    let ghost r = rows.deep_view();
    assert(h[col as int] == header@[col as int]@);
    let mut w: usize = byte_len_of(header[col].as_str());
    let mut i: usize = 0;
    while i < rows.len()
        invariant
            i <= rows.len(),
            h == header.deep_view(),
            r == rows.deep_view(),
            col < h.len(),
            rectangular(h, r),
            w == width(h, r, col as int, i as int),
        decreases rows.len() - i,
    {
        assert(r[i as int] == rows@[i as int].deep_view());
        assert(r[i as int].len() == h.len());
        let here = byte_len_of(rows[i][col].as_str());
        if here > w {
            w = here;
        }
        i += 1;
    }
    w
}

/// A table with aligned columns. The last column is not filled up, so no line ends
/// in a space that no cell holds.
pub fn aligned(header: &Vec<String>, rows: &Vec<Vec<String>>) -> (out: String)
    requires
        rectangular(header.deep_view(), rows.deep_view()),
    ensures
        out@ == table_text(header.deep_view(), rows.deep_view()),
{
    let ghost h = header.deep_view();
    let ghost r = rows.deep_view();
    let ghost all = widths_of(h, r);
    let mut widths: Vec<usize> = Vec::new();
    let mut rule: Vec<String> = Vec::new();
    let mut col: usize = 0;
    while col < header.len()
        invariant
            col <= header.len(),
            h == header.deep_view(),
            r == rows.deep_view(),
            rectangular(h, r),
            all == widths_of(h, r),
            as_nats(widths@) =~= all.take(col as int),
            rule.deep_view() =~= rule_cells(all).take(col as int),
        decreases header.len() - col,
    {
        let ghost before = rule.deep_view();
        let ghost wide = widths@;
        let w = width_of(header, rows, col);
        widths.push(w);
        let mut dashes = String::new();
        push_repeated(&mut dashes, '-', w);
        assert(dashes@ =~= repeated('-', w as nat));
        rule.push(dashes);
        proof {
            assert(as_nats(widths@) =~= as_nats(wide).push(all[col as int]));
            assert(rule.deep_view() =~= before.push(rule_cells(all)[col as int]));
        }
        col += 1;
    }
    assert(as_nats(widths@) =~= all);
    assert(rule.deep_view() =~= rule_cells(all));
    assert(widths@.len() == as_nats(widths@).len());
    assert(rule@.len() == rule.deep_view().len());
    let mut out = String::new();
    write_row(&mut out, header, &widths);
    write_row(&mut out, &rule, &widths);
    let ghost start = out@;
    let mut i: usize = 0;
    while i < rows.len()
        invariant
            i <= rows.len(),
            h == header.deep_view(),
            r == rows.deep_view(),
            rectangular(h, r),
            widths@.len() == h.len(),
            as_nats(widths@) == all,
            out@ == rows_text(start, r, all, i as int),
        decreases rows.len() - i,
    {
        assert(r[i as int] == rows@[i as int].deep_view());
        assert(r[i as int].len() == h.len());
        write_row(&mut out, &rows[i], &widths);
        i += 1;
    }
    out
}

} // verus!
