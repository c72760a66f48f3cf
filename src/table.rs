//! Rendering headers and rows as a text table whose columns are padded to the
//! width of their widest member.
use vstd::prelude::*;
use vstd::string::{StrSliceExecFns, StringExecFns};

verus! {

/// `n` spaces.
pub open spec fn spaces(n: nat) -> Seq<char> {
    Seq::new(n, |i: int| ' ')
}

/// One cell: a space, the text padded with spaces to `width`, a space.
pub open spec fn cell_text(cell: Seq<char>, width: nat) -> Seq<char> {
    seq![' '] + cell + spaces((width - cell.len()) as nat) + seq![' ']
}

/// The width that cell `j` of a line is padded to: its column's width, but
/// for the last cell, which is not padded.
pub open spec fn pad_width(cells: Seq<Seq<char>>, widths: Seq<nat>, j: int) -> nat {
    if j + 1 < cells.len() {
        widths[j]
    } else {
        cells[j].len()
    }
}

/// The first `c` cells of a line, each padded to its width (see `pad_width`).
pub open spec fn cells_text(cells: Seq<Seq<char>>, widths: Seq<nat>, c: nat) -> Seq<char>
    decreases c,
{
    if c == 0 {
        Seq::empty()
    } else {
        cells_text(cells, widths, (c - 1) as nat) + cell_text(
            cells[c - 1],
            pad_width(cells, widths, c - 1),
        )
    }
}

/// A whole line: every cell but the last padded to its column's width, then
/// a newline.
pub open spec fn line_text(cells: Seq<Seq<char>>, widths: Seq<nat>) -> Seq<char> {
    cells_text(cells, widths, cells.len()) + seq!['\n']
}

/// The lines of the first `r` rows.
pub open spec fn lines_text(rows: Seq<Seq<Seq<char>>>, widths: Seq<nat>, r: nat) -> Seq<char>
    decreases r,
{
    if r == 0 {
        Seq::empty()
    } else {
        lines_text(rows, widths, (r - 1) as nat) + line_text(rows[r - 1], widths)
    }
}

/// The width of column `j` over the header and the first `r` rows: the length
/// of the longest of their cells in that column.
pub open spec fn column_width(
    headers: Seq<Seq<char>>,
    rows: Seq<Seq<Seq<char>>>,
    j: int,
    r: nat,
) -> nat
    decreases r,
{
    if r == 0 {
        headers[j].len()
    } else {
        let before = column_width(headers, rows, j, (r - 1) as nat);
        let len = rows[r - 1][j].len();
        if len > before {
            len
        } else {
            before
        }
    }
}

/// The width of every column, over the header and all rows.
pub open spec fn table_widths(headers: Seq<Seq<char>>, rows: Seq<Seq<Seq<char>>>) -> Seq<nat> {
    Seq::new(headers.len(), |j: int| column_width(headers, rows, j, rows.len()))
}

/// The table: the header line, then one line per row, in order.
pub open spec fn table_text(headers: Seq<Seq<char>>, rows: Seq<Seq<Seq<char>>>) -> Seq<char> {
    let widths = table_widths(headers, rows);
    line_text(headers, widths) + lines_text(rows, widths, rows.len())
}

/// Every row has one cell per header.
pub open spec fn rows_match_headers(headers: Seq<Seq<char>>, rows: Seq<Seq<Seq<char>>>) -> bool {
    forall|i: int| 0 <= i < rows.len() ==> #[trigger] rows[i].len() == headers.len()
}

/// Widths as mathematical integers.
pub open spec fn nat_widths(w: Seq<usize>) -> Seq<nat> {
    Seq::new(w.len(), |i: int| w[i] as nat)
}

/// A column is at least as wide as its header and each of its cells.
proof fn lemma_column_width_bounds(
    headers: Seq<Seq<char>>,
    rows: Seq<Seq<Seq<char>>>,
    j: int,
    r: nat,
)
    requires
        r <= rows.len(),
    ensures
        headers[j].len() <= column_width(headers, rows, j, r),
        forall|i: int| 0 <= i < r ==> #[trigger] rows[i][j].len() <= column_width(headers, rows, j, r),
    decreases r,
{
    if r > 0 {
        lemma_column_width_bounds(headers, rows, j, (r - 1) as nat);
    }
}

/// Appends one line: `cells`, each padded to its width, then a newline.
fn push_line(out: &mut String, cells: &Vec<String>, widths: &Vec<usize>)
    requires
        cells.len() == widths.len(),
        forall|j: int| 0 <= j < cells.len() ==> (#[trigger] cells[j])@.len() <= widths[j],
    ensures
        final(out)@ == old(out)@ + line_text(cells.deep_view(), nat_widths(widths@)),
{
    let ghost start = out@;
    let ghost model = cells.deep_view();
    let ghost ws = nat_widths(widths@);
    let mut c: usize = 0;
    while c < cells.len()
        invariant
            c <= cells.len(),
            cells.len() == widths.len(),
            model == cells.deep_view(),
            ws == nat_widths(widths@),
            forall|j: int| 0 <= j < cells.len() ==> (#[trigger] cells[j])@.len() <= widths[j],
            out@ == start + cells_text(model, ws, c as nat),
        decreases cells.len() - c,
    {
        let cell = &cells[c];
        let len = cell.as_str().unicode_len();
        let width = if c + 1 < cells.len() {
            widths[c]
        } else {
            len
        };
        let ghost before = out@;
        proof {
            reveal_strlit(" ");
            assert(" "@ =~= seq![' ']);
        }
        out.append(" ");
        out.append(cell.as_str());
        let mut pad: usize = len;
        assert(out@ =~= before + seq![' '] + cell@ + spaces(0));
        while pad < width
            invariant
                len <= pad <= width,
                len == cell@.len(),
                out@ == before + seq![' '] + cell@ + spaces((pad - len) as nat),
            decreases width - pad,
        {
            proof {
                reveal_strlit(" ");
                assert(" "@ =~= seq![' ']);
            }
            out.append(" ");
            pad = pad + 1;
            assert(out@ =~= before + seq![' '] + cell@ + spaces((pad - len) as nat));
        }
        out.append(" ");
        assert(model[c as int] == cell@);
        assert(cells_text(model, ws, c as nat + 1) == cells_text(model, ws, c as nat) + cell_text(
            cell@,
            pad_width(model, ws, c as int),
        ));
        assert(out@ =~= start + cells_text(model, ws, c as nat + 1));
        c = c + 1;
    }
    proof {
        reveal_strlit("\n");
        assert("\n"@ =~= seq!['\n']);
    }
    out.append("\n");
    assert(out@ =~= old(out)@ + line_text(model, ws));
}

/// The width of each column over `headers` and `rows`.
fn column_widths(headers: &Vec<String>, rows: &Vec<Vec<String>>) -> (w: Vec<usize>)
    requires
        rows_match_headers(headers.deep_view(), rows.deep_view()),
    ensures
        w@.len() == headers@.len(),
        nat_widths(w@) == table_widths(headers.deep_view(), rows.deep_view()),
{
    let ghost hs = headers.deep_view();
    let ghost rs = rows.deep_view();
    let mut w: Vec<usize> = Vec::new();
    let mut j: usize = 0;
    while j < headers.len()
        invariant
            j <= headers.len(),
            hs == headers.deep_view(),
            rs == rows.deep_view(),
            rows_match_headers(hs, rs),
            w@.len() == j,
            forall|k: int| 0 <= k < j ==> (#[trigger] w@[k]) as nat == column_width(hs, rs, k, rs.len()),
        decreases headers.len() - j,
    {
        let mut width: usize = headers[j].as_str().unicode_len();
        let mut r: usize = 0;
        while r < rows.len()
            invariant
                j < headers.len(),
                r <= rows.len(),
                hs == headers.deep_view(),
                rs == rows.deep_view(),
                rows_match_headers(hs, rs),
                width as nat == column_width(hs, rs, j as int, r as nat),
            decreases rows.len() - r,
        {
            assert(rs[r as int].len() == hs.len());
            assert(rows[r as int]@.len() == headers@.len());
            let len = rows[r][j].as_str().unicode_len();
            assert(rs[r as int][j as int] == rows[r as int][j as int]@);
            if len > width {
                width = len;
            }
            r = r + 1;
        }
        w.push(width);
        j = j + 1;
    }
    assert(nat_widths(w@) =~= table_widths(hs, rs));
    w
}

/// Renders `headers` and `rows` as a table: one line for the headers, then
/// one line per row, in order. Each cell is a space, its text padded with
/// spaces to the width of the widest member of its column (the last column
/// is not padded), and a space; each line ends with a newline.
pub fn render_table(headers: &Vec<String>, rows: &Vec<Vec<String>>) -> (r: String)
    requires
        rows_match_headers(headers.deep_view(), rows.deep_view()),
    ensures
        r@ == table_text(headers.deep_view(), rows.deep_view()),
{
    let ghost hs = headers.deep_view();
    let ghost rs = rows.deep_view();
    let widths = column_widths(headers, rows);
    let ghost ws = nat_widths(widths@);
    proof {
        assert forall|j: int| 0 <= j < headers.len() implies (#[trigger] headers[j])@.len()
            <= widths[j] by {
            lemma_column_width_bounds(hs, rs, j, rs.len());
            assert(ws[j] == widths[j] as nat);
        }
    }
    let mut out = String::new();
    push_line(&mut out, headers, &widths);
    let mut r: usize = 0;
    while r < rows.len()
        invariant
            r <= rows.len(),
            hs == headers.deep_view(),
            rs == rows.deep_view(),
            rows_match_headers(hs, rs),
            ws == nat_widths(widths@),
            ws == table_widths(hs, rs),
            widths@.len() == hs.len(),
            out@ == line_text(hs, ws) + lines_text(rs, ws, r as nat),
        decreases rows.len() - r,
    {
        let row = &rows[r];
        assert(rs[r as int] == row.deep_view());
        assert(rs[r as int].len() == hs.len());
        proof {
            assert forall|j: int| 0 <= j < row.len() implies (#[trigger] row[j])@.len()
                <= widths[j] by {
                lemma_column_width_bounds(hs, rs, j, rs.len());
                assert(rs[r as int][j] == row[j]@);
                assert(ws[j] == widths[j] as nat);
            }
        }
        push_line(&mut out, row, &widths);
        assert(out@ =~= line_text(hs, ws) + lines_text(rs, ws, r as nat + 1));
        r = r + 1;
    }
    out
}

/// The table begins with the header line: the headers, in the order given,
/// each but the last padded to its column's width.
pub proof fn law_header_line_first(headers: Seq<Seq<char>>, rows: Seq<Seq<Seq<char>>>)
    ensures
        table_text(headers, rows).subrange(
            0,
            line_text(headers, table_widths(headers, rows)).len() as int,
        ) == line_text(headers, table_widths(headers, rows)),
{
    let h = line_text(headers, table_widths(headers, rows));
    assert(table_text(headers, rows).subrange(0, h.len() as int) =~= h);
}

} // verus!
