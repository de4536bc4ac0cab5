//! Laying out a table as text: one line for the headers, then one line per
//! row for the first rows, each column padded to its widest text.
use vstd::prelude::*;
use vstd::math::max;
use vstd::utf8::encode_utf8;

verus! {

/// After the rows of a table shown by `layout_table`, this many more at
/// most would be shown if there were room: the first `MAX_PRINT_ROWS + 1`
/// rows are shown.
pub const MAX_PRINT_ROWS: usize = 10;

/// The number of spaces between two columns, beyond the padding to a
/// column's width.
pub const COL_PADDING: usize = 3;

/// The width of a text: the number of bytes of its UTF-8 encoding (as
/// `str::len` gives it).
pub open spec fn width(s: Seq<char>) -> usize {
    encode_utf8(s).len() as usize
}

/// The rows that are shown: the first `MAX_PRINT_ROWS + 1`.
pub open spec fn shown(rows: Seq<Seq<Seq<char>>>) -> Seq<Seq<Seq<char>>> {
    if rows.len() <= MAX_PRINT_ROWS + 1 {
        rows
    } else {
        rows.take(MAX_PRINT_ROWS + 1)
    }
}

/// The widest text of column `j` among `header` and the first `n` of `rows`.
pub open spec fn col_width(header: Seq<char>, rows: Seq<Seq<Seq<char>>>, j: int, n: int) -> int
    decreases n,
{
    if n <= 0 {
        width(header) as int
    } else {
        max(col_width(header, rows, j, n - 1), width(rows[n - 1][j]) as int)
    }
}

/// The width of each column of a table with headers `headers` whose shown
/// rows are `rows`.
pub open spec fn col_widths(headers: Seq<Seq<char>>, rows: Seq<Seq<Seq<char>>>) -> Seq<int> {
    Seq::new(headers.len(), |j: int| col_width(headers[j], rows, j, rows.len() as int))
}

/// `n` spaces.
pub open spec fn spaces(n: int) -> Seq<char> {
    Seq::new(n as nat, |i: int| ' ')
}

/// The text of the first `k` cells of a line: each cell but the line's last
/// followed by spaces up to its column's width and `COL_PADDING` more.
pub open spec fn cells_text(cells: Seq<Seq<char>>, widths: Seq<int>, k: int) -> Seq<char>
    decreases k,
{
    if k <= 0 {
        Seq::empty()
    } else {
        let c = cells[k - 1];
        let pad = if k < cells.len() {
            spaces(COL_PADDING + widths[k - 1] - width(c))
        } else {
            Seq::empty()
        };
        cells_text(cells, widths, k - 1) + c + pad
    }
}

/// A line: its cells, then a line break.
pub open spec fn line_text(cells: Seq<Seq<char>>, widths: Seq<int>) -> Seq<char> {
    cells_text(cells, widths, cells.len() as int) + seq!['\n']
}

/// The lines of the first `n` of `rows`.
pub open spec fn rows_text(rows: Seq<Seq<Seq<char>>>, widths: Seq<int>, n: int) -> Seq<char>
    decreases n,
{
    if n <= 0 {
        Seq::empty()
    } else {
        rows_text(rows, widths, n - 1) + line_text(rows[n - 1], widths)
    }
}

/// The text of a table with headers `headers` and rows `rows`: nothing when
/// there is no column; else the header line and the lines of the shown rows,
/// all with the same column widths.
pub open spec fn table_text(headers: Seq<Seq<char>>, rows: Seq<Seq<Seq<char>>>) -> Seq<char> {
    if headers.len() == 0 {
        Seq::empty()
    } else {
        let s = shown(rows);
        let widths = col_widths(headers, s);
        line_text(headers, widths) + rows_text(s, widths, s.len() as int)
    }
}

/// The texts of a list of strings.
pub open spec fn cell_texts(v: Seq<String>) -> Seq<Seq<char>> {
    v.map_values(|s: String| s@)
}

/// The texts of a list of rows.
pub open spec fn row_texts(rows: Seq<Vec<String>>) -> Seq<Seq<Seq<char>>> {
    rows.map_values(|r: Vec<String>| cell_texts(r@))
}

/// The width of a string.
fn width_of(s: &String) -> (r: usize)
    ensures
        r == width(s@),
{
    s.as_str().len()
}

/// Appends `n` spaces to `out`.
fn push_spaces(out: &mut String, n: usize)
    ensures
        final(out)@ == old(out)@ + spaces(n as int),
{
    let mut m: usize = 0;
    while m < n
        invariant
            m <= n,
            out@ == old(out)@ + spaces(m as int),
        decreases n - m,
    {
        proof {
            reveal_strlit(" ");
        }
        out.append(" ");
        assert(spaces(m as int + 1) =~= spaces(m as int) + " "@);
        m += 1;
    }
}

/// Appends the line of `cells` to `out`.
fn push_line(out: &mut String, cells: &Vec<String>, widths: &Vec<usize>)
    requires
        cells@.len() == widths@.len(),
        forall|j: int| 0 <= j < cells@.len() ==> width(#[trigger] cells@[j]@) <= widths@[j],
    ensures
        final(out)@ == old(out)@ + line_text(
            cell_texts(cells@),
            widths@.map_values(|w: usize| w as int),
        ),
{
    let ghost cs = cell_texts(cells@);
    let ghost ws = widths@.map_values(|w: usize| w as int);
    let mut k: usize = 0;
    while k < cells.len()
        invariant
            cs == cell_texts(cells@),
            ws == widths@.map_values(|w: usize| w as int),
            cells@.len() == widths@.len(),
            forall|j: int| 0 <= j < cells@.len() ==> width(#[trigger] cells@[j]@) <= widths@[j],
            k <= cells@.len(),
            out@ == old(out)@ + cells_text(cs, ws, k as int),
        decreases cells@.len() - k,
    {
        let ghost before = out@;
        out.append(cells[k].as_str());
        if k + 1 < cells.len() {
            let w = width_of(&cells[k]);
            assert(w <= widths@[k as int]);
            push_spaces(out, widths[k] - w);
            push_spaces(out, COL_PADDING);
            assert(spaces(widths@[k as int] - w) + spaces(COL_PADDING as int) =~= spaces(
                COL_PADDING + ws[k as int] - width(cs[k as int]),
            ));
        } else {
            assert(cells_text(cs, ws, k + 1) =~= cells_text(cs, ws, k as int) + cs[k as int]);
        }
        k += 1;
    }
    proof {
        reveal_strlit("\n");
    }
    out.append("\n");
    assert(out@ =~= old(out)@ + line_text(cs, ws));
}

/// The text of a table whose headers are `headers` and whose rows, each
/// with one text per column, are `rows`.
pub fn layout_table(headers: &Vec<String>, rows: &Vec<Vec<String>>) -> (r: String)
    requires
        forall|i: int| 0 <= i < rows@.len() ==> (#[trigger] rows@[i])@.len() == headers@.len(),
    ensures
        r@ == table_text(cell_texts(headers@), row_texts(rows@)),
{
    let ghost hs = cell_texts(headers@);
    let ghost rs = row_texts(rows@);
    let mut out = String::new();
    if headers.len() == 0 {
        return out;
    }
    let n_shown: usize = if rows.len() <= MAX_PRINT_ROWS + 1 {
        rows.len()
    } else {
        MAX_PRINT_ROWS + 1
    };
    let ghost s = shown(rs);
    assert(s.len() == n_shown);
    assert(forall|i: int| 0 <= i < n_shown ==> #[trigger] s[i] == rs[i]);
    let mut widths: Vec<usize> = Vec::new();
    let mut j: usize = 0;
    while j < headers.len()
        invariant
            hs == cell_texts(headers@),
            rs == row_texts(rows@),
            s == shown(rs),
            s.len() == n_shown,
            n_shown <= rows@.len(),
            forall|i: int| 0 <= i < n_shown ==> #[trigger] s[i] == rs[i],
            forall|i: int| 0 <= i < rows@.len() ==> (#[trigger] rows@[i])@.len() == headers@.len(),
            j <= headers@.len(),
            widths@.len() == j,
            forall|c: int| 0 <= c < j ==> #[trigger] widths@[c] == col_width(hs[c], s, c, n_shown as int),
        decreases headers@.len() - j,
    {
        let mut w = width_of(&headers[j]);
        let mut i: usize = 0;
        while i < n_shown
            invariant
                hs == cell_texts(headers@),
                rs == row_texts(rows@),
                s.len() == n_shown,
                forall|q: int| 0 <= q < n_shown ==> #[trigger] s[q] == rs[q],
                n_shown <= rows@.len(),
                forall|q: int| 0 <= q < rows@.len() ==> (#[trigger] rows@[q])@.len() == headers@.len(),
                j < headers@.len(),
                i <= n_shown,
                w == col_width(hs[j as int], s, j as int, i as int),
            decreases n_shown - i,
        {
            let cw = width_of(&rows[i][j]);
            assert(s[i as int][j as int] == rows@[i as int]@[j as int]@);
            if cw > w {
                w = cw;
            }
            i += 1;
        }
        widths.push(w);
        j += 1;
    }
    let ghost ws = widths@.map_values(|w: usize| w as int);
    assert(ws =~= col_widths(hs, s));
    proof {
        assert forall|c: int| 0 <= c < headers@.len() implies width(#[trigger] headers@[c]@) <= widths@[c] by {
            lemma_col_width_bounds(hs[c], s, c, n_shown as int);
        }
    }
    push_line(&mut out, headers, &widths);
    let mut i: usize = 0;
    while i < n_shown
        invariant
            hs == cell_texts(headers@),
            rs == row_texts(rows@),
            s == shown(rs),
            forall|q: int| 0 <= q < n_shown ==> #[trigger] s[q] == rs[q],
            n_shown <= rows@.len(),
            s.len() == n_shown,
            forall|q: int| 0 <= q < rows@.len() ==> (#[trigger] rows@[q])@.len() == headers@.len(),
            widths@.len() == headers@.len(),
            ws == widths@.map_values(|w: usize| w as int),
            ws == col_widths(hs, s),
            i <= n_shown,
            out@ == line_text(hs, ws) + rows_text(s, ws, i as int),
        decreases n_shown - i,
    {
        proof {
            assert forall|c: int| 0 <= c < headers@.len() implies width(#[trigger] rows@[i as int]@[c]@) <= widths@[c] by {
                assert(s[i as int][c] == rows@[i as int]@[c]@);
                lemma_col_width_bounds(hs[c], s, c, n_shown as int);
                assert(ws[c] == widths@[c] as int);
                assert(ws[c] == col_width(hs[c], s, c, n_shown as int));
            }
            assert(cell_texts(rows@[i as int]@) == s[i as int]);
        }
        push_line(&mut out, &rows[i], &widths);
        i += 1;
    }
    out
}

/// A column's width is at least the width of its header and of each cell
/// of the rows it is taken over.
proof fn lemma_col_width_bounds(header: Seq<char>, rows: Seq<Seq<Seq<char>>>, j: int, n: int)
    ensures
        width(header) <= col_width(header, rows, j, n),
        forall|i: int| 0 <= i < n ==> width(#[trigger] rows[i][j]) <= col_width(header, rows, j, n),
    decreases n,
{
    if n > 0 {
        lemma_col_width_bounds(header, rows, j, n - 1);
    }
}

} // verus!
