//! Minimal fixed-width table rendering for human-readable output.
use vstd::prelude::*;
use crate::text::{
    chars_of, chars_of_string, extend, join, lemma_join_push, to_string, trim_end, trim_end_pos, views,
};

verus! {

/// Per-column text alignment.
#[derive(Copy, Clone, Debug, PartialEq, Eq, Structural)]
pub enum Align {
    Left,
    Right,
}

/// `n` copies of `c`.
pub open spec fn repeat(c: char, n: nat) -> Seq<char> {
    Seq::new(n, |_i: int| c)
}

/// A cell padded with spaces to `w` characters (`format!("{cell:<w$}")` or
/// `format!("{cell:>w$}")`); a cell already `w` wide or wider is unchanged.
pub open spec fn pad(cell: Seq<char>, w: nat, a: Align) -> Seq<char> {
    if cell.len() >= w {
        cell
    } else {
        match a {
            Align::Left => cell + repeat(' ', (w - cell.len()) as nat),
            Align::Right => repeat(' ', (w - cell.len()) as nat) + cell,
        }
    }
}

/// The alignment of column `i`: its entry in `align`, or `Left` when absent.
pub open spec fn align_at(align: Seq<Align>, i: int) -> Align {
    if 0 <= i < align.len() {
        align[i]
    } else {
        Align::Left
    }
}

/// The padded cells of one row, before they are joined.
pub open spec fn padded(cells: Seq<Seq<char>>, widths: Seq<nat>, align: Seq<Align>) -> Seq<Seq<char>> {
    Seq::new(cells.len(), |i: int| pad(cells[i], widths[i], align_at(align, i)))
}

/// One rendered row: the padded cells joined by two spaces, trailing
/// whitespace removed, then a newline.
pub open spec fn row_line(cells: Seq<Seq<char>>, widths: Seq<nat>, align: Seq<Align>) -> Seq<char> {
    trim_end(join(padded(cells, widths, align), seq![' ', ' '])).push('\n')
}

/// The width of column `i`: the widest of its header (of length `header_len`)
/// and of the cells of that column in `rows`.
pub open spec fn col_width(header_len: nat, rows: Seq<Seq<Seq<char>>>, i: int) -> nat
    decreases rows.len(),
{
    if rows.len() == 0 {
        header_len
    } else {
        let w = col_width(header_len, rows.drop_last(), i);
        let last = rows.last();
        if 0 <= i < last.len() && last[i].len() > w {
            last[i].len()
        } else {
            w
        }
    }
}

/// The widths of all columns.
pub open spec fn widths(headers: Seq<Seq<char>>, rows: Seq<Seq<Seq<char>>>) -> Seq<nat> {
    Seq::new(headers.len(), |i: int| col_width(headers[i].len(), rows, i))
}

/// The dashed separator cells, one per column.
pub open spec fn separators(widths: Seq<nat>) -> Seq<Seq<char>> {
    Seq::new(widths.len(), |i: int| repeat('-', widths[i]))
}

/// The rendered lines of `rows`.
pub open spec fn body(rows: Seq<Seq<Seq<char>>>, widths: Seq<nat>, align: Seq<Align>) -> Seq<char>
    decreases rows.len(),
{
    if rows.len() == 0 {
        seq![]
    } else {
        body(rows.drop_last(), widths, align) + row_line(rows.last(), widths, align)
    }
}

/// The whole table: header line, dashed separator line, then one line per row.
pub open spec fn table(headers: Seq<Seq<char>>, rows: Seq<Seq<Seq<char>>>, align: Seq<Align>) -> Seq<char> {
    let w = widths(headers, rows);
    row_line(headers, w, align) + row_line(separators(w), w, align) + body(rows, w, align)
}

/// No row has more cells than there are headers.
pub open spec fn rows_fit(cols: nat, rows: Seq<Seq<Seq<char>>>) -> bool {
    forall|r: int| 0 <= r < rows.len() ==> #[trigger] rows[r].len() <= cols
}

/// The text of a row of `String` cells.
pub open spec fn cells_view(row: Vec<String>) -> Seq<Seq<char>> {
    row@.map_values(|c: String| c@)
}

/// The text of rows of `String` cells.
pub open spec fn rows_view(rows: Seq<Vec<String>>) -> Seq<Seq<Seq<char>>> {
    rows.map_values(|r: Vec<String>| cells_view(r))
}

/// The text of a slice of headers.
pub open spec fn headers_view(headers: Seq<&str>) -> Seq<Seq<char>> {
    headers.map_values(|h: &str| h@)
}

/// Lemma: `col_width` bounds every cell of its column and the header.
pub proof fn lemma_col_width_bound(header_len: nat, rows: Seq<Seq<Seq<char>>>, i: int)
    ensures
        header_len <= col_width(header_len, rows, i),
        forall|r: int|
            0 <= r < rows.len() && 0 <= i < rows[r].len() ==> rows[r][i].len() <= col_width(
                header_len,
                rows,
                i,
            ),
    decreases rows.len(),
{
    if rows.len() > 0 {
        lemma_col_width_bound(header_len, rows.drop_last(), i);
        assert forall|r: int|
            0 <= r < rows.len() && 0 <= i < rows[r].len() implies rows[r][i].len() <= col_width(
            header_len,
            rows,
            i,
        ) by {
            if r < rows.len() - 1 {
                assert(rows.drop_last()[r] == rows[r]);
            }
        }
    }
}

proof fn lemma_col_width_attained(header_len: nat, rows: Seq<Seq<Seq<char>>>, i: int)
    ensures
        col_width(header_len, rows, i) == header_len || exists|r: int|
            0 <= r < rows.len() && 0 <= i < rows[r].len() && #[trigger] rows[r][i].len() == col_width(
                header_len,
                rows,
                i,
            ),
    decreases rows.len(),
{
    if rows.len() > 0 {
        let init = rows.drop_last();
        lemma_col_width_attained(header_len, init, i);
        let w = col_width(header_len, init, i);
        let last = rows.last();
        if 0 <= i < last.len() && last[i].len() > w {
            assert(rows[rows.len() - 1][i].len() == col_width(header_len, rows, i));
        } else if w != header_len {
            let r = choose|r: int| 0 <= r < init.len() && 0 <= i < init[r].len() && #[trigger] init[r][i].len() == w;
            assert(init[r] == rows[r]);
            assert(rows[r][i].len() == col_width(header_len, rows, i));
        }
    }
}

/// Law: the columns line up. Each column is exactly as wide as its widest
/// entry (the header or one of its cells), and the header and every cell of
/// the column are padded to exactly that width.
pub proof fn lemma_columns_line_up(headers: Seq<Seq<char>>, rows: Seq<Seq<Seq<char>>>, align: Seq<Align>, i: int)
    requires
        0 <= i < headers.len(),
    ensures
        ({
            let w = widths(headers, rows)[i];
            &&& pad(headers[i], w, align_at(align, i)).len() == w
            &&& forall|r: int|
                0 <= r < rows.len() && 0 <= i < rows[r].len() ==> #[trigger] pad(rows[r][i], w, align_at(align, i)).len()
                    == w
            &&& (w == headers[i].len() || exists|r: int|
                0 <= r < rows.len() && 0 <= i < rows[r].len() && #[trigger] rows[r][i].len() == w)
        }),
{
    lemma_col_width_bound(headers[i].len(), rows, i);
    lemma_col_width_attained(headers[i].len(), rows, i);
}

/// Law: every rendered table — even one without rows — ends with a newline.
pub proof fn lemma_table_ends_with_newline(
    headers: Seq<Seq<char>>,
    rows: Seq<Seq<Seq<char>>>,
    align: Seq<Align>,
)
    ensures
        table(headers, rows, align).len() > 0,
        table(headers, rows, align).last() == '\n',
{
    let w = widths(headers, rows);
    let t = table(headers, rows, align);
    if rows.len() == 0 {
        assert(body(rows, w, align) =~= Seq::<char>::empty());
        assert(t =~= row_line(headers, w, align) + row_line(separators(w), w, align));
    } else {
        let b = body(rows, w, align);
        assert(b == body(rows.drop_last(), w, align) + row_line(rows.last(), w, align));
        assert(t.last() == b.last());
    }
}

/// Law: no line of a rendered table ends in a space before its newline
/// (trailing padding is dropped).
pub proof fn lemma_row_line_no_trailing_space(
    cells: Seq<Seq<char>>,
    widths: Seq<nat>,
    align: Seq<Align>,
)
    ensures
        ({
            let l = row_line(cells, widths, align);
            l.len() >= 2 ==> l[l.len() - 2] != ' '
        }),
{
    let t = join(padded(cells, widths, align), seq![' ', ' ']);
    lemma_trim_end_last(t);
}

proof fn lemma_trim_end_last(s: Seq<char>)
    ensures
        trim_end(s).len() > 0 ==> !crate::text::is_ws(trim_end(s).last()),
    decreases s.len(),
{
    if s.len() > 0 && crate::text::is_ws(s.last()) {
        lemma_trim_end_last(s.drop_last());
    }
}

/// Spaces (or another character) repeated `n` times, appended to `out`.
fn push_repeat(out: &mut Vec<char>, c: char, n: usize)
    ensures
        final(out)@ == old(out)@ + repeat(c, n as nat),
{
    let mut k: usize = 0;
    while k < n
        invariant
            k <= n,
            out@ == old(out)@ + repeat(c, k as nat),
        decreases n - k,
    {
        out.push(c);
        assert(old(out)@ + repeat(c, (k + 1) as nat) =~= old(out)@ + repeat(c, k as nat) + seq![c]);
        k = k + 1;
    }
}

/// Appends one rendered row to `out`.
fn push_row(out: &mut Vec<char>, cells: &[Vec<char>], widths: &[usize], align: &[Align])
    requires
        cells.len() <= widths.len(),
    ensures
        final(out)@ == old(out)@ + row_line(
            views(cells@),
            widths@.map_values(|w: usize| w as nat),
            align@,
        ),
{
    let ghost ws = widths@.map_values(|w: usize| w as nat);
    let ghost cv = views(cells@);
    let ghost pd = padded(cv, ws, align@);
    let mut line: Vec<char> = Vec::new();
    let mut i: usize = 0;
    while i < cells.len()
        invariant
            cells.len() <= widths.len(),
            i <= cells.len(),
            ws == widths@.map_values(|w: usize| w as nat),
            cv == views(cells@),
            pd == padded(cv, ws, align@),
            line@ == join(pd.take(i as int), seq![' ', ' ']),
        decreases cells.len() - i,
    {
        proof {
            lemma_join_push(pd.take(i as int), seq![' ', ' '], pd[i as int]);
            assert(pd.take(i as int).push(pd[i as int]) =~= pd.take(i + 1));
        }
        let ghost before = line@;
        if i > 0 {
            line.push(' ');
            line.push(' ');
            assert(line@ =~= before + seq![' ', ' ']);
        }
        let ghost mid = line@;
        let w = widths[i];
        let cell = &cells[i];
        let a = if i < align.len() {
            align[i]
        } else {
            Align::Left
        };
        assert(a == align_at(align@, i as int));
        assert(cell@ == cv[i as int]);
        if cell.len() >= w {
            extend(&mut line, cell);
        } else {
            match a {
                Align::Left => {
                    extend(&mut line, cell);
                    push_repeat(&mut line, ' ', w - cell.len());
                },
                Align::Right => {
                    push_repeat(&mut line, ' ', w - cell.len());
                    extend(&mut line, cell);
                },
            }
        }
        assert(line@ =~= mid + pd[i as int]);
        i = i + 1;
    }
    assert(pd.take(cells.len() as int) =~= pd);
    let end = trim_end_pos(&line, line.len());
    assert(line@.take(line@.len() as int) =~= line@);
    let mut k: usize = 0;
    while k < end
        invariant
            end <= line.len(),
            k <= end,
            out@ == old(out)@ + line@.take(k as int),
        decreases end - k,
    {
        out.push(line[k]);
        assert(old(out)@ + line@.take(k + 1) =~= old(out)@ + line@.take(k as int) + seq![line@[k as int]]);
        k = k + 1;
    }
    out.push('\n');
    assert(old(out)@ + line@.take(end as int) + seq!['\n'] =~= old(out)@ + line@.take(end as int).push('\n'));
}

/// Render `headers` + `rows` as an auto-sized table with a dashed separator
/// beneath the header. `align` selects per-column alignment; any column without
/// an entry defaults to [`Align::Left`]. The result ends with a trailing newline.
///
/// Column widths count characters. Each line has its trailing padding removed.
pub fn render(headers: &[&str], rows: &[Vec<String>], align: &[Align]) -> (r: String)
    requires
        rows_fit(headers@.len(), rows_view(rows@)),
    ensures
        r@ == table(headers_view(headers@), rows_view(rows@), align@),
{
    let ghost hv = headers_view(headers@);
    let ghost rv = rows_view(rows@);
    let cols = headers.len();
    // Header cells and column widths.
    let mut hcells: Vec<Vec<char>> = Vec::new();
    let mut widths: Vec<usize> = Vec::new();
    let mut i: usize = 0;
    while i < cols
        invariant
            cols == headers.len(),
            hv == headers_view(headers@),
            i <= cols,
            views(hcells@) == hv.take(i as int),
            widths@.len() == i,
            forall|j: int| 0 <= j < i ==> widths@[j] == hv[j].len(),
        decreases cols - i,
    {
        let h = chars_of(headers[i]);
        widths.push(h.len());
        let ghost old_h = hcells@;
        hcells.push(h);
        assert(views(hcells@) =~= views(old_h).push(h@));
        assert(hv.take(i + 1) =~= hv.take(i as int).push(hv[i as int]));
        i = i + 1;
    }
    assert(hv.take(cols as int) =~= hv);
    // Row cells, widening the columns as we go.
    let mut rcells: Vec<Vec<Vec<char>>> = Vec::new();
    let mut r: usize = 0;
    while r < rows.len()
        invariant
            cols == headers.len(),
            hv == headers_view(headers@),
            rv == rows_view(rows@),
            rows_fit(cols as nat, rv),
            r <= rows.len(),
            rcells@.len() == r,
            forall|k: int| 0 <= k < r ==> #[trigger] views(rcells@[k]@) == rv[k],
            widths@.len() == cols,
            forall|j: int|
                0 <= j < cols ==> #[trigger] widths@[j] == col_width(
                    hv[j].len(),
                    rv.take(r as int),
                    j,
                ),
        decreases rows.len() - r,
    {
        let row = &rows[r];
        assert(rv[r as int] == cells_view(*row));
        assert(rv[r as int].len() <= cols);
        let mut cells: Vec<Vec<char>> = Vec::new();
        let mut c: usize = 0;
        let ghost wprev = widths@;
        while c < row.len()
            invariant
                row.len() <= cols,
                widths@.len() == cols,
                c <= row.len(),
                rv[r as int] == cells_view(*row),
                views(cells@) == rv[r as int].take(c as int),
                forall|j: int|
                    0 <= j < cols ==> #[trigger] widths@[j] as nat == if j < c && rv[r as int][j].len()
                        > wprev[j] {
                        rv[r as int][j].len()
                    } else {
                        wprev[j] as nat
                    },
            decreases row.len() - c,
        {
            let cell = chars_of_string(&row[c]);
            assert(cell@ == rv[r as int][c as int]);
            if cell.len() > widths[c] {
                widths.set(c, cell.len());
            }
            let ghost old_c = cells@;
            cells.push(cell);
            assert(views(cells@) =~= views(old_c).push(cell@));
            assert(rv[r as int].take(c + 1) =~= rv[r as int].take(c as int).push(
                rv[r as int][c as int],
            ));
            c = c + 1;
        }
        assert(rv[r as int].take(row.len() as int) =~= rv[r as int]);
        proof {
            assert forall|j: int| 0 <= j < cols implies #[trigger] widths@[j] == col_width(
                hv[j].len(),
                rv.take(r + 1),
                j,
            ) by {
                assert(rv.take(r + 1).drop_last() =~= rv.take(r as int));
                assert(rv.take(r + 1).last() == rv[r as int]);
            }
        }
        let ghost old_rc = rcells@;
        rcells.push(cells);
        assert forall|k: int| 0 <= k < r + 1 implies #[trigger] views(rcells@[k]@) == rv[k] by {
            if k < r {
                assert(rcells@[k] == old_rc[k]);
            }
        }
        r = r + 1;
    }
    assert(rv.take(rows.len() as int) =~= rv);
    let ghost ws = widths@.map_values(|w: usize| w as nat);
    assert(ws =~= crate::table::widths(hv, rv));
    // Header line.
    let mut out: Vec<char> = Vec::new();
    push_row(&mut out, &hcells, &widths, align);
    // Separator line.
    let mut seps: Vec<Vec<char>> = Vec::new();
    let mut j: usize = 0;
    while j < cols
        invariant
            widths@.len() == cols,
            j <= cols,
            ws == widths@.map_values(|w: usize| w as nat),
            views(seps@) == separators(ws).take(j as int),
        decreases cols - j,
    {
        let mut s: Vec<char> = Vec::new();
        push_repeat(&mut s, '-', widths[j]);
        assert(s@ =~= repeat('-', ws[j as int]));
        let ghost old_s = seps@;
        seps.push(s);
        assert(views(seps@) =~= views(old_s).push(s@));
        assert(separators(ws).take(j + 1) =~= separators(ws).take(j as int).push(
            separators(ws)[j as int],
        ));
        j = j + 1;
    }
    assert(separators(ws).take(cols as int) =~= separators(ws));
    push_row(&mut out, &seps, &widths, align);
    // Body lines.
    let ghost head = out@;
    let mut k: usize = 0;
    while k < rcells.len()
        invariant
            widths@.len() == cols,
            rcells@.len() == rv.len(),
            ws == widths@.map_values(|w: usize| w as nat),
            rows_fit(cols as nat, rv),
            forall|q: int| 0 <= q < rcells@.len() ==> #[trigger] views(rcells@[q]@) == rv[q],
            k <= rcells.len(),
            out@ == head + body(rv.take(k as int), ws, align@),
        decreases rcells.len() - k,
    {
        assert(views(rcells@[k as int]@) == rv[k as int]);
        assert(rv[k as int].len() <= cols);
        push_row(&mut out, &rcells[k], &widths, align);
        assert(rv.take(k + 1).drop_last() =~= rv.take(k as int));
        k = k + 1;
    }
    assert(rv.take(rcells.len() as int) =~= rv);
    to_string(&out)
}

} // verus!
