//! The mathematical model of a character grid: rows of bytes, and what
//! scrolling and writing do to them.
use vstd::prelude::*;

verus! {

/// The byte stored in a blank cell (ASCII space).
pub const SPACE: u8 = 32;

/// A row of `cols` blank cells.
pub open spec fn blank_row(cols: int) -> Seq<u8> {
    Seq::new(cols as nat, |_j: int| SPACE)
}

/// Row `r` of a row-major buffer with `cols` cells per row.
pub open spec fn row_of(data: Seq<u8>, cols: int, r: int) -> Seq<u8> {
    data.subrange(r * cols, r * cols + cols)
}

/// A row-major buffer seen as `rows` rows of `cols` cells.
pub open spec fn rows_of(data: Seq<u8>, cols: int, rows: int) -> Seq<Seq<u8>> {
    Seq::new(rows as nat, |r: int| row_of(data, cols, r))
}

/// Every row of `g` holds `cols` cells.
pub open spec fn well_shaped(g: Seq<Seq<u8>>, cols: int) -> bool {
    forall|r: int| 0 <= r < g.len() ==> #[trigger] g[r].len() == cols
}

/// The grid after scrolling by `k` lines: row `r` takes the content of row
/// `r + k`, and rows with no source become blank. A shift of zero, or of
/// more lines than the grid has, leaves it as it is.
pub open spec fn scrolled(g: Seq<Seq<u8>>, cols: int, k: int) -> Seq<Seq<u8>> {
    if k == 0 || k > g.len() || k < -g.len() {
        g
    } else {
        Seq::new(
            g.len(),
            |r: int|
                if 0 <= r + k < g.len() {
                    g[r + k]
                } else {
                    blank_row(cols)
                },
        )
    }
}

/// The byte that a character is stored as: the low eight bits of its code.
pub open spec fn byte_of(c: char) -> u8 {
    c as u8
}

/// The grid with cell (x, y) set to `b`.
pub open spec fn put_cell(g: Seq<Seq<u8>>, x: int, y: int, b: u8) -> Seq<Seq<u8>> {
    g.update(y, g[y].update(x, b))
}

/// The row with `b` written over it from column `x` on.
pub open spec fn spliced(row: Seq<u8>, x: int, b: Seq<u8>) -> Seq<u8> {
    Seq::new(row.len(), |j: int| if x <= j < x + b.len() { b[j - x] } else { row[j] })
}

/// Grid and cursor after writing `c` at cursor `cur` of a grid with `cols`
/// columns. A newline stores nothing and moves to the start of the next
/// line; any other character is stored and the cursor moves one column,
/// wrapping to the next line at the right edge. Moving past the last line
/// scrolls the grid up by one and keeps the cursor on the last line.
pub open spec fn after_char(g: Seq<Seq<u8>>, cols: int, cur: (int, int), c: char) -> (
    Seq<Seq<u8>>,
    (int, int),
) {
    let x = cur.0;
    let y = cur.1;
    let lf = c == '\n';
    let g1 = if lf {
        g
    } else {
        put_cell(g, x, y, byte_of(c))
    };
    if x + 1 >= cols || lf {
        if y + 1 >= g.len() {
            (scrolled(g1, cols, 1), (0, y))
        } else {
            (g1, (0, y + 1))
        }
    } else {
        (g1, (x + 1, y))
    }
}

/// Grid and cursor after writing each character of `s` in turn.
pub open spec fn after_chars(g: Seq<Seq<u8>>, cols: int, cur: (int, int), s: Seq<char>) -> (
    Seq<Seq<u8>>,
    (int, int),
)
    decreases s.len(),
{
    if s.len() == 0 {
        (g, cur)
    } else {
        let prev = after_chars(g, cols, cur, s.drop_last());
        after_char(prev.0, cols, prev.1, s.last())
    }
}

/// Cell (c, r) lies inside a grid of `rows` rows of `cols` cells.
pub proof fn lemma_cell_in_bounds(cols: int, rows: int, r: int, c: int)
    requires
        0 <= r < rows,
        0 <= c < cols,
    ensures
        0 <= r * cols,
        r * cols + cols <= rows * cols,
        0 <= r * cols + c < rows * cols,
{
    assert(0 <= r * cols) by (nonlinear_arith)
        requires
            0 <= r,
            0 <= c < cols,
    ;
    assert(r * cols + cols <= rows * cols) by (nonlinear_arith)
        requires
            0 <= r < rows,
            0 <= c < cols,
    ;
}

/// Distinct cells have distinct positions in the buffer.
pub proof fn lemma_cell_distinct(cols: int, r1: int, c1: int, r2: int, c2: int)
    requires
        0 <= c1 < cols,
        0 <= c2 < cols,
        r1 != r2 || c1 != c2,
    ensures
        r1 * cols + c1 != r2 * cols + c2,
{
    if r1 < r2 {
        assert(r1 * cols + cols <= r2 * cols) by (nonlinear_arith)
            requires
                r1 < r2,
                0 < cols,
        ;
    } else if r2 < r1 {
        assert(r2 * cols + cols <= r1 * cols) by (nonlinear_arith)
            requires
                r2 < r1,
                0 < cols,
        ;
    }
}

/// A buffer whose cells agree with a grid of the same shape has that grid as
/// its rows.
pub proof fn lemma_rows_of_pointwise(data: Seq<u8>, cols: int, rows: int, g: Seq<Seq<u8>>)
    requires
        0 < cols,
        0 <= rows,
        data.len() == rows * cols,
        g.len() == rows,
        well_shaped(g, cols),
        forall|r: int, c: int|
            0 <= r < rows && 0 <= c < cols ==> data[r * cols + c] == #[trigger] g[r][c],
    ensures
        rows_of(data, cols, rows) == g,
{
    assert forall|r: int| 0 <= r < rows implies row_of(data, cols, r) == g[r] by {
        lemma_cell_in_bounds(cols, rows, r, 0);
        assert forall|c: int| 0 <= c < cols implies row_of(data, cols, r)[c] == g[r][c] by {
            lemma_cell_in_bounds(cols, rows, r, c);
        }
        assert(row_of(data, cols, r) =~= g[r]);
    }
    assert(rows_of(data, cols, rows) =~= g);
}

/// The rows of a buffer, read cell by cell.
pub proof fn lemma_rows_of_cell(data: Seq<u8>, cols: int, rows: int, r: int, c: int)
    requires
        data.len() == rows * cols,
        0 <= r < rows,
        0 <= c < cols,
    ensures
        rows_of(data, cols, rows)[r].len() == cols,
        rows_of(data, cols, rows)[r][c] == data[r * cols + c],
{
    lemma_cell_in_bounds(cols, rows, r, c);
}

/// The rows of a buffer of the right length are well shaped.
pub proof fn lemma_rows_of_shape(data: Seq<u8>, cols: int, rows: int)
    requires
        0 < cols,
        0 <= rows,
        data.len() == rows * cols,
    ensures
        rows_of(data, cols, rows).len() == rows,
        well_shaped(rows_of(data, cols, rows), cols),
{
    assert forall|r: int| 0 <= r < rows implies #[trigger] rows_of(data, cols, rows)[r].len()
        == cols by {
        lemma_cell_in_bounds(cols, rows, r, 0);
    }
}

} // verus!
