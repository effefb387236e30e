//! A terminal: a character grid with a cursor, and the handles its render
//! passes draw with.
use vstd::prelude::*;
use vstd::string::StringSliceAdditionalSpecFns;

use crate::font::LoadedFont;
use crate::glutil::Framebuffer;
use crate::grid::{
    after_char, blank_row, byte_of, lemma_cell_distinct, lemma_cell_in_bounds,
    lemma_rows_of_cell, lemma_rows_of_pointwise, lemma_rows_of_shape, put_cell, rows_of, scrolled,
    spliced, SPACE,
};

verus! {

/// Which of the two decay framebuffers holds the previous frame.
#[derive(Clone, Copy, Debug, PartialEq, Eq, Structural)]
pub enum Phase {
    A,
    B,
}

impl Phase {
    /// The other phase.
    pub open spec fn other(self) -> Phase {
        match self {
            Phase::A => Phase::B,
            Phase::B => Phase::A,
        }
    }

    /// Position of this phase's framebuffer in a pair.
    pub open spec fn index(self) -> int {
        match self {
            Phase::A => 0,
            Phase::B => 1,
        }
    }

    /// The other phase.
    pub fn flipped(self) -> (r: Phase)
        ensures
            r == self.other(),
    {
        match self {
            Phase::A => Phase::B,
            Phase::B => Phase::A,
        }
    }

    /// Position of this phase's framebuffer in a pair.
    pub fn slot(self) -> (r: usize)
        ensures
            r == self.index(),
    {
        match self {
            Phase::A => 0,
            Phase::B => 1,
        }
    }
}

/// The backend objects a terminal renders with.
#[derive(Clone, Copy, Debug)]
pub struct TerminalGLState {
    /// Vertex array of the quad the characters are drawn on.
    pub beam_vao: u32,
    /// Vertex array of the quad used to composite framebuffers.
    pub crt_vao: u32,
    /// Texture that holds the grid's bytes.
    pub data_texture: u32,
    /// The two framebuffers that take turns holding the phosphor state.
    pub crt_fb: [Framebuffer; 2],
    /// Framebuffers for the beam trace.
    pub beam_fb: [Framebuffer; 2],
    /// Which of `crt_fb` holds the previous frame.
    pub crt_phase: Phase,
}

impl TerminalGLState {
    /// Handles for a terminal's render passes; the phase starts at `A`.
    pub fn new(
        beam_vao: u32,
        crt_vao: u32,
        data_texture: u32,
        crt_fb: [Framebuffer; 2],
        beam_fb: [Framebuffer; 2],
    ) -> (r: TerminalGLState)
        ensures
            r.beam_vao == beam_vao,
            r.crt_vao == crt_vao,
            r.data_texture == data_texture,
            r.crt_fb == crt_fb,
            r.beam_fb == beam_fb,
            r.crt_phase == Phase::A,
    {
        TerminalGLState { beam_vao, crt_vao, data_texture, crt_fb, beam_fb, crt_phase: Phase::A }
    }
}

/// Errors of writes that would fall outside the grid.
#[derive(Clone, Copy, Debug, PartialEq, Eq, Structural)]
pub enum GridError {
    OutOfBounds,
}

/// An area to render text into, with the text it currently shows.
pub struct Terminal {
    /// Columns and rows of characters.
    pub term_dim: (i32, i32),
    /// Size in pixels of the surface the terminal is presented on.
    pub render_dim: (i32, i32),
    /// The characters shown, row by row.
    pub data: Vec<u8>,
    /// The font the characters are drawn with.
    pub font: LoadedFont,
    /// Column and row where `write_char` puts the next character.
    pub cursor: (i32, i32),
    pub gl: TerminalGLState,
}

/// Largest number of rows: line numbers and scroll counts are `i8`.
pub const MAX_ROWS: i32 = 127;

impl Terminal {
    /// Number of columns.
    pub open spec fn cols(&self) -> int {
        self.term_dim.0 as int
    }

    /// Number of rows.
    pub open spec fn rows(&self) -> int {
        self.term_dim.1 as int
    }

    /// The grid's content, row by row.
    pub open spec fn grid(&self) -> Seq<Seq<u8>> {
        rows_of(self.data@, self.cols(), self.rows())
    }

    /// The cursor as (column, row).
    pub open spec fn cursor_at(&self) -> (int, int) {
        (self.cursor.0 as int, self.cursor.1 as int)
    }

    /// Dimensions are positive, the buffer holds one byte per cell and the
    /// cursor is on the grid.
    pub open spec fn wf(&self) -> bool {
        &&& 0 < self.term_dim.0
        &&& 0 < self.term_dim.1 <= MAX_ROWS
        &&& self.data@.len() == self.rows() * self.cols()
        &&& 0 <= self.cursor.0 < self.term_dim.0
        &&& 0 <= self.cursor.1 < self.term_dim.1
    }

    /// `other` differs from `self` at most in its characters.
    pub open spec fn same_but_data(&self, other: &Terminal) -> bool {
        &&& self.term_dim == other.term_dim
        &&& self.render_dim == other.render_dim
        &&& self.font == other.font
        &&& self.cursor == other.cursor
        &&& self.gl == other.gl
    }

    /// A terminal of `term_dim` columns and rows, all blank, cursor at the
    /// top left, drawing with `font` on the backend objects in `gl`.
    pub fn new(term_dim: (i32, i32), render_dim: (i32, i32), font: LoadedFont, gl: TerminalGLState) -> (r: Terminal)
        requires
            0 < term_dim.0,
            0 < term_dim.1 <= MAX_ROWS,
            term_dim.0 <= usize::MAX / 127,
        ensures
            r.wf(),
            r.term_dim == term_dim,
            r.render_dim == render_dim,
            r.font == font,
            r.gl == gl,
            r.cursor == (0i32, 0i32),
            r.grid() == Seq::new(term_dim.1 as nat, |_r: int| blank_row(term_dim.0 as int)),
    {
        let cols = term_dim.0 as usize;
        let rows = term_dim.1 as usize;
        assert(rows * cols <= usize::MAX) by (nonlinear_arith)
            requires
                rows <= 127,
                cols <= usize::MAX / 127,
        ;
        let n = rows * cols;
        let mut data: Vec<u8> = Vec::new();
        let mut i: usize = 0;
        while i < n
            invariant
                i <= n,
                data@.len() == i,
                forall|j: int| 0 <= j < i ==> data@[j] == SPACE,
            decreases n - i,
        {
            data.push(SPACE);
            i += 1;
        }
        let ghost blank = Seq::new(term_dim.1 as nat, |_r: int| blank_row(term_dim.0 as int));
        proof {
            assert forall|r: int, c: int|
                0 <= r < rows && 0 <= c < cols implies data@[r * cols + c] == #[trigger] blank[r][c] by {
                lemma_cell_in_bounds(cols as int, rows as int, r, c);
            }
            lemma_rows_of_pointwise(data@, cols as int, rows as int, blank);
        }
        Terminal { term_dim, render_dim, data, font, cursor: (0, 0), gl }
    }

    /// Copies row `from` over row `to`.
    pub fn copy_line(&mut self, from: i8, to: i8)
        requires
            old(self).wf(),
            0 <= from < old(self).rows(),
            0 <= to < old(self).rows(),
        ensures
            final(self).wf(),
            final(self).same_but_data(old(self)),
            final(self).grid() == old(self).grid().update(to as int, old(self).grid()[from as int]),
    {
        let cols = self.term_dim.0 as usize;
        let ghost rows = self.rows();
        let ghost d0 = self.data@;
        let len = self.data.len();
        proof {
            lemma_cell_in_bounds(cols as int, rows, to as int, 0);
            lemma_cell_in_bounds(cols as int, rows, from as int, 0);
        }
        let to_idx = (to as usize) * cols;
        let from_idx = (from as usize) * cols;
        let mut n: usize = 0;
        while n < cols
            invariant
                n <= cols,
                cols == self.cols(),
                rows == self.rows(),
                to_idx == to * cols,
                from_idx == from * cols,
                to_idx + cols <= d0.len(),
                from_idx + cols <= d0.len(),
                self.wf(),
                self.same_but_data(old(self)),
                d0 == old(self).data@,
                self.data@.len() == d0.len(),
                len == d0.len(),
                forall|i: int|
                    0 <= i < d0.len() ==> #[trigger] self.data@[i] == if to_idx <= i < to_idx + n {
                        d0[from_idx + (i - to_idx)]
                    } else {
                        d0[i]
                    },
            decreases cols - n,
        {
            proof {
                if from != to && to_idx <= from_idx + n < to_idx + n {
                    lemma_cell_distinct(
                        cols as int,
                        from as int,
                        n as int,
                        to as int,
                        from_idx + n - to_idx,
                    );
                }
            }
            let b = self.data[from_idx + n];
            self.data.set(to_idx + n, b);
            n += 1;
        }
        proof {
            let g0 = old(self).grid();
            let target = g0.update(to as int, g0[from as int]);
            lemma_rows_of_shape(d0, cols as int, rows);
            assert forall|r: int, c: int|
                0 <= r < rows && 0 <= c < cols implies self.data@[r * cols + c]
                == #[trigger] target[r][c] by {
                lemma_cell_in_bounds(cols as int, rows, r, c);
                lemma_rows_of_cell(d0, cols as int, rows, r, c);
                lemma_rows_of_cell(d0, cols as int, rows, from as int, c);
                if r != to {
                    lemma_cell_distinct(cols as int, r, c, to as int, 0);
                    lemma_cell_distinct(cols as int, r, c, to as int, cols - 1);
                    if to_idx <= r * cols + c < to_idx + cols {
                        lemma_cell_distinct(cols as int, r, c, to as int, r * cols + c - to_idx);
                    }
                }
            }
            lemma_rows_of_pointwise(self.data@, cols as int, rows, target);
        }
    }

    /// Fills row `line_no` with blanks.
    pub fn blank_line(&mut self, line_no: i8)
        requires
            old(self).wf(),
            0 <= line_no < old(self).rows(),
        ensures
            final(self).wf(),
            final(self).same_but_data(old(self)),
            final(self).grid() == old(self).grid().update(line_no as int, blank_row(old(self).cols())),
    {
        let cols = self.term_dim.0 as usize;
        let ghost rows = self.rows();
        let ghost d0 = self.data@;
        let len = self.data.len();
        proof {
            lemma_cell_in_bounds(cols as int, rows, line_no as int, 0);
        }
        let idx = (line_no as usize) * cols;
        let mut n: usize = 0;
        while n < cols
            invariant
                n <= cols,
                cols == self.cols(),
                rows == self.rows(),
                idx == line_no * cols,
                idx + cols <= d0.len(),
                self.wf(),
                self.same_but_data(old(self)),
                d0 == old(self).data@,
                self.data@.len() == d0.len(),
                len == d0.len(),
                forall|i: int|
                    0 <= i < d0.len() ==> #[trigger] self.data@[i] == if idx <= i < idx + n {
                        SPACE
                    } else {
                        d0[i]
                    },
            decreases cols - n,
        {
            self.data.set(idx + n, SPACE);
            n += 1;
        }
        proof {
            let g0 = old(self).grid();
            let target = g0.update(line_no as int, blank_row(cols as int));
            lemma_rows_of_shape(d0, cols as int, rows);
            assert forall|r: int, c: int|
                0 <= r < rows && 0 <= c < cols implies self.data@[r * cols + c]
                == #[trigger] target[r][c] by {
                lemma_cell_in_bounds(cols as int, rows, r, c);
                lemma_rows_of_cell(d0, cols as int, rows, r, c);
                if r != line_no && idx <= r * cols + c < idx + cols {
                    lemma_cell_distinct(cols as int, r, c, line_no as int, r * cols + c - idx);
                }
            }
            lemma_rows_of_pointwise(self.data@, cols as int, rows, target);
        }
    }

    /// Shifts the content by `lines` rows: up for a positive count, down for
    /// a negative one. Rows with no source become blank. Zero, or a count
    /// beyond the number of rows, leaves the content as it is.
    pub fn scroll(&mut self, lines: i8)
        requires
            old(self).wf(),
        ensures
            final(self).wf(),
            final(self).same_but_data(old(self)),
            final(self).grid() == scrolled(old(self).grid(), old(self).cols(), lines as int),
            lines == 0 || lines > old(self).rows() || lines < -old(self).rows()
                ==> final(self).data@ == old(self).data@,
    {
        let rows = self.term_dim.1 as i8;
        if lines == 0 || lines > rows || lines < -rows {
            return ;
        }
        let ghost cols = self.cols();
        let ghost g0 = self.grid();
        let ghost target = scrolled(g0, cols, lines as int);
        proof {
            lemma_rows_of_shape(self.data@, cols, rows as int);
        }
        if lines > 0 {
            let mut n: i8 = 0;
            while n < rows
                invariant
                    0 <= n <= rows,
                    0 < lines <= rows,
                    rows == self.rows(),
                    cols == self.cols(),
                    g0.len() == rows,
                    target == scrolled(g0, cols, lines as int),
                    self.wf(),
                    self.same_but_data(old(self)),
                    self.grid() == Seq::new(
                        rows as nat,
                        |r: int|
                            if r < n {
                                target[r]
                            } else {
                                g0[r]
                            },
                    ),
                decreases rows - n,
            {
                let ghost before = self.grid();
                if n < rows - lines {
                    self.copy_line(n + lines, n);
                    assert(self.grid() =~= Seq::new(
                        rows as nat,
                        |r: int|
                            if r < n + 1 {
                                target[r]
                            } else {
                                g0[r]
                            },
                    ));
                } else {
                    self.blank_line(n);
                    assert(self.grid() =~= Seq::new(
                        rows as nat,
                        |r: int|
                            if r < n + 1 {
                                target[r]
                            } else {
                                g0[r]
                            },
                    ));
                }
                n += 1;
            }
        } else {
            let mut m: i8 = rows;
            while m > 0
                invariant
                    0 <= m <= rows,
                    -rows <= lines < 0,
                    rows == self.rows(),
                    cols == self.cols(),
                    g0.len() == rows,
                    target == scrolled(g0, cols, lines as int),
                    self.wf(),
                    self.same_but_data(old(self)),
                    self.grid() == Seq::new(
                        rows as nat,
                        |r: int|
                            if r >= m {
                                target[r]
                            } else {
                                g0[r]
                            },
                    ),
                decreases m,
            {
                let n = m - 1;
                if n >= -lines {
                    self.copy_line(n + lines, n);
                } else {
                    self.blank_line(n);
                }
                assert(self.grid() =~= Seq::new(
                    rows as nat,
                    |r: int|
                        if r >= n {
                            target[r]
                        } else {
                            g0[r]
                        },
                ));
                m = n;
            }
        }
        assert(self.grid() =~= target);
    }

    /// Stores `c` at column `x` of row `y`, or fails if that cell is off the
    /// grid.
    pub fn write_char_at(&mut self, x: usize, y: usize, c: char) -> (r: Result<(), GridError>)
        requires
            old(self).wf(),
        ensures
            final(self).wf(),
            final(self).same_but_data(old(self)),
            r is Ok <==> x < old(self).cols() && y < old(self).rows(),
            r is Ok ==> final(self).grid() == put_cell(old(self).grid(), x as int, y as int, byte_of(c)),
            r is Err ==> r == Err::<(), GridError>(GridError::OutOfBounds) && final(self).data@ == old(self).data@,
    {
        let cols = self.term_dim.0 as usize;
        let rows = self.term_dim.1 as usize;
        if x >= cols || y >= rows {
            return Err(GridError::OutOfBounds);
        }
        let ghost d0 = self.data@;
        let ghost g0 = self.grid();
        let len = self.data.len();
        proof {
            lemma_cell_in_bounds(cols as int, rows as int, y as int, x as int);
            lemma_rows_of_shape(d0, cols as int, rows as int);
        }
        let idx = y * cols + x;
        self.data.set(idx, c as u8);
        proof {
            let target = put_cell(g0, x as int, y as int, byte_of(c));
            assert forall|r: int, k: int|
                0 <= r < rows && 0 <= k < cols implies self.data@[r * cols + k]
                == #[trigger] target[r][k] by {
                lemma_cell_in_bounds(cols as int, rows as int, r, k);
                lemma_rows_of_cell(d0, cols as int, rows as int, r, k);
                if r != y || k != x {
                    lemma_cell_distinct(cols as int, r, k, y as int, x as int);
                }
            }
            lemma_rows_of_pointwise(self.data@, cols as int, rows as int, target);
        }
        Ok(())
    }

    /// Writes the bytes of `text` into row `y` from column `x` on, or fails
    /// if they would not fit in that row.
    pub fn write_str_at(&mut self, x: usize, y: usize, text: &str) -> (r: Result<(), GridError>)
        requires
            old(self).wf(),
        ensures
            final(self).wf(),
            final(self).same_but_data(old(self)),
            r is Ok <==> y < old(self).rows() && x + text.spec_bytes().len() <= old(self).cols(),
            r is Ok ==> final(self).grid() == old(self).grid().update(
                y as int,
                spliced(old(self).grid()[y as int], x as int, text.spec_bytes()),
            ),
            r is Err ==> r == Err::<(), GridError>(GridError::OutOfBounds) && final(self).data@ == old(self).data@,
    {
        let cols = self.term_dim.0 as usize;
        let rows = self.term_dim.1 as usize;
        let bytes = text.as_bytes();
        if y >= rows || x > cols || bytes.len() > cols - x {
            return Err(GridError::OutOfBounds);
        }
        let ghost d0 = self.data@;
        let ghost g0 = self.grid();
        let len = self.data.len();
        proof {
            lemma_cell_in_bounds(cols as int, rows as int, y as int, 0);
            lemma_rows_of_shape(d0, cols as int, rows as int);
        }
        let start = y * cols + x;
        let mut i: usize = 0;
        while i < bytes.len()
            invariant
                i <= bytes@.len(),
                x + bytes@.len() <= cols,
                y < rows,
                cols == self.cols(),
                rows == self.rows(),
                start == y * cols + x,
                y * cols + cols <= len,
                len == d0.len(),
                d0 == old(self).data@,
                self.wf(),
                self.same_but_data(old(self)),
                self.data@.len() == len,
                forall|j: int|
                    0 <= j < len ==> #[trigger] self.data@[j] == if start <= j < start + i {
                        bytes@[j - start]
                    } else {
                        d0[j]
                    },
            decreases bytes@.len() - i,
        {
            self.data.set(start + i, bytes[i]);
            i += 1;
        }
        proof {
            let target = g0.update(y as int, spliced(g0[y as int], x as int, bytes@));
            assert forall|r: int, k: int|
                0 <= r < rows && 0 <= k < cols implies self.data@[r * cols + k]
                == #[trigger] target[r][k] by {
                lemma_cell_in_bounds(cols as int, rows as int, r, k);
                lemma_rows_of_cell(d0, cols as int, rows as int, r, k);
                if r != y && start <= r * cols + k < start + bytes@.len() {
                    lemma_cell_distinct(cols as int, r, k, y as int, r * cols + k - y * cols);
                }
            }
            lemma_rows_of_pointwise(self.data@, cols as int, rows as int, target);
        }
        Ok(())
    }

    /// Writes `c` at the cursor and advances it, as `after_char` describes.
    pub fn write_char(&mut self, c: char)
        requires
            old(self).wf(),
        ensures
            final(self).wf(),
            final(self).term_dim == old(self).term_dim,
            final(self).render_dim == old(self).render_dim,
            final(self).font == old(self).font,
            final(self).gl == old(self).gl,
            (final(self).grid(), final(self).cursor_at()) == after_char(
                old(self).grid(),
                old(self).cols(),
                old(self).cursor_at(),
                c,
            ),
    {
        let x = self.cursor.0 as usize;
        let y = self.cursor.1 as usize;
        let lf: bool = c == '\n';
        if !lf {
            let _ = self.write_char_at(x, y, c);
        }
        let ghost g1 = self.grid();
        let nx = self.cursor.0 + 1;
        if nx >= self.term_dim.0 || lf {
            let ny = self.cursor.1 + 1;
            if ny >= self.term_dim.1 {
                self.cursor = (0, ny - 1);
                self.scroll(1);
            } else {
                self.cursor = (0, ny);
                assert(self.grid() == g1);
            }
        } else {
            self.cursor.0 = nx;
            assert(self.grid() == g1);
        }
    }

    /// Swaps the roles of the two decay framebuffers.
    pub fn flip_phase(&mut self)
        ensures
            final(self).gl.crt_phase == old(self).gl.crt_phase.other(),
            final(self).gl.beam_vao == old(self).gl.beam_vao,
            final(self).gl.crt_vao == old(self).gl.crt_vao,
            final(self).gl.data_texture == old(self).gl.data_texture,
            final(self).gl.crt_fb == old(self).gl.crt_fb,
            final(self).gl.beam_fb == old(self).gl.beam_fb,
            final(self).term_dim == old(self).term_dim,
            final(self).render_dim == old(self).render_dim,
            final(self).font == old(self).font,
            final(self).cursor == old(self).cursor,
            final(self).data@ == old(self).data@,
    {
        let new_phase = self.gl.crt_phase.flipped();
        self.gl.crt_phase = new_phase;
    }
}

} // verus!
