//! Properties that relate several operations on a terminal.
use vstd::prelude::*;

use crate::grid::{
    after_char, after_chars, blank_row, byte_of, lemma_cell_distinct, put_cell, scrolled,
    well_shaped,
};
use crate::terminal::{Phase, Terminal};

verus! {

/// The grid after the first `k` characters of `s` were stored in row-major
/// order over `g`: cell (c, r) holds character `r * cols + c` of `s` when
/// that index is below `k`, and its old content otherwise.
pub open spec fn filled_prefix(g: Seq<Seq<u8>>, cols: int, s: Seq<char>, k: int) -> Seq<Seq<u8>> {
    Seq::new(
        g.len(),
        |r: int|
            Seq::new(
                cols as nat,
                |c: int|
                    if r * cols + c < k {
                        byte_of(s[r * cols + c])
                    } else {
                        g[r][c]
                    },
            ),
    )
}

/// No character of `s` is a newline.
pub open spec fn no_newline(s: Seq<char>) -> bool {
    forall|i: int| 0 <= i < s.len() ==> #[trigger] s[i] != '\n'
}

proof fn lemma_fill_prefix(g: Seq<Seq<u8>>, cols: int, s: Seq<char>, k: int)
    requires
        0 < cols,
        0 < g.len(),
        well_shaped(g, cols),
        s.len() == g.len() * cols,
        no_newline(s),
        0 <= k < s.len(),
    ensures
        ({
            let res = after_chars(g, cols, (0, 0), s.take(k));
            &&& res.0 == filled_prefix(g, cols, s, k)
            &&& 0 <= res.1.0 < cols
            &&& 0 <= res.1.1 < g.len()
            &&& res.1.1 * cols + res.1.0 == k
        }),
    decreases k,
{
    let rows = g.len() as int;
    if k == 0 {
        assert(s.take(0) =~= Seq::<char>::empty());
        assert forall|r: int| 0 <= r < rows implies #[trigger] filled_prefix(g, cols, s, 0)[r]
            =~= g[r] by {
            assert(r * cols >= 0) by (nonlinear_arith)
                requires
                    0 <= r,
                    0 < cols,
            ;
        }
        assert(filled_prefix(g, cols, s, 0) =~= g);
    } else {
        lemma_fill_prefix(g, cols, s, k - 1);
        assert(s.take(k).drop_last() =~= s.take(k - 1));
        let prev = after_chars(g, cols, (0, 0), s.take(k - 1));
        let x = prev.1.0;
        let y = prev.1.1;
        let pk = filled_prefix(g, cols, s, k);
        let pc = put_cell(prev.0, x, y, byte_of(s[k - 1]));
        assert forall|r: int| 0 <= r < rows implies #[trigger] pk[r] =~= pc[r] by {
            assert forall|c: int| 0 <= c < cols implies pk[r][c] == pc[r][c] by {
                if r != y || c != x {
                    lemma_cell_distinct(cols, r, c, y, x);
                }
            }
        }
        assert(pk =~= pc);
        assert(s.take(k).last() == s[k - 1]);
        assert(s[k - 1] != '\n');
        if x + 1 >= cols {
            assert(y + 1 < rows && (y + 1) * cols == k) by (nonlinear_arith)
                requires
                    0 < cols,
                    y * cols + x == k - 1,
                    x + 1 >= cols,
                    x < cols,
                    k < rows * cols,
            ;
        }
    }
}

/// Writing `rows * cols` characters, none a newline, from the top-left
/// corner stores them in row-major order, one per cell, with no scroll
/// until the last one. The last character fills the bottom-right cell and
/// moves the cursor past the last line, which scrolls the grid up once and
/// leaves the cursor at the start of the last line.
pub proof fn lemma_fill_grid(g: Seq<Seq<u8>>, cols: int, s: Seq<char>)
    requires
        0 < cols,
        0 < g.len(),
        well_shaped(g, cols),
        s.len() == g.len() * cols,
        no_newline(s),
    ensures
        forall|k: int|
            0 <= k < s.len() ==> (#[trigger] after_chars(g, cols, (0, 0), s.take(k))).0
                == filled_prefix(g, cols, s, k),
        after_chars(g, cols, (0, 0), s) == (
            scrolled(filled_prefix(g, cols, s, s.len() as int), cols, 1),
            (0int, g.len() - 1),
        ),
{
    let rows = g.len() as int;
    let n = s.len() as int;
    assert forall|k: int| 0 <= k < n implies (#[trigger] after_chars(
        g,
        cols,
        (0, 0),
        s.take(k),
    )).0 == filled_prefix(g, cols, s, k) by {
        lemma_fill_prefix(g, cols, s, k);
    }
    assert(n > 0) by (nonlinear_arith)
        requires
            n == rows * cols,
            0 < rows,
            0 < cols,
    ;
    lemma_fill_prefix(g, cols, s, n - 1);
    assert(s.drop_last() =~= s.take(n - 1));
    let prev = after_chars(g, cols, (0, 0), s.take(n - 1));
    let x = prev.1.0;
    let y = prev.1.1;
    assert((rows - 1) * cols + (cols - 1) == n - 1) by (nonlinear_arith)
        requires
            n == rows * cols,
    ;
    if y != rows - 1 || x != cols - 1 {
        lemma_cell_distinct(cols, y, x, rows - 1, cols - 1);
    }
    let pk = filled_prefix(g, cols, s, n);
    let pc = put_cell(prev.0, x, y, byte_of(s[n - 1]));
    assert forall|r: int| 0 <= r < rows implies #[trigger] pk[r] =~= pc[r] by {
        assert forall|c: int| 0 <= c < cols implies pk[r][c] == pc[r][c] by {
            if r != y || c != x {
                lemma_cell_distinct(cols, r, c, y, x);
            }
        }
    }
    assert(pk =~= pc);
}

/// Scrolling by `n` and back by `-n` does not restore the grid: the rows
/// that were shifted out come back blank, and the others hold what they
/// held before.
pub proof fn lemma_scroll_back_blanks(g: Seq<Seq<u8>>, cols: int, n: int)
    requires
        0 < n < g.len() || 0 < -n < g.len(),
    ensures
        scrolled(scrolled(g, cols, n), cols, -n) == Seq::new(
            g.len(),
            |r: int|
                if 0 <= r - n < g.len() {
                    g[r]
                } else {
                    blank_row(cols)
                },
        ),
{
    let once = scrolled(g, cols, n);
    assert(once.len() == g.len());
    assert(scrolled(once, cols, -n) =~= Seq::new(
        g.len(),
        |r: int|
            if 0 <= r - n < g.len() {
                g[r]
            } else {
                blank_row(cols)
            },
    ));
}

/// A newline stores nothing: on any line but the last the grid is left as
/// it is, the cell under the cursor included, and the cursor moves to the
/// start of the next line. On the last line the grid scrolls up once and
/// the cursor moves to the start of that line.
pub proof fn lemma_newline_keeps_cells(g: Seq<Seq<u8>>, cols: int, x: int, y: int)
    requires
        0 <= x < cols,
        0 <= y < g.len(),
    ensures
        after_char(g, cols, (x, y), '\n') == if y + 1 < g.len() {
            (g, (0int, y + 1))
        } else {
            (scrolled(g, cols, 1), (0int, y))
        },
{
}

/// Flipping the phase twice gives the phase back; flipping once changes it.
pub proof fn lemma_flip_twice(p: Phase)
    ensures
        p.other().other() == p,
        p.other() != p,
{
}

/// After a flip, a frame reads the previous frame from the framebuffer the
/// frame before wrote into, and writes into the one it read from.
pub proof fn lemma_flip_swaps_decay_buffers(before: Terminal, after: Terminal)
    requires
        after.gl.crt_phase == before.gl.crt_phase.other(),
        after.gl.crt_fb == before.gl.crt_fb,
    ensures
        after.plan().decay_source == before.plan().decay_target,
        after.plan().decay_target == before.plan().decay_source,
{
    lemma_flip_twice(before.gl.crt_phase);
}

} // verus!
