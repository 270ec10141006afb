//! Grid layout: column-major packing that maximizes the column count.
//!
//! Cells are laid out down the first column, then the second, and so on;
//! how wide a column must be is known only once a candidate column count
//! is fixed.  The engine searches column counts from the cell count
//! downward and accepts the first whose total row width -- the sum of
//! per-column widths plus a two-space gap between occupied columns --
//! fits the available width, degrading to a single column when nothing
//! fits.

use vstd::prelude::*;
use crate::width::{char_cell_width, char_width, display_width, lemma_text_width_concat,
    lemma_text_width_push, text_width};

verus! {

/// The views of a vector of cell texts.
pub open spec fn views(cells: Seq<String>) -> Seq<Seq<char>> {
    cells.map_values(|s: String| s@)
}

/// The smaller of two integers.
pub open spec fn min2(a: int, b: int) -> int {
    if a <= b {
        a
    } else {
        b
    }
}

/// Rows needed for `n` cells in `cols` columns: the ceiling of their
/// quotient.
pub open spec fn grid_rows(n: int, cols: int) -> int {
    n / cols + if n % cols == 0 {
        0int
    } else {
        1int
    }
}

/// Greatest display width among the cells with index in `[lo, hi)`.
pub open spec fn max_width(cs: Seq<Seq<char>>, lo: int, hi: int) -> int
    decreases hi - lo,
{
    if lo >= hi {
        0
    } else {
        let w = text_width(cs[lo]) as int;
        let rest = max_width(cs, lo + 1, hi);
        if w >= rest {
            w
        } else {
            rest
        }
    }
}

/// Width of column `c`: the greatest width among the cells that land in
/// it (zero when the column holds no cell).
pub open spec fn col_width(cs: Seq<Seq<char>>, n: int, rows: int, c: int) -> int {
    if c * rows >= n {
        0
    } else {
        max_width(cs, c * rows, min2(n, (c + 1) * rows))
    }
}

/// Total width of the columns from `c` on, counting a two-space gap
/// after each occupied column.
pub open spec fn cols_total(cs: Seq<Seq<char>>, n: int, rows: int, c: int, cols: int) -> int
    decreases cols - c,
{
    if c >= cols {
        0
    } else {
        (if c * rows < n {
            col_width(cs, n, rows, c) + 2
        } else {
            0
        }) + cols_total(cs, n, rows, c + 1, cols)
    }
}

/// The computed total row width of `cols` columns: column widths plus
/// one gap between each pair of occupied neighbours.
pub open spec fn total_width(cs: Seq<Seq<char>>, cols: int) -> int {
    cols_total(cs, cs.len() as int, grid_rows(cs.len() as int, cols), 0, cols) - 2
}

/// A candidate column count fits when its total row width does not
/// exceed the available width.
pub open spec fn fits(cs: Seq<Seq<char>>, cols: int, avail: int) -> bool {
    total_width(cs, cols) <= avail
}

/// The chosen column count: the greatest count in `[1, c]` that fits,
/// and one column when none fits.
pub open spec fn best_cols(cs: Seq<Seq<char>>, avail: int, c: int) -> int
    decreases c,
{
    if c <= 1 {
        1
    } else if fits(cs, c, avail) {
        c
    } else {
        best_cols(cs, avail, c - 1)
    }
}

/// `spaces(k)`: `k` space characters.
pub open spec fn spaces(k: int) -> Seq<char>
    decreases k,
{
    if k <= 0 {
        Seq::empty()
    } else {
        spaces(k - 1).push(' ')
    }
}

/// One rendered grid line, from column `c` on: each cell but the last of
/// its line is padded to its column's width and followed by the gap.
pub open spec fn line_from(
    cs: Seq<Seq<char>>,
    n: int,
    rows: int,
    l: int,
    c: int,
    cols: int,
) -> Seq<char>
    decreases cols - c,
{
    if c >= cols || c * rows + l >= n {
        Seq::empty()
    } else {
        let cell = cs[c * rows + l];
        if c + 1 < cols && (c + 1) * rows + l < n {
            cell + spaces(col_width(cs, n, rows, c) - text_width(cell) + 2) + line_from(
                cs,
                n,
                rows,
                l,
                c + 1,
                cols,
            )
        } else {
            cell
        }
    }
}

/// The whole rendered grid: one line per row, under the chosen column
/// count.
pub open spec fn grid_lines(cs: Seq<Seq<char>>, avail: int) -> Seq<Seq<char>> {
    if cs.len() == 0 {
        Seq::empty()
    } else {
        let cols = best_cols(cs, avail, cs.len() as int);
        let rows = grid_rows(cs.len() as int, cols);
        Seq::new(rows as nat, |l: int| line_from(cs, cs.len() as int, rows, l, 0, cols))
    }
}

/// Column maxima are no smaller than any member.
proof fn lemma_max_width_bound(cs: Seq<Seq<char>>, lo: int, hi: int, idx: int)
    requires
        lo <= idx < hi,
    ensures
        text_width(cs[idx]) <= max_width(cs, lo, hi),
    decreases hi - lo,
{
    if lo < idx {
        lemma_max_width_bound(cs, lo + 1, hi, idx);
    }
}

/// Column maxima are never negative.
proof fn lemma_max_width_nonneg(cs: Seq<Seq<char>>, lo: int, hi: int)
    ensures
        max_width(cs, lo, hi) >= 0,
    decreases hi - lo,
{
    if lo < hi {
        lemma_max_width_nonneg(cs, lo + 1, hi);
    }
}

/// Suffix totals are never negative.
proof fn lemma_cols_total_nonneg(cs: Seq<Seq<char>>, n: int, rows: int, c: int, cols: int)
    ensures
        cols_total(cs, n, rows, c, cols) >= 0,
    decreases cols - c,
{
    if c < cols {
        lemma_cols_total_nonneg(cs, n, rows, c + 1, cols);
        if c * rows < n {
            lemma_max_width_nonneg(cs, c * rows, min2(n, (c + 1) * rows));
        }
    }
}

/// A longer suffix of columns never totals less.
proof fn lemma_cols_total_mono(cs: Seq<Seq<char>>, n: int, rows: int, c1: int, c2: int, cols: int)
    requires
        c1 <= c2,
    ensures
        cols_total(cs, n, rows, c1, cols) >= cols_total(cs, n, rows, c2, cols),
    decreases c2 - c1,
{
    if c1 < c2 {
        lemma_cols_total_mono(cs, n, rows, c1 + 1, c2, cols);
        if c1 < cols && c1 * rows < n {
            lemma_max_width_nonneg(cs, c1 * rows, min2(n, (c1 + 1) * rows));
        }
    }
}

/// The chosen count always lies in `[1, max(1, c)]`.
pub proof fn lemma_best_cols_range(cs: Seq<Seq<char>>, avail: int, c: int)
    ensures
        1 <= best_cols(cs, avail, c),
        best_cols(cs, avail, c) <= if c <= 1 {
            1
        } else {
            c
        },
    decreases c,
{
    if c > 1 && !fits(cs, c, avail) {
        lemma_best_cols_range(cs, avail, c - 1);
    }
}

/// Either the chosen count fits, or it is the single-column fallback;
/// and no greater candidate fits, so the choice is the maximum fitting
/// count.
pub proof fn lemma_best_cols_is_best(cs: Seq<Seq<char>>, avail: int, c: int)
    ensures
        fits(cs, best_cols(cs, avail, c), avail) || best_cols(cs, avail, c) == 1,
        forall|d: int| best_cols(cs, avail, c) < d <= c ==> !fits(cs, d, avail),
    decreases c,
{
    if c > 1 && !fits(cs, c, avail) {
        lemma_best_cols_is_best(cs, avail, c - 1);
        lemma_best_cols_range(cs, avail, c - 1);
    }
}

/// Whatever fits a width fits any wider one, so a narrower terminal
/// never makes the engine choose more columns.
pub proof fn lemma_narrower_no_more_columns(cs: Seq<Seq<char>>, narrow: int, wide: int, c: int)
    requires
        narrow <= wide,
    ensures
        best_cols(cs, narrow, c) <= best_cols(cs, wide, c),
    decreases c,
{
    if c > 1 {
        if fits(cs, c, narrow) {
        } else {
            lemma_narrower_no_more_columns(cs, narrow, wide, c - 1);
            lemma_best_cols_range(cs, narrow, c - 1);
            lemma_best_cols_range(cs, wide, c - 1);
        }
    }
}

/// Spaces are one cell wide apiece.
proof fn lemma_spaces_width(k: int)
    requires
        char_cell_width(' ') == 1,
    ensures
        text_width(spaces(k)) == if k <= 0 {
            0
        } else {
            k
        },
    decreases k,
{
    if k > 0 {
        lemma_spaces_width(k - 1);
        lemma_text_width_push(spaces(k - 1), ' ');
    }
}

/// A line is never wider than the total of the columns it crosses,
/// minus the trailing gap.
proof fn lemma_line_width(cs: Seq<Seq<char>>, n: int, rows: int, l: int, c: int, cols: int)
    requires
        char_cell_width(' ') == 1,
        n == cs.len(),
        rows >= 1,
        0 <= l < rows,
        0 <= c,
    ensures
        text_width(line_from(cs, n, rows, l, c, cols)) <= if cols_total(cs, n, rows, c, cols)
            >= 2 {
            cols_total(cs, n, rows, c, cols) - 2
        } else {
            0
        },
    decreases cols - c,
{
    lemma_cols_total_nonneg(cs, n, rows, c, cols);
    if c >= cols || c * rows + l >= n {
    } else {
        let idx = c * rows + l;
        let cell = cs[idx];
        let hi = min2(n, (c + 1) * rows);
        let cw = col_width(cs, n, rows, c);
        assert((c + 1) * rows == c * rows + rows) by (nonlinear_arith);
        assert(idx < hi);
        lemma_max_width_bound(cs, c * rows, hi, idx);
        lemma_max_width_nonneg(cs, c * rows, hi);
        assert(text_width(cell) <= cw);
        lemma_cols_total_nonneg(cs, n, rows, c + 1, cols);
        assert(cols_total(cs, n, rows, c, cols) == cw + 2 + cols_total(cs, n, rows, c + 1, cols));
        if c + 1 < cols && (c + 1) * rows + l < n {
            let pad = cw - text_width(cell) + 2;
            let rest = line_from(cs, n, rows, l, c + 1, cols);
            assert(line_from(cs, n, rows, l, c, cols) == cell + spaces(pad) + rest);
            lemma_text_width_concat(cell + spaces(pad), rest);
            lemma_text_width_concat(cell, spaces(pad));
            lemma_spaces_width(pad);
            assert(text_width(line_from(cs, n, rows, l, c, cols)) == cw + 2 + text_width(rest));
            lemma_line_width(cs, n, rows, l, c + 1, cols);
            assert((c + 1) * rows < n);
            lemma_cols_total_nonneg(cs, n, rows, c + 2, cols);
            lemma_max_width_nonneg(cs, (c + 1) * rows, min2(n, (c + 2) * rows));
            assert(cols_total(cs, n, rows, c + 1, cols) >= 2);
            assert(text_width(rest) <= cols_total(cs, n, rows, c + 1, cols) - 2);
        } else {
            assert(line_from(cs, n, rows, l, c, cols) == cell);
            assert(text_width(cell) <= cols_total(cs, n, rows, c, cols) - 2);
        }
    }
}

/// Row count for `n` cells in `cols` columns.
fn grid_rows_exec(n: usize, cols: usize) -> (rows: usize)
    requires
        1 <= cols <= n,
    ensures
        rows as int == grid_rows(n as int, cols as int),
        rows >= 1,
{
    let q = n / cols;
    let r = n % cols;
    if r == 0 {
        proof {
            assert(q as int >= 1) by (nonlinear_arith)
                requires
                    1 <= cols as int <= n as int,
                    q as int == n as int / cols as int,
            ;
        }
        q
    } else {
        proof {
            assert(cols >= 2) by {
                if cols == 1 {
                    assert(n as int % (1int) == 0) by (nonlinear_arith);
                }
            }
            assert(q as int + 1 <= usize::MAX as int) by (nonlinear_arith)
                requires
                    2 <= cols as int,
                    0 <= n as int <= usize::MAX as int,
                    q as int == n as int / cols as int,
            ;
        }
        q + 1
    }
}

/// The product of two machine words stays within the wide accumulator.
proof fn lemma_mul_fits(a: int, b: int)
    requires
        0 <= a <= u64::MAX as int,
        0 <= b <= u64::MAX as int,
    ensures
        a * b + 2 * (u64::MAX as int) <= u128::MAX as int,
{
    assert(a * b <= u64::MAX as int * u64::MAX as int) by (nonlinear_arith)
        requires
            0 <= a <= u64::MAX as int,
            0 <= b <= u64::MAX as int,
    ;
}

/// Greatest cell width over `[lo, hi)`, measured.
fn max_width_exec(cells: &Vec<String>, lo: usize, hi: usize) -> (w: u128)
    requires
        lo <= hi <= cells@.len(),
    ensures
        w as int == max_width(views(cells@), lo as int, hi as int),
        w <= 3 * (usize::MAX as u128),
{
    let mut w: u128 = 0;
    let mut i = hi;
    while i > lo
        invariant
            lo <= i <= hi <= cells@.len(),
            w as int == max_width(views(cells@), i as int, hi as int),
            w <= 3 * (usize::MAX as u128),
        decreases i,
    {
        i = i - 1;
        let cw = display_width(cells[i].as_str());
        proof {
            assert(views(cells@)[i as int] == cells@[i as int]@);
        }
        if cw > w {
            w = cw;
        }
    }
    w
}

/// Whether `cols` columns fit the available width.
fn fits_exec(cells: &Vec<String>, cols: usize, avail: u64) -> (b: bool)
    requires
        1 <= cols <= cells@.len(),
    ensures
        b == fits(views(cells@), cols as int, avail as int),
{
    let ghost cs = views(cells@);
    let n = cells.len();
    let rows = grid_rows_exec(n, cols);
    let mut acc: u128 = 0;
    let mut c = cols;
    while c > 0
        invariant
            n == cells@.len(),
            cs == views(cells@),
            1 <= cols <= n,
            rows as int == grid_rows(n as int, cols as int),
            0 <= c <= cols,
            acc as int == cols_total(cs, n as int, rows as int, c as int, cols as int),
            acc <= avail as u128 + 2,
        decreases c,
    {
        c = c - 1;
        proof {
            lemma_mul_fits(c as int, rows as int);
        }
        let lo128: u128 = (c as u128) * (rows as u128);
        if lo128 < n as u128 {
            let lo = lo128 as usize;
            let hi128: u128 = lo128 + (rows as u128);
            let hi = if hi128 < n as u128 {
                hi128 as usize
            } else {
                n
            };
            proof {
                assert((c as int + 1) * (rows as int) == lo128 as int + rows as int)
                    by (nonlinear_arith)
                    requires
                        lo128 as int == (c as int) * (rows as int),
                ;
                assert(hi as int == min2(n as int, (c as int + 1) * (rows as int)));
            }
            let cw = max_width_exec(cells, lo, hi);
            proof {
                assert(cw as int == col_width(cs, n as int, rows as int, c as int));
            }
            acc = acc + cw + 2;
            if acc > avail as u128 + 2 {
                proof {
                    lemma_cols_total_mono(cs, n as int, rows as int, 0, c as int, cols as int);
                }
                return false;
            }
        }
    }
    true
}

/// The column count the grid uses for these cells at this width: the
/// maximum fitting count, or one column when nothing fits.
pub fn choose_columns(cells: &Vec<String>, avail: u64) -> (cols: usize)
    requires
        cells@.len() >= 1,
    ensures
        cols as int == best_cols(views(cells@), avail as int, cells@.len() as int),
        1 <= cols <= cells@.len(),
{
    let ghost cs = views(cells@);
    let n = cells.len();
    let mut c = n;
    while c > 1
        invariant
            n == cells@.len(),
            cs == views(cells@),
            1 <= c <= n,
            best_cols(cs, avail as int, n as int) == best_cols(cs, avail as int, c as int),
        decreases c,
    {
        if fits_exec(cells, c, avail) {
            return c;
        }
        c = c - 1;
    }
    1
}

/// Appends `k` spaces.
pub(crate) fn push_spaces(line: &mut String, k: u128)
    ensures
        final(line)@ == old(line)@ + spaces(k as int),
{
    let mut i: u128 = 0;
    proof {
        assert(old(line)@ + spaces(0) =~= old(line)@);
    }
    while i < k
        invariant
            i <= k,
            line@ == old(line)@ + spaces(i as int),
        decreases k - i,
    {
        let ghost prev = line@;
        line.append(" ");
        proof {
            reveal_strlit(" ");
            assert((" ")@ =~= seq![' ']);
            assert(spaces(i as int + 1) =~= spaces(i as int).push(' '));
            assert(prev + (" ")@ =~= old(line)@ + spaces(i as int + 1));
        }
        i = i + 1;
    }
}

/// Builds one grid line from column `c` on.
fn build_line(cells: &Vec<String>, rows: usize, l: usize, c: usize, cols: usize) -> (line: String)
    requires
        1 <= rows,
        l < rows,
        1 <= cols <= cells@.len(),
        char_cell_width(' ') == 1,
    ensures
        line@ == line_from(
            views(cells@),
            cells@.len() as int,
            rows as int,
            l as int,
            c as int,
            cols as int,
        ),
    decreases cols - c,
{
    let ghost cs = views(cells@);
    let n = cells.len();
    if c >= cols {
        return String::new();
    }
    proof {
        lemma_mul_fits(c as int, rows as int);
    }
    let pos128: u128 = (c as u128) * (rows as u128) + (l as u128);
    if pos128 >= n as u128 {
        return String::new();
    }
    let idx = pos128 as usize;
    proof {
        assert(idx as int == (c as int) * (rows as int) + l as int);
        assert(cs[idx as int] == cells@[idx as int]@);
    }
    let mut line = String::from_str(cells[idx].as_str());
    let next128: u128 = pos128 + (rows as u128);
    proof {
        assert((c as int + 1) * (rows as int) + l == next128 as int) by (nonlinear_arith)
            requires
                pos128 as int == (c as int) * (rows as int) + l as int,
                next128 as int == pos128 as int + rows as int,
        ;
    }
    if c + 1 < cols && next128 < n as u128 {
        let w = display_width(cells[idx].as_str());
        proof {
            lemma_mul_fits(c as int, rows as int);
        }
        let lo128: u128 = (c as u128) * (rows as u128);
        let lo = lo128 as usize;
        let hi128: u128 = lo128 + (rows as u128);
        let hi = if hi128 < n as u128 {
            hi128 as usize
        } else {
            n
        };
        proof {
            assert((c as int + 1) * (rows as int) == lo128 as int + rows as int)
                by (nonlinear_arith)
                requires
                    lo128 as int == (c as int) * (rows as int),
            ;
            assert(hi as int == min2(n as int, (c as int + 1) * (rows as int)));
        }
        let cw = max_width_exec(cells, lo, hi);
        proof {
            assert(cw as int == col_width(cs, n as int, rows as int, c as int));
            lemma_max_width_bound(cs, lo as int, hi as int, idx as int);
            assert(w <= cw);
        }
        let pad: u128 = cw - w + 2;
        push_spaces(&mut line, pad);
        let rest = build_line(cells, rows, l, c + 1, cols);
        line.append(rest.as_str());
        proof {
            let cell = cs[idx as int];
            assert(line@ =~= cell + spaces(pad as int) + line_from(
                cs,
                n as int,
                rows as int,
                l as int,
                c as int + 1,
                cols as int,
            ));
        }
    }
    line
}

/// Renders the cells as a column-major grid.
///
/// The lines are exactly [`grid_lines`] of the cell views: the engine
/// picks the maximum fitting column count (one column when none fits),
/// and, whenever the available width is at least the widest single
/// cell, every rendered line measures within the available width.
pub fn render_grid(cells: &Vec<String>, avail: u64) -> (lines: Vec<String>)
    ensures
        views(lines@) == grid_lines(views(cells@), avail as int),
        max_width(views(cells@), 0, cells@.len() as int) <= avail as int ==> forall|l: int|
            0 <= l < lines@.len() ==> text_width(#[trigger] lines@[l]@) <= avail as int,
{
    let ghost cs = views(cells@);
    let space_width = char_width(' ');
    proof {
        assert(char_cell_width(' ') == 1);
    }
    let n = cells.len();
    let mut lines: Vec<String> = Vec::new();
    if n == 0 {
        proof {
            assert(views(lines@) =~= grid_lines(cs, avail as int));
        }
        return lines;
    }
    let cols = choose_columns(cells, avail);
    let rows = grid_rows_exec(n, cols);
    let mut l: usize = 0;
    while l < rows
        invariant
            n == cells@.len(),
            cs == views(cells@),
            n >= 1,
            char_cell_width(' ') == 1,
            cols as int == best_cols(cs, avail as int, n as int),
            1 <= cols <= n,
            rows as int == grid_rows(n as int, cols as int),
            rows >= 1,
            0 <= l <= rows,
            lines@.len() == l,
            forall|q: int|
                0 <= q < l ==> #[trigger] lines@[q]@ == line_from(
                    cs,
                    n as int,
                    rows as int,
                    q,
                    0,
                    cols as int,
                ),
        decreases rows - l,
    {
        let line = build_line(cells, rows, l, 0, cols);
        lines.push(line);
        l = l + 1;
    }
    proof {
        assert(views(lines@) =~= grid_lines(cs, avail as int));
        if max_width(cs, 0, n as int) <= avail as int {
            assert forall|l2: int| 0 <= l2 < lines@.len() implies text_width(
                #[trigger] lines@[l2]@,
            ) <= avail as int by {
                lemma_line_width(cs, n as int, rows as int, l2, 0, cols as int);
                lemma_best_cols_is_best(cs, avail as int, n as int);
                lemma_cols_total_nonneg(cs, n as int, rows as int, 0, cols as int);
                if fits(cs, cols as int, avail as int) {
                } else {
                    assert(cols == 1);
                    assert(rows == n);
                    assert(cols_total(cs, n as int, n as int, 1, 1) == 0);
                    assert(min2(n as int, 1 * (n as int)) == n as int);
                    assert(cols_total(cs, n as int, n as int, 0, 1) == max_width(cs, 0, n as int)
                        + 2);
                }
            }
        }
    }
    lines
}

} // verus!
