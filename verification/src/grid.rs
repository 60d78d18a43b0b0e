use vstd::prelude::*;
use crate::cell::{Attrs, Cell};
use crate::color::TermColor;
use crate::width::{glyph_width, glyph_width_exec};

verus! {

/// Smaller of two naturals.
pub open spec fn min_nat(a: nat, b: nat) -> nat {
    if a <= b {
        a
    } else {
        b
    }
}

/// Saturating subtraction on naturals.
pub open spec fn sub_sat(a: nat, b: nat) -> nat {
    if a >= b {
        (a - b) as nat
    } else {
        0
    }
}

/// A row of blank cells.
pub open spec fn blank_row(cols: nat) -> Seq<Cell> {
    Seq::new(cols, |i: int| Cell::blank_spec())
}

/// The mathematical model of a [`Grid`]: the live cell matrix, the cursor,
/// the scrolling region, and the bounded scrollback history.
#[verifier::ext_equal]
pub struct GridView {
    pub rows: nat,
    pub cols: nat,
    pub cells: Seq<Seq<Cell>>,
    pub cursor_x: nat,
    pub cursor_y: nat,
    pub scroll_top: nat,
    pub scroll_bot: nat,
    pub scrollback: Seq<Seq<Cell>>,
    pub max_scrollback: nat,
    pub scroll_offset: nat,
}

impl GridView {
    /// Well-formedness: the cell matrix is exactly `rows x cols`, the cursor
    /// sits inside the grid (the column transiently one past the right edge
    /// after a print at the margin), the scrolling region is an inclusive,
    /// in-bounds row range, and scrollback never exceeds its cap. Geometry is
    /// bounded by the largest size a pseudo-terminal can report, and the
    /// scrollback cap is bounded so that row arithmetic cannot overflow.
    pub open spec fn wf(self) -> bool {
        &&& 1 <= self.rows <= 0xffff
        &&& 1 <= self.cols <= 0xffff
        &&& self.cells.len() == self.rows
        &&& (forall|y: int| 0 <= y < self.cells.len() ==> (#[trigger] self.cells[y]).len() == self.cols)
        &&& self.cursor_x <= self.cols + 1
        &&& self.cursor_y < self.rows
        &&& self.scroll_top <= self.scroll_bot
        &&& self.scroll_bot < self.rows
        &&& self.scrollback.len() <= self.max_scrollback
        &&& self.max_scrollback <= 0x1000_0000
        &&& self.scroll_offset <= self.max_scrollback
    }
}

/// A fresh grid: all blank cells, cursor at the origin, the scrolling region
/// spanning the whole screen, and empty scrollback.
pub open spec fn spec_new_grid(rows: nat, cols: nat, max_scrollback: nat) -> GridView {
    GridView {
        rows,
        cols,
        cells: Seq::new(rows, |i: int| blank_row(cols)),
        cursor_x: 0,
        cursor_y: 0,
        scroll_top: 0,
        scroll_bot: sub_sat(rows, 1),
        scrollback: Seq::empty(),
        max_scrollback,
        scroll_offset: 0,
    }
}

/// One upward scroll of the region: the row at `scroll_top` is evicted into
/// scrollback (dropping the oldest scrollback row past the cap) and a blank
/// row appears at `scroll_bot`.
pub open spec fn spec_scroll_up_once(g: GridView) -> GridView {
    let evicted = g.cells[g.scroll_top as int];
    let cells1 = g.cells.remove(g.scroll_top as int).insert(g.scroll_bot as int, blank_row(g.cols));
    let sb1 = g.scrollback.push(evicted);
    let sb2 = if sb1.len() > g.max_scrollback {
        sb1.remove(0)
    } else {
        sb1
    };
    GridView { cells: cells1, scrollback: sb2, ..g }
}

/// `n` upward scrolls of the region.
pub open spec fn spec_scroll_up(g: GridView, n: nat) -> GridView
    decreases n,
{
    if n == 0 {
        g
    } else {
        spec_scroll_up_once(spec_scroll_up(g, (n - 1) as nat))
    }
}

/// One downward scroll of the region: the row at `scroll_bot` is removed and
/// a blank row appears at `scroll_top`. Nothing enters scrollback.
pub open spec fn spec_scroll_down_once(g: GridView) -> GridView {
    let cells1 = g.cells.remove(g.scroll_bot as int).insert(g.scroll_top as int, blank_row(g.cols));
    GridView { cells: cells1, ..g }
}

/// `n` downward scrolls of the region.
pub open spec fn spec_scroll_down(g: GridView, n: nat) -> GridView
    decreases n,
{
    if n == 0 {
        g
    } else {
        spec_scroll_down_once(spec_scroll_down(g, (n - 1) as nat))
    }
}

/// Line feed: scroll the region up when the cursor sits at (or below)
/// `scroll_bot`, otherwise move the cursor one row down.
pub open spec fn spec_newline(g: GridView) -> GridView {
    if g.cursor_y >= g.scroll_bot {
        spec_scroll_up_once(g)
    } else {
        GridView { cursor_y: (g.cursor_y + 1) as nat, ..g }
    }
}

/// Writing a glyph at the cursor with the given pen. A cursor at or past the
/// right edge wraps to a fresh line first; a wide glyph that would straddle
/// the last column wraps instead of splitting; a wide glyph also writes a
/// zero-width continuation cell to its right (skipped at the right edge); the
/// cursor advances by the glyph's width.
pub open spec fn spec_put_char(g: GridView, ch: char, fg: TermColor, bg: TermColor, attrs: Attrs) -> GridView {
    let g1 = if g.cursor_x >= g.cols {
        spec_newline(GridView { cursor_x: 0, ..g })
    } else {
        g
    };
    let w = glyph_width(ch);
    let g2 = if w == 2 && g1.cursor_x + 1 >= g1.cols {
        spec_newline(GridView { cursor_x: 0, ..g1 })
    } else {
        g1
    };
    let x = g2.cursor_x as int;
    let y = g2.cursor_y as int;
    let written = g2.cells.update(y, g2.cells[y].update(x, Cell { ch, fg, bg, attrs, width: w as u8 }));
    if w == 2 {
        let with_tail = if x + 1 < g2.cols {
            written.update(y, written[y].update(x + 1, Cell { ch: ' ', fg, bg, attrs, width: 0 }))
        } else {
            written
        };
        GridView { cells: with_tail, cursor_x: (g2.cursor_x + 2) as nat, ..g2 }
    } else {
        GridView { cells: written, cursor_x: (g2.cursor_x + 1) as nat, ..g2 }
    }
}

/// The cursor's row after erasing part of it: mode 0 blanks from the cursor
/// to the end, mode 1 from the start through the cursor, mode 2 the whole
/// row; other modes change nothing.
pub open spec fn spec_erased_row(row: Seq<Cell>, cx: int, mode: u8) -> Seq<Cell> {
    if mode == 0 {
        Seq::new(row.len(), |i: int| if i >= cx { Cell::blank_spec() } else { row[i] })
    } else if mode == 1 {
        Seq::new(row.len(), |i: int| if i <= cx { Cell::blank_spec() } else { row[i] })
    } else if mode == 2 {
        Seq::new(row.len(), |i: int| Cell::blank_spec())
    } else {
        row
    }
}

/// Erase within the cursor's line.
pub open spec fn spec_erase_line(g: GridView, mode: u8) -> GridView {
    let y = g.cursor_y as int;
    GridView { cells: g.cells.update(y, spec_erased_row(g.cells[y], g.cursor_x as int, mode)), ..g }
}

/// Erase within the display: mode 0 from the cursor to the end of the screen,
/// mode 1 from the start of the screen through the cursor, modes 2 and 3 the
/// whole screen with the cursor reset to the origin; other modes change
/// nothing.
pub open spec fn spec_erase_display(g: GridView, mode: u8) -> GridView {
    let cy = g.cursor_y as int;
    let cx = g.cursor_x as int;
    if mode == 0 {
        let cells1 = Seq::new(
            g.cells.len(),
            |y: int|
                if y > cy {
                    blank_row(g.cols)
                } else if y == cy {
                    spec_erased_row(g.cells[y], cx, 0)
                } else {
                    g.cells[y]
                },
        );
        GridView { cells: cells1, ..g }
    } else if mode == 1 {
        let cells1 = Seq::new(
            g.cells.len(),
            |y: int|
                if y < cy {
                    blank_row(g.cols)
                } else if y == cy {
                    spec_erased_row(g.cells[y], cx, 1)
                } else {
                    g.cells[y]
                },
        );
        GridView { cells: cells1, ..g }
    } else if mode == 2 || mode == 3 {
        GridView {
            cells: Seq::new(g.cells.len(), |y: int| blank_row(g.cols)),
            cursor_x: 0,
            cursor_y: 0,
            ..g
        }
    } else {
        g
    }
}

/// One row brought to a new column count: truncated, or padded with blanks.
pub open spec fn spec_resized_row(row: Seq<Cell>, new_cols: nat) -> Seq<Cell> {
    Seq::new(new_cols, |i: int| if i < row.len() { row[i] } else { Cell::blank_spec() })
}

/// Resize: every live row is padded or truncated to the new column count,
/// rows are appended blank or truncated to the new row count, and the cursor
/// and scrolling region are re-clamped into the new bounds. Scrollback is
/// untouched.
pub open spec fn spec_resize(g: GridView, new_rows: nat, new_cols: nat) -> GridView {
    let cells1 = Seq::new(
        new_rows,
        |y: int| if y < g.cells.len() { spec_resized_row(g.cells[y], new_cols) } else { blank_row(new_cols) },
    );
    GridView {
        rows: new_rows,
        cols: new_cols,
        cells: cells1,
        cursor_x: min_nat(g.cursor_x, sub_sat(new_cols, 1)),
        cursor_y: min_nat(g.cursor_y, sub_sat(new_rows, 1)),
        scroll_top: min_nat(g.scroll_top, sub_sat(new_rows, 1)),
        scroll_bot: sub_sat(new_rows, 1),
        ..g
    }
}

/// The row shown at viewport position `y`: with the viewport anchored so that
/// `scroll_offset == 0` shows the live bottom, position `y` maps into
/// scrollback or into the live grid, or past the end.
pub open spec fn spec_visible_row(g: GridView, y: nat) -> Option<Seq<Cell>> {
    let total = g.scrollback.len() + g.rows;
    let view_start = sub_sat(total, (g.rows + g.scroll_offset) as nat);
    let idx = view_start + y;
    if idx < g.scrollback.len() {
        Some(g.scrollback[idx as int])
    } else if idx - g.scrollback.len() < g.cells.len() {
        Some(g.cells[idx - g.scrollback.len()])
    } else {
        None
    }
}

/// Cursor moved up by `n`, stopping at the top edge.
pub open spec fn spec_cursor_up(g: GridView, n: nat) -> GridView {
    GridView { cursor_y: sub_sat(g.cursor_y, n), ..g }
}

/// Cursor moved down by `n`, stopping at the bottom edge.
pub open spec fn spec_cursor_down(g: GridView, n: nat) -> GridView {
    GridView { cursor_y: min_nat((g.cursor_y + n) as nat, sub_sat(g.rows, 1)), ..g }
}

/// Cursor moved right by `n`, stopping at the right edge.
pub open spec fn spec_cursor_right(g: GridView, n: nat) -> GridView {
    GridView { cursor_x: min_nat((g.cursor_x + n) as nat, sub_sat(g.cols, 1)), ..g }
}

/// Cursor moved left by `n`, stopping at the left edge.
pub open spec fn spec_cursor_left(g: GridView, n: nat) -> GridView {
    GridView { cursor_x: sub_sat(g.cursor_x, n), ..g }
}

/// Absolute cursor position from 1-based row and column, clamped to bounds.
pub open spec fn spec_cursor_goto(g: GridView, row1: nat, col1: nat) -> GridView {
    GridView {
        cursor_y: min_nat(sub_sat(row1, 1), sub_sat(g.rows, 1)),
        cursor_x: min_nat(sub_sat(col1, 1), sub_sat(g.cols, 1)),
        ..g
    }
}

/// Absolute cursor row from a 1-based parameter, clamped; the column stays.
pub open spec fn spec_cursor_row(g: GridView, row1: nat) -> GridView {
    GridView { cursor_y: min_nat(sub_sat(row1, 1), sub_sat(g.rows, 1)), ..g }
}

/// Absolute cursor column from a 1-based parameter, clamped; the row stays.
pub open spec fn spec_cursor_col(g: GridView, col1: nat) -> GridView {
    GridView { cursor_x: min_nat(sub_sat(col1, 1), sub_sat(g.cols, 1)), ..g }
}

/// Carriage return: the cursor moves to column 0.
pub open spec fn spec_carriage_return(g: GridView) -> GridView {
    GridView { cursor_x: 0, ..g }
}

/// Horizontal tab: the cursor advances to the next multiple-of-8 column,
/// stopping at the right edge.
pub open spec fn spec_tab(g: GridView) -> GridView {
    GridView { cursor_x: min_nat(((g.cursor_x / 8 + 1) * 8) as nat, sub_sat(g.cols, 1)), ..g }
}

/// Backspace: the cursor moves one column left, stopping at the left edge.
pub open spec fn spec_backspace(g: GridView) -> GridView {
    GridView { cursor_x: sub_sat(g.cursor_x, 1), ..g }
}

/// Delete `n` characters at the cursor: the rest of the row shifts left and
/// the vacated tail fills with blanks.
pub open spec fn spec_delete_chars(g: GridView, n: nat) -> GridView {
    let y = g.cursor_y as int;
    let x = g.cursor_x as int;
    let row = g.cells[y];
    let row1 = Seq::new(
        row.len(),
        |i: int|
            if i < x {
                row[i]
            } else if i + n < row.len() {
                row[i + n]
            } else {
                Cell::blank_spec()
            },
    );
    GridView { cells: g.cells.update(y, row1), ..g }
}

/// Insert `n` blank characters at the cursor: the rest of the row shifts
/// right, discarding overflow past the row end.
pub open spec fn spec_insert_blanks(g: GridView, n: nat) -> GridView {
    let y = g.cursor_y as int;
    let x = g.cursor_x as int;
    let row = g.cells[y];
    let row1 = Seq::new(
        row.len(),
        |i: int|
            if i < x {
                row[i]
            } else if i >= x + n {
                row[i - n]
            } else {
                Cell::blank_spec()
            },
    );
    GridView { cells: g.cells.update(y, row1), ..g }
}

/// Set the scrolling region from 1-based top and bottom rows, both clamped to
/// the grid height; an empty range (top past bottom) leaves the region
/// unchanged.
pub open spec fn spec_set_scroll_region(g: GridView, top1: nat, bot1: nat) -> GridView {
    let t = min_nat(sub_sat(top1, 1), sub_sat(g.rows, 1));
    let b = min_nat(sub_sat(bot1, 1), sub_sat(g.rows, 1));
    if t <= b {
        GridView { scroll_top: t, scroll_bot: b, ..g }
    } else {
        g
    }
}

/// Reverse index: scroll the region down when the cursor sits at (or above)
/// `scroll_top`, otherwise move the cursor one row up.
pub open spec fn spec_reverse_index(g: GridView) -> GridView {
    if g.cursor_y <= g.scroll_top {
        spec_scroll_down_once(g)
    } else {
        GridView { cursor_y: sub_sat(g.cursor_y, 1), ..g }
    }
}

/// One row with part of it blanked, per the erase-line modes.
fn erased_row_exec(row: &Vec<Cell>, cx: usize, mode: u8) -> (r: Vec<Cell>)
    ensures
        r@ == spec_erased_row(row@, cx as int, mode),
{
    let mut r: Vec<Cell> = Vec::new();
    let len = row.len();
    let mut i: usize = 0;
    while i < len
        invariant
            i <= len,
            len == row@.len(),
            r@.len() == i,
            forall|j: int| 0 <= j < i ==> r@[j] == spec_erased_row(row@, cx as int, mode)[j],
        decreases len - i,
    {
        let blank_here = if mode == 0 {
            i >= cx
        } else if mode == 1 {
            i <= cx
        } else {
            mode == 2
        };
        if blank_here {
            r.push(Cell::blank());
        } else {
            r.push(row[i]);
        }
        i += 1;
    }
    proof {
        assert(r@ =~= spec_erased_row(row@, cx as int, mode));
    }
    r
}

/// One row brought to a new column count.
fn resized_row_exec(row: &Vec<Cell>, new_cols: usize) -> (r: Vec<Cell>)
    ensures
        r@ == spec_resized_row(row@, new_cols as nat),
{
    let mut r: Vec<Cell> = Vec::new();
    let mut i: usize = 0;
    while i < new_cols
        invariant
            i <= new_cols,
            r@.len() == i,
            forall|j: int| 0 <= j < i ==> r@[j] == spec_resized_row(row@, new_cols as nat)[j],
        decreases new_cols - i,
    {
        if i < row.len() {
            r.push(row[i]);
        } else {
            r.push(Cell::blank());
        }
        i += 1;
    }
    proof {
        assert(r@ =~= spec_resized_row(row@, new_cols as nat));
    }
    r
}

/// One row with `n` cells deleted at column `x`: the tail shifts left and
/// blanks fill the end.
fn shifted_left_row(row: &Vec<Cell>, x: usize, n: usize) -> (r: Vec<Cell>)
    ensures
        r@.len() == row@.len(),
        forall|i: int|
            0 <= i < row@.len() ==> r@[i] == (if i < x {
                row@[i]
            } else if i + n < row@.len() {
                row@[i + n]
            } else {
                Cell::blank_spec()
            }),
{
    let mut r: Vec<Cell> = Vec::new();
    let len = row.len();
    let mut i: usize = 0;
    while i < len
        invariant
            i <= len,
            len == row@.len(),
            r@.len() == i,
            forall|j: int|
                0 <= j < i ==> r@[j] == (if j < x {
                    row@[j]
                } else if j + n < row@.len() {
                    row@[j + n]
                } else {
                    Cell::blank_spec()
                }),
        decreases len - i,
    {
        if i < x {
            r.push(row[i]);
        } else if n < len - i {
            r.push(row[i + n]);
        } else {
            r.push(Cell::blank());
        }
        i += 1;
    }
    r
}

/// One row with `n` blanks inserted at column `x`: the tail shifts right,
/// overflow past the row end discarded.
fn shifted_right_row(row: &Vec<Cell>, x: usize, n: usize) -> (r: Vec<Cell>)
    ensures
        r@.len() == row@.len(),
        forall|i: int|
            0 <= i < row@.len() ==> r@[i] == (if i < x {
                row@[i]
            } else if i >= x + n {
                row@[i - n]
            } else {
                Cell::blank_spec()
            }),
{
    let mut r: Vec<Cell> = Vec::new();
    let len = row.len();
    let mut i: usize = 0;
    while i < len
        invariant
            i <= len,
            len == row@.len(),
            r@.len() == i,
            forall|j: int|
                0 <= j < i ==> r@[j] == (if j < x {
                    row@[j]
                } else if j >= x + n {
                    row@[j - n]
                } else {
                    Cell::blank_spec()
                }),
        decreases len - i,
    {
        if i < x {
            r.push(row[i]);
        } else if i - x >= n {
            r.push(row[i - n]);
        } else {
            r.push(Cell::blank());
        }
        i += 1;
    }
    r
}

/// `n` glyphs printed in a row through one pen.
pub open spec fn spec_put_n(g: GridView, ch: char, fg: TermColor, bg: TermColor, attrs: Attrs, n: nat) -> GridView
    decreases n,
{
    if n == 0 {
        g
    } else {
        spec_put_char(spec_put_n(g, ch, fg, bg, attrs, (n - 1) as nat), ch, fg, bg, attrs)
    }
}

/// Printing `n` single-width glyphs that fit on the cursor's row writes them
/// into consecutive columns, one per column - none lost, none duplicated -
/// advances the cursor by exactly `n`, and touches nothing else: not the
/// cursor's row elsewhere, not other rows, not scrollback.
pub proof fn lemma_print_fills_row(g: GridView, ch: char, fg: TermColor, bg: TermColor, attrs: Attrs, n: nat)
    requires
        g.wf(),
        glyph_width(ch) == 1,
        g.cursor_x + n <= g.cols,
    ensures
        ({
            let g2 = spec_put_n(g, ch, fg, bg, attrs, n);
            &&& g2.wf()
            &&& g2.cursor_x == g.cursor_x + n
            &&& g2.cursor_y == g.cursor_y
            &&& g2.cells.len() == g.cells.len()
            &&& (forall|x: int|
                g.cursor_x <= x < g.cursor_x + n ==> g2.cells[g.cursor_y as int][x] == (Cell {
                    ch,
                    fg,
                    bg,
                    attrs,
                    width: 1,
                }))
            &&& (forall|x: int|
                0 <= x < g.cols && !(g.cursor_x <= x < g.cursor_x + n)
                    ==> g2.cells[g.cursor_y as int][x] == g.cells[g.cursor_y as int][x])
            &&& (forall|y: int| 0 <= y < g.rows && y != g.cursor_y ==> g2.cells[y] == g.cells[y])
            &&& g2.scrollback == g.scrollback
            &&& g2.rows == g.rows
            &&& g2.cols == g.cols
            &&& g2.scroll_top == g.scroll_top
            &&& g2.scroll_bot == g.scroll_bot
        }),
    decreases n,
{
    if n > 0 {
        lemma_print_fills_row(g, ch, fg, bg, attrs, (n - 1) as nat);
        let g1 = spec_put_n(g, ch, fg, bg, attrs, (n - 1) as nat);
        let g2 = spec_put_char(g1, ch, fg, bg, attrs);
        assert(g1.cursor_x < g1.cols);
        assert(g2.cells[g.cursor_y as int] =~= g1.cells[g.cursor_y as int].update(
            g1.cursor_x as int,
            Cell { ch, fg, bg, attrs, width: 1 },
        ));
    }
}

/// Printing exactly `cols` single-width glyphs from column 0 fills the
/// cursor's row completely and leaves the cursor at the transient right
/// edge; the very next glyph then wraps - exactly once - and lands at
/// column 0 of the next row, with the filled row intact.
pub proof fn lemma_row_fill_wraps_once(g: GridView, ch: char, ch2: char, fg: TermColor, bg: TermColor, attrs: Attrs)
    requires
        g.wf(),
        glyph_width(ch) == 1,
        glyph_width(ch2) == 1,
        g.cursor_x == 0,
        g.cursor_y < g.scroll_bot,
    ensures
        ({
            let filled = spec_put_n(g, ch, fg, bg, attrs, g.cols);
            let after = spec_put_char(filled, ch2, fg, bg, attrs);
            &&& filled.cursor_x == g.cols
            &&& filled.cursor_y == g.cursor_y
            &&& (forall|x: int|
                0 <= x < g.cols ==> filled.cells[g.cursor_y as int][x] == (Cell { ch, fg, bg, attrs, width: 1 }))
            &&& after.cursor_x == 1
            &&& after.cursor_y == g.cursor_y + 1
            &&& after.cells[g.cursor_y as int + 1][0] == (Cell { ch: ch2, fg, bg, attrs, width: 1 })
            &&& (forall|x: int|
                0 <= x < g.cols ==> after.cells[g.cursor_y as int][x] == (Cell { ch, fg, bg, attrs, width: 1 }))
        }),
{
    lemma_print_fills_row(g, ch, fg, bg, attrs, g.cols);
    let filled = spec_put_n(g, ch, fg, bg, attrs, g.cols);
    let after = spec_put_char(filled, ch2, fg, bg, attrs);
    assert(filled.cursor_x >= filled.cols);
    let wrapped = spec_newline(GridView { cursor_x: 0, ..filled });
    assert(wrapped.cursor_y == g.cursor_y + 1);
    assert(after.cells[g.cursor_y as int + 1][0] == (Cell { ch: ch2, fg, bg, attrs, width: 1 }));
}

/// A wide glyph printed at the last column does not split: the cursor wraps
/// first, the glyph lands at column 0 of the next row with its zero-width
/// continuation beside it, and the previous row's last column keeps its
/// prior content.
pub proof fn lemma_wide_no_split(g: GridView, ch: char, fg: TermColor, bg: TermColor, attrs: Attrs)
    requires
        g.wf(),
        glyph_width(ch) == 2,
        g.cols >= 2,
        g.cursor_x == g.cols - 1,
        g.cursor_y < g.scroll_bot,
    ensures
        ({
            let g2 = spec_put_char(g, ch, fg, bg, attrs);
            &&& g2.cursor_y == g.cursor_y + 1
            &&& g2.cursor_x == 2
            &&& g2.cells[g.cursor_y as int] == g.cells[g.cursor_y as int]
            &&& g2.cells[g.cursor_y as int][g.cols - 1] == g.cells[g.cursor_y as int][g.cols - 1]
            &&& g2.cells[g.cursor_y as int + 1][0] == (Cell { ch, fg, bg, attrs, width: 2 })
            &&& g2.cells[g.cursor_y as int + 1][1] == (Cell { ch: ' ', fg, bg, attrs, width: 0 })
        }),
{
    let g2 = spec_put_char(g, ch, fg, bg, attrs);
    assert(g.cursor_x < g.cols);
    let wrapped = spec_newline(GridView { cursor_x: 0, ..g });
    assert(wrapped.cursor_y == g.cursor_y + 1);
}

/// Erasing the whole display resets the cursor to the origin from any prior
/// position and leaves every cell equal to the default cell.
pub proof fn lemma_erase_display_resets(g: GridView, mode: u8)
    requires
        g.wf(),
        mode == 2 || mode == 3,
    ensures
        spec_erase_display(g, mode).cursor_x == 0,
        spec_erase_display(g, mode).cursor_y == 0,
        forall|y: int, x: int|
            0 <= y < g.rows && 0 <= x < g.cols ==> spec_erase_display(g, mode).cells[y][x]
                == Cell::blank_spec(),
{
}

/// One upward scroll keeps the grid well-formed - in particular scrollback
/// never exceeds its cap.
pub proof fn lemma_scroll_up_once_wf(g: GridView)
    requires
        g.wf(),
    ensures
        spec_scroll_up_once(g).wf(),
{
    let g2 = spec_scroll_up_once(g);
    assert(forall|y: int| 0 <= y < g2.cells.len() ==> (#[trigger] g2.cells[y]).len() == g2.cols);
}

/// However often the region scrolls up, scrollback never grows past
/// `max_scrollback`; each scroll appends the newest evicted row at the end,
/// and once the cap is reached it is the oldest scrollback row that is
/// dropped, never a newer one.
pub proof fn lemma_scrollback_bounded(g: GridView, n: nat)
    requires
        g.wf(),
    ensures
        spec_scroll_up(g, n).wf(),
        spec_scroll_up(g, n).scrollback.len() <= g.max_scrollback,
        spec_scroll_up(g, n).max_scrollback == g.max_scrollback,
    decreases n,
{
    if n > 0 {
        lemma_scrollback_bounded(g, (n - 1) as nat);
        lemma_scroll_up_once_wf(spec_scroll_up(g, (n - 1) as nat));
    }
}

/// What one eviction does to scrollback, exactly: the evicted row is
/// appended; below the cap nothing is dropped, and at the cap the oldest
/// row - the first - is dropped and every newer row survives, shifted down.
pub proof fn lemma_scroll_up_eviction(g: GridView)
    requires
        g.wf(),
        g.max_scrollback > 0,
    ensures
        ({
            let evicted = g.cells[g.scroll_top as int];
            let sb2 = spec_scroll_up_once(g).scrollback;
            &&& sb2.last() == evicted
            &&& (g.scrollback.len() < g.max_scrollback ==> sb2 == g.scrollback.push(evicted))
            &&& (g.scrollback.len() == g.max_scrollback ==> sb2 == g.scrollback.drop_first().push(
                evicted,
            ))
        }),
{
    let evicted = g.cells[g.scroll_top as int];
    let sb1 = g.scrollback.push(evicted);
    if g.scrollback.len() == g.max_scrollback {
        assert(sb1.remove(0) =~= g.scrollback.drop_first().push(evicted));
    }
}

/// The viewport window, spelled out: with the offset no larger than the
/// scrollback, the first `scroll_offset` viewport rows show the newest
/// scrollback tail, the next `rows` show the live grid in order - offset 0
/// shows exactly the live bottom - and beyond that there is nothing.
pub proof fn lemma_visible_row_window(g: GridView, y: nat)
    requires
        g.wf(),
        g.scroll_offset <= g.scrollback.len(),
    ensures
        y < g.scroll_offset ==> spec_visible_row(g, y) == Some(
            g.scrollback[g.scrollback.len() - g.scroll_offset + y],
        ),
        g.scroll_offset <= y < g.scroll_offset + g.rows ==> spec_visible_row(g, y) == Some(
            g.cells[y - g.scroll_offset],
        ),
        y >= g.scroll_offset + g.rows ==> spec_visible_row(g, y) is None,
{
}

/// Resizing, however small or large, re-clamps the cursor strictly within
/// the new bounds and leaves every live row with exactly the new column
/// count.
pub proof fn lemma_resize_bounds(g: GridView, new_rows: nat, new_cols: nat)
    requires
        g.wf(),
        1 <= new_rows <= 0xffff,
        1 <= new_cols <= 0xffff,
    ensures
        spec_resize(g, new_rows, new_cols).wf(),
        spec_resize(g, new_rows, new_cols).cursor_x < new_cols,
        spec_resize(g, new_rows, new_cols).cursor_y < new_rows,
        forall|y: int|
            0 <= y < new_rows ==> (#[trigger] spec_resize(g, new_rows, new_cols).cells[y]).len()
                == new_cols,
{
}

/// The authoritative character buffer: a `rows x cols` matrix of styled
/// cells, a cursor, a scrolling region, and a bounded scrollback of evicted
/// rows with a viewport offset. All index arithmetic clamps or saturates:
/// malformed control input is absorbed, never a panic.
pub struct Grid {
    pub rows: usize,
    pub cols: usize,
    pub cells: Vec<Vec<Cell>>,
    pub cursor_x: usize,
    pub cursor_y: usize,
    pub scroll_top: usize,
    pub scroll_bot: usize,
    pub scrollback: Vec<Vec<Cell>>,
    pub max_scrollback: usize,
    pub scroll_offset: usize,
}

impl View for Grid {
    type V = GridView;

    open spec fn view(&self) -> GridView {
        GridView {
            rows: self.rows as nat,
            cols: self.cols as nat,
            cells: Seq::new(self.cells@.len(), |i: int| self.cells@[i]@),
            cursor_x: self.cursor_x as nat,
            cursor_y: self.cursor_y as nat,
            scroll_top: self.scroll_top as nat,
            scroll_bot: self.scroll_bot as nat,
            scrollback: Seq::new(self.scrollback@.len(), |i: int| self.scrollback@[i]@),
            max_scrollback: self.max_scrollback as nat,
            scroll_offset: self.scroll_offset as nat,
        }
    }
}

/// Builds one blank row of `cols` default cells.
fn blank_row_exec(cols: usize) -> (r: Vec<Cell>)
    ensures
        r@ == blank_row(cols as nat),
{
    let mut r: Vec<Cell> = Vec::new();
    let mut i: usize = 0;
    while i < cols
        invariant
            i <= cols,
            r@.len() == i,
            forall|j: int| 0 <= j < i ==> r@[j] == Cell::blank_spec(),
        decreases cols - i,
    {
        r.push(Cell::blank());
        i += 1;
    }
    proof {
        assert(r@ =~= blank_row(cols as nat));
    }
    r
}

impl Grid {
    pub fn new(rows: usize, cols: usize, max_scrollback: usize) -> (g: Grid)
        requires
            1 <= rows <= 0xffff,
            1 <= cols <= 0xffff,
            max_scrollback <= 0x1000_0000,
        ensures
            g@ == spec_new_grid(rows as nat, cols as nat, max_scrollback as nat),
            g@.wf(),
    {
        let mut cells: Vec<Vec<Cell>> = Vec::new();
        let mut i: usize = 0;
        while i < rows
            invariant
                i <= rows,
                cells@.len() == i,
                forall|j: int| 0 <= j < i ==> (#[trigger] cells@[j])@ == blank_row(cols as nat),
            decreases rows - i,
        {
            cells.push(blank_row_exec(cols));
            i += 1;
        }
        let g = Grid {
            rows,
            cols,
            cells,
            cursor_x: 0,
            cursor_y: 0,
            scroll_top: 0,
            scroll_bot: rows - 1,
            scrollback: Vec::new(),
            max_scrollback,
            scroll_offset: 0,
        };
        proof {
            assert(g@ =~~= spec_new_grid(rows as nat, cols as nat, max_scrollback as nat));
        }
        g
    }

    /// One upward scroll of the region, evicting the top row into scrollback.
    fn scroll_up_once(&mut self)
        requires
            old(self)@.wf(),
        ensures
            final(self)@.wf(),
            final(self)@ == spec_scroll_up_once(old(self)@),
    {
        let evicted = self.cells.remove(self.scroll_top);
        self.scrollback.push(evicted);
        if self.scrollback.len() > self.max_scrollback {
            self.scrollback.remove(0);
        }
        let fresh = blank_row_exec(self.cols);
        self.cells.insert(self.scroll_bot, fresh);
        proof {
            assert(self@ =~~= spec_scroll_up_once(old(self)@));
        }
    }

    /// Scrolls the region up `n` times; each evicted row enters scrollback,
    /// the oldest scrollback row dropping once the cap is exceeded.
    pub fn scroll_up(&mut self, n: usize)
        requires
            old(self)@.wf(),
        ensures
            final(self)@.wf(),
            final(self)@ == spec_scroll_up(old(self)@, n as nat),
    {
        let mut i: usize = 0;
        while i < n
            invariant
                i <= n,
                self@.wf(),
                self@ == spec_scroll_up(old(self)@, i as nat),
            decreases n - i,
        {
            self.scroll_up_once();
            i += 1;
        }
    }

    /// One downward scroll of the region.
    fn scroll_down_once(&mut self)
        requires
            old(self)@.wf(),
        ensures
            final(self)@.wf(),
            final(self)@ == spec_scroll_down_once(old(self)@),
    {
        self.cells.remove(self.scroll_bot);
        let fresh = blank_row_exec(self.cols);
        self.cells.insert(self.scroll_top, fresh);
        proof {
            assert(self@ =~~= spec_scroll_down_once(old(self)@));
        }
    }

    /// Scrolls the region down `n` times, a blank row appearing at the top of
    /// the region each time. Nothing enters scrollback.
    pub fn scroll_down(&mut self, n: usize)
        requires
            old(self)@.wf(),
        ensures
            final(self)@.wf(),
            final(self)@ == spec_scroll_down(old(self)@, n as nat),
    {
        let mut i: usize = 0;
        while i < n
            invariant
                i <= n,
                self@.wf(),
                self@ == spec_scroll_down(old(self)@, i as nat),
            decreases n - i,
        {
            self.scroll_down_once();
            i += 1;
        }
    }

    /// Line feed at the cursor: scrolls the region up when the cursor is at
    /// (or below) `scroll_bot`, otherwise moves the cursor one row down.
    pub fn newline(&mut self)
        requires
            old(self)@.wf(),
        ensures
            final(self)@.wf(),
            final(self)@ == spec_newline(old(self)@),
    {
        if self.cursor_y >= self.scroll_bot {
            self.scroll_up_once();
        } else {
            self.cursor_y = self.cursor_y + 1;
            proof {
                assert(self@ =~~= spec_newline(old(self)@));
            }
        }
    }

    /// Writes a glyph at the cursor with the given pen, wrapping at the right
    /// edge and never splitting a wide glyph across the margin.
    pub fn put_char(&mut self, ch: char, fg: TermColor, bg: TermColor, attrs: Attrs)
        requires
            old(self)@.wf(),
        ensures
            final(self)@.wf(),
            final(self)@ == spec_put_char(old(self)@, ch, fg, bg, attrs),
    {
        if self.cursor_x >= self.cols {
            self.cursor_x = 0;
            self.newline();
        }
        let ghost g1 = if old(self)@.cursor_x >= old(self)@.cols {
            spec_newline(GridView { cursor_x: 0, ..old(self)@ })
        } else {
            old(self)@
        };
        proof {
            assert(self@ =~~= g1);
        }
        let w = glyph_width_exec(ch);
        if w == 2 && self.cursor_x + 1 >= self.cols {
            self.cursor_x = 0;
            self.newline();
        }
        let ghost g2 = if glyph_width(ch) == 2 && g1.cursor_x + 1 >= g1.cols {
            spec_newline(GridView { cursor_x: 0, ..g1 })
        } else {
            g1
        };
        proof {
            assert(self@ =~~= g2);
        }
        let y = self.cursor_y;
        let x = self.cursor_x;
        proof {
            assert(g2.wf());
            assert(self.cells@.len() == self@.cells.len());
            assert(self.cells@[y as int]@ == self@.cells[y as int]);
            assert(x < self@.cols);
        }
        self.cells[y][x] = Cell { ch, fg, bg, attrs, width: w as u8 };
        if w == 2 {
            let nx = x + 1;
            if nx < self.cols {
                self.cells[y][nx] = Cell { ch: ' ', fg, bg, attrs, width: 0 };
            }
            self.cursor_x = x + 2;
        } else {
            self.cursor_x = x + 1;
        }
        proof {
            assert(self@ =~~= spec_put_char(old(self)@, ch, fg, bg, attrs));
        }
    }

    /// Erases within the cursor's line: mode 0 from the cursor to the end,
    /// mode 1 from the start through the cursor, mode 2 the whole line;
    /// other modes are absorbed unchanged.
    pub fn erase_line(&mut self, mode: u8)
        requires
            old(self)@.wf(),
        ensures
            final(self)@.wf(),
            final(self)@ == spec_erase_line(old(self)@, mode),
    {
        let y = self.cursor_y;
        let r = erased_row_exec(&self.cells[y], self.cursor_x, mode);
        self.cells[y] = r;
        proof {
            assert(self@.cells[y as int] == self.cells@[y as int]@);
            assert(self@ =~~= spec_erase_line(old(self)@, mode));
        }
    }

    /// Erases within the display: mode 0 from the cursor to the end of the
    /// screen, mode 1 from the start of the screen through the cursor, modes
    /// 2 and 3 the whole screen with the cursor reset to the origin; other
    /// modes are absorbed unchanged.
    #[verifier::loop_isolation(false)]
    pub fn erase_display(&mut self, mode: u8)
        requires
            old(self)@.wf(),
        ensures
            final(self)@.wf(),
            final(self)@ == spec_erase_display(old(self)@, mode),
    {
        let cy = self.cursor_y;
        if mode == 0 {
            let ghost prev = self@;
            let r = erased_row_exec(&self.cells[cy], self.cursor_x, 0);
            self.cells[cy] = r;
            proof {
                assert(self@.cells =~= prev.cells.update(
                    cy as int,
                    spec_erased_row(old(self)@.cells[cy as int], old(self)@.cursor_x as int, 0),
                ));
                assert(self@ == (GridView { cells: self@.cells, ..prev }));
            }
            let mut yy = cy + 1;
            while yy < self.rows
                invariant
                    cy < yy <= self.rows,
                    self.rows == old(self).rows,
                    self.cols == old(self).cols,
                    cy == old(self).cursor_y,
                    self@ == (GridView { cells: self@.cells, ..old(self)@ }),
                    self@.cells.len() == old(self)@.cells.len(),
                    forall|r2: int| 0 <= r2 < cy ==> self@.cells[r2] == old(self)@.cells[r2],
                    self@.cells[cy as int] == spec_erased_row(old(self)@.cells[cy as int], old(self)@.cursor_x as int, 0),
                    forall|r2: int| cy < r2 < yy ==> self@.cells[r2] == blank_row(old(self)@.cols),
                    forall|r2: int| yy <= r2 < self@.cells.len() ==> self@.cells[r2] == old(self)@.cells[r2],
                decreases self.rows - yy,
            {
                let ghost prev = self@;
                let b = blank_row_exec(self.cols);
                self.cells[yy] = b;
                proof {
                    assert(self@.cells =~= prev.cells.update(yy as int, blank_row(old(self)@.cols)));
                    assert(self@ == (GridView { cells: self@.cells, ..prev }));
                }
                yy += 1;
            }
            proof {
                assert(self@ =~~= spec_erase_display(old(self)@, mode));
            }
        } else if mode == 1 {
            let mut yy: usize = 0;
            while yy < cy
                invariant
                    yy <= cy,
                    cy < self.rows,
                    self.rows == old(self).rows,
                    self.cols == old(self).cols,
                    cy == old(self).cursor_y,
                    self@ == (GridView { cells: self@.cells, ..old(self)@ }),
                    self@.cells.len() == old(self)@.cells.len(),
                    forall|r2: int| 0 <= r2 < yy ==> self@.cells[r2] == blank_row(old(self)@.cols),
                    forall|r2: int| yy <= r2 < self@.cells.len() ==> self@.cells[r2] == old(self)@.cells[r2],
                decreases cy - yy,
            {
                let ghost prev = self@;
                let b = blank_row_exec(self.cols);
                self.cells[yy] = b;
                proof {
                    assert(self@.cells =~= prev.cells.update(yy as int, blank_row(old(self)@.cols)));
                    assert(self@ == (GridView { cells: self@.cells, ..prev }));
                }
                yy += 1;
            }
            let ghost prev = self@;
            let r = erased_row_exec(&self.cells[cy], self.cursor_x, 1);
            self.cells[cy] = r;
            proof {
                assert(self@.cells =~= prev.cells.update(
                    cy as int,
                    spec_erased_row(old(self)@.cells[cy as int], old(self)@.cursor_x as int, 1),
                ));
                assert(self@ == (GridView { cells: self@.cells, ..prev }));
                assert(self@ =~~= spec_erase_display(old(self)@, mode));
            }
        } else if mode == 2 || mode == 3 {
            let mut yy: usize = 0;
            while yy < self.rows
                invariant
                    yy <= self.rows,
                    self.rows == old(self).rows,
                    self.cols == old(self).cols,
                    self@ == (GridView { cells: self@.cells, ..old(self)@ }),
                    self@.cells.len() == old(self)@.cells.len(),
                    forall|r2: int| 0 <= r2 < yy ==> self@.cells[r2] == blank_row(old(self)@.cols),
                    forall|r2: int| yy <= r2 < self@.cells.len() ==> self@.cells[r2] == old(self)@.cells[r2],
                decreases self.rows - yy,
            {
                let ghost prev = self@;
                let b = blank_row_exec(self.cols);
                self.cells[yy] = b;
                proof {
                    assert(self@.cells =~= prev.cells.update(yy as int, blank_row(old(self)@.cols)));
                    assert(self@ == (GridView { cells: self@.cells, ..prev }));
                }
                yy += 1;
            }
            self.cursor_x = 0;
            self.cursor_y = 0;
            proof {
                assert(self@ =~~= spec_erase_display(old(self)@, mode));
            }
        } else {
            proof {
                assert(self@ =~~= spec_erase_display(old(self)@, mode));
            }
        }
    }

    /// Resizes the grid in place: every row is padded or truncated to the new
    /// column count, rows are appended blank or truncated, and the cursor and
    /// scrolling region are re-clamped. Scrollback is untouched.
    #[verifier::loop_isolation(false)]
    pub fn resize(&mut self, new_rows: usize, new_cols: usize)
        requires
            old(self)@.wf(),
            1 <= new_rows <= 0xffff,
            1 <= new_cols <= 0xffff,
        ensures
            final(self)@.wf(),
            final(self)@ == spec_resize(old(self)@, new_rows as nat, new_cols as nat),
    {
        let mut y: usize = 0;
        while y < self.rows
            invariant
                y <= self.rows,
                self.rows == old(self).rows,
                self@ == (GridView { cells: self@.cells, ..old(self)@ }),
                self@.cells.len() == old(self)@.cells.len(),
                self@.cells.len() == self.rows,
                forall|r2: int| 0 <= r2 < y ==> self@.cells[r2] == spec_resized_row(old(self)@.cells[r2], new_cols as nat),
                forall|r2: int| y <= r2 < self@.cells.len() ==> self@.cells[r2] == old(self)@.cells[r2],
            decreases self.rows - y,
        {
            let ghost prev = self@;
            let r = resized_row_exec(&self.cells[y], new_cols);
            self.cells[y] = r;
            proof {
                assert(self@.cells =~= prev.cells.update(
                    y as int,
                    spec_resized_row(old(self)@.cells[y as int], new_cols as nat),
                ));
                assert(self@ == (GridView { cells: self@.cells, ..prev }));
            }
            y += 1;
        }
        if new_rows > self.rows {
            let mut k = self.rows;
            while k < new_rows
                invariant
                    old(self).rows <= k <= new_rows,
                    self.rows == old(self).rows,
                    self@ == (GridView { cells: self@.cells, ..old(self)@ }),
                    self@.cells.len() == k,
                    forall|r2: int| 0 <= r2 < old(self)@.cells.len() ==> self@.cells[r2] == spec_resized_row(old(self)@.cells[r2], new_cols as nat),
                    forall|r2: int| old(self)@.cells.len() <= r2 < k ==> self@.cells[r2] == blank_row(new_cols as nat),
                decreases new_rows - k,
            {
                let ghost prev = self@;
                let b = blank_row_exec(new_cols);
                self.cells.push(b);
                proof {
                    assert(self@.cells =~= prev.cells.push(blank_row(new_cols as nat)));
                    assert(self@ == (GridView { cells: self@.cells, ..prev }));
                }
                k += 1;
            }
        } else {
            let ghost mid = self@;
            self.cells.truncate(new_rows);
            proof {
                assert(self@.cells =~= mid.cells.subrange(0, new_rows as int));
                assert(self@ == (GridView { cells: self@.cells, ..mid }));
            }
        }
        proof {
            assert(self@.cells =~= spec_resize(old(self)@, new_rows as nat, new_cols as nat).cells);
        }
        self.rows = new_rows;
        self.cols = new_cols;
        self.scroll_bot = new_rows - 1;
        if self.scroll_top > new_rows - 1 {
            self.scroll_top = new_rows - 1;
        }
        if self.cursor_x > new_cols - 1 {
            self.cursor_x = new_cols - 1;
        }
        if self.cursor_y > new_rows - 1 {
            self.cursor_y = new_rows - 1;
        }
        proof {
            assert(self@ =~~= spec_resize(old(self)@, new_rows as nat, new_cols as nat));
        }
    }

    /// The row shown at viewport position `y`, honoring `scroll_offset`:
    /// a scrollback row, a live grid row, or nothing past the end.
    pub fn visible_row(&self, y: usize) -> (r: Option<&Vec<Cell>>)
        requires
            self@.wf(),
        ensures
            match r {
                Some(row) => spec_visible_row(self@, y as nat) == Some(row@),
                None => spec_visible_row(self@, y as nat) is None,
            },
    {
        let sb_len = self.scrollback.len();
        let total = sb_len + self.rows;
        if y >= total {
            return None;
        }
        let anchored = self.rows + self.scroll_offset;
        let view_start = if total >= anchored {
            total - anchored
        } else {
            0
        };
        let idx = view_start + y;
        if idx < sb_len {
            Some(&self.scrollback[idx])
        } else {
            let k = idx - sb_len;
            if k < self.rows {
                Some(&self.cells[k])
            } else {
                None
            }
        }
    }

    /// Moves the cursor up by `n`, stopping at the top edge.
    pub fn cursor_up(&mut self, n: usize)
        requires
            old(self)@.wf(),
        ensures
            final(self)@.wf(),
            final(self)@ == spec_cursor_up(old(self)@, n as nat),
    {
        if self.cursor_y >= n {
            self.cursor_y = self.cursor_y - n;
        } else {
            self.cursor_y = 0;
        }
        proof {
            assert(self@ =~~= spec_cursor_up(old(self)@, n as nat));
        }
    }

    /// Moves the cursor down by `n`, stopping at the bottom edge.
    pub fn cursor_down(&mut self, n: usize)
        requires
            old(self)@.wf(),
        ensures
            final(self)@.wf(),
            final(self)@ == spec_cursor_down(old(self)@, n as nat),
    {
        let limit = self.rows - 1;
        if n >= limit - self.cursor_y {
            self.cursor_y = limit;
        } else {
            self.cursor_y = self.cursor_y + n;
        }
        proof {
            assert(self@ =~~= spec_cursor_down(old(self)@, n as nat));
        }
    }

    /// Moves the cursor right by `n`, stopping at the right edge.
    pub fn cursor_right(&mut self, n: usize)
        requires
            old(self)@.wf(),
        ensures
            final(self)@.wf(),
            final(self)@ == spec_cursor_right(old(self)@, n as nat),
    {
        let limit = self.cols - 1;
        if self.cursor_x >= limit || n >= limit - self.cursor_x {
            self.cursor_x = limit;
        } else {
            self.cursor_x = self.cursor_x + n;
        }
        proof {
            assert(self@ =~~= spec_cursor_right(old(self)@, n as nat));
        }
    }

    /// Moves the cursor left by `n`, stopping at the left edge.
    pub fn cursor_left(&mut self, n: usize)
        requires
            old(self)@.wf(),
        ensures
            final(self)@.wf(),
            final(self)@ == spec_cursor_left(old(self)@, n as nat),
    {
        if self.cursor_x >= n {
            self.cursor_x = self.cursor_x - n;
        } else {
            self.cursor_x = 0;
        }
        proof {
            assert(self@ =~~= spec_cursor_left(old(self)@, n as nat));
        }
    }

    /// Places the cursor absolutely from 1-based row and column, clamped.
    pub fn cursor_goto(&mut self, row1: usize, col1: usize)
        requires
            old(self)@.wf(),
        ensures
            final(self)@.wf(),
            final(self)@ == spec_cursor_goto(old(self)@, row1 as nat, col1 as nat),
    {
        let ry = if row1 >= 1 {
            row1 - 1
        } else {
            0
        };
        let cx = if col1 >= 1 {
            col1 - 1
        } else {
            0
        };
        self.cursor_y = if ry > self.rows - 1 {
            self.rows - 1
        } else {
            ry
        };
        self.cursor_x = if cx > self.cols - 1 {
            self.cols - 1
        } else {
            cx
        };
        proof {
            assert(self@ =~~= spec_cursor_goto(old(self)@, row1 as nat, col1 as nat));
        }
    }

    /// Places the cursor on an absolute 1-based row, clamped.
    pub fn cursor_row(&mut self, row1: usize)
        requires
            old(self)@.wf(),
        ensures
            final(self)@.wf(),
            final(self)@ == spec_cursor_row(old(self)@, row1 as nat),
    {
        let ry = if row1 >= 1 {
            row1 - 1
        } else {
            0
        };
        self.cursor_y = if ry > self.rows - 1 {
            self.rows - 1
        } else {
            ry
        };
        proof {
            assert(self@ =~~= spec_cursor_row(old(self)@, row1 as nat));
        }
    }

    /// Places the cursor on an absolute 1-based column, clamped.
    pub fn cursor_col(&mut self, col1: usize)
        requires
            old(self)@.wf(),
        ensures
            final(self)@.wf(),
            final(self)@ == spec_cursor_col(old(self)@, col1 as nat),
    {
        let cx = if col1 >= 1 {
            col1 - 1
        } else {
            0
        };
        self.cursor_x = if cx > self.cols - 1 {
            self.cols - 1
        } else {
            cx
        };
        proof {
            assert(self@ =~~= spec_cursor_col(old(self)@, col1 as nat));
        }
    }

    /// Carriage return: the cursor moves to column 0.
    pub fn carriage_return(&mut self)
        requires
            old(self)@.wf(),
        ensures
            final(self)@.wf(),
            final(self)@ == spec_carriage_return(old(self)@),
    {
        self.cursor_x = 0;
        proof {
            assert(self@ =~~= spec_carriage_return(old(self)@));
        }
    }

    /// Horizontal tab: the cursor advances to the next multiple-of-8 column,
    /// stopping at the right edge.
    pub fn tab(&mut self)
        requires
            old(self)@.wf(),
        ensures
            final(self)@.wf(),
            final(self)@ == spec_tab(old(self)@),
    {
        let t = (self.cursor_x / 8 + 1) * 8;
        self.cursor_x = if t > self.cols - 1 {
            self.cols - 1
        } else {
            t
        };
        proof {
            assert(self@ =~~= spec_tab(old(self)@));
        }
    }

    /// Backspace: the cursor moves one column left, stopping at the edge.
    pub fn backspace(&mut self)
        requires
            old(self)@.wf(),
        ensures
            final(self)@.wf(),
            final(self)@ == spec_backspace(old(self)@),
    {
        if self.cursor_x >= 1 {
            self.cursor_x = self.cursor_x - 1;
        }
        proof {
            assert(self@ =~~= spec_backspace(old(self)@));
        }
    }

    /// Deletes `n` characters at the cursor: the rest of the row shifts left,
    /// blanks filling the vacated tail.
    pub fn delete_chars(&mut self, n: usize)
        requires
            old(self)@.wf(),
        ensures
            final(self)@.wf(),
            final(self)@ == spec_delete_chars(old(self)@, n as nat),
    {
        let y = self.cursor_y;
        let r = shifted_left_row(&self.cells[y], self.cursor_x, n);
        self.cells[y] = r;
        proof {
            assert(self@.cells[y as int] =~= spec_delete_chars(old(self)@, n as nat).cells[y as int]);
            assert(self@ =~~= spec_delete_chars(old(self)@, n as nat));
        }
    }

    /// Inserts `n` blank characters at the cursor: the rest of the row shifts
    /// right, overflow past the row end discarded.
    pub fn insert_blanks(&mut self, n: usize)
        requires
            old(self)@.wf(),
        ensures
            final(self)@.wf(),
            final(self)@ == spec_insert_blanks(old(self)@, n as nat),
    {
        let y = self.cursor_y;
        let r = shifted_right_row(&self.cells[y], self.cursor_x, n);
        self.cells[y] = r;
        proof {
            assert(self@.cells[y as int] =~= spec_insert_blanks(old(self)@, n as nat).cells[y as int]);
            assert(self@ =~~= spec_insert_blanks(old(self)@, n as nat));
        }
    }

    /// Sets the scrolling region from 1-based top and bottom rows, both
    /// clamped to the grid height; an empty range leaves the region unchanged.
    pub fn set_scroll_region(&mut self, top1: usize, bot1: usize)
        requires
            old(self)@.wf(),
        ensures
            final(self)@.wf(),
            final(self)@ == spec_set_scroll_region(old(self)@, top1 as nat, bot1 as nat),
    {
        let limit = self.rows - 1;
        let t0 = if top1 >= 1 {
            top1 - 1
        } else {
            0
        };
        let b0 = if bot1 >= 1 {
            bot1 - 1
        } else {
            0
        };
        let t = if t0 > limit {
            limit
        } else {
            t0
        };
        let b = if b0 > limit {
            limit
        } else {
            b0
        };
        if t <= b {
            self.scroll_top = t;
            self.scroll_bot = b;
        }
        proof {
            assert(self@ =~~= spec_set_scroll_region(old(self)@, top1 as nat, bot1 as nat));
        }
    }

    /// Reverse index: scrolls the region down when the cursor sits at (or
    /// above) `scroll_top`, otherwise moves the cursor one row up.
    pub fn reverse_index(&mut self)
        requires
            old(self)@.wf(),
        ensures
            final(self)@.wf(),
            final(self)@ == spec_reverse_index(old(self)@),
    {
        if self.cursor_y <= self.scroll_top {
            self.scroll_down_once();
        } else {
            self.cursor_y = self.cursor_y - 1;
            proof {
                assert(self@ =~~= spec_reverse_index(old(self)@));
            }
        }
    }

    /// Scrolls the viewport: the offset is clamped to the scrollback length,
    /// 0 showing the live bottom.
    pub fn set_scroll_offset(&mut self, offset: usize)
        requires
            old(self)@.wf(),
        ensures
            final(self)@.wf(),
            final(self)@ == (GridView {
                scroll_offset: min_nat(offset as nat, old(self)@.scrollback.len()),
                ..old(self)@
            }),
    {
        let limit = self.scrollback.len();
        self.scroll_offset = if offset > limit {
            limit
        } else {
            offset
        };
        proof {
            assert(self@ =~~= (GridView {
                scroll_offset: min_nat(offset as nat, old(self)@.scrollback.len()),
                ..old(self)@
            }));
        }
    }
}

} // verus!
