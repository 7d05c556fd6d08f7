//! The model of the console: the grid, the write cursor, and how appended
//! text changes them.
use vstd::prelude::*;
use crate::line::{lemma_printable_len_bounds, lemma_printable_len_is, printable_len, terminated};
use crate::vga_buf::Alignment;
use crate::{CELLS, COLS, NEWLINE, NUL, ROWS, SPACE};

verus! {

/// The abstract state of a console.
pub struct ScreenView {
    /// The rows of the grid, top row first.
    pub grid: Seq<Seq<u8>>,
    /// The row that the next byte goes to.
    pub row: int,
    /// The column that the next byte goes to.
    pub col: int,
    /// The attribute byte of every drawn cell.
    pub color: u8,
    /// How rows are placed when they are drawn.
    pub align: Alignment,
    /// The bytes of the display memory, two for each cell.
    pub surface: Seq<u8>,
}

/// A row of the grid without content.
pub open spec fn empty_row() -> Seq<u8> {
    Seq::new(COLS as nat, |c: int| NUL)
}

/// A row of the grid that holds a space in every column.
pub open spec fn blank_row() -> Seq<u8> {
    Seq::new(COLS as nat, |c: int| SPACE)
}

/// A grid without content.
pub open spec fn empty_grid() -> Seq<Seq<u8>> {
    Seq::new(ROWS as nat, |r: int| empty_row())
}

impl ScreenView {
    /// The grid has `ROWS` rows of `COLS` bytes, the display has two bytes
    /// for each of its cells, and the cursor lies within the grid.
    pub open spec fn wf(self) -> bool {
        &&& self.grid.len() == ROWS
        &&& forall|r: int| 0 <= r < ROWS ==> (#[trigger] self.grid[r]).len() == COLS
        &&& self.surface.len() == 2 * CELLS
        &&& 0 <= self.row < ROWS
        &&& 0 <= self.col < COLS
    }

    /// The console takes text: it is well formed and its cursor stands above
    /// the last row, which is kept free for scrolling.
    pub open spec fn writable(self) -> bool {
        self.wf() && self.row < ROWS - 1
    }

    /// The grid with byte `b` stored at the cursor.
    pub open spec fn stored(self, b: u8) -> Seq<Seq<u8>> {
        self.grid.update(self.row, self.grid[self.row].update(self.col, b))
    }

    /// Whether byte `b` breaks the row instead of being stored: it is a
    /// newline, or the cursor has reached the last column.
    pub open spec fn breaks_on(self, b: u8) -> bool {
        b == NEWLINE || self.col == COLS - 1
    }

    /// The state after scrolling up by one row: every row above the one
    /// before the cursor takes the content of the row below it, the row at the
    /// cursor becomes blank, and the cursor moves up by one row.
    pub open spec fn scrolled(self) -> ScreenView {
        ScreenView {
            grid: Seq::new(
                ROWS as nat,
                |i: int|
                    if i < self.row - 1 {
                        self.grid[i + 1]
                    } else if i == self.row {
                        blank_row()
                    } else {
                        self.grid[i]
                    },
            ),
            row: self.row - 1,
            ..self
        }
    }

    /// The state after a row break: the row is ended with a NUL at the
    /// cursor, the cursor moves to the start of the next row, and the grid
    /// scrolls where that row is the last one.
    pub open spec fn broken(self) -> ScreenView {
        let next = ScreenView { grid: self.stored(NUL), row: self.row + 1, col: 0, ..self };
        if next.row == ROWS - 1 {
            next.scrolled()
        } else {
            next
        }
    }

    /// The state after one byte of text.
    pub open spec fn put(self, b: u8) -> ScreenView {
        if self.breaks_on(b) {
            self.broken()
        } else {
            ScreenView { grid: self.stored(b), col: self.col + 1, ..self }
        }
    }

    /// The state after the bytes of `text`, taken from left to right.
    pub open spec fn append(self, text: Seq<u8>) -> ScreenView
        decreases text.len(),
    {
        if text.len() == 0 {
            self
        } else {
            self.append(text.drop_last()).put(text.last())
        }
    }
}

/// Row `row` with the bytes of `run` in place of what it held from column
/// `at` on.
pub open spec fn overwritten(row: Seq<u8>, at: int, run: Seq<u8>) -> Seq<u8> {
    Seq::new(
        row.len(),
        |j: int|
            if at <= j < at + run.len() {
                run[j - at]
            } else {
                row[j]
            },
    )
}

/// Every row of the grid is terminated, and its content leaves the last
/// column free.
pub open spec fn rows_terminated(grid: Seq<Seq<u8>>) -> bool {
    forall|r: int|
        0 <= r < grid.len() ==> terminated(#[trigger] grid[r]) && printable_len(grid[r]) <= COLS
            - 1
}

impl ScreenView {
    /// The grid holds nothing but what was appended to it, row by row, down
    /// to the cursor: every row is terminated and leaves the last column
    /// free, the content of the row at the cursor ends at or before the
    /// cursor, and the rows below it are empty.
    pub open spec fn tidy(self) -> bool {
        &&& self.writable()
        &&& rows_terminated(self.grid)
        &&& printable_len(self.grid[self.row]) <= self.col
        &&& forall|r: int| self.row < r < ROWS ==> #[trigger] self.grid[r] == empty_row()
    }

    /// Byte `b` neither scrolls the grid nor is stored behind a NUL of the
    /// row at the cursor.
    pub open spec fn takes_cleanly(self, b: u8) -> bool {
        if self.breaks_on(b) {
            self.row < ROWS - 2
        } else {
            b == NUL || printable_len(self.grid[self.row]) == self.col
        }
    }
}

/// One byte of text keeps a writable console writable.
pub proof fn lemma_put_writable(m: ScreenView, b: u8)
    requires
        m.writable(),
    ensures
        m.put(b).writable(),
{
}

/// Text keeps a writable console writable.
pub proof fn lemma_append_writable(m: ScreenView, text: Seq<u8>)
    requires
        m.writable(),
    ensures
        m.append(text).writable(),
    decreases text.len(),
{
    if text.len() > 0 {
        lemma_append_writable(m, text.drop_last());
        lemma_put_writable(m.append(text.drop_last()), text.last());
    }
}

/// Appending two texts one after the other is appending them joined.
pub proof fn lemma_append_concat(m: ScreenView, first: Seq<u8>, second: Seq<u8>)
    ensures
        m.append(first + second) == m.append(first).append(second),
    decreases second.len(),
{
    if second.len() == 0 {
        assert(first + second =~= first);
    } else {
        lemma_append_concat(m, first, second.drop_last());
        assert((first + second).drop_last() =~= first + second.drop_last());
    }
}

/// A run of bytes without newline that ends before the last column is
/// stored in the row at the cursor, byte for byte, and moves the cursor to
/// the column behind it.
pub proof fn lemma_append_within_row(m: ScreenView, run: Seq<u8>)
    requires
        m.wf(),
        m.col + run.len() <= COLS - 1,
        forall|i: int| 0 <= i < run.len() ==> run[i] != NEWLINE,
    ensures
        m.append(run) == (ScreenView {
            grid: m.grid.update(m.row, overwritten(m.grid[m.row], m.col, run)),
            col: m.col + run.len(),
            ..m
        }),
    decreases run.len(),
{
    let target = ScreenView {
        grid: m.grid.update(m.row, overwritten(m.grid[m.row], m.col, run)),
        col: m.col + run.len(),
        ..m
    };
    if run.len() == 0 {
        assert(overwritten(m.grid[m.row], m.col, run) =~= m.grid[m.row]);
        assert(target.grid =~= m.grid);
    } else {
        let shorter = run.drop_last();
        lemma_append_within_row(m, shorter);
        let before = m.append(shorter);
        assert(before.stored(run.last()) =~~= target.grid);
    }
}

/// A full row wraps.  From the start of a row, `COLS - 1` bytes without
/// newline fill the row up to its last column, which they leave as it was;
/// the byte after them, whatever it is, breaks the row and is stored
/// nowhere.
pub proof fn lemma_full_row_wraps(m: ScreenView, run: Seq<u8>, b: u8)
    requires
        m.writable(),
        m.col == 0,
        run.len() == COLS - 1,
        forall|i: int| 0 <= i < run.len() ==> run[i] != NEWLINE,
    ensures
        m.append(run) == (ScreenView {
            grid: m.grid.update(m.row, run.push(m.grid[m.row][COLS - 1])),
            col: COLS - 1,
            ..m
        }),
        m.append(run.push(b)) == m.append(run).broken(),
        m.append(run).stored(NUL)[m.row] == run.push(NUL),
{
    lemma_append_within_row(m, run);
    assert(overwritten(m.grid[m.row], 0, run) =~= run.push(m.grid[m.row][COLS - 1]));
    assert(run.push(b).drop_last() =~= run);
    assert(m.append(run).stored(NUL)[m.row] =~= run.push(NUL));
}

/// A row break on the last usable row scrolls the grid: the cursor stays on
/// that row, every row above it holds what the row below it held, the top
/// row is lost, and the last row is blank.
pub proof fn lemma_break_on_last_row_scrolls(m: ScreenView)
    requires
        m.writable(),
        m.row == ROWS - 2,
    ensures
        m.broken().row == ROWS - 2,
        m.broken().col == 0,
        forall|i: int| 0 <= i < ROWS - 2 ==> m.broken().grid[i] == #[trigger] m.stored(NUL)[i + 1],
        m.broken().grid[ROWS - 2] == m.stored(NUL)[ROWS - 2],
        m.broken().grid[ROWS - 1] == blank_row(),
        m.broken().writable(),
{
}

/// An empty grid with the cursor at its top left is tidy.
pub proof fn lemma_empty_is_tidy(m: ScreenView)
    requires
        m.wf(),
        m.grid == empty_grid(),
        m.row == 0,
        m.col == 0,
    ensures
        m.tidy(),
{
    lemma_empty_row_terminated();
}

/// An empty row is terminated and has no content.
pub proof fn lemma_empty_row_terminated()
    ensures
        printable_len(empty_row()) == 0,
        terminated(empty_row()),
{
}

/// A byte that a tidy console takes cleanly leaves it tidy.
pub proof fn lemma_put_keeps_tidy(m: ScreenView, b: u8)
    requires
        m.tidy(),
        m.takes_cleanly(b),
    ensures
        m.put(b).tidy(),
{
    let n = m.put(b);
    let old_row = m.grid[m.row];
    lemma_printable_len_bounds(old_row);
    lemma_empty_row_terminated();
    if m.breaks_on(b) {
        assert(old_row[m.col] == NUL);
        assert(old_row.update(m.col, NUL) =~= old_row);
        assert(m.stored(NUL) =~= m.grid);
        assert(n.grid == m.grid);
    } else {
        let new_row = old_row.update(m.col, b);
        if b == NUL {
            assert(old_row[m.col] == NUL);
            assert(new_row =~= old_row);
            assert(n.grid =~= m.grid);
        } else {
            assert forall|j: int| 0 <= j < m.col + 1 implies new_row[j] != NUL by {
                if j < m.col {
                    assert(new_row[j] == old_row[j]);
                }
            }
            assert(new_row[m.col + 1] == old_row[m.col + 1]);
            lemma_printable_len_is(new_row, m.col + 1);
            assert forall|r: int| 0 <= r < n.grid.len() implies terminated(#[trigger] n.grid[r])
                && printable_len(n.grid[r]) <= COLS - 1 by {
                if r != m.row {
                    assert(n.grid[r] == m.grid[r]);
                }
            }
        }
    }
}

/// Text of which a tidy console takes every byte cleanly leaves every row
/// terminated, with its last column free.
pub proof fn lemma_append_keeps_tidy(m: ScreenView, text: Seq<u8>)
    requires
        m.tidy(),
        forall|i: int|
            0 <= i < text.len() ==> (#[trigger] m.append(text.take(i))).takes_cleanly(text[i]),
    ensures
        m.append(text).tidy(),
        rows_terminated(m.append(text).grid),
    decreases text.len(),
{
    if text.len() > 0 {
        let shorter = text.drop_last();
        assert forall|i: int| 0 <= i < shorter.len() implies (#[trigger] m.append(
            shorter.take(i),
        )).takes_cleanly(shorter[i]) by {
            assert(shorter.take(i) =~= text.take(i));
        }
        lemma_append_keeps_tidy(m, shorter);
        assert(text.take(text.len() - 1) =~= shorter);
        assert(m.append(text.take(text.len() - 1)).takes_cleanly(text[text.len() - 1]));
        lemma_put_keeps_tidy(m.append(shorter), text.last());
    }
}

} // verus!
