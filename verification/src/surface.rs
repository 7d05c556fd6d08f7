//! The model of the display memory and of drawing the grid onto it.
//!
//! Cell `i` of the display, counted row by row, owns the bytes `2 * i`, its
//! character code, and `2 * i + 1`, its attribute.
use vstd::prelude::*;
use crate::grid::ScreenView;
use crate::line::{lemma_row_image_fits, row_image};
use crate::vga_buf::{Alignment, AsciiChar};
use crate::{CELLS, COLS, ROWS};

verus! {

/// The cell at `index` of the display.
pub open spec fn cell(surface: Seq<u8>, index: int) -> AsciiChar {
    AsciiChar { char_byte: surface[2 * index], color_byte: surface[2 * index + 1] }
}

/// The display after `ch` is written to the cell at `index`.
pub open spec fn put_cell(surface: Seq<u8>, index: int, ch: AsciiChar) -> Seq<u8> {
    surface.update(2 * index, ch.char_byte).update(2 * index + 1, ch.color_byte)
}

/// The display after the bytes of `chars` are written, with attribute
/// `color`, to the cells from `at` on.  Cells that the display does not have
/// are not written.
pub open spec fn draw_cells(surface: Seq<u8>, at: int, chars: Seq<u8>, color: u8) -> Seq<u8> {
    Seq::new(
        surface.len(),
        |i: int|
            {
                let k = i / 2 - at;
                if 0 <= k < chars.len() {
                    if i % 2 == 0 {
                        chars[k]
                    } else {
                        color
                    }
                } else {
                    surface[i]
                }
            },
    )
}

/// Where the draw cursor goes from `cursor` at the end of a row: to the next
/// multiple of `COLS` above it.
pub open spec fn next_row_start(cursor: int) -> int {
    cursor + COLS - cursor % (COLS as int)
}

/// The cell at which row `r` of the grid is drawn.
pub open spec fn row_origin(grid: Seq<Seq<u8>>, align: Alignment, r: nat) -> int
    decreases r,
{
    if r == 0 {
        0
    } else {
        next_row_start(
            row_origin(grid, align, (r - 1) as nat) + row_image(align, grid[r - 1]).len(),
        )
    }
}

/// The display after the first `n` rows of the grid are drawn, top row
/// first.
pub open spec fn draw_rows(
    surface: Seq<u8>,
    grid: Seq<Seq<u8>>,
    align: Alignment,
    color: u8,
    n: nat,
) -> Seq<u8>
    decreases n,
{
    if n == 0 {
        surface
    } else {
        draw_cells(
            draw_rows(surface, grid, align, color, (n - 1) as nat),
            row_origin(grid, align, (n - 1) as nat),
            row_image(align, grid[n - 1]),
            color,
        )
    }
}

/// What drawing the first `n` rows of the grid writes to byte `i` of the
/// display, if it writes to it.  The display before the drawing has no part
/// in it.
pub open spec fn drawn_byte(
    grid: Seq<Seq<u8>>,
    align: Alignment,
    color: u8,
    n: nat,
    i: int,
) -> Option<u8>
    decreases n,
{
    if n == 0 {
        None
    } else {
        let k = i / 2 - row_origin(grid, align, (n - 1) as nat);
        let image = row_image(align, grid[n - 1]);
        if 0 <= k < image.len() {
            Some(
                if i % 2 == 0 {
                    image[k]
                } else {
                    color
                },
            )
        } else {
            drawn_byte(grid, align, color, (n - 1) as nat, i)
        }
    }
}

impl ScreenView {
    /// The state after the grid is drawn onto the display.
    pub open spec fn rendered(self) -> ScreenView {
        ScreenView {
            surface: draw_rows(self.surface, self.grid, self.align, self.color, ROWS as nat),
            ..self
        }
    }
}

/// Drawing no byte leaves the display as it is.
pub proof fn lemma_draw_cells_none(surface: Seq<u8>, at: int, color: u8)
    ensures
        draw_cells(surface, at, Seq::empty(), color) == surface,
{
    assert(draw_cells(surface, at, Seq::empty(), color) =~= surface);
}

/// Drawing one byte more writes one cell more, if the display has it.
pub proof fn lemma_draw_cells_step(surface: Seq<u8>, at: int, chars: Seq<u8>, color: u8, k: int)
    requires
        0 <= at,
        0 <= k < chars.len(),
        surface.len() == 2 * CELLS,
    ensures
        draw_cells(surface, at, chars.take(k + 1), color) == if at + k < CELLS {
            put_cell(
                draw_cells(surface, at, chars.take(k), color),
                at + k,
                AsciiChar { char_byte: chars[k], color_byte: color },
            )
        } else {
            draw_cells(surface, at, chars.take(k), color)
        },
{
    let shorter = draw_cells(surface, at, chars.take(k), color);
    let longer = draw_cells(surface, at, chars.take(k + 1), color);
    if at + k < CELLS {
        assert(longer =~= put_cell(
            shorter,
            at + k,
            AsciiChar { char_byte: chars[k], color_byte: color },
        ));
    } else {
        assert(longer =~= shorter);
    }
}

/// Every row is drawn at a multiple of `COLS`, at most two display rows
/// below the row before it.
pub proof fn lemma_row_origin_bounds(grid: Seq<Seq<u8>>, align: Alignment, r: nat)
    requires
        forall|i: int| 0 <= i < r ==> (#[trigger] grid[i]).len() <= COLS,
    ensures
        COLS * r <= row_origin(grid, align, r) <= 2 * COLS * r,
        row_origin(grid, align, r) % (COLS as int) == 0,
    decreases r,
{
    if r > 0 {
        lemma_row_origin_bounds(grid, align, (r - 1) as nat);
        lemma_row_image_fits(align, grid[r - 1]);
    }
}

/// Drawing keeps the size of the display.
pub proof fn lemma_draw_rows_len(
    surface: Seq<u8>,
    grid: Seq<Seq<u8>>,
    align: Alignment,
    color: u8,
    n: nat,
)
    ensures
        draw_rows(surface, grid, align, color, n).len() == surface.len(),
    decreases n,
{
    if n > 0 {
        lemma_draw_rows_len(surface, grid, align, color, (n - 1) as nat);
    }
}

/// A row is drawn one display row below the row before it, or two where
/// the row before it fills the width of the display.
pub proof fn lemma_row_origin_step(grid: Seq<Seq<u8>>, align: Alignment, r: nat)
    requires
        forall|i: int| 0 <= i <= r ==> (#[trigger] grid[i]).len() <= COLS,
    ensures
        row_origin(grid, align, r + 1) == row_origin(grid, align, r) + if row_image(
            align,
            grid[r as int],
        ).len() < COLS {
            COLS as int
        } else {
            2 * COLS
        },
{
    lemma_row_origin_bounds(grid, align, r);
    lemma_row_image_fits(align, grid[r as int]);
}

/// Where the image of every row is shorter than the display is wide, every
/// row of the grid is drawn on the display row of its own number.
pub proof fn lemma_row_origin_aligned(grid: Seq<Seq<u8>>, align: Alignment, r: nat)
    requires
        forall|i: int| 0 <= i < r ==> (#[trigger] grid[i]).len() <= COLS,
        forall|i: int| 0 <= i < r ==> row_image(align, #[trigger] grid[i]).len() < COLS,
    ensures
        row_origin(grid, align, r) == COLS * r,
    decreases r,
{
    if r > 0 {
        lemma_row_origin_aligned(grid, align, (r - 1) as nat);
        lemma_row_origin_step(grid, align, (r - 1) as nat);
    }
}

/// No row is drawn over the cells of a row above it.
pub proof fn lemma_row_origin_increases(grid: Seq<Seq<u8>>, align: Alignment, r: nat, below: nat)
    requires
        r < below,
        forall|i: int| 0 <= i < below ==> (#[trigger] grid[i]).len() <= COLS,
    ensures
        row_origin(grid, align, r) + row_image(align, grid[r as int]).len() <= row_origin(
            grid,
            align,
            below,
        ),
    decreases below - r,
{
    lemma_row_image_fits(align, grid[r as int]);
    if below == r + 1 {
        lemma_row_origin_step(grid, align, r);
    } else {
        lemma_row_origin_increases(grid, align, r, (below - 1) as nat);
        lemma_row_origin_step(grid, align, (below - 1) as nat);
    }
}

/// Every byte of the display after a drawing is what the drawing writes to
/// it, or, where the drawing writes nothing, what it was.
pub proof fn lemma_draw_rows_byte(
    surface: Seq<u8>,
    grid: Seq<Seq<u8>>,
    align: Alignment,
    color: u8,
    n: nat,
    i: int,
)
    requires
        0 <= i < surface.len(),
    ensures
        draw_rows(surface, grid, align, color, n)[i] == match drawn_byte(grid, align, color, n, i) {
            Some(byte) => byte,
            None => surface[i],
        },
    decreases n,
{
    if n > 0 {
        lemma_draw_rows_byte(surface, grid, align, color, (n - 1) as nat, i);
        lemma_draw_rows_len(surface, grid, align, color, (n - 1) as nat);
    }
}

/// Drawing twice is drawing once: the second drawing writes the same bytes
/// to the same cells and leaves the display as the first one left it.
pub proof fn lemma_render_idempotent(m: ScreenView)
    ensures
        m.rendered().rendered() == m.rendered(),
{
    let once = m.rendered().surface;
    let twice = m.rendered().rendered().surface;
    lemma_draw_rows_len(m.surface, m.grid, m.align, m.color, ROWS as nat);
    lemma_draw_rows_len(once, m.grid, m.align, m.color, ROWS as nat);
    assert forall|i: int| 0 <= i < once.len() implies twice[i] == once[i] by {
        lemma_draw_rows_byte(m.surface, m.grid, m.align, m.color, ROWS as nat, i);
        lemma_draw_rows_byte(once, m.grid, m.align, m.color, ROWS as nat, i);
    }
    assert(twice =~= once);
}

/// What the first `n` rows write to a cell of row `r`, one of them, is the
/// byte of the image of row `r` and the color.
proof fn lemma_drawn_byte_of_row(
    grid: Seq<Seq<u8>>,
    align: Alignment,
    color: u8,
    n: nat,
    r: nat,
    k: int,
)
    requires
        r < n,
        forall|i: int| 0 <= i < n ==> (#[trigger] grid[i]).len() <= COLS,
        0 <= k < row_image(align, grid[r as int]).len(),
    ensures
        drawn_byte(grid, align, color, n, 2 * (row_origin(grid, align, r) + k)) == Some(
            row_image(align, grid[r as int])[k],
        ),
        drawn_byte(grid, align, color, n, 2 * (row_origin(grid, align, r) + k) + 1) == Some(color),
    decreases n,
{
    if n > r + 1 {
        lemma_row_origin_increases(grid, align, r, (n - 1) as nat);
        lemma_drawn_byte_of_row(grid, align, color, (n - 1) as nat, r, k);
    }
}

/// After a drawing, the cells of every row that the display has hold the
/// image of the row in the color of the console.
pub proof fn lemma_rendered_cell(m: ScreenView, r: int, k: int)
    requires
        m.wf(),
        0 <= r < ROWS,
        0 <= k < row_image(m.align, m.grid[r]).len(),
        row_origin(m.grid, m.align, r as nat) + k < CELLS,
    ensures
        cell(m.rendered().surface, row_origin(m.grid, m.align, r as nat) + k) == (AsciiChar {
            char_byte: row_image(m.align, m.grid[r])[k],
            color_byte: m.color,
        }),
{
    let at = row_origin(m.grid, m.align, r as nat) + k;
    lemma_row_origin_bounds(m.grid, m.align, r as nat);
    lemma_drawn_byte_of_row(m.grid, m.align, m.color, ROWS as nat, r as nat, k);
    lemma_draw_rows_byte(m.surface, m.grid, m.align, m.color, ROWS as nat, 2 * at);
    lemma_draw_rows_byte(m.surface, m.grid, m.align, m.color, ROWS as nat, 2 * at + 1);
}

} // verus!
