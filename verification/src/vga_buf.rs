//! The executable console.
use vstd::prelude::*;
use vstd::string::StringSliceAdditionalSpecFns;
use crate::grid::{empty_grid, lemma_put_writable, ScreenView};
use crate::line::{
    lemma_printable_len_bounds, lemma_printable_len_is, lemma_row_image_fits, padding,
    printable_len, row_image,
};
use crate::surface::{
    cell, draw_cells, draw_rows, lemma_draw_cells_none, lemma_draw_cells_step,
    lemma_draw_rows_len, lemma_row_origin_bounds, put_cell, row_origin,
};
use crate::{CELLS, COLS, NEWLINE, NUL, ROWS, SPACE, SURFACE_LEN};

verus! {

/// One cell of the display: a character code and its attribute byte.
#[derive(Clone, Copy, Debug, PartialEq, Eq, Structural)]
pub struct AsciiChar {
    pub char_byte: u8,
    pub color_byte: u8,
}

/// How the content of a row is placed within the width of the display.
#[derive(Clone, Copy, Debug, PartialEq, Eq, Structural)]
pub enum Alignment {
    Left,
    Right,
    Center,
}

/// The sixteen colors of the display.  An attribute byte holds the code of
/// the background color in its high half and that of the foreground color in
/// its low half.
#[allow(non_camel_case_types)]
#[derive(Clone, Copy, Debug, PartialEq, Eq, Structural)]
pub enum Color {
    BLACK,
    BLUE,
    GREEN,
    AZURE,
    RED,
    PURPLE,
    BROWN,
    LIGHT_GREY,
    DARK_GREY,
    LIGHT_BLUE,
    LIGHT_GREEN,
    LIGHT_AZURE,
    LIGHT_RED,
    PINK,
    YELLOW,
    WHITE,
}

impl Color {
    /// The code of the color in an attribute byte.
    pub open spec fn spec_code(self) -> u8 {
        match self {
            Color::BLACK => 0x0,
            Color::BLUE => 0x1,
            Color::GREEN => 0x2,
            Color::AZURE => 0x3,
            Color::RED => 0x4,
            Color::PURPLE => 0x5,
            Color::BROWN => 0x6,
            Color::LIGHT_GREY => 0x7,
            Color::DARK_GREY => 0x8,
            Color::LIGHT_BLUE => 0x9,
            Color::LIGHT_GREEN => 0xa,
            Color::LIGHT_AZURE => 0xb,
            Color::LIGHT_RED => 0xc,
            Color::PINK => 0xd,
            Color::YELLOW => 0xe,
            Color::WHITE => 0xf,
        }
    }

    /// The code of the color in an attribute byte.
    #[verifier::when_used_as_spec(spec_code)]
    pub fn code(self) -> (c: u8)
        ensures
            c == self.spec_code(),
            c <= 0xf,
    {
        match self {
            Color::BLACK => 0x0,
            Color::BLUE => 0x1,
            Color::GREEN => 0x2,
            Color::AZURE => 0x3,
            Color::RED => 0x4,
            Color::PURPLE => 0x5,
            Color::BROWN => 0x6,
            Color::LIGHT_GREY => 0x7,
            Color::DARK_GREY => 0x8,
            Color::LIGHT_BLUE => 0x9,
            Color::LIGHT_GREEN => 0xa,
            Color::LIGHT_AZURE => 0xb,
            Color::LIGHT_RED => 0xc,
            Color::PINK => 0xd,
            Color::YELLOW => 0xe,
            Color::WHITE => 0xf,
        }
    }
}

/// The attribute byte of a cell with the given background and foreground
/// color codes.
pub open spec fn attribute(background: u8, foreground: u8) -> u8 {
    (background << 4) | foreground
}

/// A console: the grid of text, the write cursor, and the image of the
/// display memory that the grid is drawn on.
pub struct Screen {
    buffer: [u8; SURFACE_LEN],
    color: u8,
    align: Alignment,
    cursor_row: usize,
    cursor_col: usize,
    state: [[u8; COLS]; ROWS],
}

impl View for Screen {
    type V = ScreenView;

    closed spec fn view(&self) -> ScreenView {
        ScreenView {
            grid: Seq::new(ROWS as nat, |r: int| self.state@[r]@),
            row: self.cursor_row as int,
            col: self.cursor_col as int,
            color: self.color,
            align: self.align,
            surface: self.buffer@,
        }
    }
}

impl Screen {
    /// A console with an empty grid, the cursor at the top left, black
    /// background, the given foreground color and alignment, and a display
    /// image of zero bytes.
    pub fn new(color: u8, align: Alignment) -> (screen: Screen)
        ensures
            screen@.writable(),
            screen@.grid == empty_grid(),
            screen@.row == 0,
            screen@.col == 0,
            screen@.color == attribute(Color::BLACK.spec_code(), color),
            screen@.color == color,
            screen@.align == align,
            screen@.surface == Seq::new(SURFACE_LEN as nat, |i: int| 0u8),
    {
        let black: u8 = Color::BLACK.code();
        assert((black << 4) | color == color) by (bit_vector)
            requires
                black == 0,
        ;
        let screen = Screen {
            buffer: [0u8; SURFACE_LEN],
            color: (black << 4) | color,
            align,
            cursor_row: 0,
            cursor_col: 0,
            state: [[0u8; COLS]; ROWS],
        };
        assert(screen@.grid =~~= empty_grid());
        assert(screen@.surface =~= Seq::new(SURFACE_LEN as nat, |i: int| 0u8));
        screen
    }

    /// Writes `char` to the cell at `offset` of the display.
    pub fn write_char(&mut self, offset: u32, char: AsciiChar)
        requires
            old(self)@.wf(),
            offset < CELLS,
        ensures
            final(self)@ == (ScreenView {
                surface: put_cell(old(self)@.surface, offset as int, char),
                ..old(self)@
            }),
            final(self)@.wf(),
    {
        let at: usize = offset as usize * 2;
        self.buffer[at] = char.char_byte;
        self.buffer[at + 1] = char.color_byte;
        assert(self@.grid =~~= old(self)@.grid);
    }

    /// Reads the cell at `offset` of the display.
    pub fn read_char(&self, offset: u32) -> (char: AsciiChar)
        requires
            offset < CELLS,
        ensures
            char == cell(self@.surface, offset as int),
    {
        let at: usize = offset as usize * 2;
        AsciiChar { char_byte: self.buffer[at], color_byte: self.buffer[at + 1] }
    }

    /// Appends `s` to the grid and draws the grid onto the display.
    pub fn print(&mut self, s: &str)
        requires
            old(self)@.writable(),
        ensures
            final(self)@ == old(self)@.append(s.spec_bytes()).rendered(),
            final(self)@.writable(),
    {
        self.add_text(s.as_bytes());
        self.render();
    }

    /// Draws the grid onto the display.  Row by row, from the first cell on:
    /// the padding spaces, the content of the row, and from there to the
    /// start of the next display row.  Cells that are not drawn keep what
    /// they hold, and what would fall behind the last cell of the display is
    /// not written.
    pub fn render(&mut self)
        requires
            old(self)@.wf(),
        ensures
            final(self)@ == old(self)@.rendered(),
            final(self)@.wf(),
    {
        let ghost start = self@;
        let mut cursor: usize = 0;
        let mut r: usize = 0;
        while r < ROWS
            invariant
                r <= ROWS,
                start == old(self)@,
                start.wf(),
                self@ == (ScreenView {
                    surface: draw_rows(start.surface, start.grid, start.align, start.color, r as nat),
                    ..start
                }),
                cursor == row_origin(start.grid, start.align, r as nat),
            decreases ROWS - r,
        {
            let row: [u8; COLS] = self.state[r];
            assert(row@ == start.grid[r as int]);
            proof {
                lemma_printable_len_bounds(row@);
                lemma_row_image_fits(start.align, row@);
                lemma_draw_rows_len(start.surface, start.grid, start.align, start.color, r as nat);
                lemma_row_origin_bounds(start.grid, start.align, r as nat);
                lemma_row_origin_bounds(start.grid, start.align, (r + 1) as nat);
            }
            let pad: usize = self.calc_align(&row) as usize;
            let ghost image = row_image(start.align, row@);
            let ghost origin = cursor as int;
            let ghost base = self@.surface;
            proof {
                lemma_draw_cells_none(base, origin, start.color);
                assert(image.take(0) =~= Seq::empty());
            }
            let mut i: usize = 0;
            while i < pad
                invariant
                    i <= pad,
                    pad + printable_len(row@) == image.len(),
                    forall|k: int| 0 <= k < pad ==> image[k] == SPACE,
                    cursor == origin + i,
                    0 <= origin <= 2 * CELLS,
                    image.len() <= COLS,
                    base.len() == 2 * CELLS,
                    start.wf(),
                    self@ == (ScreenView {
                        surface: draw_cells(base, origin, image.take(i as int), start.color),
                        ..start
                    }),
                decreases pad - i,
            {
                proof {
                    lemma_draw_cells_step(base, origin, image, start.color, i as int);
                }
                if cursor < CELLS {
                    self.write_char(
                        cursor as u32,
                        AsciiChar { char_byte: SPACE, color_byte: self.color },
                    );
                }
                cursor += 1;
                i += 1;
            }
            let mut j: usize = 0;
            while j < COLS && row[j] != NUL
                invariant
                    j <= printable_len(row@) <= COLS,
                    pad + printable_len(row@) == image.len(),
                    forall|k: int|
                        0 <= k < printable_len(row@) ==> image[pad + k] == row@[k] && row@[k]
                            != NUL,
                    printable_len(row@) < COLS ==> row@[printable_len(row@) as int] == NUL,
                    cursor == origin + pad + j,
                    0 <= origin <= 2 * CELLS,
                    image.len() <= COLS,
                    base.len() == 2 * CELLS,
                    start.wf(),
                    self@ == (ScreenView {
                        surface: draw_cells(base, origin, image.take(pad + j), start.color),
                        ..start
                    }),
                decreases COLS - j,
            {
                proof {
                    lemma_draw_cells_step(base, origin, image, start.color, pad + j);
                }
                if cursor < CELLS {
                    self.write_char(
                        cursor as u32,
                        AsciiChar { char_byte: row[j], color_byte: self.color },
                    );
                }
                cursor += 1;
                j += 1;
            }
            assert(image.take(image.len() as int) =~= image);
            cursor += COLS - cursor % COLS;
            r += 1;
        }
    }

    /// Scrolls the grid up by one row.
    pub fn scroll(&mut self)
        requires
            old(self)@.wf(),
            old(self)@.row >= 1,
        ensures
            final(self)@ == old(self)@.scrolled(),
            final(self)@.writable(),
    {
        let mut i: usize = 0;
        while i < self.cursor_row - 1
            invariant
                1 <= self.cursor_row < ROWS,
                i <= self.cursor_row - 1,
                self.cursor_row == old(self).cursor_row,
                self.cursor_col == old(self).cursor_col,
                self.color == old(self).color,
                self.align == old(self).align,
                self.buffer == old(self).buffer,
                forall|k: int| 0 <= k < i ==> self.state@[k] == old(self).state@[k + 1],
                forall|k: int| i <= k < ROWS ==> self.state@[k] == old(self).state@[k],
            decreases self.cursor_row - 1 - i,
        {
            self.state[i] = self.state[i + 1];
            i += 1;
        }
        let mut c: usize = 0;
        while c < COLS
            invariant
                1 <= self.cursor_row < ROWS,
                c <= COLS,
                self.cursor_row == old(self).cursor_row,
                self.cursor_col == old(self).cursor_col,
                self.color == old(self).color,
                self.align == old(self).align,
                self.buffer == old(self).buffer,
                forall|k: int|
                    0 <= k < self.cursor_row - 1 ==> self.state@[k] == old(self).state@[k + 1],
                forall|k: int|
                    self.cursor_row - 1 <= k < ROWS && k != self.cursor_row ==> self.state@[k]
                        == old(self).state@[k],
                forall|j: int| 0 <= j < c ==> self.state@[self.cursor_row as int]@[j] == SPACE,
            decreases COLS - c,
        {
            self.state[self.cursor_row][c] = SPACE;
            c += 1;
        }
        self.cursor_row -= 1;
        assert(self@.grid =~~= old(self)@.scrolled().grid);
    }

    /// Folds `row` into the grid, byte by byte: a newline, or any byte that
    /// meets the cursor in the last column, breaks the row and is dropped;
    /// every other byte is stored at the cursor.
    pub fn add_text(&mut self, row: &[u8])
        requires
            old(self)@.writable(),
        ensures
            final(self)@ == old(self)@.append(row@),
            final(self)@.writable(),
    {
        let mut i: usize = 0;
        while i < row.len()
            invariant
                i <= row.len(),
                self@.writable(),
                self@ == old(self)@.append(row@.take(i as int)),
            decreases row.len() - i,
        {
            let ghost before = self@;
            let b: u8 = row[i];
            if self.cursor_col == COLS - 1 || b == NEWLINE {
                self.state[self.cursor_row][self.cursor_col] = NUL;
                self.cursor_row += 1;
                self.cursor_col = 0;
                assert(self@.grid =~~= before.stored(NUL));
                if self.cursor_row == ROWS - 1 {
                    self.scroll();
                }
            } else {
                self.state[self.cursor_row][self.cursor_col] = b;
                self.cursor_col += 1;
                assert(self@.grid =~~= before.stored(b));
            }
            assert(self@ == before.put(b));
            proof {
                lemma_put_writable(before, b);
                assert(row@.take(i + 1).drop_last() =~= row@.take(i as int));
            }
            i += 1;
        }
        assert(row@.take(row.len() as int) =~= row@);
    }

    /// The row and the column of the write cursor.
    pub fn cursor(&self) -> (at: (usize, usize))
        ensures
            at.0 == self@.row,
            at.1 == self@.col,
    {
        (self.cursor_row, self.cursor_col)
    }

    /// The bytes of row `row` of the grid.
    pub fn grid_row(&self, row: usize) -> (bytes: [u8; COLS])
        requires
            row < ROWS,
        ensures
            bytes@ == self@.grid[row as int],
    {
        self.state[row]
    }

    /// The number of space cells to draw before `row` so that its content,
    /// the bytes before its first NUL, is placed as the alignment asks.
    ///
    /// The content must not be longer than the display is wide, unless the
    /// alignment is `Left`.  A row that is itself no longer than that, as
    /// every row of the grid is, has no longer content.
    pub fn calc_align(&self, row: &[u8]) -> (pad: u32)
        requires
            self@.align is Left || row@.len() <= COLS || printable_len(row@) <= COLS,
        ensures
            pad == padding(self@.align, printable_len(row@) as int),
    {
        let mut len: usize = 0;
        while len < row.len() && row[len] != NUL
            invariant
                len <= row.len(),
                forall|j: int| 0 <= j < len ==> row@[j] != NUL,
            decreases row.len() - len,
        {
            len += 1;
        }
        proof {
            lemma_printable_len_is(row@, len as int);
            lemma_printable_len_bounds(row@);
        }
        match self.align {
            Alignment::Left => 0,
            Alignment::Right => (COLS - len) as u32,
            Alignment::Center => ((COLS - len) / 2) as u32,
        }
    }
}

} // verus!
