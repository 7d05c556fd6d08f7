//! A text console for a memory-mapped character display.
//!
//! The console keeps a grid of bytes that mirrors what should be visible, a
//! write cursor, and an image of the display memory.  Text is folded into the
//! grid with hard wrapping and scrolling, and every print redraws the grid
//! onto the display image with the configured alignment.
//!
//! * [`line`] holds the arithmetic of a single row: its printable length, its
//!   alignment padding and what is drawn for it.
//! * [`grid`] is the mathematical model of the console and of appending text.
//! * [`surface`] is the mathematical model of the display memory and of
//!   drawing the grid onto it.
//! * [`vga_buf`] is the executable console, proved against these models.
use vstd::prelude::*;

pub mod grid;
pub mod line;
pub mod surface;
pub mod vga_buf;

pub use crate::vga_buf::Alignment;
pub use crate::vga_buf::AsciiChar;
pub use crate::vga_buf::Color;
pub use crate::vga_buf::Screen;

verus! {

/// Number of rows of the display and of the grid.
pub const ROWS: usize = 25;

/// Number of columns of the display and of the grid.
pub const COLS: usize = 80;

/// Number of cells of the display.
pub const CELLS: usize = 2000;

/// Number of bytes of the display memory: two for each cell.
pub const SURFACE_LEN: usize = 4000;

/// The byte that ends the content of a row.
pub const NUL: u8 = 0;

/// The byte that breaks a row.
pub const NEWLINE: u8 = 10;

/// The byte drawn for padding and held by a blank row.
pub const SPACE: u8 = 32;

} // verus!
