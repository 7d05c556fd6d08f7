//! One row of the grid: its printable length, its padding, and what is drawn
//! for it.
use vstd::prelude::*;
use crate::vga_buf::Alignment;
use crate::{COLS, NUL, SPACE};

verus! {

/// The number of bytes of `row` that stand before its first NUL, or the length
/// of `row` where it holds no NUL.
pub open spec fn printable_len(row: Seq<u8>) -> nat
    decreases row.len(),
{
    if row.len() == 0 || row[0] == NUL {
        0
    } else {
        1 + printable_len(row.drop_first())
    }
}

/// The content of `row`: its bytes up to the first NUL.
pub open spec fn printable_prefix(row: Seq<u8>) -> Seq<u8> {
    row.take(printable_len(row) as int)
}

/// A row is terminated when nothing but NUL follows its first NUL.
pub open spec fn terminated(row: Seq<u8>) -> bool {
    forall|j: int| printable_len(row) <= j < row.len() ==> row[j] == NUL
}

/// The number of space cells drawn before a row of printable length `len`.
pub open spec fn padding(align: Alignment, len: int) -> int {
    match align {
        Alignment::Left => 0,
        Alignment::Right => COLS - len,
        Alignment::Center => (COLS - len) / 2,
    }
}

/// What is drawn for `row`: the padding spaces followed by the content.
pub open spec fn row_image(align: Alignment, row: Seq<u8>) -> Seq<u8> {
    Seq::new(padding(align, printable_len(row) as int) as nat, |k: int| SPACE)
        + printable_prefix(row)
}

/// The printable length is the position of the first NUL: it lies within the
/// row, no byte before it is NUL, and the byte at it, if any, is NUL.
pub proof fn lemma_printable_len_bounds(row: Seq<u8>)
    ensures
        printable_len(row) <= row.len(),
        forall|j: int| 0 <= j < printable_len(row) ==> row[j] != NUL,
        printable_len(row) < row.len() ==> row[printable_len(row) as int] == NUL,
    decreases row.len(),
{
    if row.len() > 0 && row[0] != NUL {
        let rest = row.drop_first();
        lemma_printable_len_bounds(rest);
        assert forall|j: int| 0 <= j < printable_len(row) implies row[j] != NUL by {
            if j > 0 {
                assert(row[j] == rest[j - 1]);
            }
        }
        if printable_len(row) < row.len() {
            assert(row[printable_len(row) as int] == rest[printable_len(rest) as int]);
        }
    }
}

/// The position of the first NUL determines the printable length.
pub proof fn lemma_printable_len_is(row: Seq<u8>, n: int)
    requires
        0 <= n <= row.len(),
        forall|j: int| 0 <= j < n ==> row[j] != NUL,
        n < row.len() ==> row[n] == NUL,
    ensures
        printable_len(row) == n,
    decreases row.len(),
{
    if n > 0 {
        let rest = row.drop_first();
        assert forall|j: int| 0 <= j < n - 1 implies rest[j] != NUL by {
            assert(rest[j] == row[j + 1]);
        }
        if n - 1 < rest.len() {
            assert(rest[n - 1] == row[n]);
        }
        lemma_printable_len_is(rest, n - 1);
    }
}

/// A row that fits the grid is drawn within one display row.
pub proof fn lemma_row_image_fits(align: Alignment, row: Seq<u8>)
    requires
        row.len() <= COLS,
    ensures
        0 <= padding(align, printable_len(row) as int) <= COLS,
        row_image(align, row).len() == padding(align, printable_len(row) as int) + printable_len(
            row,
        ),
        row_image(align, row).len() <= COLS,
{
    lemma_printable_len_bounds(row);
}

/// Content that leaves the last column free is drawn, flush left or
/// centered, in fewer cells than the display is wide.
pub proof fn lemma_row_image_shorter(align: Alignment, row: Seq<u8>)
    requires
        printable_len(row) <= COLS - 1,
        !(align is Right),
    ensures
        row_image(align, row).len() < COLS,
{
    lemma_printable_len_bounds(row);
}

} // verus!
