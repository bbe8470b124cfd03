//! Addressing of four-channel frames stored row by row.

use vstd::arithmetic::div_mod::{lemma_fundamental_div_mod, lemma_fundamental_div_mod_converse};
use vstd::prelude::*;

verus! {

/// The byte index of channel `c` of pixel (`x`, `y`) in a frame `w` pixels wide.
pub open spec fn index_of(w: int, x: int, y: int, c: int) -> int {
    (y * w + x) * 4 + c
}

/// The column of the pixel that byte `i` belongs to, in a frame `w` pixels wide.
pub open spec fn column_of(w: int, i: int) -> int {
    (i / 4) % w
}

/// The row of the pixel that byte `i` belongs to, in a frame `w` pixels wide.
pub open spec fn row_of(w: int, i: int) -> int {
    (i / 4) / w
}

/// The number of bytes of a frame of `w` by `h` pixels.
pub open spec fn frame_len(w: int, h: int) -> int {
    w * h * 4
}

/// A pixel inside the frame has all its bytes inside the frame's buffer.
pub proof fn lemma_index_inside(w: int, h: int, x: int, y: int)
    requires
        0 <= x < w,
        0 <= y < h,
    ensures
        0 <= y * w + x < w * h,
        0 <= index_of(w, x, y, 0),
        index_of(w, x, y, 3) < frame_len(w, h),
{
    assert(0 <= y * w + x < w * h) by (nonlinear_arith)
        requires
            0 <= x < w,
            0 <= y < h,
    ;
}

/// Column and row undo the addressing.
pub proof fn lemma_index_splits(w: int, x: int, y: int, c: int)
    requires
        0 <= x < w,
        0 <= y,
        0 <= c < 4,
    ensures
        column_of(w, index_of(w, x, y, c)) == x,
        row_of(w, index_of(w, x, y, c)) == y,
        index_of(w, x, y, c) % 4 == c,
{
    let p = y * w + x;
    assert((p * 4 + c) / 4 == p);
    lemma_fundamental_div_mod_converse(p, w, y, x);
}

/// Every byte of a frame belongs to a pixel of the frame.
pub proof fn lemma_index_unsplit(w: int, h: int, i: int)
    requires
        0 < w,
        0 <= i < frame_len(w, h),
    ensures
        0 <= column_of(w, i) < w,
        0 <= row_of(w, i) < h,
        index_of(w, column_of(w, i), row_of(w, i), i % 4) == i,
{
    let p = i / 4;
    let (x, y) = (p % w, p / w);
    lemma_fundamental_div_mod(p, w);
    assert(0 <= y) by (nonlinear_arith)
        requires
            y == p / w,
            0 <= p,
            0 < w,
    ;
    assert(y * w == w * y) by (nonlinear_arith);
    assert(y < h) by (nonlinear_arith)
        requires
            p == w * y + x,
            p < w * h,
            0 <= x,
            0 < w,
    ;
}

/// The first pixel of a row follows the last pixel of the row before.
pub proof fn lemma_row_start(w: int, y: int)
    ensures
        index_of(w, w, y, 0) == index_of(w, 0, y + 1, 0),
        index_of(w, 0, 0, 0) == 0,
        index_of(w, 0, y, 0) == frame_len(w, y),
{
    assert((y + 1) * w == y * w + w) by (nonlinear_arith);
    assert(w * y == y * w) by (nonlinear_arith);
    assert(0 * w == 0);
}

/// Row and offset of a byte in rows of `row` bytes undo the addressing, and the
/// byte is inside the buffer.
pub proof fn lemma_row_split(row: int, rows: int, y: int, k: int)
    requires
        0 <= k < row,
        0 <= y < rows,
    ensures
        (y * row + k) / row == y,
        (y * row + k) % row == k,
        0 <= y * row,
        y * row + k < row * rows,
{
    lemma_fundamental_div_mod_converse(y * row + k, row, y, k);
    assert(0 <= y * row) by (nonlinear_arith)
        requires
            0 <= y,
            0 < row,
    ;
    assert(y * row + k < row * rows) by (nonlinear_arith)
        requires
            0 <= k < row,
            0 <= y < rows,
    ;
}

/// The next row begins where a row ends.
pub proof fn lemma_next_row(row: int, rows: int, y: int)
    requires
        0 <= row,
        0 <= y < rows,
    ensures
        (y + 1) * row == y * row + row,
        0 <= y * row,
        y * row + row <= row * rows,
{
    assert((y + 1) * row == y * row + row) by (nonlinear_arith);
    assert(0 <= y * row) by (nonlinear_arith)
        requires
            0 <= y,
            0 <= row,
    ;
    assert((y + 1) * row <= row * rows) by (nonlinear_arith)
        requires
            y + 1 <= rows,
            0 <= row,
    ;
}

/// A frame's rows are a pixel row's bytes each.
pub proof fn lemma_frame_is_rows(w: int, h: int)
    ensures
        frame_len(w, h) == (4 * w) * h,
{
    assert(w * h * 4 == (4 * w) * h) by (nonlinear_arith);
}

/// Frames are stored row by row, four bytes to a pixel: the first byte is the first
/// channel of the first pixel, the next channel follows at once, the next pixel four
/// bytes on, and the pixel below a row of pixels on. A frame ends where the row below
/// its last would begin.
pub proof fn law_addressing(w: int, h: int, x: int, y: int, c: int)
    ensures
        index_of(w, 0, 0, 0) == 0,
        index_of(w, x, y, c + 1) == index_of(w, x, y, c) + 1,
        index_of(w, x + 1, y, c) == index_of(w, x, y, c) + 4,
        index_of(w, x, y + 1, c) == index_of(w, x, y, c) + 4 * w,
        frame_len(w, h) == index_of(w, 0, h, 0),
{
    assert((y + 1) * w == y * w + w) by (nonlinear_arith);
    assert(w * h == h * w) by (nonlinear_arith);
    assert(0 * w == 0);
}

} // verus!
