//! Halftones: which dots a grey becomes, and how many.

use crate::bytes::ceil_div;
use crate::dither::{dot, dot_placed, msb_bit, tone, BAYER4, DitherMode, SRGB_TO_LINEAR};
use crate::error::Error;
use crate::laws::colours::power;
use crate::page::{carry_into, grayscale_raster, row_of};
use vstd::prelude::*;

verus! {

/// Dot `at` of row `y` in rows of `per_line` bytes, the highest bit of a byte
/// first.
pub open spec fn has_dot(mono: Seq<u8>, per_line: int, at: int, y: int) -> bool {
    mono[y * per_line + at / 8] as int / power(7 - at % 8) % 2 == 1
}

/// The order in which the cells of a two by two square fill: the diagonal first,
/// from its upper left.
pub open spec fn order_of_two(row: int, col: int) -> int {
    3 * row + 2 * col - 4 * row * col
}

/// The order in which the cells of a four by four square fill: spread over its
/// four quarters first, then within each.
pub open spec fn order_of_four(row: int, col: int) -> int {
    4 * order_of_two(row % 2, col % 2) + order_of_two(row / 2 % 2, col / 2 % 2)
}

proof fn lemma_bits(b: u8, k: int)
    requires
        0 <= k < 8,
    ensures
        msb_bit(b, k) == (b as int / power(7 - k) % 2 == 1),
{
    reveal_with_fuel(power, 9);
    assert((b & (0x80u8 >> 0u8) != 0) == (b / 128 % 2 == 1)) by (bit_vector);
    assert((b & (0x80u8 >> 1u8) != 0) == (b / 64 % 2 == 1)) by (bit_vector);
    assert((b & (0x80u8 >> 2u8) != 0) == (b / 32 % 2 == 1)) by (bit_vector);
    assert((b & (0x80u8 >> 3u8) != 0) == (b / 16 % 2 == 1)) by (bit_vector);
    assert((b & (0x80u8 >> 4u8) != 0) == (b / 8 % 2 == 1)) by (bit_vector);
    assert((b & (0x80u8 >> 5u8) != 0) == (b / 4 % 2 == 1)) by (bit_vector);
    assert((b & (0x80u8 >> 6u8) != 0) == (b / 2 % 2 == 1)) by (bit_vector);
    assert((b & (0x80u8 >> 7u8) != 0) == (b / 1 % 2 == 1)) by (bit_vector);
}

proof fn lemma_matrix(r: int, c: int)
    requires
        0 <= r < 4,
        0 <= c < 4,
    ensures
        BAYER4@[r]@[c] == 8 + 16 * order_of_four(r, c),
{
    assert(r == 0 || r == 1 || r == 2 || r == 3);
    assert(c == 0 || c == 1 || c == 2 || c == 3);
}

proof fn lemma_order_repeats(row: int, col: int)
    ensures
        order_of_four(row % 4, col % 4) == order_of_four(row, col),
        0 <= order_of_four(row, col) < 16,
{
    assert(row % 4 % 2 == row % 2 && row % 4 / 2 % 2 == row / 2 % 2);
    assert(col % 4 % 2 == col % 2 && col % 4 / 2 % 2 == col / 2 % 2);
    let (a, b, c, d) = (row % 2, col % 2, row / 2 % 2, col / 2 % 2);
    assert(a == 0 || a == 1);
    assert(b == 0 || b == 1);
    assert(c == 0 || c == 1);
    assert(d == 0 || d == 1);
}

/// Any row of any mode: the dot of pixel `x` stands at the mirrored place, and
/// the padding is clear.
pub proof fn lemma_place(
    gray: &[u8],
    width: u32,
    height: u32,
    mode: DitherMode,
    mono: Vec<u8>,
    at: int,
    y: int,
)
    requires
        call_ensures(
            grayscale_raster,
            (gray, width, height, mode),
            Ok::<Vec<u8>, Error>(mono),
        ),
        0 <= at < 8 * ceil_div(width as int, 8),
        0 <= y < height,
    ensures
        has_dot(mono@, ceil_div(width as int, 8), at, y) == (at < width && dot(
            mode,
            width as int,
            row_of(gray@, width as int, y),
            y,
            carry_into(mode, gray@, width as int, y),
            width - 1 - at,
        )),
        mono@.len() == height * ceil_div(width as int, 8),
        gray@.len() >= width * height,
{
    let n = ceil_div(width as int, 8);
    lemma_bits(mono@[y * n + at / 8], at % 8);
    assert(msb_bit(mono@[y * n + at / 8], at % 8) == dot_placed(
        mode,
        width as int,
        row_of(gray@, width as int, y),
        y,
        carry_into(mode, gray@, width as int, y),
        width as int,
        at / 8,
        at % 8,
    ));
    assert(8 * (at / 8) + at % 8 == at);
}

pub proof fn lemma_row(gray: Seq<u8>, width: int, height: int, x: int, y: int)
    requires
        gray.len() >= width * height,
        0 <= x < width,
        0 <= y < height,
    ensures
        row_of(gray, width, y).len() == width,
        row_of(gray, width, y)[x] == gray[y * width + x],
{
    assert(0 <= y * width && y * width + width <= width * height && (y + 1) * width == y * width
        + width) by (nonlinear_arith)
        requires
            0 <= y < height,
            0 < width,
    ;
}

/// Ordered dithering decides every dot by its own cell of a four by four square
/// that repeats over the printed page: cell by cell, in the order that the
/// square fills, it takes one step of sixteen more darkness to print there.
pub proof fn ordered_dots_are_decided_cell_by_cell(
    gray: &[u8],
    width: u32,
    height: u32,
    mono: Vec<u8>,
    x: int,
    y: int,
)
    requires
        call_ensures(
            grayscale_raster,
            (gray, width, height, DitherMode::Bayer),
            Ok::<Vec<u8>, Error>(mono),
        ),
        0 <= x < width,
        0 <= y < height,
    ensures
        ({
            let at = width - 1 - x;
            let t = SRGB_TO_LINEAR@[gray@[y * width + x] as int];
            has_dot(mono@, (width + 7) / 8, at, y) == (t < 8 + 16 * order_of_four(y, at))
        }),
{
    let at = width - 1 - x;
    lemma_place(gray, width, height, DitherMode::Bayer, mono, at, y);
    lemma_row(gray@, width as int, height as int, x, y);
    lemma_matrix(y % 4, at % 4);
    lemma_order_repeats(y, at);
}

/// One where it holds.
pub open spec fn one_if(b: bool) -> int {
    if b {
        1
    } else {
        0
    }
}

/// The dots of four neighbouring places of row `y`.
pub open spec fn dots_of_four(mono: Seq<u8>, per_line: int, at: int, y: int) -> int {
    one_if(has_dot(mono, per_line, at, y)) + one_if(has_dot(mono, per_line, at + 1, y)) + one_if(
        has_dot(mono, per_line, at + 2, y),
    ) + one_if(has_dot(mono, per_line, at + 3, y))
}

/// The dots of a square of four by four places.
pub open spec fn dots_of_square(mono: Seq<u8>, per_line: int, at: int, y: int) -> int {
    dots_of_four(mono, per_line, at, y) + dots_of_four(mono, per_line, at, y + 1) + dots_of_four(
        mono,
        per_line,
        at,
        y + 2,
    ) + dots_of_four(mono, per_line, at, y + 3)
}

/// One where the cell prints at tone `t`.
#[verifier::opaque]
spec fn cell(t: int, row: int, col: int) -> int {
    one_if(t < 8 + 16 * order_of_four(row, col))
}

proof fn lemma_cell_repeats(t: int, row: int, col: int)
    ensures
        cell(t, row, col) == cell(t, row % 4, col % 4),
{
    reveal(cell);
    lemma_order_repeats(row, col);
}

/// The cells of one row of the square that print at tone `t`.
spec fn cells_of_row(t: int, row: int) -> int {
    cell(t, row, 0) + cell(t, row, 1) + cell(t, row, 2) + cell(t, row, 3)
}

proof fn lemma_row_of_cells(t: int, row: int, col: int)
    ensures
        cell(t, row, col) + cell(t, row, col + 1) + cell(t, row, col + 2) + cell(t, row, col + 3)
            == cells_of_row(t, row % 4),
{
    lemma_cell_repeats(t, row, col);
    lemma_cell_repeats(t, row, col + 1);
    lemma_cell_repeats(t, row, col + 2);
    lemma_cell_repeats(t, row, col + 3);
    let c = col % 4;
    assert(c == 0 || c == 1 || c == 2 || c == 3);
    if c == 0 {
        assert((col + 1) % 4 == 1 && (col + 2) % 4 == 2 && (col + 3) % 4 == 3);
    } else if c == 1 {
        assert((col + 1) % 4 == 2 && (col + 2) % 4 == 3 && (col + 3) % 4 == 0);
    } else if c == 2 {
        assert((col + 1) % 4 == 3 && (col + 2) % 4 == 0 && (col + 3) % 4 == 1);
    } else {
        assert((col + 1) % 4 == 0 && (col + 2) % 4 == 1 && (col + 3) % 4 == 2);
    }
}

proof fn lemma_square_of_cells(t: int, row: int)
    requires
        0 <= t <= 255,
    ensures
        cells_of_row(t, row % 4) + cells_of_row(t, (row + 1) % 4) + cells_of_row(t, (row + 2) % 4)
            + cells_of_row(t, (row + 3) % 4) == dots_for_tone(t),
{
    lemma_all_cells(t);
    let r = row % 4;
    assert(r == 0 || r == 1 || r == 2 || r == 3);
    if r == 0 {
        assert((row + 1) % 4 == 1 && (row + 2) % 4 == 2 && (row + 3) % 4 == 3);
    } else if r == 1 {
        assert((row + 1) % 4 == 2 && (row + 2) % 4 == 3 && (row + 3) % 4 == 0);
    } else if r == 2 {
        assert((row + 1) % 4 == 3 && (row + 2) % 4 == 0 && (row + 3) % 4 == 1);
    } else {
        assert((row + 1) % 4 == 0 && (row + 2) % 4 == 1 && (row + 3) % 4 == 2);
    }
}

/// The dots that a tone is worth, of sixteen: one less for every sixteen steps.
pub open spec fn dots_for_tone(t: int) -> int {
    if t < 8 {
        16
    } else {
        15 - (t - 8) / 16
    }
}

proof fn lemma_all_cells(t: int)
    requires
        0 <= t <= 255,
    ensures
        cells_of_row(t, 0) + cells_of_row(t, 1) + cells_of_row(t, 2) + cells_of_row(t, 3)
            == dots_for_tone(t),
{
    reveal(cell);
    lemma_order_values();
}

proof fn lemma_order_values()
    ensures
        order_of_four(0, 0) == 0 && order_of_four(0, 1) == 8 && order_of_four(0, 2) == 2
            && order_of_four(0, 3) == 10,
        order_of_four(1, 0) == 12 && order_of_four(1, 1) == 4 && order_of_four(1, 2) == 14
            && order_of_four(1, 3) == 6,
        order_of_four(2, 0) == 3 && order_of_four(2, 1) == 11 && order_of_four(2, 2) == 1
            && order_of_four(2, 3) == 9,
        order_of_four(3, 0) == 15 && order_of_four(3, 1) == 7 && order_of_four(3, 2) == 13
            && order_of_four(3, 3) == 5,
{
}

/// A square of four by four places over a uniform grey prints as many dots as
/// its tone is worth, wherever on the page the square lies.
pub proof fn a_uniform_grey_prints_its_share_of_dots(
    gray: &[u8],
    width: u32,
    height: u32,
    mono: Vec<u8>,
    g: u8,
    at: int,
    y: int,
)
    requires
        call_ensures(
            grayscale_raster,
            (gray, width, height, DitherMode::Bayer),
            Ok::<Vec<u8>, Error>(mono),
        ),
        0 <= at && at + 4 <= width,
        0 <= y && y + 4 <= height,
        forall|i: int| 0 <= i < width * height ==> gray@[i] == g,
    ensures
        dots_of_square(mono@, (width + 7) / 8, at, y) == dots_for_tone(
            SRGB_TO_LINEAR@[g as int] as int,
        ),
{
    let t = SRGB_TO_LINEAR@[g as int] as int;
    let n = (width + 7) / 8;
    assert(0 <= t <= 255);
    lemma_uniform_row(gray, width, height, mono, g, at, y);
    lemma_uniform_row(gray, width, height, mono, g, at, y + 1);
    lemma_uniform_row(gray, width, height, mono, g, at, y + 2);
    lemma_uniform_row(gray, width, height, mono, g, at, y + 3);
    lemma_square_of_cells(t, y);
}

proof fn lemma_uniform_dot(
    gray: &[u8],
    width: u32,
    height: u32,
    mono: Vec<u8>,
    g: u8,
    at: int,
    y: int,
)
    requires
        call_ensures(
            grayscale_raster,
            (gray, width, height, DitherMode::Bayer),
            Ok::<Vec<u8>, Error>(mono),
        ),
        0 <= at < width,
        0 <= y < height,
        forall|i: int| 0 <= i < width * height ==> gray@[i] == g,
    ensures
        one_if(has_dot(mono@, (width + 7) / 8, at, y)) == cell(
            SRGB_TO_LINEAR@[g as int] as int,
            y,
            at,
        ),
{
    reveal(cell);
    let x = width - 1 - at;
    ordered_dots_are_decided_cell_by_cell(gray, width, height, mono, x, y);
    assert(0 <= y * width && y * width + width <= width * height) by (nonlinear_arith)
        requires
            0 <= y < height,
            0 < width,
    ;
    assert(gray@[y * width + x] == g);
}

proof fn lemma_uniform_row(
    gray: &[u8],
    width: u32,
    height: u32,
    mono: Vec<u8>,
    g: u8,
    at: int,
    y: int,
)
    requires
        call_ensures(
            grayscale_raster,
            (gray, width, height, DitherMode::Bayer),
            Ok::<Vec<u8>, Error>(mono),
        ),
        0 <= at && at + 4 <= width,
        0 <= y < height,
        forall|i: int| 0 <= i < width * height ==> gray@[i] == g,
    ensures
        dots_of_four(mono@, (width + 7) / 8, at, y) == cells_of_row(
            SRGB_TO_LINEAR@[g as int] as int,
            y % 4,
        ),
{
    lemma_uniform_dot(gray, width, height, mono, g, at, y);
    lemma_uniform_dot(gray, width, height, mono, g, at + 1, y);
    lemma_uniform_dot(gray, width, height, mono, g, at + 2, y);
    lemma_uniform_dot(gray, width, height, mono, g, at + 3, y);
    lemma_row_of_cells(SRGB_TO_LINEAR@[g as int] as int, y, at);
}

/// The tones that the table is tuned for: black prints all sixteen dots of a
/// square, grey 48 half of them, 128 a quarter, 192 an eighth, white none.
pub proof fn tones_are_tuned_for_the_head()
    ensures
        dots_for_tone(SRGB_TO_LINEAR@[0] as int) == 16,
        dots_for_tone(SRGB_TO_LINEAR@[48] as int) == 8,
        dots_for_tone(SRGB_TO_LINEAR@[128] as int) == 4,
        dots_for_tone(SRGB_TO_LINEAR@[192] as int) == 2,
        dots_for_tone(SRGB_TO_LINEAR@[255] as int) == 0,
{
}

/// In every mode the rows hold one dot for each pixel, and nothing behind the
/// last place of the width.
pub proof fn nothing_is_printed_past_the_width(
    gray: &[u8],
    width: u32,
    height: u32,
    mode: DitherMode,
    mono: Vec<u8>,
    at: int,
    y: int,
)
    requires
        call_ensures(
            grayscale_raster,
            (gray, width, height, mode),
            Ok::<Vec<u8>, Error>(mono),
        ),
        width <= at < 8 * ((width + 7) / 8),
        0 <= y < height,
    ensures
        mono@.len() == height * ((width + 7) / 8),
        !has_dot(mono@, (width + 7) / 8, at, y),
{
    lemma_place(gray, width, height, mode, mono, at, y);
}

} // verus!
