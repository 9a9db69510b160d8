//! Two colours: which dot of which plane a pixel of the picture becomes.

use crate::bytes::{bit_weight, ceil_div};
use crate::buffer::{ColourMode, Density, DensityBand};
use crate::error::Error;
use crate::laws::strips::{is_strip, lemma_one_band_strip};
use crate::page::two_colour_page;
use crate::twocolor::{
    every_dot_has_one_colour, interleave_planes, interleaved, interleaving_keeps_every_line, luma,
    luma_is_the_weighted_mean, plane_of, rgb_to_planes, Plane,
};
use vstd::prelude::*;

verus! {

/// Two to the power of `n`.
pub open spec fn power(n: int) -> int
    decreases n,
{
    if n <= 0 {
        1
    } else {
        2 * power(n - 1)
    }
}

/// Dot `x` of line `y` in lines of `per_line` bytes, the lowest bit of a byte
/// first.
pub open spec fn has_dot(bytes: Seq<u8>, per_line: int, x: int, y: int) -> bool {
    bytes[y * per_line + x / 8] as int / power(x % 8) % 2 == 1
}

/// A hundred times the luma of the pixel whose three bytes begin at `px`: thirty
/// hundredths of the first, red, fifty-nine of the second, green, eleven of the
/// third, blue.
pub open spec fn hundredfold_luma(rgb: Seq<u8>, px: int) -> int {
    30 * rgb[px] + 59 * rgb[px + 1] + 11 * rgb[px + 2]
}

/// The dots are those of the luma that [`luma`] gives the colour.
pub open spec fn splits_at_48_and_125(r: u8, g: u8, b: u8, red: bool, black: bool) -> bool {
    forall|y: u8| #[trigger]
        call_ensures(luma, (r, g, b), y) ==> black == (y <= 48) && red == (48 < y < 125)
}

/// The dots of pixel `(x, y)` of a row-major RGB picture: black below a luma of
/// 49, red from there to below 125, and none above or where the picture ends
/// before the pixel does. Between two of these, at a luma of exactly 49 or 125,
/// it is one or the other, as the luma rounds.
pub open spec fn colours_pixel(
    rgb: Seq<u8>,
    width: int,
    x: int,
    y: int,
    red: bool,
    black: bool,
) -> bool {
    let px = 3 * (y * width + x);
    if px + 3 <= rgb.len() {
        let l = hundredfold_luma(rgb, px);
        &&& l < 4900 ==> black && !red
        &&& l == 4900 ==> black != red
        &&& 4900 < l < 12500 ==> red && !black
        &&& l == 12500 ==> !black
        &&& l > 12500 ==> !black && !red
        &&& splits_at_48_and_125(rgb[px], rgb[px + 1], rgb[px + 2], red, black)
    } else {
        !black && !red
    }
}

proof fn lemma_power(n: int)
    ensures
        power(n) == bit_weight(n),
    decreases n,
{
    if n > 0 {
        lemma_power(n - 1);
    }
}

proof fn lemma_pixel(rgb: Seq<u8>, width: int, height: int, x: int, y: int)
    requires
        0 <= x < width,
        0 <= y < height,
    ensures
        ({
            let per_line = ceil_div(width, 8);
            colours_pixel(
                rgb,
                width,
                x,
                y,
                has_dot(plane_of(rgb, width, height, Plane::Red), per_line, x, y),
                has_dot(plane_of(rgb, width, height, Plane::Black), per_line, x, y),
            )
        }),
{
    every_dot_has_one_colour(rgb, width, height, Plane::Red, x, y);
    every_dot_has_one_colour(rgb, width, height, Plane::Black, x, y);
    lemma_power(x % 8);
    let px = 3 * (y * width + x);
    assert(px == (y * width + x) * 3);
    assert(0 <= px) by (nonlinear_arith)
        requires
            px == 3 * (y * width + x),
            0 <= x,
            0 <= y,
            0 <= width,
    ;
    if px + 3 <= rgb.len() {
        luma_is_the_weighted_mean(rgb[px], rgb[px + 1], rgb[px + 2]);
    }
}

/// A picture is split into its planes dot by dot: each pixel sets a dot in the
/// plane that its own three bytes call for, at its own place, and the padding
/// behind a row stays clear.
pub proof fn pixels_burn_in_the_colour_of_their_luma(
    rgb: &[u8],
    width: u32,
    height: u32,
    red: Vec<u8>,
    black: Vec<u8>,
    cols: u32,
    per_line: u32,
    x: int,
    y: int,
)
    requires
        call_ensures(rgb_to_planes, (rgb, width, height), (red, black, cols, per_line)),
        0 <= x < 8 * per_line,
        0 <= y < height,
    ensures
        cols == height,
        8 * per_line - 8 < width <= 8 * per_line,
        red@.len() == height * per_line && black@.len() == height * per_line,
        x < width ==> colours_pixel(
            rgb@,
            width as int,
            x,
            y,
            has_dot(red@, per_line as int, x, y),
            has_dot(black@, per_line as int, x, y),
        ),
        x >= width ==> !has_dot(red@, per_line as int, x, y) && !has_dot(
            black@,
            per_line as int,
            x,
            y,
        ),
{
    assert(0 <= height * per_line) by (nonlinear_arith)
        requires
            height >= 0,
            per_line >= 0,
    ;
    if x < width {
        lemma_pixel(rgb@, width as int, height as int, x, y);
    } else {
        every_dot_has_one_colour(rgb@, width as int, height as int, Plane::Red, x, y);
        every_dot_has_one_colour(rgb@, width as int, height as int, Plane::Black, x, y);
        lemma_power(x % 8);
    }
}

/// Interleaving lays the red line of each column before its black line, and
/// changes neither.
pub proof fn red_lines_come_before_black_ones(
    red: &[u8],
    black: &[u8],
    per_line: usize,
    cols: usize,
    wire: Vec<u8>,
    c: int,
    j: int,
)
    requires
        call_ensures(interleave_planes, (red, black, per_line, cols), Some(wire)),
        0 <= c < cols,
        0 <= j < per_line,
    ensures
        wire@.len() == red@.len() + black@.len(),
        wire@[2 * c * per_line + j] == red@[c * per_line + j],
        wire@[(2 * c + 1) * per_line + j] == black@[c * per_line + j],
{
    interleaving_keeps_every_line(red@, black@, per_line as int, cols as int, c, j);
}

/// The lines of a two-colour page: line `2y` holds the red dots of row `y`, line
/// `2y + 1` its black ones.
pub open spec fn is_wire(
    wire: Seq<u8>,
    rgb: Seq<u8>,
    width: int,
    height: int,
    per_line: int,
) -> bool {
    &&& wire.len() == 2 * (height * per_line)
    &&& forall|x: int, y: int|
        0 <= x < width && 0 <= y < height ==> #[trigger] colours_pixel(
            rgb,
            width,
            x,
            y,
            has_dot(wire, per_line, x, 2 * y),
            has_dot(wire, per_line, x, 2 * y + 1),
        )
}

/// A two-colour page is a strip of its picture: red and black lines in turn, one
/// band between the margins, two lines for each column, burned at both of the
/// caller's trims.
pub proof fn two_colour_pages_are_strips_of_both_planes(
    rgb: &[u8],
    width: u32,
    height: u32,
    density: Density,
    margin: u16,
    r: Vec<[u8; 4096]>,
)
    requires
        2 * margin <= u16::MAX,
        (width + 7) / 8 % 256 > 0,
        call_ensures(
            two_colour_page,
            (rgb, width, height, density, margin),
            Ok::<Vec<[u8; 4096]>, Error>(r),
        ),
    ensures
        exists|wire: Seq<u8>|
            {
                &&& #[trigger] is_wire(
                    wire,
                    rgb@,
                    width as int,
                    height as int,
                    (width + 7) / 8,
                )
                &&& is_strip(
                    r@,
                    wire,
                    ((width + 7) / 8 % 256) as u8,
                    seq![height as int % 65536 - 2 * margin],
                    seq![density],
                    margin,
                    margin,
                    2,
                )
            },
{
    let w = width as int;
    let h = height as int;
    let n = ceil_div(w, 8);
    let red = plane_of(rgb@, w, h, Plane::Red);
    let black = plane_of(rgb@, w, h, Plane::Black);
    let wire = interleaved(red, black, n, h);
    assert(0 <= h * n) by (nonlinear_arith)
        requires
            0 <= h,
            0 <= n,
    ;
    assert forall|x: int, y: int| 0 <= x < w && 0 <= y < h implies #[trigger] colours_pixel(
        rgb@,
        w,
        x,
        y,
        has_dot(wire, n, x, 2 * y),
        has_dot(wire, n, x, 2 * y + 1),
    ) by {
        lemma_pixel(rgb@, w, h, x, y);
        interleaving_keeps_every_line(red, black, n, h, y, x / 8);
    }
    assert(is_wire(wire, rgb@, w, h, n));
    let band = DensityBand {
        cols: crate::page::printable_cols(height, margin) as u16,
        density,
    };
    lemma_one_band_strip(
        r@,
        wire,
        (n % 256) as u8,
        band,
        margin,
        margin,
        ColourMode::TwoColour,
    );
}

} // verus!
