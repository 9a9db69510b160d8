//! Two-colour (red/black) raster encoding.
//!
//! On two-colour thermal stock the printer develops a different colour depending
//! on burn energy, and the protocol carries that as two interleaved bitplanes
//! rather than one, each plane burned at its own trim from
//! [`Density`](crate::buffer::Density). Unlike the per-band density in
//! [`split_into_banded_buffers`](crate::buffer::split_into_banded_buffers),
//! which only varies energy along the feed axis, this selects colour per dot.

use crate::bytes::{
    bit_of, bit_weight, ceil_div, lemma_bit_weights, lemma_packed_bit, lemma_packed_bound,
    packed_bits,
};
use crate::single::nearest_steps;
use vstd::prelude::*;

verus! {

/// Luminance at or above which a pixel is blank.
pub const BLANK_THRESHOLD: u8 = 125;

/// Luminance at or below which an inked pixel burns black rather than red.
///
/// Placed so that pure red, of luma `255 * 0.3 = 76`, lands on the red side.
/// It is a luminance cut, not a hue test: any mid-grey in the 48..125 window
/// becomes red, so callers should quantise to two ink colours before encoding
/// rather than relying on this to separate an arbitrary image.
pub const BLACK_THRESHOLD: u8 = 48;

/// Which bitplane an inked pixel belongs to.
///
/// Plane order on the wire is red first, then black.
#[derive(Debug, Clone, Copy, PartialEq, Eq, Structural)]
pub enum Plane {
    Red,
    Black,
}

// ---------------------------------------------------------------------------
// Luma
// ---------------------------------------------------------------------------

/// The step between neighbouring single-precision numbers at `n`: a significand
/// has 24 bits.
pub open spec fn ulp(n: nat) -> nat
    decreases n,
{
    if n < 0x100_0000 {
        1
    } else {
        2 * ulp(n / 2)
    }
}

/// `n` rounded to single precision.
pub open spec fn single(n: nat) -> nat {
    nearest_steps(n, ulp(n)) * ulp(n)
}

/// `0.3` in single precision, in units of `2^-27`.
pub const RED_WEIGHT: u64 = 40_265_320;

/// `0.59` in single precision, in units of `2^-27`.
pub const GREEN_WEIGHT: u64 = 79_188_456;

/// `0.11` in single precision, in units of `2^-27`.
pub const BLUE_WEIGHT: u64 = 14_763_950;

/// How many units of `2^-27` make one.
pub const LUMA_ONE: u64 = 134_217_728;

/// The luma before truncation, in units of `2^-27`: each product and each sum
/// rounded to single precision.
pub open spec fn weighted(r: u8, g: u8, b: u8) -> nat {
    let rg = single(
        single((r * RED_WEIGHT) as nat) + single((g * GREEN_WEIGHT) as nat),
    );
    single(rg + single((b * BLUE_WEIGHT) as nat))
}

/// The luma of a pixel.
pub open spec fn luma_of(r: u8, g: u8, b: u8) -> u8 {
    (weighted(r, g, b) / LUMA_ONE as nat) as u8
}

proof fn lemma_single(n: nat)
    requires
        n < 0x8_0000_0000,
    ensures
        1 <= ulp(n) <= 2048,
        n - 1024 <= single(n) <= n + 1024,
{
    reveal_with_fuel(ulp, 13);
    let u = ulp(n);
    let q = n / u;
    assert(n == q * u + n % u && 0 <= n % u < u) by (nonlinear_arith)
        requires
            u >= 1,
            q == n / u,
    ;
    assert((q + 1) * u == q * u + u) by (nonlinear_arith);
}

/// The numbers that one luma goes through all stay in the range that
/// [`lemma_single`] speaks of.
proof fn lemma_weighted(r: u8, g: u8, b: u8)
    ensures
        ({
            let wr = single((r * RED_WEIGHT) as nat);
            let wg = single((g * GREEN_WEIGHT) as nat);
            let wb = single((b * BLUE_WEIGHT) as nat);
            let rg = single(wr + wg);
            &&& r * RED_WEIGHT - 1024 <= wr <= r * RED_WEIGHT + 1024
            &&& g * GREEN_WEIGHT - 1024 <= wg <= g * GREEN_WEIGHT + 1024
            &&& b * BLUE_WEIGHT - 1024 <= wb <= b * BLUE_WEIGHT + 1024
            &&& wr + wg - 1024 <= rg <= wr + wg + 1024
            &&& rg + wb - 1024 <= weighted(r, g, b) <= rg + wb + 1024
            &&& wr + wg < 0x8_0000_0000
            &&& rg + wb < 0x8_0000_0000
        }),
{
    let wr = single((r * RED_WEIGHT) as nat);
    let wg = single((g * GREEN_WEIGHT) as nat);
    let wb = single((b * BLUE_WEIGHT) as nat);
    lemma_single((r * RED_WEIGHT) as nat);
    lemma_single((g * GREEN_WEIGHT) as nat);
    lemma_single((b * BLUE_WEIGHT) as nat);
    lemma_single(wr + wg);
    lemma_single(single(wr + wg) + wb);
}

/// The luma is `0.3 R + 0.59 G + 0.11 B`, truncated: exactly so unless that is a
/// whole number, and then it may be one less.
pub proof fn luma_is_the_weighted_mean(r: u8, g: u8, b: u8)
    ensures
        ({
            let y = luma_of(r, g, b) as int;
            let exact = 30 * r + 59 * g + 11 * b;
            100 * y <= exact < 100 * (y + 1) || exact == 100 * (y + 1)
        }),
{
    lemma_weighted(r, g, b);
}

/// Rounds `n` to single precision.
fn round_single(n: u64) -> (r: u64)
    requires
        n < 0x8_0000_0000,
    ensures
        r == single(n as nat),
{
    let mut step: u64 = 1;
    let mut q: u64 = n;
    let ghost whole = ulp(n as nat);
    assert(step * ulp(q as nat) == whole);
    assert(n as int / 1 == n);
    while q >= 0x100_0000
        invariant
            n < 0x8_0000_0000,
            whole == ulp(n as nat),
            step * ulp(q as nat) == whole,
            1 <= step,
            q == n as int / step as int,
            step * q <= n,
        decreases q,
    {
        assert(step <= 0x8_0000_0000 && step * 2 * (q as int / 2) <= n) by (nonlinear_arith)
            requires
                step * q <= n,
                n < 0x8_0000_0000,
                q >= 0x100_0000,
        ;
        assert(n as int / step as int / 2 == n as int / (step * 2)) by (nonlinear_arith)
            requires
                step >= 1,
        ;
        assert((step * 2) * ulp((q / 2) as nat) == step * (2 * ulp((q / 2) as nat)))
            by (nonlinear_arith);
        step = step * 2;
        q = q / 2;
    }
    assert(step * 1 == step);
    assert(step == whole);
    let rest: u64 = n % step;
    proof {
        lemma_single(n as nat);
        assert((q + 1) * step <= 0x10_0000_0000) by (nonlinear_arith)
            requires
                q < 0x100_0000,
                step <= 2048,
        ;
        assert(q * step <= (q + 1) * step) by (nonlinear_arith);
    }
    if 2 * rest > step || (2 * rest == step && q % 2 == 1) {
        (q + 1) * step
    } else {
        q * step
    }
}

/// Luma `0.3 R + 0.59 G + 0.11 B` in single precision, truncated.
///
/// Deliberately not Rec. 601/709: these are the coefficients the firmware's
/// threshold pair was chosen against, so changing them would move where pure
/// red falls relative to [`BLACK_THRESHOLD`].
pub fn luma(r: u8, g: u8, b: u8) -> (y: u8)
    ensures
        y == luma_of(r, g, b),
{
    proof {
        lemma_weighted(r, g, b);
    }
    let red: u64 = round_single(r as u64 * RED_WEIGHT);
    let green: u64 = round_single(g as u64 * GREEN_WEIGHT);
    let blue: u64 = round_single(b as u64 * BLUE_WEIGHT);
    let sum: u64 = round_single(round_single(red + green) + blue);
    (sum / LUMA_ONE) as u8
}

/// The plane of a luma; `None` is no ink.
pub open spec fn classified(luma: u8) -> Option<Plane> {
    if luma >= BLANK_THRESHOLD {
        None
    } else if luma > BLACK_THRESHOLD {
        Some(Plane::Red)
    } else {
        Some(Plane::Black)
    }
}

/// Classify a pixel by luminance. `None` means no ink.
pub fn classify(luma: u8) -> (r: Option<Plane>)
    ensures
        r == classified(luma),
{
    if luma >= BLANK_THRESHOLD {
        None
    } else if luma > BLACK_THRESHOLD {
        Some(Plane::Red)
    } else {
        Some(Plane::Black)
    }
}

// ---------------------------------------------------------------------------
// Interleaving
// ---------------------------------------------------------------------------

/// Byte `i` of the wire layout: each column's red line, then its black line.
pub open spec fn interleaved_byte(red: Seq<u8>, black: Seq<u8>, per_line: int, i: int) -> u8 {
    let col = i / (2 * per_line);
    let at = i % (2 * per_line);
    if at < per_line {
        red[col * per_line + at]
    } else {
        black[col * per_line + at - per_line]
    }
}

/// The wire layout of two planes of `cols` lines of `per_line` bytes.
pub open spec fn interleaved(red: Seq<u8>, black: Seq<u8>, per_line: int, cols: int) -> Seq<u8> {
    Seq::new(
        (2 * (cols * per_line)) as nat,
        |i: int| interleaved_byte(red, black, per_line, i),
    )
}

/// Column `c` of plane `p` (red is `0`, black is `1`) stands at line `2c + p` of
/// the wire layout, unchanged.
pub proof fn interleaving_keeps_every_line(
    red: Seq<u8>,
    black: Seq<u8>,
    per_line: int,
    cols: int,
    c: int,
    j: int,
)
    requires
        0 <= c < cols,
        0 <= j < per_line,
        red.len() == cols * per_line,
        black.len() == cols * per_line,
    ensures
        ({
            let wire = interleaved(red, black, per_line, cols);
            &&& wire.len() == red.len() + black.len()
            &&& wire[2 * c * per_line + j] == red[c * per_line + j]
            &&& wire[(2 * c + 1) * per_line + j] == black[c * per_line + j]
        }),
{
    let a = 2 * c * per_line + j;
    let b = (2 * c + 1) * per_line + j;
    assert(0 <= a < b < 2 * (cols * per_line) && a == c * (2 * per_line) + j && b == c * (2
        * per_line) + (per_line + j)) by (nonlinear_arith)
        requires
            0 <= c < cols,
            0 <= j < per_line,
            a == 2 * c * per_line + j,
            b == (2 * c + 1) * per_line + j,
    ;
    vstd::arithmetic::div_mod::lemma_fundamental_div_mod_converse(a, 2 * per_line, c, j);
    vstd::arithmetic::div_mod::lemma_fundamental_div_mod_converse(b, 2 * per_line, c, per_line + j);
}

/// Interleave two equal-length column-major planes into the wire layout.
///
/// Both inputs are `cols * per_line_byte` bytes in the same column-major
/// LSB-first packing the mono path uses. The output places each column's red
/// line immediately before its black line, so the printer sees `cols * 2`
/// lines of `per_line_byte` each, which is exactly why the buffer header
/// advertises a doubled column count.
///
/// Returns `None` if the planes disagree in length or aren't a whole number of
/// columns.
pub fn interleave_planes(red: &[u8], black: &[u8], per_line_byte: usize, cols: usize) -> (r: Option<
    Vec<u8>,
>)
    ensures
        r is Some <==> red@.len() == cols * per_line_byte && black@.len() == cols * per_line_byte,
        r matches Some(out) ==> out@ == interleaved(
            red@,
            black@,
            per_line_byte as int,
            cols as int,
        ),
{
    let held: usize = red.len();
    let expected: usize = match cols.checked_mul(per_line_byte) {
        Some(n) => n,
        None => {
            return None;
        },
    };
    if held != expected || black.len() != expected {
        return None;
    }
    let ghost w = per_line_byte as int;
    let mut out: Vec<u8> = Vec::new();
    let mut col: usize = 0;
    let mut base: usize = 0;
    while col < cols
        invariant
            col <= cols,
            w == per_line_byte,
            base == col * w,
            expected == cols * w,
            red@.len() == expected,
            black@.len() == expected,
            out@.len() == 2 * base,
            forall|i: int|
                0 <= i < out@.len() ==> #[trigger] out@[i] == interleaved_byte(red@, black@, w, i),
        decreases cols - col,
    {
        assert(base + w <= expected && (col + 1) * w == base + w) by (nonlinear_arith)
            requires
                base == col * w,
                expected == cols * w,
                col < cols,
                w >= 0,
        ;
        let mut half: usize = 0;
        while half < 2
            invariant
                half <= 2,
                w == per_line_byte,
                base == col * w,
                base + w <= expected,
                red@.len() == expected,
                black@.len() == expected,
                out@.len() == 2 * base + half * w,
                forall|i: int|
                    0 <= i < out@.len() ==> #[trigger] out@[i] == interleaved_byte(
                        red@,
                        black@,
                        w,
                        i,
                    ),
            decreases 2 - half,
        {
            let mut j: usize = 0;
            assert(half * w == if half == 0 { 0 } else { w });
            while j < per_line_byte
                invariant
                    j <= per_line_byte,
                    half < 2,
                    w == per_line_byte,
                    base == col * w,
                    base + w <= expected,
                    red@.len() == expected,
                    black@.len() == expected,
                    out@.len() == 2 * base + half * w + j,
                    half * w == if half == 0 { 0 } else { w },
                    forall|i: int|
                        0 <= i < out@.len() ==> #[trigger] out@[i] == interleaved_byte(
                            red@,
                            black@,
                            w,
                            i,
                        ),
                decreases per_line_byte - j,
            {
                let b: u8 = if half == 0 {
                    red[base + j]
                } else {
                    black[base + j]
                };
                proof {
                    let i = out@.len() as int;
                    let at = half * w + j;
                    assert(i == col * (2 * w) + at) by (nonlinear_arith)
                        requires
                            i == 2 * base + half * w + j,
                            base == col * w,
                            at == half * w + j,
                    ;
                    vstd::arithmetic::div_mod::lemma_fundamental_div_mod_converse(
                        i,
                        2 * w,
                        col as int,
                        at,
                    );
                }
                out.push(b);
                j += 1;
            }
            half += 1;
            assert(half * w == (half - 1) * w + w) by (nonlinear_arith);
        }
        base = base + per_line_byte;
        col += 1;
    }
    assert(out@ =~= interleaved(red@, black@, w, cols as int));
    Some(out)
}

// ---------------------------------------------------------------------------
// Splitting an image into planes
// ---------------------------------------------------------------------------

/// The plane of pixel `(x, y)` of a row-major RGB image; no ink where the image
/// ends before the pixel does.
pub open spec fn ink_at(rgb: Seq<u8>, width: int, x: int, y: int) -> Option<Plane> {
    let px = (y * width + x) * 3;
    if px + 3 <= rgb.len() {
        classified(luma_of(rgb[px], rgb[px + 1], rgb[px + 2]))
    } else {
        None
    }
}

/// The eight dots of byte `k` of line `y` in one plane.
pub open spec fn plane_dots(rgb: Seq<u8>, width: int, plane: Plane, y: int, k: int) -> spec_fn(
    int,
) -> bool {
    |bit: int| 8 * k + bit < width && ink_at(rgb, width, 8 * k + bit, y) == Some(plane)
}

/// One plane of the image: line `y` holds the pixels of row `y`, lowest bit
/// first.
pub open spec fn plane_of(rgb: Seq<u8>, width: int, height: int, plane: Plane) -> Seq<u8> {
    let per_line = ceil_div(width, 8);
    Seq::new(
        (height * per_line) as nat,
        |i: int|
            packed_bits(plane_dots(rgb, width, plane, i / per_line, i % per_line), 8) as u8,
    )
}

/// The image is no larger than 32-bit pixel offsets reach.
pub open spec fn planes_addressable(width: u32, height: u32) -> bool {
    width * height > 0 ==> (width * height - 1) * 3 <= u32::MAX
}

/// One byte of one plane.
fn plane_byte(rgb: &[u8], width: u32, plane: Plane, y: u32, k: u32) -> (r: u8)
    requires
        8 * k < width,
        (y * width + (width - 1)) * 3 <= u32::MAX,
    ensures
        r == packed_bits(plane_dots(rgb@, width as int, plane, y as int, k as int), 8),
{
    let ghost dots = plane_dots(rgb@, width as int, plane, y as int, k as int);
    let mut byte: u8 = 0;
    let mut weight: u8 = 1;
    let mut bit: u32 = 0;
    proof {
        lemma_bit_weights();
    }
    while bit < 8
        invariant
            bit <= 8,
            8 * k < width,
            (y * width + (width - 1)) * 3 <= u32::MAX,
            dots == plane_dots(rgb@, width as int, plane, y as int, k as int),
            byte == packed_bits(dots, bit as int),
            bit < 8 ==> weight == bit_weight(bit as int),
        decreases 8 - bit,
    {
        proof {
            lemma_bit_weights();
            lemma_packed_bound(dots, bit as int);
        }
        let x: u64 = 8 * k as u64 + bit as u64;
        if x < width as u64 {
            assert(0 <= y * width) by (nonlinear_arith);
            let px: usize = ((y * width + x as u32) * 3) as usize;
            if px <= rgb.len() && rgb.len() - px >= 3 {
                match classify(luma(rgb[px], rgb[px + 1], rgb[px + 2])) {
                    Some(p) => {
                        if p == plane {
                            byte = byte + weight;
                        }
                    },
                    None => {},
                }
            }
        }
        bit += 1;
        if bit < 8 {
            weight = weight * 2;
        }
    }
    byte
}

/// One plane of the image, byte by byte.
fn plane_bytes(rgb: &[u8], width: u32, height: u32, plane: Plane) -> (r: Vec<u8>)
    requires
        planes_addressable(width, height),
    ensures
        r@ == plane_of(rgb@, width as int, height as int, plane),
{
    let per_line: u32 = width / 8 + if width % 8 == 0 {
        0
    } else {
        1
    };
    let ghost n = per_line as int;
    let mut out: Vec<u8> = Vec::new();
    let mut y: u32 = 0;
    while y < height
        invariant
            y <= height,
            n == per_line,
            n == ceil_div(width as int, 8),
            planes_addressable(width, height),
            out@.len() == y * n,
            forall|i: int|
                0 <= i < out@.len() ==> #[trigger] out@[i] == packed_bits(
                    plane_dots(rgb@, width as int, plane, i / n, i % n),
                    8,
                ),
        decreases height - y,
    {
        let mut k: u32 = 0;
        while k < per_line
            invariant
                y < height,
                k <= per_line,
                n == per_line,
                n == ceil_div(width as int, 8),
                planes_addressable(width, height),
                out@.len() == y * n + k,
                forall|i: int|
                    0 <= i < out@.len() ==> #[trigger] out@[i] == packed_bits(
                        plane_dots(rgb@, width as int, plane, i / n, i % n),
                        8,
                    ),
            decreases per_line - k,
        {
            proof {
                assert(y * width + (width - 1) <= width * height - 1 && width * height > 0)
                    by (nonlinear_arith)
                    requires
                        y < height,
                        width > 0,
                ;
                let i = out@.len() as int;
                assert(i == y * n + k);
                vstd::arithmetic::div_mod::lemma_fundamental_div_mod_converse(
                    i,
                    n,
                    y as int,
                    k as int,
                );
            }
            out.push(plane_byte(rgb, width, plane, y, k));
            k += 1;
        }
        assert((y + 1) * n == y * n + n) by (nonlinear_arith);
        y += 1;
    }
    assert(out@ =~= plane_of(rgb@, width as int, height as int, plane));
    out
}

/// Split an RGB image into the two column-major bitplanes the printer expects.
///
/// `rgb` is row-major `width * height * 3`; pixels past its end are blank.
/// Output planes are column-major LSB-first with `height` columns of
/// `ceil(width / 8)` bytes: a printed "column" is one printhead line.
///
/// Returns `(red, black, cols, per_line_byte)`.
pub fn rgb_to_planes(rgb: &[u8], width: u32, height: u32) -> (r: (Vec<u8>, Vec<u8>, u32, u32))
    requires
        planes_addressable(width, height),
    ensures
        r.0@ == plane_of(rgb@, width as int, height as int, Plane::Red),
        r.1@ == plane_of(rgb@, width as int, height as int, Plane::Black),
        r.2 == height,
        r.3 == ceil_div(width as int, 8),
{
    let per_line: u32 = width / 8 + if width % 8 == 0 {
        0
    } else {
        1
    };
    let red: Vec<u8> = plane_bytes(rgb, width, height, Plane::Red);
    let black: Vec<u8> = plane_bytes(rgb, width, height, Plane::Black);
    (red, black, height, per_line)
}

/// Dot `x` of line `y` in a plane of `per_line` bytes a line.
pub open spec fn dot_at(plane: Seq<u8>, per_line: int, x: int, y: int) -> bool {
    bit_of(plane[y * per_line + x / 8], x % 8)
}

/// A dot is set in the plane of its pixel's colour, at the pixel's place, and
/// nowhere else: in at most one of the planes, and never in the padding behind
/// the last pixel of a line.
pub proof fn every_dot_has_one_colour(
    rgb: Seq<u8>,
    width: int,
    height: int,
    plane: Plane,
    x: int,
    y: int,
)
    requires
        0 <= y < height,
        0 <= x < 8 * ceil_div(width, 8),
    ensures
        dot_at(plane_of(rgb, width, height, plane), ceil_div(width, 8), x, y) == (x < width
            && ink_at(rgb, width, x, y) == Some(plane)),
        !(dot_at(plane_of(rgb, width, height, Plane::Red), ceil_div(width, 8), x, y) && dot_at(
            plane_of(rgb, width, height, Plane::Black),
            ceil_div(width, 8),
            x,
            y,
        )),
{
    let n = ceil_div(width, 8);
    let k = x / 8;
    let i = y * n + k;
    assert(0 <= i < height * n) by (nonlinear_arith)
        requires
            0 <= y < height,
            0 <= k < n,
            i == y * n + k,
    ;
    vstd::arithmetic::div_mod::lemma_fundamental_div_mod_converse(i, n, y, k);
    lemma_packed_bit(plane_dots(rgb, width, plane, y, k), x % 8);
    lemma_packed_bit(plane_dots(rgb, width, Plane::Red, y, k), x % 8);
    lemma_packed_bit(plane_dots(rgb, width, Plane::Black, y, k), x % 8);
    assert(8 * k + x % 8 == x);
}

} // verus!
