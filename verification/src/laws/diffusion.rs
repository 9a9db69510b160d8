//! Error diffusion: what a pixel leaves to its neighbours, and what they make
//! of it.

use crate::dither::{
    carry_after, carry_at, dot, inks, leftover, levels_reached, no_error, nothing_carried,
    quantised, spread_row, tone, weight, Carry, DitherMode, SRGB_TO_LINEAR,
};
use crate::error::Error;
use crate::laws::tones::{has_dot, lemma_place, lemma_row};
use crate::page::{carry_into, grayscale_raster, row_of};
use crate::single::{doubled_below, lemma_alone, nearest, plus, times_sixteenths, whole, Number};
use vstd::arithmetic::power2::{lemma2_to64, lemma_pow2_adds, lemma_pow2_pos, pow2};
use vstd::prelude::*;

verus! {

/// `n` sixteenths.
pub open spec fn sixteenths(n: int) -> Number {
    Number::Finite(n * pow2(156))
}

/// The tone of a grey: that of the table, and the grey itself in the vendor's
/// mode.
pub open spec fn tone_of(mode: DitherMode, g: u8) -> int {
    if mode is Vendor16 {
        g as int
    } else {
        SRGB_TO_LINEAR@[g as int] as int
    }
}

/// What a grey leaves over on a clean page: its distance from black below 128
/// and from white above, and from the nearest multiple of 17 in the vendor's
/// mode.
pub open spec fn error_of(mode: DitherMode, g: u8) -> int {
    let t = tone_of(mode, g);
    if mode is Vendor16 {
        t - 17 * ((t + 8) / 17)
    } else if t < 128 {
        t
    } else {
        t - 255
    }
}

/// A value of `n` sixteenths prints: it is below 128, and below 127 and a half in
/// the vendor's mode, where the eighth of its levels begins.
pub open spec fn prints(mode: DitherMode, n: int) -> bool {
    if mode is Vendor16 {
        2 * n < 16 * 255
    } else {
        n < 16 * 128
    }
}

proof fn lemma_unit()
    ensures
        pow2(160) == 16 * pow2(156),
        pow2(156) > 0,
{
    lemma_pow2_adds(4, 156);
    lemma2_to64();
    lemma_pow2_pos(156);
}

proof fn lemma_exact(n: int)
    requires
        -0x100_0000 <= n <= 0x100_0000,
    ensures
        nearest(n * pow2(156)) == sixteenths(n),
{
    lemma_alone(n as i32, 156);
}

proof fn lemma_whole_is(n: int)
    ensures
        whole(n) == sixteenths(16 * n),
{
    lemma_unit();
    assert(n * (16 * pow2(156)) == (16 * n) * pow2(156)) by (nonlinear_arith);
}

proof fn lemma_plus(a: int, b: int)
    requires
        -0x10_0000 <= a <= 0x10_0000,
        -0x10_0000 <= b <= 0x10_0000,
    ensures
        plus(sixteenths(a), sixteenths(b)) == sixteenths(a + b),
{
    lemma_exact(a + b);
    assert(a * pow2(156) + b * pow2(156) == (a + b) * pow2(156)) by (nonlinear_arith);
}

proof fn lemma_share(e: int, k: int)
    requires
        -0x1000 <= e <= 0x1000,
        0 <= k <= 16,
    ensures
        times_sixteenths(sixteenths(16 * e), k) == sixteenths(k * e),
{
    let p = pow2(156) as int;
    assert(((16 * e) * p) * k == 16 * ((k * e) * p)) by (nonlinear_arith);
    assert(16 * ((k * e) * p) / 16 == (k * e) * p);
    assert(-0x1_0000 <= k * e <= 0x1_0000) by (nonlinear_arith)
        requires
            -0x1000 <= e <= 0x1000,
            0 <= k <= 16,
    ;
    lemma_exact(k * e);
}

proof fn lemma_below(s: int, n: int)
    ensures
        doubled_below(sixteenths(s), n) == (2 * s < 16 * n),
{
    lemma_unit();
    let p = pow2(156) as int;
    assert(2 * (s * p) < n * (16 * p) <==> 2 * s < 16 * n) by (nonlinear_arith)
        requires
            p > 0,
    ;
}

proof fn lemma_inks(mode: DitherMode, s: int)
    requires
        mode !is Bayer,
    ensures
        inks(mode, sixteenths(s)) == prints(mode, s),
{
    lemma_below(s, 256);
    if mode is Vendor16 {
        lemma_count(s, 15);
    }
}

/// A level is reached where the one above it is.
proof fn lemma_count(s: int, n: int)
    requires
        0 <= n <= 15,
    ensures
        0 <= levels_reached(sixteenths(s), n) <= n,
        2 * s < 16 * 255 && n >= 8 ==> levels_reached(sixteenths(s), n) <= 7,
        2 * s >= 16 * 255 ==> levels_reached(sixteenths(s), n) >= (if n < 8 {
            n
        } else {
            8
        }),
    decreases n,
{
    if n > 0 {
        lemma_count(s, n - 1);
        lemma_below(s, 34 * n - 17);
    }
}

/// Whole values reach as many levels as lie below them.
proof fn lemma_level_of(g: int, n: int)
    requires
        0 <= g <= 255,
        0 <= n <= 15,
    ensures
        levels_reached(sixteenths(16 * g), n) == if (g + 8) / 17 < n {
            (g + 8) / 17
        } else {
            n
        },
    decreases n,
{
    if n > 0 {
        lemma_level_of(g, n - 1);
        lemma_below(16 * g, 34 * n - 17);
    }
}

proof fn lemma_clean(mode: DitherMode, g: u8)
    requires
        mode !is Bayer,
    ensures
        plus(whole(tone(mode, g) as int), whole(0)) == sixteenths(16 * tone_of(mode, g)),
        leftover(mode, sixteenths(16 * tone_of(mode, g))) == sixteenths(16 * error_of(mode, g)),
        -255 <= error_of(mode, g) <= 255,
        0 <= tone_of(mode, g) <= 255,
        (g == 0 || g == 255) ==> error_of(mode, g) == 0,
{
    let t = tone_of(mode, g);
    assert(tone(mode, g) == t);
    lemma_whole_is(t);
    lemma_whole_is(0);
    lemma_plus(16 * t, 0);
    let v = sixteenths(16 * t);
    lemma_below(16 * t, 256);
    if mode is Vendor16 {
        lemma_level_of(t, 15);
    }
    let q = quantised(mode, v);
    assert(t - q == error_of(mode, g));
    lemma_whole_is(-q);
    lemma_plus(16 * t, -16 * q);
}

proof fn lemma_zero_row(width: int, c: int)
    requires
        0 <= c < width,
    ensures
        no_error(width)[c] == sixteenths(0),
{
    lemma_whole_is(0);
}

/// The shares of an error in sixteenths, by how far to the right and below.
pub open spec fn share(mode: DitherMode, dx: int, dy: int) -> int {
    if mode is FloydSteinberg {
        if dy == 0 && dx == 1 {
            7
        } else if dy == 1 && dx == -1 {
            3
        } else if dy == 1 && dx == 0 {
            5
        } else if dy == 1 && dx == 1 {
            1
        } else {
            0
        }
    } else if mode is Atkinson {
        if (dy == 0 && (dx == 1 || dx == 2)) || (dy == 1 && (dx == -1 || dx == 0 || dx == 1)) || (dy
            == 2 && dx == 0) {
            2
        } else {
            0
        }
    } else if mode is Vendor16 {
        if dy == 0 && dx == 1 {
            5
        } else if dy == 1 && dx == -1 {
            3
        } else if dy == 1 && dx == 0 {
            6
        } else if dy == 1 && dx == 1 {
            1
        } else {
            0
        }
    } else {
        0
    }
}

proof fn lemma_spread_clean(mode: DitherMode, width: int, x: int, dy: int, e: int, c: int)
    requires
        -255 <= e <= 255,
        0 <= c < width,
        mode !is Bayer,
        0 <= dy <= 2,
    ensures
        spread_row(mode, no_error(width), x, dy, sixteenths(16 * e))[c] == sixteenths(
            share(mode, c - x, dy) * e,
        ),
        -4080 <= share(mode, c - x, dy) * e <= 4080,
{
    let k = share(mode, c - x, dy);
    assert(weight(mode, c - x, dy) == k);
    lemma_zero_row(width, c);
    assert(-4080 <= k * e <= 4080) by (nonlinear_arith)
        requires
            -255 <= e <= 255,
            0 <= k <= 16,
    ;
    assert(0 * e == 0);
    if k > 0 {
        lemma_share(e, k);
        lemma_plus(0, k * e);
    }
}

/// Black and white pixels at the start of a line leave the page clean.
proof fn lemma_clean_start(mode: DitherMode, width: int, line: Seq<u8>, x: int)
    requires
        mode !is Bayer,
        0 <= x <= line.len(),
        x <= width,
        forall|i: int| 0 <= i < x ==> line[i] == 0 || line[i] == 255,
    ensures
        carry_at(mode, line, nothing_carried(width), x) == nothing_carried(width),
    decreases x,
{
    if x > 0 {
        lemma_clean_start(mode, width, line, x - 1);
        let g = line[x - 1];
        lemma_clean(mode, g);
        lemma_zero_row(width, x - 1);
        lemma_whole_is(0);
        let none = no_error(width);
        assert forall|dy: int, c: int| 0 <= dy <= 2 && 0 <= c < width implies #[trigger] spread_row(
            mode,
            none,
            x - 1,
            dy,
            sixteenths(0),
        )[c] == none[c] by {
            lemma_spread_clean(mode, width, x - 1, dy, 0, c);
            lemma_zero_row(width, c);
            assert(share(mode, c - (x - 1), dy) * 0 == 0);
        }
        assert(spread_row(mode, none, x - 1, 0, sixteenths(0)) =~= none);
        assert(spread_row(mode, none, x - 1, 1, sixteenths(0)) =~= none);
        assert(spread_row(mode, none, x - 1, 2, sixteenths(0)) =~= none);
    }
}

/// A pixel shares its error among its neighbours as its kernel says: where all
/// before it are black or white, each neighbour has its sixteenths of it, and no
/// other place has any.
pub proof fn a_pixel_shares_its_error(mode: DitherMode, width: int, line: Seq<u8>, x: int, c: int)
    requires
        mode !is Bayer,
        0 <= x < line.len(),
        x < width,
        0 <= c < width,
        forall|i: int| 0 <= i < x ==> line[i] == 0 || line[i] == 255,
    ensures
        ({
            let e = error_of(mode, line[x]);
            let carry = carry_at(mode, line, nothing_carried(width), x + 1);
            &&& carry.now.len() == width && carry.next.len() == width && carry.after.len() == width
            &&& carry.now[c] == sixteenths(share(mode, c - x, 0) * e)
            &&& carry.next[c] == sixteenths(share(mode, c - x, 1) * e)
            &&& carry.after[c] == sixteenths(share(mode, c - x, 2) * e)
        }),
{
    let e = error_of(mode, line[x]);
    lemma_clean_start(mode, width, line, x);
    lemma_clean(mode, line[x]);
    lemma_zero_row(width, x);
    lemma_whole_is(0);
    lemma_spread_clean(mode, width, x, 0, e, c);
    lemma_spread_clean(mode, width, x, 1, e, c);
    lemma_spread_clean(mode, width, x, 2, e, c);
}

/// The error of the last pixel of a line waits for the rows below: one row down,
/// two rows down, and none further.
pub proof fn errors_wait_for_the_rows_below(
    mode: DitherMode,
    width: int,
    line: Seq<u8>,
    x: int,
    c: int,
)
    requires
        mode !is Bayer,
        line.len() == x + 1,
        0 <= x < width,
        0 <= c < width,
        forall|i: int| 0 <= i < x ==> line[i] == 0 || line[i] == 255,
    ensures
        ({
            let e = error_of(mode, line[x]);
            let carry = carry_after(mode, width, line, nothing_carried(width));
            &&& carry.now[c] == sixteenths(share(mode, c - x, 1) * e)
            &&& carry.next[c] == sixteenths(share(mode, c - x, 2) * e)
            &&& carry.after[c] == sixteenths(0)
        }),
{
    a_pixel_shares_its_error(mode, width, line, x, c);
    lemma_zero_row(width, c);
}

/// A pixel prints by its tone and the error that reached it, added up.
pub proof fn pixels_print_by_tone_and_error(
    mode: DitherMode,
    width: int,
    line: Seq<u8>,
    y: int,
    carry: Carry,
    x: int,
    n: int,
)
    requires
        mode !is Bayer,
        0 <= x < line.len(),
        x < width,
        carry_at(mode, line, carry, x).now[x] == sixteenths(n),
        -0x1_0000 <= n <= 0x1_0000,
    ensures
        dot(mode, width, line, y, carry, x) == prints(mode, 16 * tone_of(mode, line[x]) + n),
{
    let t = tone_of(mode, line[x]);
    lemma_clean(mode, line[x]);
    lemma_whole_is(t);
    lemma_plus(16 * t, n);
    lemma_inks(mode, 16 * t + n);
}

/// The first pixel of a picture prints by its tone alone; the second by its tone
/// and its share of what the first left over.
pub proof fn the_second_pixel_has_its_share_of_the_first(
    gray: &[u8],
    width: u32,
    height: u32,
    mode: DitherMode,
    mono: Vec<u8>,
)
    requires
        mode !is Bayer,
        call_ensures(
            grayscale_raster,
            (gray, width, height, mode),
            Ok::<Vec<u8>, Error>(mono),
        ),
        width >= 2,
        height >= 1,
    ensures
        has_dot(mono@, (width + 7) / 8, width - 1, 0) == prints(mode, 16 * tone_of(mode, gray@[0])),
        has_dot(mono@, (width + 7) / 8, width - 2, 0) == prints(
            mode,
            16 * tone_of(mode, gray@[1]) + share(mode, 1, 0) * error_of(mode, gray@[0]),
        ),
{
    let w = width as int;
    let row = row_of(gray@, w, 0);
    lemma_place(gray, width, height, mode, mono, w - 1, 0);
    lemma_place(gray, width, height, mode, mono, w - 2, 0);
    lemma_row(gray@, w, height as int, 0, 0);
    lemma_row(gray@, w, height as int, 1, 0);
    lemma_clean_start(mode, w, row, 0);
    lemma_zero_row(w, 0);
    pixels_print_by_tone_and_error(mode, w, row, 0, nothing_carried(w), 0, 0);
    a_pixel_shares_its_error(mode, w, row, 0, 1);
    let e = error_of(mode, gray@[0]);
    lemma_clean(mode, gray@[0]);
    let n = share(mode, 1, 0) * e;
    assert(-4080 <= n <= 4080) by (nonlinear_arith)
        requires
            n == share(mode, 1, 0) * e,
            -255 <= e <= 255,
            0 <= share(mode, 1, 0) <= 16,
    ;
    pixels_print_by_tone_and_error(mode, w, row, 0, nothing_carried(w), 1, n);
}

/// In a picture one pixel wide, the pixel of the second row prints by its tone
/// and its share of what the first left over.
pub proof fn the_row_below_has_its_share_of_the_first(
    gray: &[u8],
    height: u32,
    mode: DitherMode,
    mono: Vec<u8>,
)
    requires
        mode !is Bayer,
        call_ensures(
            grayscale_raster,
            (gray, 1u32, height, mode),
            Ok::<Vec<u8>, Error>(mono),
        ),
        height >= 2,
    ensures
        has_dot(mono@, 1, 0, 0) == prints(mode, 16 * tone_of(mode, gray@[0])),
        has_dot(mono@, 1, 0, 1) == prints(
            mode,
            16 * tone_of(mode, gray@[1]) + share(mode, 0, 1) * error_of(mode, gray@[0]),
        ),
{
    lemma_place(gray, 1, height, mode, mono, 0, 0);
    lemma_place(gray, 1, height, mode, mono, 0, 1);
    lemma_row(gray@, 1, height as int, 0, 0);
    lemma_row(gray@, 1, height as int, 0, 1);
    let first = row_of(gray@, 1, 0);
    let second = row_of(gray@, 1, 1);
    lemma_zero_row(1, 0);
    pixels_print_by_tone_and_error(mode, 1, first, 0, nothing_carried(1), 0, 0);
    errors_wait_for_the_rows_below(mode, 1, first, 0, 0);
    let carry = carry_into(mode, gray@, 1, 1);
    assert(carry_into(mode, gray@, 1, 0) == nothing_carried(1));
    assert(carry == carry_after(mode, 1, first, nothing_carried(1)));
    let e = error_of(mode, gray@[0]);
    lemma_clean(mode, gray@[0]);
    let n = share(mode, 0, 1) * e;
    assert(-4080 <= n <= 4080) by (nonlinear_arith)
        requires
            n == share(mode, 0, 1) * e,
            -255 <= e <= 255,
            0 <= share(mode, 0, 1) <= 16,
    ;
    assert(carry_at(mode, second, carry, 0) == carry);
    pixels_print_by_tone_and_error(mode, 1, second, 1, carry, 0, n);
}

} // verus!
