//! Pages: from pictures to the print buffers that carry them.

use crate::buffer::{
    banded_buffers, chunks_tile_the_bands, columns_per_buffer, lemma_capacity, splittable,
    split_into_banded_buffers, split_into_buffers, total_cols, ColourMode, Density, DensityBand,
    PRINT_BUF_SIZE,
};
use crate::bytes::{append, ceil_div, low_byte};
use crate::compress::contents;
use crate::dither::{
    carry_after, dot, dot_placed, extremes_are_exact, msb_bit, nothing_carried, Carry, DitherMode,
    Ditherer,
};
use crate::error::Error;
use crate::status::MaterialInfo;
use crate::text::{decimal, push_decimal};
use crate::twocolor::{
    interleave_planes, interleaved, plane_of, planes_addressable, rgb_to_planes, Plane,
};
use vstd::prelude::*;

verus! {

/// `{what}: {got} < {expected}`.
pub open spec fn too_small_text(what: Seq<char>, got: nat, expected: nat) -> Seq<char> {
    what + decimal(got) + " < "@ + decimal(expected)
}

fn too_small(what: &str, got: usize, expected: usize) -> (r: Error)
    ensures
        r matches Error::InvalidParam(m) && m@ == too_small_text(
            what@,
            got as nat,
            expected as nat,
        ),
{
    let mut m: String = what.to_owned();
    push_decimal(&mut m, got as u64);
    m.append(" < ");
    push_decimal(&mut m, expected as u64);
    Error::InvalidParam(m)
}

// ---------------------------------------------------------------------------
// Two colours
// ---------------------------------------------------------------------------

/// The columns that are left between the margins, of a page of `rows` rows.
pub open spec fn printable_cols(rows: u32, margin: u16) -> int {
    let cols = (rows % 65536) as int;
    if cols < 2 * margin {
        0
    } else {
        cols - 2 * margin
    }
}

/// The buffers of a two-colour page.
pub open spec fn two_colour_buffers(
    rgb: Seq<u8>,
    width: u32,
    height: u32,
    density: Density,
    margin: u16,
) -> Seq<Seq<u8>> {
    let per_line = ceil_div(width as int, 8);
    banded_buffers(
        interleaved(
            plane_of(rgb, width as int, height as int, Plane::Red),
            plane_of(rgb, width as int, height as int, Plane::Black),
            per_line,
            height as int,
        ),
        (per_line % 256) as u8,
        seq![DensityBand { cols: printable_cols(height, margin) as u16, density }],
        margin,
        margin,
        ColourMode::TwoColour,
    )
}

proof fn lemma_one_band(band: DensityBand, per_line: u8, margin: u16, colour: ColourMode)
    requires
        per_line > 0,
        margin + band.cols <= u16::MAX,
    ensures
        splittable(per_line, seq![band], margin, colour),
{
    let bands = seq![band];
    assert(bands.drop_last() =~= Seq::<DensityBand>::empty());
    assert(total_cols(bands.drop_last()) == 0);
    assert(total_cols(bands) == band.cols);
    lemma_capacity(per_line, colour);
    chunks_tile_the_bands(bands, columns_per_buffer(per_line, colour));
}

/// The buffers of an RGB image in two-colour mode, red and black on one pass.
///
/// `rgb` is row-major `width * height * 3`. Pixels are sorted into the two
/// planes by luminance: a cut, not a hue test, so quantise to two ink colours
/// first rather than feeding a photograph. `density.red` and `density.black`
/// trim the two planes independently. `margin` is kept clear at either end.
pub fn two_colour_page(rgb: &[u8], width: u32, height: u32, density: Density, margin: u16) -> (r:
    Result<Vec<[u8; PRINT_BUF_SIZE]>, Error>)
    requires
        width * height * 3 <= usize::MAX,
        rgb@.len() >= width * height * 3 ==> planes_addressable(width, height),
        2 * margin <= u16::MAX,
        rgb@.len() >= width * height * 3 && printable_cols(height, margin) > 0 ==> ceil_div(
            width as int,
            8,
        ) % 256 > 0,
    ensures
        match r {
            Err(e) => {
                ||| rgb@.len() < width * height * 3 && (e matches Error::InvalidParam(m) && m@
                    == too_small_text(
                    "RGB buffer too small: "@,
                    rgb@.len(),
                    (width * height * 3) as nat,
                ))
                ||| rgb@.len() >= width * height * 3 && printable_cols(height, margin) == 0 && (
                e matches Error::InvalidParam(m) && m@ == decimal(height as nat)
                    + " rows leaves nothing after margins"@)
            },
            Ok(buffers) => {
                &&& rgb@.len() >= width * height * 3
                &&& printable_cols(height, margin) > 0
                &&& contents(buffers@) == two_colour_buffers(rgb@, width, height, density, margin)
            },
        },
{
    assert(0 <= width * height <= width * height * 3) by (nonlinear_arith);
    assert((width as usize) * (height as usize) * 3 == width * height * 3);
    let expected: usize = (width as usize) * (height as usize) * 3;
    if rgb.len() < expected {
        return Err(too_small("RGB buffer too small: ", rgb.len(), expected));
    }
    let (red, black, cols, per_line) = rgb_to_planes(rgb, width, height);
    assert(red@.len() == cols * per_line) by {
        assert(0 <= height * ceil_div(width as int, 8)) by (nonlinear_arith)
            requires
                0 <= ceil_div(width as int, 8),
        ;
    }
    let wire: Vec<u8> = match interleave_planes(&red, &black, per_line as usize, cols as usize) {
        Some(w) => w,
        None => {
            return Err(Error::InvalidParam("plane interleave failed".to_owned()));
        },
    };
    let rows: u16 = low_word_of(cols);
    let printable: u16 = if rows < 2 * margin {
        0
    } else {
        rows - 2 * margin
    };
    if printable == 0 {
        let mut m: String = String::new();
        push_decimal(&mut m, height as u64);
        m.append(" rows leaves nothing after margins");
        assert(m@ =~= decimal(height as nat) + " rows leaves nothing after margins"@);
        return Err(Error::InvalidParam(m));
    }
    let band: DensityBand = DensityBand { cols: printable, density };
    let bands: [DensityBand; 1] = [band];
    let line: u8 = low_byte(per_line);
    proof {
        assert(bands@ =~= seq![band]);
        lemma_one_band(band, line, margin, ColourMode::TwoColour);
    }
    let buffers: Vec<[u8; PRINT_BUF_SIZE]> = split_into_banded_buffers(
        &wire,
        line,
        &bands,
        margin,
        margin,
        ColourMode::TwoColour,
    );
    assert(contents(buffers@) =~= two_colour_buffers(rgb@, width, height, density, margin));
    Ok(buffers)
}

/// The low sixteen bits of `n`.
fn low_word_of(n: u32) -> (r: u16)
    ensures
        r == n % 65536,
{
    (n % 65536) as u16
}

// ---------------------------------------------------------------------------
// Swatches
// ---------------------------------------------------------------------------

/// One band of `cols` columns for each density, in order.
pub open spec fn swatch_bands(densities: Seq<Density>, cols: u16) -> Seq<DensityBand> {
    densities.map_values(|density: Density| DensityBand { cols, density })
}

proof fn lemma_equal_bands(bands: Seq<DensityBand>, cols: u16)
    requires
        forall|i: int| 0 <= i < bands.len() ==> (#[trigger] bands[i]).cols == cols,
    ensures
        total_cols(bands) == bands.len() * cols,
    decreases bands.len(),
{
    if bands.len() > 0 {
        lemma_equal_bands(bands.drop_last(), cols);
        assert((bands.len() - 1) * cols + cols == bands.len() * cols) by (nonlinear_arith);
    }
}

/// A strip whose columns, the margin before them among them, number at most what
/// sixteen bits hold can be split into buffers.
pub proof fn strips_that_fit_can_be_split(
    densities: Seq<Density>,
    per_line: u8,
    cols: u16,
    margin: u16,
)
    requires
        per_line > 0,
        margin + densities.len() * cols <= u16::MAX,
    ensures
        splittable(per_line, swatch_bands(densities, cols), margin, ColourMode::Mono),
{
    let bands = swatch_bands(densities, cols);
    lemma_equal_bands(bands, cols);
    lemma_capacity(per_line, ColourMode::Mono);
    chunks_tile_the_bands(bands, columns_per_buffer(per_line, ColourMode::Mono));
}

/// The buffers of one calibration strip: a solid block per entry in `densities`,
/// laid down the feed direction in order, each burned at its own density.
///
/// `image` is the strip of `densities.len()` blocks of `band_cols` columns of
/// `per_line` bytes. Each band carries its own black and red trim, so one strip
/// can walk the two against each other.
pub fn swatch_page(
    densities: &[Density],
    height_mm: u32,
    image: &[u8],
    per_line: u32,
    band_cols: u32,
    margin: u16,
) -> (r: Result<Vec<[u8; PRINT_BUF_SIZE]>, Error>)
    requires
        densities@.len() > 0 && band_cols > 0 ==> splittable(
            (per_line % 256) as u8,
            swatch_bands(densities@, (band_cols % 65536) as u16),
            margin,
            ColourMode::Mono,
        ),
    ensures
        match r {
            Err(e) => {
                ||| densities@.len() == 0 && (e matches Error::InvalidParam(m) && m@
                    == "no densities to sweep"@)
                ||| densities@.len() > 0 && band_cols == 0 && (e matches Error::InvalidParam(m)
                    && m@ == decimal(height_mm as nat) + "mm label too short for "@ + decimal(
                    densities@.len() % 0x1_0000_0000,
                ) + " bands"@)
            },
            Ok(buffers) => {
                &&& densities@.len() > 0 && band_cols > 0
                &&& contents(buffers@) == banded_buffers(
                    image@,
                    (per_line % 256) as u8,
                    swatch_bands(densities@, (band_cols % 65536) as u16),
                    margin,
                    margin,
                    ColourMode::Mono,
                )
            },
        },
{
    if densities.len() == 0 {
        return Err(Error::InvalidParam("no densities to sweep".to_owned()));
    }
    if band_cols == 0 {
        let mut m: String = String::new();
        push_decimal(&mut m, height_mm as u64);
        m.append("mm label too short for ");
        push_decimal(&mut m, densities.len() as u64 % 0x1_0000_0000);
        m.append(" bands");
        assert(m@ =~= decimal(height_mm as nat) + "mm label too short for "@ + decimal(
            densities@.len() % 0x1_0000_0000,
        ) + " bands"@);
        return Err(Error::InvalidParam(m));
    }
    let cols: u16 = low_word_of(band_cols);
    let line: u8 = low_byte(per_line);
    let mut bands: Vec<DensityBand> = Vec::new();
    let mut i: usize = 0;
    while i < densities.len()
        invariant
            i <= densities@.len(),
            bands@.len() == i,
            forall|j: int|
                0 <= j < i ==> #[trigger] bands@[j] == (DensityBand {
                    cols,
                    density: densities@[j],
                }),
        decreases densities@.len() - i,
    {
        bands.push(DensityBand { cols, density: densities[i] });
        i += 1;
    }
    proof {
        assert(bands@ =~= swatch_bands(densities@, cols));
    }
    let buffers: Vec<[u8; PRINT_BUF_SIZE]> = split_into_banded_buffers(
        image,
        line,
        &bands,
        margin,
        margin,
        ColourMode::Mono,
    );
    assert(contents(buffers@) =~= banded_buffers(
        image@,
        line,
        swatch_bands(densities@, cols),
        margin,
        margin,
        ColourMode::Mono,
    ));
    Ok(buffers)
}

// ---------------------------------------------------------------------------
// Greyscale
// ---------------------------------------------------------------------------

/// Row `y` of a picture of `width` pixels a row.
pub open spec fn row_of(gray: Seq<u8>, width: int, y: int) -> Seq<u8> {
    gray.subrange(y * width, (y + 1) * width)
}

/// The error carried into row `y`, from the rows above it.
pub open spec fn carry_into(mode: DitherMode, gray: Seq<u8>, width: int, y: int) -> Carry
    decreases y,
{
    if y <= 0 {
        nothing_carried(width)
    } else {
        carry_after(
            mode,
            width,
            row_of(gray, width, y - 1),
            carry_into(mode, gray, width, y - 1),
        )
    }
}

/// The picture is halftoned row by row: bit `k` of byte `i` of row `y` is the dot
/// that the ditherer places there.
pub open spec fn is_halftone(
    mono: Seq<u8>,
    mode: DitherMode,
    gray: Seq<u8>,
    width: int,
    rows: int,
) -> bool {
    let per_line = ceil_div(width, 8);
    &&& mono.len() == rows * per_line
    &&& forall|y: int, i: int, k: int|
        0 <= y < rows && 0 <= i < per_line && 0 <= k < 8 ==> #[trigger] msb_bit(
            mono[y * per_line + i],
            k,
        ) == dot_placed(
            mode,
            width,
            row_of(gray, width, y),
            y,
            carry_into(mode, gray, width, y),
            width,
            i,
            k,
        )
}

/// A picture that is black all over prints every dot, one that is white all over
/// none, in every mode and on every row.
pub proof fn flat_pictures_are_exact(
    mode: DitherMode,
    gray: Seq<u8>,
    width: int,
    height: int,
    w: u8,
    x: int,
    y: int,
)
    requires
        w == 0 || w == 255,
        width * height <= gray.len(),
        forall|i: int| 0 <= i < width * height ==> gray[i] == w,
        0 <= x < width,
        0 <= y < height,
    ensures
        dot(mode, width, row_of(gray, width, y), y, carry_into(mode, gray, width, y), x) == (w
            == 0),
        carry_into(mode, gray, width, y) == nothing_carried(width),
    decreases y,
{
    assert(0 <= y * width && y * width + width <= width * height && (y + 1) * width == y * width
        + width) by (nonlinear_arith)
        requires
            0 <= y < height,
            0 < width,
    ;
    let row = row_of(gray, width, y);
    assert(forall|i: int| 0 <= i < row.len() ==> row[i] == w);
    extremes_are_exact(mode, width, row, y, w, x);
    if y > 0 {
        flat_pictures_are_exact(mode, gray, width, height, w, x, y - 1);
        assert(0 <= (y - 1) * width && (y - 1) * width + width == y * width) by (nonlinear_arith)
            requires
                0 < y,
                0 < width,
        ;
        let above = row_of(gray, width, y - 1);
        assert(forall|i: int| 0 <= i < above.len() ==> above[i] == w);
        extremes_are_exact(mode, width, above, y - 1, w, x);
    }
}

/// Halftones an 8-bit greyscale picture, row-major `width * height` with black at
/// 0 and white at 255, to rows of dots, mirrored, the highest bit of each byte
/// first.
///
/// The printer has no greyscale mode, so tone is entirely a product of the
/// halftone kernel.
pub fn grayscale_raster(gray: &[u8], width: u32, height: u32, mode: DitherMode) -> (r: Result<
    Vec<u8>,
    Error,
>)
    requires
        width * height <= usize::MAX,
        gray@.len() >= width * height ==> width * height <= u32::MAX,
    ensures
        match r {
            Err(e) => gray@.len() < width * height && (e matches Error::InvalidParam(m) && m@
                == too_small_text(
                "grayscale buffer too small: "@,
                gray@.len(),
                (width * height) as nat,
            )),
            Ok(mono) => gray@.len() >= width * height && is_halftone(
                mono@,
                mode,
                gray@,
                width as int,
                height as int,
            ),
        },
{
    let expected: usize = (width as usize) * (height as usize);
    if gray.len() < expected {
        return Err(too_small("grayscale buffer too small: ", gray.len(), expected));
    }
    let per_line: usize = width as usize / 8 + if width % 8 == 0 {
        0
    } else {
        1
    };
    let ghost w = width as int;
    let ghost n = per_line as int;
    let mut mono: Vec<u8> = Vec::new();
    let mut ditherer: Ditherer = Ditherer::new(mode, width);
    let mut y: u32 = 0;
    while y < height
        invariant
            y <= height,
            w == width,
            n == per_line,
            n == ceil_div(w, 8),
            width * height <= usize::MAX,
            gray@.len() >= width * height,
            ditherer.wf(),
            ditherer.dithers() == mode,
            ditherer.dots() == w,
            ditherer.carry() == carry_into(mode, gray@, w, y as int),
            is_halftone(mono@, mode, gray@, w, y as int),
        decreases height - y,
    {
        proof {
            assert(y * w + w <= width * height && (y + 1) * w == y * w + w) by (nonlinear_arith)
                requires
                    y < height,
                    w == width,
            ;
            assert(0 <= y * w) by (nonlinear_arith)
                requires
                    w >= 0,
            ;
        }
        let from: usize = y as usize * width as usize;
        let row: &[u8] = vstd::slice::slice_subrange(gray, from, from + width as usize);
        assert(row@ =~= row_of(gray@, w, y as int));
        let mut out: Vec<u8> = zero_bytes(per_line);
        let ghost blank = out@;
        ditherer.line(row, y, &mut out);
        let ghost held = mono@;
        append(&mut mono, &out);
        proof {
            let carry = carry_into(mode, gray@, w, y as int);
            assert(held.len() == y * n);
            assert((y + 1) * n == y * n + n) by (nonlinear_arith);
            assert forall|z: int, i: int, k: int|
                0 <= z < y + 1 && 0 <= i < n && 0 <= k < 8 implies #[trigger] msb_bit(
                mono@[z * n + i],
                k,
            ) == dot_placed(
                mode,
                w,
                row_of(gray@, w, z),
                z,
                carry_into(mode, gray@, w, z),
                w,
                i,
                k,
            ) by {
                if z < y {
                    assert(z * n + i < y * n) by (nonlinear_arith)
                        requires
                            0 <= z < y,
                            0 <= i < n,
                    ;
                    assert(0 <= z * n) by (nonlinear_arith)
                        requires
                            0 <= z,
                            0 <= n,
                    ;
                    assert(mono@[z * n + i] == held[z * n + i]);
                } else {
                    assert(mono@[z * n + i] == out@[i]);
                    let m: u8 = k as u8;
                    assert(0u8 & (0x80u8 >> m) == 0) by (bit_vector);
                    assert(!msb_bit(blank[i], k));
                    assert(msb_bit(out@[i], k) == (msb_bit(blank[i], k) || dot_placed(
                        mode,
                        w,
                        row@,
                        y as int,
                        carry,
                        w,
                        i,
                        k,
                    )));
                }
            }
        }
        y += 1;
    }
    Ok(mono)
}

fn zero_bytes(n: usize) -> (r: Vec<u8>)
    ensures
        r@.len() == n,
        forall|i: int| 0 <= i < n ==> r@[i] == 0,
{
    let mut out: Vec<u8> = Vec::new();
    let mut i: usize = 0;
    while i < n
        invariant
            i <= n,
            out@.len() == i,
            forall|j: int| 0 <= j < i ==> out@[j] == 0,
        decreases n - i,
    {
        out.push(0);
        i += 1;
    }
    out
}

/// The buffers of a page of one density: `image` holds `cols` columns of
/// `per_line` bytes, with `margin` of them kept clear at either end.
pub fn plain_page(image: &[u8], per_line: u32, cols: u32, density: Density, margin: u16) -> (r: Vec<
    [u8; PRINT_BUF_SIZE],
>)
    requires
        per_line % 256 > 0,
        2 * margin <= cols % 65536,
    ensures
        contents(r@) == banded_buffers(
            image@,
            (per_line % 256) as u8,
            seq![DensityBand { cols: (cols % 65536 - 2 * margin) as u16, density }],
            margin,
            margin,
            ColourMode::Mono,
        ),
{
    let line: u8 = low_byte(per_line);
    let all: u16 = low_word_of(cols);
    let buffers: Vec<[u8; PRINT_BUF_SIZE]> = split_into_buffers(
        image,
        line,
        all,
        margin,
        margin,
        density,
        ColourMode::Mono,
    );
    assert(contents(buffers@) =~= banded_buffers(
        image@,
        line,
        seq![DensityBand { cols: (all - margin - margin) as u16, density }],
        margin,
        margin,
        ColourMode::Mono,
    ));
    buffers
}

/// The size of the label that a test pattern is drawn for, in millimetres: as
/// wide as the roll, at most as wide as the printhead, and of a standard height
/// where the roll gives none.
pub fn test_label(mat: &MaterialInfo, printhead_mm: u32, standard_height_mm: u8) -> (r: (u32, u32))
    ensures
        r.0 == if mat.width_mm < printhead_mm {
            mat.width_mm as u32
        } else {
            printhead_mm
        },
        r.1 == if mat.height_mm == 0 {
            standard_height_mm as u32
        } else {
            mat.height_mm as u32
        },
{
    (
        if (mat.width_mm as u32) < printhead_mm {
            mat.width_mm as u32
        } else {
            printhead_mm
        },
        if mat.height_mm == 0 {
            standard_height_mm as u32
        } else {
            mat.height_mm as u32
        },
    )
}

} // verus!
