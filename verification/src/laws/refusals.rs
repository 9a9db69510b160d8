//! What is refused, exactly when, and with what words.

use crate::buffer::Density;
use crate::dither::DitherMode;
use crate::error::Error;
use crate::page::{grayscale_raster, swatch_page, two_colour_page};
use crate::rfid::RfidMaterial;
use crate::server::{apply_media, MediaPlan};
use crate::status::MaterialInfo;
use crate::text::decimal;
use crate::twocolor::interleave_planes;
use vstd::prelude::*;

verus! {

/// A greyscale picture is refused exactly where it has fewer pixels than its
/// size says.
pub proof fn short_pictures_are_refused(
    gray: &[u8],
    width: u32,
    height: u32,
    mode: DitherMode,
    r: Result<Vec<u8>, Error>,
)
    requires
        call_ensures(grayscale_raster, (gray, width, height, mode), r),
    ensures
        r is Err <==> gray@.len() < width * height,
        r matches Err(e) ==> (e matches Error::InvalidParam(m) && m@
            == "grayscale buffer too small: "@ + decimal(gray@.len()) + " < "@ + decimal(
            (width * height) as nat,
        )),
{
}

/// A two-colour picture is refused exactly where it has fewer bytes than three
/// for each pixel, or where the margins leave no row.
pub proof fn pictures_within_the_margins_are_refused(
    rgb: &[u8],
    width: u32,
    height: u32,
    density: Density,
    margin: u16,
    r: Result<Vec<[u8; 4096]>, Error>,
)
    requires
        call_ensures(two_colour_page, (rgb, width, height, density, margin), r),
    ensures
        r is Err <==> rgb@.len() < width * height * 3 || height % 65536 <= 2 * margin,
        rgb@.len() < width * height * 3 ==> (r matches Err(Error::InvalidParam(m)) && m@
            == "RGB buffer too small: "@ + decimal(rgb@.len()) + " < "@ + decimal(
            (width * height * 3) as nat,
        )),
        rgb@.len() >= width * height * 3 && height % 65536 <= 2 * margin ==> (r matches Err(
            Error::InvalidParam(m),
        ) && m@ == decimal(height as nat) + " rows leaves nothing after margins"@),
{
}

/// A calibration strip is refused exactly where there is nothing to burn or no
/// column to burn it in.
pub proof fn empty_strips_are_refused(
    densities: &[Density],
    height_mm: u32,
    image: &[u8],
    per_line: u32,
    band_cols: u32,
    margin: u16,
    r: Result<Vec<[u8; 4096]>, Error>,
)
    requires
        call_ensures(
            swatch_page,
            (densities, height_mm, image, per_line, band_cols, margin),
            r,
        ),
    ensures
        r is Err <==> densities@.len() == 0 || band_cols == 0,
        densities@.len() == 0 ==> (r matches Err(Error::InvalidParam(m)) && m@
            == "no densities to sweep"@),
        0 < densities@.len() < 0x1_0000_0000 && band_cols == 0 ==> (r matches Err(
            Error::InvalidParam(m),
        ) && m@ == decimal(height_mm as nat) + "mm label too short for "@ + decimal(
            densities@.len(),
        ) + " bands"@),
{
}

/// Planes are interleaved exactly where both hold the lines of every column.
pub proof fn planes_of_other_sizes_are_refused(
    red: &[u8],
    black: &[u8],
    per_line: usize,
    cols: usize,
    r: Option<Vec<u8>>,
)
    requires
        call_ensures(interleave_planes, (red, black, per_line, cols), r),
    ensures
        r is None <==> red@.len() != cols * per_line || black@.len() != red@.len(),
{
}

/// `q` is the size in whole millimetres, cut toward zero.
pub open spec fn is_cut_to(hmm: int, q: int) -> bool {
    if hmm >= 0 {
        100 * q <= hmm < 100 * q + 100
    } else {
        100 * q - 100 < hmm <= 100 * q
    }
}

/// A size that is set is cut to whole millimetres, of which a record holds the
/// low eight bits.
pub proof fn sizes_are_cut_to_whole_millimetres(
    current: Option<&MaterialInfo>,
    size: [i32; 2],
    heat: (u16, u16),
    w: RfidMaterial,
    a: int,
    b: int,
)
    requires
        call_ensures(apply_media, (current, size, heat), MediaPlan::Write(w)),
        is_cut_to(size@[0] as int, a),
        is_cut_to(size@[1] as int, b),
    ensures
        (a - w.width_mm) % 256 == 0,
        (b - w.length_mm) % 256 == 0,
{
}

/// What is written of media that an operator set is, but for size, heat, gap and
/// type, the record of unbranded stock.
pub proof fn the_rest_of_the_record_is_unbranded(
    current: Option<&MaterialInfo>,
    size: [i32; 2],
    heat: (u16, u16),
    w: RfidMaterial,
    d: RfidMaterial,
)
    requires
        call_ensures(apply_media, (current, size, heat), MediaPlan::Write(w)),
        call_ensures(<RfidMaterial as Default>::default, (), d),
    ensures
        w == (RfidMaterial {
            width_mm: w.width_mm,
            length_mm: w.length_mm,
            heat_time_5: w.heat_time_5,
            heat_time_40: w.heat_time_40,
            gap_mm: w.gap_mm,
            mat_type: w.mat_type,
            ..d
        }),
{
}

/// A roll that is left alone is named with its identifier and its size.
pub proof fn refused_rolls_are_named(
    m: &MaterialInfo,
    size: [i32; 2],
    heat: (u16, u16),
    text: String,
)
    requires
        call_ensures(apply_media, (Some(m), size, heat), MediaPlan::Refuse(text)),
    ensures
        ("a genuine RFID roll is loaded (UUID "@ + m.uuid@ + ", "@ + decimal(m.width_mm as nat)
            + "x"@ + decimal(m.height_mm as nat) + "mm)"@).is_prefix_of(text@),
{
    reveal_strlit("mm)");
    reveal_strlit(
        "mm) and describes itself — its own geometry is authoritative. Only unreadable or blank stock can be set here.",
    );
    let front = "a genuine RFID roll is loaded (UUID "@ + m.uuid@ + ", "@ + decimal(
        m.width_mm as nat,
    ) + "x"@ + decimal(m.height_mm as nat);
    let all =
        "mm) and describes itself — its own geometry is authoritative. Only unreadable or blank stock can be set here."@;
    assert(all.take(3) =~= "mm)"@);
    assert(text@ == front + all);
    let n = front.len() as int + 3;
    assert(text@.take(n) =~= front + all.take(3));
}

} // verus!
