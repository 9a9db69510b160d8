//! Pages.

use supvan::buffer::Density;
use supvan::dither::{DitherMode, Ditherer};
use supvan::error::Error;
use supvan::page::{grayscale_raster, plain_page, swatch_page, test_label, two_colour_page};
use supvan::status::MaterialInfo;

fn param(text: &str) -> Error {
    Error::InvalidParam(text.to_string())
}

/// Red lines come before black ones, and both trims go out.
#[test]
fn two_colour_pages_carry_both_planes() {
    let mut rgb = vec![255u8; 8 * 20 * 3];
    // Row 8 is the first between the margins: red at 0, black at 1.
    rgb[8 * 24..8 * 24 + 6].copy_from_slice(&[255, 0, 0, 0, 0, 0]);
    let bufs = two_colour_page(&rgb, 8, 20, Density { black: 5, red: 9 }, 8).unwrap();
    assert_eq!(bufs.len(), 1);
    assert_eq!(&bufs[0][4..7], &[8, 0, 1]);
    assert_eq!((bufs[0][12], (bufs[0][3] >> 2) & 15, bufs[0][3] & 3), (9, 5, 2));
    assert_eq!(&bufs[0][14..22], &[1, 2, 0, 0, 0, 0, 0, 0]);
}

#[test]
fn two_colour_pages_need_pixels_and_room() {
    assert_eq!(
        two_colour_page(&[0; 10], 2, 2, Density::default(), 8).unwrap_err(),
        param("RGB buffer too small: 10 < 12")
    );
    assert_eq!(
        two_colour_page(&[0; 2 * 16 * 3], 2, 16, Density::default(), 8).unwrap_err(),
        param("16 rows leaves nothing after margins")
    );
    assert_eq!(
        two_colour_page(&[], 0, 3, Density::default(), 8).unwrap_err(),
        param("3 rows leaves nothing after margins")
    );
}

#[test]
fn swatches_keep_their_densities() {
    let steps = [Density::uniform(2), Density { black: 3, red: 12 }];
    let bufs = swatch_page(&steps, 30, &[0xFF; 60 * 48], 48, 20, 8).unwrap();
    assert_eq!(bufs.len(), 2);
    assert_eq!((bufs[0][12], bufs[1][12]), (2, 12));
    assert_eq!(&bufs[1][4..6], &[20, 0]);
    assert_eq!(
        swatch_page(&[], 30, &[], 48, 20, 8).unwrap_err(),
        param("no densities to sweep")
    );
    assert_eq!(
        swatch_page(&steps, 5, &[], 48, 0, 8).unwrap_err(),
        param("5mm label too short for 2 bands")
    );
}

/// A halftoned picture is its rows through one ditherer, one after another.
#[test]
fn pictures_are_halftoned_row_by_row() {
    let gray: Vec<u8> = (0..13 * 7u32).map(|i| (i * 37 % 256) as u8).collect();
    for mode in [DitherMode::Bayer, DitherMode::FloydSteinberg, DitherMode::Atkinson] {
        let mono = grayscale_raster(&gray, 13, 7, mode).unwrap();
        let mut d = Ditherer::new(mode, 13);
        for y in 0..7usize {
            let mut row = vec![0u8; 2];
            d.line(&gray[y * 13..(y + 1) * 13], y as u32, &mut row);
            assert_eq!(&mono[2 * y..2 * y + 2], &row[..]);
        }
    }
    assert_eq!(
        grayscale_raster(&gray, 13, 8, DitherMode::Bayer).unwrap_err(),
        param("grayscale buffer too small: 91 < 104")
    );
}

#[test]
fn plain_pages_are_one_density() {
    let bufs = plain_page(&[0xFF; 240 * 48], 48, 240, Density::uniform(6), 8);
    assert_eq!(bufs.len(), 3);
    assert!(bufs.iter().all(|b| b[12] == 6));
}

#[test]
fn test_labels_fit_the_head() {
    let m = MaterialInfo { width_mm: 60, height_mm: 0, ..Default::default() };
    assert_eq!(test_label(&m, 48, 30), (48, 30));
    let m = MaterialInfo { width_mm: 40, height_mm: 25, ..Default::default() };
    assert_eq!(test_label(&m, 48, 30), (40, 25));
}

/// Only the starts of the buffers have to fit sixteen bits with the margin.
#[test]
fn a_strip_may_end_past_the_margin() {
    let steps = [Density::uniform(5); 16];
    let bufs = swatch_page(&steps, 30, &[], 48, 4095, 50).unwrap();
    assert_eq!(bufs.len(), 16 * 49);
    assert_eq!(&bufs[16 * 49 - 1][4..6], &[63, 0]);
}
