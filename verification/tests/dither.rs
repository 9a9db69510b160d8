//! Halftoning.

use supvan::dither::{DitherMode, Ditherer, SRGB_TO_LINEAR};

fn dither_once(mode: DitherMode, line: &[u8], width: u32) -> Vec<u8> {
    let mut d = Ditherer::new(mode, width);
    let mut mono = vec![0u8; width.div_ceil(8) as usize];
    d.line(line, 0, &mut mono);
    mono
}

fn bits(mono: &[u8]) -> u32 {
    mono.iter().map(|b| b.count_ones()).sum()
}

/// Solid black and solid white must be exact in every mode — a kernel that
/// smears error into the extremes would speckle large flat areas.
#[test]
fn extremes_are_exact_in_every_mode() {
    for mode in [
        DitherMode::Bayer,
        DitherMode::FloydSteinberg,
        DitherMode::Atkinson,
        DitherMode::Vendor16,
    ] {
        assert_eq!(dither_once(mode, &[0x00; 8], 8)[0], 0xFF, "{mode:?} black");
        assert_eq!(dither_once(mode, &[0xFF; 8], 8)[0], 0x00, "{mode:?} white");
    }
}

/// The thermal LUT pushes mid-tones well under 50% coverage to compensate
/// for dot spread. Vendor16 is excluded: it deliberately skips the LUT.
#[test]
fn midtone_is_lighter_than_half_with_thermal_compensation() {
    for mode in [
        DitherMode::Bayer,
        DitherMode::FloydSteinberg,
        DitherMode::Atkinson,
    ] {
        let mut d = Ditherer::new(mode, 32);
        let mut total = 0;
        for y in 0..4 {
            let mut mono = vec![0u8; 4];
            d.line(&[0x80; 32], y, &mut mono);
            total += bits(&mono);
        }
        assert!(
            total > 8 && total < 64,
            "{mode:?}: expected well under 50% of 128, got {total}"
        );
    }
}

/// Error diffusion is meaningless without carry between rows; a uniform
/// mid-tone must not repeat the identical pattern every line the way an
/// ordered kernel does.
#[test]
fn diffusion_carries_error_between_rows() {
    let mut d = Ditherer::new(DitherMode::FloydSteinberg, 32);
    let mut rows = Vec::new();
    for y in 0..4 {
        let mut mono = vec![0u8; 4];
        d.line(&[0x60; 32], y, &mut mono);
        rows.push(mono);
    }
    assert!(
        rows.iter().any(|r| *r != rows[0]),
        "all rows identical — error is not carrying"
    );
}

/// Bayer is stateless, so the same input and y must always give the same
/// output regardless of what came before.
#[test]
fn bayer_is_stateless() {
    let mut d = Ditherer::new(DitherMode::Bayer, 32);
    let mut first = vec![0u8; 4];
    d.line(&[0x80; 32], 0, &mut first);
    for y in 1..5 {
        d.line(&[0x40; 32], y, &mut [0u8; 4]);
    }
    let mut again = vec![0u8; 4];
    d.line(&[0x80; 32], 0, &mut again);
    assert_eq!(first, again);
}

/// Output is mirrored horizontally for the printhead: ink on the left of
/// the input must land on the right of the packed byte.
#[test]
fn output_is_mirrored() {
    let mut line = [0xFFu8; 8];
    line[0] = 0x00; // black at the far left
    let mono = dither_once(DitherMode::Bayer, &line, 8);
    assert_eq!(mono[0], 0x01, "leftmost input pixel should be the LSB");
}

#[test]
fn mode_names_round_trip() {
    for name in DitherMode::NAMES {
        let mode: DitherMode = name.parse().unwrap();
        assert_eq!(
            format!("{mode:?}").to_lowercase().replace('-', ""),
            name.replace('-', "")
        );
    }
    assert_eq!(
        "fs".parse::<DitherMode>().unwrap(),
        DitherMode::FloydSteinberg
    );
    assert!("nope".parse::<DitherMode>().is_err());
}

#[test]
fn non_multiple_of_eight_width_does_not_panic() {
    let mono = dither_once(DitherMode::Atkinson, &[0x80; 13], 13);
    assert_eq!(mono.len(), 2);
}

#[test]
fn unknown_modes_are_named() {
    let err = "nope".parse::<DitherMode>().unwrap_err();
    assert_eq!(err, "unknown dither `nope` (bayer|floyd-steinberg|atkinson|vendor16)");
    assert_eq!(DitherMode::default(), DitherMode::Bayer);
    assert_eq!(Ditherer::new(DitherMode::Atkinson, 8).mode(), DitherMode::Atkinson);
}

/// Dots are added to what the line holds, and a line shorter than the width
/// leaves its far end alone.
#[test]
fn dots_are_added() {
    let mut d = Ditherer::new(DitherMode::Bayer, 10);
    let mut mono = [0x20u8, 0x3F];
    d.line(&[0x00, 0x00], 0, &mut mono);
    assert_eq!(mono, [0x20, 0xFF]);
}

#[test]
fn ordered_dithering_follows_the_matrix() {
    let mut d = Ditherer::new(DitherMode::Bayer, 4);
    // The table maps 128 to 188: below 200 and 232 only.
    assert_eq!(SRGB_TO_LINEAR[128], 188);
    let mut mono = [0u8];
    d.line(&[128; 4], 1, &mut mono);
    assert_eq!(mono[0], 0b1010_0000);
    let mut again = [0u8];
    d.line(&[128; 4], 5, &mut again);
    assert_eq!(again, mono);
}

/// A plain floating-point error diffusion to hold the ditherer against.
struct Floats {
    mode: DitherMode,
    width: usize,
    err: [Vec<f32>; 3],
    row: usize,
}

impl Floats {
    fn new(mode: DitherMode, width: usize) -> Self {
        Floats { mode, width, err: [vec![0.0; width], vec![0.0; width], vec![0.0; width]], row: 0 }
    }

    fn line(&mut self, line: &[u8], mono: &mut [u8]) {
        let kernel: Vec<(i32, usize, f32)> = match self.mode {
            DitherMode::FloydSteinberg => vec![
                (1, 0, 7.0 / 16.0),
                (-1, 1, 3.0 / 16.0),
                (0, 1, 5.0 / 16.0),
                (1, 1, 1.0 / 16.0),
            ],
            DitherMode::Atkinson => vec![
                (1, 0, 0.125),
                (2, 0, 0.125),
                (-1, 1, 0.125),
                (0, 1, 0.125),
                (1, 1, 0.125),
                (0, 2, 0.125),
            ],
            _ => vec![(1, 0, 0.3125), (-1, 1, 0.1875), (0, 1, 0.375), (1, 1, 0.0625)],
        };
        for x in 0..self.width.min(line.len()) {
            let vendor = self.mode == DitherMode::Vendor16;
            let source = if vendor {
                line[x] as f32
            } else {
                SRGB_TO_LINEAR[line[x] as usize] as f32
            };
            let value = source + self.err[self.row][x];
            let (grey, ink) = if vendor {
                let level = (value / 17.0).round().clamp(0.0, 15.0);
                (level * 17.0, level * 17.0 < 125.0)
            } else if value < 128.0 {
                (0.0, true)
            } else {
                (255.0, false)
            };
            if ink {
                let mx = self.width - 1 - x;
                mono[mx / 8] |= 0x80 >> (mx & 7);
            }
            let error = value - grey;
            for &(dx, dy, w) in &kernel {
                let nx = x as i32 + dx;
                if nx >= 0 && (nx as usize) < self.width {
                    self.err[(self.row + dy) % 3][nx as usize] += error * w;
                }
            }
        }
        self.err[self.row].fill(0.0);
        self.row = (self.row + 1) % 3;
    }
}

/// Error diffusion gives dot for dot what single-precision arithmetic gives, on
/// noise, on ramps, and where errors fade out over long black runs.
#[test]
fn diffusion_is_single_precision() {
    let width = 97;
    for mode in [DitherMode::FloydSteinberg, DitherMode::Atkinson, DitherMode::Vendor16] {
        let mut ours = Ditherer::new(mode, width as u32);
        let mut floats = Floats::new(mode, width);
        let mut seed = 0x1234_5678u32;
        for y in 0..60usize {
            let line: Vec<u8> = (0..width)
                .map(|x| {
                    seed = seed.wrapping_mul(1664525).wrapping_add(1013904223);
                    match y % 4 {
                        0 => (seed >> 24) as u8,
                        1 => (x * 255 / width) as u8,
                        2 => if x < 3 { 0x55 } else { 0 },
                        _ => ((seed >> 28) * 17) as u8,
                    }
                })
                .collect();
            let mut a = vec![0u8; 13];
            let mut b = vec![0u8; 13];
            ours.line(&line, y as u32, &mut a);
            floats.line(&line, &mut b);
            assert_eq!(a, b, "{mode:?} row {y}");
        }
    }
}
