//! Two-colour planes.

use supvan::twocolor::{
    classify, interleave_planes, luma, rgb_to_planes, Plane, BLACK_THRESHOLD, BLANK_THRESHOLD,
};

/// The whole reason BLACK_THRESHOLD is 48: pure red must not be classified
/// as black. If the luma coefficients ever drift, this is what catches it.
#[test]
fn pure_red_is_red() {
    assert_eq!(luma(255, 0, 0), 76);
    assert_eq!(classify(luma(255, 0, 0)), Some(Plane::Red));
}

#[test]
fn pure_black_and_white_classify() {
    assert_eq!(classify(luma(0, 0, 0)), Some(Plane::Black));
    assert_eq!(classify(luma(255, 255, 255)), None);
}

/// A luminance cut, not a hue test — mid-grey lands on red. Callers must
/// quantise first; this pins the caveat so it can't be forgotten.
#[test]
fn midgrey_lands_on_red() {
    assert_eq!(classify(luma(100, 100, 100)), Some(Plane::Red));
}

#[test]
fn threshold_boundaries() {
    assert_eq!(classify(BLANK_THRESHOLD), None);
    assert_eq!(classify(BLANK_THRESHOLD - 1), Some(Plane::Red));
    assert_eq!(classify(BLACK_THRESHOLD + 1), Some(Plane::Red));
    assert_eq!(classify(BLACK_THRESHOLD), Some(Plane::Black));
}

#[test]
fn interleave_puts_red_before_black_per_column() {
    let red = vec![0xAA, 0xBB, 0xCC, 0xDD];
    let black = vec![0x11, 0x22, 0x33, 0x44];
    let out = interleave_planes(&red, &black, 2, 2).unwrap();
    assert_eq!(out, vec![0xAA, 0xBB, 0x11, 0x22, 0xCC, 0xDD, 0x33, 0x44]);
}

#[test]
fn interleave_rejects_mismatched_planes() {
    assert!(interleave_planes(&[0; 4], &[0; 2], 2, 2).is_none());
    assert!(interleave_planes(&[0; 4], &[0; 4], 2, 3).is_none());
}

/// Red and black pixels must land in different planes at the same bit
/// position — that co-location is what makes them one dot in two colours.
#[test]
fn rgb_splits_colours_into_separate_planes() {
    // 8x1: red at x=0, black at x=1, white elsewhere.
    let mut rgb = vec![255u8; 8 * 3];
    rgb[0..3].copy_from_slice(&[255, 0, 0]);
    rgb[3..6].copy_from_slice(&[0, 0, 0]);

    let (red, black, cols, bpl) = rgb_to_planes(&rgb, 8, 1);
    assert_eq!((cols, bpl), (1, 1));
    assert_eq!(red[0], 0b0000_0001);
    assert_eq!(black[0], 0b0000_0010);
}

/// Luma agrees with single-precision arithmetic on every pixel of a grid, and
/// with it on all greys.
#[test]
fn luma_is_single_precision() {
    let by_float = |r: u8, g: u8, b: u8| -> u8 {
        let y = (r as f32) * 0.3 + (g as f32) * 0.59 + (b as f32) * 0.11;
        y as u8
    };
    for v in 0..=255u8 {
        assert_eq!(luma(v, v, v), by_float(v, v, v), "grey {v}");
    }
    for r in (0..=255u8).step_by(5) {
        for g in (0..=255u8).step_by(3) {
            for b in (0..=255u8).step_by(15) {
                assert_eq!(luma(r, g, b), by_float(r, g, b), "{r} {g} {b}");
            }
        }
    }
}

/// Luma is the weighted mean, or one less where that is whole.
#[test]
fn luma_is_the_truncated_mean() {
    assert_eq!(luma(0, 255, 0), 150);
    assert_eq!(luma(0, 0, 255), 28);
    assert_eq!(luma(240, 240, 240), 239);
    assert_eq!(luma(100, 100, 100), 100);
}

#[test]
fn interleaving_a_width_of_none_gives_nothing() {
    assert_eq!(interleave_planes(&[], &[], 0, 5), Some(vec![]));
    assert_eq!(interleave_planes(&[], &[], usize::MAX, 2), None);
}

/// Rows become lines of whole bytes, padding stays clear, and pixels past the
/// end of the picture are blank.
#[test]
fn planes_are_padded_and_cut_off() {
    let mut rgb = vec![0u8; 10 * 2 * 3];
    rgb[27..30].copy_from_slice(&[255, 0, 0]);
    let (red, black, cols, per_line) = rgb_to_planes(&rgb, 10, 2);
    assert_eq!((cols, per_line), (2, 2));
    assert_eq!(red, vec![0, 0b10, 0, 0]);
    assert_eq!(black, vec![0xFF, 0b01, 0xFF, 0b11]);
    let (red, black, _, _) = rgb_to_planes(&rgb[..33], 10, 2);
    assert_eq!(red, vec![0, 0b10, 0, 0]);
    assert_eq!(black, vec![0xFF, 0b01, 0b01, 0]);
}
