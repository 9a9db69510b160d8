//! Print buffers: layout, checksum, splitting.

use supvan::buffer::{
    build_page_reg_bits, build_print_buffer, split_into_banded_buffers, split_into_buffers,
    ColourMode, Density, DensityBand, PageRegBits, PrintBufferParams, MAX_BUF_DATA,
    PRINT_BUF_HEADER,
};

#[test]
fn test_build_page_reg_bits_defaults() {
    let bits = build_page_reg_bits(&PageRegBits {
        nodu: 4,
        mat: 1,
        ..Default::default()
    });
    // b0: no flags, cut=0, savepaper=0 -> 0x00
    assert_eq!(bits[0], 0x00);
    // b1: first_cut=0, nodu=4 (<<2 = 0x10), mat=1 (<<6 = 0x40) -> 0x50
    assert_eq!(bits[1], 0x50);
}

#[test]
fn test_build_page_reg_bits_first_last() {
    let bits = build_page_reg_bits(&PageRegBits {
        page_st: true,
        page_end: true,
        prt_end: true,
        nodu: 4,
        mat: 1,
        ..Default::default()
    });
    // b0: PageSt=0x02, PageEnd=0x04, PrtEnd=0x08 = 0x0E
    assert_eq!(bits[0], 0x0E);
    assert_eq!(bits[1], 0x50);
}

#[test]
fn test_build_print_buffer_checksum() {
    let data = vec![0u8; 84 * 48]; // 84 cols * 48 bytes/line
    let buf = build_print_buffer(&PrintBufferParams {
        image_data: &data,
        per_line_byte: 48,
        cols_in_buf: 84,
        page_st: true,
        page_end: true,
        prt_end: true,
        margin_top: 8,
        margin_bottom: 8,
        density: Density::uniform(4),
        colour: ColourMode::Mono,
    });
    // Verify buffer structure
    assert_eq!(buf[6], 48); // bytes per line
    assert_eq!(buf[4], 84); // cols low
    assert_eq!(buf[5], 0); // cols high
    assert_eq!(buf[8], 8); // margin top
    assert_eq!(buf[12], 4); // density
    // Checksum should be non-zero (at least header bytes contribute)
    let chk = buf[0] as u16 | ((buf[1] as u16) << 8);
    assert!(chk > 0);
}

#[test]
fn test_split_into_buffers() {
    // 48 bytes/line, total 240 cols, margins 8+8 = 224 image cols
    // max_cols = 4074/48 = 84
    // 224 / 84 = 2 full + 56 remainder = 3 buffers
    let per_line_byte = 48u8;
    let total_cols = 240u16;
    let image_data = vec![0u8; total_cols as usize * per_line_byte as usize];
    let bufs = split_into_buffers(
        &image_data,
        per_line_byte,
        total_cols,
        8,
        8,
        Density::uniform(4),
        ColourMode::Mono,
    );
    assert_eq!(bufs.len(), 3);
}

/// Each band's density must land in its own buffer header, and only the
/// first/last buffer of the whole strip carry the page flags.
#[test]
fn banded_split_keeps_per_band_density() {
    let per_line_byte = 48u8;
    let image_data = vec![0u8; 240 * per_line_byte as usize];
    let bands = [
        DensityBand {
            cols: 40,
            density: Density::uniform(2),
        },
        DensityBand {
            cols: 40,
            density: Density::uniform(9),
        },
        DensityBand {
            cols: 40,
            density: Density::uniform(15),
        },
    ];
    let bufs =
        split_into_banded_buffers(&image_data, per_line_byte, &bands, 8, 8, ColourMode::Mono);

    assert_eq!(bufs.len(), 3);
    assert_eq!([bufs[0][12], bufs[1][12], bufs[2][12]], [2, 9, 15]);
    // PageSt (0x02) on the first only; PageEnd|PrtEnd (0x0C) on the last only.
    assert_eq!(bufs[0][2] & 0x02, 0x02);
    assert_eq!(bufs[1][2] & 0x0E, 0);
    assert_eq!(bufs[2][2] & 0x0C, 0x0C);
}

/// A band wider than one buffer splits, and every piece keeps its density.
#[test]
fn banded_split_subdivides_oversized_band() {
    let per_line_byte = 48u8; // max_cols = 4074/48 = 84
    let image_data = vec![0u8; 400 * per_line_byte as usize];
    let bands = [DensityBand {
        cols: 200,
        density: Density::uniform(7),
    }];
    let bufs =
        split_into_banded_buffers(&image_data, per_line_byte, &bands, 8, 8, ColourMode::Mono);

    assert_eq!(bufs.len(), 3); // 84 + 84 + 32
    assert!(bufs.iter().all(|b| b[12] == 7));
    assert_eq!(u16::from_le_bytes([bufs[2][4], bufs[2][5]]), 32);
}

/// Black and red are separate knobs in separate header fields: black in the
/// PAGE_REG_BITS `nodu` bits, red in `buf[12]`. Driving them in lockstep was
/// the bug this type exists to prevent.
#[test]
fn black_and_red_land_in_different_fields() {
    let data = vec![0u8; 84 * 48];
    let buf = build_print_buffer(&PrintBufferParams {
        image_data: &data,
        per_line_byte: 48,
        cols_in_buf: 84,
        page_st: true,
        page_end: true,
        prt_end: true,
        margin_top: 8,
        margin_bottom: 8,
        density: Density { black: 3, red: 12 },
        colour: ColourMode::Mono,
    });
    assert_eq!(buf[12], 12); // red deepness
    assert_eq!((buf[3] >> 2) & 0x0F, 3); // nodu = black
}

/// Two-colour advertises twice the printed columns and sets first_cut=2;
/// mono touches neither. Both are how the firmware tells the modes apart.
#[test]
fn two_colour_doubles_columns_and_flags_first_cut() {
    let per_line_byte = 48u8;
    let cols = 40u16;
    // Two planes per column, so twice the image bytes.
    let image_data = vec![0u8; (cols as usize + 8) * per_line_byte as usize * 2];
    let bands = [DensityBand {
        cols,
        density: Density { black: 5, red: 9 },
    }];

    let two = split_into_banded_buffers(
        &image_data,
        per_line_byte,
        &bands,
        8,
        8,
        ColourMode::TwoColour,
    );
    assert_eq!(u16::from_le_bytes([two[0][4], two[0][5]]), cols * 2);
    assert_eq!(two[0][3] & 0x03, 2); // first_cut
    assert_eq!(two[0][12], 9); // red trim survives
    assert_eq!((two[0][3] >> 2) & 0x0F, 5); // black trim survives

    let mono =
        split_into_banded_buffers(&image_data, per_line_byte, &bands, 8, 8, ColourMode::Mono);
    assert_eq!(u16::from_le_bytes([mono[0][4], mono[0][5]]), cols);
    assert_eq!(mono[0][3] & 0x03, 0);
}

/// Each column costs two planes, so a buffer holds half as many of them.
#[test]
fn two_colour_halves_buffer_capacity() {
    let per_line_byte = 48u8; // mono max_cols = 4074/48 = 84 → two-colour 42
    let cols = 100u16;
    let image_data = vec![0u8; (cols as usize + 16) * per_line_byte as usize * 2];
    let bands = [DensityBand {
        cols,
        density: Density::uniform(4),
    }];

    let bufs = split_into_banded_buffers(
        &image_data,
        per_line_byte,
        &bands,
        8,
        8,
        ColourMode::TwoColour,
    );
    assert_eq!(bufs.len(), 3); // 42 + 42 + 16
    assert_eq!(u16::from_le_bytes([bufs[0][4], bufs[0][5]]), 42 * 2);
    assert_eq!(u16::from_le_bytes([bufs[2][4], bufs[2][5]]), 16 * 2);
}

/// The single-density entry point is the banded one with one band, so the
/// two must agree exactly.
#[test]
fn plain_split_matches_single_band() {
    let per_line_byte = 48u8;
    let image_data = vec![0xA5u8; 240 * per_line_byte as usize];
    let plain = split_into_buffers(
        &image_data,
        per_line_byte,
        240,
        8,
        8,
        Density::uniform(4),
        ColourMode::Mono,
    );
    let banded = split_into_banded_buffers(
        &image_data,
        per_line_byte,
        &[DensityBand {
            cols: 224,
            density: Density::uniform(4),
        }],
        8,
        8,
        ColourMode::Mono,
    );
    assert_eq!(plain, banded);
}

/// Every field of the page register lands in its bits.
#[test]
fn page_register_packs_every_field() {
    let bits = build_page_reg_bits(&PageRegBits {
        page_st: false,
        page_end: true,
        prt_end: false,
        cut: 0xFD,
        savepaper: true,
        first_cut: 7,
        nodu: 0x2B,
        mat: 6,
    });
    assert_eq!(bits, [0x04 | (5 << 4) | 0x80, 3 | (0x0B << 2) | (2 << 6)]);
}

/// Margins are clamped to 1..=900 and red to 15; an over-long image is cut.
#[test]
fn header_fields_are_clamped() {
    let data = vec![0xFFu8; 5000];
    let buf = build_print_buffer(&PrintBufferParams {
        image_data: &data,
        per_line_byte: 48,
        cols_in_buf: 0x0102,
        page_st: false,
        page_end: false,
        prt_end: false,
        margin_top: 0,
        margin_bottom: 5000,
        density: Density { black: 20, red: 200 },
        colour: ColourMode::Mono,
    });
    assert_eq!(&buf[4..6], &[0x02, 0x01]);
    assert_eq!(&buf[8..12], &[1, 0, 0x84, 0x03]);
    assert_eq!(buf[12], 15);
    assert_eq!((buf[3] >> 2) & 0x0F, 4);
    assert_eq!(buf[13], 0);
    assert!(buf[PRINT_BUF_HEADER..].iter().all(|&b| b == 0xFF));
}

/// The checksum is the header's sum plus the byte before each 256-byte boundary
/// that the data reaches.
#[test]
fn checksum_adds_header_and_boundary_bytes() {
    let data: Vec<u8> = (0..4032u32).map(|i| (i % 251) as u8).collect();
    let buf = build_print_buffer(&PrintBufferParams {
        image_data: &data,
        per_line_byte: 48,
        cols_in_buf: 84,
        page_st: true,
        page_end: false,
        prt_end: false,
        margin_top: 8,
        margin_bottom: 8,
        density: Density::uniform(4),
        colour: ColourMode::Mono,
    });
    let mut want: u32 = buf[2..14].iter().map(|&b| b as u32).sum();
    for i in 1..=(84 * 48 + 14) / 256 {
        want += buf[i * 256 - 1] as u32;
    }
    assert_eq!(u16::from_le_bytes([buf[0], buf[1]]) as u32, want);
}

/// The payloads of the buffers, put together, are the image between the margins.
#[test]
fn payloads_rebuild_the_picture() {
    let image: Vec<u8> = (0..240 * 48u32).map(|i| (i * 7 % 253) as u8).collect();
    let bufs =
        split_into_buffers(&image, 48, 240, 8, 8, Density::uniform(4), ColourMode::Mono);
    let mut joined = Vec::new();
    for b in &bufs {
        let cols = u16::from_le_bytes([b[4], b[5]]) as usize;
        assert!(cols * 48 <= MAX_BUF_DATA);
        joined.extend_from_slice(&b[PRINT_BUF_HEADER..PRINT_BUF_HEADER + cols * 48]);
    }
    assert_eq!(joined, image[8 * 48..232 * 48]);
}

/// An image that ends early leaves the rest of the strip blank.
#[test]
fn a_short_image_leaves_the_rest_blank() {
    let image = vec![0xFFu8; 20 * 48];
    let bands = [DensityBand { cols: 40, density: Density::uniform(4) }];
    let bufs = split_into_banded_buffers(&image, 48, &bands, 8, 8, ColourMode::Mono);
    assert_eq!(bufs.len(), 1);
    assert!(bufs[0][14..14 + 12 * 48].iter().all(|&b| b == 0xFF));
    assert!(bufs[0][14 + 12 * 48..].iter().all(|&b| b == 0));
    let far = split_into_banded_buffers(&image, 48, &bands, 30, 8, ColourMode::Mono);
    assert!(far[0][14..].iter().all(|&b| b == 0));
}

#[test]
fn no_bands_make_no_buffers() {
    assert!(split_into_banded_buffers(&[], 48, &[], 8, 8, ColourMode::Mono).is_empty());
}

#[test]
fn densities_are_written_in_both_forms() {
    assert_eq!(Density::uniform(6).to_string(), "6");
    assert_eq!(Density { black: 3, red: 12 }.to_string(), "3:12");
    assert_eq!(Density::default(), Density { black: 4, red: 4 });
    assert_eq!((ColourMode::Mono.planes(), ColourMode::TwoColour.planes()), (1, 2));
}
