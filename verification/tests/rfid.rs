//! Synthetic material records.

use supvan::rfid::{
    heat_presets, PaperType, RfidMaterial, FIELD_BASE, MAX_LABEL_LENGTH_MM, MAX_LABEL_WIDTH_MM,
    RFID_RECORD_LEN,
};
use supvan::text::hex_upper;

#[test]
fn default_uuid_matches_vendor_padding() {
    let m = RfidMaterial::default();
    assert_eq!(m.uuid_bytes(), [0x30, 0, 0, 0, 0, 0, 0]);
}

#[test]
fn short_code_pads_right() {
    let m = RfidMaterial {
        code: 5,
        ..Default::default()
    };
    // "5" padded to "50000000000000".
    assert_eq!(m.uuid_bytes(), [0x50, 0, 0, 0, 0, 0, 0]);
}

#[test]
fn heat_times_land_at_vendor_offsets() {
    let m = RfidMaterial {
        heat_time_5: 0x1234,
        heat_time_40: 0x5678,
        ..Default::default()
    };
    let buf = m.encode();
    // databuf[20 + offset] .. databuf[23 + offset], little-endian.
    assert_eq!(&buf[36..38], &[0x34, 0x12]);
    assert_eq!(&buf[38..40], &[0x78, 0x56]);
}

#[test]
fn geometry_is_clamped() {
    let m = RfidMaterial {
        width_mm: 200,
        length_mm: 200,
        ..Default::default()
    };
    let buf = m.encode();
    assert_eq!(buf[FIELD_BASE + 11], MAX_LABEL_WIDTH_MM);
    assert_eq!(buf[FIELD_BASE + 12], MAX_LABEL_LENGTH_MM);
}

#[test]
fn anti_counterfeit_fields_stay_zero() {
    let buf = RfidMaterial::default().encode();
    // TimeStamp + padding + Cipertext, as the vendor ships them.
    assert!(
        buf[FIELD_BASE + 24..FIELD_BASE + 48]
            .iter()
            .all(|&b| b == 0)
    );
}

#[test]
fn record_is_fixed_length() {
    assert_eq!(RfidMaterial::default().encode().len(), RFID_RECORD_LEN);
}

#[test]
fn uuid_reads_as_the_padded_code() {
    let m = RfidMaterial { code: 65535, ..Default::default() };
    assert_eq!(m.uuid_bytes(), [0x65, 0x53, 0x50, 0, 0, 0, 0]);
    assert_eq!(hex_upper(&m.uuid_bytes()), "65535000000000");
    let m = RfidMaterial { code: 0, ..Default::default() };
    assert_eq!(m.uuid_bytes(), [0; 7]);
    let m = RfidMaterial { code: 5618, ..Default::default() };
    assert_eq!(hex_upper(&m.uuid_bytes()), "56180000000000");
}

#[test]
fn every_field_has_its_place() {
    let m = RfidMaterial {
        code: 0x1234,
        mat_type: PaperType::BlackMark.code(),
        width_mm: 34,
        length_mm: 35,
        gap_mm: 2,
        tail_mm: 7,
        custom_id: 9,
        remaining: 0x0A0B_0C0D,
        heat_time_5: heat_presets::CARDSTOCK.0,
        heat_time_40: heat_presets::BLACK_MARK.1,
        opt_threshold: (0x0102, 0x0304),
        opt_index: 5,
        heat_index: 6,
    };
    let b = m.encode();
    assert_eq!(&b[..7], &m.uuid_bytes());
    assert!(b[7..24].iter().all(|&x| x == 0));
    assert_eq!(&b[24..32], &[0x34, 0x12, 12, 34, 35, 9, 2, 7]);
    assert_eq!(&b[32..36], &[0x0D, 0x0C, 0x0B, 0x0A]);
    assert_eq!(&b[36..40], &[0xC4, 0x09, 0x14, 0x05]);
    assert!(b[40..64].iter().all(|&x| x == 0));
    assert_eq!(&b[64..70], &[0x02, 0x01, 0x04, 0x03, 5, 6]);
    assert!(b[70..].iter().all(|&x| x == 0));
}

#[test]
fn paper_types_have_their_numbers() {
    assert_eq!(PaperType::Continuous.code(), 0);
    assert_eq!(PaperType::DieCut.code(), 1);
    assert_eq!(PaperType::MarkerCard.code(), 3);
    assert_eq!(PaperType::BlackSticker.code(), 14);
    assert_eq!(PaperType::LaminatedWrapContinuous.code(), 21);
    assert_eq!(PaperType::LaminatedWrapDieCut.code(), 22);
}

#[test]
fn unbranded_stock_is_the_default() {
    let m = RfidMaterial::default();
    assert_eq!((m.code, m.mat_type, m.width_mm, m.length_mm), (30000, 1, 40, 30));
    assert_eq!((m.gap_mm, m.tail_mm, m.custom_id, m.remaining), (3, 0, 1, 480));
    assert_eq!((m.heat_time_5, m.heat_time_40), heat_presets::STANDARD);
    assert_eq!((m.opt_threshold, m.opt_index, m.heat_index), ((0, 0), 0, 2));
}
