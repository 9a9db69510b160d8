//! The command line's readings and reports.

use supvan::buffer::Density;
use supvan::cli::{
    build_material, fallback_material, join_densities, material_lines, parse_density,
    parse_heat_pair, parse_pattern, probe_material_lines, provision_warning, provisioned_line,
    status_lines, sweep_heats, CardPattern, LabelArgs,
};
use supvan::rfid::RfidMaterial;
use supvan::status::{MaterialInfo, PrinterStatus};

/// `N` sets both trims; `BLACK:RED` drives them apart. The split form is the
/// whole point of the type: black and red live in different header fields.
#[test]
fn density_accepts_both_forms() {
    assert_eq!(parse_density("6"), Ok(Density::uniform(6)));
    assert_eq!(parse_density("3:12"), Ok(Density { black: 3, red: 12 }));
    assert!(parse_density("3:").is_err());
    assert!(parse_density("x").is_err());
}

#[test]
fn heat_pair_needs_a_colon() {
    assert!(parse_heat_pair("1700").is_err());
    assert!(parse_heat_pair("1700:abc").is_err());
    assert_eq!(parse_heat_pair("1700:1200"), Ok((1700, 1200)));
}

#[test]
fn bad_entries_are_quoted() {
    assert_eq!(parse_density("256"), Err("bad density `256`".to_string()));
    assert_eq!(parse_density("a:b"), Err("bad black `a`".to_string()));
    assert_eq!(parse_density("1:2:3"), Err("bad red `2:3`".to_string()));
    assert_eq!(parse_density("+7"), Ok(Density::uniform(7)));
    assert_eq!(parse_heat_pair("17"), Err("expected `heat5:heat40`, got `17`".to_string()));
    assert_eq!(parse_heat_pair(":1"), Err("bad heat5 ``".to_string()));
    assert_eq!(parse_heat_pair("1:70000"), Err("bad heat40 `70000`".to_string()));
    assert_eq!(
        parse_pattern("dots"),
        Err("unknown pattern `dots` (bars|stripes)".to_string())
    );
    assert_eq!(parse_pattern("bars"), Ok(CardPattern::Bars));
    assert_eq!(parse_pattern("stripes"), Ok(CardPattern::Stripes));
}

/// What is written down is read back.
#[test]
fn densities_round_trip() {
    for d in [Density::uniform(0), Density { black: 15, red: 3 }, Density { black: 255, red: 0 }] {
        assert_eq!(parse_density(&d.to_string()), Ok(d));
    }
    assert_eq!(join_densities(&[Density::uniform(1), Density { black: 2, red: 3 }]), "1,2:3");
    assert_eq!(join_densities(&[]), "");
}

#[test]
fn materials_are_unbranded_but_for_what_is_given() {
    let label = LabelArgs { width: 50, length: 31, gap: 2 };
    let m = build_material(label, (1900, 1400), 99, 0, 5618);
    assert_eq!(
        m,
        RfidMaterial {
            width_mm: 50,
            length_mm: 31,
            gap_mm: 2,
            heat_time_5: 1900,
            heat_time_40: 1400,
            remaining: 99,
            mat_type: 0,
            code: 5618,
            ..Default::default()
        }
    );
    let f = fallback_material(48, 30, 3);
    assert_eq!((f.width_mm, f.height_mm, f.gap_mm, f.label_type), (48, 30, 3, 0));
    assert_eq!((f.uuid.as_str(), f.remaining), ("", None));
}

#[test]
fn sweeps_default_to_the_presets() {
    assert_eq!(sweep_heats(vec![]), vec![(1700, 1200), (1800, 1300), (2500, 2000)]);
    assert_eq!(sweep_heats(vec![(1, 2)]), vec![(1, 2)]);
}

#[test]
fn a_status_is_reported_line_by_line() {
    let mut s = PrinterStatus {
        printing: true,
        device_busy: false,
        buf_full: false,
        low_battery: true,
        cover_open: false,
        print_count: 42,
        has_error: false,
        error_description: None,
    };
    assert_eq!(
        status_lines(&s),
        vec![
            "Status:",
            "  printing:     true",
            "  device_busy:  false",
            "  buf_full:     false",
            "  low_battery:  true",
            "  cover_open:   false",
            "  print_count:  42",
        ]
    );
    s.error_description = Some("label end".to_string());
    assert_eq!(status_lines(&s)[7], "  ERRORS:       label end");
}

#[test]
fn a_material_is_reported_line_by_line() {
    let mut m = MaterialInfo {
        width_mm: 40,
        height_mm: 30,
        gap_mm: 3,
        label_type: 1,
        sn: "30000".to_string(),
        uuid: "30000000000000".to_string(),
        code: "c".to_string(),
        remaining: Some(12),
        device_sn: Some("T0117A".to_string()),
    };
    assert_eq!(
        probe_material_lines(&m),
        vec![
            "Material:",
            "  Label:     40mm x 30mm",
            "  Type:      1",
            "  Gap:       3mm",
            "  SN:        30000",
            "  UUID:      30000000000000",
            "  Code:      c",
            "  Remaining: 12 labels",
            "  Device SN: T0117A",
        ]
    );
    assert_eq!(
        material_lines(&m),
        vec![
            "Label:     40mm x 30mm  (type=1, gap=3mm)",
            "Label SN:  30000",
            "RFID UID:  30000000000000",
            "RFID code: c",
            "Remaining: 12 labels",
            "Device SN: T0117A",
        ]
    );
    m.remaining = None;
    m.device_sn = None;
    assert_eq!(probe_material_lines(&m).len(), 7);
    assert_eq!(
        material_lines(&m)[4..],
        ["Remaining: (not reported)", "Device SN: (not in this response)"]
    );
}

#[test]
fn a_written_record_is_reported() {
    let label = LabelArgs { width: 40, length: 30, gap: 3 };
    let mat = build_material(label, (1700, 1200), 480, 1, 30000);
    let mut m = fallback_material(40, 30, 3);
    m.uuid = "30000000000000".to_string();
    assert_eq!(
        provisioned_line(&m, &mat),
        "Provisioned: 40mm x 30mm, gap 3mm, heat 1700/1200, UUID 30000000000000"
    );
    m.uuid = "00001000000000".to_string();
    assert_eq!(
        provision_warning(&Some(m), "30000000000000"),
        "Warning: printer still reports UUID 00001000000000 (wrote 30000000000000) — record not taken"
    );
    assert_eq!(provision_warning(&None, "3"), "Warning: no material info after write");
}
