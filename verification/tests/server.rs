//! The print server's decisions.

use ipp_printer_app::PrinterReason;
use supvan::models::{build_registry, BtNameToml, FamilyToml, ModelsToml};
use supvan::rfid::{heat_presets, RfidMaterial};
use supvan::server::{
    apply_media, configured_heat, find_printer, fingerprint, heat_from, job_outcome, keeps_printer,
    plan_job, poll_status, roll_news, tag_is_blank, JobPlan, MediaPlan, Outcome, RollNews,
    SupvanDeviceBackend, MEDIA_EMPTY, MEDIA_LOW, OFFLINE, RECOVERABLE,
};
use supvan::status::MaterialInfo;

/// The blank-tag test is the whole safety gate: a genuine roll must never be
/// classified as blank, or a tag that describes itself would be overwritten.
#[test]
fn blank_tag_detection_matches_the_vendor_gate() {
    assert!(tag_is_blank("00000000000000"), "all-zero is blank");
    assert!(tag_is_blank(""), "absent is blank");

    assert!(!tag_is_blank("30000000000000"), "our synthetic code");
    assert!(!tag_is_blank("56180000000000"), "two-colour catalogue code");
    assert!(!tag_is_blank("0000000000000A"), "one non-zero nibble is enough");
}

/// Heat is unreadable from the device, so a bad setting must fall back rather
/// than fail a media change.
#[test]
fn heat_config_falls_back_on_junk() {
    assert_eq!(configured_heat(Some("1700:1200")), (1700, 1200));
    assert_eq!(configured_heat(Some("nonsense")), heat_presets::STANDARD);
    assert_eq!(configured_heat(Some("1700")), heat_presets::STANDARD);
    assert_eq!(configured_heat(None), heat_presets::STANDARD);
}

#[test]
fn heat_settings_are_trimmed() {
    assert_eq!(configured_heat(Some(" 1800 :\t1300\n")), (1800, 1300));
    assert_eq!(configured_heat(Some("\u{a0}5:6")), (5, 6));
    assert_eq!(configured_heat(Some("1 8:3")), heat_presets::STANDARD);
    assert_eq!(configured_heat(Some("1:2:3")), heat_presets::STANDARD);
    assert_eq!(configured_heat(Some("65536:1")), heat_presets::STANDARD);
    assert_eq!(heat_from("0", "0"), (0, 0));
}

#[test]
fn reasons_have_the_bits_of_the_protocol() {
    assert_eq!(MEDIA_EMPTY, PrinterReason::MEDIA_EMPTY.bits());
    assert_eq!(MEDIA_LOW, PrinterReason::MEDIA_LOW.bits());
    assert_eq!(OFFLINE, PrinterReason::OFFLINE.bits());
    for k in 0..32 {
        let bits = 1u32 << k;
        assert_eq!(
            bits & RECOVERABLE != 0,
            PrinterReason::from_bits_retain(bits).is_recoverable(),
            "bit {k}"
        );
    }
}

fn material(uuid: &str, remaining: Option<u32>) -> MaterialInfo {
    MaterialInfo {
        width_mm: 40,
        height_mm: 30,
        gap_mm: 0,
        label_type: 0,
        sn: String::new(),
        uuid: uuid.to_string(),
        code: "c".to_string(),
        remaining,
        device_sn: None,
    }
}

#[test]
fn an_unreachable_printer_is_off_line() {
    let r = poll_status(None, Some(&material("", Some(0))));
    assert_eq!((r.reasons, r.supply_percent), (OFFLINE, None));
    assert!(r.ready_media.is_none());
    let r = poll_status(Some(2), None);
    assert_eq!((r.reasons, r.supply_percent), (2, None));
}

#[test]
fn the_roll_is_published_and_watched() {
    let r = poll_status(Some(2), Some(&material("", Some(0))));
    assert_eq!((r.reasons, r.supply_percent), (2 | MEDIA_EMPTY, Some(0)));
    let r = poll_status(Some(2), Some(&material("", Some(1))));
    assert_eq!((r.reasons, r.supply_percent), (2 | MEDIA_LOW, Some(1)));
    let r = poll_status(Some(2), Some(&material("", Some(19))));
    assert_eq!((r.reasons, r.supply_percent), (2 | MEDIA_LOW, Some(19)));
    let r = poll_status(Some(2), Some(&material("", Some(20))));
    assert_eq!((r.reasons, r.supply_percent), (2, Some(20)));
    let r = poll_status(Some(0), Some(&material("", Some(480))));
    assert_eq!((r.reasons, r.supply_percent), (0, Some(100)));
    let media = r.ready_media.unwrap();
    assert_eq!(media.name, "om_40x30mm_40x30mm");
    assert_eq!(media.size_hmm, [4000, 3000]);
    assert_eq!(media.media_type, "labels");
    let mut flat = material("", None);
    flat.height_mm = 0;
    let r = poll_status(Some(0), Some(&flat));
    assert!(r.ready_media.is_none() && r.supply_percent.is_none());
}

#[test]
fn swapped_rolls_are_noticed() {
    let a = fingerprint(&material("30000000000000", None));
    let b = fingerprint(&material("56180000000000", None));
    let blank = fingerprint(&material("", None));
    assert_eq!(roll_news(None, &a), RollNews::Registered);
    assert_eq!(roll_news(Some(&a), &a), RollNews::Nothing);
    assert_eq!(roll_news(Some(&a), &b), RollNews::Swapped);
    assert_eq!(roll_news(Some(&blank), &b), RollNews::Nothing);
}

#[test]
fn drivers_follow_the_model_then_the_scheme() {
    let family = |name: &str| FamilyToml {
        name: name.to_string(),
        description: String::new(),
        dpi: 203,
        printhead_dots: 384,
        media_mm: vec![],
    };
    let table = ModelsToml {
        families: vec![family("supvan_t50"), family("supvan_t80")],
        models: vec![],
        bt_names: vec![BtNameToml {
            model: "T80M Pro".to_string(),
            family: "supvan_t80".to_string(),
            prefixes: vec!["t80".to_string()],
        }],
    };
    let backend = SupvanDeviceBackend { registry: build_registry(&table, "t").unwrap() };
    let driver = |id: &str, uri: &str| backend.driver_for_device(id, uri);
    assert_eq!(driver("MFG:Supvan;MDL:T80M Pro;", "x"), Some("supvan_t80".to_string()));
    assert_eq!(driver("MDL:unknown;", "x"), Some("supvan_t50".to_string()));
    assert_eq!(driver("", "supvan://a"), Some("supvan_t50".to_string()));
    assert_eq!(driver("MFG:x;", "mock://a"), Some("supvan_t50".to_string()));
    assert_eq!(driver("", "usbhid://a"), None);
    assert!(keeps_printer("supvan://a") && keeps_printer("mock://a"));
    assert!(!keeps_printer("usbhid://a") && !keeps_printer("xsupvan://a"));
}

#[test]
fn documents_are_planned_by_format() {
    assert_eq!(plan_job("image/jpeg", &[[1, 2], [3, 4]]), JobPlan::Jpeg([1, 2]));
    assert_eq!(plan_job("image/jpeg", &[]), JobPlan::Jpeg([4000, 3000]));
    assert_eq!(plan_job("image/pwg-raster", &[[1, 2]]), JobPlan::Raster);
    let names = vec!["a".to_string(), "b".to_string(), "b".to_string()];
    assert_eq!(find_printer(&names, "b"), Ok(1));
    assert_eq!(find_printer(&names, "c"), Err("printer not found: c".to_string()));
}

#[test]
fn clearable_conditions_hold_the_job() {
    assert!(matches!(job_outcome(Ok(())), Outcome::Completed));
    let held = job_outcome(Err((OFFLINE | 1, "off".to_string())));
    assert!(matches!(held, Outcome::Unavailable(bits) if bits == OFFLINE | 1));
    let failed = job_outcome(Err((1, "bad".to_string())));
    assert!(matches!(failed, Outcome::Failed(1, m) if m == "bad"));
    assert!(matches!(job_outcome(Err((MEDIA_LOW, String::new()))), Outcome::Failed(_, _)));
}

#[test]
fn genuine_rolls_are_left_alone() {
    let m = material("30000000000000", None);
    let plan = apply_media(Some(&m), [5000, 8000], (1, 2));
    assert!(matches!(plan, MediaPlan::Refuse(text) if text
        == "a genuine RFID roll is loaded (UUID 30000000000000, 40x30mm) and describes itself — \
            its own geometry is authoritative. Only unreadable or blank stock can be set here."));
}

#[test]
fn blank_stock_takes_the_size() {
    let mut m = material("00000000000000", None);
    assert!(matches!(apply_media(Some(&m), [4000, 3099], (1, 2)), MediaPlan::AlreadySet));
    m.gap_mm = 5;
    m.label_type = 12;
    let want = RfidMaterial {
        width_mm: 50,
        length_mm: 80,
        gap_mm: 5,
        mat_type: 12,
        heat_time_5: 1,
        heat_time_40: 2,
        ..Default::default()
    };
    assert!(matches!(apply_media(Some(&m), [5000, 8000], (1, 2)), MediaPlan::Write(w) if w == want));
    let plain = RfidMaterial {
        width_mm: 50,
        length_mm: 80,
        heat_time_5: 1,
        heat_time_40: 2,
        ..Default::default()
    };
    assert!(matches!(apply_media(None, [5000, 8000], (1, 2)), MediaPlan::Write(w) if w == plain));
}

/// Sizes go to bytes the way casts do: toward zero, low eight bits.
#[test]
fn odd_sizes_wrap() {
    for hmm in [-1, -99, -100, -250, -25600, 25600, 30000, i32::MAX, i32::MIN] {
        let plan = apply_media(None, [hmm, hmm], (1, 2));
        let want = (hmm / 100) as u8;
        assert!(
            matches!(plan, MediaPlan::Write(w) if w.width_mm == want && w.length_mm == want),
            "{hmm}"
        );
    }
}
