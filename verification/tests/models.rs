//! The model registry.

use supvan::models::{
    bt_model_for_name, build_registry, default_family, families, family_for_model_hint,
    find_toml_path, is_matching_bt_device, is_matching_bt_name, is_supvan_oui,
    is_supvan_serial_name, load, media_name, model_by_pid, parse_mdl, BtNameToml, FamilyToml,
    ModelToml, ModelsToml, Registry,
};

fn family(name: &str, description: &str, media_mm: Vec<[i32; 2]>) -> FamilyToml {
    FamilyToml {
        name: name.to_string(),
        description: description.to_string(),
        dpi: 203,
        printhead_dots: 384,
        media_mm,
    }
}

fn bt(model: &str, family: &str, prefixes: &[&str]) -> BtNameToml {
    BtNameToml {
        model: model.to_string(),
        family: family.to_string(),
        prefixes: prefixes.iter().map(|p| p.to_string()).collect(),
    }
}

fn table() -> ModelsToml {
    ModelsToml {
        families: vec![
            family("supvan_t80", "Supvan T80 Series", vec![[50, 80]]),
            family("supvan_t50", "Supvan T50 Series", vec![[40, 30], [50, 80]]),
        ],
        models: vec![
            ModelToml {
                pid: "2073".to_string(),
                name: "T50M Pro".to_string(),
                family: "supvan_t50".to_string(),
            },
            ModelToml {
                pid: "207f".to_string(),
                name: "T50 Pro".to_string(),
                family: "supvan_t50".to_string(),
            },
        ],
        bt_names: vec![
            bt("E10/T10", "supvan_t50", &["T0131", "T0007"]),
            bt("E11", "supvan_t50", &["T0182", "e11"]),
            bt("T50M Pro", "supvan_t50", &["T0117A"]),
            bt("T50M", "supvan_t50", &["T0021", "T0021A"]),
            bt("T50M Plus", "supvan_t50", &["T0021B"]),
            bt("T50 Max", "supvan_t50", &["T0192"]),
            bt("T80M Pro", "supvan_t80", &["T80M Pro"]),
        ],
    }
}

fn registry() -> Registry {
    build_registry(&table(), "<test>").unwrap()
}

#[test]
fn advertised_serial_names_resolve_to_models() {
    let reg = registry();
    assert_eq!(bt_model_for_name(&reg, "T0182A2507162197"), Some("E11"));
    assert_eq!(bt_model_for_name(&reg, "T0131F251217E291"), Some("E10/T10"));
    assert_eq!(bt_model_for_name(&reg, "T0117A2401010001"), Some("T50M Pro"));
}

#[test]
fn discovery_accepts_advertised_serial_names() {
    let reg = registry();
    assert!(is_matching_bt_name(&reg, "T0182A2507162197"));
    assert!(is_matching_bt_name(&reg, "T0131F251217E291"));
    // Brand words are accepted anywhere, not just as a prefix.
    assert!(is_matching_bt_name(&reg, "My Supvan Printer"));
    assert!(!is_matching_bt_name(&reg, "Some Headphones"));
}

#[test]
fn a_trailing_letter_selects_a_different_model() {
    let reg = registry();
    // t0021a and t0021b are distinct printers; longest-prefix-first ordering
    // must not let a shorter pattern swallow either.
    assert_eq!(bt_model_for_name(&reg, "T0021A0000"), Some("T50M"));
    assert_eq!(bt_model_for_name(&reg, "T0021B0000"), Some("T50M Plus"));
}

#[test]
fn serials_are_matched_as_prefixes_not_substrings() {
    let reg = registry();
    // A T50 Max serial embeds "0007", which is an E10 prefix once the leading T
    // is glued on.
    assert_eq!(bt_model_for_name(&reg, "T0192T00071234"), Some("T50 Max"));
}

#[test]
fn mdl_strings_still_resolve_a_family() {
    let reg = registry();
    assert_eq!(family_for_model_hint(&reg, "T80M Pro").driver_name, "supvan_t80");
    assert_eq!(family_for_model_hint(&reg, "E11").driver_name, "supvan_t50");
}

#[test]
fn unknown_hardware_codes_still_pass_discovery() {
    let reg = registry();
    assert_eq!(bt_model_for_name(&reg, "T0999X2501010001"), None);
    assert!(!is_matching_bt_name(&reg, "T0999X2501010001"));
    // ...but still discoverable inside the assigned address block.
    assert!(is_matching_bt_device(&reg, "A4:93:40:11:22:33", "T0999X2501010001"));
    // and it lands on the default family rather than being dropped.
    let f = family_for_model_hint(&reg, "T0999X2501010001");
    assert_eq!(f.driver_name, "supvan_t50");
}

#[test]
fn the_oui_fallback_does_not_admit_other_vendors() {
    let reg = registry();
    // Right name shape, wrong address block.
    assert!(!is_matching_bt_device(&reg, "00:11:22:33:44:55", "T0999X2501010001"));
    // Right address block, wrong name shape.
    assert!(!is_matching_bt_device(&reg, "A4:93:40:11:22:33", "Some Headphones"));
}

/// A table whose entries point at families it never defines, or that has no
/// default family, is refused with a message; it stops nothing.
#[test]
fn a_broken_on_disk_table_is_rejected_not_fatal() {
    let empty = ModelsToml { families: vec![], models: vec![], bt_names: vec![] };
    let err = build_registry(&empty, "<bad>").unwrap_err();
    assert_eq!(err, "<bad>: no 'supvan_t50' family");

    let orphan = ModelsToml {
        families: vec![family("supvan_t50", "T50", vec![[40, 30]])],
        models: vec![],
        bt_names: vec![bt("Nope", "supvan_missing", &["x"])],
    };
    let err = build_registry(&orphan, "<bad>").unwrap_err();
    assert!(err.contains("unknown family"), "{err}");
    assert_eq!(
        err,
        "<bad>: bt_names entry 'Nope' references unknown family 'supvan_missing'"
    );

    let stray = ModelsToml {
        families: vec![family("supvan_t50", "T50", vec![])],
        models: vec![ModelToml {
            pid: "1".to_string(),
            name: "M".to_string(),
            family: "none".to_string(),
        }],
        bt_names: vec![bt("Nope", "supvan_missing", &["x"])],
    };
    let err = build_registry(&stray, "t").unwrap_err();
    assert_eq!(err, "t: model 'M' references unknown family 'none'");

    let kept = load(Some(Err(err)), registry());
    assert_eq!(kept.models.len(), 2);
}

#[test]
fn a_good_table_on_disk_is_preferred() {
    let small = ModelsToml {
        families: vec![family("supvan_t50", "T50", vec![])],
        models: vec![],
        bt_names: vec![],
    };
    let on_disk = build_registry(&small, "disk");
    assert_eq!(load(Some(on_disk), registry()).models.len(), 0);
    assert_eq!(load(None, registry()).models.len(), 2);
}

#[test]
fn families_carry_their_media() {
    let reg = registry();
    assert_eq!(families(&reg).len(), 2);
    let f = default_family(&reg);
    assert_eq!(f.driver_name, "supvan_t50");
    assert_eq!(f.make_and_model, b"Supvan T50 Series".to_vec());
    assert_eq!((f.dpi, f.printhead_width_dots), (203, 384));
    assert_eq!(f.media_names, vec!["om_40x30mm_40x30mm", "om_50x80mm_50x80mm"]);
    assert_eq!(f.media_sizes, vec![[4000, 3000], [5000, 8000]]);
    assert_eq!(media_name(-1, 7), "om_-1x7mm_-1x7mm");
}

/// Of two families of one name, the later one is meant.
#[test]
fn the_last_family_of_a_name_counts() {
    let twice = ModelsToml {
        families: vec![family("supvan_t50", "first", vec![]), family("supvan_t50", "second", vec![])],
        models: vec![],
        bt_names: vec![bt("A", "supvan_t50", &["a"])],
    };
    let reg = build_registry(&twice, "t").unwrap();
    assert_eq!(reg.default_family_idx, 1);
    assert_eq!(family_for_model_hint(&reg, "abc").make_and_model, b"second".to_vec());
}

/// Prefixes go by length, the longest first, and by the table otherwise; they
/// are lowercased, beyond ASCII too.
#[test]
fn prefixes_are_sorted_stably() {
    let list = ModelsToml {
        families: vec![family("supvan_t50", "T50", vec![])],
        models: vec![],
        bt_names: vec![
            bt("one", "supvan_t50", &["AB", "X", "ABC"]),
            bt("two", "supvan_t50", &["cd", "ÄB", "efg"]),
        ],
    };
    let reg = build_registry(&list, "t").unwrap();
    let got: Vec<(&str, &str)> =
        reg.bt_prefixes.iter().map(|p| (p.prefix.as_str(), p.model.as_str())).collect();
    assert_eq!(
        got,
        vec![
            ("abc", "one"),
            ("äb", "two"),
            ("efg", "two"),
            ("ab", "one"),
            ("cd", "two"),
            ("x", "one")
        ]
    );
    assert_eq!(bt_model_for_name(&reg, "äbc"), Some("two"));
    assert_eq!(bt_model_for_name(&reg, "ÄBC"), Some("two"));
}

#[test]
fn product_numbers_are_found_in_either_case() {
    let reg = registry();
    assert_eq!(model_by_pid(&reg, "207F").map(|m| m.name.as_str()), Some("T50 Pro"));
    assert_eq!(model_by_pid(&reg, "2073").map(|m| m.name.as_str()), Some("T50M Pro"));
    assert!(model_by_pid(&reg, "9999").is_none());
}

#[test]
fn addresses_and_serial_names_have_a_shape() {
    assert!(is_supvan_oui("a4:93:40"));
    assert!(is_supvan_oui("A4:93:40:11:22:33"));
    assert!(!is_supvan_oui("A4:93:4"));
    assert!(!is_supvan_oui("A4:93:4é:11"));
    assert!(is_supvan_serial_name("T01"));
    assert!(!is_supvan_serial_name("T0"));
    assert!(!is_supvan_serial_name("t01"));
    assert!(!is_supvan_serial_name("Té1"));
}

#[test]
fn model_fields_are_found() {
    assert_eq!(parse_mdl("MFG:Supvan;MDL:T50M Pro;CMD:SUPVAN;"), Some("T50M Pro".to_string()));
    assert_eq!(parse_mdl("MDL:;MDL:x"), Some(String::new()));
    assert_eq!(parse_mdl("MFG:Supvan;CMD:MDL:x"), None);
    assert_eq!(parse_mdl(""), None);
    assert_eq!(parse_mdl(";;MDL:last"), Some("last".to_string()));
}

#[test]
fn brand_words_are_found_anywhere() {
    let reg = registry();
    assert!(is_matching_bt_name(&reg, "xKATASYMBOLx"));
    assert!(is_matching_bt_name(&reg, "SUPVAN"));
    assert!(!is_matching_bt_name(&reg, "supva"));
}

#[test]
fn tables_are_looked_for_in_order() {
    assert_eq!(find_toml_path(Some("x".to_string()), true, true), Some("x".to_string()));
    assert_eq!(find_toml_path(None, true, true), Some("data/models.toml".to_string()));
    assert_eq!(
        find_toml_path(None, false, true),
        Some("/usr/share/supvan-printer-app/models.toml".to_string())
    );
    assert_eq!(find_toml_path(None, false, false), None);
}

#[test]
fn letter_case_does_not_matter() {
    let reg = registry();
    assert_eq!(bt_model_for_name(&reg, "t0021b0000"), Some("T50M Plus"));
    assert_eq!(bt_model_for_name(&reg, "T80m pRO 1"), Some("T80M Pro"));
    assert!(is_matching_bt_name(&reg, "KATASYMBOL"));
}

/// A serial behind a known name keeps it known, whatever the serial is made of.
#[test]
fn appended_text_keeps_a_name_known() {
    let reg = registry();
    for c in '\0'..='\u{10FFFF}' {
        let name = format!("T0182A{c}");
        assert_eq!(bt_model_for_name(&reg, &name), Some("E11"), "{name:?}");
    }
}

/// A name that is lowercased already is known exactly where the name is.
#[test]
fn lowercased_names_are_known_as_the_names_are() {
    let reg = registry();
    for name in ["\u{130}T0182", "T0182\u{3A3}", "\u{3A3}SUPVAN\u{3A3}", "e11", "\u{212A}ATASYMBOL", "x"] {
        assert_eq!(
            is_matching_bt_name(&reg, name),
            is_matching_bt_name(&reg, &name.to_lowercase()),
            "{name:?}"
        );
    }
    // The Kelvin sign lowercases to an ASCII letter.
    assert!(is_matching_bt_name(&reg, "\u{212A}ATASYMBOL"));
    for c in '\0'..='\u{10FFFF}' {
        let once = c.to_string().to_lowercase();
        assert_eq!(once.to_lowercase(), once);
    }
}
