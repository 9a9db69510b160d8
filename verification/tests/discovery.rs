//! Discovery and grouping.

use supvan::discovery::{
    group_candidates, is_print_service, is_supvan_ble, list_candidates, mock_printer, slug, Advert,
    BleCandidate, BtCandidate, UsbCandidate,
};
use supvan::models::{build_registry, parse_mdl, BtNameToml, FamilyToml, ModelsToml, Registry};

#[test]
fn accepts_e11_advert() {
    assert!(is_supvan_ble("A4:93:40:AF:B0:B5", "T0182A2507162197"));
}

#[test]
fn rejects_foreign_oui() {
    assert!(!is_supvan_ble("00:11:22:33:44:55", "T0182A2507162197"));
}

#[test]
fn rejects_non_printer_name() {
    assert!(!is_supvan_ble("A4:93:40:AF:B0:B5", "Some Headphones"));
    // Letter ok but missing the two digits.
    assert!(!is_supvan_ble("A4:93:40:AF:B0:B5", "TX"));
}

#[test]
fn accepts_g_and_d_families() {
    assert!(is_supvan_ble("A4:93:40:AF:B0:B5", "G15Mini"));
    assert!(is_supvan_ble("A4:93:40:AF:B0:B5", "D12foo"));
    assert!(!is_supvan_ble("A4:93:40:AF:B0:B5", "X12foo"));
}

const FEE7: u128 = 0x0000fee7_0000_1000_8000_00805f9b34fb;
const SERIAL_PORT: u128 = 0x00001101_0000_1000_8000_00805f9b34fb;

fn advert(address: &str, name: Option<&str>, services: &[u128]) -> Advert {
    Advert {
        address: address.to_string(),
        name: name.map(|n| n.to_string()),
        services: services.to_vec(),
    }
}

/// Only devices that advertise a print service are candidates, in scan order.
#[test]
fn classic_printers_are_no_ble_candidates() {
    let found = list_candidates(&[
        advert("A4:93:40:00:00:02", Some("T0182A2507162197"), &[SERIAL_PORT, FEE7]),
        advert("A4:93:40:00:00:03", Some("T0182A2507162198"), &[SERIAL_PORT]),
        advert("A4:93:40:00:00:04", None, &[FEE7]),
        advert("00:93:40:00:00:05", Some("T0182A2507162199"), &[FEE7]),
        advert("A4:93:40:00:00:01", Some("D12"), &[FEE7]),
    ]);
    let got: Vec<(&str, &str)> =
        found.iter().map(|c| (c.address.as_str(), c.name.as_str())).collect();
    assert_eq!(
        got,
        vec![("A4:93:40:00:00:02", "T0182A2507162197"), ("A4:93:40:00:00:01", "D12")]
    );
    assert!(is_print_service(0x0000e0ff_0000_1000_8000_00805f9b34fb));
    assert!(is_print_service(0x0000ff00_0000_1000_8000_00805f9b34fb));
    assert!(!is_print_service(0xfee7));
}

#[test]
fn slugs_are_lowercase_words() {
    assert_eq!(slug("T0182A2507162197"), "t0182a2507162197");
    assert_eq!(slug("  My  Label_Printer! "), "my-label-printer");
    assert_eq!(slug("Größe 5"), "gr-e-5");
    assert_eq!(slug("---"), "printer");
    assert_eq!(slug(""), "printer");
    assert_eq!(slug("my-label-printer"), "my-label-printer");
}

fn registry() -> Registry {
    let table = ModelsToml {
        families: vec![FamilyToml {
            name: "supvan_t50".to_string(),
            description: "T50".to_string(),
            dpi: 203,
            printhead_dots: 384,
            media_mm: vec![],
        }],
        models: vec![],
        bt_names: vec![BtNameToml {
            model: "E11".to_string(),
            family: "supvan_t50".to_string(),
            prefixes: vec!["T0182".to_string()],
        }],
    };
    build_registry(&table, "t").unwrap()
}

fn usb(name: Option<&str>, id: &str, path: &str) -> UsbCandidate {
    UsbCandidate {
        printer_name: name.map(|n| n.to_string()),
        uri_id: id.to_string(),
        model_name: "T50M Pro".to_string(),
        hidraw_path: path.to_string(),
    }
}

fn bt(name: &str, address: &str) -> BtCandidate {
    BtCandidate { name: name.to_string(), address: address.to_string() }
}

fn ble(name: &str, address: &str) -> BleCandidate {
    BleCandidate { name: name.to_string(), address: address.to_string() }
}

/// Candidates of one name are one printer; the last of a name on a transport
/// counts; reports come in dictionary order.
#[test]
fn transports_of_one_name_are_one_printer() {
    let found = group_candidates(
        &registry(),
        &[usb(Some("T0117"), "id1", "/dev/hidraw1"), usb(Some("T0117"), "id2", "/dev/hidraw2")],
        &[bt("T0117", "AA"), bt("T0050", "BB")],
        &[ble("T0182X", "CC"), ble("G12", "DD")],
    );
    assert_eq!(found.len(), 4);
    assert_eq!(found[0].info, "Supvan E-Series G12");
    assert_eq!(found[0].uri, "supvan://g12");
    assert_eq!(found[0].ble_address.as_deref(), Some("DD"));
    assert_eq!(found[1].info, "Supvan T50 Series T0050");
    assert_eq!(found[1].bt_address.as_deref(), Some("BB"));
    assert_eq!(found[2].info, "Supvan T50M Pro T0117");
    assert_eq!(found[2].device_id, "MFG:Supvan;MDL:T50M Pro;CMD:SUPVAN;");
    assert_eq!(found[2].hidraw_path.as_deref(), Some("/dev/hidraw2"));
    assert_eq!(found[2].bt_address.as_deref(), Some("AA"));
    assert_eq!(found[2].ble_address, None);
    assert_eq!(found[2].slug, "t0117");
    // The table knows what the advertised name stands for.
    assert_eq!(found[3].info, "Supvan E11 T0182X");
    assert_eq!(parse_mdl(&found[3].device_id), Some("E11".to_string()));
}

/// A USB printer that gave no name and a lone Bluetooth one are taken for one.
#[test]
fn a_lone_pair_is_merged_under_the_bluetooth_name() {
    let found = group_candidates(
        &registry(),
        &[usb(None, "usb-3", "/dev/hidraw3")],
        &[bt("T0117", "AA")],
        &[],
    );
    assert_eq!(found.len(), 1);
    assert_eq!(found[0].uri, "supvan://t0117");
    assert_eq!(found[0].info, "Supvan T50M Pro T0117");
    assert_eq!(found[0].hidraw_path.as_deref(), Some("/dev/hidraw3"));
    assert_eq!(found[0].bt_address.as_deref(), Some("AA"));
}

/// Two USB-only printers leave it open which one is meant: nothing is merged.
#[test]
fn two_of_a_kind_are_not_merged() {
    let found = group_candidates(
        &registry(),
        &[usb(None, "usb-3", "p3"), usb(None, "usb-4", "p4")],
        &[bt("T0117", "AA")],
        &[],
    );
    let uris: Vec<&str> = found.iter().map(|f| f.uri.as_str()).collect();
    assert_eq!(uris, vec!["supvan://t0117", "supvan://usb-3", "supvan://usb-4"]);
    assert!(group_candidates(&registry(), &[], &[], &[]).is_empty());
}

#[test]
fn the_mock_printer_has_the_default_model() {
    let m = mock_printer("Supvan T50 Series");
    assert_eq!(m.info, "Supvan Mock");
    assert_eq!(m.uri, "mock://t50-001");
    assert_eq!(m.device_id, "MFG:Supvan;MDL:Supvan T50 Series;CMD:KASCRIPT;");
    assert_eq!(m.hidraw_path, None);
}
