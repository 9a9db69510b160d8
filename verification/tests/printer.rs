//! The print flow.

use supvan::error::Error;
use supvan::printer::{
    ble_target, ble_unavailable, not_taken, open_target, packet_count, PrintFault, PrintJob,
    Printer, ProvisionReply, ProvisionRequest, Reply, Request, Target, Wait, WaitKind, WaitStep,
};
use supvan::rfid::RfidMaterial;
use supvan::status::{MaterialInfo, PrinterStatus};

#[test]
fn ble_targets_are_recognised_by_scheme() {
    assert_eq!(ble_target("ble://A4:93:40:AF:B0:B5").as_deref(), Some("A4:93:40:AF:B0:B5"));
    assert_eq!(ble_target("ble:A4:93:40:AF:B0:B5").as_deref(), Some("A4:93:40:AF:B0:B5"));
    // A bare address stays a classic Bluetooth target.
    assert_eq!(ble_target("A4:93:40:AF:B0:B5"), None);
    assert_eq!(ble_target("/dev/hidraw0"), None);
}

#[test]
fn targets_are_told_apart() {
    assert!(matches!(open_target("/dev/hidraw3"), Target::Usb(p) if p == "/dev/hidraw3"));
    assert!(matches!(open_target("ble:AA"), Target::Ble(a) if a == "AA"));
    assert!(matches!(open_target("AA:BB"), Target::Bt(a) if a == "AA:BB"));
    assert_eq!(
        ble_unavailable("AA"),
        Error::InvalidParam("cannot open AA over BLE: built without the `ble` feature".to_string())
    );
}

fn status() -> PrinterStatus {
    PrinterStatus {
        printing: false,
        device_busy: false,
        buf_full: false,
        low_battery: false,
        cover_open: false,
        print_count: 0,
        has_error: false,
        error_description: None,
    }
}

fn busy() -> PrinterStatus {
    PrinterStatus { device_busy: true, ..status() }
}

fn printing() -> PrinterStatus {
    PrinterStatus { printing: true, ..status() }
}

fn faulty(what: &str) -> PrinterStatus {
    PrinterStatus { has_error: true, error_description: Some(what.to_string()), ..status() }
}

/// Runs a print against a script of statuses, then whatever `rest` gives.
fn run(
    job: (PrintJob, Request),
    mut script: Vec<Option<PrinterStatus>>,
    rest: fn() -> Option<PrinterStatus>,
) -> (Vec<String>, Result<(), Error>) {
    let (mut job, mut request) = job;
    let mut seen = Vec::new();
    script.reverse();
    loop {
        let reply = match request {
            Request::Finished => return (seen, Ok(())),
            Request::Failed(fault) => return (seen, Err(fault.error())),
            Request::QueryStatus => {
                seen.push("status".to_string());
                Reply::Status(script.pop().unwrap_or_else(rest))
            }
            Request::Sleep(ms) => {
                seen.push(format!("sleep {ms}"));
                Reply::Done
            }
            Request::CheckDevice => {
                seen.push("check".to_string());
                Reply::Acked(true)
            }
            Request::StartPrint => {
                seen.push("start".to_string());
                Reply::Done
            }
            Request::BulkHeader { len, packets } => {
                seen.push(format!("header {len} {packets}"));
                Reply::Answered(true)
            }
            Request::BulkData { block } => {
                seen.push(format!("data {block}"));
                Reply::Done
            }
            Request::BufFull { len, speed } => {
                seen.push(format!("full {len} {speed}"));
                Reply::Done
            }
        };
        request = job.step(reply);
    }
}

fn start(blocks: &[Vec<u8>]) -> (PrintJob, Request) {
    Printer::new(()).print_compressed(blocks, 500, 60)
}

#[test]
fn a_print_goes_through_its_phases() {
    let blocks = vec![vec![0u8; 1001], vec![0u8; 500]];
    let (seen, result) = run(
        start(&blocks),
        vec![
            Some(busy()),
            None,
            Some(status()),
            Some(status()),
            Some(printing()),
            Some(PrinterStatus { buf_full: true, ..printing() }),
            Some(printing()),
            Some(printing()),
            Some(printing()),
            Some(status()),
        ],
        || None,
    );
    assert_eq!(result, Ok(()));
    assert_eq!(
        seen,
        vec![
            "check", "status", "sleep 100", "status", "sleep 100", "status", "start", "status",
            "sleep 100", "status", "sleep 20", "status", "sleep 20", "status", "header 1001 3",
            "data 0", "sleep 20", "full 1001 60", "sleep 20", "status", "header 500 1", "data 1",
            "sleep 20", "full 500 60", "sleep 100", "status", "sleep 100", "status",
        ]
    );
}

#[test]
fn long_blocks_are_announced_by_their_low_bits() {
    let blocks = vec![vec![0u8; 65536 + 3]];
    let (seen, _) = run(start(&blocks), vec![Some(status()), Some(printing())], || Some(status()));
    assert!(seen.contains(&"header 3 132".to_string()));
    assert!(seen.contains(&"full 3 60".to_string()));
}

fn failure(script: Vec<Option<PrinterStatus>>, rest: fn() -> Option<PrinterStatus>) -> (usize, Error) {
    let (seen, result) = run(start(&[vec![1]]), script, rest);
    (seen.iter().filter(|s| *s == "status").count(), result.unwrap_err())
}

fn response(text: &str) -> Error {
    Error::InvalidResponse(text.to_string())
}

#[test]
fn waits_give_up() {
    assert_eq!(failure(vec![], || None), (60, response("timeout waiting for device ready")));
    assert_eq!(
        failure(vec![], || Some(status())),
        (61, response("timeout waiting for printing station"))
    );
    assert_eq!(
        failure(vec![Some(status())], || Some(PrinterStatus { buf_full: true, ..printing() })),
        (202, response("timeout waiting for buffer space"))
    );
    // Running out of polls at the end is no success.
    assert_eq!(
        failure(vec![Some(status())], || Some(printing())),
        (303, Error::Timeout("print completion"))
    );
}

#[test]
fn error_flags_stop_a_print() {
    assert_eq!(failure(vec![Some(faulty("cover"))], || None), (1, response("printer error: cover")));
    assert_eq!(
        failure(vec![Some(status()), Some(faulty("label end"))], || None),
        (2, response("printer error after START_PRINT: label end"))
    );
    let nameless = PrinterStatus { has_error: true, ..printing() };
    assert_eq!(
        failure(vec![Some(status()), Some(printing()), Some(nameless)], || None),
        (3, response("printer error while waiting for buffer: "))
    );
    assert_eq!(PrintFault::NotPresent.error(), response("CHECK_DEVICE failed"));
    assert_eq!(PrintFault::NoBulkReply.error(), response("no response to NEXT_ZIPPEDBULK"));
}

#[test]
fn silence_stops_a_print() {
    let (mut job, _) = start(&[vec![1]]);
    assert!(matches!(job.step(Reply::Acked(false)), Request::Failed(PrintFault::NotPresent)));
    let (mut job, _) = start(&[vec![1]]);
    job.step(Reply::Acked(true));
    job.step(Reply::Status(Some(status())));
    job.step(Reply::Done);
    job.step(Reply::Status(Some(printing())));
    job.step(Reply::Done);
    assert!(matches!(
        job.step(Reply::Status(Some(printing()))),
        Request::BulkHeader { len: 1, packets: 1 }
    ));
    assert!(matches!(job.step(Reply::Answered(false)), Request::Failed(PrintFault::NoBulkReply)));
}

#[test]
fn waits_can_be_run_alone() {
    let p = Printer::new(());
    assert!(matches!(p.wait_ready(0), (_, WaitStep::GaveUp)));
    let (w, first) = p.wait_ready(1);
    assert!(matches!(first, WaitStep::Query));
    let (w, next) = w.polled(None);
    assert!(matches!(next, WaitStep::Sleep(100)));
    assert!(matches!(w.slept(), (_, WaitStep::GaveUp)));
    let (w, first) = p.wait_buffer_ready(2);
    assert!(matches!(first, WaitStep::Sleep(20)));
    let (w, next) = w.slept();
    assert!(matches!(next, WaitStep::Query));
    assert!(matches!(w.polled(Some(status())), (_, WaitStep::Met(_))));
    let (w, _) = p.wait_printing(5);
    assert!(matches!(w.polled(Some(faulty("x"))), (_, WaitStep::Faulty(Some(d))) if d == "x"));
    let (w, _) = Wait::begin(WaitKind::Completion, 1);
    let (w, _) = w.slept();
    assert!(matches!(w.polled(Some(busy())), (_, WaitStep::GaveUp)));
}

#[test]
fn packets_are_rounded_up() {
    assert_eq!(packet_count(0, 500), 0);
    assert_eq!(packet_count(500, 500), 1);
    assert_eq!(packet_count(501, 500), 2);
    assert_eq!(packet_count(usize::MAX, 1), usize::MAX);
}

fn read_back(uuid: &str) -> Option<MaterialInfo> {
    Some(MaterialInfo { uuid: uuid.to_string(), ..Default::default() })
}

/// A record counts as taken once its UUID echoes back, not before.
#[test]
fn records_are_confirmed_by_their_echo() {
    let (mut p, first) = Printer::new(()).provision_material(&RfidMaterial::default());
    assert!(matches!(first, ProvisionRequest::Announce { len: 80 }));
    assert!(matches!(p.step(ProvisionReply::Acked(true)), ProvisionRequest::WriteRecord));
    assert!(matches!(p.step(ProvisionReply::Done), ProvisionRequest::Sleep(200)));
    assert!(matches!(p.step(ProvisionReply::Done), ProvisionRequest::QueryMaterial));
    assert!(matches!(
        p.step(ProvisionReply::Material(read_back("00001000000000"))),
        ProvisionRequest::Sleep(200)
    ));
    p.step(ProvisionReply::Done);
    assert!(matches!(
        p.step(ProvisionReply::Material(read_back("30000000000000"))),
        ProvisionRequest::Taken(m) if m.uuid == "30000000000000"
    ));
}

#[test]
fn records_that_do_not_take_are_reported() {
    let (mut p, _) = Printer::new(()).provision_material(&RfidMaterial::default());
    assert!(matches!(p.step(ProvisionReply::Acked(false)), ProvisionRequest::NoAck));
    let (mut p, _) = Printer::new(()).provision_material(&RfidMaterial::default());
    p.step(ProvisionReply::Acked(true));
    let mut request = p.step(ProvisionReply::Done);
    let mut polls = 0;
    let last = loop {
        request = match request {
            ProvisionRequest::Sleep(200) => p.step(ProvisionReply::Done),
            ProvisionRequest::QueryMaterial => {
                polls += 1;
                p.step(ProvisionReply::Material(read_back("00")))
            }
            ProvisionRequest::NotTaken(last) => break last,
            other => panic!("{other:?}"),
        };
    };
    assert_eq!(polls, 10);
    assert_eq!(
        not_taken(&last, &p.expected),
        response("record not taken: printer reports UUID 00 (wrote 30000000000000)")
    );
    assert_eq!(
        not_taken(&None, "x"),
        response("record not taken: no material info after write")
    );
}

#[test]
fn feeding_and_announcing() {
    let p = Printer::new(());
    assert_eq!(p.paper_skip(true), Ok(()));
    assert_eq!(p.paper_skip(false), Err(response("PAPER_SKIP: no ack")));
    assert_eq!(p.set_rfid_data(&[0; 80]), Ok(80));
    assert_eq!(
        p.set_rfid_data(&[0; 65536]),
        Err(Error::InvalidParam("RFID record too long: 65536".to_string()))
    );
    assert_eq!(p.rfid_no_ack(), response("SET_RFID_DATA: no ack"));
}
