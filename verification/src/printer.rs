//! The print flow as decisions: what to ask of the printer next, given what it
//! answered.
//!
//! Check device, poll ready, start, poll printing, transfer the blocks, poll
//! complete. Whoever owns the link performs each request and hands back the
//! reply; an error of the link itself ends the flow there.

use crate::bytes::{ceil_div, low_word};
use crate::error::Error;
use crate::rfid::{uuid_of, RfidMaterial};
use crate::status::{MaterialInfo, PrinterStatus};
use crate::text::{
    after_prefix, chars_of, decimal, hex_of, hex_upper, matches_at, push_decimal, same_text,
    starts_with, string_of,
};
use vstd::prelude::*;

verus! {

/// Status polls before giving up on an idle printer.
pub const READY_ATTEMPTS: usize = 60;

/// Status polls before giving up on the printing station.
pub const PRINTING_ATTEMPTS: usize = 60;

/// Status polls before giving up on buffer space.
pub const BUFFER_READY_ATTEMPTS: usize = 200;

/// Status polls before giving up on completion: thirty seconds.
pub const COMPLETION_POLLS: usize = 300;

/// Between polls of the state, in milliseconds.
pub const POLL_INTERVAL_MS: u64 = 100;

/// Between polls of the buffer, and before a transfer is closed.
pub const BUFFER_INTERVAL_MS: u64 = 20;

/// Material polls after a record was written: about two seconds.
pub const SETTLE_POLLS: usize = 10;

/// Between material polls, in milliseconds.
pub const SETTLE_INTERVAL_MS: u64 = 200;

// ---------------------------------------------------------------------------
// Targets
// ---------------------------------------------------------------------------

/// The address behind a BLE scheme.
pub open spec fn ble_address(target: Seq<char>) -> Option<Seq<char>> {
    match after_prefix(target, "ble://"@) {
        Some(rest) => Some(rest),
        None => after_prefix(target, "ble:"@),
    }
}

fn strip_prefix(s: &str, prefix: &str) -> (r: Option<String>)
    ensures
        match (r, after_prefix(s@, prefix@)) {
            (Some(a), Some(b)) => a@ == b,
            (None, None) => true,
            _ => false,
        },
{
    let v: Vec<char> = chars_of(s);
    let p: Vec<char> = chars_of(prefix);
    assert(v@.skip(0) =~= v@);
    if matches_at(&v, 0, &p) {
        let rest: String = string_of(&v, p.len(), v.len());
        assert(rest@ =~= s@.skip(prefix@.len() as int));
        Some(rest)
    } else {
        None
    }
}

/// Strip the `ble://` (or `ble:`) scheme from a target string.
pub fn ble_target(target: &str) -> (r: Option<String>)
    ensures
        match (r, ble_address(target@)) {
            (Some(a), Some(b)) => a@ == b,
            (None, None) => true,
            _ => false,
        },
{
    match strip_prefix(target, "ble://") {
        Some(rest) => Some(rest),
        None => strip_prefix(target, "ble:"),
    }
}

/// How a printer is reached.
#[derive(Debug)]
pub enum Target {
    /// USB HID at a device path.
    Usb(String),
    /// BLE GATT at an address.
    Ble(String),
    /// Classic Bluetooth RFCOMM at an address.
    Bt(String),
}

/// The target that a target string means.
pub open spec fn is_target(t: Target, s: Seq<char>) -> bool {
    if "/dev/hidraw"@.is_prefix_of(s) {
        t matches Target::Usb(path) && path@ == s
    } else {
        match ble_address(s) {
            Some(addr) => t matches Target::Ble(a) && a@ == addr,
            None => t matches Target::Bt(a) && a@ == s,
        }
    }
}

/// Reads a target string:
/// - `/dev/hidrawN`: USB HID
/// - `ble://AA:BB:CC:DD:EE:FF`: BLE GATT
/// - anything else: a classic Bluetooth RFCOMM address
pub fn open_target(target: &str) -> (r: Target)
    ensures
        is_target(r, target@),
{
    if starts_with(target, "/dev/hidraw") {
        return Target::Usb(target.to_owned());
    }
    match ble_target(target) {
        Some(addr) => Target::Ble(addr),
        None => Target::Bt(target.to_owned()),
    }
}

/// What is said where BLE is not built in.
pub fn ble_unavailable(addr: &str) -> (r: Error)
    ensures
        r matches Error::InvalidParam(m) && m@ == "cannot open "@ + addr@
            + " over BLE: built without the `ble` feature"@,
{
    let mut m: String = "cannot open ".to_owned();
    m.append(addr);
    m.append(" over BLE: built without the `ble` feature");
    Error::InvalidParam(m)
}

// ---------------------------------------------------------------------------
// Waiting
// ---------------------------------------------------------------------------

/// What is waited for.
#[derive(Debug, Clone, Copy, PartialEq, Eq, Structural)]
pub enum WaitKind {
    /// The device idle: not busy, not printing.
    Ready,
    /// The printing station active.
    Printing,
    /// Buffer space available.
    Buffer,
    /// The print done: not printing, not busy.
    Completion,
}

/// What a status means to a wait.
pub enum Verdict {
    Met,
    Again,
    Faulty,
}

/// A wait looks before it sleeps, or sleeps before it looks.
pub open spec fn sleeps_first(kind: WaitKind) -> bool {
    kind == WaitKind::Buffer || kind == WaitKind::Completion
}

/// How long a wait sleeps between polls.
pub open spec fn interval(kind: WaitKind) -> u64 {
    if kind == WaitKind::Buffer {
        BUFFER_INTERVAL_MS
    } else {
        POLL_INTERVAL_MS
    }
}

/// What a status means to a wait.
///
/// A printer that raises an error flag once it was started (label end, cover
/// open, mode mismatch) drops the link and beeps: there is no point in going on.
pub open spec fn verdict(kind: WaitKind, st: Option<PrinterStatus>) -> Verdict {
    match st {
        None => Verdict::Again,
        Some(s) => match kind {
            WaitKind::Ready | WaitKind::Completion => if s.idle() {
                Verdict::Met
            } else {
                Verdict::Again
            },
            WaitKind::Printing => if s.has_error {
                Verdict::Faulty
            } else if s.printing {
                Verdict::Met
            } else {
                Verdict::Again
            },
            WaitKind::Buffer => if s.has_error {
                Verdict::Faulty
            } else if !s.buf_full {
                Verdict::Met
            } else {
                Verdict::Again
            },
        },
    }
}

/// A wait in progress.
#[derive(Debug, Clone, Copy, PartialEq, Eq, Structural)]
pub struct Wait {
    pub kind: WaitKind,
    /// Polls left, the one under way among them.
    pub left: usize,
    /// It is sleeping rather than awaiting a status.
    pub asleep: bool,
}

/// What a wait asks for or comes to.
#[derive(Debug)]
pub enum WaitStep {
    Query,
    Sleep(u64),
    /// The awaited state, as reported.
    Met(PrinterStatus),
    /// The polls ran out.
    GaveUp,
    /// The printer raised an error flag.
    Faulty(Option<String>),
}

impl Wait {
    /// A wait under way has a poll to make.
    pub open spec fn wf(self) -> bool {
        self.left > 0
    }

    /// How many more requests the wait can make, the one under way among them.
    pub open spec fn rank(self) -> int {
        2 * self.left - if self.asleep == sleeps_first(self.kind) {
            0int
        } else {
            1
        }
    }
}

/// A wait at its start.
pub open spec fn wait_start(kind: WaitKind, attempts: usize) -> Wait {
    Wait { kind, left: attempts, asleep: sleeps_first(kind) }
}

/// The first request of a wait.
pub open spec fn first_request(kind: WaitKind, attempts: usize) -> WaitStep {
    if attempts == 0 {
        WaitStep::GaveUp
    } else if sleeps_first(kind) {
        WaitStep::Sleep(interval(kind))
    } else {
        WaitStep::Query
    }
}

/// The wait with one poll less.
pub open spec fn one_less(w: Wait) -> Wait {
    Wait { kind: w.kind, left: (w.left - 1) as usize, asleep: sleeps_first(w.kind) }
}

/// The wait once it slept.
pub open spec fn after_sleep(w: Wait) -> (Wait, WaitStep) {
    if sleeps_first(w.kind) {
        (Wait { asleep: false, ..w }, WaitStep::Query)
    } else {
        (one_less(w), first_request(w.kind, (w.left - 1) as usize))
    }
}

/// The wait once a status came in.
pub open spec fn after_status(w: Wait, st: Option<PrinterStatus>) -> (Wait, WaitStep) {
    match (verdict(w.kind, st), st) {
        (Verdict::Met, Some(s)) => (w, WaitStep::Met(s)),
        (Verdict::Faulty, Some(s)) => (w, WaitStep::Faulty(s.error_description)),
        _ => if sleeps_first(w.kind) {
            (one_less(w), first_request(w.kind, (w.left - 1) as usize))
        } else {
            (Wait { asleep: true, ..w }, WaitStep::Sleep(interval(w.kind)))
        },
    }
}

impl Wait {
    /// Starts a wait of at most `attempts` polls.
    pub fn begin(kind: WaitKind, attempts: usize) -> (r: (Wait, WaitStep))
        ensures
            r.0 == wait_start(kind, attempts),
            r.1 == first_request(kind, attempts),
    {
        let asleep: bool = kind == WaitKind::Buffer || kind == WaitKind::Completion;
        let w: Wait = Wait { kind, left: attempts, asleep };
        if attempts == 0 {
            (w, WaitStep::GaveUp)
        } else if asleep {
            (
                w,
                WaitStep::Sleep(
                    if kind == WaitKind::Buffer {
                        BUFFER_INTERVAL_MS
                    } else {
                        POLL_INTERVAL_MS
                    },
                ),
            )
        } else {
            (w, WaitStep::Query)
        }
    }

    /// Goes on once it slept.
    pub fn slept(self) -> (r: (Wait, WaitStep))
        requires
            self.wf(),
        ensures
            r == after_sleep(self),
    {
        if self.kind == WaitKind::Buffer || self.kind == WaitKind::Completion {
            (Wait { kind: self.kind, left: self.left, asleep: false }, WaitStep::Query)
        } else {
            Wait::begin(self.kind, self.left - 1)
        }
    }

    /// Goes on once a status came in, or none did.
    pub fn polled(self, st: Option<PrinterStatus>) -> (r: (Wait, WaitStep))
        requires
            self.wf(),
        ensures
            r == after_status(self, st),
    {
        match st {
            Some(s) => {
                let watches: bool = self.kind == WaitKind::Printing || self.kind
                    == WaitKind::Buffer;
                if watches && s.has_error {
                    return (self, WaitStep::Faulty(s.error_description));
                }
                let met: bool = match self.kind {
                    WaitKind::Ready | WaitKind::Completion => s.is_idle(),
                    WaitKind::Printing => s.printing,
                    WaitKind::Buffer => !s.buf_full,
                };
                if met {
                    return (self, WaitStep::Met(s));
                }
            },
            None => {},
        }
        if self.kind == WaitKind::Buffer || self.kind == WaitKind::Completion {
            Wait::begin(self.kind, self.left - 1)
        } else {
            (
                Wait { kind: self.kind, left: self.left, asleep: true },
                WaitStep::Sleep(POLL_INTERVAL_MS),
            )
        }
    }
}

/// A wait comes to an end: each request it makes leaves it fewer to make.
pub proof fn waits_come_to_an_end(w: Wait, st: Option<PrinterStatus>)
    requires
        w.wf(),
    ensures
        w.asleep ==> {
            let (v, step) = after_sleep(w);
            step !is GaveUp ==> v.wf() && v.rank() < w.rank()
        },
        !w.asleep ==> {
            let (v, step) = after_status(w, st);
            (step is Query || step is Sleep) ==> v.wf() && v.rank() < w.rank()
        },
        w.rank() <= 2 * w.left,
{
}

/// A wait for buffer space or for the station never ends well on a printer that
/// raises an error flag.
pub proof fn no_wait_is_met_on_error(w: Wait, s: PrinterStatus)
    requires
        w.kind == WaitKind::Printing || w.kind == WaitKind::Buffer,
        s.has_error,
    ensures
        after_status(w, Some(s)).1 == WaitStep::Faulty(s.error_description),
{
}

// ---------------------------------------------------------------------------
// Printing
// ---------------------------------------------------------------------------

/// Why a print failed.
#[derive(Debug)]
pub enum PrintFault {
    /// The device check was not answered.
    NotPresent,
    /// The device never became idle.
    NotReady,
    /// An error flag was up before the start.
    BeforeStart(Option<String>),
    /// An error flag went up after the start.
    AfterStart(Option<String>),
    /// The printing station never became active.
    NoStation,
    /// An error flag went up while waiting for buffer space.
    AtBuffer(Option<String>),
    /// There never was buffer space.
    NoBuffer,
    /// The bulk header was not answered.
    NoBulkReply,
    /// The print never completed.
    Incomplete,
}

/// The description, or nothing.
pub open spec fn described(d: Option<String>) -> Seq<char> {
    match d {
        Some(s) => s@,
        None => Seq::empty(),
    }
}

impl PrintFault {
    /// The error that is reported for the fault.
    pub open spec fn is_reported_as(self, e: Error) -> bool {
        match self {
            PrintFault::NotPresent => e matches Error::InvalidResponse(m) && m@
                == "CHECK_DEVICE failed"@,
            PrintFault::NotReady => e matches Error::InvalidResponse(m) && m@
                == "timeout waiting for device ready"@,
            PrintFault::BeforeStart(d) => e matches Error::InvalidResponse(m) && m@
                == "printer error: "@ + described(d),
            PrintFault::AfterStart(d) => e matches Error::InvalidResponse(m) && m@
                == "printer error after START_PRINT: "@ + described(d),
            PrintFault::NoStation => e matches Error::InvalidResponse(m) && m@
                == "timeout waiting for printing station"@,
            PrintFault::AtBuffer(d) => e matches Error::InvalidResponse(m) && m@
                == "printer error while waiting for buffer: "@ + described(d),
            PrintFault::NoBuffer => e matches Error::InvalidResponse(m) && m@
                == "timeout waiting for buffer space"@,
            PrintFault::NoBulkReply => e matches Error::InvalidResponse(m) && m@
                == "no response to NEXT_ZIPPEDBULK"@,
            PrintFault::Incomplete => e matches Error::Timeout(m) && m@ == "print completion"@,
        }
    }

    /// The error to report for the fault.
    pub fn error(self) -> (r: Error)
        ensures
            self.is_reported_as(r),
    {
        match self {
            PrintFault::NotPresent => Error::InvalidResponse("CHECK_DEVICE failed".to_owned()),
            PrintFault::NotReady => Error::InvalidResponse(
                "timeout waiting for device ready".to_owned(),
            ),
            PrintFault::BeforeStart(d) => with_description("printer error: ", d),
            PrintFault::AfterStart(d) => with_description("printer error after START_PRINT: ", d),
            PrintFault::NoStation => Error::InvalidResponse(
                "timeout waiting for printing station".to_owned(),
            ),
            PrintFault::AtBuffer(d) => with_description(
                "printer error while waiting for buffer: ",
                d,
            ),
            PrintFault::NoBuffer => Error::InvalidResponse(
                "timeout waiting for buffer space".to_owned(),
            ),
            PrintFault::NoBulkReply => Error::InvalidResponse(
                "no response to NEXT_ZIPPEDBULK".to_owned(),
            ),
            PrintFault::Incomplete => Error::Timeout("print completion"),
        }
    }
}

fn with_description(what: &str, d: Option<String>) -> (r: Error)
    ensures
        r matches Error::InvalidResponse(m) && m@ == what@ + described(d),
{
    let mut m: String = what.to_owned();
    match d {
        Some(s) => {
            m.append(s.as_str());
        },
        None => {
            assert(what@ + described(d) =~= what@);
        },
    }
    Error::InvalidResponse(m)
}

/// Where a print stands: what was asked of the printer last.
#[derive(Debug)]
pub enum Phase {
    Check,
    Ready(Wait),
    Start,
    Printing(Wait),
    /// Waiting for space for a block.
    Buffer(usize, Wait),
    /// The header of a block went out.
    Header(usize),
    /// The data of a block went out.
    Data(usize),
    /// The pause before a block is closed.
    Pause(usize),
    /// A block is closed.
    Full(usize),
    Completion(Wait),
    Over,
}

/// What to do for a print.
#[derive(Debug)]
pub enum Request {
    CheckDevice,
    QueryStatus,
    /// Sleep so many milliseconds.
    Sleep(u64),
    StartPrint,
    /// Announce a block of `len` bytes in `packets` packets.
    BulkHeader { len: u16, packets: usize },
    /// Send the data of a block, without reading a response after the last
    /// frame: the transfer is acknowledged only by the answer to its closing.
    BulkData { block: usize },
    /// Close a block.
    BufFull { len: u16, speed: u16 },
    /// The print is complete.
    Finished,
    Failed(PrintFault),
}

/// What came of a request.
#[derive(Debug)]
pub enum Reply {
    /// The device check was acknowledged, or not.
    Acked(bool),
    /// The status, where one came back.
    Status(Option<PrinterStatus>),
    /// The bulk header was answered, or not.
    Answered(bool),
    /// It was done; whatever came back does not matter.
    Done,
}

/// A print under way.
#[derive(Debug)]
pub struct PrintJob {
    /// The length of each block.
    pub lens: Vec<usize>,
    /// The bytes that one packet carries.
    pub payload: usize,
    pub speed: u16,
    pub phase: Phase,
}

/// The reply answers what the wait asked for.
pub open spec fn fits_wait(w: Wait, reply: Reply) -> bool {
    if w.asleep {
        reply is Done
    } else {
        reply is Status
    }
}

/// The wait once the reply came in.
pub open spec fn after_reply(w: Wait, reply: Reply) -> (Wait, WaitStep) {
    match reply {
        Reply::Status(st) => after_status(w, st),
        _ => after_sleep(w),
    }
}

impl PrintJob {
    /// There is something to send, and every wait is under way for what its
    /// phase waits for.
    pub open spec fn wf(self) -> bool {
        &&& self.lens@.len() > 0
        &&& self.payload > 0
        &&& match self.phase {
            Phase::Ready(w) => w.wf() && w.kind == WaitKind::Ready && w.left <= READY_ATTEMPTS,
            Phase::Printing(w) => w.wf() && w.kind == WaitKind::Printing && w.left
                <= PRINTING_ATTEMPTS,
            Phase::Buffer(b, w) => b < self.lens@.len() && w.wf() && w.kind == WaitKind::Buffer
                && w.left <= BUFFER_READY_ATTEMPTS,
            Phase::Header(b) | Phase::Data(b) | Phase::Pause(b) | Phase::Full(b) => b
                < self.lens@.len(),
            Phase::Completion(w) => w.wf() && w.kind == WaitKind::Completion && w.left
                <= COMPLETION_POLLS,
            _ => true,
        }
    }

    /// The reply answers what was asked last.
    pub open spec fn fits(self, reply: Reply) -> bool {
        match self.phase {
            Phase::Check => reply is Acked,
            Phase::Ready(w) => fits_wait(w, reply),
            Phase::Start => reply is Done,
            Phase::Printing(w) => fits_wait(w, reply),
            Phase::Buffer(_, w) => fits_wait(w, reply),
            Phase::Header(_) => reply is Answered,
            Phase::Data(_) | Phase::Pause(_) | Phase::Full(_) => reply is Done,
            Phase::Completion(w) => fits_wait(w, reply),
            Phase::Over => false,
        }
    }

    /// The length that a block is announced and closed with: its low sixteen
    /// bits.
    pub open spec fn announced(self, b: int) -> u16 {
        (self.lens@[b] % 65536) as u16
    }

    /// The phase after the reply, and the request that goes with it.
    pub open spec fn next(self, reply: Reply) -> (Phase, Request) {
        match self.phase {
            Phase::Check => if reply == Reply::Acked(true) {
                (
                    Phase::Ready(wait_start(WaitKind::Ready, READY_ATTEMPTS)),
                    Request::QueryStatus,
                )
            } else {
                (Phase::Over, Request::Failed(PrintFault::NotPresent))
            },
            Phase::Ready(w) => {
                let (v, step) = after_reply(w, reply);
                match step {
                    WaitStep::Met(s) => if s.has_error {
                        (
                            Phase::Over,
                            Request::Failed(PrintFault::BeforeStart(s.error_description)),
                        )
                    } else {
                        (Phase::Start, Request::StartPrint)
                    },
                    WaitStep::Query => (Phase::Ready(v), Request::QueryStatus),
                    WaitStep::Sleep(ms) => (Phase::Ready(v), Request::Sleep(ms)),
                    _ => (Phase::Over, Request::Failed(PrintFault::NotReady)),
                }
            },
            Phase::Start => (
                Phase::Printing(wait_start(WaitKind::Printing, PRINTING_ATTEMPTS)),
                Request::QueryStatus,
            ),
            Phase::Printing(w) => {
                let (v, step) = after_reply(w, reply);
                match step {
                    WaitStep::Met(_) => buffer_phase(0),
                    WaitStep::Query => (Phase::Printing(v), Request::QueryStatus),
                    WaitStep::Sleep(ms) => (Phase::Printing(v), Request::Sleep(ms)),
                    WaitStep::GaveUp => (Phase::Over, Request::Failed(PrintFault::NoStation)),
                    WaitStep::Faulty(d) => (
                        Phase::Over,
                        Request::Failed(PrintFault::AfterStart(d)),
                    ),
                }
            },
            Phase::Buffer(b, w) => {
                let (v, step) = after_reply(w, reply);
                match step {
                    WaitStep::Met(_) => (
                        Phase::Header(b),
                        Request::BulkHeader {
                            len: self.announced(b as int),
                            packets: ceil_div(
                                self.lens@[b as int] as int,
                                self.payload as int,
                            ) as usize,
                        },
                    ),
                    WaitStep::Query => (Phase::Buffer(b, v), Request::QueryStatus),
                    WaitStep::Sleep(ms) => (Phase::Buffer(b, v), Request::Sleep(ms)),
                    WaitStep::GaveUp => (Phase::Over, Request::Failed(PrintFault::NoBuffer)),
                    WaitStep::Faulty(d) => (Phase::Over, Request::Failed(PrintFault::AtBuffer(d))),
                }
            },
            Phase::Header(b) => if reply == Reply::Answered(true) {
                (Phase::Data(b), Request::BulkData { block: b })
            } else {
                (Phase::Over, Request::Failed(PrintFault::NoBulkReply))
            },
            Phase::Data(b) => (Phase::Pause(b), Request::Sleep(BUFFER_INTERVAL_MS)),
            Phase::Pause(b) => (
                Phase::Full(b),
                Request::BufFull { len: self.announced(b as int), speed: self.speed },
            ),
            Phase::Full(b) => if b + 1 < self.lens@.len() {
                buffer_phase((b + 1) as usize)
            } else {
                (
                    Phase::Completion(wait_start(WaitKind::Completion, COMPLETION_POLLS)),
                    Request::Sleep(POLL_INTERVAL_MS),
                )
            },
            Phase::Completion(w) => {
                let (v, step) = after_reply(w, reply);
                match step {
                    WaitStep::Met(_) => (Phase::Over, Request::Finished),
                    WaitStep::Query => (Phase::Completion(v), Request::QueryStatus),
                    WaitStep::Sleep(ms) => (Phase::Completion(v), Request::Sleep(ms)),
                    _ => (Phase::Over, Request::Failed(PrintFault::Incomplete)),
                }
            },
            Phase::Over => (Phase::Over, Request::Finished),
        }
    }

    /// Starts a print of compressed blocks: their lengths, the bytes that a
    /// packet carries, and the speed. The first thing to do is to check the
    /// device.
    pub fn start(lens: Vec<usize>, payload: usize, speed: u16) -> (r: (PrintJob, Request))
        requires
            lens@.len() > 0,
            payload > 0,
        ensures
            r.0 == (PrintJob { lens, payload, speed, phase: Phase::Check }),
            r.0.wf(),
            r.1 == Request::CheckDevice,
    {
        (PrintJob { lens, payload, speed, phase: Phase::Check }, Request::CheckDevice)
    }

    /// Goes on with what came of the last request.
    pub fn step(&mut self, reply: Reply) -> (r: Request)
        requires
            old(self).wf(),
            old(self).fits(reply),
        ensures
            final(self).wf(),
            (final(self).phase, r) == old(self).next(reply),
            final(self).lens == old(self).lens,
            final(self).payload == old(self).payload,
            final(self).speed == old(self).speed,
    {
        let mut phase: Phase = Phase::Over;
        std::mem::swap(&mut phase, &mut self.phase);
        match phase {
            Phase::Check => match reply {
                Reply::Acked(true) => {
                    let (w, _) = Wait::begin(WaitKind::Ready, READY_ATTEMPTS);
                    self.phase = Phase::Ready(w);
                    Request::QueryStatus
                },
                _ => Request::Failed(PrintFault::NotPresent),
            },
            Phase::Ready(w) => {
                let (v, step) = advance(w, reply);
                match step {
                    WaitStep::Met(s) => {
                        if s.has_error {
                            Request::Failed(PrintFault::BeforeStart(s.error_description))
                        } else {
                            self.phase = Phase::Start;
                            Request::StartPrint
                        }
                    },
                    WaitStep::Query => {
                        self.phase = Phase::Ready(v);
                        Request::QueryStatus
                    },
                    WaitStep::Sleep(ms) => {
                        self.phase = Phase::Ready(v);
                        Request::Sleep(ms)
                    },
                    _ => Request::Failed(PrintFault::NotReady),
                }
            },
            Phase::Start => {
                let (w, _) = Wait::begin(WaitKind::Printing, PRINTING_ATTEMPTS);
                self.phase = Phase::Printing(w);
                Request::QueryStatus
            },
            Phase::Printing(w) => {
                let (v, step) = advance(w, reply);
                match step {
                    WaitStep::Met(_) => self.await_buffer(0),
                    WaitStep::Query => {
                        self.phase = Phase::Printing(v);
                        Request::QueryStatus
                    },
                    WaitStep::Sleep(ms) => {
                        self.phase = Phase::Printing(v);
                        Request::Sleep(ms)
                    },
                    WaitStep::GaveUp => Request::Failed(PrintFault::NoStation),
                    WaitStep::Faulty(d) => Request::Failed(PrintFault::AfterStart(d)),
                }
            },
            Phase::Buffer(b, w) => {
                let (v, step) = advance(w, reply);
                match step {
                    WaitStep::Met(_) => {
                        let len: usize = self.lens[b];
                        self.phase = Phase::Header(b);
                        Request::BulkHeader {
                            len: low_word(len),
                            packets: packet_count(len, self.payload),
                        }
                    },
                    WaitStep::Query => {
                        self.phase = Phase::Buffer(b, v);
                        Request::QueryStatus
                    },
                    WaitStep::Sleep(ms) => {
                        self.phase = Phase::Buffer(b, v);
                        Request::Sleep(ms)
                    },
                    WaitStep::GaveUp => Request::Failed(PrintFault::NoBuffer),
                    WaitStep::Faulty(d) => Request::Failed(PrintFault::AtBuffer(d)),
                }
            },
            Phase::Header(b) => match reply {
                Reply::Answered(true) => {
                    self.phase = Phase::Data(b);
                    Request::BulkData { block: b }
                },
                _ => Request::Failed(PrintFault::NoBulkReply),
            },
            Phase::Data(b) => {
                self.phase = Phase::Pause(b);
                Request::Sleep(BUFFER_INTERVAL_MS)
            },
            Phase::Pause(b) => {
                let len: usize = self.lens[b];
                self.phase = Phase::Full(b);
                Request::BufFull { len: low_word(len), speed: self.speed }
            },
            Phase::Full(b) => {
                if b < self.lens.len() - 1 {
                    self.await_buffer(b + 1)
                } else {
                    let (w, _) = Wait::begin(WaitKind::Completion, COMPLETION_POLLS);
                    self.phase = Phase::Completion(w);
                    Request::Sleep(POLL_INTERVAL_MS)
                }
            },
            Phase::Completion(w) => {
                let (v, step) = advance(w, reply);
                match step {
                    WaitStep::Met(_) => Request::Finished,
                    WaitStep::Query => {
                        self.phase = Phase::Completion(v);
                        Request::QueryStatus
                    },
                    WaitStep::Sleep(ms) => {
                        self.phase = Phase::Completion(v);
                        Request::Sleep(ms)
                    },
                    _ => Request::Failed(PrintFault::Incomplete),
                }
            },
            Phase::Over => Request::Finished,
        }
    }

    /// Waits for space for block `b`.
    fn await_buffer(&mut self, b: usize) -> (r: Request)
        ensures
            (final(self).phase, r) == buffer_phase(b),
            final(self).lens == old(self).lens,
            final(self).payload == old(self).payload,
            final(self).speed == old(self).speed,
    {
        let (w, _) = Wait::begin(WaitKind::Buffer, BUFFER_READY_ATTEMPTS);
        self.phase = Phase::Buffer(b, w);
        Request::Sleep(BUFFER_INTERVAL_MS)
    }
}

/// Waiting for space for block `b`.
pub open spec fn buffer_phase(b: usize) -> (Phase, Request) {
    (
        Phase::Buffer(b, wait_start(WaitKind::Buffer, BUFFER_READY_ATTEMPTS)),
        Request::Sleep(BUFFER_INTERVAL_MS),
    )
}

fn advance(w: Wait, reply: Reply) -> (r: (Wait, WaitStep))
    requires
        w.wf(),
        fits_wait(w, reply),
    ensures
        r == after_reply(w, reply),
{
    match reply {
        Reply::Status(st) => w.polled(st),
        _ => w.slept(),
    }
}

/// How many packets of `payload` bytes carry `len` bytes.
pub fn packet_count(len: usize, payload: usize) -> (r: usize)
    requires
        payload > 0,
    ensures
        r == ceil_div(len as int, payload as int),
{
    let whole: usize = len / payload;
    let rest: usize = len % payload;
    proof {
        let l = len as int;
        let p = payload as int;
        vstd::arithmetic::div_mod::lemma_fundamental_div_mod(l, p);
        if rest == 0 {
            assert(l + p - 1 == whole * p + (p - 1)) by (nonlinear_arith)
                requires
                    l == p * whole + 0,
            ;
            vstd::arithmetic::div_mod::lemma_fundamental_div_mod_converse(
                l + p - 1,
                p,
                whole as int,
                p - 1,
            );
        } else {
            assert(l + p - 1 == (whole + 1) * p + (rest - 1)) by (nonlinear_arith)
                requires
                    l == p * whole + rest,
            ;
            vstd::arithmetic::div_mod::lemma_fundamental_div_mod_converse(
                l + p - 1,
                p,
                whole + 1,
                rest - 1,
            );
            assert(whole + 1 <= l) by (nonlinear_arith)
                requires
                    l == p * whole + rest,
                    p >= 1,
                    rest >= 1,
            ;
        }
    }
    if rest == 0 {
        whole
    } else {
        whole + 1
    }
}

/// How many requests one block can take: the wait for space and the transfer.
pub open spec fn block_effort() -> int {
    2 * BUFFER_READY_ATTEMPTS + 4
}

impl PrintJob {
    /// The requests that blocks `b..` and the completion can take.
    pub open spec fn effort_from(self, b: int) -> int {
        (self.lens@.len() - b) * block_effort() + 2 * COMPLETION_POLLS
    }

    /// How many more requests the print can make, the one under way among them.
    pub open spec fn effort(self) -> int {
        match self.phase {
            Phase::Check => 2 + 2 * READY_ATTEMPTS + 2 * PRINTING_ATTEMPTS + self.effort_from(0),
            Phase::Ready(w) => w.rank() + 1 + 2 * PRINTING_ATTEMPTS + self.effort_from(0),
            Phase::Start => 1 + 2 * PRINTING_ATTEMPTS + self.effort_from(0),
            Phase::Printing(w) => w.rank() + self.effort_from(0),
            Phase::Buffer(b, w) => w.rank() + 4 + self.effort_from(b + 1),
            Phase::Header(b) => 4 + self.effort_from(b + 1),
            Phase::Data(b) => 3 + self.effort_from(b + 1),
            Phase::Pause(b) => 2 + self.effort_from(b + 1),
            Phase::Full(b) => 1 + self.effort_from(b + 1),
            Phase::Completion(w) => w.rank(),
            Phase::Over => 0,
        }
    }

    /// How many blocks went out.
    pub open spec fn blocks_sent(self) -> int {
        match self.phase {
            Phase::Buffer(b, _) | Phase::Header(b) => b as int,
            Phase::Data(b) | Phase::Pause(b) | Phase::Full(b) => b + 1,
            Phase::Completion(_) | Phase::Over => self.lens@.len() as int,
            _ => 0,
        }
    }
}

/// A print comes to an end: each request leaves it fewer to make, whatever the
/// printer answers.
pub proof fn prints_come_to_an_end(job: PrintJob, reply: Reply)
    requires
        job.wf(),
        job.fits(reply),
    ensures
        0 <= (PrintJob { phase: job.next(reply).0, ..job }).effort() < job.effort(),
{
    let n = job.lens@.len() as int;
    assert(job.lens.len() == n);
    match job.phase {
        Phase::Buffer(b, _) | Phase::Header(b) | Phase::Data(b) | Phase::Pause(b) | Phase::Full(
            b,
        ) => {
            assert(n - (b + 1) >= 0);
            assert((n - (b + 1)) * block_effort() == (n - (b + 2)) * block_effort()
                + block_effort()) by (nonlinear_arith);
            assert((n - (b + 1)) * block_effort() >= 0) by (nonlinear_arith)
                requires
                    n - (b + 1) >= 0,
            ;
        },
        _ => {
            assert(n * block_effort() == (n - 1) * block_effort() + block_effort())
                by (nonlinear_arith);
            assert((n - 1) * block_effort() >= 0) by (nonlinear_arith)
                requires
                    n >= 1,
            ;
        },
    }
}

/// Every block goes out once and in order, each right after its header was
/// answered; nothing else sends data.
pub proof fn blocks_go_out_in_order(job: PrintJob, reply: Reply)
    requires
        job.wf(),
        job.fits(reply),
    ensures
        ({
            let (phase, request) = job.next(reply);
            let after = PrintJob { phase, ..job };
            &&& request matches Request::BulkData { block } ==> {
                &&& block == job.blocks_sent()
                &&& block < job.lens@.len()
                &&& after.blocks_sent() == job.blocks_sent() + 1
                &&& job.phase is Header && reply == Reply::Answered(true)
            }
            &&& request !is BulkData && phase !is Over ==> after.blocks_sent() == job.blocks_sent()
        }),
{
    assert(job.lens.len() == job.lens@.len());
}

/// A print succeeds only once all blocks went out and the printer reported
/// itself idle again; running out of polls is a failure, never a success.
pub proof fn prints_succeed_only_when_done(job: PrintJob, reply: Reply)
    requires
        job.wf(),
        job.fits(reply),
        job.next(reply).1 is Finished,
    ensures
        job.phase is Completion,
        job.blocks_sent() == job.lens@.len(),
        reply matches Reply::Status(Some(s)) && s.idle(),
{
}

/// Printing starts only on a printer that is idle and raises no error flag.
pub proof fn prints_start_only_when_ready(job: PrintJob, reply: Reply)
    requires
        job.wf(),
        job.fits(reply),
        job.next(reply).1 is StartPrint,
    ensures
        job.phase is Ready,
        reply matches Reply::Status(Some(s)) && s.idle() && !s.has_error,
{
}

/// A print is over exactly when it finished or failed.
pub proof fn prints_end_in_a_verdict(job: PrintJob, reply: Reply)
    requires
        job.wf(),
        job.fits(reply),
    ensures
        job.next(reply).0 is Over <==> (job.next(reply).1 is Finished || job.next(
            reply,
        ).1 is Failed),
{
}

proof fn lemma_next_wf(job: PrintJob, reply: Reply)
    requires
        job.wf(),
        job.fits(reply),
    ensures
        (PrintJob { phase: job.next(reply).0, ..job }).wf(),
{
    assert(job.lens.len() == job.lens@.len());
}

/// The print after a row of replies.
pub open spec fn job_after(job: PrintJob, replies: Seq<Reply>) -> PrintJob
    decreases replies.len(),
{
    if replies.len() == 0 {
        job
    } else {
        let before = job_after(job, replies.drop_last());
        PrintJob { phase: before.next(replies.last()).0, ..before }
    }
}

/// Each reply answers what was asked when it came.
pub open spec fn all_fit(job: PrintJob, replies: Seq<Reply>) -> bool
    decreases replies.len(),
{
    replies.len() == 0 || (all_fit(job, replies.drop_last()) && job_after(
        job,
        replies.drop_last(),
    ).fits(replies.last()))
}

/// The blocks whose data went out over a row of replies.
pub open spec fn blocks_out(job: PrintJob, replies: Seq<Reply>) -> Seq<usize>
    decreases replies.len(),
{
    if replies.len() == 0 {
        Seq::empty()
    } else {
        let front = blocks_out(job, replies.drop_last());
        match job_after(job, replies.drop_last()).next(replies.last()).1 {
            Request::BulkData { block } => front.push(block),
            _ => front,
        }
    }
}

/// The first `n` blocks in order.
pub open spec fn first_blocks(n: int) -> Seq<usize> {
    Seq::new(n as nat, |i: int| i as usize)
}

/// A whole print: whatever the printer answers, it takes no more requests than
/// [`PrintJob::effort`] counts at its start, and the blocks that went out are
/// the first ones, in order, each once. A print that finished has sent them all.
pub proof fn finished_prints_sent_every_block_once(job: PrintJob, replies: Seq<Reply>)
    requires
        job.wf(),
        job.phase is Check,
        all_fit(job, replies),
    ensures
        job_after(job, replies).wf(),
        job_after(job, replies).lens == job.lens,
        replies.len() + job_after(job, replies).effort() <= job.effort(),
        job_after(job, replies).phase !is Over ==> blocks_out(job, replies) == first_blocks(
            job_after(job, replies).blocks_sent(),
        ),
        replies.len() > 0 && job_after(job, replies.drop_last()).next(replies.last()).1 is Finished
            ==> blocks_out(job, replies) == first_blocks(job.lens@.len() as int),
    decreases replies.len(),
{
    if replies.len() == 0 {
        assert(blocks_out(job, replies) =~= first_blocks(0));
    } else {
        let front = replies.drop_last();
        let last = replies.last();
        let before = job_after(job, front);
        finished_prints_sent_every_block_once(job, front);
        lemma_next_wf(before, last);
        prints_come_to_an_end(before, last);
        blocks_go_out_in_order(before, last);
        if before.next(last).1 is Finished {
            prints_succeed_only_when_done(before, last);
        }
        let n = before.blocks_sent();
        assert(first_blocks(n).push(n as usize) =~= first_blocks(n + 1));
    }
}

// ---------------------------------------------------------------------------
// Provisioning
// ---------------------------------------------------------------------------

/// Where the writing of a material record stands.
#[derive(Debug, Clone, Copy, PartialEq, Eq, Structural)]
pub enum ProvisionPhase {
    /// The length of the record was announced.
    Announce,
    /// The record was written.
    Write,
    /// Sleeping before a material poll.
    Settle,
    /// Awaiting the material.
    Poll,
    Over,
}

/// What to do for a material record.
#[derive(Debug)]
pub enum ProvisionRequest {
    /// Announce the length of the record.
    Announce { len: u16 },
    /// Write the record, and read a response after the last frame.
    WriteRecord,
    /// Sleep so many milliseconds.
    Sleep(u64),
    QueryMaterial,
    /// The printer took the record: the material as read back.
    Taken(MaterialInfo),
    /// The announcement was not acknowledged.
    NoAck,
    /// The record did not take; the material as last read back.
    NotTaken(Option<MaterialInfo>),
}

/// What came of a request.
#[derive(Debug)]
pub enum ProvisionReply {
    Acked(bool),
    Done,
    Material(Option<MaterialInfo>),
}

/// The writing of a material record under way.
///
/// The commit is asynchronous: for a short window after the write the printer
/// still serves a half-updated record, so a single read straight after the write
/// reports a false failure. The material is polled until the synthetic UUID
/// echoes back.
#[derive(Debug)]
pub struct Provision {
    /// The UUID that tells that the record took.
    pub expected: String,
    /// Material polls left, the one under way among them.
    pub left: usize,
    pub phase: ProvisionPhase,
}

/// The material read back carries the UUID of the record.
pub open spec fn echoes(m: Option<MaterialInfo>, expected: Seq<char>) -> bool {
    m matches Some(m) && m.uuid@ == expected
}

impl Provision {
    pub open spec fn wf(self) -> bool {
        self.phase != ProvisionPhase::Over ==> 0 < self.left <= SETTLE_POLLS
    }

    /// The reply answers what was asked last.
    pub open spec fn fits(self, reply: ProvisionReply) -> bool {
        match self.phase {
            ProvisionPhase::Announce => reply is Acked,
            ProvisionPhase::Write | ProvisionPhase::Settle => reply is Done,
            ProvisionPhase::Poll => reply is Material,
            ProvisionPhase::Over => false,
        }
    }

    /// The phase and the polls left after the reply, and the request that goes
    /// with them.
    pub open spec fn next(self, reply: ProvisionReply) -> (ProvisionPhase, usize, ProvisionRequest) {
        match (self.phase, reply) {
            (ProvisionPhase::Announce, ProvisionReply::Acked(true)) => (
                ProvisionPhase::Write,
                self.left,
                ProvisionRequest::WriteRecord,
            ),
            (ProvisionPhase::Announce, _) => (
                ProvisionPhase::Over,
                self.left,
                ProvisionRequest::NoAck,
            ),
            (ProvisionPhase::Write, _) => (
                ProvisionPhase::Settle,
                self.left,
                ProvisionRequest::Sleep(SETTLE_INTERVAL_MS),
            ),
            (ProvisionPhase::Settle, _) => (
                ProvisionPhase::Poll,
                self.left,
                ProvisionRequest::QueryMaterial,
            ),
            (ProvisionPhase::Poll, ProvisionReply::Material(m)) => match m {
                Some(m) if m.uuid@ == self.expected@ => (
                    ProvisionPhase::Over,
                    self.left,
                    ProvisionRequest::Taken(m),
                ),
                other => if self.left == 1 {
                    (ProvisionPhase::Over, 0, ProvisionRequest::NotTaken(other))
                } else {
                    (
                        ProvisionPhase::Settle,
                        (self.left - 1) as usize,
                        ProvisionRequest::Sleep(SETTLE_INTERVAL_MS),
                    )
                },
            },
            (p, _) => (p, self.left, ProvisionRequest::NoAck),
        }
    }

    /// Goes on with what came of the last request.
    pub fn step(&mut self, reply: ProvisionReply) -> (r: ProvisionRequest)
        requires
            old(self).wf(),
            old(self).fits(reply),
        ensures
            final(self).wf(),
            (final(self).phase, final(self).left, r) == old(self).next(reply),
            final(self).expected == old(self).expected,
    {
        match self.phase {
            ProvisionPhase::Announce => match reply {
                ProvisionReply::Acked(true) => {
                    self.phase = ProvisionPhase::Write;
                    ProvisionRequest::WriteRecord
                },
                _ => {
                    self.phase = ProvisionPhase::Over;
                    ProvisionRequest::NoAck
                },
            },
            ProvisionPhase::Write => {
                self.phase = ProvisionPhase::Settle;
                ProvisionRequest::Sleep(SETTLE_INTERVAL_MS)
            },
            ProvisionPhase::Settle => {
                self.phase = ProvisionPhase::Poll;
                ProvisionRequest::QueryMaterial
            },
            ProvisionPhase::Poll => {
                let found: Option<MaterialInfo> = match reply {
                    ProvisionReply::Material(m) => m,
                    _ => None,
                };
                let taken: bool = match &found {
                    Some(m) => same_text(m.uuid.as_str(), self.expected.as_str()),
                    None => false,
                };
                if taken {
                    self.phase = ProvisionPhase::Over;
                    match found {
                        Some(m) => ProvisionRequest::Taken(m),
                        None => ProvisionRequest::NotTaken(None),
                    }
                } else if self.left == 1 {
                    self.left = 0;
                    self.phase = ProvisionPhase::Over;
                    ProvisionRequest::NotTaken(found)
                } else {
                    self.left = self.left - 1;
                    self.phase = ProvisionPhase::Settle;
                    ProvisionRequest::Sleep(SETTLE_INTERVAL_MS)
                }
            },
            ProvisionPhase::Over => ProvisionRequest::NoAck,
        }
    }

    /// How many more requests the writing can make, the one under way among
    /// them.
    pub open spec fn effort(self) -> int {
        match self.phase {
            ProvisionPhase::Announce => 2 * self.left + 2,
            ProvisionPhase::Write => 2 * self.left + 1,
            ProvisionPhase::Settle => 2 * self.left as int,
            ProvisionPhase::Poll => 2 * self.left - 1,
            ProvisionPhase::Over => 0,
        }
    }
}

/// The writing of a record comes to an end, whatever the printer answers.
pub proof fn provisioning_comes_to_an_end(p: Provision, reply: ProvisionReply)
    requires
        p.wf(),
        p.fits(reply),
    ensures
        ({
            let (phase, left, _) = p.next(reply);
            0 <= (Provision { phase, left, ..p }).effort() < p.effort()
        }),
{
}

/// A record counts as taken only where the printer echoed its UUID.
pub proof fn taken_means_echoed(p: Provision, reply: ProvisionReply)
    requires
        p.wf(),
        p.fits(reply),
    ensures
        p.next(reply).2 matches ProvisionRequest::Taken(m) ==> m.uuid@ == p.expected@ && reply
            == ProvisionReply::Material(Some(m)),
        reply matches ProvisionReply::Material(m) && echoes(m, p.expected@) ==> p.next(
            reply,
        ).2 is Taken,
{
}

/// The error that is reported for a record that did not take.
pub open spec fn not_taken_text(last: Option<MaterialInfo>, expected: Seq<char>) -> Seq<char> {
    match last {
        Some(m) => "record not taken: printer reports UUID "@ + m.uuid@ + " (wrote "@ + expected
            + ")"@,
        None => "record not taken: no material info after write"@,
    }
}

/// The error to report for a record that did not take.
pub fn not_taken(last: &Option<MaterialInfo>, expected: &str) -> (r: Error)
    ensures
        r matches Error::InvalidResponse(m) && m@ == not_taken_text(*last, expected@),
{
    match last {
        Some(m) => {
            let mut text: String = "record not taken: printer reports UUID ".to_owned();
            text.append(m.uuid.as_str());
            text.append(" (wrote ");
            text.append(expected);
            text.append(")");
            Error::InvalidResponse(text)
        },
        None => Error::InvalidResponse(
            "record not taken: no material info after write".to_owned(),
        ),
    }
}

// ---------------------------------------------------------------------------
// The printer
// ---------------------------------------------------------------------------

/// A printer behind a link.
#[derive(Debug)]
pub struct Printer<T> {
    pub transport: T,
}

impl<T> Printer<T> {
    pub fn new(transport: T) -> (r: Self)
        ensures
            r.transport == transport,
    {
        Printer { transport }
    }

    /// What feeding one blank label comes to: an error where there is no
    /// acknowledgement.
    pub fn paper_skip(&self, acked: bool) -> (r: Result<(), Error>)
        ensures
            match r {
                Ok(_) => acked,
                Err(e) => !acked && (e matches Error::InvalidResponse(m) && m@
                    == "PAPER_SKIP: no ack"@),
            },
    {
        if acked {
            Ok(())
        } else {
            Err(Error::InvalidResponse("PAPER_SKIP: no ack".to_owned()))
        }
    }

    /// The length to announce a material record with.
    pub fn set_rfid_data(&self, record: &[u8]) -> (r: Result<u16, Error>)
        ensures
            match r {
                Ok(len) => len == record@.len(),
                Err(e) => record@.len() > u16::MAX && (e matches Error::InvalidParam(m) && m@
                    == "RFID record too long: "@ + decimal(record@.len())),
            },
    {
        let n: usize = record.len();
        if n <= u16::MAX as usize {
            Ok(n as u16)
        } else {
            let mut m: String = "RFID record too long: ".to_owned();
            push_decimal(&mut m, n as u64);
            Err(Error::InvalidParam(m))
        }
    }

    /// What is reported where the announcement of a record is not acknowledged.
    pub fn rfid_no_ack(&self) -> (r: Error)
        ensures
            r matches Error::InvalidResponse(m) && m@ == "SET_RFID_DATA: no ack"@,
    {
        Error::InvalidResponse("SET_RFID_DATA: no ack".to_owned())
    }

    /// Starts writing a material record and confirming that the printer took
    /// it.
    pub fn provision_material(&self, mat: &RfidMaterial) -> (r: (Provision, ProvisionRequest))
        ensures
            r.0.wf(),
            r.0.expected@ == hex_of(uuid_of(mat.code)),
            r.0.left == SETTLE_POLLS,
            r.0.phase == ProvisionPhase::Announce,
            r.1 == (ProvisionRequest::Announce { len: crate::rfid::RFID_RECORD_LEN as u16 }),
    {
        let uuid: [u8; 7] = mat.uuid_bytes();
        let p: Provision = Provision {
            expected: hex_upper(&uuid),
            left: SETTLE_POLLS,
            phase: ProvisionPhase::Announce,
        };
        (p, ProvisionRequest::Announce { len: crate::rfid::RFID_RECORD_LEN as u16 })
    }

    /// Waits for the device to be idle (not busy, not printing).
    pub fn wait_ready(&self, max_attempts: usize) -> (r: (Wait, WaitStep))
        ensures
            r.0 == wait_start(WaitKind::Ready, max_attempts),
            r.1 == first_request(WaitKind::Ready, max_attempts),
    {
        Wait::begin(WaitKind::Ready, max_attempts)
    }

    /// Waits for the printing station to become active.
    pub fn wait_printing(&self, max_attempts: usize) -> (r: (Wait, WaitStep))
        ensures
            r.0 == wait_start(WaitKind::Printing, max_attempts),
            r.1 == first_request(WaitKind::Printing, max_attempts),
    {
        Wait::begin(WaitKind::Printing, max_attempts)
    }

    /// Waits for buffer space.
    pub fn wait_buffer_ready(&self, max_attempts: usize) -> (r: (Wait, WaitStep))
        ensures
            r.0 == wait_start(WaitKind::Buffer, max_attempts),
            r.1 == first_request(WaitKind::Buffer, max_attempts),
    {
        Wait::begin(WaitKind::Buffer, max_attempts)
    }

    /// Starts a print of compressed blocks: check the device, wait until it is
    /// ready, start, wait for the station, wait for space and transfer each
    /// block, wait for completion.
    pub fn print_compressed(&self, blocks: &[Vec<u8>], payload: usize, speed: u16) -> (r: (
        PrintJob,
        Request,
    ))
        requires
            blocks@.len() > 0,
            payload > 0,
        ensures
            r.0.wf(),
            r.0.phase == Phase::Check,
            r.0.payload == payload,
            r.0.speed == speed,
            r.0.lens@.len() == blocks@.len(),
            forall|i: int|
                0 <= i < blocks@.len() ==> #[trigger] r.0.lens@[i] == blocks@[i]@.len(),
            r.1 == Request::CheckDevice,
    {
        let mut lens: Vec<usize> = Vec::new();
        let mut i: usize = 0;
        while i < blocks.len()
            invariant
                i <= blocks@.len(),
                lens@.len() == i,
                forall|j: int| 0 <= j < i ==> #[trigger] lens@[j] == blocks@[j]@.len(),
            decreases blocks@.len() - i,
        {
            lens.push(blocks[i].len());
            i += 1;
        }
        PrintJob::start(lens, payload, speed)
    }
}

} // verus!
