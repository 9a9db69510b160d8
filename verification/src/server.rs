//! The decisions of the print server: what a status poll reports, what becomes
//! of a job, and when an operator may set the loaded media.

use crate::models::{
    default_family, family_for_model_hint, family_of_lowered, mdl_of, media_name, media_name_of,
    parse_mdl, Registry,
};
use crate::rfid::{default_material, heat_presets, uuid_digits, uuid_of, RfidMaterial};
use crate::status::MaterialInfo;
use crate::text::{
    chars_of, decimal, hex_of, lowercase, lowercases_plainly, parse_u16, parsed_number,
    push_decimal, same_text, split_once, split_once_at, starts_with, trim, trimmed,
};
use vstd::prelude::*;

verus! {

// ---------------------------------------------------------------------------
// Reasons
// ---------------------------------------------------------------------------

/// The roll is empty, among the bits of `printer-state-reasons`.
pub const MEDIA_EMPTY: u32 = 0x0080;

/// The roll is running out.
pub const MEDIA_LOW: u32 = 0x0200;

/// The device cannot be reached.
pub const OFFLINE: u32 = 0x0800;

/// The reasons that an operator can clear, after which a held job prints: off
/// line, media jam, media empty, media needed, tray missing, cover open, door
/// open, marker supply empty, toner empty.
pub const RECOVERABLE: u32 = 0xAD8E;

/// `PrinterReason::is_recoverable` of the reasons with the given bits: it tells
/// whether any of the reasons of a clearable physical condition is among them.
#[verifier::external_body]
fn is_recoverable(bits: u32) -> (r: bool)
    ensures
        r == (bits & RECOVERABLE != 0),
{
    ipp_printer_app::PrinterReason::from_bits_retain(bits).is_recoverable()
}

/// Labels left below which the roll counts as running out. Conservative: most
/// label-printer operators want a few minutes of warning.
pub const MEDIA_LOW_THRESHOLD: u32 = 20;

// ---------------------------------------------------------------------------
// Polling
// ---------------------------------------------------------------------------

/// The media that is loaded.
#[derive(Debug)]
pub struct LoadedMedia {
    pub name: String,
    /// In hundredths of a millimetre.
    pub size_hmm: [i32; 2],
    pub media_type: String,
}

/// What a status poll reports.
#[derive(Debug)]
pub struct PollReport {
    /// The bits of `printer-state-reasons`.
    pub reasons: u32,
    pub ready_media: Option<LoadedMedia>,
    /// The supply that is left, from 0 to 100.
    pub supply_percent: Option<u8>,
}

/// The reasons with what the count of labels left adds to them.
pub open spec fn with_supply(reasons: u32, remaining: Option<u32>) -> u32 {
    match remaining {
        Some(n) => if n == 0 {
            reasons | MEDIA_EMPTY
        } else if n < MEDIA_LOW_THRESHOLD {
            reasons | MEDIA_LOW
        } else {
            reasons
        },
        None => reasons,
    }
}

/// The media that a roll is published as, where it has a size.
pub open spec fn is_media_of(l: Option<LoadedMedia>, m: MaterialInfo) -> bool {
    if m.width_mm > 0 && m.height_mm > 0 {
        l matches Some(l) && l.name@ == media_name_of(m.width_mm as int, m.height_mm as int)
            && l.size_hmm@ == seq![(m.width_mm * 100) as i32, (m.height_mm * 100) as i32]
            && l.media_type@ == "labels"@
    } else {
        l is None
    }
}

/// What a status poll reports: `reasons` are those the printer gave, or `None`
/// where it cannot be reached; `mat` is the material, where it gave one.
///
/// A printer that cannot be reached (powered off, unplugged) is reported off
/// line, so that queued jobs are held until it is back, instead of accepting a
/// job that cannot be printed and dropping it. The firmware reports remaining
/// labels, not a percentage, and the roll's original count is unknown: the gauge
/// is full while plenty remain and counts down near empty.
pub fn poll_status(reasons: Option<u32>, mat: Option<&MaterialInfo>) -> (r: PollReport)
    ensures
        match (reasons, mat) {
            (None, _) => r.reasons == OFFLINE && r.ready_media is None && r.supply_percent is None,
            (Some(bits), None) => r.reasons == bits && r.ready_media is None
                && r.supply_percent is None,
            (Some(bits), Some(m)) => {
                &&& r.reasons == with_supply(bits, m.remaining)
                &&& is_media_of(r.ready_media, *m)
                &&& r.supply_percent == match m.remaining {
                    Some(n) => Some(
                        if n < 100 {
                            n as u8
                        } else {
                            100
                        },
                    ),
                    None => None,
                }
            },
        },
{
    let bits: u32 = match reasons {
        Some(bits) => bits,
        None => {
            return PollReport { reasons: OFFLINE, ready_media: None, supply_percent: None };
        },
    };
    let m: &MaterialInfo = match mat {
        Some(m) => m,
        None => {
            return PollReport { reasons: bits, ready_media: None, supply_percent: None };
        },
    };
    let ready_media: Option<LoadedMedia> = if m.width_mm > 0 && m.height_mm > 0 {
        let w: i32 = m.width_mm as i32;
        let h: i32 = m.height_mm as i32;
        let size_hmm: [i32; 2] = [w * 100, h * 100];
        assert(size_hmm@ =~= seq![(m.width_mm * 100) as i32, (m.height_mm * 100) as i32]);
        Some(LoadedMedia { name: media_name(w, h), size_hmm, media_type: "labels".to_owned() })
    } else {
        None
    };
    match m.remaining {
        Some(n) => {
            let all: u32 = if n == 0 {
                bits | MEDIA_EMPTY
            } else if n < MEDIA_LOW_THRESHOLD {
                bits | MEDIA_LOW
            } else {
                bits
            };
            let percent: u8 = if n < 100 {
                n as u8
            } else {
                100
            };
            PollReport { reasons: all, ready_media, supply_percent: Some(percent) }
        },
        None => PollReport { reasons: bits, ready_media, supply_percent: None },
    }
}

/// A printer that was reached keeps every reason that it gave.
pub proof fn polling_drops_no_reason(bits: u32, remaining: Option<u32>)
    ensures
        with_supply(bits, remaining) & bits == bits,
{
    assert((bits | 0x80u32) & bits == bits && (bits | 0x200u32) & bits == bits && bits & bits
        == bits) by (bit_vector);
}

/// What identifies the roll that was seen last.
#[derive(Debug)]
pub struct RollFingerprint {
    pub uuid: String,
    pub code: String,
    pub width_mm: u8,
    pub height_mm: u8,
}

/// The fingerprints are of one roll.
pub open spec fn same_roll(a: RollFingerprint, b: RollFingerprint) -> bool {
    a.uuid@ == b.uuid@ && a.code@ == b.code@ && a.width_mm == b.width_mm && a.height_mm
        == b.height_mm
}

/// What a look at the roll tells.
#[derive(Debug, Clone, Copy, PartialEq, Eq, Structural)]
pub enum RollNews {
    /// The first roll that is seen.
    Registered,
    /// Another roll than the one before.
    Swapped,
    Nothing,
}

/// The fingerprint of a material.
pub fn fingerprint(m: &MaterialInfo) -> (r: RollFingerprint)
    ensures
        r.uuid@ == m.uuid@ && r.code@ == m.code@,
        r.width_mm == m.width_mm && r.height_mm == m.height_mm,
{
    RollFingerprint {
        uuid: m.uuid.clone(),
        code: m.code.clone(),
        width_mm: m.width_mm,
        height_mm: m.height_mm,
    }
}

/// What the roll seen now tells, beside the one seen before. A roll without an
/// identifier says nothing of what follows it.
pub fn roll_news(before: Option<&RollFingerprint>, now: &RollFingerprint) -> (r: RollNews)
    ensures
        r == match before {
            None => RollNews::Registered,
            Some(prev) => if !same_roll(*prev, *now) && prev.uuid@.len() > 0 {
                RollNews::Swapped
            } else {
                RollNews::Nothing
            },
        },
{
    match before {
        None => RollNews::Registered,
        Some(prev) => {
            let same: bool = same_text(prev.uuid.as_str(), now.uuid.as_str()) && same_text(
                prev.code.as_str(),
                now.code.as_str(),
            ) && prev.width_mm == now.width_mm && prev.height_mm == now.height_mm;
            if !same && !prev.uuid.as_str().is_empty() {
                RollNews::Swapped
            } else {
                RollNews::Nothing
            }
        },
    }
}

// ---------------------------------------------------------------------------
// Drivers
// ---------------------------------------------------------------------------

/// The device backend of the server: knows the models.
#[derive(Debug)]
pub struct SupvanDeviceBackend {
    pub registry: Registry,
}

/// The URI scheme is one of ours.
pub open spec fn is_own_uri(uri: Seq<char>) -> bool {
    "supvan://"@.is_prefix_of(uri) || "mock://"@.is_prefix_of(uri)
}

/// Whether a persisted printer is kept: its URI scheme is still recognised.
pub fn keeps_printer(uri: &str) -> (r: bool)
    ensures
        r == is_own_uri(uri@),
{
    starts_with(uri, "supvan://") || starts_with(uri, "mock://")
}

/// The driver of a device: that of the model in its device ID, else the default
/// one where the URI is ours.
pub open spec fn driver_of(reg: Registry, device_id: Seq<char>, uri: Seq<char>) -> Option<Seq<
    char,
>> {
    match mdl_of(device_id) {
        Some(mdl) if device_id.len() > 0 => Some(
            family_of_lowered(reg, lowercase(mdl)).driver_name@,
        ),
        _ => if is_own_uri(uri) {
            Some(reg.families@[reg.default_family_idx as int].driver_name@)
        } else {
            None
        },
    }
}

impl SupvanDeviceBackend {
    /// The driver for a device.
    pub fn driver_for_device(&self, device_id: &str, device_uri: &str) -> (r: Option<String>)
        requires
            self.registry.wf(),
        ensures
            match (r, driver_of(self.registry, device_id@, device_uri@)) {
                (Some(a), Some(b)) => a@ == b,
                (None, None) => true,
                _ => false,
            },
            device_id@.len() > 0 ==> (mdl_of(device_id@) matches Some(mdl) ==> lowercases_plainly(
                mdl,
            )),
    {
        if !device_id.is_empty() {
            match parse_mdl(device_id) {
                Some(mdl) => {
                    let family = family_for_model_hint(&self.registry, mdl.as_str());
                    return Some(family.driver_name.clone());
                },
                None => {},
            }
        }
        if keeps_printer(device_uri) {
            return Some(default_family(&self.registry).driver_name.clone());
        }
        None
    }
}

/// Every URI that is kept gets a driver.
pub proof fn kept_printers_have_a_driver(reg: Registry, device_id: Seq<char>, uri: Seq<char>)
    requires
        is_own_uri(uri),
    ensures
        driver_of(reg, device_id, uri) is Some,
{
}

// ---------------------------------------------------------------------------
// Jobs
// ---------------------------------------------------------------------------

/// How a document is printed.
#[derive(Debug, Clone, Copy, PartialEq, Eq)]
pub enum JobPlan {
    /// A JPEG picture, on media of the given size in hundredths of a millimetre.
    Jpeg([i32; 2]),
    /// CUPS or PWG raster.
    Raster,
}

/// How to print a document: JPEG pictures are decoded here, everything else is
/// raster. A printer whose configuration carries no media size is taken to hold
/// labels of 40 by 30 millimetres.
pub fn plan_job(document_format: &str, media_sizes: &[[i32; 2]]) -> (r: JobPlan)
    ensures
        if document_format@ == "image/jpeg"@ {
            r matches JobPlan::Jpeg(size) && size@ == if media_sizes@.len() > 0 {
                media_sizes@[0]@
            } else {
                seq![4000i32, 3000]
            }
        } else {
            r is Raster
        },
{
    if same_text(document_format, "image/jpeg") {
        if media_sizes.len() > 0 {
            JobPlan::Jpeg(media_sizes[0])
        } else {
            let size: [i32; 2] = [4000, 3000];
            assert(size@ =~= seq![4000i32, 3000]);
            JobPlan::Jpeg(size)
        }
    } else {
        JobPlan::Raster
    }
}

/// The first printer of a name.
pub open spec fn first_named(names: Seq<String>, name: Seq<char>, from: int) -> int
    decreases names.len() - from,
{
    if from < 0 || from >= names.len() || names[from]@ == name {
        from
    } else {
        first_named(names, name, from + 1)
    }
}

/// The first printer of a name, or what is said where there is none.
pub fn find_printer(names: &[String], name: &str) -> (r: Result<usize, String>)
    ensures
        match r {
            Ok(i) => i < names@.len() && first_named(names@, name@, 0) == i,
            Err(m) => first_named(names@, name@, 0) == names@.len() && m@
                == "printer not found: "@ + name@,
        },
{
    let mut i: usize = 0;
    while i < names.len()
        invariant
            i <= names@.len(),
            first_named(names@, name@, i as int) == first_named(names@, name@, 0),
        decreases names@.len() - i,
    {
        if same_text(names[i].as_str(), name) {
            return Ok(i);
        }
        i += 1;
    }
    let mut m: String = "printer not found: ".to_owned();
    m.append(name);
    Err(m)
}

/// What becomes of a job.
#[derive(Debug)]
pub enum Outcome {
    Completed,
    /// Held and retried until the reasons are cleared.
    Unavailable(u32),
    /// Given up, with the reasons and a message.
    Failed(u32, String),
}

/// What becomes of a job, given how it ended: `Err` holds the reasons and a
/// message.
///
/// A clearable physical condition (printer off, paper jam, out of labels, cover
/// open) holds the job, the way a real printer holds a job through a jam.
/// Anything else is a permanent failure of this document.
pub fn job_outcome(result: Result<(), (u32, String)>) -> (r: Outcome)
    ensures
        r == match result {
            Ok(_) => Outcome::Completed,
            Err((bits, message)) => if bits & RECOVERABLE != 0 {
                Outcome::Unavailable(bits)
            } else {
                Outcome::Failed(bits, message)
            },
        },
{
    match result {
        Ok(_) => Outcome::Completed,
        Err((bits, message)) => {
            if is_recoverable(bits) {
                Outcome::Unavailable(bits)
            } else {
                Outcome::Failed(bits, message)
            }
        },
    }
}

/// A job for a printer that is off line or out of labels is held, never dropped.
pub proof fn held_while_out_of_reach_or_labels(bits: u32)
    ensures
        (bits | OFFLINE) & RECOVERABLE != 0,
        (bits | MEDIA_EMPTY) & RECOVERABLE != 0,
{
    assert((bits | 0x800u32) & 0xAD8Eu32 != 0 && (bits | 0x80u32) & 0xAD8Eu32 != 0)
        by (bit_vector);
}

// ---------------------------------------------------------------------------
// Setting the media
// ---------------------------------------------------------------------------

/// The heat times that two texts write out, or the standard profile.
pub open spec fn heat_or_standard(a: Seq<char>, b: Seq<char>) -> (u16, u16) {
    match (parsed_number(a, 65535), parsed_number(b, 65535)) {
        (Some(x), Some(y)) => (x as u16, y as u16),
        _ => heat_presets::STANDARD,
    }
}

/// The heat times that two texts write out, or the standard profile where either
/// is no number.
pub fn heat_from(a: &str, b: &str) -> (r: (u16, u16))
    ensures
        r == heat_or_standard(a@, b@),
{
    match (parse_u16(a), parse_u16(b)) {
        (Some(x), Some(y)) => (x, y),
        _ => heat_presets::STANDARD,
    }
}

/// The heat times that a setting `heat5:heat40` means.
pub open spec fn heat_setting(raw: Option<Seq<char>>) -> (u16, u16) {
    match raw {
        None => heat_presets::STANDARD,
        Some(s) => match split_once(s, ':') {
            None => heat_presets::STANDARD,
            Some((a, b)) => heat_or_standard(trimmed(a), trimmed(b)),
        },
    }
}

/// Heat times to write when provisioning, from a setting `heat5:heat40`; the
/// standard profile where there is none or it cannot be read.
///
/// The material record carries heat but the printer never returns it, so what is
/// on the roll already cannot be preserved: a provision necessarily sets it.
/// Taking it from a setting keeps that an explicit choice rather than a silent
/// reset.
pub fn configured_heat(raw: Option<&str>) -> (r: (u16, u16))
    ensures
        r == heat_setting(
            match raw {
                Some(s) => Some(s@),
                None => None,
            },
        ),
{
    match raw {
        None => heat_presets::STANDARD,
        Some(s) => match split_once_at(s, ':') {
            None => heat_presets::STANDARD,
            Some((a, b)) => {
                let x: String = trim(a.as_str());
                let y: String = trim(b.as_str());
                heat_from(x.as_str(), y.as_str())
            },
        },
    }
}

/// No tag was read: the identifier holds nothing but zeros.
pub open spec fn is_blank(uuid: Seq<char>) -> bool {
    forall|i: int| 0 <= i < uuid.len() ==> #[trigger] uuid[i] == '0'
}

/// True when the printer read back no usable tag.
pub fn tag_is_blank(uuid: &str) -> (r: bool)
    ensures
        r == is_blank(uuid@),
{
    let v: Vec<char> = chars_of(uuid);
    let mut i: usize = 0;
    while i < v.len()
        invariant
            i <= v@.len(),
            v@ == uuid@,
            forall|j: int| 0 <= j < i ==> #[trigger] v@[j] == '0',
        decreases v@.len() - i,
    {
        if v[i] != '0' {
            assert(uuid@[i as int] != '0');
            return false;
        }
        i += 1;
    }
    true
}

/// Whole millimetres of a size in hundredths, as a byte: rounded toward zero, and
/// only the low eight bits.
pub open spec fn mm_byte(hmm: int) -> int {
    (if hmm >= 0 {
        hmm / 100
    } else {
        -((-hmm) / 100)
    }) % 256
}

fn to_mm(hmm: i32) -> (r: u8)
    ensures
        r == mm_byte(hmm as int),
{
    let wide: i64 = hmm as i64;
    if wide >= 0 {
        let mm: u64 = wide as u64 / 100;
        (mm % 256) as u8
    } else {
        let mm: u64 = (-wide) as u64 / 100;
        let low: u64 = mm % 256;
        if low == 0 {
            0
        } else {
            (256 - low) as u8
        }
    }
}

/// What to do about media that an operator set.
#[derive(Debug)]
pub enum MediaPlan {
    /// The roll describes itself.
    Refuse(String),
    /// The roll has that size already.
    AlreadySet,
    /// The record to write.
    Write(RfidMaterial),
}

/// What is said of a roll that describes itself.
pub open spec fn refusal(m: MaterialInfo) -> Seq<char> {
    "a genuine RFID roll is loaded (UUID "@ + m.uuid@ + ", "@ + decimal(m.width_mm as nat) + "x"@
        + decimal(m.height_mm as nat)
        + "mm) and describes itself — its own geometry is authoritative. Only unreadable or blank stock can be set here."@
}

/// The record that is written for media of the given size on blank stock.
pub open spec fn media_record(
    current: Option<MaterialInfo>,
    w: u8,
    h: u8,
    heat: (u16, u16),
) -> RfidMaterial {
    RfidMaterial {
        width_mm: w,
        length_mm: h,
        heat_time_5: heat.0,
        heat_time_40: heat.1,
        gap_mm: match current {
            Some(m) if m.gap_mm > 0 => m.gap_mm,
            _ => default_material().gap_mm,
        },
        mat_type: match current {
            Some(m) if m.label_type > 0 => m.label_type,
            _ => default_material().mat_type,
        },
        ..default_material()
    }
}

/// The material as a value, where there is one.
pub open spec fn material_of(m: Option<&MaterialInfo>) -> Option<MaterialInfo> {
    match m {
        Some(m) => Some(*m),
        None => None,
    }
}

/// What to do about media that an operator set: `current` is the material the
/// printer reads, `size_hmm` the size in hundredths of a millimetre.
///
/// Refuses when a genuine RFID tag is present. A real consumable describes
/// itself, and that description is what feeds the loaded media, the gauge and
/// the detection of swapped rolls. Overwriting it would replace measured truth
/// with a typed-in guess, and there is no way back. Only blank stock, which reads
/// as an all-zero identifier, may be defined. What the read does expose is
/// carried over, so that setting a size does not discard the rest of the record.
pub fn apply_media(current: Option<&MaterialInfo>, size_hmm: [i32; 2], heat: (u16, u16)) -> (r:
    MediaPlan)
    ensures
        ({
            let w = mm_byte(size_hmm@[0] as int);
            let h = mm_byte(size_hmm@[1] as int);
            match current {
                Some(m) if !is_blank(m.uuid@) => r matches MediaPlan::Refuse(text) && text@
                    == refusal(*m),
                Some(m) if m.width_mm == w && m.height_mm == h => r is AlreadySet,
                _ => r == MediaPlan::Write(
                    media_record(material_of(current), w as u8, h as u8, heat),
                ),
            }
        }),
        r is Write ==> (current matches Some(m) ==> is_blank(m.uuid@)),
{
    let w: u8 = to_mm(size_hmm[0]);
    let h: u8 = to_mm(size_hmm[1]);
    let mut mat: RfidMaterial = RfidMaterial::default();
    mat.width_mm = w;
    mat.length_mm = h;
    mat.heat_time_5 = heat.0;
    mat.heat_time_40 = heat.1;
    match current {
        Some(m) => {
            if !tag_is_blank(m.uuid.as_str()) {
                let mut text: String = "a genuine RFID roll is loaded (UUID ".to_owned();
                text.append(m.uuid.as_str());
                text.append(", ");
                push_decimal(&mut text, m.width_mm as u64);
                text.append("x");
                push_decimal(&mut text, m.height_mm as u64);
                text.append(
                    "mm) and describes itself — its own geometry is authoritative. Only unreadable or blank stock can be set here.",
                );
                return MediaPlan::Refuse(text);
            }
            if m.width_mm == w && m.height_mm == h {
                return MediaPlan::AlreadySet;
            }
            if m.gap_mm > 0 {
                mat.gap_mm = m.gap_mm;
            }
            if m.label_type > 0 {
                mat.mat_type = m.label_type;
            }
        },
        None => {},
    }
    MediaPlan::Write(mat)
}

/// The identifier that a record other than of code zero reads back with is not
/// blank: what was written by hand is then left alone like a genuine roll.
pub proof fn written_records_read_as_tags(code: u16)
    requires
        code > 0,
    ensures
        !is_blank(hex_of(uuid_of(code))),
{
    crate::rfid::uuid_reads_as_the_code(code);
    crate::rfid::uuid_is_not_blank(code);
    let text = hex_of(uuid_of(code));
    let b = uuid_of(code)[0];
    assert(text[0] == crate::text::hex_digit(b as int / 16));
    assert(text[1] == crate::text::hex_digit(b as int % 16));
    assert(text == uuid_digits(code));
    if is_blank(text) {
        assert(text[0] == '0' && text[1] == '0');
    }
}

} // verus!
