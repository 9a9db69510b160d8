//! The print server and the command line: what is reported, held, refused and
//! read.

use crate::buffer::Density;
use crate::cli::{
    material_lines, parse_density, parse_heat_pair, probe_material_lines, status_lines,
};
use crate::models::{family_for_model_hint, parse_mdl, DriverFamily};
use crate::server::{
    apply_media, configured_heat, find_printer, fingerprint, first_named, job_outcome,
    keeps_printer, plan_job, poll_status, roll_news, tag_is_blank, JobPlan, MediaPlan, Outcome,
    PollReport, RollFingerprint, RollNews, SupvanDeviceBackend,
};
use crate::status::{MaterialInfo, PrinterStatus};
use crate::text::{
    decimal, decimal_parses_back, first_index, is_digit, lemma_decimal, lemma_first_index_is,
    trimmed,
};
use vstd::prelude::*;

verus! {

// ---------------------------------------------------------------------------
// Polling
// ---------------------------------------------------------------------------

/// What a poll of a printer that was reached reports of its roll: the flag of an
/// empty roll (bit 7) at no labels, that of a nearly empty one (bit 9) below
/// twenty, and a gauge that shows the labels left up to a hundred.
pub proof fn polls_watch_the_labels_left(bits: u32, m: &MaterialInfo, r: PollReport)
    requires
        call_ensures(poll_status, (Some(bits), Some(m)), r),
    ensures
        m.remaining is None ==> r.reasons == bits && r.supply_percent is None,
        m.remaining matches Some(n) ==> {
            &&& n == 0 ==> r.reasons == bits | 0x80
            &&& 0 < n < 20 ==> r.reasons == bits | 0x200
            &&& n >= 20 ==> r.reasons == bits
            &&& r.supply_percent == Some(
                if n < 100 {
                    n as u8
                } else {
                    100
                },
            )
        },
        (m.width_mm == 0 || m.height_mm == 0) ==> r.ready_media is None,
        m.width_mm > 0 && m.height_mm > 0 ==> {
            &&& r.ready_media matches Some(l)
            &&& l.size_hmm@[0] == 100 * m.width_mm && l.size_hmm@[1] == 100 * m.height_mm
            &&& l.media_type@ == "labels"@
            &&& l.name@ == "om_"@ + decimal(m.width_mm as nat) + "x"@ + decimal(m.height_mm as nat)
                + "mm_"@ + decimal(m.width_mm as nat) + "x"@ + decimal(m.height_mm as nat) + "mm"@
        },
{
}

/// A printer that cannot be reached is off line (bit 11) and reports nothing
/// else; one without material reports its own reasons and nothing else.
pub proof fn unreachable_printers_are_off_line(
    reasons: Option<u32>,
    mat: Option<&MaterialInfo>,
    r: PollReport,
)
    requires
        call_ensures(poll_status, (reasons, mat), r),
        reasons is None || mat is None,
    ensures
        r.reasons == match reasons {
            Some(bits) => bits,
            None => 0x800,
        },
        r.ready_media is None && r.supply_percent is None,
{
}

/// A roll is swapped exactly where anything that identifies it changed (its
/// identifier, its code, its width or its height) and the roll before had an
/// identifier.
pub proof fn swaps_are_any_change_of_an_identified_roll(
    prev: &RollFingerprint,
    now: &RollFingerprint,
    news: RollNews,
)
    requires
        call_ensures(roll_news, (Some(prev), now), news),
    ensures
        news !is Registered,
        news is Swapped <==> prev.uuid@.len() > 0 && (prev.uuid@ != now.uuid@ || prev.code@
            != now.code@ || prev.width_mm != now.width_mm || prev.height_mm != now.height_mm),
{
}

// ---------------------------------------------------------------------------
// Jobs
// ---------------------------------------------------------------------------

/// A job is held exactly where one of the clearable reasons is among those it
/// failed with, and keeps all of them either way.
pub proof fn jobs_are_held_for_clearable_reasons(bits: u32, message: String, r: Outcome)
    requires
        call_ensures(job_outcome, (Err::<(), (u32, String)>((bits, message)),), r),
    ensures
        r == if bits & (0x8000u32 | 0x2000 | 0x800 | 0x400 | 0x100 | 0x80 | 0x8 | 0x4 | 0x2) != 0 {
            Outcome::Unavailable(bits)
        } else {
            Outcome::Failed(bits, message)
        },
{
    assert(0x8000u32 | 0x2000 | 0x800 | 0x400 | 0x100 | 0x80 | 0x8 | 0x4 | 0x2 == 0xAD8E)
        by (bit_vector);
}

/// Only pictures are decoded, on the first of the configured sizes, or on labels
/// of forty by thirty millimetres where none is configured.
pub proof fn pictures_print_on_the_first_size(format: &str, sizes: &[[i32; 2]], r: JobPlan)
    requires
        call_ensures(plan_job, (format, sizes), r),
    ensures
        r is Raster <==> format@ != "image/jpeg"@,
        r matches JobPlan::Jpeg(size) ==> {
            &&& sizes@.len() > 0 ==> size@ == sizes@[0]@
            &&& sizes@.len() == 0 ==> size@ == seq![4000i32, 3000i32]
        },
{
}

proof fn lemma_first_named(names: Seq<String>, name: Seq<char>, from: int)
    requires
        0 <= from <= names.len(),
    ensures
        from <= first_named(names, name, from) <= names.len(),
        first_named(names, name, from) < names.len() ==> names[first_named(names, name, from)]@
            == name,
        forall|i: int| from <= i < first_named(names, name, from) ==> names[i]@ != name,
    decreases names.len() - from,
{
    if from < names.len() && names[from]@ != name {
        lemma_first_named(names, name, from + 1);
    }
}

/// A printer is found by its name, the first of several that share it, and not
/// found only where none has it.
pub proof fn printers_are_found_by_name(names: &[String], name: &str, r: Result<usize, String>)
    requires
        call_ensures(find_printer, (names, name), r),
    ensures
        match r {
            Ok(i) => i < names@.len() && names@[i as int]@ == name@ && forall|j: int|
                0 <= j < i ==> (#[trigger] names@[j])@ != name@,
            Err(m) => m@ == "printer not found: "@ + name@ && forall|j: int|
                0 <= j < names@.len() ==> (#[trigger] names@[j])@ != name@,
        },
{
    lemma_first_named(names@, name@, 0);
}

/// A device gets the driver of the model in its device ID.
pub proof fn drivers_follow_the_device_id(
    backend: &SupvanDeviceBackend,
    id: &str,
    uri: &str,
    driver: Option<String>,
    model: String,
    hint: &str,
    family: &DriverFamily,
)
    requires
        backend.registry.wf(),
        id@.len() > 0,
        call_ensures(parse_mdl, (id,), Some(model)),
        hint@ == model@,
        call_ensures(family_for_model_hint, (&backend.registry, hint), family),
        call_ensures(SupvanDeviceBackend::driver_for_device, (backend, id, uri), driver),
    ensures
        driver matches Some(d) && d@ == family.driver_name@,
{
}

// ---------------------------------------------------------------------------
// Setting the media
// ---------------------------------------------------------------------------

/// A roll whose identifier holds anything but zeros is never written over.
pub proof fn genuine_rolls_are_never_written_over(
    m: &MaterialInfo,
    size: [i32; 2],
    heat: (u16, u16),
    plan: MediaPlan,
    i: int,
)
    requires
        call_ensures(apply_media, (Some(m), size, heat), plan),
        0 <= i < m.uuid@.len(),
        m.uuid@[i] != '0',
    ensures
        plan is Refuse,
{
}

/// Blank stock takes the size that is set, in whole millimetres, and the heat
/// that is configured; its gap and type stay where the printer reports any, and
/// nothing is written where it has that size already.
pub proof fn blank_stock_takes_the_size_that_is_set(
    current: Option<&MaterialInfo>,
    size: [i32; 2],
    heat: (u16, u16),
    plan: MediaPlan,
)
    requires
        call_ensures(apply_media, (current, size, heat), plan),
        current matches Some(m) ==> forall|i: int| 0 <= i < m.uuid@.len() ==> m.uuid@[i] == '0',
        0 <= size@[0] < 25600,
        0 <= size@[1] < 25600,
    ensures
        plan !is Refuse,
        plan is AlreadySet <==> (current matches Some(m) && m.width_mm == size@[0] / 100
            && m.height_mm == size@[1] / 100),
        plan matches MediaPlan::Write(w) ==> {
            &&& w.width_mm == size@[0] / 100
            &&& w.length_mm == size@[1] / 100
            &&& w.heat_time_5 == heat.0 && w.heat_time_40 == heat.1
            &&& w.gap_mm == match current {
                Some(m) => if m.gap_mm > 0 {
                    m.gap_mm
                } else {
                    3
                },
                None => 3,
            }
            &&& w.mat_type == match current {
                Some(m) => if m.label_type > 0 {
                    m.label_type
                } else {
                    1
                },
                None => 1,
            }
            &&& w.code == 30000 && w.remaining == 480
        },
{
    if let Some(m) = current {
        assert(crate::server::is_blank(m.uuid@));
    }
}

/// A tag is blank exactly where every character of its identifier is a zero.
pub proof fn blank_tags_are_all_zeros(uuid: &str, r: bool)
    requires
        call_ensures(tag_is_blank, (uuid,), r),
    ensures
        r <==> forall|i: int| 0 <= i < uuid@.len() ==> uuid@[i] == '0',
{
}

proof fn lemma_digits_are_not_blank(n: nat)
    ensures
        trimmed(decimal(n)) == decimal(n),
        first_index(decimal(n), ':') == decimal(n).len(),
{
    lemma_decimal(n);
    let d = decimal(n);
    assert(is_digit(d[0]) && is_digit(d.last()));
    assert forall|j: int| 0 <= j < d.len() implies d[j] != ':' by {
        assert(is_digit(d[j]));
    }
    lemma_first_index_is(d, ':', d.len() as int);
}

/// A heat setting of two numbers is read as those two, in that order.
pub proof fn heat_settings_are_read_in_order(a: u16, b: u16, raw: &str, r: (u16, u16))
    requires
        raw@ == decimal(a as nat).push(':') + decimal(b as nat),
        call_ensures(configured_heat, (Some(raw),), r),
    ensures
        r == (a, b),
{
    let x = decimal(a as nat);
    let y = decimal(b as nat);
    lemma_digits_are_not_blank(a as nat);
    lemma_digits_are_not_blank(b as nat);
    decimal_parses_back(a as nat, 65535);
    decimal_parses_back(b as nat, 65535);
    let n = x.len() as int;
    lemma_decimal(a as nat);
    assert forall|j: int| 0 <= j < n implies raw@[j] != ':' by {
        assert(is_digit(x[j]));
    }
    assert(raw@[n] == ':');
    lemma_first_index_is(raw@, ':', n);
    assert(raw@.take(n) =~= x);
    assert(raw@.skip(n + 1) =~= y);
}

/// A heat setting that is missing, or has no colon in it, means the standard
/// profile.
pub proof fn heat_settings_fall_back_to_standard(raw: Option<&str>, r: (u16, u16))
    requires
        raw matches Some(s) ==> !s@.contains(':'),
        call_ensures(configured_heat, (raw,), r),
    ensures
        r == (1700u16, 1200u16),
{
    if let Some(s) = raw {
        assert forall|j: int| 0 <= j < s@.len() implies s@[j] != ':' by {
            assert(s@.contains(s@[j]));
        }
        lemma_first_index_is(s@, ':', s@.len() as int);
    }
}

/// A roll is told by its identifier, its code and its size.
pub proof fn fingerprints_are_of_the_roll(m: &MaterialInfo, r: RollFingerprint)
    requires
        call_ensures(fingerprint, (m,), r),
    ensures
        r.uuid@ == m.uuid@ && r.code@ == m.code@,
        r.width_mm == m.width_mm && r.height_mm == m.height_mm,
{
}

/// The URI is one that discovery reports, or that of the stand-in.
pub open spec fn is_reported(uri: Seq<char>, rest: Seq<char>) -> bool {
    uri == "supvan://"@ + rest || uri == "mock://"@ + rest
}

/// A printer that discovery reports is kept, and so is the stand-in for one; one
/// of another scheme is not.
pub proof fn reported_printers_are_kept(uri: &str, kept: bool)
    requires
        call_ensures(keeps_printer, (uri,), kept),
    ensures
        kept <==> exists|rest: Seq<char>| #[trigger] is_reported(uri@, rest),
{
    let u = uri@;
    reveal_strlit("supvan://");
    reveal_strlit("mock://");
    if "supvan://"@.is_prefix_of(u) {
        assert(u =~= "supvan://"@ + u.skip(9));
        assert(is_reported(u, u.skip(9)));
    }
    if "mock://"@.is_prefix_of(u) {
        assert(u =~= "mock://"@ + u.skip(7));
        assert(is_reported(u, u.skip(7)));
    }
    if exists|rest: Seq<char>| #[trigger] is_reported(u, rest) {
        let rest = choose|rest: Seq<char>| #[trigger] is_reported(u, rest);
        assert(u == "supvan://"@ + rest ==> u.take(9) =~= "supvan://"@);
        assert(u == "mock://"@ + rest ==> u.take(7) =~= "mock://"@);
    }
}

// ---------------------------------------------------------------------------
// The command line
// ---------------------------------------------------------------------------

/// `heat5:heat40` is read as those two numbers, in that order.
pub proof fn heat_pairs_are_read_in_order(a: u16, b: u16, s: &str, r: Result<(u16, u16), String>)
    requires
        s@ == decimal(a as nat).push(':') + decimal(b as nat),
        call_ensures(parse_heat_pair, (s,), r),
    ensures
        r matches Ok(p) && p == (a, b),
{
    let x = decimal(a as nat);
    lemma_digits_are_not_blank(a as nat);
    decimal_parses_back(a as nat, 65535);
    decimal_parses_back(b as nat, 65535);
    let n = x.len() as int;
    lemma_decimal(a as nat);
    assert forall|j: int| 0 <= j < n implies s@[j] != ':' by {
        assert(is_digit(x[j]));
    }
    assert(s@[n] == ':');
    lemma_first_index_is(s@, ':', n);
    assert(s@.take(n) =~= x);
    assert(s@.skip(n + 1) =~= decimal(b as nat));
}

/// `BLACK:RED` is read as those two trims, in that order, and `N` as both.
pub proof fn densities_are_read_in_order(a: u8, b: u8, s: &str, r: Result<Density, String>)
    requires
        s@ == decimal(a as nat).push(':') + decimal(b as nat) || (s@ == decimal(a as nat) && a == b),
        call_ensures(parse_density, (s,), r),
    ensures
        r matches Ok(d) && d.black == a && d.red == b,
{
    let x = decimal(a as nat);
    lemma_digits_are_not_blank(a as nat);
    decimal_parses_back(a as nat, 255);
    decimal_parses_back(b as nat, 255);
    let n = x.len() as int;
    lemma_decimal(a as nat);
    if s@ != x {
        assert forall|j: int| 0 <= j < n implies s@[j] != ':' by {
            assert(is_digit(x[j]));
        }
        assert(s@[n] == ':');
        lemma_first_index_is(s@, ':', n);
        assert(s@.take(n) =~= x);
        assert(s@.skip(n + 1) =~= decimal(b as nat));
    }
}

/// How a flag is written.
pub open spec fn yes_or_no(b: bool) -> Seq<char> {
    if b {
        "true"@
    } else {
        "false"@
    }
}

/// A status report names each flag and gives that flag's own value, then the
/// count, then what the printer said of an error.
pub proof fn status_reports_give_each_flag(s: &PrinterStatus, r: Vec<String>)
    requires
        call_ensures(status_lines, (s,), r),
    ensures
        r@.len() == if s.error_description is Some {
            8nat
        } else {
            7
        },
        r@[0]@ == "Status:"@,
        r@[1]@ == "  printing:     "@ + yes_or_no(s.printing),
        r@[2]@ == "  device_busy:  "@ + yes_or_no(s.device_busy),
        r@[3]@ == "  buf_full:     "@ + yes_or_no(s.buf_full),
        r@[4]@ == "  low_battery:  "@ + yes_or_no(s.low_battery),
        r@[5]@ == "  cover_open:   "@ + yes_or_no(s.cover_open),
        r@[6]@ == "  print_count:  "@ + decimal(s.print_count as nat),
        s.error_description matches Some(e) ==> r@[7]@ == "  ERRORS:       "@ + e@,
{
    let all = crate::cli::lines(r@);
    assert(all.len() == r@.len());
    assert(all[0] == r@[0]@ && all[1] == r@[1]@ && all[2] == r@[2]@ && all[3] == r@[3]@);
    assert(all[4] == r@[4]@ && all[5] == r@[5]@ && all[6] == r@[6]@);
    if s.error_description is Some {
        assert(all[7] == r@[7]@);
    }
    reveal_strlit("");
    assert(r@[6]@ =~= "  print_count:  "@ + decimal(s.print_count as nat));
}

/// A material report gives the size, width first, and each text of the material
/// in a line of its own.
pub proof fn material_reports_give_each_field(m: &MaterialInfo, r: Vec<String>, probe: Vec<String>)
    requires
        call_ensures(material_lines, (m,), r),
        call_ensures(probe_material_lines, (m,), probe),
    ensures
        r@.len() == 6,
        r@[0]@ == "Label:     "@ + decimal(m.width_mm as nat) + "mm x "@ + decimal(
            m.height_mm as nat,
        ) + "mm"@ + "  (type="@ + decimal(m.label_type as nat) + ", gap="@ + decimal(
            m.gap_mm as nat,
        ) + "mm)"@,
        r@[1]@ == "Label SN:  "@ + m.sn@,
        r@[2]@ == "RFID UID:  "@ + m.uuid@,
        r@[3]@ == "RFID code: "@ + m.code@,
        m.remaining matches Some(n) ==> r@[4]@ == "Remaining: "@ + decimal(n as nat) + " labels"@,
        m.device_sn matches Some(sn) ==> r@[5]@ == "Device SN: "@ + sn@,
        probe@.len() >= 7,
        probe@[1]@ == "  Label:     "@ + decimal(m.width_mm as nat) + "mm x "@ + decimal(
            m.height_mm as nat,
        ) + "mm"@,
        probe@[2]@ == "  Type:      "@ + decimal(m.label_type as nat),
        probe@[3]@ == "  Gap:       "@ + decimal(m.gap_mm as nat) + "mm"@,
        probe@[4]@ == "  SN:        "@ + m.sn@,
        probe@[5]@ == "  UUID:      "@ + m.uuid@,
        probe@[6]@ == "  Code:      "@ + m.code@,
{
    let all = crate::cli::lines(r@);
    let seen = crate::cli::lines(probe@);
    assert(all.len() == r@.len() && seen.len() == probe@.len());
    assert(all[0] == r@[0]@ && all[1] == r@[1]@ && all[2] == r@[2]@);
    assert(all[3] == r@[3]@ && all[4] == r@[4]@ && all[5] == r@[5]@);
    assert(seen[1] == probe@[1]@ && seen[2] == probe@[2]@ && seen[3] == probe@[3]@);
    assert(seen[4] == probe@[4]@ && seen[5] == probe@[5]@ && seen[6] == probe@[6]@);
    reveal_strlit("");
    assert(probe@[2]@ =~= "  Type:      "@ + decimal(m.label_type as nat));
}

} // verus!
