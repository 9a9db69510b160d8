//! The command line's own readings and reports.

use crate::buffer::Density;
use crate::rfid::{default_material, heat_presets, RfidMaterial};
use crate::status::{MaterialInfo, PrinterStatus};
use crate::text::{
    decimal, decimal_parses_back, first_index, lemma_decimal, lemma_first_index_is, parse_u16,
    parse_u8, parsed_number, push_decimal, same_text, split_once, split_once_at,
};
use vstd::prelude::*;

verus! {

// ---------------------------------------------------------------------------
// Densities and heat
// ---------------------------------------------------------------------------

/// `{what}`{text}``.
pub open spec fn quoted(what: Seq<char>, text: Seq<char>) -> Seq<char> {
    what + text + "`"@
}

fn quote(what: &str, text: &str) -> (r: String)
    ensures
        r@ == quoted(what@, text@),
{
    let mut m: String = what.to_owned();
    m.append(text);
    m.append("`");
    m
}

/// The density that an entry means: `N` sets both trims, `BLACK:RED` sets them
/// apart; or what is wrong with it.
pub open spec fn density_of(s: Seq<char>) -> Result<Density, Seq<char>> {
    match split_once(s, ':') {
        Some((black, red)) => match (parsed_number(black, 255), parsed_number(red, 255)) {
            (None, _) => Err(quoted("bad black `"@, black)),
            (_, None) => Err(quoted("bad red `"@, red)),
            (Some(b), Some(r)) => Ok(Density { black: b as u8, red: r as u8 }),
        },
        None => match parsed_number(s, 255) {
            None => Err(quoted("bad density `"@, s)),
            Some(n) => Ok(Density { black: n as u8, red: n as u8 }),
        },
    }
}

/// Parse a density entry: `N` sets both trims, `BLACK:RED` sets them apart.
pub fn parse_density(s: &str) -> (r: Result<Density, String>)
    ensures
        match (r, density_of(s@)) {
            (Ok(a), Ok(b)) => a == b,
            (Err(a), Err(b)) => a@ == b,
            _ => false,
        },
{
    match split_once_at(s, ':') {
        Some((black, red)) => {
            let b: u8 = match parse_u8(black.as_str()) {
                Some(n) => n,
                None => {
                    return Err(quote("bad black `", black.as_str()));
                },
            };
            let r: u8 = match parse_u8(red.as_str()) {
                Some(n) => n,
                None => {
                    return Err(quote("bad red `", red.as_str()));
                },
            };
            Ok(Density { black: b, red: r })
        },
        None => match parse_u8(s) {
            Some(n) => Ok(Density::uniform(n)),
            None => Err(quote("bad density `", s)),
        },
    }
}

proof fn lemma_no_colon(s: Seq<char>)
    requires
        crate::text::all_digits(s),
    ensures
        first_index(s, ':') == s.len(),
{
    assert forall|j: int| 0 <= j < s.len() implies s[j] != ':' by {
        assert(crate::text::is_digit(s[j]));
    }
    lemma_first_index_is(s, ':', s.len() as int);
}

/// A density that is written down is read back: logged settings can be pasted
/// into a command.
pub proof fn densities_are_read_back(d: Density)
    ensures
        density_of(d.text()) == Ok::<Density, Seq<char>>(d),
{
    let b = decimal(d.black as nat);
    let r = decimal(d.red as nat);
    lemma_decimal(d.black as nat);
    lemma_decimal(d.red as nat);
    decimal_parses_back(d.black as nat, 255);
    decimal_parses_back(d.red as nat, 255);
    if d.black == d.red {
        lemma_no_colon(b);
    } else {
        let t = d.text();
        let n = b.len() as int;
        assert forall|j: int| 0 <= j < n implies t[j] != ':' by {
            assert(crate::text::is_digit(b[j]));
        }
        lemma_first_index_is(t, ':', n);
        assert(t.take(n) =~= b);
        assert(t.skip(n + 1) =~= r);
    }
}

/// The heat times that a pair means, or what is wrong with it.
pub open spec fn heat_of(s: Seq<char>) -> Result<(u16, u16), Seq<char>> {
    match split_once(s, ':') {
        None => Err(quoted("expected `heat5:heat40`, got `"@, s)),
        Some((a, b)) => match (parsed_number(a, 65535), parsed_number(b, 65535)) {
            (None, _) => Err(quoted("bad heat5 `"@, a)),
            (_, None) => Err(quoted("bad heat40 `"@, b)),
            (Some(x), Some(y)) => Ok((x as u16, y as u16)),
        },
    }
}

/// Parse a `heat5:heat40` pair, e.g. `1700:1200`.
pub fn parse_heat_pair(s: &str) -> (r: Result<(u16, u16), String>)
    ensures
        match (r, heat_of(s@)) {
            (Ok(a), Ok(b)) => a == b,
            (Err(a), Err(b)) => a@ == b,
            _ => false,
        },
{
    let (a, b): (String, String) = match split_once_at(s, ':') {
        Some(pair) => pair,
        None => {
            return Err(quote("expected `heat5:heat40`, got `", s));
        },
    };
    let x: u16 = match parse_u16(a.as_str()) {
        Some(n) => n,
        None => {
            return Err(quote("bad heat5 `", a.as_str()));
        },
    };
    let y: u16 = match parse_u16(b.as_str()) {
        Some(n) => n,
        None => {
            return Err(quote("bad heat40 `", b.as_str()));
        },
    };
    Ok((x, y))
}

/// The heat profiles to sweep: those given, or the three presets where none is.
pub fn sweep_heats(heats: Vec<(u16, u16)>) -> (r: Vec<(u16, u16)>)
    ensures
        r@ == if heats@.len() == 0 {
            seq![heat_presets::STANDARD, heat_presets::BLACK_MARK, heat_presets::CARDSTOCK]
        } else {
            heats@
        },
{
    if heats.len() == 0 {
        let mut out: Vec<(u16, u16)> = Vec::new();
        out.push(heat_presets::STANDARD);
        out.push(heat_presets::BLACK_MARK);
        out.push(heat_presets::CARDSTOCK);
        assert(out@ =~= seq![
            heat_presets::STANDARD,
            heat_presets::BLACK_MARK,
            heat_presets::CARDSTOCK,
        ]);
        out
    } else {
        heats
    }
}

// ---------------------------------------------------------------------------
// Material
// ---------------------------------------------------------------------------

/// Label geometry, shared by every command that writes a material record.
#[derive(Debug, Clone, Copy, PartialEq, Eq)]
pub struct LabelArgs {
    /// Across the printhead, in millimetres.
    pub width: u8,
    /// Along the feed direction, in millimetres.
    pub length: u8,
    /// Between labels, in millimetres.
    pub gap: u8,
}

/// The record of a label: unbranded stock but for what is given.
pub fn build_material(
    label: LabelArgs,
    heat: (u16, u16),
    count: u32,
    mat_type: u8,
    code: u16,
) -> (r: RfidMaterial)
    ensures
        r == (RfidMaterial {
            width_mm: label.width,
            length_mm: label.length,
            gap_mm: label.gap,
            heat_time_5: heat.0,
            heat_time_40: heat.1,
            remaining: count,
            mat_type,
            code,
            ..default_material()
        }),
{
    let unbranded: RfidMaterial = RfidMaterial::default();
    RfidMaterial {
        width_mm: label.width,
        length_mm: label.length,
        gap_mm: label.gap,
        heat_time_5: heat.0,
        heat_time_40: heat.1,
        remaining: count,
        mat_type,
        code,
        ..unbranded
    }
}

/// The material to print a test pattern on where the printer reports none.
pub fn fallback_material(width_mm: u8, height_mm: u8, gap_mm: u8) -> (r: MaterialInfo)
    ensures
        r.width_mm == width_mm && r.height_mm == height_mm && r.gap_mm == gap_mm,
        r.label_type == 0,
        r.sn@.len() == 0 && r.uuid@.len() == 0 && r.code@.len() == 0,
        r.remaining is None && r.device_sn is None,
{
    let mut m: MaterialInfo = MaterialInfo::default();
    m.width_mm = width_mm;
    m.height_mm = height_mm;
    m.gap_mm = gap_mm;
    m
}

/// Two-colour test cards.
#[derive(Debug, Clone, Copy, PartialEq, Eq, Structural)]
pub enum CardPattern {
    /// A thick red bar above a thin black one: one colour per line.
    Bars,
    /// Red and black stripes side by side: both colours on every line.
    Stripes,
}

/// The card of a name.
pub open spec fn pattern_named(s: Seq<char>) -> Option<CardPattern> {
    if s == "bars"@ {
        Some(CardPattern::Bars)
    } else if s == "stripes"@ {
        Some(CardPattern::Stripes)
    } else {
        None
    }
}

/// Parse the test-card pattern name.
pub fn parse_pattern(s: &str) -> (r: Result<CardPattern, String>)
    ensures
        match r {
            Ok(p) => pattern_named(s@) == Some(p),
            Err(m) => pattern_named(s@) is None && m@ == "unknown pattern `"@ + s@
                + "` (bars|stripes)"@,
        },
{
    if same_text(s, "bars") {
        Ok(CardPattern::Bars)
    } else if same_text(s, "stripes") {
        Ok(CardPattern::Stripes)
    } else {
        let mut m: String = "unknown pattern `".to_owned();
        m.append(s);
        m.append("` (bars|stripes)");
        Err(m)
    }
}

// ---------------------------------------------------------------------------
// Reports
// ---------------------------------------------------------------------------

/// How a flag is written.
pub open spec fn flag_text(b: bool) -> Seq<char> {
    if b {
        "true"@
    } else {
        "false"@
    }
}

fn flag_line(label: &str, b: bool) -> (r: String)
    ensures
        r@ == label@ + flag_text(b),
{
    let mut m: String = label.to_owned();
    m.append(
        if b {
            "true"
        } else {
            "false"
        },
    );
    m
}

fn text_line(label: &str, text: &str) -> (r: String)
    ensures
        r@ == label@ + text@,
{
    let mut m: String = label.to_owned();
    m.append(text);
    m
}

fn number_line(label: &str, n: u64, unit: &str) -> (r: String)
    ensures
        r@ == label@ + decimal(n as nat) + unit@,
{
    let mut m: String = label.to_owned();
    push_decimal(&mut m, n);
    m.append(unit);
    m
}

/// The texts of a report's lines.
pub open spec fn lines(r: Seq<String>) -> Seq<Seq<char>> {
    r.map_values(|s: String| s@)
}

/// The status report of a probe.
pub open spec fn status_report(s: PrinterStatus) -> Seq<Seq<char>> {
    let head = seq![
        "Status:"@,
        "  printing:     "@ + flag_text(s.printing),
        "  device_busy:  "@ + flag_text(s.device_busy),
        "  buf_full:     "@ + flag_text(s.buf_full),
        "  low_battery:  "@ + flag_text(s.low_battery),
        "  cover_open:   "@ + flag_text(s.cover_open),
        "  print_count:  "@ + decimal(s.print_count as nat) + ""@,
    ];
    match s.error_description {
        Some(e) => head.push("  ERRORS:       "@ + e@),
        None => head,
    }
}

/// Reports a status line by line, as a probe shows it.
pub fn status_lines(s: &PrinterStatus) -> (r: Vec<String>)
    ensures
        lines(r@) == status_report(*s),
{
    let mut out: Vec<String> = Vec::new();
    out.push("Status:".to_owned());
    out.push(flag_line("  printing:     ", s.printing));
    out.push(flag_line("  device_busy:  ", s.device_busy));
    out.push(flag_line("  buf_full:     ", s.buf_full));
    out.push(flag_line("  low_battery:  ", s.low_battery));
    out.push(flag_line("  cover_open:   ", s.cover_open));
    out.push(number_line("  print_count:  ", s.print_count as u64, ""));
    match &s.error_description {
        Some(e) => {
            out.push(text_line("  ERRORS:       ", e.as_str()));
        },
        None => {},
    }
    assert(lines(out@) =~= status_report(*s));
    out
}

/// `{w}mm x {h}mm`, behind a label.
pub open spec fn size_text(label: Seq<char>, w: u8, h: u8) -> Seq<char> {
    label + decimal(w as nat) + "mm x "@ + decimal(h as nat) + "mm"@
}

fn size_line(label: &str, w: u8, h: u8) -> (r: String)
    ensures
        r@ == size_text(label@, w, h),
{
    let mut m: String = label.to_owned();
    push_decimal(&mut m, w as u64);
    m.append("mm x ");
    push_decimal(&mut m, h as u64);
    m.append("mm");
    m
}

/// The material report of a probe.
pub open spec fn probe_material_report(m: MaterialInfo) -> Seq<Seq<char>> {
    let head = seq![
        "Material:"@,
        size_text("  Label:     "@, m.width_mm, m.height_mm),
        "  Type:      "@ + decimal(m.label_type as nat) + ""@,
        "  Gap:       "@ + decimal(m.gap_mm as nat) + "mm"@,
        "  SN:        "@ + m.sn@,
        "  UUID:      "@ + m.uuid@,
        "  Code:      "@ + m.code@,
    ];
    let counted = match m.remaining {
        Some(n) => head.push("  Remaining: "@ + decimal(n as nat) + " labels"@),
        None => head,
    };
    match m.device_sn {
        Some(sn) => counted.push("  Device SN: "@ + sn@),
        None => counted,
    }
}

/// Reports a material line by line, as a probe shows it.
pub fn probe_material_lines(m: &MaterialInfo) -> (r: Vec<String>)
    ensures
        lines(r@) == probe_material_report(*m),
{
    let mut out: Vec<String> = Vec::new();
    out.push("Material:".to_owned());
    out.push(size_line("  Label:     ", m.width_mm, m.height_mm));
    out.push(number_line("  Type:      ", m.label_type as u64, ""));
    out.push(number_line("  Gap:       ", m.gap_mm as u64, "mm"));
    out.push(text_line("  SN:        ", m.sn.as_str()));
    out.push(text_line("  UUID:      ", m.uuid.as_str()));
    out.push(text_line("  Code:      ", m.code.as_str()));
    match m.remaining {
        Some(n) => {
            out.push(number_line("  Remaining: ", n as u64, " labels"));
        },
        None => {},
    }
    match &m.device_sn {
        Some(sn) => {
            out.push(text_line("  Device SN: ", sn.as_str()));
        },
        None => {},
    }
    assert(lines(out@) =~= probe_material_report(*m));
    out
}

/// The report of the loaded material.
pub open spec fn material_report(m: MaterialInfo) -> Seq<Seq<char>> {
    seq![
        size_text("Label:     "@, m.width_mm, m.height_mm) + "  (type="@ + decimal(
            m.label_type as nat,
        ) + ", gap="@ + decimal(m.gap_mm as nat) + "mm)"@,
        "Label SN:  "@ + m.sn@,
        "RFID UID:  "@ + m.uuid@,
        "RFID code: "@ + m.code@,
        match m.remaining {
            Some(n) => "Remaining: "@ + decimal(n as nat) + " labels"@,
            None => "Remaining: (not reported)"@,
        },
        match m.device_sn {
            Some(sn) => "Device SN: "@ + sn@,
            None => "Device SN: (not in this response)"@,
        },
    ]
}

/// Reports the loaded material line by line.
pub fn material_lines(m: &MaterialInfo) -> (r: Vec<String>)
    ensures
        lines(r@) == material_report(*m),
{
    let mut first: String = size_line("Label:     ", m.width_mm, m.height_mm);
    first.append("  (type=");
    push_decimal(&mut first, m.label_type as u64);
    first.append(", gap=");
    push_decimal(&mut first, m.gap_mm as u64);
    first.append("mm)");
    let mut out: Vec<String> = Vec::new();
    out.push(first);
    out.push(text_line("Label SN:  ", m.sn.as_str()));
    out.push(text_line("RFID UID:  ", m.uuid.as_str()));
    out.push(text_line("RFID code: ", m.code.as_str()));
    out.push(
        match m.remaining {
            Some(n) => number_line("Remaining: ", n as u64, " labels"),
            None => "Remaining: (not reported)".to_owned(),
        },
    );
    out.push(
        match &m.device_sn {
            Some(sn) => text_line("Device SN: ", sn.as_str()),
            None => "Device SN: (not in this response)".to_owned(),
        },
    );
    assert(lines(out@) =~= material_report(*m));
    out
}

/// What is said of a record that took: the label as read back, and the heat
/// times that were written.
pub open spec fn provisioned_text(m: MaterialInfo, mat: RfidMaterial) -> Seq<char> {
    size_text("Provisioned: "@, m.width_mm, m.height_mm) + ", gap "@ + decimal(m.gap_mm as nat)
        + "mm, heat "@ + decimal(mat.heat_time_5 as nat) + "/"@ + decimal(mat.heat_time_40 as nat)
        + ", UUID "@ + m.uuid@
}

/// Reports a record that took.
pub fn provisioned_line(m: &MaterialInfo, mat: &RfidMaterial) -> (r: String)
    ensures
        r@ == provisioned_text(*m, *mat),
{
    let mut line: String = size_line("Provisioned: ", m.width_mm, m.height_mm);
    line.append(", gap ");
    push_decimal(&mut line, m.gap_mm as u64);
    line.append("mm, heat ");
    push_decimal(&mut line, mat.heat_time_5 as u64);
    line.append("/");
    push_decimal(&mut line, mat.heat_time_40 as u64);
    line.append(", UUID ");
    line.append(m.uuid.as_str());
    line
}

/// The warning about a record that did not take, from the material as last read
/// back and the UUID that was written.
pub open spec fn provision_warning_text(last: Option<MaterialInfo>, expected: Seq<char>) -> Seq<
    char,
> {
    match last {
        Some(m) => "Warning: printer still reports UUID "@ + m.uuid@ + " (wrote "@ + expected
            + ") — record not taken"@,
        None => "Warning: no material info after write"@,
    }
}

/// Warns of a record that did not take.
pub fn provision_warning(last: &Option<MaterialInfo>, expected: &str) -> (r: String)
    ensures
        r@ == provision_warning_text(*last, expected@),
{
    match last {
        Some(m) => {
            let mut line: String = text_line(
                "Warning: printer still reports UUID ",
                m.uuid.as_str(),
            );
            line.append(" (wrote ");
            line.append(expected);
            line.append(") — record not taken");
            line
        },
        None => "Warning: no material info after write".to_owned(),
    }
}

/// The densities of a sweep as one text, separated by commas.
pub open spec fn densities_text(list: Seq<Density>) -> Seq<char>
    decreases list.len(),
{
    if list.len() == 0 {
        Seq::empty()
    } else if list.len() == 1 {
        list[0].text()
    } else {
        densities_text(list.drop_last()).push(',') + list.last().text()
    }
}

/// Writes the densities of a sweep, separated by commas.
pub fn join_densities(list: &[Density]) -> (r: String)
    ensures
        r@ == densities_text(list@),
{
    let mut out: String = String::new();
    let mut i: usize = 0;
    assert(list@.take(0) =~= Seq::<Density>::empty());
    while i < list.len()
        invariant
            i <= list@.len(),
            out@ == densities_text(list@.take(i as int)),
        decreases list@.len() - i,
    {
        assert(list@.take(i + 1).drop_last() =~= list@.take(i as int));
        assert(list@.take(i + 1).last() == list@[i as int]);
        if i > 0 {
            out.push(',');
        } else {
            assert(Seq::<char>::empty() + list@[0].text() =~= list@[0].text());
        }
        let text: String = list[i].to_string();
        out.append(text.as_str());
        i += 1;
    }
    assert(list@.take(i as int) =~= list@);
    out
}

} // verus!
