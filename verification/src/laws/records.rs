//! Material records: every byte of the wire record, and what a record is made
//! of.

use crate::cli::{build_material, fallback_material, sweep_heats, LabelArgs};
use crate::laws::strips::number_at;
use crate::printer::{Printer, Provision, ProvisionRequest};
use crate::rfid::{heat_presets, uuid_digits, uuid_of, PaperType, RfidMaterial};
use crate::status::MaterialInfo;
use crate::text::{decimal, digit_value, digits_value, hex_of, is_digit, lemma_decimal};
use vstd::prelude::*;

verus! {

/// The smaller of two numbers.
pub open spec fn less_of(a: int, b: int) -> int {
    if a < b {
        a
    } else {
        b
    }
}

/// A record of eighty bytes carries every field of its material at its place,
/// little-endian, the size held to fifty by a hundred and twenty millimetres,
/// and nothing else.
pub proof fn records_carry_every_field(m: &RfidMaterial, b: [u8; 80], uuid: [u8; 7])
    requires
        call_ensures(RfidMaterial::encode, (m,), b),
        call_ensures(RfidMaterial::uuid_bytes, (m,), uuid),
    ensures
        forall|i: int| 0 <= i < 7 ==> b@[i] == uuid@[i],
        number_at(b@, 24) == m.code,
        b@[26] == m.mat_type,
        b@[27] == less_of(m.width_mm as int, 50),
        b@[28] == less_of(m.length_mm as int, 120),
        b@[29] == m.custom_id && b@[30] == m.gap_mm && b@[31] == m.tail_mm,
        number_at(b@, 32) + 65536 * number_at(b@, 34) == m.remaining,
        number_at(b@, 36) == m.heat_time_5,
        number_at(b@, 38) == m.heat_time_40,
        number_at(b@, 64) == m.opt_threshold.0,
        number_at(b@, 66) == m.opt_threshold.1,
        b@[68] == m.opt_index && b@[69] == m.heat_index,
        forall|i: int| 7 <= i < 24 || 40 <= i < 64 || 70 <= i < 80 ==> b@[i] == 0,
{
}

/// Hexadecimal digit `i` of the bytes.
pub open spec fn digit_at(b: Seq<u8>, i: int) -> int {
    if i % 2 == 0 {
        b[i / 2] as int / 16
    } else {
        b[i / 2] as int % 16
    }
}

/// The first `n` hexadecimal digits of the bytes, read as a decimal number.
pub open spec fn read_digits(b: Seq<u8>, n: int) -> int
    decreases n,
{
    if n <= 0 {
        0
    } else {
        10 * read_digits(b, n - 1) + digit_at(b, n - 1)
    }
}

/// How many decimal digits a number has.
pub open spec fn length_of(n: u16) -> int {
    if n < 10 {
        1
    } else if n < 100 {
        2
    } else if n < 1000 {
        3
    } else if n < 10000 {
        4
    } else {
        5
    }
}

proof fn lemma_digit(code: u16, b: Seq<u8>, i: int)
    requires
        b == uuid_of(code),
        0 <= i < 14,
    ensures
        decimal(code as nat).len() == length_of(code),
        i < length_of(code) ==> digit_at(b, i) == digit_value(decimal(code as nat)[i]),
        i >= length_of(code) ==> digit_at(b, i) == 0,
        0 <= digit_at(b, i) <= 9,
{
    reveal_with_fuel(decimal, 6);
    lemma_decimal(code as nat);
    let d = decimal(code as nat);
    let h = 2 * (i / 2);
    if h < d.len() {
        assert(is_digit(d[h]));
    }
    if h + 1 < d.len() {
        assert(is_digit(d[h + 1]));
    }
    assert(b[i / 2] == (16 * digit_value(uuid_digits(code)[h]) + digit_value(
        uuid_digits(code)[h + 1],
    )) as u8);
}

proof fn lemma_read(code: u16, b: Seq<u8>, n: int)
    requires
        b == uuid_of(code),
        0 <= n <= length_of(code),
    ensures
        decimal(code as nat).len() == length_of(code),
        read_digits(b, n) == digits_value(decimal(code as nat).take(n)),
    decreases n,
{
    let d = decimal(code as nat);
    lemma_digit(code, b, 0);
    if n > 0 {
        lemma_read(code, b, n - 1);
        lemma_digit(code, b, n - 1);
        assert(d.take(n).drop_last() =~= d.take(n - 1));
        assert(d.take(n).last() == d[n - 1]);
    }
}

/// The identifier of a record reads, digit by digit, as its catalogue code with
/// nothing but zeros behind it.
pub proof fn identifiers_read_as_the_code(m: &RfidMaterial, uuid: [u8; 7], i: int)
    requires
        call_ensures(RfidMaterial::uuid_bytes, (m,), uuid),
        0 <= i < 14,
    ensures
        read_digits(uuid@, length_of(m.code)) == m.code,
        i >= length_of(m.code) ==> digit_at(uuid@, i) == 0,
        0 <= digit_at(uuid@, i) <= 9,
{
    lemma_digit(m.code, uuid@, i);
    lemma_read(m.code, uuid@, length_of(m.code));
    lemma_decimal(m.code as nat);
    let d = decimal(m.code as nat);
    assert(d.take(d.len() as int) =~= d);
}

/// The material types have the numbers of the wire: continuous and die-cut
/// stock, then all from marker cards to black stickers one after another, then
/// the two laminated wraps.
pub proof fn paper_types_have_the_numbers_of_the_wire(p: PaperType, n: u8)
    requires
        call_ensures(PaperType::code, (p,), n),
    ensures
        n == match p {
            PaperType::Continuous => 0int,
            PaperType::DieCut => 1,
            PaperType::MarkerCard => 3,
            PaperType::Flag => 4,
            PaperType::Plate => 5,
            PaperType::Tube => 6,
            PaperType::ShrinkTube => 7,
            PaperType::MarkerTap => 8,
            PaperType::ContinuousHole => 9,
            PaperType::ReflectLight => 10,
            PaperType::LaminatedAluminum => 11,
            PaperType::BlackMark => 12,
            PaperType::BlackCard => 13,
            PaperType::BlackSticker => 14,
            PaperType::LaminatedWrapContinuous => 21,
            PaperType::LaminatedWrapDieCut => 22,
        },
{
}

/// Cold stock is burned longer than warm stock, black-mark stock longer than
/// standard stock, and cardstock longest.
pub proof fn presets_go_from_standard_to_cardstock()
    ensures
        heat_presets::STANDARD == (1700u16, 1200u16),
        heat_presets::BLACK_MARK == (1800u16, 1300u16),
        heat_presets::CARDSTOCK == (2500u16, 2000u16),
{
}

/// The record of a label carries what the caller gives, and the standard answers
/// of unbranded stock for the rest.
pub proof fn records_are_made_of_what_is_given(
    label: LabelArgs,
    heat: (u16, u16),
    count: u32,
    mat_type: u8,
    code: u16,
    m: RfidMaterial,
)
    requires
        call_ensures(build_material, (label, heat, count, mat_type, code), m),
    ensures
        m.width_mm == label.width && m.length_mm == label.length && m.gap_mm == label.gap,
        m.heat_time_5 == heat.0 && m.heat_time_40 == heat.1,
        m.remaining == count && m.mat_type == mat_type && m.code == code,
        m.tail_mm == 0 && m.custom_id == 1,
        m.opt_threshold == (0u16, 0u16) && m.opt_index == 0 && m.heat_index == 2,
{
}

/// Unbranded stock: die-cut labels of forty by thirty millimetres with a gap of
/// three, four hundred and eighty of them, code 30000, the standard heat.
pub proof fn unbranded_stock_is_plain_labels(m: RfidMaterial)
    requires
        call_ensures(<RfidMaterial as Default>::default, (), m),
    ensures
        m.code == 30000 && m.mat_type == 1 && m.remaining == 480,
        m.width_mm == 40 && m.length_mm == 30 && m.gap_mm == 3 && m.tail_mm == 0,
        m.heat_time_5 == 1700 && m.heat_time_40 == 1200,
        m.custom_id == 1 && m.opt_threshold == (0u16, 0u16) && m.opt_index == 0 && m.heat_index == 2,
{
}

/// A sweep without profiles of its own walks the three presets, the coolest
/// first; one with profiles walks those.
pub proof fn sweeps_walk_what_is_given(heats: Vec<(u16, u16)>, r: Vec<(u16, u16)>)
    requires
        call_ensures(sweep_heats, (heats,), r),
    ensures
        heats@.len() > 0 ==> r@ == heats@,
        heats@.len() == 0 ==> r@ == seq![(1700u16, 1200u16), (1800u16, 1300u16), (2500u16, 2000u16)],
{
}

/// A material that stands in for a missing one has the size that is given and no
/// identity.
pub proof fn stand_in_materials_have_no_identity(w: u8, h: u8, gap: u8, m: MaterialInfo)
    requires
        call_ensures(fallback_material, (w, h, gap), m),
    ensures
        m.width_mm == w && m.height_mm == h && m.gap_mm == gap && m.label_type == 0,
        m.uuid@.len() == 0 && m.sn@.len() == 0 && m.code@.len() == 0,
        m.remaining is None && m.device_sn is None,
{
}

/// The character of a decimal digit.
pub open spec fn is_digit_of(c: char, d: int) -> bool {
    c as int == '0' as int + d
}

/// Writing a record announces its eighty bytes, and waits for its identifier,
/// digit by digit, to come back within ten polls.
pub proof fn records_are_announced_and_awaited<T>(
    printer: &Printer<T>,
    m: &RfidMaterial,
    uuid: [u8; 7],
    p: Provision,
    asked: ProvisionRequest,
    i: int,
)
    requires
        call_ensures(Printer::<T>::provision_material, (printer, m), (p, asked)),
        call_ensures(RfidMaterial::uuid_bytes, (m,), uuid),
        0 <= i < 7,
    ensures
        asked == (ProvisionRequest::Announce { len: 80 }),
        p.left == 10,
        p.expected@.len() == 14,
        is_digit_of(p.expected@[2 * i], uuid@[i] as int / 16),
        is_digit_of(p.expected@[2 * i + 1], uuid@[i] as int % 16),
{
    identifiers_read_as_the_code(m, uuid, 2 * i);
    identifiers_read_as_the_code(m, uuid, 2 * i + 1);
    assert(p.expected@ == hex_of(uuid_of(m.code)));
}

} // verus!
