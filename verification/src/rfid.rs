//! Synthetic label-material records.
//!
//! Genuine consumables carry an RFID tag the printer reads. Third-party stock
//! has no tag, so that read comes back all zeros and the printer raises a
//! read/write error; a material record is then synthesised in software and
//! pushed to the printer.
//!
//! The record is what tells the firmware how hard to burn: `heat_time_5` and
//! `heat_time_40` are the printhead pulse widths at 5 and 40 degrees ambient,
//! which the firmware interpolates between. They are the only absolute energy
//! control in the protocol: the 0-15 per-buffer density is a relative trim on
//! top. For energy-selected two-colour stock this is the knob that picks the
//! colour.
//!
//! The anti-counterfeit fields (time stamp, cipher text, material code) stay
//! zero: the firmware accepts a record without them.

use crate::bytes::{byte0, byte1, byte2, byte3, le16, le32};
use crate::text::{chars_of, decimal, digit_value, lemma_decimal, push_decimal};
use vstd::prelude::*;

pub mod heat_presets;

verus! {

/// Serialised record length; trailing bytes past the last field are zero.
pub const RFID_RECORD_LEN: usize = 80;

/// Every populated field sits at or past this offset within the record; only
/// the 7-byte UUID precedes it.
pub const FIELD_BASE: usize = 16;

/// Widest label the printer takes, in millimetres.
pub const MAX_LABEL_WIDTH_MM: u8 = 50;

/// Longest label the printer takes, in millimetres.
pub const MAX_LABEL_LENGTH_MM: u8 = 120;

/// Material types the firmware understands.
///
/// There is deliberately no two-colour variant: the firmware has no notion of
/// colour, only burn energy. Two-colour stock is driven by heat time and
/// density, not by picking a type here.
#[derive(Debug, Clone, Copy, PartialEq, Eq, Structural)]
pub enum PaperType {
    Continuous,
    DieCut,
    MarkerCard,
    Flag,
    Plate,
    Tube,
    ShrinkTube,
    MarkerTap,
    ContinuousHole,
    ReflectLight,
    LaminatedAluminum,
    BlackMark,
    BlackCard,
    BlackSticker,
    LaminatedWrapContinuous,
    LaminatedWrapDieCut,
}

impl PaperType {
    /// The number that stands for the type on the wire.
    pub open spec fn number(self) -> u8 {
        match self {
            PaperType::Continuous => 0,
            PaperType::DieCut => 1,
            PaperType::MarkerCard => 3,
            PaperType::Flag => 4,
            PaperType::Plate => 5,
            PaperType::Tube => 6,
            PaperType::ShrinkTube => 7,
            PaperType::MarkerTap => 8,
            PaperType::ContinuousHole => 9,
            PaperType::ReflectLight => 10,
            PaperType::LaminatedAluminum => 11,
            PaperType::BlackMark => 12,
            PaperType::BlackCard => 13,
            PaperType::BlackSticker => 14,
            PaperType::LaminatedWrapContinuous => 21,
            PaperType::LaminatedWrapDieCut => 22,
        }
    }

    /// The number that stands for the type on the wire.
    pub fn code(self) -> (r: u8)
        ensures
            r == self.number(),
    {
        match self {
            PaperType::Continuous => 0,
            PaperType::DieCut => 1,
            PaperType::MarkerCard => 3,
            PaperType::Flag => 4,
            PaperType::Plate => 5,
            PaperType::Tube => 6,
            PaperType::ShrinkTube => 7,
            PaperType::MarkerTap => 8,
            PaperType::ContinuousHole => 9,
            PaperType::ReflectLight => 10,
            PaperType::LaminatedAluminum => 11,
            PaperType::BlackMark => 12,
            PaperType::BlackCard => 13,
            PaperType::BlackSticker => 14,
            PaperType::LaminatedWrapContinuous => 21,
            PaperType::LaminatedWrapDieCut => 22,
        }
    }
}

/// Two paper types never share a number.
pub proof fn paper_numbers_are_distinct(a: PaperType, b: PaperType)
    requires
        a.number() == b.number(),
    ensures
        a == b,
{
}

/// A label-material record to hand the printer in place of a real RFID tag.
///
/// [`Default`] is unbranded stock: the catalogue code `30000` (the placeholder
/// for "not a catalogue item"), 480 labels remaining, and the
/// [`heat_presets::STANDARD`] profile.
#[derive(Debug, Clone, Copy, PartialEq, Eq)]
pub struct RfidMaterial {
    /// Catalogue code. Becomes both the label number and the leading digits of
    /// the synthetic UUID.
    pub code: u16,
    /// Material type, a [`PaperType`] number.
    pub mat_type: u8,
    /// Label extent across the printhead, millimetres. Clamped to
    /// [`MAX_LABEL_WIDTH_MM`].
    pub width_mm: u8,
    /// Label extent along the feed direction, millimetres. Clamped to
    /// [`MAX_LABEL_LENGTH_MM`].
    pub length_mm: u8,
    /// Inter-label gap, millimetres.
    pub gap_mm: u8,
    /// Tail length past the last label, millimetres.
    pub tail_mm: u8,
    /// Brand/customer ID.
    pub custom_id: u8,
    /// Labels remaining on the roll. The printer decrements this and reports it
    /// back with the material.
    pub remaining: u32,
    /// Printhead pulse width at 5 degrees ambient.
    pub heat_time_5: u16,
    /// Printhead pulse width at 40 degrees ambient.
    pub heat_time_40: u16,
    /// Gap-sensor thresholds. Zero lets the firmware use its own calibration.
    pub opt_threshold: (u16, u16),
    /// Gap-sensor profile index (newer models only).
    pub opt_index: u8,
    /// Heat-curve profile index (newer models only).
    pub heat_index: u8,
}

/// The record of unbranded stock.
pub open spec fn default_material() -> RfidMaterial {
    RfidMaterial {
        code: 30000,
        mat_type: PaperType::DieCut.number(),
        width_mm: 40,
        length_mm: 30,
        gap_mm: 3,
        tail_mm: 0,
        custom_id: 1,
        remaining: 480,
        heat_time_5: heat_presets::STANDARD.0,
        heat_time_40: heat_presets::STANDARD.1,
        opt_threshold: (0, 0),
        opt_index: 0,
        heat_index: 2,
    }
}

impl Default for RfidMaterial {
    fn default() -> (r: Self)
        ensures
            r == default_material(),
    {
        RfidMaterial {
            code: 30000,
            mat_type: PaperType::DieCut.code(),
            width_mm: 40,
            length_mm: 30,
            gap_mm: 3,
            tail_mm: 0,
            custom_id: 1,
            remaining: 480,
            heat_time_5: heat_presets::STANDARD.0,
            heat_time_40: heat_presets::STANDARD.1,
            opt_threshold: (0, 0),
            opt_index: 0,
            heat_index: 2,
        }
    }
}

/// The decimal digits of a catalogue code, padded on the right with `0` to the
/// fourteen that seven bytes hold.
pub open spec fn uuid_digits(code: u16) -> Seq<char> {
    let digits = decimal(code as nat);
    Seq::new(
        14,
        |i: int|
            if i < digits.len() {
                digits[i]
            } else {
                '0'
            },
    )
}

/// The synthetic UUID of a catalogue code: its digits read as hexadecimal.
pub open spec fn uuid_of(code: u16) -> Seq<u8> {
    let digits = uuid_digits(code);
    Seq::new(
        7,
        |i: int| (16 * digit_value(digits[2 * i]) + digit_value(digits[2 * i + 1])) as u8,
    )
}

/// `v`, and `max` where it is more.
pub open spec fn at_most(v: u8, max: u8) -> u8 {
    if v < max {
        v
    } else {
        max
    }
}

/// Byte `i` of the wire record.
pub open spec fn record_byte(m: RfidMaterial, i: int) -> u8 {
    let f = i - FIELD_BASE;
    if 0 <= i < 7 {
        uuid_of(m.code)[i]
    } else if f == 8 {
        byte0(m.code as int)
    } else if f == 9 {
        byte1(m.code as int)
    } else if f == 10 {
        m.mat_type
    } else if f == 11 {
        at_most(m.width_mm, MAX_LABEL_WIDTH_MM)
    } else if f == 12 {
        at_most(m.length_mm, MAX_LABEL_LENGTH_MM)
    } else if f == 13 {
        m.custom_id
    } else if f == 14 {
        m.gap_mm
    } else if f == 15 {
        m.tail_mm
    } else if f == 16 {
        byte0(m.remaining as int)
    } else if f == 17 {
        byte1(m.remaining as int)
    } else if f == 18 {
        byte2(m.remaining as int)
    } else if f == 19 {
        byte3(m.remaining as int)
    } else if f == 20 {
        byte0(m.heat_time_5 as int)
    } else if f == 21 {
        byte1(m.heat_time_5 as int)
    } else if f == 22 {
        byte0(m.heat_time_40 as int)
    } else if f == 23 {
        byte1(m.heat_time_40 as int)
    } else if f == 48 {
        byte0(m.opt_threshold.0 as int)
    } else if f == 49 {
        byte1(m.opt_threshold.0 as int)
    } else if f == 50 {
        byte0(m.opt_threshold.1 as int)
    } else if f == 51 {
        byte1(m.opt_threshold.1 as int)
    } else if f == 52 {
        m.opt_index
    } else if f == 53 {
        m.heat_index
    } else {
        0
    }
}

/// The wire record of a material.
pub open spec fn record_of(m: RfidMaterial) -> Seq<u8> {
    Seq::new(RFID_RECORD_LEN as nat, |i: int| record_byte(m, i))
}

proof fn lemma_code_digits(code: u16)
    ensures
        1 <= decimal(code as nat).len() <= 5,
{
    reveal_with_fuel(decimal, 6);
}

impl RfidMaterial {
    /// The synthetic UUID the record advertises: the decimal catalogue code,
    /// zero-padded on the right to 7 bytes. The printer echoes this back with
    /// the material, so it is how you confirm a record took.
    ///
    /// A code of 30000 yields `30000000000000`.
    pub fn uuid_bytes(&self) -> (r: [u8; 7])
        ensures
            r@ == uuid_of(self.code),
    {
        let ghost digits = uuid_digits(self.code);
        let mut text: String = String::new();
        push_decimal(&mut text, self.code as u64);
        let v: Vec<char> = chars_of(&text);
        assert(v@ =~= decimal(self.code as nat));
        proof {
            lemma_code_digits(self.code);
            lemma_decimal(self.code as nat);
        }
        let mut out: [u8; 7] = [0u8; 7];
        let mut i: usize = 0;
        while i < 7
            invariant
                i <= 7,
                v@ == decimal(self.code as nat),
                crate::text::all_digits(v@),
                v@.len() <= 5,
                digits == uuid_digits(self.code),
                forall|j: int| 0 <= j < i ==> #[trigger] out@[j] == uuid_of(self.code)[j],
            decreases 7 - i,
        {
            let high: u8 = if 2 * i < v.len() {
                assert(crate::text::is_digit(v@[2 * i]));
                (v[2 * i] as u32 - '0' as u32) as u8
            } else {
                0
            };
            let low: u8 = if 2 * i + 1 < v.len() {
                assert(crate::text::is_digit(v@[2 * i + 1]));
                (v[2 * i + 1] as u32 - '0' as u32) as u8
            } else {
                0
            };
            assert(high == digit_value(digits[2 * i]));
            assert(low == digit_value(digits[2 * i + 1]));
            out[i] = 16 * high + low;
            i += 1;
        }
        assert(out@ =~= uuid_of(self.code));
        out
    }

    /// Serialise to the wire record sent as the bulk payload.
    pub fn encode(&self) -> (r: [u8; RFID_RECORD_LEN])
        ensures
            r@ == record_of(*self),
    {
        let mut buf: [u8; RFID_RECORD_LEN] = [0u8; RFID_RECORD_LEN];
        let uuid: [u8; 7] = self.uuid_bytes();
        let mut i: usize = 0;
        while i < 7
            invariant
                i <= 7,
                uuid@ == uuid_of(self.code),
                forall|j: int|
                    0 <= j < RFID_RECORD_LEN ==> #[trigger] buf@[j] == if j < i {
                        uuid@[j]
                    } else {
                        0
                    },
            decreases 7 - i,
        {
            buf[i] = uuid[i];
            i += 1;
        }
        let code: (u8, u8) = le16(self.code);
        let remaining: (u8, u8, u8, u8) = le32(self.remaining);
        let cold: (u8, u8) = le16(self.heat_time_5);
        let warm: (u8, u8) = le16(self.heat_time_40);
        let first: (u8, u8) = le16(self.opt_threshold.0);
        let second: (u8, u8) = le16(self.opt_threshold.1);
        buf[FIELD_BASE + 8] = code.0;
        buf[FIELD_BASE + 9] = code.1;
        buf[FIELD_BASE + 10] = self.mat_type;
        buf[FIELD_BASE + 11] = if self.width_mm < MAX_LABEL_WIDTH_MM {
            self.width_mm
        } else {
            MAX_LABEL_WIDTH_MM
        };
        buf[FIELD_BASE + 12] = if self.length_mm < MAX_LABEL_LENGTH_MM {
            self.length_mm
        } else {
            MAX_LABEL_LENGTH_MM
        };
        buf[FIELD_BASE + 13] = self.custom_id;
        buf[FIELD_BASE + 14] = self.gap_mm;
        buf[FIELD_BASE + 15] = self.tail_mm;
        buf[FIELD_BASE + 16] = remaining.0;
        buf[FIELD_BASE + 17] = remaining.1;
        buf[FIELD_BASE + 18] = remaining.2;
        buf[FIELD_BASE + 19] = remaining.3;
        buf[FIELD_BASE + 20] = cold.0;
        buf[FIELD_BASE + 21] = cold.1;
        buf[FIELD_BASE + 22] = warm.0;
        buf[FIELD_BASE + 23] = warm.1;
        buf[FIELD_BASE + 48] = first.0;
        buf[FIELD_BASE + 49] = first.1;
        buf[FIELD_BASE + 50] = second.0;
        buf[FIELD_BASE + 51] = second.1;
        buf[FIELD_BASE + 52] = self.opt_index;
        buf[FIELD_BASE + 53] = self.heat_index;
        assert(buf@ =~= record_of(*self));
        buf
    }
}

/// The record never asks for more label than the printer takes, and its
/// anti-counterfeit fields are zero.
pub proof fn record_stays_within_the_printer(m: RfidMaterial, i: int)
    ensures
        record_of(m).len() == 80,
        record_of(m)[FIELD_BASE + 11] <= MAX_LABEL_WIDTH_MM,
        record_of(m)[FIELD_BASE + 12] <= MAX_LABEL_LENGTH_MM,
        FIELD_BASE <= i < FIELD_BASE + 8 || FIELD_BASE + 24 <= i < FIELD_BASE + 48
            ==> record_of(m)[i] == 0,
{
}

/// The heat times, the code and the count of labels are read back from the
/// record as little-endian numbers.
pub proof fn record_carries_its_numbers(m: RfidMaterial)
    ensures
        ({
            let b = record_of(m);
            &&& b[24] + 256 * b[25] == m.code
            &&& b[32] + 256 * b[33] + 65536 * b[34] + 16777216 * b[35] == m.remaining
            &&& b[36] + 256 * b[37] == m.heat_time_5
            &&& b[38] + 256 * b[39] == m.heat_time_40
        }),
{
}

/// The UUID reads, in hexadecimal, as the padded digits of the code: what the
/// printer echoes back once it took the record.
pub proof fn uuid_reads_as_the_code(code: u16)
    ensures
        crate::text::hex_of(uuid_of(code)) == uuid_digits(code),
{
    lemma_decimal(code as nat);
    let digits = uuid_digits(code);
    assert forall|i: int| 0 <= i < 14 implies crate::text::hex_of(uuid_of(code))[i] == digits[i] by {
        let h = digits[2 * (i / 2)];
        let l = digits[2 * (i / 2) + 1];
        let d = decimal(code as nat);
        assert(crate::text::is_digit(h)) by {
            if 2 * (i / 2) < d.len() {
                assert(crate::text::is_digit(d[2 * (i / 2)]));
            }
        }
        assert(crate::text::is_digit(l)) by {
            if 2 * (i / 2) + 1 < d.len() {
                assert(crate::text::is_digit(d[2 * (i / 2) + 1]));
            }
        }
        assert(0 <= digit_value(h) <= 9 && 0 <= digit_value(l) <= 9);
        assert(uuid_of(code)[i / 2] == 16 * digit_value(h) + digit_value(l));
    }
    assert(crate::text::hex_of(uuid_of(code)) =~= digits);
}

/// The UUID of a catalogue code other than zero is not blank.
pub proof fn uuid_is_not_blank(code: u16)
    requires
        code > 0,
    ensures
        uuid_of(code)[0] != 0,
{
    lemma_code_digits(code);
    lemma_decimal(code as nat);
    lemma_leading_digit(code as nat);
    assert(uuid_digits(code)[0] == decimal(code as nat)[0]);
    if decimal(code as nat).len() > 1 {
        assert(crate::text::is_digit(decimal(code as nat)[1]));
    }
}

proof fn lemma_leading_digit(n: nat)
    requires
        n > 0,
    ensures
        decimal(n).len() > 0,
        '1' <= decimal(n)[0] <= '9',
    decreases n,
{
    if n >= 10 {
        lemma_leading_digit(n / 10);
    }
}

} // verus!
