//! Texts: how numbers are written and read, what is trimmed, and what the
//! program says.

use crate::buffer::{ColourMode, Density};
use crate::cli::{
    join_densities, parse_density, parse_heat_pair, parse_pattern, provision_warning,
    provisioned_line, CardPattern,
};
use crate::dither::DitherMode;
use crate::error::Error;
use crate::models::media_name;
use crate::page::test_label;
use crate::printer::{ble_target, not_taken, open_target, Target};
use crate::rfid::RfidMaterial;
use crate::server::configured_heat;
use crate::spp::{SppCodec, SppPipe};
use crate::status::MaterialInfo;
use crate::text::{
    all_digits, decimal, digits_value, hex_upper, is_digit, lemma_first_index_is, parse_number,
    parsed_number, split_once, trim, trimmed_end, trimmed_start, unsigned_digits, white_space,
};
use vstd::prelude::*;

verus! {

// ---------------------------------------------------------------------------
// Numbers
// ---------------------------------------------------------------------------

/// The text is made of ASCII digits.
pub open spec fn is_row_of_digits(s: Seq<char>) -> bool {
    forall|i: int| 0 <= i < s.len() ==> 48 <= #[trigger] s[i] as int <= 57
}

/// What a row of digits reads as.
pub open spec fn reads(s: Seq<char>) -> int
    decreases s.len(),
{
    if s.len() == 0 {
        0
    } else {
        10 * reads(s.drop_last()) + (s.last() as int - 48)
    }
}

/// The text is the number in decimal, without needless zeros.
pub open spec fn is_number(s: Seq<char>, n: int) -> bool {
    &&& s.len() > 0
    &&& is_row_of_digits(s)
    &&& reads(s) == n
    &&& s.len() > 1 ==> s[0] != '0'
}

/// A number is written in decimal, without needless zeros.
pub proof fn numbers_are_written_in_decimal(n: nat)
    ensures
        is_number(decimal(n), n as int),
    decreases n,
{
    let s = decimal(n);
    if n < 10 {
        assert(s.drop_last() =~= Seq::<char>::empty());
        assert(reads(s.drop_last()) == 0);
    } else {
        let front = decimal(n / 10);
        numbers_are_written_in_decimal(n / 10);
        assert(s.drop_last() =~= front);
        assert(s[0] == front[0]);
        if front.len() == 1 {
            assert(front.drop_last() =~= Seq::<char>::empty());
            assert(reads(front.drop_last()) == 0);
        }
        assert forall|i: int| 0 <= i < s.len() implies 48 <= #[trigger] s[i] as int <= 57 by {
            if i < front.len() {
                assert(s[i] == front[i]);
            }
        }
    }
}

/// The text denotes the number: a row of digits, one plus sign before it
/// allowed.
pub open spec fn denotes(s: Seq<char>, n: int) -> bool {
    ||| s.len() > 0 && is_row_of_digits(s) && reads(s) == n
    ||| s.len() > 1 && s[0] == '+' && is_row_of_digits(s.skip(1)) && reads(s.skip(1)) == n
}

proof fn lemma_reads(s: Seq<char>)
    requires
        is_row_of_digits(s),
    ensures
        digits_value(s) == reads(s),
    decreases s.len(),
{
    if s.len() > 0 {
        assert(48 <= s.last() as int <= 57);
        lemma_reads(s.drop_last());
    }
}

proof fn lemma_digits(s: Seq<char>)
    ensures
        all_digits(s) == is_row_of_digits(s),
{
    if all_digits(s) {
        assert forall|i: int| 0 <= i < s.len() implies 48 <= #[trigger] s[i] as int <= 57 by {
            assert(is_digit(s[i]));
        }
    }
    if is_row_of_digits(s) {
        assert forall|i: int| 0 <= i < s.len() implies is_digit(#[trigger] s[i]) by {
            assert(48 <= s[i] as int <= 57);
        }
    }
}

/// What a text is parsed as is what it denotes.
pub proof fn lemma_parsed(s: Seq<char>, max: nat)
    ensures
        parsed_number(s, max) matches Some(n) ==> n <= max && denotes(s, n as int),
        parsed_number(s, max) is None ==> forall|n: int| n <= max ==> !denotes(s, n),
{
    let d = unsigned_digits(s);
    lemma_digits(d);
    assert(s.len() > 1 ==> s.drop_first() =~= s.skip(1));
    if s.len() > 1 && s[0] == '+' {
        assert(!(48 <= s[0] as int <= 57));
        assert(d =~= s.skip(1));
    }
    if is_row_of_digits(d) {
        lemma_reads(d);
    }
}

/// A text is read as the number that it denotes, and is refused exactly where it
/// denotes none or one past the greatest that is allowed.
pub proof fn numbers_are_read_as_they_stand(s: &str, max: u64, r: Option<u64>)
    requires
        call_ensures(parse_number, (s, max), r),
    ensures
        r matches Some(n) ==> n <= max && denotes(s@, n as int),
        r is None ==> forall|n: int| n <= max ==> !denotes(s@, n),
{
    lemma_parsed(s@, max as nat);
}

/// The value of an uppercase hexadecimal digit.
pub open spec fn hex_value(c: char) -> int {
    if '0' <= c && c <= '9' {
        c as int - 48
    } else if 'A' <= c && c <= 'F' {
        c as int - 55
    } else {
        -1
    }
}

/// Bytes are written as two hexadecimal digits each, the higher one first.
pub proof fn bytes_read_back_from_hexadecimal(bytes: &[u8], r: String, i: int)
    requires
        call_ensures(hex_upper, (bytes,), r),
        0 <= i < bytes@.len(),
    ensures
        r@.len() == 2 * bytes@.len(),
        0 <= hex_value(r@[2 * i]) < 16 && 0 <= hex_value(r@[2 * i + 1]) < 16,
        16 * hex_value(r@[2 * i]) + hex_value(r@[2 * i + 1]) == bytes@[i],
{
}

// ---------------------------------------------------------------------------
// White space
// ---------------------------------------------------------------------------

/// A character that Unicode counts as white space.
pub open spec fn is_space(c: char) -> bool {
    let n = c as int;
    ||| 9 <= n <= 13
    ||| n == 32
    ||| n == 0x85
    ||| n == 0xa0
    ||| n == 0x1680
    ||| 0x2000 <= n <= 0x200a
    ||| n == 0x2028
    ||| n == 0x2029
    ||| n == 0x202f
    ||| n == 0x205f
    ||| n == 0x3000
}

proof fn lemma_start(s: Seq<char>) -> (a: int)
    ensures
        0 <= a <= s.len(),
        trimmed_start(s) == s.skip(a),
        forall|i: int| 0 <= i < a ==> is_space(#[trigger] s[i]),
        a < s.len() ==> !is_space(s[a]),
    decreases s.len(),
{
    if s.len() > 0 && white_space(s[0]) {
        let b = lemma_start(s.drop_first());
        assert(s.drop_first().skip(b) =~= s.skip(b + 1));
        assert forall|i: int| 0 <= i < b + 1 implies is_space(#[trigger] s[i]) by {
            if i > 0 {
                assert(is_space(s.drop_first()[i - 1]));
            }
        }
        b + 1
    } else {
        assert(s.skip(0) =~= s);
        0
    }
}

proof fn lemma_end(s: Seq<char>) -> (b: int)
    ensures
        0 <= b <= s.len(),
        trimmed_end(s) == s.take(b),
        forall|i: int| b <= i < s.len() ==> is_space(#[trigger] s[i]),
        b > 0 ==> !is_space(s[b - 1]),
    decreases s.len(),
{
    if s.len() > 0 && white_space(s.last()) {
        let b = lemma_end(s.drop_last());
        assert(s.drop_last().take(b) =~= s.take(b));
        assert forall|i: int| b <= i < s.len() implies is_space(#[trigger] s[i]) by {
            if i < s.len() - 1 {
                assert(is_space(s.drop_last()[i]));
            }
        }
        b
    } else {
        assert(s.take(s.len() as int) =~= s);
        s.len() as int
    }
}

/// The piece `a..b` of the text stands between white space and begins and ends
/// with something else.
pub open spec fn is_core(s: Seq<char>, a: int, b: int) -> bool {
    &&& 0 <= a <= b <= s.len()
    &&& forall|i: int| 0 <= i < a || b <= i < s.len() ==> is_space(#[trigger] s[i])
    &&& a < b ==> !is_space(s[a]) && !is_space(s[b - 1])
}

/// Trimming takes the white space from both ends, all of it and nothing else.
pub proof fn trimming_leaves_the_core(s: &str, r: String)
    requires
        call_ensures(trim, (s,), r),
    ensures
        exists|a: int, b: int| #[trigger] is_core(s@, a, b) && r@ == s@.subrange(a, b),
{
    let a = lemma_start(s@);
    let rest = s@.skip(a);
    let b = lemma_end(rest);
    assert(rest.take(b) =~= s@.subrange(a, a + b));
    assert forall|i: int| 0 <= i < a || a + b <= i < s@.len() implies is_space(
        #[trigger] s@[i],
    ) by {
        if i >= a {
            assert(is_space(rest[i - a]));
        }
    }
    if b > 0 {
        assert(rest[b - 1] == s@[a + b - 1]);
    }
    assert(is_core(s@, a, a + b));
}

// ---------------------------------------------------------------------------
// Targets
// ---------------------------------------------------------------------------

/// What stands behind `ble://`, or behind `ble:` alone, is a BLE address; any
/// other text is none.
pub proof fn ble_targets_name_an_address(target: &str, rest: Seq<char>, r: Option<String>)
    requires
        call_ensures(ble_target, (target,), r),
    ensures
        target@ == "ble://"@ + rest ==> (r matches Some(a) && a@ == rest),
        target@ == "ble:"@ + rest && !"//"@.is_prefix_of(rest) ==> (r matches Some(a) && a@
            == rest),
        !"ble:"@.is_prefix_of(target@) ==> r is None,
{
    reveal_strlit("ble://");
    reveal_strlit("ble:");
    reveal_strlit("//");
    let t = target@;
    if t == "ble://"@ + rest {
        assert("ble://"@.is_prefix_of(t));
        assert(t.skip(6) =~= rest);
    }
    if t == "ble:"@ + rest {
        assert("ble:"@.is_prefix_of(t));
        assert(t.skip(4) =~= rest);
        if "ble://"@.is_prefix_of(t) {
            assert(t[4] == "ble://"@[4] && t[5] == "ble://"@[5]);
            assert(rest[0] == t[4] && rest[1] == t[5]);
            assert(rest.take(2) =~= "//"@);
        }
    }
    if "ble://"@.is_prefix_of(t) {
        assert(t.take(4) =~= "ble:"@) by {
            assert forall|i: int| 0 <= i < 4 implies t[i] == "ble://"@[i] by {
                assert(t.take(6)[i] == t[i]);
            }
        }
    }
}

/// A device path is opened over USB, a BLE address over BLE, and anything else
/// is a Bluetooth address as it stands.
pub proof fn targets_say_how_to_reach_them(target: &str, r: Target, address: Option<String>)
    requires
        call_ensures(open_target, (target,), r),
        call_ensures(ble_target, (target,), address),
    ensures
        "/dev/hidraw"@.is_prefix_of(target@) ==> (r matches Target::Usb(p) && p@ == target@),
        !"/dev/hidraw"@.is_prefix_of(target@) ==> match address {
            Some(a) => r matches Target::Ble(b) && b@ == a@,
            None => r matches Target::Bt(b) && b@ == target@,
        },
{
}

// ---------------------------------------------------------------------------
// Densities and media
// ---------------------------------------------------------------------------

/// A density is written as its one number, or as black, a colon and red.
pub proof fn densities_are_written_black_first(d: &Density, r: String)
    requires
        call_ensures(Density::to_string, (d,), r),
    ensures
        d.black == d.red ==> is_number(r@, d.black as int),
        d.black != d.red ==> exists|a: Seq<char>, b: Seq<char>|
            r@ == a.push(':') + b && #[trigger] is_number(a, d.black as int)
                && #[trigger] is_number(b, d.red as int),
{
    numbers_are_written_in_decimal(d.black as nat);
    numbers_are_written_in_decimal(d.red as nat);
}

/// Some number up to the greatest is denoted by the text.
pub open spec fn denotes_up_to(s: Seq<char>, max: int) -> bool {
    exists|n: int| n <= max && #[trigger] denotes(s, n)
}

proof fn lemma_denoted(s: Seq<char>, max: nat)
    ensures
        denotes_up_to(s, max as int) <==> parsed_number(s, max) is Some,
        parsed_number(s, max) matches Some(n) ==> denotes(s, n as int),
{
    lemma_parsed(s, max);
}

proof fn lemma_cut_at_colon(s: Seq<char>, a: Seq<char>, b: Seq<char>)
    requires
        s == a.push(':') + b,
        !a.contains(':'),
    ensures
        split_once(s, ':') == Some((a, b)),
{
    let n = a.len() as int;
    assert forall|j: int| 0 <= j < n implies s[j] != ':' by {
        assert(a.contains(a[j]));
    }
    assert(s[n] == ':');
    lemma_first_index_is(s, ':', n);
    assert(s.take(n) =~= a);
    assert(s.skip(n + 1) =~= b);
}

proof fn lemma_no_colon(s: Seq<char>)
    requires
        !s.contains(':'),
    ensures
        split_once(s, ':') is None,
{
    assert forall|j: int| 0 <= j < s.len() implies s[j] != ':' by {
        assert(s.contains(s[j]));
    }
    lemma_first_index_is(s, ':', s.len() as int);
}

/// A density with a colon is taken where both sides denote a number up to 255;
/// what is refused is named, black before red.
pub proof fn densities_apart_are_read_side_by_side(
    s: &str,
    a: Seq<char>,
    b: Seq<char>,
    r: Result<Density, String>,
)
    requires
        s@ == a.push(':') + b,
        !a.contains(':'),
        call_ensures(parse_density, (s,), r),
    ensures
        match r {
            Ok(d) => denotes(a, d.black as int) && denotes(b, d.red as int),
            Err(m) => if !denotes_up_to(a, 255) {
                m@ == "bad black `"@ + a + "`"@
            } else {
                !denotes_up_to(b, 255) && m@ == "bad red `"@ + b + "`"@
            },
        },
{
    lemma_cut_at_colon(s@, a, b);
    lemma_denoted(a, 255);
    lemma_denoted(b, 255);
}

/// A density without a colon is taken for both trims where it denotes a number
/// up to 255, and refused as it stands otherwise.
pub proof fn one_density_is_for_both(s: &str, r: Result<Density, String>)
    requires
        !s@.contains(':'),
        call_ensures(parse_density, (s,), r),
    ensures
        match r {
            Ok(d) => d.black == d.red && denotes(s@, d.black as int),
            Err(m) => !denotes_up_to(s@, 255) && m@ == "bad density `"@ + s@ + "`"@,
        },
{
    lemma_no_colon(s@);
    lemma_denoted(s@, 255);
}

/// A pair of heat times is taken where both sides of the colon denote a number
/// up to 65535; what is refused is named, the first before the second.
pub proof fn heat_pairs_are_read_side_by_side(
    s: &str,
    a: Seq<char>,
    b: Seq<char>,
    r: Result<(u16, u16), String>,
)
    requires
        s@ == a.push(':') + b,
        !a.contains(':'),
        call_ensures(parse_heat_pair, (s,), r),
    ensures
        match r {
            Ok(p) => denotes(a, p.0 as int) && denotes(b, p.1 as int),
            Err(m) => if !denotes_up_to(a, 65535) {
                m@ == "bad heat5 `"@ + a + "`"@
            } else {
                !denotes_up_to(b, 65535) && m@ == "bad heat40 `"@ + b + "`"@
            },
        },
{
    lemma_cut_at_colon(s@, a, b);
    lemma_denoted(a, 65535);
    lemma_denoted(b, 65535);
}

/// A text without a colon is no pair of heat times.
pub proof fn heat_pairs_have_a_colon(s: &str, r: Result<(u16, u16), String>)
    requires
        !s@.contains(':'),
        call_ensures(parse_heat_pair, (s,), r),
    ensures
        r matches Err(m) && m@ == "expected `heat5:heat40`, got `"@ + s@ + "`"@,
{
    lemma_no_colon(s@);
}

/// A heat setting is read from both sides of its colon, white space aside, and is
/// the standard profile where either side denotes no heat time.
pub proof fn heat_settings_are_read_side_by_side(
    raw: &str,
    a: &str,
    b: &str,
    ta: String,
    tb: String,
    r: (u16, u16),
)
    requires
        raw@ == a@.push(':') + b@,
        !a@.contains(':'),
        call_ensures(trim, (a,), ta),
        call_ensures(trim, (b,), tb),
        call_ensures(configured_heat, (Some(raw),), r),
    ensures
        if denotes_up_to(ta@, 65535) && denotes_up_to(tb@, 65535) {
            denotes(ta@, r.0 as int) && denotes(tb@, r.1 as int)
        } else {
            r == (1700u16, 1200u16)
        },
{
    lemma_cut_at_colon(raw@, a@, b@);
    lemma_denoted(ta@, 65535);
    lemma_denoted(tb@, 65535);
}

/// Adding a density to a list adds a comma and the density to its text.
pub proof fn lists_of_densities_grow_by_a_comma(
    list: &[Density],
    longer: &[Density],
    d: &Density,
    r: String,
    q: String,
    t: String,
)
    requires
        longer@ == list@.push(*d),
        call_ensures(join_densities, (list,), r),
        call_ensures(join_densities, (longer,), q),
        call_ensures(Density::to_string, (d,), t),
    ensures
        list@.len() == 0 ==> r@.len() == 0 && q@ == t@,
        list@.len() > 0 ==> q@ == r@.push(',') + t@,
{
    assert(longer@.drop_last() =~= list@);
}

/// A media name gives the width and the length, twice.
pub proof fn media_names_give_the_size_twice(w: i32, h: i32, r: String)
    requires
        call_ensures(media_name, (w, h), r),
        w >= 0,
        h >= 0,
    ensures
        exists|a: Seq<char>, b: Seq<char>|
            r@ == "om_"@ + a + "x"@ + b + "mm_"@ + a + "x"@ + b + "mm"@ && #[trigger] is_number(
                a,
                w as int,
            ) && #[trigger] is_number(b, h as int),
{
    numbers_are_written_in_decimal(w as nat);
    numbers_are_written_in_decimal(h as nat);
}

/// A page in two colours carries two lines for each column, and says so with the
/// number two; one in black carries one and says nothing.
pub proof fn modes_say_how_many_lines_they_carry(mode: ColourMode, cut: u8, lines: u16)
    requires
        call_ensures(ColourMode::first_cut, (mode,), cut),
        call_ensures(ColourMode::planes, (mode,), lines),
    ensures
        mode is Mono ==> cut == 0 && lines == 1,
        mode is TwoColour ==> cut == 2 && lines == 2,
{
}

/// A test label is as wide as the roll, or as the head where that is narrower,
/// and as high as the roll, or as a standard label where the roll has no height.
pub proof fn test_labels_fit_roll_and_head(
    mat: &MaterialInfo,
    head: u32,
    standard: u8,
    r: (u32, u32),
)
    requires
        call_ensures(test_label, (mat, head, standard), r),
    ensures
        r.0 <= mat.width_mm && r.0 <= head,
        r.0 == mat.width_mm || r.0 == head,
        mat.height_mm > 0 ==> r.1 == mat.height_mm,
        mat.height_mm == 0 ==> r.1 == standard,
{
}

// ---------------------------------------------------------------------------
// Names
// ---------------------------------------------------------------------------

/// Each way of dithering has its name, diffusion after Floyd and Steinberg two,
/// and any other text is refused as it stands.
pub proof fn dithers_are_named(s: &str, r: Result<DitherMode, String>)
    requires
        call_ensures(DitherMode::named, (s,), r),
    ensures
        (r matches Ok(m) && m is Bayer) <==> (s@ == "bayer"@),
        (r matches Ok(m) && m is FloydSteinberg) <==> (s@ == "floyd-steinberg"@ || s@ == "fs"@),
        (r matches Ok(m) && m is Atkinson) <==> (s@ == "atkinson"@),
        (r matches Ok(m) && m is Vendor16) <==> (s@ == "vendor16"@),
        r matches Err(m) ==> m@ == "unknown dither `"@ + s@
            + "` (bayer|floyd-steinberg|atkinson|vendor16)"@,
{
    reveal_strlit("bayer");
    reveal_strlit("floyd-steinberg");
    reveal_strlit("fs");
    reveal_strlit("atkinson");
    reveal_strlit("vendor16");
    assert("bayer"@.len() == 5 && "fs"@.len() == 2 && "floyd-steinberg"@.len() == 15);
    assert("atkinson"@.len() == 8 && "vendor16"@.len() == 8);
    assert("atkinson"@[0] != "vendor16"@[0]);
}

/// Each test card has its name, and any other text is refused as it stands.
pub proof fn cards_are_named(s: &str, r: Result<CardPattern, String>)
    requires
        call_ensures(parse_pattern, (s,), r),
    ensures
        (r matches Ok(p) && p is Bars) <==> (s@ == "bars"@),
        (r matches Ok(p) && p is Stripes) <==> (s@ == "stripes"@),
        r matches Err(m) ==> m@ == "unknown pattern `"@ + s@ + "` (bars|stripes)"@,
{
    reveal_strlit("bars");
    reveal_strlit("stripes");
    assert("bars"@.len() != "stripes"@.len());
}

// ---------------------------------------------------------------------------
// Reports
// ---------------------------------------------------------------------------

/// A record that took is reported with the size and gap read back and the heat
/// times that were written.
pub proof fn taken_records_are_reported(m: &MaterialInfo, mat: &RfidMaterial, r: String)
    requires
        call_ensures(provisioned_line, (m, mat), r),
    ensures
        r@ == "Provisioned: "@ + decimal(m.width_mm as nat) + "mm x "@ + decimal(
            m.height_mm as nat,
        ) + "mm"@ + ", gap "@ + decimal(m.gap_mm as nat) + "mm, heat "@ + decimal(
            mat.heat_time_5 as nat,
        ) + "/"@ + decimal(mat.heat_time_40 as nat) + ", UUID "@ + m.uuid@,
{
}

/// A record that did not take is reported with the identifier that the printer
/// gave and the one that was written, in this order.
pub proof fn untaken_records_are_reported(
    last: &Option<MaterialInfo>,
    expected: &str,
    warning: String,
    error: Error,
)
    requires
        call_ensures(provision_warning, (last, expected), warning),
        call_ensures(not_taken, (last, expected), error),
    ensures
        last matches Some(m) ==> {
            &&& warning@ == "Warning: printer still reports UUID "@ + m.uuid@ + " (wrote "@
                + expected@ + ") — record not taken"@
            &&& error matches Error::InvalidResponse(e) && e@
                == "record not taken: printer reports UUID "@ + m.uuid@ + " (wrote "@ + expected@
                + ")"@
        },
        last is None ==> {
            &&& warning@ == "Warning: no material info after write"@
            &&& error matches Error::InvalidResponse(e) && e@
                == "record not taken: no material info after write"@
        },
{
}

/// A bulk transfer is announced in frames of five hundred and twelve bytes, with
/// the number of packets.
pub proof fn bulk_headers_count_the_packets<P: SppPipe>(
    codec: &SppCodec<P>,
    packets: usize,
    r: (u16, u16),
)
    requires
        call_ensures(SppCodec::<P>::bulk_header, (codec, packets), r),
    ensures
        r.0 == 512,
        packets < 65536 ==> r.1 == packets,
{
}

} // verus!
