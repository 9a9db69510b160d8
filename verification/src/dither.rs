//! Halftoning: 8-bit grey lines to single dots.
//!
//! The printer has no greyscale mode, the raster is strictly one bit per pixel,
//! so every tone is a halftone produced on the host.

use crate::single::{
    doubled_below, lemma_whole, plus, times_sixteenths, whole, Number, Single,
};
use crate::text::same_text;
use vstd::prelude::*;

verus! {

/// Thermal-compensated sRGB-to-dither table.
///
/// Combines standard sRGB linearization (gamma ~2.2) with a thermal bleed
/// compensation curve (gamma correction factor = 5.0). This pushes mid-tones
/// significantly lighter to compensate for dot spread on thermal printers,
/// where anything above ~50% dot density appears solid black.
///
/// Key mappings (0 is black, 255 is white): 0 gives 100% dots, 48 gives 50%,
/// 128 gives 25%, 192 gives 12.5%, 255 gives none.
pub const SRGB_TO_LINEAR: [u8; 256] = [
    0, 50, 58, 63, 67, 70, 72, 74, 76, 78, 80, 82, 83, 85, 86, 88, 89, 90, 92, 93, 95, 96, 97, 98,
    100, 101, 102, 103, 105, 106, 107, 108, 109, 110, 112, 113, 114, 115, 116, 117, 118, 119, 120,
    121, 122, 123, 124, 125, 126, 127, 128, 129, 130, 131, 132, 133, 134, 135, 135, 136, 137, 138,
    139, 140, 141, 142, 142, 143, 144, 145, 146, 147, 148, 148, 149, 150, 151, 152, 152, 153, 154,
    155, 156, 156, 157, 158, 159, 159, 160, 161, 162, 162, 163, 164, 165, 165, 166, 167, 167, 168,
    169, 170, 170, 171, 172, 172, 173, 174, 174, 175, 176, 177, 177, 178, 179, 179, 180, 181, 181,
    182, 183, 183, 184, 184, 185, 186, 186, 187, 188, 188, 189, 190, 190, 191, 191, 192, 193, 193,
    194, 195, 195, 196, 196, 197, 198, 198, 199, 199, 200, 201, 201, 202, 202, 203, 203, 204, 205,
    205, 206, 206, 207, 207, 208, 209, 209, 210, 210, 211, 211, 212, 213, 213, 214, 214, 215, 215,
    216, 216, 217, 217, 218, 219, 219, 220, 220, 221, 221, 222, 222, 223, 223, 224, 224, 225, 225,
    226, 226, 227, 227, 228, 228, 229, 230, 230, 231, 231, 232, 232, 233, 233, 234, 234, 235, 235,
    236, 236, 237, 237, 238, 238, 238, 239, 239, 240, 240, 241, 241, 242, 242, 243, 243, 244, 244,
    245, 245, 246, 246, 247, 247, 248, 248, 249, 249, 249, 250, 250, 251, 251, 252, 252, 253, 253,
    254, 254, 255, 255,
];

/// 4x4 Bayer ordered dither threshold matrix, scaled 0-255.
pub const BAYER4: [[u8; 4]; 4] = [
    [8, 136, 40, 168],
    [200, 72, 232, 104],
    [56, 184, 24, 152],
    [248, 120, 216, 88],
];

/// How tones become dots.
#[derive(Debug, Clone, Copy, PartialEq, Eq, Structural)]
pub enum DitherMode {
    /// 4x4 ordered Bayer. Stateless, no error smearing, and the default:
    /// [`SRGB_TO_LINEAR`] is tuned for this hardware's dot spread, which the
    /// error-diffusion kernels inherit but were not designed around.
    Bayer,
    /// Classic Floyd-Steinberg (7/16, 3/16, 5/16, 1/16).
    FloydSteinberg,
    /// Atkinson: spreads only 6/8 of the error over a wider neighbourhood,
    /// giving higher local contrast and cleaner whites at the cost of clipping.
    Atkinson,
    /// Quantise to 16 grey levels (`i * 17`), then threshold at 125. Skips
    /// [`SRGB_TO_LINEAR`]: there is no thermal compensation in it.
    Vendor16,
}

impl Default for DitherMode {
    fn default() -> (r: Self)
        ensures
            r == DitherMode::Bayer,
    {
        DitherMode::Bayer
    }
}

/// The mode of a name.
pub open spec fn mode_named(s: Seq<char>) -> Option<DitherMode> {
    if s == "bayer"@ {
        Some(DitherMode::Bayer)
    } else if s == "floyd-steinberg"@ || s == "fs"@ {
        Some(DitherMode::FloydSteinberg)
    } else if s == "atkinson"@ {
        Some(DitherMode::Atkinson)
    } else if s == "vendor16"@ {
        Some(DitherMode::Vendor16)
    } else {
        None
    }
}

/// What is said of a name that no mode has.
pub open spec fn unknown_mode(s: Seq<char>) -> Seq<char> {
    "unknown dither `"@ + s + "` (bayer|floyd-steinberg|atkinson|vendor16)"@
}

impl DitherMode {
    pub const NAMES: [&'static str; 4] = ["bayer", "floyd-steinberg", "atkinson", "vendor16"];

    /// The mode called `s`.
    pub fn named(s: &str) -> (r: Result<DitherMode, String>)
        ensures
            match r {
                Ok(mode) => mode_named(s@) == Some(mode),
                Err(m) => mode_named(s@) is None && m@ == unknown_mode(s@),
            },
    {
        if same_text(s, "bayer") {
            Ok(DitherMode::Bayer)
        } else if same_text(s, "floyd-steinberg") || same_text(s, "fs") {
            Ok(DitherMode::FloydSteinberg)
        } else if same_text(s, "atkinson") {
            Ok(DitherMode::Atkinson)
        } else if same_text(s, "vendor16") {
            Ok(DitherMode::Vendor16)
        } else {
            let mut m: String = String::new();
            m.append("unknown dither `");
            m.append(s);
            m.append("` (bayer|floyd-steinberg|atkinson|vendor16)");
            assert(m@ =~= unknown_mode(s@));
            Err(m)
        }
    }
}

impl std::str::FromStr for DitherMode {
    type Err = String;

    fn from_str(s: &str) -> (r: Result<Self, String>)
        ensures
            match r {
                Ok(mode) => mode_named(s@) == Some(mode),
                Err(m) => mode_named(s@) is None && m@ == unknown_mode(s@),
            },
    {
        DitherMode::named(s)
    }
}

/// Every listed name is the name of its own mode.
pub proof fn listed_names_are_understood()
    ensures
        mode_named(DitherMode::NAMES@[0]@) == Some(DitherMode::Bayer),
        mode_named(DitherMode::NAMES@[1]@) == Some(DitherMode::FloydSteinberg),
        mode_named(DitherMode::NAMES@[2]@) == Some(DitherMode::Atkinson),
        mode_named(DitherMode::NAMES@[3]@) == Some(DitherMode::Vendor16),
{
    reveal_strlit("bayer");
    reveal_strlit("floyd-steinberg");
    reveal_strlit("fs");
    reveal_strlit("atkinson");
    reveal_strlit("vendor16");
    assert("floyd-steinberg"@.len() != "bayer"@.len());
    assert("atkinson"@.len() != "bayer"@.len() && "atkinson"@.len() != "floyd-steinberg"@.len());
    assert("vendor16"@[0] != "atkinson"@[0]);
    assert("vendor16"@.len() == 8);
}

// ---------------------------------------------------------------------------
// Tones and thresholds
// ---------------------------------------------------------------------------

/// The tone that is dithered for a grey value.
pub open spec fn tone(mode: DitherMode, w: u8) -> u8 {
    if mode == DitherMode::Vendor16 {
        w
    } else {
        SRGB_TO_LINEAR@[w as int]
    }
}

/// The ordered-dither threshold of row `y` at printed position `at`.
pub open spec fn bayer_threshold(y: int, at: int) -> u8 {
    BAYER4@[y % 4]@[at % 4]
}

/// How many of the grey levels `1..=n` the value reaches, halves included: level
/// `i` is at `17 i`.
pub open spec fn levels_reached(v: Number, n: int) -> int
    decreases n,
{
    if n <= 0 {
        0
    } else {
        levels_reached(v, n - 1) + if doubled_below(v, 34 * n - 17) {
            0int
        } else {
            1
        }
    }
}

/// The grey that a value is taken for: one of sixteen levels, or black or white.
pub open spec fn quantised(mode: DitherMode, v: Number) -> int {
    if mode == DitherMode::Vendor16 {
        17 * levels_reached(v, 15)
    } else if doubled_below(v, 256) {
        0
    } else {
        255
    }
}

/// The quantised grey is printed as a dot.
pub open spec fn inks(mode: DitherMode, v: Number) -> bool {
    quantised(mode, v) < if mode == DitherMode::Vendor16 {
        125int
    } else {
        128
    }
}

/// What quantising leaves over.
pub open spec fn leftover(mode: DitherMode, v: Number) -> Number {
    plus(v, whole(-quantised(mode, v)))
}

/// How many sixteenths of the leftover go to the pixel `dx` to the right and
/// `dy` rows below. In [`DitherMode::Vendor16`] they sum to 15, not 16: a little
/// error is dropped on every pixel.
pub open spec fn weight(mode: DitherMode, dx: int, dy: int) -> int {
    match mode {
        DitherMode::Bayer => 0,
        DitherMode::FloydSteinberg => if dy == 0 {
            if dx == 1 {
                7
            } else {
                0
            }
        } else if dy == 1 {
            if dx == -1 {
                3
            } else if dx == 0 {
                5
            } else if dx == 1 {
                1
            } else {
                0
            }
        } else {
            0
        },
        DitherMode::Atkinson => if (dy == 0 && (dx == 1 || dx == 2)) || (dy == 1 && -1 <= dx <= 1)
            || (dy == 2 && dx == 0) {
            2
        } else {
            0
        },
        DitherMode::Vendor16 => if dy == 0 {
            if dx == 1 {
                5
            } else {
                0
            }
        } else if dy == 1 {
            if dx == -1 {
                3
            } else if dx == 0 {
                6
            } else if dx == 1 {
                1
            } else {
                0
            }
        } else {
            0
        },
    }
}

// ---------------------------------------------------------------------------
// Diffusion
// ---------------------------------------------------------------------------

/// The error carried into the current row and the two below it.
pub struct Carry {
    pub now: Seq<Number>,
    pub next: Seq<Number>,
    pub after: Seq<Number>,
}

/// A row of no error.
pub open spec fn no_error(width: int) -> Seq<Number> {
    Seq::new(width as nat, |c: int| whole(0))
}

/// Nothing carried.
pub open spec fn nothing_carried(width: int) -> Carry {
    Carry { now: no_error(width), next: no_error(width), after: no_error(width) }
}

/// The value that pixel `x` is quantised from.
pub open spec fn value_at(mode: DitherMode, line: Seq<u8>, carry: Carry, x: int) -> Number {
    plus(whole(tone(mode, line[x]) as int), carry.now[x])
}

/// A row `dy` below pixel `x` once its leftover `e` is spread.
pub open spec fn spread_row(
    mode: DitherMode,
    row: Seq<Number>,
    x: int,
    dy: int,
    e: Number,
) -> Seq<Number> {
    Seq::new(
        row.len(),
        |c: int|
            if weight(mode, c - x, dy) > 0 {
                plus(row[c], times_sixteenths(e, weight(mode, c - x, dy)))
            } else {
                row[c]
            },
    )
}

/// The carry once the leftover `e` of pixel `x` is spread.
pub open spec fn spread(mode: DitherMode, carry: Carry, x: int, e: Number) -> Carry {
    Carry {
        now: spread_row(mode, carry.now, x, 0, e),
        next: spread_row(mode, carry.next, x, 1, e),
        after: spread_row(mode, carry.after, x, 2, e),
    }
}

/// The carry when pixel `x` is reached, left to right from `carry`.
pub open spec fn carry_at(mode: DitherMode, line: Seq<u8>, carry: Carry, x: int) -> Carry
    decreases x,
{
    if x <= 0 {
        carry
    } else {
        let before = carry_at(mode, line, carry, x - 1);
        spread(mode, before, x - 1, leftover(mode, value_at(mode, line, before, x - 1)))
    }
}

/// Whether pixel `x` of the line is printed as a dot.
pub open spec fn dot(
    mode: DitherMode,
    width: int,
    line: Seq<u8>,
    y: int,
    carry: Carry,
    x: int,
) -> bool {
    if mode == DitherMode::Bayer {
        tone(mode, line[x]) < bayer_threshold(y, width - 1 - x)
    } else {
        inks(mode, value_at(mode, line, carry_at(mode, line, carry, x), x))
    }
}

/// The carry for the row after this line.
pub open spec fn carry_after(mode: DitherMode, width: int, line: Seq<u8>, carry: Carry) -> Carry {
    if mode == DitherMode::Bayer {
        carry
    } else {
        let n = if line.len() < width {
            line.len() as int
        } else {
            width
        };
        let last = carry_at(mode, line, carry, n);
        Carry { now: last.next, next: last.after, after: no_error(width) }
    }
}

/// Bit `k` of a byte, the highest first.
pub open spec fn msb_bit(b: u8, k: int) -> bool {
    b & (0x80u8 >> (k as u8)) != 0
}

/// Bit `k` of byte `i` is set by the line: the pixel mirrored there is a dot.
pub open spec fn dot_placed(
    mode: DitherMode,
    width: int,
    line: Seq<u8>,
    y: int,
    carry: Carry,
    upto: int,
    i: int,
    k: int,
) -> bool {
    let x = width - 1 - (8 * i + k);
    0 <= x < upto && dot(mode, width, line, y, carry, x)
}

/// The bits of `new` are those of `old` and the dots of pixels `0..upto`.
pub open spec fn dots_added(
    mode: DitherMode,
    width: int,
    line: Seq<u8>,
    y: int,
    carry: Carry,
    upto: int,
    before: Seq<u8>,
    now: Seq<u8>,
) -> bool {
    &&& now.len() == before.len()
    &&& forall|i: int, k: int|
        0 <= i < now.len() && 0 <= k < 8 ==> #[trigger] msb_bit(now[i], k) == (msb_bit(
            before[i],
            k,
        ) || dot_placed(mode, width, line, y, carry, upto, i, k))
}

// ---------------------------------------------------------------------------
// The ditherer
// ---------------------------------------------------------------------------

/// The numbers of a row.
pub open spec fn numbers(row: Seq<Single>) -> Seq<Number> {
    row.map_values(|v: Single| v.number())
}

/// Every number of the row is well formed.
pub open spec fn row_wf(row: Seq<Single>, width: int) -> bool {
    &&& row.len() == width
    &&& forall|c: int| 0 <= c < row.len() ==> (#[trigger] row[c]).wf()
}

/// Halftones 8-bit greyscale scanlines to dots, carrying error between rows for
/// the diffusion kernels.
///
/// Feed lines in increasing `y` order; the carried error is meaningless
/// otherwise. [`DitherMode::Bayer`] is stateless and immune to ordering.
#[derive(Debug)]
pub struct Ditherer {
    mode: DitherMode,
    width: usize,
    now: Vec<Single>,
    next: Vec<Single>,
    after: Vec<Single>,
}

fn zero_row(width: usize) -> (r: Vec<Single>)
    ensures
        row_wf(r@, width as int),
        numbers(r@) == no_error(width as int),
{
    let mut row: Vec<Single> = Vec::new();
    let mut i: usize = 0;
    while i < width
        invariant
            i <= width,
            row@.len() == i,
            forall|c: int| 0 <= c < i ==> (#[trigger] row@[c]).wf() && row@[c].number() == whole(0),
        decreases width - i,
    {
        row.push(Single::zero());
        i += 1;
    }
    assert(numbers(row@) =~= no_error(width as int));
    row
}

/// The kernel weight of the pixel `dx` to the right and `dy` rows below.
fn weight_at(mode: DitherMode, dx: i8, dy: u8) -> (r: u8)
    ensures
        r == weight(mode, dx as int, dy as int),
{
    match mode {
        DitherMode::Bayer => 0,
        DitherMode::FloydSteinberg => if dy == 0 && dx == 1 {
            7
        } else if dy == 1 && dx == -1 {
            3
        } else if dy == 1 && dx == 0 {
            5
        } else if dy == 1 && dx == 1 {
            1
        } else {
            0
        },
        DitherMode::Atkinson => if (dy == 0 && (dx == 1 || dx == 2)) || (dy == 1 && -1 <= dx && dx
            <= 1) || (dy == 2 && dx == 0) {
            2
        } else {
            0
        },
        DitherMode::Vendor16 => if dy == 0 && dx == 1 {
            5
        } else if dy == 1 && dx == -1 {
            3
        } else if dy == 1 && dx == 0 {
            6
        } else if dy == 1 && dx == 1 {
            1
        } else {
            0
        },
    }
}

/// Spreads the leftover `e` of pixel `x` into the row `dy` below it.
fn spread_into(mode: DitherMode, row: &mut Vec<Single>, x: usize, dy: u8, e: Single)
    requires
        e.wf(),
        row_wf(old(row)@, old(row)@.len() as int),
        x < old(row)@.len(),
    ensures
        row_wf(final(row)@, old(row)@.len() as int),
        numbers(final(row)@) == spread_row(
            mode,
            numbers(old(row)@),
            x as int,
            dy as int,
            e.number(),
        ),
{
    let ghost before = row@;
    let mut dx: i8 = -1;
    while dx <= 2
        invariant
            -1 <= dx <= 3,
            e.wf(),
            x < row.len(),
            row_wf(before, before.len() as int),
            row_wf(row@, before.len() as int),
            forall|c: int|
                0 <= c < row@.len() ==> (#[trigger] row@[c]).number() == if c - x < dx && weight(
                    mode,
                    c - x,
                    dy as int,
                ) > 0 {
                    plus(
                        before[c].number(),
                        times_sixteenths(e.number(), weight(mode, c - x, dy as int)),
                    )
                } else {
                    before[c].number()
                },
        decreases 3 - dx,
    {
        let k: u8 = weight_at(mode, dx, dy);
        if k > 0 {
            if dx < 0 {
                if x >= 1 {
                    let v: Single = row[x - 1].plus(e.times_sixteenths(k));
                    row.set(x - 1, v);
                }
            } else if dx as usize <= row.len() - 1 - x {
                let at: usize = x + dx as usize;
                let v: Single = row[at].plus(e.times_sixteenths(k));
                row.set(at, v);
            }
        }
        dx += 1;
    }
    assert(numbers(row@) =~= spread_row(mode, numbers(before), x as int, dy as int, e.number()));
}

/// The grey that a value is taken for.
fn quantise(mode: DitherMode, v: Single) -> (r: i16)
    requires
        v.wf(),
    ensures
        r == quantised(mode, v.number()),
        0 <= r <= 255,
{
    if mode == DitherMode::Vendor16 {
        let mut level: i16 = 0;
        let mut i: i32 = 0;
        while i < 15
            invariant
                0 <= level <= i <= 15,
                v.wf(),
                level == levels_reached(v.number(), i as int),
            decreases 15 - i,
        {
            i += 1;
            if !v.doubled_below(34 * i - 17) {
                level += 1;
            }
        }
        17 * level
    } else if v.doubled_below(256) {
        0
    } else {
        255
    }
}

/// Sets bit `at` of the line, the highest of each byte first.
fn set_dot(mono: &mut [u8], at: usize)
    requires
        at / 8 < old(mono)@.len(),
    ensures
        final(mono)@.len() == old(mono)@.len(),
        forall|i: int, k: int|
            0 <= i < final(mono)@.len() && 0 <= k < 8 ==> #[trigger] msb_bit(final(mono)@[i], k)
                == (msb_bit(old(mono)@[i], k) || 8 * i + k == at),
{
    let ghost before = mono@;
    let n: u8 = (at % 8) as u8;
    let i: usize = at / 8;
    let b: u8 = mono[i];
    let bit: u8 = 0x80u8 >> n;
    mono[i] = b | bit;
    assert forall|j: int, k: int| 0 <= j < mono@.len() && 0 <= k < 8 implies #[trigger] msb_bit(
        mono@[j],
        k,
    ) == (msb_bit(before[j], k) || 8 * j + k == at) by {
        let m: u8 = k as u8;
        assert(((b | (0x80u8 >> n)) & (0x80u8 >> m) != 0) == (b & (0x80u8 >> m) != 0 || n == m))
            by (bit_vector)
            requires
                n < 8,
                m < 8,
        ;
    }
}

impl Ditherer {
    /// The rows hold one well-formed number per dot of the line.
    pub closed spec fn wf(self) -> bool {
        &&& row_wf(self.now@, self.width as int)
        &&& row_wf(self.next@, self.width as int)
        &&& row_wf(self.after@, self.width as int)
    }

    /// The mode lines are halftoned in.
    pub closed spec fn dithers(self) -> DitherMode {
        self.mode
    }

    /// How many dots a line has.
    pub closed spec fn dots(self) -> int {
        self.width as int
    }

    /// The error carried over from the lines before.
    pub closed spec fn carry(self) -> Carry {
        Carry {
            now: numbers(self.now@),
            next: numbers(self.next@),
            after: numbers(self.after@),
        }
    }

    /// A ditherer for lines of `width` dots that carries no error yet.
    pub fn new(mode: DitherMode, width: u32) -> (r: Self)
        ensures
            r.wf(),
            r.dithers() == mode,
            r.dots() == width,
            r.carry() == nothing_carried(width as int),
    {
        let n: usize = width as usize;
        Ditherer { mode, width: n, now: zero_row(n), next: zero_row(n), after: zero_row(n) }
    }

    /// The mode lines are halftoned in.
    pub fn mode(&self) -> (r: DitherMode)
        ensures
            r == self.dithers(),
    {
        self.mode
    }

    /// Dither one line to single dots, the highest bit first, mirrored
    /// horizontally.
    ///
    /// `line` is grey (0x00 black, 0xFF white). `mono` must be at least
    /// `(width + 7) / 8` bytes and zeroed by the caller: the dots are added to
    /// what it holds.
    ///
    /// The mirror is applied only when placing the output bit: diffusion runs
    /// in natural left-to-right order, so the kernel isn't reflected with it.
    #[verifier::spinoff_prover]
    #[verifier::rlimit(50)]
    pub fn line(&mut self, line: &[u8], y: u32, mono: &mut [u8])
        requires
            old(self).wf(),
            old(self).dots() <= 8 * old(mono)@.len(),
        ensures
            final(self).wf(),
            final(self).dithers() == old(self).dithers(),
            final(self).dots() == old(self).dots(),
            final(self).carry() == carry_after(
                old(self).dithers(),
                old(self).dots(),
                line@,
                old(self).carry(),
            ),
            dots_added(
                old(self).dithers(),
                old(self).dots(),
                line@,
                y as int,
                old(self).carry(),
                line@.len() as int,
                old(mono)@,
                final(mono)@,
            ),
    {
        let ghost start = *self;
        let ghost carry = self.carry();
        let ghost mode = self.mode;
        let ghost w = self.width as int;
        let ghost blank = mono@;
        let width: usize = if line.len() < self.width {
            line.len()
        } else {
            self.width
        };
        let mut x: usize = 0;
        while x < width
            invariant
                x <= width <= line.len(),
                width <= self.width,
                width == line.len() || width == self.width,
                self.wf(),
                self.mode == mode,
                self.width == w,
                w <= 8 * mono@.len(),
                mono@.len() == blank.len(),
                mode == DitherMode::Bayer ==> self.carry() == carry,
                mode != DitherMode::Bayer ==> self.carry() == carry_at(
                    mode,
                    line@,
                    carry,
                    x as int,
                ),
                dots_added(mode, w, line@, y as int, carry, x as int, blank, mono@),
            decreases width - x,
        {
            let at: usize = self.width - 1 - x;
            let grey: u8 = line[x];
            let ink: bool;
            if self.mode == DitherMode::Bayer {
                ink = SRGB_TO_LINEAR[grey as usize] < BAYER4[(y % 4) as usize][at % 4];
            } else {
                let source: u8 = if self.mode == DitherMode::Vendor16 {
                    grey
                } else {
                    SRGB_TO_LINEAR[grey as usize]
                };
                assert(self.carry().now[x as int] == self.now@[x as int].number());
                let value: Single = Single::whole(source as i16).plus(self.now[x]);
                assert(value.number() == value_at(mode, line@, self.carry(), x as int));
                let level: i16 = quantise(self.mode, value);
                ink = level < if self.mode == DitherMode::Vendor16 {
                    125
                } else {
                    128
                };
                let rest: Single = value.plus(Single::whole(-level));
                spread_into(self.mode, &mut self.now, x, 0, rest);
                spread_into(self.mode, &mut self.next, x, 1, rest);
                spread_into(self.mode, &mut self.after, x, 2, rest);
                assert(self.carry() == carry_at(mode, line@, carry, x + 1));
            }
            assert(ink == dot(mode, w, line@, y as int, carry, x as int));
            let ghost held = mono@;
            if ink {
                set_dot(mono, at);
            }
            assert forall|i: int, k: int|
                0 <= i < mono@.len() && 0 <= k < 8 implies #[trigger] msb_bit(mono@[i], k) == (
            msb_bit(blank[i], k) || dot_placed(mode, w, line@, y as int, carry, x + 1, i, k)) by {
                assert(msb_bit(held[i], k) == (msb_bit(blank[i], k) || dot_placed(
                    mode,
                    w,
                    line@,
                    y as int,
                    carry,
                    x as int,
                    i,
                    k,
                )));
            }
            x += 1;
        }
        assert forall|i: int, k: int|
            0 <= i < mono@.len() && 0 <= k < 8 implies #[trigger] msb_bit(mono@[i], k) == (msb_bit(
            blank[i],
            k,
        ) || dot_placed(mode, w, line@, y as int, carry, line@.len() as int, i, k)) by {
            assert(dot_placed(mode, w, line@, y as int, carry, x as int, i, k) == dot_placed(
                mode,
                w,
                line@,
                y as int,
                carry,
                line@.len() as int,
                i,
                k,
            ));
        }
        if self.mode != DitherMode::Bayer {
            // This row is spent; a clean one serves as the far future row.
            let mut spent: Vec<Single> = zero_row(self.width);
            std::mem::swap(&mut spent, &mut self.after);
            std::mem::swap(&mut spent, &mut self.next);
            std::mem::swap(&mut spent, &mut self.now);
        }
    }
}

// ---------------------------------------------------------------------------
// Laws
// ---------------------------------------------------------------------------

/// Ordered dithering has no memory: the same line at the same `y` gives the same
/// dots whatever came before, and leaves nothing behind.
pub proof fn bayer_has_no_memory(width: int, line: Seq<u8>, y: int, a: Carry, b: Carry, x: int)
    ensures
        dot(DitherMode::Bayer, width, line, y, a, x) == dot(
            DitherMode::Bayer,
            width,
            line,
            y,
            b,
            x,
        ),
        carry_after(DitherMode::Bayer, width, line, a) == a,
{
}

/// The four rows of the matrix repeat.
pub proof fn bayer_repeats_every_four_rows(
    width: int,
    line: Seq<u8>,
    y: int,
    carry: Carry,
    x: int,
)
    ensures
        dot(DitherMode::Bayer, width, line, y + 4, carry, x) == dot(
            DitherMode::Bayer,
            width,
            line,
            y,
            carry,
            x,
        ),
{
    assert((y + 4) % 4 == y % 4);
}

proof fn lemma_no_error_stays(mode: DitherMode, row: Seq<Number>, width: int, x: int, dy: int)
    requires
        row == no_error(width),
    ensures
        spread_row(mode, row, x, dy, whole(0)) == row,
{
    lemma_whole(0);
    assert(0 * vstd::arithmetic::power2::pow2(160) == 0) by (nonlinear_arith);
    assert forall|c: int| 0 <= c < row.len() implies #[trigger] spread_row(
        mode,
        row,
        x,
        dy,
        whole(0),
    )[c] == row[c] by {
        let k = weight(mode, c - x, dy);
        assert(0 * k / 16 == 0);
    }
    assert(spread_row(mode, row, x, dy, whole(0)) =~= row);
}

proof fn lemma_flat_value(mode: DitherMode, w: u8)
    requires
        w == 0 || w == 255,
        mode != DitherMode::Bayer,
    ensures
        ({
            let v = plus(whole(tone(mode, w) as int), whole(0));
            &&& inks(mode, v) == (w == 0)
            &&& leftover(mode, v) == whole(0)
        }),
{
    let unit = vstd::arithmetic::power2::pow2(160);
    let t = tone(mode, w) as int;
    assert(t == w);
    lemma_whole(0);
    lemma_whole(255);
    vstd::arithmetic::power2::lemma_pow2_pos(160);
    let v = plus(whole(t), whole(0));
    assert(0 * unit == 0) by (nonlinear_arith);
    assert(t * unit + 0 == t * unit);
    assert(v == whole(t));
    assert((-255) * unit == -(255 * unit)) by (nonlinear_arith);
    assert(-0 * unit == 0) by (nonlinear_arith);
    reveal_with_fuel(levels_reached, 16);
    assert forall|n: int| 0 < n <= 493 implies #[trigger] doubled_below(v, n) == (w == 0) by {
        assert(n * unit > 0 && n * unit <= 493 * unit) by (nonlinear_arith)
            requires
                0 < n <= 493,
                unit > 0,
        ;
    }
    assert(quantised(mode, v) == t);
}

/// Solid black and solid white are exact in every mode: the first prints every
/// dot, the second none, and no error is carried away from either.
pub proof fn extremes_are_exact(
    mode: DitherMode,
    width: int,
    line: Seq<u8>,
    y: int,
    w: u8,
    x: int,
)
    requires
        w == 0 || w == 255,
        forall|i: int| 0 <= i < line.len() ==> line[i] == w,
        0 <= x < line.len(),
        x < width,
    ensures
        dot(mode, width, line, y, nothing_carried(width), x) == (w == 0),
        carry_after(mode, width, line, nothing_carried(width)) == nothing_carried(width),
{
    if mode != DitherMode::Bayer {
        let n = if line.len() < width {
            line.len() as int
        } else {
            width
        };
        lemma_flat_carry(mode, width, line, w, x);
        lemma_flat_carry(mode, width, line, w, n);
        lemma_flat_value(mode, w);
    }
}

proof fn lemma_flat_carry(mode: DitherMode, width: int, line: Seq<u8>, w: u8, x: int)
    requires
        mode != DitherMode::Bayer,
        w == 0 || w == 255,
        forall|i: int| 0 <= i < line.len() ==> line[i] == w,
        0 <= x <= line.len(),
        x <= width,
    ensures
        carry_at(mode, line, nothing_carried(width), x) == nothing_carried(width),
    decreases x,
{
    if x > 0 {
        lemma_flat_carry(mode, width, line, w, x - 1);
        lemma_flat_value(mode, w);
        lemma_no_error_stays(mode, no_error(width), width, x - 1, 0);
        lemma_no_error_stays(mode, no_error(width), width, x - 1, 1);
        lemma_no_error_stays(mode, no_error(width), width, x - 1, 2);
    }
}

/// A tone never gets lighter where the grey gets darker.
#[verifier::spinoff_prover]
#[verifier::rlimit(50)]
pub proof fn tones_follow_the_grey(a: u8, b: u8)
    requires
        a <= b,
    ensures
        SRGB_TO_LINEAR@[a as int] <= SRGB_TO_LINEAR@[b as int],
    decreases b - a,
{
    if a < b {
        tones_follow_the_grey(a, (b - 1) as u8);
        assert(SRGB_TO_LINEAR@[b - 1] <= SRGB_TO_LINEAR@[b as int]);
    }
}

} // verus!
