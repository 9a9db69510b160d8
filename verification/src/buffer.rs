//! Print buffers: the fixed 4096-byte records a page is sent in.

use crate::bytes::{byte0, byte1, byte_sum, ceil_div, concat, le16, lemma_join_pieces};
use crate::text::{decimal, push_decimal};
use vstd::prelude::*;

verus! {

/// Most image bytes one print buffer carries.
pub const MAX_BUF_DATA: usize = 4074;

/// Print buffer size.
pub const PRINT_BUF_SIZE: usize = 4096;

/// Header size in a print buffer.
pub const PRINT_BUF_HEADER: usize = 14;

/// Largest margin (dots) the header can carry.
pub const MARGIN_MAX_DOTS: u16 = 900;

/// Maximum density / red-deepness value encoded in the buffer header.
pub const MAX_DENSITY: u8 = 15;

/// The firmware re-reads the running checksum at every Nth byte; the builder
/// folds in the byte just before each boundary.
pub const CHECKSUM_STRIDE: usize = 256;

/// Parameters for PAGE_REG_BITS construction.
#[derive(Debug, Clone, Copy)]
pub struct PageRegBits {
    pub page_st: bool,
    pub page_end: bool,
    pub prt_end: bool,
    pub cut: u8,
    pub savepaper: bool,
    pub first_cut: u8,
    pub nodu: u8,
    pub mat: u8,
}

impl Default for PageRegBits {
    fn default() -> (r: Self)
        ensures
            r == (PageRegBits {
                page_st: false,
                page_end: false,
                prt_end: false,
                cut: 0,
                savepaper: false,
                first_cut: 0,
                nodu: 0,
                mat: 0,
            }),
    {
        PageRegBits {
            page_st: false,
            page_end: false,
            prt_end: false,
            cut: 0,
            savepaper: false,
            first_cut: 0,
            nodu: 0,
            mat: 0,
        }
    }
}

/// `v` where the flag is set, else zero.
pub open spec fn flag(b: bool, v: int) -> int {
    if b {
        v
    } else {
        0
    }
}

/// First PAGE_REG_BITS byte: PageSt in bit 1, PageEnd in bit 2, PrtEnd in bit
/// 3, the cut mode in bits 4-6, Savepaper in bit 7.
pub open spec fn page_reg_low(p: PageRegBits) -> u8 {
    (flag(p.page_st, 2) + flag(p.page_end, 4) + flag(p.prt_end, 8) + 16 * (p.cut as int % 8) + flag(
        p.savepaper,
        128,
    )) as u8
}

/// Second PAGE_REG_BITS byte: FirstCut in bits 0-1, Nodu (density) in bits
/// 2-5, Mat (material type) in bits 6-7.
pub open spec fn page_reg_high(p: PageRegBits) -> u8 {
    (p.first_cut as int % 4 + 4 * (p.nodu as int % 16) + 64 * (p.mat as int % 4)) as u8
}

/// Build PAGE_REG_BITS (2 bytes) for a print buffer header.
pub fn build_page_reg_bits(p: &PageRegBits) -> (r: [u8; 2])
    ensures
        r@ == seq![page_reg_low(*p), page_reg_high(*p)],
{
    let st: u8 = if p.page_st { 0x02 } else { 0 };
    let end: u8 = if p.page_end { 0x04 } else { 0 };
    let prt: u8 = if p.prt_end { 0x08 } else { 0 };
    let save: u8 = if p.savepaper { 0x80 } else { 0 };
    let cut: u8 = p.cut;
    let b0: u8 = ((st | end | prt) & 0x0F) | ((cut & 0x07) << 4) | save;
    assert(b0 == st + end + prt + 16 * (cut % 8) + save) by (bit_vector)
        requires
            b0 == ((st | end | prt) & 0x0F) | ((cut & 0x07) << 4) | save,
            st == 0 || st == 0x02,
            end == 0 || end == 0x04,
            prt == 0 || prt == 0x08,
            save == 0 || save == 0x80,
    ;
    let first: u8 = p.first_cut;
    let nodu: u8 = p.nodu;
    let mat: u8 = p.mat;
    let b1: u8 = (first & 0x03) | ((nodu & 0x0F) << 2) | ((mat & 0x03) << 6);
    assert(b1 == first % 4 + 4 * (nodu % 16) + 64 * (mat % 4)) by (bit_vector)
        requires
            b1 == (first & 0x03) | ((nodu & 0x0F) << 2) | ((mat & 0x03) << 6),
    ;
    let r: [u8; 2] = [b0, b1];
    assert(r@ =~= seq![page_reg_low(*p), page_reg_high(*p)]);
    r
}

/// The two independent burn-energy trims a print buffer carries.
///
/// They land in different places in the buffer header: black in the
/// PAGE_REG_BITS `nodu` field, red in byte 12. They are meant to be driven
/// independently; setting them equal is a special case, not the rule.
#[derive(Debug, Clone, Copy, PartialEq, Eq, Structural)]
pub struct Density {
    pub black: u8,
    pub red: u8,
}

impl Density {
    /// Both trims at the same value.
    pub fn uniform(value: u8) -> (r: Self)
        ensures
            r == (Density { black: value, red: value }),
    {
        Density { black: value, red: value }
    }

    /// How a density is written: `N` where both trims agree, else `BLACK:RED`.
    pub open spec fn text(self) -> Seq<char> {
        if self.black == self.red {
            decimal(self.black as nat)
        } else {
            decimal(self.black as nat).push(':') + decimal(self.red as nat)
        }
    }

    /// The `N` / `BLACK:RED` form that the command line reads back, so logged
    /// sweep settings can be pasted straight into a command.
    pub fn to_string(&self) -> (r: String)
        ensures
            r@ == self.text(),
    {
        let mut out: String = String::new();
        push_decimal(&mut out, self.black as u64);
        assert(out@ =~= decimal(self.black as nat));
        if self.black != self.red {
            out.push(':');
            push_decimal(&mut out, self.red as u64);
        }
        out
    }
}

impl Default for Density {
    fn default() -> (r: Self)
        ensures
            r == (Density { black: 4, red: 4 }),
    {
        Density::uniform(4)
    }
}

/// How many bitplanes each printed column carries.
///
/// Two-colour doubles the data: every column ships a red line followed by a
/// black line. The firmware is told via the `first_cut` field and a doubled
/// column count.
#[derive(Debug, Clone, Copy, Default, PartialEq, Eq, Structural)]
pub enum ColourMode {
    #[default]
    Mono,
    TwoColour,
}

impl ColourMode {
    /// The `first_cut` value that selects the mode.
    pub open spec fn first_cut_value(self) -> u8 {
        match self {
            ColourMode::Mono => 0,
            ColourMode::TwoColour => 2,
        }
    }

    /// Bitplanes per printed column.
    pub open spec fn plane_count(self) -> u16 {
        match self {
            ColourMode::Mono => 1,
            ColourMode::TwoColour => 2,
        }
    }

    /// The `first_cut` value that selects this mode.
    pub fn first_cut(self) -> (r: u8)
        ensures
            r == self.first_cut_value(),
    {
        match self {
            ColourMode::Mono => 0,
            ColourMode::TwoColour => 2,
        }
    }

    /// Bitplanes per printed column.
    pub fn planes(self) -> (r: u16)
        ensures
            r == self.plane_count(),
    {
        match self {
            ColourMode::Mono => 1,
            ColourMode::TwoColour => 2,
        }
    }
}

/// Parameters for building a print buffer.
pub struct PrintBufferParams<'a> {
    pub image_data: &'a [u8],
    pub per_line_byte: u8,
    /// Lines in this buffer, already doubled when `colour` is two-colour.
    pub cols_in_buf: u16,
    pub page_st: bool,
    pub page_end: bool,
    pub prt_end: bool,
    pub margin_top: u16,
    pub margin_bottom: u16,
    pub density: Density,
    pub colour: ColourMode,
}

/// What the header of a print buffer says.
pub struct BufferHeader {
    pub per_line_byte: u8,
    pub cols_in_buf: u16,
    pub page_st: bool,
    pub page_end: bool,
    pub prt_end: bool,
    pub margin_top: u16,
    pub margin_bottom: u16,
    pub density: Density,
    pub colour: ColourMode,
}

impl<'a> PrintBufferParams<'a> {
    /// What goes into the header: all of the parameters but the image bytes.
    pub open spec fn header(self) -> BufferHeader {
        BufferHeader {
            per_line_byte: self.per_line_byte,
            cols_in_buf: self.cols_in_buf,
            page_st: self.page_st,
            page_end: self.page_end,
            prt_end: self.prt_end,
            margin_top: self.margin_top,
            margin_bottom: self.margin_bottom,
            density: self.density,
            colour: self.colour,
        }
    }
}

/// The page register fields of a print buffer.
pub open spec fn header_bits(h: BufferHeader) -> PageRegBits {
    PageRegBits {
        page_st: h.page_st,
        page_end: h.page_end,
        prt_end: h.prt_end,
        cut: 0,
        savepaper: false,
        first_cut: h.colour.first_cut_value(),
        nodu: h.density.black,
        mat: 1,
    }
}

/// A margin, held to the range the header can carry.
pub open spec fn clamped_margin(m: u16) -> u16 {
    if m < 1 {
        1
    } else if m > MARGIN_MAX_DOTS {
        MARGIN_MAX_DOTS
    } else {
        m
    }
}

/// The red trim, held to the range the header can carry.
pub open spec fn clamped_red(red: u8) -> u8 {
    if red > MAX_DENSITY {
        MAX_DENSITY
    } else {
        red
    }
}

/// Byte `i` of a print buffer whose checksum field is still zero.
///
/// ```text
///   [0..1]   Checksum (LE)
///   [2..3]   PAGE_REG_BITS (black density in the `nodu` field)
///   [4..5]   Column count (LE)
///   [6]      Bytes per line
///   [7]      Reserved (0)
///   [8..9]   Margin top (LE, 1-900 dots)
///   [10..11] Margin bottom (LE, 1-900 dots)
///   [12]     Red deepness (0-15)
///   [13]     0
///   [14..]   Image data, zero-filled to the end
/// ```
pub open spec fn body_byte(h: BufferHeader, image: Seq<u8>, i: int) -> u8 {
    if i == 2 {
        page_reg_low(header_bits(h))
    } else if i == 3 {
        page_reg_high(header_bits(h))
    } else if i == 4 {
        byte0(h.cols_in_buf as int)
    } else if i == 5 {
        byte1(h.cols_in_buf as int)
    } else if i == 6 {
        h.per_line_byte
    } else if i == 8 {
        byte0(clamped_margin(h.margin_top) as int)
    } else if i == 9 {
        byte1(clamped_margin(h.margin_top) as int)
    } else if i == 10 {
        byte0(clamped_margin(h.margin_bottom) as int)
    } else if i == 11 {
        byte1(clamped_margin(h.margin_bottom) as int)
    } else if i == 12 {
        clamped_red(h.density.red)
    } else if 14 <= i < 14 + image.len() {
        image[i - 14]
    } else {
        0
    }
}

/// A print buffer whose checksum field is still zero.
pub open spec fn buffer_body(h: BufferHeader, image: Seq<u8>) -> Seq<u8> {
    Seq::new(PRINT_BUF_SIZE as nat, |i: int| body_byte(h, image, i))
}

/// The sum of the bytes just before the first `n` stride boundaries, as far as
/// they lie inside the buffer.
pub open spec fn stride_sum(body: Seq<u8>, n: int) -> nat
    decreases n,
{
    if n <= 0 {
        0
    } else {
        stride_sum(body, n - 1) + (if CHECKSUM_STRIDE * n - 1 < body.len() {
            body[CHECKSUM_STRIDE * n - 1] as nat
        } else {
            0
        })
    }
}

/// The checksum of a print buffer: its header bytes, plus the byte before each
/// stride boundary that the image data reaches.
pub open spec fn buffer_checksum(h: BufferHeader, body: Seq<u8>) -> nat {
    byte_sum(body.subrange(2, 14)) + stride_sum(
        body,
        (h.cols_in_buf * h.per_line_byte + PRINT_BUF_HEADER) / CHECKSUM_STRIDE as int,
    )
}

/// The finished print buffer.
pub open spec fn print_buffer(h: BufferHeader, image: Seq<u8>) -> Seq<u8> {
    let body = buffer_body(h, image);
    let chk = buffer_checksum(h, body) as int;
    body.update(0, byte0(chk)).update(1, byte1(chk))
}

proof fn lemma_stride_sum_bound(body: Seq<u8>, n: int)
    requires
        body.len() == PRINT_BUF_SIZE,
        0 <= n,
    ensures
        stride_sum(body, n) <= 255 * (if n < 16 { n } else { 16 }),
    decreases n,
{
    if n > 0 {
        lemma_stride_sum_bound(body, n - 1);
    }
}

fn clamp_margin(m: u16) -> (r: u16)
    ensures
        r == clamped_margin(m),
{
    if m < 1 {
        1
    } else if m > MARGIN_MAX_DOTS {
        MARGIN_MAX_DOTS
    } else {
        m
    }
}

fn header_sum(buf: &[u8; 4096]) -> (r: u32)
    ensures
        r as nat == byte_sum(buf@.subrange(2, 14)),
        r <= 12 * 255,
{
    let mut i: usize = 2;
    let mut sum: u32 = 0;
    assert(buf@.subrange(2, 2) =~= Seq::<u8>::empty());
    while i < 14
        invariant
            2 <= i <= 14,
            sum as nat == byte_sum(buf@.subrange(2, i as int)),
            sum <= 255 * (i - 2),
        decreases 14 - i,
    {
        sum = sum + buf[i] as u32;
        assert(buf@.subrange(2, i + 1).drop_last() =~= buf@.subrange(2, i as int));
        i += 1;
    }
    sum
}

fn boundary_sum(buf: &[u8; 4096], strides: usize) -> (r: u32)
    requires
        strides <= 65536,
    ensures
        r as nat == stride_sum(buf@, strides as int),
        r <= 16 * 255,
{
    let mut i: usize = 0;
    let mut sum: u32 = 0;
    while i < strides
        invariant
            i <= strides <= 65536,
            sum as nat == stride_sum(buf@, i as int),
        decreases strides - i,
    {
        proof {
            lemma_stride_sum_bound(buf@, i as int);
        }
        i += 1;
        let idx: usize = i * CHECKSUM_STRIDE - 1;
        if idx < 4096 {
            sum = sum + buf[idx] as u32;
        }
    }
    proof {
        lemma_stride_sum_bound(buf@, strides as int);
    }
    sum
}

/// Build a 4096-byte print buffer.
pub fn build_print_buffer(p: &PrintBufferParams) -> (r: [u8; 4096])
    ensures
        r@ == print_buffer(p.header(), p.image_data@),
{
    let mut buf: [u8; 4096] = [0u8; 4096];
    let ghost h = p.header();
    let ghost image = p.image_data@;

    let page_bits: [u8; 2] = build_page_reg_bits(
        &PageRegBits {
            page_st: p.page_st,
            page_end: p.page_end,
            prt_end: p.prt_end,
            cut: 0,
            savepaper: false,
            first_cut: p.colour.first_cut(),
            nodu: p.density.black,
            mat: 1,
        },
    );
    buf[2] = page_bits[0];
    buf[3] = page_bits[1];

    let cols: (u8, u8) = le16(p.cols_in_buf);
    buf[4] = cols.0;
    buf[5] = cols.1;
    buf[6] = p.per_line_byte;

    let top: (u8, u8) = le16(clamp_margin(p.margin_top));
    buf[8] = top.0;
    buf[9] = top.1;
    let bottom: (u8, u8) = le16(clamp_margin(p.margin_bottom));
    buf[10] = bottom.0;
    buf[11] = bottom.1;

    // The black trim rides in PAGE_REG_BITS above, not here.
    buf[12] = if p.density.red > MAX_DENSITY { MAX_DENSITY } else { p.density.red };

    let room: usize = PRINT_BUF_SIZE - PRINT_BUF_HEADER;
    let data_len: usize = if p.image_data.len() < room { p.image_data.len() } else { room };
    let mut i: usize = 0;
    while i < data_len
        invariant
            i <= data_len <= 4082,
            data_len <= image.len(),
            image == p.image_data@,
            forall|j: int|
                0 <= j < 4096 ==> #[trigger] buf@[j] == body_byte(h, image.take(i as int), j),
        decreases data_len - i,
    {
        buf[14 + i] = p.image_data[i];
        i += 1;
    }
    assert(buf@ =~= buffer_body(h, image)) by {
        assert forall|j: int| 0 <= j < 4096 implies buf@[j] == body_byte(h, image, j) by {
            assert(buf@[j] == body_byte(h, image.take(data_len as int), j));
        }
    }
    let ghost body = buf@;

    assert(p.cols_in_buf * p.per_line_byte <= 65535 * 255) by (nonlinear_arith)
        requires
            p.cols_in_buf <= 65535,
            p.per_line_byte <= 255,
    ;
    let prod: usize = (p.cols_in_buf as u32 * p.per_line_byte as u32) as usize;
    let data_end: usize = prod + PRINT_BUF_HEADER;
    let chk: u32 = header_sum(&buf) + boundary_sum(&buf, data_end / CHECKSUM_STRIDE);
    let c: (u8, u8) = le16(chk as u16);
    buf[0] = c.0;
    buf[1] = c.1;
    assert(buf@ =~= body.update(0, byte0(chk as int)).update(1, byte1(chk as int)));
    buf
}

/// A run of feed-direction columns printed at its own density.
///
/// Density is a per-buffer field, and buffers tile the label along the feed
/// axis, so energy can vary from one stripe of the label to the next. Within a
/// printhead line it cannot, except by colour.
#[derive(Debug, Clone, Copy)]
pub struct DensityBand {
    pub cols: u16,
    pub density: Density,
}

/// The columns that one print buffer carries.
#[derive(Debug, Clone, Copy)]
pub struct Chunk {
    /// First printed column, counted from the end of the top margin.
    pub start: u16,
    /// Printed columns.
    pub cols: u16,
    pub density: Density,
}

/// Bytes per printed column.
pub open spec fn column_stride(per_line_byte: u8, colour: ColourMode) -> int {
    per_line_byte * colour.plane_count()
}

/// Most printed columns that fit one buffer.
pub open spec fn columns_per_buffer(per_line_byte: u8, colour: ColourMode) -> int {
    MAX_BUF_DATA as int / column_stride(per_line_byte, colour)
}

/// The columns of all bands together.
pub open spec fn total_cols(bands: Seq<DensityBand>) -> int
    decreases bands.len(),
{
    if bands.len() == 0 {
        0
    } else {
        total_cols(bands.drop_last()) + bands.last().cols
    }
}

/// Piece `j` of a band that begins at column `start`, cut every `max` columns.
pub open spec fn band_piece(start: int, band: DensityBand, max: int, j: int) -> Chunk {
    Chunk {
        start: (start + j * max) as u16,
        cols: (if band.cols - j * max < max {
            band.cols - j * max
        } else {
            max
        }) as u16,
        density: band.density,
    }
}

/// A band that begins at column `start`, cut every `max` columns.
pub open spec fn band_chunks(start: int, band: DensityBand, max: int) -> Seq<Chunk> {
    Seq::new(
        ceil_div(band.cols as int, max) as nat,
        |j: int| band_piece(start, band, max, j),
    )
}

/// How the bands, laid down the feed direction in order, fall into buffers of
/// at most `max` columns each. No buffer spans two bands.
pub open spec fn chunk_plan(bands: Seq<DensityBand>, max: int) -> Seq<Chunk>
    decreases bands.len(),
{
    if bands.len() == 0 {
        Seq::empty()
    } else {
        chunk_plan(bands.drop_last(), max) + band_chunks(
            total_cols(bands.drop_last()),
            bands.last(),
            max,
        )
    }
}

/// The image bytes `[from, to)`, as far as the image reaches; none where it
/// does not reach `from`.
pub open spec fn image_slice(image: Seq<u8>, from: int, to: int) -> Seq<u8> {
    let end = if to < image.len() {
        to
    } else {
        image.len() as int
    };
    if from <= end {
        image.subrange(from, end)
    } else {
        Seq::empty()
    }
}

/// The image bytes of one chunk.
pub open spec fn chunk_image(image: Seq<u8>, stride: int, margin_top: u16, c: Chunk) -> Seq<u8> {
    image_slice(
        image,
        (margin_top + c.start) * stride,
        (margin_top + c.start) * stride + c.cols * stride,
    )
}

/// The header of buffer `i` out of `n`: only the first buffer of the strip opens
/// the page, only the last one ends the page and the job.
pub open spec fn chunk_header(
    c: Chunk,
    i: int,
    n: int,
    per_line_byte: u8,
    margin_top: u16,
    margin_bottom: u16,
    colour: ColourMode,
) -> BufferHeader {
    BufferHeader {
        per_line_byte,
        cols_in_buf: (c.cols * colour.plane_count()) as u16,
        page_st: i == 0,
        page_end: i == n - 1,
        prt_end: i == n - 1,
        margin_top,
        margin_bottom,
        density: c.density,
        colour,
    }
}

/// The print buffers of a banded image.
pub open spec fn banded_buffers(
    image: Seq<u8>,
    per_line_byte: u8,
    bands: Seq<DensityBand>,
    margin_top: u16,
    margin_bottom: u16,
    colour: ColourMode,
) -> Seq<Seq<u8>> {
    let plan = chunk_plan(bands, columns_per_buffer(per_line_byte, colour));
    Seq::new(
        plan.len(),
        |i: int|
            print_buffer(
                chunk_header(
                    plan[i],
                    i,
                    plan.len() as int,
                    per_line_byte,
                    margin_top,
                    margin_bottom,
                    colour,
                ),
                chunk_image(image, column_stride(per_line_byte, colour), margin_top, plan[i]),
            ),
    )
}

/// The column numbers of a banded split fit the header's sixteen bits.
pub open spec fn splittable(
    per_line_byte: u8,
    bands: Seq<DensityBand>,
    margin_top: u16,
    colour: ColourMode,
) -> bool {
    let plan = chunk_plan(bands, columns_per_buffer(per_line_byte, colour));
    &&& per_line_byte > 0
    &&& total_cols(bands) <= u16::MAX
    &&& plan.len() > 0 ==> margin_top + plan.last().start <= u16::MAX
}

pub proof fn lemma_total_cols_mono(bands: Seq<DensityBand>, k: int)
    requires
        0 <= k <= bands.len(),
    ensures
        0 <= total_cols(bands.take(k)) <= total_cols(bands),
    decreases bands.len(),
{
    if k == bands.len() {
        assert(bands.take(k) =~= bands);
        if bands.len() > 0 {
            lemma_total_cols_mono(bands.drop_last(), k - 1);
        }
    } else {
        assert(bands.drop_last().take(k) =~= bands.take(k));
        lemma_total_cols_mono(bands.drop_last(), k);
    }
}

/// The chunks of a plan are not empty, hold at most `max` columns, and tile the
/// columns of the bands from `0` to their total without gap or overlap.
pub proof fn chunks_tile_the_bands(bands: Seq<DensityBand>, max: int)
    requires
        0 < max <= u16::MAX,
        total_cols(bands) <= u16::MAX,
    ensures
        ({
            let plan = chunk_plan(bands, max);
            &&& total_cols(bands) == 0 <==> plan.len() == 0
            &&& plan.len() > 0 ==> plan[0].start == 0 && plan.last().start + plan.last().cols
                == total_cols(bands)
            &&& forall|i: int| 0 <= i < plan.len() ==> 0 < (#[trigger] plan[i]).cols <= max
            &&& forall|i: int|
                0 <= i < plan.len() - 1 ==> (#[trigger] plan[i]).start + plan[i].cols == plan[i
                    + 1].start
        }),
    decreases bands.len(),
{
    if bands.len() > 0 {
        let front = bands.drop_last();
        let band = bands.last();
        let start = total_cols(front);
        lemma_total_cols_mono(bands, front.len() as int);
        assert(bands.take(front.len() as int) =~= front);
        chunks_tile_the_bands(front, max);
        let a = chunk_plan(front, max);
        let b = band_chunks(start, band, max);
        let n = ceil_div(band.cols as int, max);
        lemma_ceil_div(band.cols as int, max);
        assert forall|j: int| 0 <= j < n implies ({
            let c = #[trigger] b[j];
            &&& c.start == start + j * max
            &&& 0 < c.cols <= max
            &&& j < n - 1 ==> c.cols == max
            &&& j == n - 1 ==> c.start + c.cols == start + band.cols
        }) by {
            lemma_piece_bounds(band.cols as int, max, j);
        }
        let plan = a + b;
        assert(chunk_plan(bands, max) == plan);
        assert forall|i: int| 0 <= i < plan.len() - 1 implies (#[trigger] plan[i]).start
            + plan[i].cols == plan[i + 1].start by {
            if i >= a.len() {
                let j = i - a.len();
                assert(plan[i] == b[j]);
                assert(plan[i + 1] == b[j + 1]);
                assert((j + 1) * max == j * max + max) by (nonlinear_arith);
            } else if i == a.len() - 1 {
                assert(plan[i] == a.last());
                assert(plan[i + 1] == b[0]);
            } else {
                assert(plan[i] == a[i]);
                assert(plan[i + 1] == a[i + 1]);
            }
        }
        if n > 0 {
            assert(plan.last() == b[n - 1]);
            if a.len() == 0 {
                assert(plan[0] == b[0]);
            }
        }
    }
}

proof fn lemma_ceil_div(n: int, d: int)
    by (nonlinear_arith)
    requires
        0 <= n,
        0 < d,
    ensures
        0 <= (n + d - 1) / d,
        n == 0 <==> (n + d - 1) / d == 0,
        ((n + d - 1) / d - 1) * d < n || n == 0,
        n <= ((n + d - 1) / d) * d,
{
}

pub proof fn lemma_piece_bounds(n: int, d: int, j: int)
    requires
        0 <= n,
        0 < d,
        0 <= j < ceil_div(n, d),
    ensures
        0 <= j * d < n,
        j < ceil_div(n, d) - 1 ==> j * d + d < n,
        j == ceil_div(n, d) - 1 ==> n <= j * d + d,
{
    lemma_ceil_div(n, d);
    let k = ceil_div(n, d);
    assert(0 <= j * d && j * d <= (k - 1) * d) by (nonlinear_arith)
        requires
            0 <= j <= k - 1,
            0 < d,
    ;
    assert(j * d + d == (j + 1) * d) by (nonlinear_arith);
    if j < k - 1 {
        assert((j + 1) * d <= (k - 1) * d) by (nonlinear_arith)
            requires
                j + 1 <= k - 1,
                0 < d,
        ;
    }
}

/// Cuts the bands into the column runs that each print buffer carries.
fn plan_chunks(bands: &[DensityBand], max_cols: u16) -> (r: Vec<Chunk>)
    requires
        0 < max_cols,
        total_cols(bands@) <= u16::MAX,
    ensures
        r@ == chunk_plan(bands@, max_cols as int),
{
    let mut chunks: Vec<Chunk> = Vec::new();
    let mut current_col: u16 = 0;
    let mut k: usize = 0;
    let ghost max = max_cols as int;
    assert(bands@.take(0) =~= Seq::<DensityBand>::empty());
    while k < bands.len()
        invariant
            0 < max_cols,
            max == max_cols as int,
            k <= bands@.len(),
            total_cols(bands@) <= u16::MAX,
            chunks@ == chunk_plan(bands@.take(k as int), max),
            current_col as int == total_cols(bands@.take(k as int)),
        decreases bands@.len() - k,
    {
        let band: DensityBand = bands[k];
        let ghost start = current_col as int;
        let ghost done = chunks@;
        let ghost pieces = band_chunks(start, band, max);
        let ghost n = ceil_div(band.cols as int, max);
        let ghost mut j: int = 0;
        proof {
            assert(bands@.take(k + 1).drop_last() =~= bands@.take(k as int));
            lemma_total_cols_mono(bands@, k + 1);
            lemma_ceil_div(band.cols as int, max);
            assert(done + pieces.take(0) =~= done);
        }
        let mut cols_remaining: u16 = band.cols;
        while cols_remaining > 0
            invariant
                0 < max_cols,
                max == max_cols as int,
                start + band.cols <= u16::MAX,
                0 <= start,
                n == ceil_div(band.cols as int, max),
                pieces == band_chunks(start, band, max),
                0 <= j <= n,
                cols_remaining > 0 ==> j < n && cols_remaining == band.cols - j * max,
                cols_remaining == 0 ==> j == n,
                current_col + cols_remaining == start + band.cols,
                chunks@ == done + pieces.take(j),
            decreases cols_remaining,
        {
            let cols_in_buf: u16 = if cols_remaining < max_cols {
                cols_remaining
            } else {
                max_cols
            };
            proof {
                lemma_piece_bounds(band.cols as int, max, j);
                assert((j + 1) * max == j * max + max) by (nonlinear_arith);
                lemma_ceil_div(band.cols as int, max);
            }
            chunks.push(
                Chunk { start: current_col, cols: cols_in_buf, density: band.density },
            );
            assert(pieces.take(j + 1) =~= pieces.take(j).push(pieces[j]));
            assert(chunks@ =~= done + pieces.take(j + 1));
            current_col = current_col + cols_in_buf;
            cols_remaining = cols_remaining - cols_in_buf;
            proof {
                j = j + 1;
            }
        }
        assert(pieces.take(j) =~= pieces);
        k += 1;
    }
    assert(bands@.take(k as int) =~= bands@);
    chunks
}

/// Split column-major image data into print buffers, giving each band its own
/// density. Bands are laid down the feed direction in order; a band larger than
/// one buffer's capacity is split across several, all keeping its density.
///
/// `cols` throughout is counted in *printed* columns (printhead lines). Under
/// [`ColourMode::TwoColour`] each of those costs two `per_line_byte` planes, so
/// buffer capacity halves and the header advertises twice the count.
pub fn split_into_banded_buffers(
    image_data: &[u8],
    per_line_byte: u8,
    bands: &[DensityBand],
    margin_top: u16,
    margin_bottom: u16,
    colour: ColourMode,
) -> (r: Vec<[u8; 4096]>)
    requires
        splittable(per_line_byte, bands@, margin_top, colour),
    ensures
        r@.map_values(|b: [u8; 4096]| b@) == banded_buffers(
            image_data@,
            per_line_byte,
            bands@,
            margin_top,
            margin_bottom,
            colour,
        ),
{
    let planes: u16 = colour.planes();
    let stride: usize = per_line_byte as usize * planes as usize;
    let max_cols: u16 = (MAX_BUF_DATA / stride) as u16;
    let ghost max = columns_per_buffer(per_line_byte, colour);
    proof {
        lemma_capacity(per_line_byte, colour);
        chunks_tile_the_bands(bands@, max);
    }
    let chunks: Vec<Chunk> = plan_chunks(bands, max_cols);
    let ghost plan = chunk_plan(bands@, max);
    let ghost want = banded_buffers(
        image_data@,
        per_line_byte,
        bands@,
        margin_top,
        margin_bottom,
        colour,
    );

    let mut out: Vec<[u8; 4096]> = Vec::new();
    let mut i: usize = 0;
    while i < chunks.len()
        invariant
            i <= chunks@.len(),
            chunks@ == plan,
            splittable(per_line_byte, bands@, margin_top, colour),
            plan == chunk_plan(bands@, max),
            max == columns_per_buffer(per_line_byte, colour),
            0 < max <= 4074,
            stride as int == column_stride(per_line_byte, colour),
            0 < stride <= 510,
            max * stride <= 4074,
            planes == colour.plane_count(),
            total_cols(bands@) <= u16::MAX,
            want == banded_buffers(
                image_data@,
                per_line_byte,
                bands@,
                margin_top,
                margin_bottom,
                colour,
            ),
            out@.len() == i,
            forall|k: int| 0 <= k < i ==> (#[trigger] out@[k])@ == want[k],
        decreases chunks@.len() - i,
    {
        let c: Chunk = chunks[i];
        proof {
            chunks_tile_the_bands(bands@, max);
            lemma_starts_increase(bands@, max, i as int);
            assert(c == plan[i as int]);
            assert(c.cols * stride <= max * stride) by (nonlinear_arith)
                requires
                    c.cols <= max,
                    0 < stride,
            ;
            assert((margin_top + c.start) * stride <= 65535 * 510) by (nonlinear_arith)
                requires
                    margin_top + c.start <= 65535,
                    0 <= margin_top + c.start,
                    0 < stride <= 510,
            ;
            assert(c.cols * planes <= 4074 * 2) by (nonlinear_arith)
                requires
                    c.cols <= 4074,
                    planes <= 2,
            ;
        }
        let img_start: usize = (margin_top + c.start) as usize * stride;
        let img_end: usize = img_start + c.cols as usize * stride;
        let end: usize = if img_end < image_data.len() { img_end } else { image_data.len() };
        let chunk: &[u8] = if img_start <= end {
            vstd::slice::slice_subrange(image_data, img_start, end)
        } else {
            vstd::slice::slice_subrange(image_data, 0, 0)
        };
        assert(chunk@ =~= chunk_image(image_data@, stride as int, margin_top, c));
        let buf: [u8; 4096] = build_print_buffer(
            &PrintBufferParams {
                image_data: chunk,
                per_line_byte,
                cols_in_buf: c.cols * planes,
                page_st: i == 0,
                page_end: i == chunks.len() - 1,
                prt_end: i == chunks.len() - 1,
                margin_top,
                margin_bottom,
                density: c.density,
                colour,
            },
        );
        assert(buf@ == want[i as int]);
        out.push(buf);
        i += 1;
    }
    assert(out@.map_values(|b: [u8; 4096]| b@) =~= want);
    out
}

/// Split column-major image data into print buffers, one density throughout.
pub fn split_into_buffers(
    image_data: &[u8],
    per_line_byte: u8,
    total_cols: u16,
    margin_top: u16,
    margin_bottom: u16,
    density: Density,
    colour: ColourMode,
) -> (r: Vec<[u8; 4096]>)
    requires
        margin_top + margin_bottom <= total_cols,
        per_line_byte > 0,
    ensures
        r@.map_values(|b: [u8; 4096]| b@) == banded_buffers(
            image_data@,
            per_line_byte,
            seq![DensityBand { cols: (total_cols - margin_top - margin_bottom) as u16, density }],
            margin_top,
            margin_bottom,
            colour,
        ),
{
    let cols: u16 = total_cols - margin_top - margin_bottom;
    let bands: [DensityBand; 1] = [DensityBand { cols, density }];
    proof {
        let b = seq![DensityBand { cols, density }];
        assert(bands@ =~= b);
        assert(b.drop_last() =~= Seq::<DensityBand>::empty());
        assert(crate::buffer::total_cols(b.drop_last()) == 0);
        assert(crate::buffer::total_cols(b) == cols);
        lemma_capacity(per_line_byte, colour);
        chunks_tile_the_bands(b, columns_per_buffer(per_line_byte, colour));
    }
    split_into_banded_buffers(
        image_data,
        per_line_byte,
        &bands,
        margin_top,
        margin_bottom,
        colour,
    )
}

/// A buffer always has room for some columns, and never for more image bytes
/// than it carries.
pub proof fn lemma_capacity(per_line_byte: u8, colour: ColourMode)
    requires
        per_line_byte > 0,
    ensures
        0 < column_stride(per_line_byte, colour) <= 510,
        0 < columns_per_buffer(per_line_byte, colour) <= MAX_BUF_DATA,
        columns_per_buffer(per_line_byte, colour) * column_stride(per_line_byte, colour)
            <= MAX_BUF_DATA,
{
    let s = column_stride(per_line_byte, colour);
    let m = columns_per_buffer(per_line_byte, colour);
    assert(m * s <= 4074 && 0 < m <= 4074) by (nonlinear_arith)
        requires
            0 < s <= 510,
            m == 4074int / s,
    ;
}

/// Later chunks start at later columns.
proof fn lemma_starts_increase(bands: Seq<DensityBand>, max: int, i: int)
    requires
        0 < max <= u16::MAX,
        total_cols(bands) <= u16::MAX,
        0 <= i < chunk_plan(bands, max).len(),
    ensures
        chunk_plan(bands, max)[i].start <= chunk_plan(bands, max).last().start,
    decreases chunk_plan(bands, max).len() - i,
{
    let plan = chunk_plan(bands, max);
    chunks_tile_the_bands(bands, max);
    if i < plan.len() - 1 {
        assert(plan[i].start + plan[i].cols == plan[i + 1].start);
        lemma_starts_increase(bands, max, i + 1);
    }
}

// ---------------------------------------------------------------------------
// What holds of finished buffers
// ---------------------------------------------------------------------------

/// The column count that a finished buffer advertises.
pub open spec fn advertised_cols(b: Seq<u8>) -> int {
    b[4] + 256 * b[5]
}

/// The image bytes that a finished buffer advertises.
pub open spec fn payload(b: Seq<u8>) -> Seq<u8> {
    b.subrange(14, 14 + advertised_cols(b) * b[6])
}

/// The checksum that a finished buffer carries.
pub open spec fn stored_checksum(b: Seq<u8>) -> int {
    b[0] + 256 * b[1]
}

/// A finished buffer carries the checksum of its own bytes: the header after
/// the checksum field, plus the byte before each stride boundary that the
/// advertised image data reaches.
pub proof fn checksum_covers_the_buffer(h: BufferHeader, image: Seq<u8>)
    ensures
        ({
            let b = print_buffer(h, image);
            stored_checksum(b) == byte_sum(b.subrange(2, 14)) + stride_sum(
                b,
                (advertised_cols(b) * b[6] + PRINT_BUF_HEADER) / CHECKSUM_STRIDE as int,
            )
        }),
{
    let body = buffer_body(h, image);
    let b = print_buffer(h, image);
    let n = (h.cols_in_buf * h.per_line_byte + PRINT_BUF_HEADER) / CHECKSUM_STRIDE as int;
    assert(0 <= h.cols_in_buf * h.per_line_byte) by (nonlinear_arith)
        requires
            0 <= h.cols_in_buf,
            0 <= h.per_line_byte,
    ;
    assert(b.subrange(2, 14) =~= body.subrange(2, 14));
    lemma_stride_sum_same(b, body, n);
    lemma_stride_sum_bound(body, n);
    lemma_byte_sum_bound(body.subrange(2, 14));
    assert(advertised_cols(b) == h.cols_in_buf);
    assert(b[6] == h.per_line_byte);
}

proof fn lemma_byte_sum_bound(s: Seq<u8>)
    ensures
        byte_sum(s) <= 255 * s.len(),
    decreases s.len(),
{
    if s.len() > 0 {
        lemma_byte_sum_bound(s.drop_last());
    }
}

proof fn lemma_stride_sum_same(a: Seq<u8>, b: Seq<u8>, n: int)
    requires
        a.len() == b.len(),
        forall|i: int| 2 <= i < a.len() ==> a[i] == b[i],
    ensures
        stride_sum(a, n) == stride_sum(b, n),
    decreases n,
{
    if n > 0 {
        lemma_stride_sum_same(a, b, n - 1);
    }
}

/// Black and red are separate knobs in separate header fields: changing the red
/// trim leaves the page register alone, changing the black trim leaves the red
/// byte alone, and each can be read back from its own field.
pub proof fn black_and_red_are_independent(h: BufferHeader, image: Seq<u8>)
    ensures
        ({
            let b = print_buffer(h, image);
            &&& b[3] as int / 4 % 16 == h.density.black % 16
            &&& b[12] == clamped_red(h.density.red)
            &&& b[3] as int % 4 == h.colour.first_cut_value()
        }),
        forall|red: u8|
            #![trigger print_buffer(BufferHeader { density: Density { black: h.density.black, red }, ..h }, image)]
            print_buffer(
                BufferHeader { density: Density { black: h.density.black, red }, ..h },
                image,
            )[3] == print_buffer(h, image)[3],
        forall|black: u8|
            #![trigger print_buffer(BufferHeader { density: Density { black, red: h.density.red }, ..h }, image)]
            print_buffer(
                BufferHeader { density: Density { black, red: h.density.red }, ..h },
                image,
            )[12] == print_buffer(h, image)[12],
{
}

/// PageSt is set on the first buffer of a strip only, PageEnd and PrtEnd on the
/// last only.
pub proof fn page_flags_mark_the_ends(
    image: Seq<u8>,
    per_line_byte: u8,
    bands: Seq<DensityBand>,
    margin_top: u16,
    margin_bottom: u16,
    colour: ColourMode,
)
    ensures
        ({
            let bufs = banded_buffers(
                image,
                per_line_byte,
                bands,
                margin_top,
                margin_bottom,
                colour,
            );
            forall|i: int| 0 <= i < bufs.len() ==> {
                let b = #[trigger] bufs[i];
                &&& b[2] as int / 2 % 2 == 1 <==> i == 0
                &&& b[2] as int / 4 % 2 == 1 <==> i == bufs.len() - 1
                &&& b[2] as int / 8 % 2 == 1 <==> i == bufs.len() - 1
            }
        }),
{
}

/// Chunk `i` of a plan lies inside one band and keeps that band's density.
pub open spec fn within_band(bands: Seq<DensityBand>, c: Chunk, b: int) -> bool {
    &&& 0 <= b < bands.len()
    &&& total_cols(bands.take(b)) <= c.start
    &&& c.start + c.cols <= total_cols(bands.take(b + 1))
    &&& c.density == bands[b].density
}

/// Every piece of every band keeps the density of its band, and no piece
/// reaches over into another band.
pub proof fn chunks_keep_their_density(bands: Seq<DensityBand>, max: int, i: int)
    requires
        0 < max <= u16::MAX,
        total_cols(bands) <= u16::MAX,
        0 <= i < chunk_plan(bands, max).len(),
    ensures
        exists|b: int| #[trigger] within_band(bands, chunk_plan(bands, max)[i], b),
    decreases bands.len(),
{
    let front = bands.drop_last();
    let a = chunk_plan(front, max);
    let k = front.len() as int;
    lemma_total_cols_mono(bands, k);
    assert(bands.take(k) =~= front);
    let c = chunk_plan(bands, max)[i];
    if i < a.len() {
        chunks_keep_their_density(front, max, i);
        let b = choose|b: int| #[trigger] within_band(front, a[i], b);
        assert(front.take(b) =~= bands.take(b));
        assert(front.take(b + 1) =~= bands.take(b + 1));
        assert(within_band(bands, c, b));
    } else {
        let band = bands.last();
        lemma_total_cols_mono(bands, 0);
        lemma_piece_bounds(band.cols as int, max, i - a.len());
        assert(bands.take(k + 1) =~= bands);
        lemma_total_cols_mono(front, 0);
        assert(within_band(bands, c, k));
    }
}

/// The image columns that a strip prints leave in the buffers' payloads, in
/// order and complete, wherever the image holds them all.
pub proof fn payloads_rebuild_the_image(
    image: Seq<u8>,
    per_line_byte: u8,
    bands: Seq<DensityBand>,
    margin_top: u16,
    margin_bottom: u16,
    colour: ColourMode,
)
    requires
        splittable(per_line_byte, bands, margin_top, colour),
        image.len() >= (margin_top + total_cols(bands)) * column_stride(per_line_byte, colour),
    ensures
        ({
            let stride = column_stride(per_line_byte, colour);
            let bufs = banded_buffers(
                image,
                per_line_byte,
                bands,
                margin_top,
                margin_bottom,
                colour,
            );
            concat(bufs.map_values(|b: Seq<u8>| payload(b))) == image.subrange(
                margin_top * stride,
                (margin_top + total_cols(bands)) * stride,
            )
        }),
{
    let stride = column_stride(per_line_byte, colour);
    let max = columns_per_buffer(per_line_byte, colour);
    let plan = chunk_plan(bands, max);
    let bufs = banded_buffers(image, per_line_byte, bands, margin_top, margin_bottom, colour);
    let parts = bufs.map_values(|b: Seq<u8>| payload(b));
    let cuts = Seq::new(
        plan.len() + 1,
        |i: int| (margin_top + plan_end(bands, max, i)) * stride,
    );
    lemma_capacity(per_line_byte, colour);
    chunks_tile_the_bands(bands, max);
    lemma_total_cols_mono(bands, 0);
    let total = total_cols(bands);
    assert(0 <= margin_top * stride <= (margin_top + total) * stride) by (nonlinear_arith)
        requires
            0 <= margin_top,
            0 <= total,
            0 < stride,
    ;
    assert(cuts[0] == margin_top * stride);
    assert forall|i: int| 0 <= i < parts.len() implies 0 <= #[trigger] cuts[i] <= cuts[i + 1]
        <= image.len() && parts[i] == image.subrange(cuts[i], cuts[i + 1]) by {
        lemma_strip_part(image, per_line_byte, bands, margin_top, margin_bottom, colour, i);
    }
    lemma_join_pieces(image, parts, cuts);
    assert(plan_end(bands, max, plan.len() as int) == total);
    assert(cuts.last() == (margin_top + total) * stride);
}

/// The column after the first `k` chunks of a plan.
spec fn plan_end(bands: Seq<DensityBand>, max: int, k: int) -> int {
    let plan = chunk_plan(bands, max);
    if k <= 0 {
        0
    } else {
        plan[k - 1].start + plan[k - 1].cols
    }
}

/// Buffer `i` carries the image between two neighbouring cuts.
proof fn lemma_strip_part(
    image: Seq<u8>,
    per_line_byte: u8,
    bands: Seq<DensityBand>,
    margin_top: u16,
    margin_bottom: u16,
    colour: ColourMode,
    i: int,
)
    requires
        splittable(per_line_byte, bands, margin_top, colour),
        image.len() >= (margin_top + total_cols(bands)) * column_stride(per_line_byte, colour),
        0 <= i < chunk_plan(bands, columns_per_buffer(per_line_byte, colour)).len(),
    ensures
        ({
            let stride = column_stride(per_line_byte, colour);
            let max = columns_per_buffer(per_line_byte, colour);
            let from = (margin_top + plan_end(bands, max, i)) * stride;
            let to = (margin_top + plan_end(bands, max, i + 1)) * stride;
            &&& 0 <= from <= to <= image.len()
            &&& payload(
                banded_buffers(image, per_line_byte, bands, margin_top, margin_bottom, colour)[i],
            ) == image.subrange(from, to)
        }),
{
    let stride = column_stride(per_line_byte, colour);
    let max = columns_per_buffer(per_line_byte, colour);
    let plan = chunk_plan(bands, max);
    lemma_capacity(per_line_byte, colour);
    chunks_tile_the_bands(bands, max);
    lemma_plan_end_bound(bands, max, i + 1);
    let c = plan[i];
    let total = total_cols(bands);
    if i > 0 {
        assert(plan[i - 1].start + plan[i - 1].cols == plan[i - 1 + 1].start);
    }
    let from = (margin_top + c.start) * stride;
    let to = from + c.cols * stride;
    assert(to == (margin_top + (c.start + c.cols)) * stride && 0 <= from <= to <= (margin_top
        + total) * stride && to - from == c.cols * stride) by (nonlinear_arith)
        requires
            from == (margin_top + c.start) * stride,
            to == from + c.cols * stride,
            c.start + c.cols <= total,
            0 <= c.start,
            0 <= c.cols,
            0 <= margin_top,
            0 < stride,
    ;
    let h = chunk_header(
        c,
        i,
        plan.len() as int,
        per_line_byte,
        margin_top,
        margin_bottom,
        colour,
    );
    let part = chunk_image(image, stride, margin_top, c);
    assert(part == image.subrange(from, to));
    lemma_chunk_payload(h, part, c, colour);
}

/// A buffer whose image fills its advertised columns gives that image back.
proof fn lemma_chunk_payload(h: BufferHeader, part: Seq<u8>, c: Chunk, colour: ColourMode)
    requires
        h.per_line_byte > 0,
        h.cols_in_buf == (c.cols * colour.plane_count()) as u16,
        c.cols <= columns_per_buffer(h.per_line_byte, colour),
        part.len() == c.cols * column_stride(h.per_line_byte, colour),
    ensures
        payload(print_buffer(h, part)) == part,
{
    let stride = column_stride(h.per_line_byte, colour);
    let max = columns_per_buffer(h.per_line_byte, colour);
    let planes = colour.plane_count();
    lemma_capacity(h.per_line_byte, colour);
    assert(c.cols * stride <= 4074) by (nonlinear_arith)
        requires
            c.cols <= max,
            max * stride <= 4074,
            0 < stride,
    ;
    assert(c.cols * planes <= 4074 * 2) by (nonlinear_arith)
        requires
            c.cols <= 4074,
            planes <= 2,
    ;
    assert((c.cols * planes) * h.per_line_byte == c.cols * stride) by (nonlinear_arith)
        requires
            stride == h.per_line_byte * planes,
    ;
    let b = print_buffer(h, part);
    assert(b[6] == h.per_line_byte);
    assert(advertised_cols(b) == c.cols * planes);
    assert(payload(b) =~= part) by {
        assert forall|j: int| 0 <= j < part.len() implies payload(b)[j] == part[j] by {
            assert(b[14 + j] == body_byte(h, part, 14 + j));
        }
    }
}

proof fn lemma_plan_end_bound(bands: Seq<DensityBand>, max: int, k: int)
    requires
        0 < max <= u16::MAX,
        total_cols(bands) <= u16::MAX,
        0 < k <= chunk_plan(bands, max).len(),
    ensures
        plan_end(bands, max, k) <= total_cols(bands),
    decreases chunk_plan(bands, max).len() - k,
{
    let plan = chunk_plan(bands, max);
    chunks_tile_the_bands(bands, max);
    if k < plan.len() {
        lemma_plan_end_bound(bands, max, k + 1);
        assert(plan[k - 1].start + plan[k - 1].cols == plan[k - 1 + 1].start);
    }
}

} // verus!
