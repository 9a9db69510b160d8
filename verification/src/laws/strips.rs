//! Strips of print buffers: every byte of every buffer, from what the caller
//! asked for.

use crate::buffer::{
    banded_buffers, body_byte, buffer_body, build_page_reg_bits, build_print_buffer,
    checksum_covers_the_buffer, chunk_header, chunk_image, chunk_plan, chunks_tile_the_bands,
    column_stride, columns_per_buffer, lemma_capacity, lemma_piece_bounds, lemma_total_cols_mono,
    print_buffer, split_into_banded_buffers, split_into_buffers, splittable, stride_sum, total_cols,
    BufferHeader, Chunk, ColourMode, Density, DensityBand, PageRegBits, PrintBufferParams,
};
use crate::bytes::byte_sum;
use crate::compress::contents;
use crate::error::Error;
use crate::page::{plain_page, swatch_bands, swatch_page};
use vstd::prelude::*;

verus! {

/// The little-endian number at byte `i`.
pub open spec fn number_at(b: Seq<u8>, i: int) -> int {
    b[i] + 256 * b[i + 1]
}

/// `m`, but at least 1 and at most 900.
pub open spec fn margin_field(m: u16) -> int {
    if m == 0 {
        1
    } else if m > 900 {
        900
    } else {
        m as int
    }
}

/// The bytes `from..to` added up.
pub open spec fn sum_of(b: Seq<u8>, from: int, to: int) -> int
    decreases to - from,
{
    if to <= from {
        0
    } else {
        sum_of(b, from, to - 1) + b[to - 1]
    }
}

/// The last bytes of the first `n` runs of 256 bytes added up, of a buffer of
/// sixteen such runs.
pub open spec fn run_ends(b: Seq<u8>, n: int) -> int
    decreases n,
{
    if n <= 0 {
        0
    } else {
        run_ends(b, n - 1) + if n <= 16 {
            b[256 * n - 1] as int
        } else {
            0
        }
    }
}

/// The image lines that the first `k` buffers announce.
pub open spec fn lines_before(bufs: Seq<[u8; 4096]>, k: int) -> int
    decreases k,
{
    if k <= 0 {
        0
    } else {
        lines_before(bufs, k - 1) + number_at(bufs[k - 1]@, 4)
    }
}

/// The first `i` numbers added up.
pub open spec fn sum_before(cols: Seq<int>, i: int) -> int
    decreases i,
{
    if i <= 0 {
        0
    } else {
        sum_before(cols, i - 1) + cols[i - 1]
    }
}

/// The buffer burns at the trims of the caller: black in bits 2 to 5 of byte 3,
/// red in byte 12.
pub open spec fn burns_at(b: Seq<u8>, d: Density) -> bool {
    &&& b[3] as int / 4 % 16 == d.black % 16
    &&& b[12] == if d.red < 15 {
        d.red as int
    } else {
        15
    }
}

/// Buffer `k` lies in band `i` of the strip, burns at its trims, and is full
/// unless the band ends with it.
pub open spec fn in_band(
    bufs: Seq<[u8; 4096]>,
    per_line: u8,
    cols: Seq<int>,
    trims: Seq<Density>,
    planes: int,
    k: int,
    i: int,
) -> bool {
    &&& 0 <= i < cols.len()
    &&& planes * sum_before(cols, i) <= lines_before(bufs, k)
    &&& lines_before(bufs, k + 1) <= planes * sum_before(cols, i + 1)
    &&& burns_at(bufs[k]@, trims[i])
    &&& lines_before(bufs, k + 1) < planes * sum_before(cols, i + 1) ==> (number_at(bufs[k]@, 4)
        + planes) * per_line > 4074
}

/// What the header of buffer `k` says beside its trims: whether the page begins
/// and ends here, the mode, the line length, the caller's margins and the
/// checksum.
pub open spec fn has_page_header(
    bufs: Seq<[u8; 4096]>,
    per_line: u8,
    top: u16,
    bottom: u16,
    planes: int,
    k: int,
) -> bool {
    let b = bufs[k]@;
    &&& b[2] == (if k == 0 {
        2int
    } else {
        0
    }) + (if k == bufs.len() - 1 {
        12int
    } else {
        0
    })
    &&& b[3] as int % 4 == 2 * (planes - 1)
    &&& b[3] as int / 64 == 1
    &&& 0 < number_at(b, 4) && number_at(b, 4) * per_line <= 4074
    &&& b[6] == per_line && b[7] == 0 && b[13] == 0
    &&& number_at(b, 8) == margin_field(top)
    &&& number_at(b, 10) == margin_field(bottom)
    &&& number_at(b, 0) == sum_of(b, 2, 14) + run_ends(
        b,
        (number_at(b, 4) * per_line + 14) / 256,
    )
}

/// The image bytes of buffer `k` are the image's, from the top margin and the
/// lines of the buffers before on, and zero where there are none.
pub open spec fn carries_the_image(
    bufs: Seq<[u8; 4096]>,
    image: Seq<u8>,
    per_line: u8,
    top: u16,
    planes: int,
    k: int,
) -> bool {
    forall|j: int|
        0 <= j < 4082 ==> {
            let at = (planes * top + lines_before(bufs, k)) * per_line + j;
            #[trigger] bufs[k]@[14 + j] == if j < number_at(bufs[k]@, 4) * per_line && at
                < image.len() {
                image[at]
            } else {
                0
            }
        }
}

/// The buffers are a strip of bands of the given columns, each burned at its own
/// trims, cut out of the image below the top margin.
pub open spec fn is_strip(
    bufs: Seq<[u8; 4096]>,
    image: Seq<u8>,
    per_line: u8,
    cols: Seq<int>,
    trims: Seq<Density>,
    top: u16,
    bottom: u16,
    planes: int,
) -> bool {
    &&& lines_before(bufs, bufs.len() as int) == planes * sum_before(cols, cols.len() as int)
    &&& forall|k: int|
        0 <= k < bufs.len() ==> {
            &&& #[trigger] has_page_header(bufs, per_line, top, bottom, planes, k)
            &&& carries_the_image(bufs, image, per_line, top, planes, k)
            &&& exists|i: int| #[trigger] in_band(bufs, per_line, cols, trims, planes, k, i)
        }
}

// ---------------------------------------------------------------------------
// From the plan of a strip to its bytes
// ---------------------------------------------------------------------------

spec fn cols_of(bands: Seq<DensityBand>) -> Seq<int> {
    bands.map_values(|b: DensityBand| b.cols as int)
}

spec fn trims_of(bands: Seq<DensityBand>) -> Seq<Density> {
    bands.map_values(|b: DensityBand| b.density)
}

pub open spec fn planes_of(colour: ColourMode) -> int {
    if colour is TwoColour {
        2
    } else {
        1
    }
}

proof fn lemma_sums(bands: Seq<DensityBand>, i: int)
    requires
        0 <= i <= bands.len(),
    ensures
        total_cols(bands.take(i)) == sum_before(cols_of(bands), i),
    decreases i,
{
    if i > 0 {
        lemma_sums(bands, i - 1);
        assert(bands.take(i).drop_last() =~= bands.take(i - 1));
        assert(bands.take(i).last() == bands[i - 1]);
    }
}

/// Chunk `k` lies in band `i` and is full unless the band ends with it.
spec fn placed(bands: Seq<DensityBand>, max: int, k: int, i: int) -> bool {
    let c = chunk_plan(bands, max)[k];
    &&& 0 <= i < bands.len()
    &&& total_cols(bands.take(i)) <= c.start
    &&& c.start + c.cols <= total_cols(bands.take(i + 1))
    &&& c.density == bands[i].density
    &&& c.start + c.cols < total_cols(bands.take(i + 1)) ==> c.cols == max
}

proof fn lemma_placed(bands: Seq<DensityBand>, max: int, k: int) -> (i: int)
    requires
        0 < max <= u16::MAX,
        total_cols(bands) <= u16::MAX,
        0 <= k < chunk_plan(bands, max).len(),
    ensures
        placed(bands, max, k, i),
    decreases bands.len(),
{
    let front = bands.drop_last();
    let a = chunk_plan(front, max);
    let n = front.len() as int;
    lemma_total_cols_mono(bands, n);
    assert(bands.take(n) =~= front);
    if k < a.len() {
        let i = lemma_placed(front, max, k);
        assert(front.take(i) =~= bands.take(i));
        assert(front.take(i + 1) =~= bands.take(i + 1));
        i
    } else {
        let band = bands.last();
        lemma_total_cols_mono(bands, 0);
        lemma_piece_bounds(band.cols as int, max, k - a.len());
        assert(bands.take(n + 1) =~= bands);
        lemma_total_cols_mono(front, 0);
        n
    }
}

proof fn lemma_sum_of(b: Seq<u8>, from: int, to: int)
    requires
        0 <= from <= to <= b.len(),
    ensures
        byte_sum(b.subrange(from, to)) == sum_of(b, from, to),
    decreases to - from,
{
    if from < to {
        lemma_sum_of(b, from, to - 1);
        assert(b.subrange(from, to).drop_last() =~= b.subrange(from, to - 1));
    }
}

proof fn lemma_run_ends(b: Seq<u8>, n: int)
    requires
        b.len() == 4096,
    ensures
        stride_sum(b, n) == run_ends(b, n),
    decreases n,
{
    if n > 0 {
        lemma_run_ends(b, n - 1);
    }
}

proof fn lemma_header(h: BufferHeader, part: Seq<u8>)
    ensures
        ({
            let b = print_buffer(h, part);
            &&& b.len() == 4096
            &&& b[2] == (if h.page_st { 2int } else { 0 }) + (if h.page_end { 4int } else { 0 }) + (
            if h.prt_end { 8int } else { 0 })
            &&& b[3] as int % 4 == (if h.colour is TwoColour { 2int } else { 0 })
            &&& b[3] as int / 64 == 1
            &&& burns_at(b, h.density)
            &&& number_at(b, 4) == h.cols_in_buf
            &&& b[6] == h.per_line_byte && b[7] == 0 && b[13] == 0
            &&& number_at(b, 8) == margin_field(h.margin_top)
            &&& number_at(b, 10) == margin_field(h.margin_bottom)
            &&& number_at(b, 0) == sum_of(b, 2, 14) + run_ends(
                b,
                (number_at(b, 4) * h.per_line_byte + 14) / 256,
            )
            &&& forall|j: int|
                0 <= j < 4082 ==> #[trigger] b[14 + j] == if j < part.len() {
                    part[j]
                } else {
                    0
                }
        }),
{
    let b = print_buffer(h, part);
    let body = buffer_body(h, part);
    checksum_covers_the_buffer(h, part);
    lemma_sum_of(b, 2, 14);
    lemma_run_ends(b, (number_at(b, 4) * h.per_line_byte + 14) / 256);
    assert forall|j: int| 0 <= j < 4082 implies #[trigger] b[14 + j] == if j < part.len() {
        part[j]
    } else {
        0
    } by {
        assert(b[14 + j] == body_byte(h, part, 14 + j));
    }
}

proof fn lemma_planes(per_line: u8, colour: ColourMode, cols: u16)
    ensures
        1 <= planes_of(colour) <= 2,
        colour.plane_count() == planes_of(colour),
        column_stride(per_line, colour) == planes_of(colour) * per_line,
        cols <= 4074 ==> (cols * colour.plane_count()) as u16 == planes_of(colour) * cols,
{
    match colour {
        ColourMode::Mono => {
            assert(per_line * 1 == 1 * per_line);
            assert(cols * 1 == 1 * cols);
        },
        ColourMode::TwoColour => {
            assert(per_line * 2 == 2 * per_line);
            assert(cols * 2 == 2 * cols);
        },
    }
}

proof fn lemma_lines(
    bufs: Seq<[u8; 4096]>,
    image: Seq<u8>,
    per_line: u8,
    bands: Seq<DensityBand>,
    top: u16,
    bottom: u16,
    colour: ColourMode,
    k: int,
)
    requires
        splittable(per_line, bands, top, colour),
        contents(bufs) == banded_buffers(image, per_line, bands, top, bottom, colour),
        0 <= k <= bufs.len(),
    ensures
        ({
            let plan = chunk_plan(bands, columns_per_buffer(per_line, colour));
            &&& bufs.len() == plan.len()
            &&& k < plan.len() ==> lines_before(bufs, k) == planes_of(colour) * plan[k].start
            &&& k == plan.len() ==> lines_before(bufs, k) == planes_of(colour) * total_cols(bands)
        }),
    decreases k,
{
    let max = columns_per_buffer(per_line, colour);
    let plan = chunk_plan(bands, max);
    lemma_capacity(per_line, colour);
    chunks_tile_the_bands(bands, max);
    assert(contents(bufs).len() == bufs.len());
    if k > 0 {
        lemma_lines(bufs, image, per_line, bands, top, bottom, colour, k - 1);
        let c = plan[k - 1];
        let h = chunk_header(c, k - 1, plan.len() as int, per_line, top, bottom, colour);
        let part = chunk_image(image, column_stride(per_line, colour), top, c);
        assert(contents(bufs)[k - 1] == bufs[k - 1]@);
        assert(bufs[k - 1]@ == print_buffer(h, part));
        lemma_header(h, part);
        lemma_planes(per_line, colour, c.cols);
        assert(number_at(bufs[k - 1]@, 4) == planes_of(colour) * c.cols);
        assert(planes_of(colour) * (c.start + c.cols) == planes_of(colour) * c.start + planes_of(
            colour,
        ) * c.cols) by (nonlinear_arith);
        if k < plan.len() {
            assert(plan[k - 1].start + plan[k - 1].cols == plan[k - 1 + 1].start);
        }
    }
}

/// Where the image bytes of a chunk come from.
proof fn lemma_cut(top: u16, c: Chunk, per_line: u8, colour: ColourMode)
    requires
        per_line > 0,
        0 < c.cols <= columns_per_buffer(per_line, colour),
    ensures
        ({
            let stride = column_stride(per_line, colour);
            let planes = planes_of(colour);
            let from = (top + c.start) * stride;
            &&& 0 <= from
            &&& from == (planes * top + planes * c.start) * per_line
            &&& c.cols * stride == (planes * c.cols) * per_line
            &&& 0 < c.cols * stride <= 4074
            &&& c.cols == columns_per_buffer(per_line, colour) ==> (planes * c.cols + planes)
                * per_line > 4074
        }),
{
    let stride = column_stride(per_line, colour);
    let max = columns_per_buffer(per_line, colour);
    let planes = planes_of(colour);
    let from = (top + c.start) * stride;
    let size = c.cols * stride;
    lemma_capacity(per_line, colour);
    lemma_planes(per_line, colour, c.cols);
    assert(from == (planes * top + planes * c.start) * per_line) by (nonlinear_arith)
        requires
            from == (top + c.start) * stride,
            stride == planes * per_line,
    ;
    assert(size == (planes * c.cols) * per_line) by (nonlinear_arith)
        requires
            size == c.cols * stride,
            stride == planes * per_line,
    ;
    assert(0 < size <= 4074 && 0 <= from) by (nonlinear_arith)
        requires
            size == c.cols * stride,
            from == (top + c.start) * stride,
            0 < c.cols <= max,
            max * stride <= 4074,
            0 < stride,
            0 <= top,
            0 <= c.start,
    ;
    if c.cols == max {
        assert(max * stride + stride > 4074) by (nonlinear_arith)
            requires
                max == 4074int / stride,
                0 < stride,
        ;
        assert((planes * c.cols + planes) * per_line == c.cols * stride + stride)
            by (nonlinear_arith)
            requires
                stride == planes * per_line,
        ;
    }
}

proof fn lemma_buffer(
    bufs: Seq<[u8; 4096]>,
    image: Seq<u8>,
    per_line: u8,
    bands: Seq<DensityBand>,
    top: u16,
    bottom: u16,
    colour: ColourMode,
    k: int,
) -> (i: int)
    requires
        splittable(per_line, bands, top, colour),
        contents(bufs) == banded_buffers(image, per_line, bands, top, bottom, colour),
        0 <= k < bufs.len(),
    ensures
        has_page_header(bufs, per_line, top, bottom, planes_of(colour), k),
        carries_the_image(bufs, image, per_line, top, planes_of(colour), k),
        in_band(bufs, per_line, cols_of(bands), trims_of(bands), planes_of(colour), k, i),
{
    let max = columns_per_buffer(per_line, colour);
    let stride = column_stride(per_line, colour);
    let plan = chunk_plan(bands, max);
    let planes = planes_of(colour);
    lemma_capacity(per_line, colour);
    chunks_tile_the_bands(bands, max);
    lemma_lines(bufs, image, per_line, bands, top, bottom, colour, k);
    let c = plan[k];
    let h = chunk_header(c, k, plan.len() as int, per_line, top, bottom, colour);
    let part = chunk_image(image, stride, top, c);
    assert(contents(bufs)[k] == bufs[k]@);
    lemma_header(h, part);
    lemma_planes(per_line, colour, c.cols);
    lemma_cut(top, c, per_line, colour);
    let b = bufs[k]@;
    let from = (top + c.start) * stride;
    assert(b == print_buffer(h, part));
    assert(number_at(b, 4) == planes * c.cols);
    assert(0 < planes * c.cols) by (nonlinear_arith)
        requires
            0 < planes,
            0 < c.cols,
    ;
    assert(carries_the_image(bufs, image, per_line, top, planes, k)) by {
        let all = planes * top + lines_before(bufs, k);
        assert(all * per_line == from);
        assert forall|j: int| 0 <= j < 4082 implies {
            let at = all * per_line + j;
            #[trigger] bufs[k]@[14 + j] == if j < number_at(bufs[k]@, 4) * per_line && at
                < image.len() {
                image[at]
            } else {
                0
            }
        } by {
            assert(j < part.len() <==> j < c.cols * stride && from + j < image.len());
        }
    }
    let i = lemma_placed(bands, max, k);
    lemma_sums(bands, i);
    lemma_sums(bands, i + 1);
    let lo = sum_before(cols_of(bands), i);
    let hi = sum_before(cols_of(bands), i + 1);
    assert(planes * lo <= planes * c.start && planes * c.start + planes * c.cols <= planes * hi && (
    planes * c.start + planes * c.cols < planes * hi ==> c.start + c.cols < hi))
        by (nonlinear_arith)
        requires
            1 <= planes,
            lo <= c.start,
            c.start + c.cols <= hi,
    ;
    assert(lines_before(bufs, k + 1) == lines_before(bufs, k) + number_at(bufs[k]@, 4));
    i
}

proof fn lemma_strip(
    bufs: Seq<[u8; 4096]>,
    image: Seq<u8>,
    per_line: u8,
    bands: Seq<DensityBand>,
    top: u16,
    bottom: u16,
    colour: ColourMode,
)
    requires
        splittable(per_line, bands, top, colour),
        contents(bufs) == banded_buffers(image, per_line, bands, top, bottom, colour),
    ensures
        is_strip(
            bufs,
            image,
            per_line,
            cols_of(bands),
            trims_of(bands),
            top,
            bottom,
            planes_of(colour),
        ),
{
    let n = bands.len() as int;
    let planes = planes_of(colour);
    lemma_lines(bufs, image, per_line, bands, top, bottom, colour, bufs.len() as int);
    lemma_sums(bands, n);
    assert(bands.take(n) =~= bands);
    assert forall|k: int| 0 <= k < bufs.len() implies {
        &&& #[trigger] has_page_header(bufs, per_line, top, bottom, planes, k)
        &&& carries_the_image(bufs, image, per_line, top, planes, k)
        &&& exists|i: int| #[trigger]
            in_band(bufs, per_line, cols_of(bands), trims_of(bands), planes, k, i)
    } by {
        let i = lemma_buffer(bufs, image, per_line, bands, top, bottom, colour, k);
        assert(in_band(bufs, per_line, cols_of(bands), trims_of(bands), planes, k, i));
    }
}

// ---------------------------------------------------------------------------
// Laws
// ---------------------------------------------------------------------------

/// A print buffer says what it is built from: the flags, the mode, the counts,
/// the clamped margins, both trims and the checksum, then the image bytes and
/// zeros.
pub proof fn buffers_say_what_they_are_built_from(p: &PrintBufferParams, r: [u8; 4096])
    requires
        call_ensures(build_print_buffer, (p,), r),
    ensures
        ({
            let b = r@;
            &&& b[2] == (if p.page_st { 2int } else { 0 }) + (if p.page_end { 4int } else { 0 }) + (
            if p.prt_end { 8int } else { 0 })
            &&& b[3] as int % 4 == (if p.colour is TwoColour { 2int } else { 0 })
            &&& b[3] as int / 64 == 1
            &&& burns_at(b, p.density)
            &&& number_at(b, 4) == p.cols_in_buf
            &&& b[6] == p.per_line_byte && b[7] == 0 && b[13] == 0
            &&& number_at(b, 8) == margin_field(p.margin_top)
            &&& number_at(b, 10) == margin_field(p.margin_bottom)
            &&& number_at(b, 0) == sum_of(b, 2, 14) + run_ends(
                b,
                (p.cols_in_buf * p.per_line_byte + 14) / 256,
            )
            &&& forall|j: int|
                0 <= j < 4082 ==> #[trigger] b[14 + j] == if j < p.image_data@.len() {
                    p.image_data@[j]
                } else {
                    0
                }
        }),
{
    lemma_header(p.header(), p.image_data@);
}

/// Every field of the page register is read back from its bits.
pub proof fn page_registers_are_read_back(p: &PageRegBits, r: [u8; 2])
    requires
        call_ensures(build_page_reg_bits, (p,), r),
    ensures
        ({
            let low = r@[0] as int;
            let high = r@[1] as int;
            &&& low % 2 == 0
            &&& (low / 2 % 2 == 1) == p.page_st
            &&& (low / 4 % 2 == 1) == p.page_end
            &&& (low / 8 % 2 == 1) == p.prt_end
            &&& low / 16 % 8 == p.cut % 8
            &&& (low / 128 == 1) == p.savepaper
            &&& high % 4 == p.first_cut % 4
            &&& high / 4 % 16 == p.nodu % 16
            &&& high / 64 == p.mat % 4
        }),
{
}

/// A banded split is a strip of its bands: each buffer says where the page
/// begins and ends, carries the caller's margins, burns at the trims of its
/// band, and holds the image's columns in order.
pub proof fn banded_splits_are_strips(
    image: &[u8],
    per_line: u8,
    bands: &[DensityBand],
    top: u16,
    bottom: u16,
    colour: ColourMode,
    r: Vec<[u8; 4096]>,
)
    requires
        splittable(per_line, bands@, top, colour),
        call_ensures(split_into_banded_buffers, (image, per_line, bands, top, bottom, colour), r),
    ensures
        is_strip(
            r@,
            image@,
            per_line,
            Seq::new(bands@.len(), |i: int| bands@[i].cols as int),
            Seq::new(bands@.len(), |i: int| bands@[i].density),
            top,
            bottom,
            if colour is TwoColour {
                2
            } else {
                1
            },
        ),
{
    assert(contents(r@) =~= r@.map_values(|b: [u8; 4096]| b@));
    lemma_strip(r@, image@, per_line, bands@, top, bottom, colour);
    assert(cols_of(bands@) =~= Seq::new(bands@.len(), |i: int| bands@[i].cols as int));
    assert(trims_of(bands@) =~= Seq::new(bands@.len(), |i: int| bands@[i].density));
}

proof fn lemma_one_band(band: DensityBand, per_line: u8, top: u16, colour: ColourMode)
    requires
        per_line > 0,
        top + band.cols <= u16::MAX,
    ensures
        splittable(per_line, seq![band], top, colour),
{
    let bands = seq![band];
    assert(bands.drop_last() =~= Seq::<DensityBand>::empty());
    assert(total_cols(bands.drop_last()) == 0);
    assert(total_cols(bands) == band.cols);
    lemma_capacity(per_line, colour);
    chunks_tile_the_bands(bands, columns_per_buffer(per_line, colour));
}

pub proof fn lemma_one_band_strip(
    bufs: Seq<[u8; 4096]>,
    image: Seq<u8>,
    per_line: u8,
    band: DensityBand,
    top: u16,
    bottom: u16,
    colour: ColourMode,
)
    requires
        per_line > 0,
        top + band.cols <= u16::MAX,
        contents(bufs) == banded_buffers(image, per_line, seq![band], top, bottom, colour),
    ensures
        is_strip(
            bufs,
            image,
            per_line,
            seq![band.cols as int],
            seq![band.density],
            top,
            bottom,
            planes_of(colour),
        ),
{
    lemma_one_band(band, per_line, top, colour);
    lemma_strip(bufs, image, per_line, seq![band], top, bottom, colour);
    assert(cols_of(seq![band]) =~= seq![band.cols as int]);
    assert(trims_of(seq![band]) =~= seq![band.density]);
}

/// A split at one density is a strip of one band: what the margins leave of the
/// columns.
pub proof fn plain_splits_are_strips(
    image: &[u8],
    per_line: u8,
    cols: u16,
    top: u16,
    bottom: u16,
    density: Density,
    colour: ColourMode,
    r: Vec<[u8; 4096]>,
)
    requires
        top + bottom <= cols,
        per_line > 0,
        call_ensures(
            split_into_buffers,
            (image, per_line, cols, top, bottom, density, colour),
            r,
        ),
    ensures
        is_strip(
            r@,
            image@,
            per_line,
            seq![cols - top - bottom],
            seq![density],
            top,
            bottom,
            if colour is TwoColour {
                2
            } else {
                1
            },
        ),
{
    assert(contents(r@) =~= r@.map_values(|b: [u8; 4096]| b@));
    let band = DensityBand { cols: (cols - top - bottom) as u16, density };
    lemma_one_band_strip(r@, image@, per_line, band, top, bottom, colour);
}

/// A plain page is a strip of one band between two equal margins, one bit per
/// dot.
pub proof fn plain_pages_are_strips(
    image: &[u8],
    per_line: u32,
    cols: u32,
    density: Density,
    margin: u16,
    r: Vec<[u8; 4096]>,
)
    requires
        per_line % 256 > 0,
        2 * margin <= cols % 65536,
        call_ensures(plain_page, (image, per_line, cols, density, margin), r),
    ensures
        is_strip(
            r@,
            image@,
            (per_line % 256) as u8,
            seq![cols as int % 65536 - 2 * margin],
            seq![density],
            margin,
            margin,
            1,
        ),
{
    let band = DensityBand { cols: (cols % 65536 - 2 * margin) as u16, density };
    lemma_one_band_strip(
        r@,
        image@,
        (per_line % 256) as u8,
        band,
        margin,
        margin,
        ColourMode::Mono,
    );
}

/// A calibration strip has one band for each density that the caller lists, all
/// of the same columns, each burned at its own black and its own red trim.
pub proof fn calibration_strips_burn_each_band_at_its_trims(
    densities: &[Density],
    height_mm: u32,
    image: &[u8],
    per_line: u32,
    band_cols: u32,
    margin: u16,
    r: Vec<[u8; 4096]>,
)
    requires
        splittable(
            (per_line % 256) as u8,
            swatch_bands(densities@, (band_cols % 65536) as u16),
            margin,
            ColourMode::Mono,
        ),
        call_ensures(
            swatch_page,
            (densities, height_mm, image, per_line, band_cols, margin),
            Ok::<Vec<[u8; 4096]>, Error>(r),
        ),
    ensures
        is_strip(
            r@,
            image@,
            (per_line % 256) as u8,
            Seq::new(densities@.len(), |i: int| band_cols as int % 65536),
            densities@,
            margin,
            margin,
            1,
        ),
{
    let bands = swatch_bands(densities@, (band_cols % 65536) as u16);
    lemma_strip(r@, image@, (per_line % 256) as u8, bands, margin, margin, ColourMode::Mono);
    assert(cols_of(bands) =~= Seq::new(densities@.len(), |i: int| band_cols as int % 65536));
    assert(trims_of(bands) =~= densities@);
}

} // verus!
