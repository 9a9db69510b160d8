//! LZMA blocks: how print buffers are packed for transfer.

use crate::buffer::PRINT_BUF_SIZE;
use crate::bytes::{append, concat, le_byte, lemma_concat_add, lemma_concat_push};
use crate::error::Error;
use crate::text::{decimal, push_decimal};
use vstd::prelude::*;

verus! {

/// Largest compressed block the firmware will accept in one transfer,
/// deliberately below the 4096-byte print buffer so the compressed stream
/// always lands inside the firmware's receive buffer.
pub const MAX_COMPRESSED_BLOCK: usize = 4000;

/// Most print buffers packed into one compressed block.
pub const BUFFER_MAX_COUNT: usize = 32;

/// Bytes of the LZMA-alone header: properties, dictionary size, plain size.
pub const LZMA_HEADER: usize = 13;

/// Encoder preset the other options are laid over.
pub const LZMA_PRESET: u32 = 6;

/// Dictionary size. The printer firmware has limited RAM: larger dictionaries
/// fail there.
pub const LZMA_DICT_SIZE: u32 = 8192;

/// Literal context bits.
pub const LZMA_LC: u32 = 3;

/// Literal position bits.
pub const LZMA_LP: u32 = 0;

/// Position bits.
pub const LZMA_PB: u32 = 2;

/// Match length at which the encoder stops looking for a better one.
pub const LZMA_NICE_LEN: u32 = 128;

// ---------------------------------------------------------------------------
// The LZMA coder
// ---------------------------------------------------------------------------

/// The LZMA-alone stream that liblzma's encoder produces for `data` under the
/// given preset, dictionary size, `lc`, `lp`, `pb` and nice length.
pub uninterp spec fn lzma_stream(
    data: Seq<u8>,
    preset: u32,
    dict_size: u32,
    lc: u32,
    lp: u32,
    pb: u32,
    nice_len: u32,
) -> Seq<u8>;

/// The data that liblzma's LZMA-alone decoder gets out of a stream.
pub uninterp spec fn lzma_plain(stream: Seq<u8>) -> Option<Seq<u8>>;

/// The size field says "unknown": the stream ends with its end marker.
pub open spec fn size_is_unknown(stream: Seq<u8>) -> bool {
    forall|i: int| 5 <= i < 13 ==> #[trigger] stream[i] == 0xFF
}

/// Runs liblzma's LZMA-alone encoder: `LzmaOptions::new_preset` with the given
/// options over it, `Stream::new_lzma_encoder`, and `write::XzEncoder` over that
/// stream for all of `data`.
///
/// Of a stream that comes out: it is a function of the arguments; it begins
/// with the 13-byte header that `alone_encoder.c` writes (the packed `lc`, `lp`
/// and `pb`, the dictionary size, eight `0xFF`); the decoder gets `data` back
/// out of it. Whether one comes out rests on the options and on the memory that
/// can be had.
#[verifier::external_body]
fn encode_alone(
    data: &[u8],
    preset: u32,
    dict_size: u32,
    lc: u32,
    lp: u32,
    pb: u32,
    nice_len: u32,
) -> (r: Result<Vec<u8>, String>)
    ensures
        r matches Ok(z) ==> {
            &&& z@ == lzma_stream(data@, preset, dict_size, lc, lp, pb, nice_len)
            &&& z@.len() >= 13
            &&& z@[0] == (pb * 5 + lp) * 9 + lc
            &&& dict_size == 8192 ==> z@.subrange(1, 5) == seq![0u8, 0x20, 0, 0]
            &&& size_is_unknown(z@)
            &&& lzma_plain(z@) == Some(data@)
        },
{
    let mut opts = liblzma::stream::LzmaOptions::new_preset(preset).map_err(
        |e| format!("preset: {e}"),
    )?;
    opts.dict_size(dict_size).literal_context_bits(lc).literal_position_bits(lp).position_bits(
        pb,
    ).nice_len(nice_len);
    let stream = liblzma::stream::Stream::new_lzma_encoder(&opts).map_err(
        |e| format!("encoder: {e}"),
    )?;
    let mut encoder = liblzma::write::XzEncoder::new_stream(Vec::new(), stream);
    std::io::Write::write_all(&mut encoder, data).map_err(|e| format!("write: {e}"))?;
    encoder.finish().map_err(|e| format!("finish: {e}"))
}

/// Runs liblzma's LZMA-alone decoder, `Stream::new_lzma_decoder` under
/// `read::XzDecoder`, over the whole stream.
///
/// What comes out is a function of the stream. Whether anything comes out rests
/// on the stream, the limit and the memory that can be had.
#[verifier::external_body]
fn decode_alone(stream: &[u8], memlimit: u64) -> (r: Result<Vec<u8>, String>)
    ensures
        r matches Ok(d) ==> lzma_plain(stream@) == Some(d@),
{
    let coder = liblzma::stream::Stream::new_lzma_decoder(memlimit).map_err(
        |e| format!("decoder: {e}"),
    )?;
    let mut decoder = liblzma::read::XzDecoder::new_stream(stream, coder);
    let mut out = Vec::new();
    std::io::Read::read_to_end(&mut decoder, &mut out).map_err(|e| format!("decompress: {e}"))?;
    Ok(out)
}

// ---------------------------------------------------------------------------
// The size field
// ---------------------------------------------------------------------------

/// The stream with the plain size `n` in its header.
pub open spec fn with_size(stream: Seq<u8>, n: nat) -> Seq<u8> {
    Seq::new(
        stream.len(),
        |i: int|
            if stream.len() >= 13 && 5 <= i < 13 {
                le_byte(n, i - 5)
            } else {
                stream[i]
            },
    )
}

/// The stream with "unknown" for the plain size in its header.
pub open spec fn with_unknown_size(stream: Seq<u8>) -> Seq<u8> {
    Seq::new(
        stream.len(),
        |i: int|
            if 5 <= i < 13 {
                0xFFu8
            } else {
                stream[i]
            },
    )
}

/// Writes the plain size into the header of an LZMA-alone stream. The printer
/// firmware reads it there; a stream too short to have a header is left alone.
pub fn set_plain_size(stream: &mut Vec<u8>, size: u64)
    ensures
        final(stream)@ == with_size(old(stream)@, size as nat),
{
    let ghost before = stream@;
    if stream.len() < LZMA_HEADER {
        assert(stream@ =~= with_size(before, size as nat));
        return ;
    }
    let mut rest: u64 = size;
    let mut i: usize = 0;
    while i < 8
        invariant
            i <= 8,
            stream@.len() == before.len() >= 13,
            forall|k: int|
                0 <= k ==> #[trigger] le_byte(rest as nat, k) == le_byte(size as nat, i + k),
            forall|j: int|
                0 <= j < before.len() ==> #[trigger] stream@[j] == if 5 <= j < 5 + i {
                    le_byte(size as nat, j - 5)
                } else {
                    before[j]
                },
        decreases 8 - i,
    {
        let ghost held = rest;
        assert(le_byte(held as nat, 0) == le_byte(size as nat, i as int));
        stream.set(5 + i, (rest % 256) as u8);
        rest = rest / 256;
        assert forall|k: int| 0 <= k implies #[trigger] le_byte(rest as nat, k) == le_byte(
            size as nat,
            i + 1 + k,
        ) by {
            assert(le_byte(held as nat, k + 1) == le_byte(size as nat, i + (k + 1)));
        }
        i += 1;
    }
    assert(stream@ =~= with_size(before, size as nat));
}

// ---------------------------------------------------------------------------
// One block
// ---------------------------------------------------------------------------

/// The block that carries `data`: the LZMA-alone stream with printer-compatible
/// parameters and the exact plain size in its header.
pub open spec fn block_of(data: Seq<u8>) -> Seq<u8> {
    with_size(
        lzma_stream(
            data,
            LZMA_PRESET,
            LZMA_DICT_SIZE,
            LZMA_LC,
            LZMA_LP,
            LZMA_PB,
            LZMA_NICE_LEN,
        ),
        data.len(),
    )
}

/// The data that a block decodes to.
pub open spec fn plain_of(block: Seq<u8>) -> Option<Seq<u8>> {
    lzma_plain(with_unknown_size(block))
}

/// The header that the firmware reads: properties `0x5D`, an 8192-byte
/// dictionary, the plain size.
pub open spec fn has_firmware_header(block: Seq<u8>, size: nat) -> bool {
    &&& block.len() >= 13
    &&& block[0] == 0x5D
    &&& block.subrange(1, 5) == seq![0u8, 0x20, 0, 0]
    &&& forall|i: int| 5 <= i < 13 ==> #[trigger] block[i] == le_byte(size, i - 5)
}

/// What becomes of the coder's result: its complaint is a compression error.
pub fn coded(result: Result<Vec<u8>, String>) -> (r: Result<Vec<u8>, Error>)
    ensures
        r == match result {
            Ok(bytes) => Ok::<Vec<u8>, Error>(bytes),
            Err(m) => Err(Error::Compression(m)),
        },
{
    match result {
        Ok(bytes) => Ok(bytes),
        Err(m) => Err(Error::Compression(m)),
    }
}

/// The encoder, run over `data` with printer-compatible parameters, can fail
/// with the complaint `m`.
pub closed spec fn encoder_refused(data: Seq<u8>, m: String) -> bool {
    exists|s: &[u8]|
        s@ == data && #[trigger] call_ensures(
            encode_alone,
            (s, LZMA_PRESET, LZMA_DICT_SIZE, LZMA_LC, LZMA_LP, LZMA_PB, LZMA_NICE_LEN),
            Err::<Vec<u8>, String>(m),
        )
}

/// The decoder, run over `stream` without a memory limit, can fail with the
/// complaint `m`.
pub closed spec fn decoder_refused(stream: Seq<u8>, m: String) -> bool {
    exists|s: &[u8]|
        s@ == stream && #[trigger] call_ensures(
            decode_alone,
            (s, u64::MAX),
            Err::<Vec<u8>, String>(m),
        )
}

/// Compress data using LZMA1 (alone format) with printer-compatible parameters.
///
/// Whether the coder succeeds rests on the memory that can be had; an error is
/// the coder's own complaint.
pub fn compress_lzma(data: &[u8]) -> (r: Result<Vec<u8>, Error>)
    ensures
        match r {
            Ok(z) => {
                &&& z@ == block_of(data@)
                &&& has_firmware_header(z@, data@.len())
                &&& plain_of(z@) == Some(data@)
            },
            Err(e) => e matches Error::Compression(m) && encoder_refused(data@, m),
        },
{
    let encoded: Result<Vec<u8>, String> = encode_alone(
        data,
        LZMA_PRESET,
        LZMA_DICT_SIZE,
        LZMA_LC,
        LZMA_LP,
        LZMA_PB,
        LZMA_NICE_LEN,
    );
    match coded(encoded) {
        Ok(stream) => {
            let mut z: Vec<u8> = stream;
            let ghost raw = z@;
            set_plain_size(&mut z, data.len() as u64);
            assert(z@.subrange(1, 5) =~= raw.subrange(1, 5));
            assert(with_unknown_size(z@) =~= raw);
            Ok(z)
        },
        Err(e) => Err(e),
    }
}

/// What is said of a stream that has no room for a header.
pub open spec fn too_short(len: nat) -> Seq<char> {
    "lzma stream too short: "@ + decimal(len) + " bytes"@
}

/// Decompress an LZMA1-alone stream produced by [`compress_lzma`].
///
/// The header of such a stream carries a definite size although the stream ends
/// with a marker, which strict liblzma builds reject. So the "unknown size"
/// sentinel is restored before decoding.
///
/// A stream with room for a header is always handed to the decoder: an error is
/// then the decoder's own complaint.
pub fn decompress_lzma(data: &[u8]) -> (r: Result<Vec<u8>, Error>)
    ensures
        match r {
            Ok(d) => data@.len() >= 13 && plain_of(data@) == Some(d@),
            Err(e) => {
                &&& e matches Error::Compression(m)
                &&& if data@.len() < 13 {
                    m@ == too_short(data@.len())
                } else {
                    decoder_refused(with_unknown_size(data@), m)
                }
            },
        },
{
    if data.len() < LZMA_HEADER {
        let mut m: String = String::new();
        m.append("lzma stream too short: ");
        push_decimal(&mut m, data.len() as u64);
        m.append(" bytes");
        assert(m@ =~= too_short(data@.len()));
        return Err(Error::Compression(m));
    }
    let mut stream: Vec<u8> = Vec::new();
    append(&mut stream, data);
    assert(stream@ =~= data@);
    let mut i: usize = 5;
    while i < 13
        invariant
            5 <= i <= 13,
            stream@.len() == data@.len() >= 13,
            forall|j: int|
                0 <= j < data@.len() ==> #[trigger] stream@[j] == if 5 <= j < i {
                    0xFFu8
                } else {
                    data@[j]
                },
        decreases 13 - i,
    {
        stream.set(i, 0xFF);
        i += 1;
    }
    assert(stream@ =~= with_unknown_size(data@));
    coded(decode_alone(&stream, u64::MAX))
}

/// The two streams differ in their size fields at most.
pub open spec fn same_but_for_size(a: Seq<u8>, b: Seq<u8>) -> bool {
    with_unknown_size(a) == with_unknown_size(b)
}

/// What was compressed comes back: decompressing a block, whatever its size
/// field says by then, gives the data that was compressed, or the complaint of
/// the decoder on that block.
pub proof fn decompression_inverts_compression(
    data: &[u8],
    block: Vec<u8>,
    stream: &[u8],
    r: Result<Vec<u8>, Error>,
)
    requires
        call_ensures(compress_lzma, (data,), Ok::<Vec<u8>, Error>(block)),
        same_but_for_size(stream@, block@),
        call_ensures(decompress_lzma, (stream,), r),
    ensures
        match r {
            Ok(out) => out@ == data@,
            Err(e) => e matches Error::Compression(m) && decoder_refused(
                with_unknown_size(block@),
                m,
            ),
        },
{
    assert(with_unknown_size(stream@).len() == stream@.len());
    assert(with_unknown_size(block@).len() == block@.len());
}

// ---------------------------------------------------------------------------
// Packing buffers into blocks
// ---------------------------------------------------------------------------

/// The bytes of each buffer.
pub open spec fn contents(buffers: Seq<[u8; PRINT_BUF_SIZE]>) -> Seq<Seq<u8>> {
    buffers.map_values(|b: [u8; PRINT_BUF_SIZE]| b@)
}

/// `take` buffers from `next` on, one after another.
pub open spec fn group(bufs: Seq<Seq<u8>>, next: int, take: int) -> Seq<u8> {
    concat(bufs.subrange(next, next + take))
}

/// Three quarters of a group, and at least one buffer.
pub open spec fn shrunk(take: int) -> int {
    if take * 3 / 4 < 1 {
        1
    } else {
        take * 3 / 4
    }
}

/// The size of the group that is sent when `take` buffers are tried first: the
/// first in the shrinking row whose block fits the receive buffer, and a single
/// buffer where none does.
pub open spec fn settled(bufs: Seq<Seq<u8>>, next: int, take: int) -> int
    decreases take,
{
    if take <= 1 || block_of(group(bufs, next, take)).len() <= MAX_COMPRESSED_BLOCK {
        take
    } else {
        settled(bufs, next, shrunk(take))
    }
}

/// The size that is tried first for the group that starts at `next`.
pub open spec fn first_take(bufs: Seq<Seq<u8>>, next: int) -> int {
    let left = bufs.len() - next;
    if left < BUFFER_MAX_COUNT {
        left
    } else {
        BUFFER_MAX_COUNT as int
    }
}

/// The group that starts at `next`.
pub open spec fn group_size(bufs: Seq<Seq<u8>>, next: int) -> int {
    settled(bufs, next, first_take(bufs, next))
}

/// A group never empties and never grows.
pub proof fn lemma_settled(bufs: Seq<Seq<u8>>, next: int, take: int)
    requires
        1 <= take,
    ensures
        1 <= settled(bufs, next, take) <= take,
    decreases take,
{
    if !(take <= 1 || block_of(group(bufs, next, take)).len() <= MAX_COMPRESSED_BLOCK) {
        lemma_settled(bufs, next, shrunk(take));
    }
}

/// The blocks that carry the buffers from `next` on.
pub open spec fn packed(bufs: Seq<Seq<u8>>, next: int) -> Seq<Seq<u8>>
    decreases bufs.len() - next,
{
    if next < 0 || next >= bufs.len() {
        Seq::empty()
    } else {
        let take = group_size(bufs, next);
        proof {
            lemma_settled(bufs, next, first_take(bufs, next));
        }
        seq![block_of(group(bufs, next, take))] + packed(bufs, next + take)
    }
}

/// One of the groups starts at `at`, where one starts at `next`.
pub open spec fn starts_group(bufs: Seq<Seq<u8>>, next: int, at: int) -> bool
    decreases bufs.len() - next,
{
    if next < 0 || next >= bufs.len() {
        false
    } else {
        proof {
            lemma_settled(bufs, next, first_take(bufs, next));
        }
        next == at || starts_group(bufs, next + group_size(bufs, next), at)
    }
}

/// `take` is in the shrinking row that is tried from `from` on: every size
/// before it gave a block past the receive buffer.
pub open spec fn is_tried(bufs: Seq<Seq<u8>>, next: int, from: int, take: int) -> bool
    decreases from,
{
    from == take || (from > 1 && block_of(group(bufs, next, from)).len() > MAX_COMPRESSED_BLOCK
        && is_tried(bufs, next, shrunk(from), take))
}

/// `e` is what [`compress_lzma`] can give on one of the groups that packing the
/// buffers tries.
pub open spec fn group_refused(bufs: Seq<Seq<u8>>, e: Error) -> bool {
    exists|d: &[u8], next: int, take: int|
        {
            &&& 0 <= next
            &&& 1 <= take <= BUFFER_MAX_COUNT
            &&& next + take <= bufs.len()
            &&& starts_group(bufs, 0, next)
            &&& is_tried(bufs, next, first_take(bufs, next), take)
            &&& d@ == #[trigger] group(bufs, next, take)
            &&& #[trigger] call_ensures(compress_lzma, (d,), Err::<Vec<u8>, Error>(e))
        }
}

proof fn lemma_starts_next(bufs: Seq<Seq<u8>>, from: int, at: int)
    requires
        starts_group(bufs, from, at),
        at + group_size(bufs, at) < bufs.len(),
    ensures
        starts_group(bufs, from, at + group_size(bufs, at)),
    decreases bufs.len() - from,
{
    lemma_settled(bufs, from, first_take(bufs, from));
    if from == at {
        let next = at + group_size(bufs, at);
        assert(starts_group(bufs, next, next));
    } else {
        lemma_starts_next(bufs, from + group_size(bufs, from), at);
    }
}

proof fn lemma_tried_next(bufs: Seq<Seq<u8>>, next: int, from: int, take: int)
    requires
        is_tried(bufs, next, from, take),
        take > 1,
        block_of(group(bufs, next, take)).len() > MAX_COMPRESSED_BLOCK,
    ensures
        is_tried(bufs, next, from, shrunk(take)),
    decreases from,
{
    if from == take {
        assert(is_tried(bufs, next, shrunk(take), shrunk(take)));
    } else {
        lemma_tried_next(bufs, next, shrunk(from), take);
    }
}

/// What the blocks decode to, one after another.
pub open spec fn unpacked(blocks: Seq<Seq<u8>>) -> Option<Seq<u8>>
    decreases blocks.len(),
{
    if blocks.len() == 0 {
        Some(Seq::empty())
    } else {
        match (unpacked(blocks.drop_last()), plain_of(blocks.last())) {
            (Some(front), Some(last)) => Some(front + last),
            _ => None,
        }
    }
}

/// The bytes of every block.
pub open spec fn block_bytes(blocks: Seq<Vec<u8>>) -> Seq<Seq<u8>> {
    blocks.map_values(|b: Vec<u8>| b@)
}

/// The block decodes to at most `BUFFER_MAX_COUNT` buffers, and is past the
/// receive buffer only where it carries a single one.
pub open spec fn is_acceptable(block: Seq<u8>) -> bool {
    &&& plain_of(block) matches Some(p)
    &&& p.len() <= BUFFER_MAX_COUNT * PRINT_BUF_SIZE
    &&& block.len() <= MAX_COMPRESSED_BLOCK || p.len() == PRINT_BUF_SIZE
}

/// The length of all blocks together.
pub open spec fn total_len(blocks: Seq<Seq<u8>>) -> nat
    decreases blocks.len(),
{
    if blocks.len() == 0 {
        0
    } else {
        total_len(blocks.drop_last()) + blocks.last().len()
    }
}

/// What to do with a group of `take` buffers that compressed to `len` bytes:
/// `None` to send it, `Some` with the size of the next group to try.
///
/// The group shrinks by a quarter per attempt: on a page that does not fit,
/// that is the difference between two or three LZMA passes and a dozen. A
/// single buffer has no smaller group to fall back to and is sent anyway.
pub fn next_take(take: usize, len: usize) -> (r: Option<usize>)
    requires
        1 <= take <= BUFFER_MAX_COUNT,
    ensures
        match r {
            None => take == 1 || len <= MAX_COMPRESSED_BLOCK,
            Some(t) => take > 1 && len > MAX_COMPRESSED_BLOCK && t == shrunk(take as int),
        },
{
    if len <= MAX_COMPRESSED_BLOCK || take == 1 {
        None
    } else {
        let t: usize = take * 3 / 4;
        Some(
            if t < 1 {
                1
            } else {
                t
            },
        )
    }
}

proof fn lemma_group_len(bufs: Seq<Seq<u8>>)
    requires
        forall|i: int| 0 <= i < bufs.len() ==> (#[trigger] bufs[i]).len() == PRINT_BUF_SIZE,
    ensures
        concat(bufs).len() == bufs.len() * PRINT_BUF_SIZE,
    decreases bufs.len(),
{
    if bufs.len() > 0 {
        lemma_group_len(bufs.drop_last());
    }
}

/// The buffers `next..next + take`, one after another.
fn join(buffers: &[[u8; PRINT_BUF_SIZE]], next: usize, take: usize) -> (r: Vec<u8>)
    requires
        next + take <= buffers@.len(),
    ensures
        r@ == group(contents(buffers@), next as int, take as int),
{
    let ghost bufs = contents(buffers@);
    let mut out: Vec<u8> = Vec::new();
    let mut i: usize = 0;
    while i < take
        invariant
            i <= take,
            next + take <= buffers.len(),
            bufs == contents(buffers@),
            out@ == concat(bufs.subrange(next as int, next + i)),
        decreases take - i,
    {
        append(&mut out, &buffers[next + i]);
        proof {
            lemma_concat_push(bufs.subrange(next as int, next + i), bufs[next + i]);
            assert(bufs.subrange(next as int, next + i).push(bufs[next + i]) =~= bufs.subrange(
                next as int,
                next + (i + 1),
            ));
        }
        i += 1;
    }
    out
}

/// The mean of the block lengths over `count` buffers, rounded down.
fn mean_len(blocks: &Vec<Vec<u8>>, count: usize) -> (r: usize)
    requires
        blocks@.len() <= count,
        count > 0,
    ensures
        r == total_len(block_bytes(blocks@)) as int / count as int,
{
    let ghost all = block_bytes(blocks@);
    let mut sum: u128 = 0;
    let mut i: usize = 0;
    while i < blocks.len()
        invariant
            i <= blocks.len() <= count,
            all == block_bytes(blocks@),
            sum == total_len(all.take(i as int)),
            sum <= i * (usize::MAX as int),
        decreases blocks.len() - i,
    {
        assert(i * (usize::MAX as int) + usize::MAX <= u128::MAX) by (nonlinear_arith)
            requires
                i < usize::MAX,
        ;
        sum = sum + blocks[i].len() as u128;
        proof {
            assert(all.take(i + 1).drop_last() =~= all.take(i as int));
            assert(all.take(i + 1).last() == blocks@[i as int]@);
            assert((i + 1) * (usize::MAX as int) == i * (usize::MAX as int) + usize::MAX)
                by (nonlinear_arith);
        }
        i += 1;
    }
    assert(all.take(i as int) =~= all);
    let mean: u128 = sum / count as u128;
    assert(mean <= usize::MAX) by (nonlinear_arith)
        requires
            mean == sum / count as u128,
            sum <= i * (usize::MAX as int),
            i <= count,
            count > 0,
    ;
    mean as usize
}

/// Split print buffers into the LZMA blocks the firmware expects, one block
/// per transfer.
///
/// Pack up to [`BUFFER_MAX_COUNT`] buffers, compress, and shrink the group
/// until the result fits [`MAX_COMPRESSED_BLOCK`].
///
/// The group cap is what makes or breaks a long label. A 50x80 mm page is 8
/// buffers: they pack into one block and the whole label prints; split in two,
/// the printer lays down only the first block's worth.
///
/// Returns the blocks and the mean compressed size per buffer, from which the
/// print speed is taken. Whether the coder succeeds rests on the memory that
/// can be had; an error is what [`compress_lzma`] gave on a group that was due.
pub fn compress_buffers(buffers: &[[u8; PRINT_BUF_SIZE]]) -> (r: Result<
    (Vec<Vec<u8>>, usize),
    Error,
>)
    ensures
        buffers@.len() == 0 ==> (r matches Err(Error::InvalidParam(m)) && m@
            == "no buffers to compress"@),
        buffers@.len() > 0 ==> match r {
            Ok((blocks, mean)) => {
                let all = block_bytes(blocks@);
                &&& all == packed(contents(buffers@), 0)
                &&& mean == total_len(all) as int / buffers@.len() as int
                &&& unpacked(all) == Some(concat(contents(buffers@)))
                &&& forall|i: int| 0 <= i < all.len() ==> is_acceptable(#[trigger] all[i])
                &&& forall|i: int|
                    0 <= i < all.len() ==> has_firmware_header(
                        #[trigger] all[i],
                        plain_of(all[i]).unwrap().len(),
                    )
            },
            Err(e) => e is Compression && group_refused(contents(buffers@), e),
        },
{
    if buffers.len() == 0 {
        return Err(Error::InvalidParam("no buffers to compress".to_string()));
    }
    let ghost bufs = contents(buffers@);
    let mut blocks: Vec<Vec<u8>> = Vec::new();
    let mut next: usize = 0;
    assert(bufs.take(0) =~= Seq::<Seq<u8>>::empty());
    assert(block_bytes(blocks@) =~= Seq::<Seq<u8>>::empty());
    assert(Seq::<Seq<u8>>::empty() + packed(bufs, 0) =~= packed(bufs, 0));
    while next < buffers.len()
        invariant
            next <= buffers.len(),
            buffers@.len() > 0,
            bufs == contents(buffers@),
            blocks@.len() <= next,
            block_bytes(blocks@) + packed(bufs, next as int) == packed(bufs, 0),
            unpacked(block_bytes(blocks@)) == Some(concat(bufs.take(next as int))),
            next < buffers.len() ==> starts_group(bufs, 0, next as int),
            forall|i: int|
                0 <= i < blocks@.len() ==> is_acceptable(#[trigger] block_bytes(blocks@)[i]),
            forall|i: int|
                0 <= i < blocks@.len() ==> has_firmware_header(
                    #[trigger] block_bytes(blocks@)[i],
                    plain_of(block_bytes(blocks@)[i]).unwrap().len(),
                ),
        decreases buffers.len() - next,
    {
        let left: usize = buffers.len() - next;
        let mut take: usize = if left < BUFFER_MAX_COUNT {
            left
        } else {
            BUFFER_MAX_COUNT
        };
        let mut block: Vec<u8> = Vec::new();
        let mut settled_on: bool = false;
        while !settled_on
            invariant
                1 <= take <= BUFFER_MAX_COUNT,
                next + take <= buffers.len(),
                bufs == contents(buffers@),
                buffers@.len() > 0,
                starts_group(bufs, 0, next as int),
                is_tried(bufs, next as int, first_take(bufs, next as int), take as int),
                settled(bufs, next as int, take as int) == group_size(bufs, next as int),
                settled_on ==> {
                    &&& take == group_size(bufs, next as int)
                    &&& block@ == block_of(group(bufs, next as int, take as int))
                    &&& plain_of(block@) == Some(group(bufs, next as int, take as int))
                    &&& has_firmware_header(
                        block@,
                        group(bufs, next as int, take as int).len(),
                    )
                    &&& block@.len() <= MAX_COMPRESSED_BLOCK || take == 1
                },
            decreases take, (if settled_on { 0int } else { 1int }),
        {
            let plain: Vec<u8> = join(buffers, next, take);
            match compress_lzma(&plain) {
                Ok(z) => {
                    match next_take(take, z.len()) {
                        None => {
                            block = z;
                            settled_on = true;
                        },
                        Some(t) => {
                            proof {
                                lemma_tried_next(
                                    bufs,
                                    next as int,
                                    first_take(bufs, next as int),
                                    take as int,
                                );
                            }
                            take = t;
                        },
                    }
                },
                Err(e) => {
                    return Err(e);
                },
            }
        }
        proof {
            let part = bufs.subrange(next as int, next + take);
            assert forall|i: int| 0 <= i < part.len() implies (#[trigger] part[i]).len()
                == PRINT_BUF_SIZE by {
                assert(part[i] == buffers@[next + i]@);
            }
            lemma_group_len(part);
            lemma_concat_add(bufs.take(next as int), part);
            assert(bufs.take(next as int) + part =~= bufs.take(next + take));
            assert(block_bytes(blocks@.push(block)) =~= block_bytes(blocks@).push(block@));
            assert(block_bytes(blocks@).push(block@).drop_last() =~= block_bytes(blocks@));
            assert(block_bytes(blocks@).push(block@) + packed(bufs, next + take) =~= block_bytes(
                blocks@,
            ) + packed(bufs, next as int));
            assert(is_acceptable(block@));
        }
        proof {
            if next + take < buffers.len() {
                lemma_starts_next(bufs, 0, next as int);
            }
        }
        blocks.push(block);
        next = next + take;
    }
    assert(bufs.take(next as int) =~= bufs);
    assert(block_bytes(blocks@) + packed(bufs, next as int) =~= block_bytes(blocks@));
    let mean: usize = mean_len(&blocks, buffers.len());
    Ok((blocks, mean))
}

/// Where no group that is tried is refused, the page is packed: a group that is
/// too large shrinks until it fits, and is no reason to give up.
pub proof fn a_page_packs_unless_a_group_is_refused(
    buffers: &[[u8; PRINT_BUF_SIZE]],
    r: Result<(Vec<Vec<u8>>, usize), Error>,
)
    requires
        buffers@.len() > 0,
        forall|e: Error| !group_refused(contents(buffers@), e),
        call_ensures(compress_buffers, (buffers,), r),
    ensures
        r matches Ok((blocks, mean)) && {
            let all = block_bytes(blocks@);
            &&& all.len() > 0
            &&& all == packed(contents(buffers@), 0)
            &&& mean == total_len(all) as int / buffers@.len() as int
        },
{
}

proof fn lemma_total_len(blocks: Seq<Seq<u8>>)
    requires
        forall|i: int| 0 <= i < blocks.len() ==> (#[trigger] blocks[i]).len() >= LZMA_HEADER,
    ensures
        total_len(blocks) >= LZMA_HEADER * blocks.len(),
    decreases blocks.len(),
{
    if blocks.len() > 0 {
        lemma_total_len(blocks.drop_last());
    }
}

/// The mean is positive on a page of no more buffers than a block's header has
/// bytes.
pub proof fn the_mean_of_a_short_page_is_positive(
    buffers: &[[u8; PRINT_BUF_SIZE]],
    blocks: Vec<Vec<u8>>,
    mean: usize,
)
    requires
        0 < buffers@.len() <= LZMA_HEADER,
        call_ensures(compress_buffers, (buffers,), Ok((blocks, mean))),
    ensures
        mean > 0,
{
    let all = block_bytes(blocks@);
    assert(all.len() > 0);
    lemma_total_len(all);
    let total = total_len(all) as int;
    let n = buffers@.len() as int;
    assert(total / n > 0) by (nonlinear_arith)
        requires
            total >= n > 0,
    ;
}

/// A page of up to [`BUFFER_MAX_COUNT`] buffers that compresses into the receive
/// buffer travels as one block, so that a long label prints in full.
pub proof fn short_page_travels_as_one_block(bufs: Seq<Seq<u8>>)
    requires
        0 < bufs.len() <= BUFFER_MAX_COUNT,
        block_of(concat(bufs)).len() <= MAX_COMPRESSED_BLOCK,
    ensures
        packed(bufs, 0) == seq![block_of(concat(bufs))],
{
    let n = bufs.len() as int;
    assert(bufs.subrange(0, n) =~= bufs);
    assert(packed(bufs, n) =~= Seq::<Seq<u8>>::empty());
    assert(packed(bufs, 0) =~= seq![block_of(concat(bufs))]);
}

} // verus!
