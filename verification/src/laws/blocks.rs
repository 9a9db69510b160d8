//! Compressed blocks: what each one holds, and how a page falls into them.

use crate::bytes::{le_byte, lemma_concat_push};
use crate::compress::{
    block_bytes, block_of, compress_buffers, compress_lzma, contents, decompress_lzma, first_take,
    group, group_size, lemma_settled, lzma_plain, lzma_stream, packed, settled, shrunk, total_len,
    with_unknown_size,
};
use crate::error::Error;
use crate::laws::strips::sum_before;
use vstd::prelude::*;

verus! {

/// The stream of the encoder at its preset 6, with a dictionary of 8192 bytes,
/// three literal context bits, no literal position bits, two position bits and a
/// nice length of 128.
pub open spec fn stream_of(data: Seq<u8>) -> Seq<u8> {
    lzma_stream(data, 6, 8192, 3, 0, 2, 128)
}

/// The little-endian number of eight bytes from byte `i` on.
pub open spec fn long_number_at(b: Seq<u8>, i: int) -> int {
    b[i] + 0x100 * b[i + 1] + 0x1_0000 * b[i + 2] + 0x100_0000 * b[i + 3] + 0x1_0000_0000 * b[i + 4]
        + 0x100_0000_0000 * b[i + 5] + 0x1_0000_0000_0000 * b[i + 6] + 0x100_0000_0000_0000 * b[i
        + 7]
}

/// The block is the stream of the data, but for the eight bytes from byte 5 on,
/// which say how long the data is.
pub open spec fn is_block_of(z: Seq<u8>, data: Seq<u8>) -> bool {
    &&& z.len() == stream_of(data).len()
    &&& z.len() >= 13 ==> long_number_at(z, 5) == data.len()
    &&& forall|i: int|
        0 <= i < z.len() && !(z.len() >= 13 && 5 <= i < 13) ==> #[trigger] z[i] == stream_of(data)[i]
}

proof fn lemma_long(n: nat)
    requires
        n < 0x1_0000_0000_0000_0000,
    ensures
        n == le_byte(n, 0) + 0x100 * le_byte(n, 1) + 0x1_0000 * le_byte(n, 2) + 0x100_0000
            * le_byte(n, 3) + 0x1_0000_0000 * le_byte(n, 4) + 0x100_0000_0000 * le_byte(n, 5)
            + 0x1_0000_0000_0000 * le_byte(n, 6) + 0x100_0000_0000_0000 * le_byte(n, 7),
{
    reveal_with_fuel(le_byte, 9);
}

proof fn lemma_block(data: Seq<u8>)
    requires
        data.len() < 0x1_0000_0000_0000_0000,
    ensures
        is_block_of(block_of(data), data),
{
    lemma_long(data.len());
    let z = block_of(data);
    if z.len() >= 13 {
        assert(z[5] == le_byte(data.len(), 0) && z[6] == le_byte(data.len(), 1));
        assert(z[7] == le_byte(data.len(), 2) && z[8] == le_byte(data.len(), 3));
        assert(z[9] == le_byte(data.len(), 4) && z[10] == le_byte(data.len(), 5));
        assert(z[11] == le_byte(data.len(), 6) && z[12] == le_byte(data.len(), 7));
    }
}

/// A compressed block is the stream that the firmware takes: the property byte
/// 0x5D, a dictionary of 8192 bytes, the length of the data, then what the
/// encoder made of the data with the firmware's parameters.
pub proof fn blocks_are_streams_that_say_their_length(data: &[u8], z: Vec<u8>)
    requires
        call_ensures(compress_lzma, (data,), Ok::<Vec<u8>, Error>(z)),
    ensures
        is_block_of(z@, data@),
        z@.len() >= 13,
        z@[0] == 0x5D && z@[1] == 0 && z@[2] == 0x20 && z@[3] == 0 && z@[4] == 0,
        long_number_at(z@, 5) == data@.len(),
{
    assert(data@.len() == data.len());
    lemma_block(data@);
    let head = z@.subrange(1, 5);
    assert(head[0] == z@[1] && head[1] == z@[2] && head[2] == z@[3] && head[3] == z@[4]);
}

/// Decompressing gives what the decoder finds in the stream with eight bytes
/// 0xFF where its length stood, and nothing under thirteen bytes.
pub proof fn lengths_are_blanked_before_decoding(data: &[u8], stream: Seq<u8>, d: Vec<u8>)
    requires
        call_ensures(decompress_lzma, (data,), Ok::<Vec<u8>, Error>(d)),
        stream.len() == data@.len(),
        forall|i: int|
            0 <= i < stream.len() ==> #[trigger] stream[i] == if 5 <= i < 13 {
                0xFFu8
            } else {
                data@[i]
            },
    ensures
        data@.len() >= 13,
        lzma_plain(stream) == Some(d@),
{
    assert(stream =~= with_unknown_size(data@));
}

// ---------------------------------------------------------------------------
// Packing
// ---------------------------------------------------------------------------

/// The bytes of `n` buffers from `from` on, one after another.
pub open spec fn joined(buffers: Seq<[u8; 4096]>, from: int, n: int) -> Seq<u8> {
    Seq::new((4096 * n) as nat, |j: int| buffers[from + j / 4096]@[j % 4096])
}

/// The buffers that a block may begin with: all that are left, at most 32.
pub open spec fn most_at(count: int, from: int) -> int {
    if count - from < 32 {
        count - from
    } else {
        32
    }
}

/// Three quarters of `n`, at least one.
pub open spec fn a_quarter_less(n: int) -> int {
    if n < 2 {
        1
    } else {
        3 * n / 4
    }
}

/// The block holds `n` buffers from `from` on. It fits 4000 bytes unless it holds
/// a single one, and holds fewer than it might only where a group that is larger
/// by a quarter did not fit.
pub open spec fn holds_buffers(z: Seq<u8>, buffers: Seq<[u8; 4096]>, from: int, n: int) -> bool {
    &&& 1 <= n <= most_at(buffers.len() as int, from)
    &&& is_block_of(z, joined(buffers, from, n))
    &&& z.len() <= 4000 || n == 1
    &&& n < most_at(buffers.len() as int, from) ==> exists|t: int|
        {
            &&& n < t <= most_at(buffers.len() as int, from)
            &&& n == a_quarter_less(t)
            &&& stream_of(#[trigger] joined(buffers, from, t)).len() > 4000
        }
}

/// The blocks hold the buffers from `from` on, in order, as many each as listed.
pub open spec fn packs(
    blocks: Seq<Seq<u8>>,
    buffers: Seq<[u8; 4096]>,
    from: int,
    counts: Seq<int>,
) -> bool {
    &&& counts.len() == blocks.len()
    &&& from + sum_before(counts, counts.len() as int) == buffers.len()
    &&& forall|i: int|
        0 <= i < blocks.len() ==> #[trigger] holds_buffers(
            blocks[i],
            buffers,
            from + sum_before(counts, i),
            counts[i],
        )
}

proof fn lemma_joined(buffers: Seq<[u8; 4096]>, from: int, n: int)
    requires
        0 <= from,
        0 <= n,
        from + n <= buffers.len(),
    ensures
        group(contents(buffers), from, n) == joined(buffers, from, n),
    decreases n,
{
    let bufs = contents(buffers);
    let part = bufs.subrange(from, from + n);
    if n == 0 {
        assert(part =~= Seq::<Seq<u8>>::empty());
        assert(joined(buffers, from, 0) =~= Seq::<u8>::empty());
    } else {
        lemma_joined(buffers, from, n - 1);
        let front = bufs.subrange(from, from + n - 1);
        assert(part =~= front.push(bufs[from + n - 1]));
        lemma_concat_push(front, bufs[from + n - 1]);
        let last = buffers[from + n - 1]@;
        assert(bufs[from + n - 1] == last);
        let all = joined(buffers, from, n);
        assert(joined(buffers, from, n - 1) + last =~= all) by {
            assert forall|j: int| 0 <= j < all.len() implies all[j] == (joined(buffers, from, n - 1)
                + last)[j] by {
                if j >= 4096 * (n - 1) {
                    vstd::arithmetic::div_mod::lemma_fundamental_div_mod_converse(
                        j,
                        4096,
                        n - 1,
                        j - 4096 * (n - 1),
                    );
                }
            }
        }
    }
}

proof fn lemma_settles(buffers: Seq<[u8; 4096]>, from: int, take: int)
    requires
        0 <= from,
        1 <= take,
        from + take <= buffers.len(),
    ensures
        ({
            let n = settled(contents(buffers), from, take);
            &&& 1 <= n <= take
            &&& block_of(group(contents(buffers), from, n)).len() <= 4000 || n == 1
            &&& n < take ==> exists|t: int|
                {
                    &&& n < t <= take
                    &&& n == a_quarter_less(t)
                    &&& stream_of(#[trigger] joined(buffers, from, t)).len() > 4000
                }
        }),
    decreases take,
{
    let bufs = contents(buffers);
    lemma_settled(bufs, from, take);
    if !(take <= 1 || block_of(group(bufs, from, take)).len() <= 4000) {
        let less = shrunk(take);
        assert(less == a_quarter_less(take));
        lemma_settles(buffers, from, less);
        lemma_joined(buffers, from, take);
        assert(stream_of(joined(buffers, from, take)).len() > 4000);
        let n = settled(bufs, from, take);
        assert(n == settled(bufs, from, less));
        if n < less {
            let t = choose|t: int|
                {
                    &&& n < t <= less
                    &&& n == a_quarter_less(t)
                    &&& stream_of(#[trigger] joined(buffers, from, t)).len() > 4000
                };
            assert(n < t <= take && n == a_quarter_less(t) && stream_of(
                joined(buffers, from, t),
            ).len() > 4000);
        }
    }
}

proof fn lemma_shift(counts: Seq<int>, first: int, i: int)
    requires
        0 <= i <= counts.len(),
    ensures
        sum_before(seq![first] + counts, i + 1) == first + sum_before(counts, i),
    decreases i,
{
    let all = seq![first] + counts;
    if i == 0 {
        assert(sum_before(all, 1) == sum_before(all, 0) + all[0]);
    } else {
        lemma_shift(counts, first, i - 1);
        assert(all[i] == counts[i - 1]);
    }
}

proof fn lemma_packs(buffers: Seq<[u8; 4096]>, from: int) -> (counts: Seq<int>)
    requires
        0 <= from <= buffers.len(),
        4096 * buffers.len() < 0x1_0000_0000_0000_0000,
    ensures
        packs(packed(contents(buffers), from), buffers, from, counts),
    decreases buffers.len() - from,
{
    let bufs = contents(buffers);
    let blocks = packed(bufs, from);
    if from == buffers.len() {
        Seq::empty()
    } else {
        let n = group_size(bufs, from);
        assert(first_take(bufs, from) == most_at(buffers.len() as int, from));
        lemma_settles(buffers, from, first_take(bufs, from));
        let rest = lemma_packs(buffers, from + n);
        let counts = seq![n] + rest;
        let z = block_of(group(bufs, from, n));
        lemma_joined(buffers, from, n);
        lemma_block(joined(buffers, from, n));
        let tail = packed(bufs, from + n);
        assert(blocks == seq![z] + tail);
        assert(holds_buffers(z, buffers, from, n));
        lemma_shift(rest, n, rest.len() as int);
        assert forall|i: int| 0 <= i < blocks.len() implies #[trigger] holds_buffers(
            blocks[i],
            buffers,
            from + sum_before(counts, i),
            counts[i],
        ) by {
            if i > 0 {
                lemma_shift(rest, n, i - 1);
                assert(blocks[i] == tail[i - 1]);
                assert(counts[i] == rest[i - 1]);
                assert(holds_buffers(
                    tail[i - 1],
                    buffers,
                    from + n + sum_before(rest, i - 1),
                    rest[i - 1],
                ));
            }
        }
        counts
    }
}

/// The bytes of each block.
pub open spec fn bytes_of(blocks: Seq<Vec<u8>>) -> Seq<Seq<u8>> {
    Seq::new(blocks.len(), |i: int| blocks[i]@)
}

/// A page falls into blocks of up to 32 buffers each, in order and complete; a
/// group that does not fit 4000 bytes loses a quarter and is tried again.
pub proof fn pages_fall_into_blocks_that_fit(
    buffers: &[[u8; 4096]],
    blocks: Vec<Vec<u8>>,
    mean: usize,
)
    requires
        buffers@.len() > 0,
        4096 * buffers@.len() < 0x1_0000_0000_0000_0000,
        call_ensures(
            compress_buffers,
            (buffers,),
            Ok::<(Vec<Vec<u8>>, usize), Error>((blocks, mean)),
        ),
    ensures
        exists|counts: Seq<int>| #[trigger]
            packs(bytes_of(blocks@), buffers@, 0, counts),
{
    let all = bytes_of(blocks@);
    assert(all =~= block_bytes(blocks@));
    let counts = lemma_packs(buffers@, 0);
    assert(packs(all, buffers@, 0, counts));
}

proof fn lemma_total(blocks: Seq<Vec<u8>>, n: int)
    requires
        0 <= n <= blocks.len(),
    ensures
        total_len(block_bytes(blocks).take(n)) == sum_before(
            Seq::new(blocks.len(), |i: int| blocks[i]@.len() as int),
            n,
        ),
    decreases n,
{
    if n > 0 {
        lemma_total(blocks, n - 1);
        let all = block_bytes(blocks);
        assert(all.take(n).drop_last() =~= all.take(n - 1));
        assert(all.take(n).last() == blocks[n - 1]@);
    }
}

/// The mean is over the buffers, rounded down: that many bytes for each buffer
/// are no more than all blocks hold, and one more for each would be.
pub proof fn the_mean_is_over_the_buffers(
    buffers: &[[u8; 4096]],
    blocks: Vec<Vec<u8>>,
    mean: usize,
)
    requires
        buffers@.len() > 0,
        call_ensures(
            compress_buffers,
            (buffers,),
            Ok::<(Vec<Vec<u8>>, usize), Error>((blocks, mean)),
        ),
    ensures
        ({
            let bytes = sum_before(
                Seq::new(blocks@.len(), |i: int| blocks@[i]@.len() as int),
                blocks@.len() as int,
            );
            mean * buffers@.len() <= bytes < (mean + 1) * buffers@.len()
        }),
{
    let n = blocks@.len() as int;
    lemma_total(blocks@, n);
    let all = block_bytes(blocks@);
    assert(all.take(n) =~= all);
    let bytes = total_len(all) as int;
    let count = buffers@.len() as int;
    assert(mean * count <= bytes < (mean + 1) * count) by (nonlinear_arith)
        requires
            mean == bytes / count,
            count > 0,
    ;
}

} // verus!
