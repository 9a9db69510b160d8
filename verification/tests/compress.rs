//! LZMA blocks.

use supvan::compress::{
    compress_buffers, compress_lzma, decompress_lzma, next_take, set_plain_size,
    MAX_COMPRESSED_BLOCK,
};
use supvan::error::Error;

#[test]
fn test_compress_lzma_header() {
    let data = vec![0u8; 4096];
    let compressed = compress_lzma(&data).unwrap();

    // Check header
    assert!(
        compressed.len() >= 13,
        "compressed too short: {}",
        compressed.len()
    );
    // Properties byte: lc=3, lp=0, pb=2 -> 0x5D
    assert_eq!(compressed[0], 0x5D, "wrong properties byte");
    // Dict size: 8192 LE
    assert_eq!(&compressed[1..5], &8192u32.to_le_bytes(), "wrong dict size");
    // Uncompressed size: 4096 LE
    assert_eq!(
        &compressed[5..13],
        &4096u64.to_le_bytes(),
        "wrong uncompressed size"
    );
}

#[test]
fn test_compress_roundtrip() {
    let data = vec![0x42u8; 1024];
    let compressed = compress_lzma(&data).unwrap();

    // Verifies the LZMA payload round-trips via the shared decoder. The
    // patched header bytes are checked separately by `test_compress_lzma_header`.
    let decompressed = decompress_lzma(&compressed).unwrap();
    assert_eq!(decompressed, data);
}

/// A short page packs into a single block, which is what makes an 8-buffer
/// 50×80 mm label print in full. Splitting it in two is the bug that left
/// half a label on the platen.
#[test]
fn a_long_page_packs_into_one_block() {
    // 8 buffers is a 50×80 mm page on a T50 Pro.
    let buffers = vec![[0u8; 4096]; 8];
    let (blocks, avg) = compress_buffers(&buffers).unwrap();
    assert_eq!(blocks.len(), 1, "8 buffers must travel as one block");
    assert!(avg > 0);
    let round: Vec<u8> = blocks
        .iter()
        .flat_map(|b| decompress_lzma(b).unwrap())
        .collect();
    assert_eq!(round, buffers.concat(), "buffers lost or reordered");
}

/// The group cap still bounds a page: past [`BUFFER_MAX_COUNT`] buffers the
/// page has to take more than one block.
#[test]
fn groups_past_the_cap_split_into_blocks() {
    // All-zero buffers compress far below the cap, so the split is driven
    // by the group size alone.
    let buffers = vec![[0u8; 4096]; 64];
    let (blocks, _) = compress_buffers(&buffers).unwrap();
    assert_eq!(blocks.len(), 2, "64 buffers pack 32 + 32");
    let round: Vec<u8> = blocks
        .iter()
        .flat_map(|b| decompress_lzma(b).unwrap())
        .collect();
    assert_eq!(round, buffers.concat(), "buffers lost or reordered");
}

/// A group too big compressed shrinks until it fits, rather than being
/// sent over the receive-buffer size.
#[test]
fn oversized_groups_shrink_to_fit() {
    // Pseudo-random bytes: LZMA cannot shrink these, so four together
    // would compress to roughly 16KB and must be split.
    let mut seed = 0x12345678u32;
    let buffers: Vec<[u8; 4096]> = (0..4)
        .map(|_| {
            let mut b = [0u8; 4096];
            for byte in b.iter_mut() {
                seed = seed.wrapping_mul(1664525).wrapping_add(1013904223);
                *byte = (seed >> 24) as u8;
            }
            b
        })
        .collect();

    let (blocks, _) = compress_buffers(&buffers).unwrap();
    assert_eq!(blocks.len(), 4, "incompressible data cannot be grouped");
    let round: Vec<u8> = blocks
        .iter()
        .flat_map(|b| decompress_lzma(b).unwrap())
        .collect();
    assert_eq!(round, buffers.concat());
}

#[test]
fn no_buffers_are_refused() {
    assert_eq!(
        compress_buffers(&[]),
        Err(Error::InvalidParam("no buffers to compress".to_string()))
    );
}

#[test]
fn a_stream_without_a_header_is_refused() {
    assert_eq!(
        decompress_lzma(&[0x5D; 12]),
        Err(Error::Compression("lzma stream too short: 12 bytes".to_string()))
    );
}

#[test]
fn a_broken_stream_is_refused() {
    let err = decompress_lzma(&[0xFF; 40]).unwrap_err();
    assert!(matches!(err, Error::Compression(m) if m.starts_with("decompress: ")));
}

#[test]
fn compression_changes_and_restores_the_data() {
    let data: Vec<u8> = (0..3000u32).map(|i| (i / 11) as u8).collect();
    let z = compress_lzma(&data).unwrap();
    assert_ne!(z, data);
    assert!(z.len() < data.len());
    assert_eq!(decompress_lzma(&z).unwrap(), data);
    let empty = compress_lzma(&[]).unwrap();
    assert_eq!(&empty[5..13], &[0; 8]);
    assert_eq!(decompress_lzma(&empty).unwrap(), Vec::<u8>::new());
}

#[test]
fn the_plain_size_is_little_endian() {
    let mut stream: Vec<u8> = vec![0xAA; 14];
    set_plain_size(&mut stream, 0x0102_0304_0506_0708);
    assert_eq!(
        stream,
        vec![0xAA, 0xAA, 0xAA, 0xAA, 0xAA, 8, 7, 6, 5, 4, 3, 2, 1, 0xAA]
    );
    let mut short: Vec<u8> = vec![1; 12];
    set_plain_size(&mut short, 9);
    assert_eq!(short, vec![1; 12]);
}

#[test]
fn groups_shrink_by_a_quarter_and_end_at_one() {
    assert_eq!(next_take(32, 4001), Some(24));
    assert_eq!(next_take(24, 4001), Some(18));
    assert_eq!(next_take(3, 9000), Some(2));
    assert_eq!(next_take(2, 9000), Some(1));
    assert_eq!(next_take(1, 9000), None);
    assert_eq!(next_take(32, 4000), None);
}

/// The mean is over the buffers, not over the blocks.
#[test]
fn the_mean_is_per_buffer() {
    let buffers = vec![[0u8; 4096]; 8];
    let (blocks, mean) = compress_buffers(&buffers).unwrap();
    assert_eq!(mean, blocks[0].len() / 8);
    assert!(blocks.iter().all(|b| b.len() <= MAX_COMPRESSED_BLOCK));
}

/// Whatever the size field says by then, a block decodes to its data.
#[test]
fn the_size_field_does_not_matter_to_decompression() {
    let data: Vec<u8> = (0..5000u32).map(|i| (i % 97) as u8).collect();
    let z = compress_lzma(&data).unwrap();
    for size in [0u64, 1, 4999, u64::MAX] {
        let mut other = z.clone();
        set_plain_size(&mut other, size);
        assert_eq!(decompress_lzma(&other).unwrap(), data);
    }
}

/// From the header's length on it is the decoder that refuses a stream.
#[test]
fn a_stream_with_a_header_goes_to_the_decoder() {
    for n in [13usize, 14, 40] {
        let err = decompress_lzma(&vec![0xFF; n]).unwrap_err();
        assert!(matches!(err, Error::Compression(m) if m.starts_with("decompress: ")), "{n}");
    }
}

/// Every block of a page carries the header that the firmware reads.
#[test]
fn every_block_of_a_page_has_the_firmware_header() {
    let mut seed: u32 = 1;
    let buffers: Vec<[u8; 4096]> = (0..4)
        .map(|_| {
            std::array::from_fn(|_| {
                seed = seed.wrapping_mul(1664525).wrapping_add(1013904223);
                (seed >> 24) as u8
            })
        })
        .collect();
    let (blocks, mean) = compress_buffers(&buffers).unwrap();
    assert!(mean > 0);
    assert_eq!(blocks.len(), 4);
    for b in &blocks {
        assert_eq!(&b[..5], &[0x5D, 0, 0x20, 0, 0]);
        let size = u64::from_le_bytes(b[5..13].try_into().unwrap());
        assert_eq!(size, decompress_lzma(b).unwrap().len() as u64);
    }
}
